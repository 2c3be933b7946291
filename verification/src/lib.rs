//! Reassembly of HTTP/1.x transactions, including Server-Sent Events
//! streams, from the payload bytes of captured TCP segments.
//!
//! A captured frame goes through [`link`] to the TCP payload in it, and the
//! payload to the stream of its flow in a [`table::FlowTable`]. There the
//! state machine of [`machine`] cuts the bytes into requests and responses
//! and hands back every transaction that the new bytes completed or, for an
//! event stream, extended. [`render`] turns such a transaction into the
//! coloured text of a transcript. [`laws`] states what holds of every run of
//! the state machine.

pub mod bytes;
pub mod flow;
pub mod head;
pub mod laws;
pub mod link;
pub mod machine;
pub mod render;
pub mod table;
pub mod text;
pub mod transaction;
