//! The record of one HTTP exchange as it accumulates.

use crate::head::{
    announces_event_stream, content_length, is_event_stream, read_content_length,
    render_request_head, render_response_head, request_text, response_text, RequestHead,
    RequestHeadView, ResponseHead, ResponseHeadView,
};
use vstd::prelude::*;

verus! {

/// The phase that a transaction is in. A transaction starts in
/// `RequestBody` or, where its request has no body, in `ResponseHeader`,
/// and only ever moves down this list.
#[derive(Clone, Copy, Debug, PartialEq, Eq, Structural)]
pub enum TransactionState {
    RequestBody,
    ResponseHeader,
    ResponseBody,
}

/// The place of a phase in the order of phases.
pub open spec fn state_rank(state: TransactionState) -> nat {
    match state {
        TransactionState::RequestBody => 0,
        TransactionState::ResponseHeader => 1,
        TransactionState::ResponseBody => 2,
    }
}

/// One HTTP request with what has been seen of its response.
#[derive(Debug)]
pub struct HttpTransaction {
    /// The request line and headers, ready for display.
    pub req_header_text: String,
    pub req_body_bytes: Vec<u8>,
    /// The `Content-Length` of the request, 0 where it declares none.
    pub expected_req_len: usize,
    /// The status line and headers, ready for display; empty until the
    /// response head has been read.
    pub res_header_text: String,
    pub res_body_bytes: Vec<u8>,
    /// The events of an event-stream response, each trimmed.
    pub res_body_events: Vec<String>,
    /// The `Content-Length` of the response, 0 where it declares none.
    pub expected_res_len: usize,
    /// Whether the response is an event stream.
    pub is_sse: bool,
    pub state: TransactionState,
    /// Set by a sink that has shown the request, so that it is not shown
    /// twice.
    pub req_already_emitted: bool,
}

pub struct TransactionView {
    pub req_header_text: Seq<char>,
    pub req_body_bytes: Seq<u8>,
    pub expected_req_len: nat,
    pub res_header_text: Seq<char>,
    pub res_body_bytes: Seq<u8>,
    pub res_body_events: Seq<Seq<char>>,
    pub expected_res_len: nat,
    pub is_sse: bool,
    pub state: TransactionState,
    pub req_already_emitted: bool,
}

impl View for HttpTransaction {
    type V = TransactionView;

    open spec fn view(&self) -> TransactionView {
        TransactionView {
            req_header_text: self.req_header_text@,
            req_body_bytes: self.req_body_bytes@,
            expected_req_len: self.expected_req_len as nat,
            res_header_text: self.res_header_text@,
            res_body_bytes: self.res_body_bytes@,
            res_body_events: self.res_body_events.deep_view(),
            expected_res_len: self.expected_res_len as nat,
            is_sse: self.is_sse,
            state: self.state,
            req_already_emitted: self.req_already_emitted,
        }
    }
}

impl TransactionView {
    /// What holds of every transaction, in progress or completed: no body
    /// is longer than declared, a request body is whole once the request
    /// phase is over, nothing of the response exists before its head has
    /// been read, and only an event stream has events.
    pub open spec fn wf(self) -> bool {
        &&& self.req_body_bytes.len() <= self.expected_req_len
        &&& self.state != TransactionState::RequestBody ==> self.req_body_bytes.len()
            == self.expected_req_len
        &&& !self.is_sse ==> self.res_body_bytes.len() <= self.expected_res_len
            && self.res_body_events.len() == 0
        &&& self.is_sse ==> self.res_body_bytes.len() == 0
        &&& self.state != TransactionState::ResponseBody ==> !self.is_sse
            && self.res_header_text.len() == 0 && self.res_body_bytes.len() == 0
            && self.expected_res_len == 0
    }

    /// A transaction that still waits for bytes: in each body phase at
    /// least one byte of that body is missing.
    pub open spec fn in_progress(self) -> bool {
        &&& self.wf()
        &&& self.state == TransactionState::RequestBody ==> self.req_body_bytes.len()
            < self.expected_req_len
        &&& self.state == TransactionState::ResponseBody && !self.is_sse
            ==> self.res_body_bytes.len() < self.expected_res_len
    }

    /// A framed transaction whose response has arrived in full.
    pub open spec fn completed(self) -> bool {
        &&& self.wf()
        &&& self.state == TransactionState::ResponseBody
        &&& !self.is_sse
        &&& self.res_body_bytes.len() == self.expected_res_len
    }

    /// How many bytes of the request body have not arrived.
    pub open spec fn request_missing(self) -> int {
        self.expected_req_len - self.req_body_bytes.len()
    }

    /// How many bytes of a framed response body have not arrived.
    pub open spec fn response_missing(self) -> int {
        self.expected_res_len - self.res_body_bytes.len()
    }

    /// The transaction after `bytes` of its request body have arrived.
    pub open spec fn take_request_body(self, bytes: Seq<u8>) -> TransactionView {
        let body = self.req_body_bytes + bytes;
        TransactionView {
            req_body_bytes: body,
            state: if body.len() >= self.expected_req_len {
                TransactionState::ResponseHeader
            } else {
                TransactionState::RequestBody
            },
            ..self
        }
    }

    /// The transaction after the head of its response has been read.
    pub open spec fn take_response_head(self, head: ResponseHeadView) -> TransactionView {
        TransactionView {
            res_header_text: response_text(head),
            is_sse: announces_event_stream(head.headers),
            expected_res_len: content_length(head.headers),
            state: TransactionState::ResponseBody,
            ..self
        }
    }

    /// The transaction after `bytes` of its framed response body have
    /// arrived.
    pub open spec fn take_response_body(self, bytes: Seq<u8>) -> TransactionView {
        TransactionView { res_body_bytes: self.res_body_bytes + bytes, ..self }
    }

    /// The transaction after `events` have arrived on its event stream.
    pub open spec fn take_events(self, events: Seq<Seq<char>>) -> TransactionView {
        TransactionView { res_body_events: self.res_body_events + events, ..self }
    }
}

/// The transaction that a request head opens.
pub open spec fn new_transaction(head: RequestHeadView) -> TransactionView {
    let expected = content_length(head.headers);
    TransactionView {
        req_header_text: request_text(head),
        req_body_bytes: Seq::empty(),
        expected_req_len: expected,
        res_header_text: Seq::empty(),
        res_body_bytes: Seq::empty(),
        res_body_events: Seq::empty(),
        expected_res_len: 0,
        is_sse: false,
        state: if expected > 0 {
            TransactionState::RequestBody
        } else {
            TransactionState::ResponseHeader
        },
        req_already_emitted: false,
    }
}

impl HttpTransaction {
    /// Opens the transaction of a request whose head has been read.
    pub fn new(head: &RequestHead) -> (tx: HttpTransaction)
        ensures
            tx@ == new_transaction(head@),
            tx@.in_progress(),
    {
        let expected = read_content_length(head.headers.as_slice());
        let tx = HttpTransaction {
            req_header_text: render_request_head(head),
            req_body_bytes: Vec::new(),
            expected_req_len: expected,
            res_header_text: String::new(),
            res_body_bytes: Vec::new(),
            res_body_events: Vec::new(),
            expected_res_len: 0,
            is_sse: false,
            state: if expected > 0 {
                TransactionState::RequestBody
            } else {
                TransactionState::ResponseHeader
            },
            req_already_emitted: false,
        };
        assert(tx.res_body_events.deep_view() =~= Seq::<Seq<char>>::empty());
        tx
    }

    /// Records the head of the response.
    pub fn record_response_head(&mut self, head: &ResponseHead)
        ensures
            final(self)@ == old(self)@.take_response_head(head@),
    {
        self.res_header_text = render_response_head(head);
        self.is_sse = is_event_stream(head.headers.as_slice());
        self.expected_res_len = read_content_length(head.headers.as_slice());
        self.state = TransactionState::ResponseBody;
    }

    /// A copy of the transaction as it stands.
    pub fn snapshot(&self) -> (copy: HttpTransaction)
        ensures
            copy@ == self@,
    {
        let copy = HttpTransaction {
            req_header_text: self.req_header_text.clone(),
            req_body_bytes: self.req_body_bytes.clone(),
            expected_req_len: self.expected_req_len,
            res_header_text: self.res_header_text.clone(),
            res_body_bytes: self.res_body_bytes.clone(),
            res_body_events: self.res_body_events.clone(),
            expected_res_len: self.expected_res_len,
            is_sse: self.is_sse,
            state: self.state,
            req_already_emitted: self.req_already_emitted,
        };
        assert(copy.req_body_bytes@ =~= self.req_body_bytes@);
        assert(copy.res_body_bytes@ =~= self.res_body_bytes@);
        assert(copy.res_body_events.deep_view() =~= self.res_body_events.deep_view());
        copy
    }
}

} // verus!
