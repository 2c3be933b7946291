//! From a captured frame to the TCP payload that a flow receives.

use crate::flow::{canonical_key, FlowKey, IpAddress};
use crate::machine::{emission_views, EmissionView, Progress, RunView};
use crate::table::{ingest_stream, stream_of, with_stream, FlowTable, FlowView};
use vstd::prelude::*;

verus! {

/// The EtherType of IPv4.
pub const ETHERTYPE_IPV4: u16 = 0x0800;

/// The EtherType of IPv6.
pub const ETHERTYPE_IPV6: u16 = 0x86dd;

/// The protocol family of IPv4 in a loopback header.
pub const FAMILY_IPV4: u32 = 2;

/// The link layer of a capture.
#[derive(Clone, Copy, Debug, PartialEq, Eq, Structural)]
pub enum LinkType {
    /// Ethernet frames.
    Ethernet,
    /// BSD loopback: a protocol family of four bytes before each packet.
    NullLoopback,
    /// Any other link layer; its frames are passed over.
    Other,
}

/// What is read of an Ethernet frame.
pub struct EthernetFrame {
    pub ethertype: u16,
    pub payload: Vec<u8>,
}

pub struct EthernetFrameView {
    pub ethertype: u16,
    pub payload: Seq<u8>,
}

impl View for EthernetFrame {
    type V = EthernetFrameView;

    open spec fn view(&self) -> EthernetFrameView {
        EthernetFrameView { ethertype: self.ethertype, payload: self.payload@ }
    }
}

/// What is read of an IP packet, of either version.
#[derive(Debug)]
pub struct IpPacket {
    pub source: IpAddress,
    pub destination: IpAddress,
    pub payload: Vec<u8>,
}

pub struct IpPacketView {
    pub source: IpAddress,
    pub destination: IpAddress,
    pub payload: Seq<u8>,
}

impl View for IpPacket {
    type V = IpPacketView;

    open spec fn view(&self) -> IpPacketView {
        IpPacketView {
            source: self.source,
            destination: self.destination,
            payload: self.payload@,
        }
    }
}

/// What is read of a TCP segment.
pub struct TcpSegment {
    pub source_port: u16,
    pub destination_port: u16,
    pub payload: Vec<u8>,
}

pub struct TcpSegmentView {
    pub source_port: u16,
    pub destination_port: u16,
    pub payload: Seq<u8>,
}

impl View for TcpSegment {
    type V = TcpSegmentView;

    open spec fn view(&self) -> TcpSegmentView {
        TcpSegmentView {
            source_port: self.source_port,
            destination_port: self.destination_port,
            payload: self.payload@,
        }
    }
}

pub open spec fn frame_view(frame: Option<EthernetFrame>) -> Option<EthernetFrameView> {
    match frame {
        Some(f) => Some(f@),
        None => None,
    }
}

pub open spec fn packet_view(packet: Option<IpPacket>) -> Option<IpPacketView> {
    match packet {
        Some(p) => Some(p@),
        None => None,
    }
}

pub open spec fn segment_view(segment: Option<TcpSegment>) -> Option<TcpSegmentView> {
    match segment {
        Some(s) => Some(s@),
        None => None,
    }
}

/// The EtherType and payload that the packet library reads from `data` as
/// an Ethernet frame, where it accepts `data` as one.
pub uninterp spec fn ethernet_frame(data: Seq<u8>) -> Option<EthernetFrameView>;

/// The addresses and payload that the packet library reads from `data` as
/// an IPv4 packet, where it accepts `data` as one.
pub uninterp spec fn ipv4_packet(data: Seq<u8>) -> Option<IpPacketView>;

/// The addresses and payload that the packet library reads from `data` as
/// an IPv6 packet, where it accepts `data` as one.
pub uninterp spec fn ipv6_packet(data: Seq<u8>) -> Option<IpPacketView>;

/// The ports and payload that the packet library reads from `data` as a TCP
/// segment, where it accepts `data` as one.
pub uninterp spec fn tcp_segment(data: Seq<u8>) -> Option<TcpSegmentView>;

/// Reads an Ethernet frame with pnet's `EthernetPacket`: `new`, then
/// `get_ethertype` and `payload`. What they yield depends on the bytes
/// alone; the contract names it and claims nothing else.
#[verifier::external_body]
pub(crate) fn decode_ethernet(data: &[u8]) -> (frame: Option<EthernetFrame>)
    ensures
        frame_view(frame) == ethernet_frame(data@),
{
    let packet = pnet::packet::ethernet::EthernetPacket::new(data)?;
    Some(
        EthernetFrame {
            ethertype: packet.get_ethertype().0,
            payload: pnet::packet::Packet::payload(&packet).to_vec(),
        },
    )
}

/// Reads an IPv4 packet with pnet's `Ipv4Packet`: `new`, then `get_source`,
/// `get_destination` and `payload`. What they yield depends on the bytes
/// alone; the contract names it and claims nothing else.
#[verifier::external_body]
pub(crate) fn decode_ipv4(data: &[u8]) -> (packet: Option<IpPacket>)
    ensures
        packet_view(packet) == ipv4_packet(data@),
{
    let packet = pnet::packet::ipv4::Ipv4Packet::new(data)?;
    Some(
        IpPacket {
            source: IpAddress::V4(u32::from(packet.get_source())),
            destination: IpAddress::V4(u32::from(packet.get_destination())),
            payload: pnet::packet::Packet::payload(&packet).to_vec(),
        },
    )
}

/// Reads an IPv6 packet with pnet's `Ipv6Packet`: `new`, then `get_source`,
/// `get_destination` and `payload`. What they yield depends on the bytes
/// alone; the contract names it and claims nothing else.
#[verifier::external_body]
pub(crate) fn decode_ipv6(data: &[u8]) -> (packet: Option<IpPacket>)
    ensures
        packet_view(packet) == ipv6_packet(data@),
{
    let packet = pnet::packet::ipv6::Ipv6Packet::new(data)?;
    Some(
        IpPacket {
            source: IpAddress::V6(u128::from(packet.get_source())),
            destination: IpAddress::V6(u128::from(packet.get_destination())),
            payload: pnet::packet::Packet::payload(&packet).to_vec(),
        },
    )
}

/// Reads a TCP segment with pnet's `TcpPacket`: `new`, then `get_source`,
/// `get_destination` and `payload`. What they yield depends on the bytes
/// alone; the contract names it and claims nothing else.
#[verifier::external_body]
pub(crate) fn decode_tcp(data: &[u8]) -> (segment: Option<TcpSegment>)
    ensures
        segment_view(segment) == tcp_segment(data@),
{
    let packet = pnet::packet::tcp::TcpPacket::new(data)?;
    Some(
        TcpSegment {
            source_port: packet.get_source(),
            destination_port: packet.get_destination(),
            payload: pnet::packet::Packet::payload(&packet).to_vec(),
        },
    )
}

/// Four bytes read as a number, most significant byte first.
pub open spec fn big_endian_u32(b0: u8, b1: u8, b2: u8, b3: u8) -> int {
    b0 * 0x100_0000 + b1 * 0x1_0000 + b2 * 0x100 + b3
}

/// Four bytes read as a number, least significant byte first.
pub open spec fn little_endian_u32(b0: u8, b1: u8, b2: u8, b3: u8) -> int {
    b3 * 0x100_0000 + b2 * 0x1_0000 + b1 * 0x100 + b0
}

/// Reads four bytes in the byte order of this machine, with
/// `u32::from_ne_bytes`. Which order that is the contract leaves open: the
/// result is the big-endian or the little-endian reading.
#[verifier::external_body]
pub(crate) fn native_endian_u32(b0: u8, b1: u8, b2: u8, b3: u8) -> (value: u32)
    ensures
        value == big_endian_u32(b0, b1, b2, b3) || value == little_endian_u32(b0, b1, b2, b3),
{
    u32::from_ne_bytes([b0, b1, b2, b3])
}

/// The IP packet in an Ethernet frame: the payload of a frame whose
/// EtherType is that of IPv4 or IPv6, read as a packet of that version.
pub open spec fn ethernet_ip(data: Seq<u8>) -> Option<IpPacketView> {
    match ethernet_frame(data) {
        Some(frame) => if frame.ethertype == ETHERTYPE_IPV4 {
            ipv4_packet(frame.payload)
        } else if frame.ethertype == ETHERTYPE_IPV6 {
            ipv6_packet(frame.payload)
        } else {
            None
        },
        None => None,
    }
}

/// The IP packet behind a loopback header that names the protocol family
/// `family`: IPv4 for 2, IPv6 for 24, 28 and 30, which different systems
/// use for it.
pub open spec fn loopback_ip(family: int, rest: Seq<u8>) -> Option<IpPacketView> {
    if family == FAMILY_IPV4 {
        ipv4_packet(rest)
    } else if family == 24 || family == 28 || family == 30 {
        ipv6_packet(rest)
    } else {
        None
    }
}

/// Whether `packet` is what a loopback frame holds. The family is read
/// most significant byte first where its first two bytes are zero, and in
/// the byte order of the capturing machine otherwise.
pub open spec fn null_loopback_ip(data: Seq<u8>, packet: Option<IpPacketView>) -> bool {
    if data.len() < 4 {
        packet is None
    } else {
        let rest = data.skip(4);
        ||| packet == loopback_ip(big_endian_u32(data[0], data[1], data[2], data[3]), rest)
        ||| (data[0] != 0 || data[1] != 0) && packet == loopback_ip(
            little_endian_u32(data[0], data[1], data[2], data[3]),
            rest,
        )
    }
}

/// Reads the IP packet in an Ethernet frame.
pub fn parse_ethernet(data: &[u8]) -> (packet: Option<IpPacket>)
    ensures
        packet_view(packet) == ethernet_ip(data@),
{
    match decode_ethernet(data) {
        Some(frame) => {
            if frame.ethertype == ETHERTYPE_IPV4 {
                decode_ipv4(frame.payload.as_slice())
            } else if frame.ethertype == ETHERTYPE_IPV6 {
                decode_ipv6(frame.payload.as_slice())
            } else {
                None
            }
        },
        None => None,
    }
}

/// Reads the IP packet behind a loopback header whose protocol family has
/// been read as `family`.
pub fn parse_loopback_payload(family: u32, rest: &[u8]) -> (packet: Option<IpPacket>)
    ensures
        packet_view(packet) == loopback_ip(family as int, rest@),
{
    if family == FAMILY_IPV4 {
        decode_ipv4(rest)
    } else if family == 24 || family == 28 || family == 30 {
        decode_ipv6(rest)
    } else {
        None
    }
}

/// Reads the IP packet in a BSD loopback frame.
pub fn parse_null_loopback(data: &[u8]) -> (packet: Option<IpPacket>)
    ensures
        null_loopback_ip(data@, packet_view(packet)),
{
    if data.len() < 4 {
        return None;
    }
    let family: u32 = if data[0] != 0 || data[1] != 0 {
        native_endian_u32(data[0], data[1], data[2], data[3])
    } else {
        (data[2] as u32) * 0x100 + (data[3] as u32)
    };
    let rest = vstd::slice::slice_subrange(data, 4, data.len());
    assert(rest@ =~= data@.skip(4));
    parse_loopback_payload(family, rest)
}

/// Whether `packet` is what a frame of the given link layer holds.
pub open spec fn frame_ip(link: LinkType, data: Seq<u8>, packet: Option<IpPacketView>) -> bool {
    match link {
        LinkType::Ethernet => packet == ethernet_ip(data),
        LinkType::NullLoopback => null_loopback_ip(data, packet),
        LinkType::Other => packet is None,
    }
}

/// Reads the IP packet in a frame of the given link layer.
pub fn parse_frame(link: LinkType, data: &[u8]) -> (packet: Option<IpPacket>)
    ensures
        frame_ip(link, data@, packet_view(packet)),
{
    match link {
        LinkType::Ethernet => parse_ethernet(data),
        LinkType::NullLoopback => parse_null_loopback(data),
        LinkType::Other => None,
    }
}

/// What the arrival of a packet does to the table.
pub struct DeliveryView {
    pub flows: Seq<FlowView>,
    pub outcome: RunView,
}

/// A packet that changes nothing.
pub open spec fn passed_over(flows: Seq<FlowView>) -> DeliveryView {
    DeliveryView {
        flows,
        outcome: RunView {
            stream: crate::table::fresh_stream(),
            consumed: 0,
            emissions: Seq::empty(),
        },
    }
}

/// The arrival of a packet: where it carries a TCP segment with payload,
/// the payload reaches the stream of the flow between the two endpoints.
pub open spec fn delivery(flows: Seq<FlowView>, packet: Option<IpPacketView>) -> DeliveryView {
    match packet {
        Some(ip) => match tcp_segment(ip.payload) {
            Some(tcp) => if tcp.payload.len() > 0 {
                let key = canonical_key(
                    (ip.source, tcp.source_port),
                    (ip.destination, tcp.destination_port),
                );
                let outcome = ingest_stream(stream_of(flows, key), tcp.payload);
                DeliveryView { flows: with_stream(flows, key, outcome.stream), outcome }
            } else {
                passed_over(flows)
            },
            None => passed_over(flows),
        },
        None => passed_over(flows),
    }
}

/// Hands the TCP payload of a packet, if it has any, to the stream of its
/// flow, and returns what the state machine made of it.
pub fn deliver(table: &mut FlowTable, packet: &Option<IpPacket>) -> (progress: Progress)
    ensures
        final(table)@ == delivery(old(table)@, packet_view(*packet)).flows,
        emission_views(progress.emissions@) == delivery(
            old(table)@,
            packet_view(*packet),
        ).outcome.emissions,
        progress.consumed == delivery(old(table)@, packet_view(*packet)).outcome.consumed,
{
    match packet {
        Some(ip) => match decode_tcp(ip.payload.as_slice()) {
            Some(tcp) => {
                if tcp.payload.len() > 0 {
                    let key = FlowKey::new(
                        ip.source,
                        tcp.source_port,
                        ip.destination,
                        tcp.destination_port,
                    );
                    return table.ingest(key, tcp.payload.as_slice());
                }
            },
            None => {},
        },
        None => {},
    }
    let emissions: Vec<crate::machine::Emission> = Vec::new();
    assert(emission_views(emissions@) =~= Seq::<EmissionView>::empty());
    Progress { emissions, consumed: 0 }
}

/// Takes in one captured frame: reads the IP packet and the TCP segment in
/// it and hands the payload to the stream of its flow. A frame that holds
/// no TCP payload changes nothing.
pub fn analyze_packet(table: &mut FlowTable, link: LinkType, data: &[u8]) -> (progress: Progress)
    ensures
        exists|packet: Option<IpPacketView>|
            {
                &&& frame_ip(link, data@, packet)
                &&& final(table)@ == (#[trigger] delivery(old(table)@, packet)).flows
                &&& emission_views(progress.emissions@) == delivery(
                    old(table)@,
                    packet,
                ).outcome.emissions
                &&& progress.consumed == delivery(old(table)@, packet).outcome.consumed
            },
{
    let packet = parse_frame(link, data);
    let progress = deliver(table, &packet);
    assert(frame_ip(link, data@, packet_view(packet)));
    progress
}

} // verus!
