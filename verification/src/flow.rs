//! Direction-insensitive identification of a TCP flow.

use vstd::prelude::*;

verus! {

/// An IPv4 or IPv6 address, held as the integer that its bytes spell in
/// network order.
#[derive(Clone, Copy, Debug, PartialEq, Eq, Structural, Hash)]
pub enum IpAddress {
    V4(u32),
    V6(u128),
}

/// One end of a connection as contracts see it: an address and a port.
pub type Endpoint = (IpAddress, u16);

/// The total order on addresses: every IPv4 address sorts before every IPv6
/// address, and within one family the addresses sort as integers.
pub open spec fn address_lt(a: IpAddress, b: IpAddress) -> bool {
    match (a, b) {
        (IpAddress::V4(x), IpAddress::V4(y)) => x < y,
        (IpAddress::V4(_), IpAddress::V6(_)) => true,
        (IpAddress::V6(_), IpAddress::V4(_)) => false,
        (IpAddress::V6(x), IpAddress::V6(y)) => x < y,
    }
}

/// Lexicographic order on (address, port).
pub open spec fn endpoint_lt(a: Endpoint, b: Endpoint) -> bool {
    address_lt(a.0, b.0) || (a.0 == b.0 && a.1 < b.1)
}

/// The key of the flow between two endpoints: the smaller endpoint first.
pub open spec fn canonical_key(src: Endpoint, dst: Endpoint) -> FlowKey {
    if endpoint_lt(src, dst) {
        FlowKey { addr_a: src.0, port_a: src.1, addr_b: dst.0, port_b: dst.1 }
    } else {
        FlowKey { addr_a: dst.0, port_a: dst.1, addr_b: src.0, port_b: src.1 }
    }
}

/// Identifies a bidirectional TCP connection. Both directions of one
/// connection have the same key.
#[derive(Clone, Copy, Debug, PartialEq, Eq, Structural, Hash)]
pub struct FlowKey {
    pub addr_a: IpAddress,
    pub port_a: u16,
    pub addr_b: IpAddress,
    pub port_b: u16,
}

fn address_less(a: IpAddress, b: IpAddress) -> (r: bool)
    ensures
        r == address_lt(a, b),
{
    match a {
        IpAddress::V4(x) => match b {
            IpAddress::V4(y) => x < y,
            IpAddress::V6(_) => true,
        },
        IpAddress::V6(x) => match b {
            IpAddress::V4(_) => false,
            IpAddress::V6(y) => x < y,
        },
    }
}

impl FlowKey {
    /// A key is canonical when its first endpoint is not larger than its
    /// second.
    pub open spec fn is_canonical(self) -> bool {
        !endpoint_lt((self.addr_b, self.port_b), (self.addr_a, self.port_a))
    }

    /// Builds the key of the flow that a segment from `src:src_port` to
    /// `dst:dst_port` belongs to.
    pub fn new(src: IpAddress, src_port: u16, dst: IpAddress, dst_port: u16) -> (key: FlowKey)
        ensures
            key == canonical_key((src, src_port), (dst, dst_port)),
    {
        let forward = address_less(src, dst) || (src == dst && src_port < dst_port);
        if forward {
            FlowKey { addr_a: src, port_a: src_port, addr_b: dst, port_b: dst_port }
        } else {
            FlowKey { addr_a: dst, port_a: dst_port, addr_b: src, port_b: src_port }
        }
    }
}

/// Both directions of a connection yield the same key.
pub proof fn lemma_key_direction_symmetric(src: Endpoint, dst: Endpoint)
    ensures
        canonical_key(src, dst) == canonical_key(dst, src),
{
}

/// Every key that `canonical_key` yields is canonical, and building a key
/// again from the endpoints of a canonical key changes nothing.
pub proof fn lemma_key_canonical(src: Endpoint, dst: Endpoint)
    ensures
        canonical_key(src, dst).is_canonical(),
        ({
            let k = canonical_key(src, dst);
            canonical_key((k.addr_a, k.port_a), (k.addr_b, k.port_b)) == k
        }),
{
}

} // verus!
