use vstd::prelude::*;

verus! {

/// The IPv4 address family number, as Linux defines it.
pub const AF_INET: u16 = 2;

/// The IPv6 address family number, as Linux defines it.
pub const AF_INET6: u16 = 10;

/// An OS error: the negative syscall return or errno value the caller
/// observed. Only "would block" is ever absorbed (into `Pending`); every
/// other failure propagates as one of these.
#[derive(Debug, Clone, Copy, PartialEq, Eq, Structural)]
pub struct OsError {
    pub code: i32,
}

/// A structured IPv4 socket address: the 32-bit address and the 16-bit port,
/// both as host integers.
#[derive(Debug, Clone, Copy, PartialEq, Eq, Structural)]
pub struct SocketAddrV4 {
    pub ip: u32,
    pub port: u16,
}

/// Why a raw socket address could not be translated.
#[derive(Debug, Clone, Copy, PartialEq, Eq, Structural)]
pub enum AddrError {
    /// The peer address is IPv6, which this engine does not translate; it is
    /// rejected loudly rather than misread.
    Ipv6Unsupported,
    /// An address family this engine does not know.
    UnknownFamily,
}

/// Readiness interests, as the Linux event multiplexer encodes them.
#[derive(Debug, Clone, Copy, PartialEq, Eq, Structural)]
pub enum EpollEventKind {
    Readable,
    Writable,
}

impl EpollEventKind {
    /// The multiplexer's bit for this interest.
    pub fn bits(&self) -> (r: i32)
        ensures
            *self is Readable ==> r == 1,
            *self is Writable ==> r == 4,
    {
        match self {
            EpollEventKind::Readable => 1,
            EpollEventKind::Writable => 4,
        }
    }
}

/// The outcome of one non-blocking accept attempt, as the OS reported it: a
/// new connected descriptor with the peer's address, no pending connection
/// (would block), or another OS error.
#[derive(Debug, Clone, Copy, PartialEq, Eq, Structural)]
pub enum AcceptOutcome {
    Accepted(i32, SocketAddrV4),
    WouldBlock,
    Failed(OsError),
}

/// The IPv4 address the payload bytes of a raw socket address denote: bytes 0
/// and 1 are the port and bytes 2 to 5 the address, both in network order
/// (big endian).
pub open spec fn parsed_sockaddr_v4(data: Seq<u8>) -> SocketAddrV4 {
    SocketAddrV4 {
        ip: ((data[2] as u32) << 24u32 | (data[3] as u32) << 16u32 | (data[4] as u32) << 8u32
            | (data[5] as u32)),
        port: ((data[0] as u16) << 8u16 | (data[1] as u16)),
    }
}

/// The 14 payload bytes that denote the given IPv4 address in a raw socket
/// address: port then address, both in network order, then the six zero pad
/// bytes and two more of the unused remainder.
pub open spec fn sockaddr_v4_data(a: SocketAddrV4) -> Seq<u8> {
    seq![
        (a.port >> 8u16) as u8,
        a.port as u8,
        (a.ip >> 24u32) as u8,
        (a.ip >> 16u32) as u8,
        (a.ip >> 8u32) as u8,
        a.ip as u8,
        0u8,
        0u8,
        0u8,
        0u8,
        0u8,
        0u8,
        0u8,
        0u8,
    ]
}

/// Translate a raw socket address — its family and its 14 payload bytes, as
/// the OS lays them out — into a structured IPv4 address. The translation is
/// exact: 32-bit network-order address, 16-bit network-order port. Only IPv4
/// is implemented; anything else fails loudly rather than misinterpreting
/// bytes.
pub fn sockaddr_to_socketaddr(family: u16, data: &Vec<u8>) -> (r: Result<SocketAddrV4, AddrError>)
    requires
        data@.len() == 14,
    ensures
        family == AF_INET ==> r == Ok::<SocketAddrV4, AddrError>(parsed_sockaddr_v4(data@)),
        family == AF_INET6 ==> r == Err::<SocketAddrV4, AddrError>(AddrError::Ipv6Unsupported),
        family != AF_INET && family != AF_INET6 ==> r == Err::<SocketAddrV4, AddrError>(
            AddrError::UnknownFamily,
        ),
{
    if family == AF_INET {
        let port: u16 = (data[0] as u16) << 8 | (data[1] as u16);
        let ip: u32 = (data[2] as u32) << 24 | (data[3] as u32) << 16 | (data[4] as u32) << 8 | (
        data[5] as u32);
        Ok(SocketAddrV4 { ip, port })
    } else if family == AF_INET6 {
        Err(AddrError::Ipv6Unsupported)
    } else {
        Err(AddrError::UnknownFamily)
    }
}

/// Lay a structured IPv4 address out as a raw socket address: the family and
/// the 14 payload bytes, ready for the caller's bind or connect call.
pub fn socketaddr_to_sockaddr(addr: &SocketAddrV4) -> (r: (u16, Vec<u8>))
    ensures
        r.0 == AF_INET,
        r.1@ == sockaddr_v4_data(*addr),
{
    let mut data: Vec<u8> = Vec::new();
    data.push((addr.port >> 8) as u8);
    data.push(addr.port as u8);
    data.push((addr.ip >> 24) as u8);
    data.push((addr.ip >> 16) as u8);
    data.push((addr.ip >> 8) as u8);
    data.push(addr.ip as u8);
    let mut k: usize = 0;
    while k < 8
        invariant
            k <= 8,
            data@.len() == 6 + k,
            data@ == sockaddr_v4_data(*addr).subrange(0, 6 + k as int),
        decreases 8 - k,
    {
        data.push(0);
        proof {
            assert(data@ =~= sockaddr_v4_data(*addr).subrange(0, 6 + (k + 1int)));
        }
        k += 1;
    }
    proof {
        assert(data@ =~= sockaddr_v4_data(*addr));
    }
    (AF_INET, data)
}

/// The translation round-trips: laying an address out as raw bytes and
/// parsing those bytes back yields the same address, so no bit of the 32-bit
/// address or the 16-bit port is lost or reordered.
pub proof fn lemma_sockaddr_round_trip(a: SocketAddrV4)
    ensures
        parsed_sockaddr_v4(sockaddr_v4_data(a)) == a,
{
    let p = a.port;
    let i = a.ip;
    assert((((p >> 8u16) as u8) as u16) << 8u16 | ((p as u8) as u16) == p) by (bit_vector);
    assert((((i >> 24u32) as u8) as u32) << 24u32 | (((i >> 16u32) as u8) as u32) << 16u32 | (((i
        >> 8u32) as u8) as u32) << 8u32 | ((i as u8) as u32) == i) by (bit_vector);
}

} // verus!
