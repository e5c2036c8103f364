use vstd::prelude::*;
use crate::net::Addr;

verus! {

/// The native flag bits of one flat record, one field per flag the
/// deriver reads.
#[derive(Clone, Copy, Debug, PartialEq, Eq, Structural)]
pub struct NativeFlags {
    pub up: bool,
    pub broadcast: bool,
    pub multicast: bool,
    pub loopback: bool,
    pub point_to_point: bool,
    pub no_arp: bool,
    pub tun: bool,
    pub tap: bool,
}

/// The family-tagged payload of one flat record, already copied out of
/// operating-system memory into plain values.
#[derive(Clone, Copy, Debug, PartialEq, Eq)]
pub enum RawAddr {
    /// A link-layer record: the interface index and, when one was
    /// present, a 6-byte hardware address.
    Link { ifindex: usize, mac: Option<[u8; 6]> },
    /// An IPv4 payload.
    V4(u32),
    /// An IPv6 payload.
    V6(u128),
    /// A payload of an unrecognized address family.
    Other,
}

impl RawAddr {
    /// The payload as an address, for the two recognized IP families.
    pub open spec fn as_ip(self) -> Option<Addr> {
        match self {
            RawAddr::V4(a) => Some(Addr::V4(a)),
            RawAddr::V6(a) => Some(Addr::V6(a)),
            _ => None,
        }
    }
}

/// One flat per-address record: an interface name, the native flags the
/// record arrived with, an optional family-tagged payload and an
/// optional netmask payload.
#[derive(Clone, Debug)]
pub struct RawRecord {
    pub name: String,
    pub flags: NativeFlags,
    pub addr: Option<RawAddr>,
    pub mask: Option<RawAddr>,
}

/// The mathematical value of a `RawRecord`.
pub struct RawRecordView {
    pub name: Seq<char>,
    pub flags: NativeFlags,
    pub addr: Option<RawAddr>,
    pub mask: Option<RawAddr>,
}

impl View for RawRecord {
    type V = RawRecordView;

    open spec fn view(&self) -> RawRecordView {
        RawRecordView {
            name: self.name@,
            flags: self.flags,
            addr: self.addr,
            mask: self.mask,
        }
    }
}

} // verus!
