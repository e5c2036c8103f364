use vstd::prelude::*;

verus! {

/// The interface is up and running.
pub const UP: u32 = 0x1;
/// The interface supports broadcast.
pub const BROADCAST: u32 = 0x2;
/// The interface supports multicast.
pub const MULTICAST: u32 = 0x4;
/// The interface is IPv4-capable.
pub const IPV4: u32 = 0x8;
/// The interface is IPv6-capable.
pub const IPV6: u32 = 0x10;
/// The interface is a loopback interface.
pub const LOOPBACK: u32 = 0x20;
/// The interface is a point-to-point link.
pub const PPP: u32 = 0x40;
/// The interface is a TUN device: virtual, with no hardware address.
pub const TUN: u32 = 0x80;
/// The interface is a TAP device: virtual, Ethernet-like.
pub const TAP: u32 = 0x100;

/// A set of capability flags, one bit per flag.
#[derive(Clone, Copy, Debug, PartialEq, Eq, Structural)]
pub struct IfFlags {
    pub bits: u32,
}

impl IfFlags {
    /// True when every bit of `mask` is set.
    pub open spec fn spec_has(self, mask: u32) -> bool {
        self.bits & mask == mask
    }

    pub fn empty() -> (r: IfFlags)
        ensures
            r.bits == 0,
    {
        IfFlags { bits: 0 }
    }

    pub fn contains(&self, mask: u32) -> (r: bool)
        ensures
            r == self.spec_has(mask),
    {
        self.bits & mask == mask
    }

    pub fn insert(&mut self, mask: u32)
        ensures
            final(self).bits == old(self).bits | mask,
    {
        self.bits = self.bits | mask;
    }

    pub fn remove(&mut self, mask: u32)
        ensures
            final(self).bits == old(self).bits & !mask,
    {
        self.bits = self.bits & !mask;
    }
}

impl Default for IfFlags {
    /// The empty flag set.
    fn default() -> (r: IfFlags)
        ensures
            r.bits == 0,
    {
        IfFlags { bits: 0 }
    }
}

} // verus!
