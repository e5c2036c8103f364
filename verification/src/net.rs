use vstd::prelude::*;

verus! {

/// An IP address held as a plain number: 32 bits for IPv4, 128 for IPv6.
/// IPv4 address `a.b.c.d` is the number `a*2^24 + b*2^16 + c*2^8 + d`;
/// an IPv6 address is read the same way from its 16 bytes, first byte
/// highest.
#[derive(Clone, Copy, Debug, PartialEq, Eq, Structural)]
pub enum Addr {
    V4(u32),
    V6(u128),
}

/// Why an address+mask value could not be built. The single record that
/// caused it is dropped; enumeration goes on.
#[derive(Clone, Copy, Debug, PartialEq, Eq, Structural)]
pub enum NetError {
    /// The prefix length exceeds the address family's bit width, or the
    /// netmask's one bits are not contiguous from the top.
    InvalidPrefix,
    /// Address and netmask belong to different address families.
    FamilyMismatch,
}

/// The full-length IPv4 mask, `255.255.255.255`: the default when the
/// operating system supplies no netmask for an IPv4 address.
pub const V4_FULL_MASK: u32 = 0xFFFF_FFFF;
/// The full-length IPv6 mask (all ones): the default when the operating
/// system supplies no netmask for an IPv6 address.
pub const V6_FULL_MASK: u128 = 0xFFFF_FFFF_FFFF_FFFF_FFFF_FFFF_FFFF_FFFF;

/// The IPv4 netmask whose `p` highest bits are one and the rest zero.
pub open spec fn spec_v4_mask(p: u8) -> u32
    recommends
        p <= 32,
{
    if p == 0 {
        0u32
    } else {
        0xFFFF_FFFFu32 << ((32 - p) as u32)
    }
}

/// The IPv6 netmask whose `p` highest bits are one and the rest zero.
pub open spec fn spec_v6_mask(p: u8) -> u128
    recommends
        p <= 128,
{
    if p == 0 {
        0u128
    } else {
        0xFFFF_FFFF_FFFF_FFFF_FFFF_FFFF_FFFF_FFFFu128 << ((128 - p) as u128)
    }
}

/// Two distinct prefix lengths give distinct IPv4 masks.
pub proof fn lemma_v4_mask_injective(p1: u8, p2: u8)
    requires
        p1 <= 32,
        p2 <= 32,
        spec_v4_mask(p1) == spec_v4_mask(p2),
    ensures
        p1 == p2,
{
    assert((p1 <= 32 && p2 <= 32 && (if p1 == 0 {
        0u32
    } else {
        0xFFFF_FFFFu32 << ((32 - p1) as u32)
    }) == (if p2 == 0 {
        0u32
    } else {
        0xFFFF_FFFFu32 << ((32 - p2) as u32)
    })) ==> p1 == p2) by (bit_vector);
}

/// Two distinct prefix lengths give distinct IPv6 masks.
pub proof fn lemma_v6_mask_injective(p1: u8, p2: u8)
    requires
        p1 <= 128,
        p2 <= 128,
        spec_v6_mask(p1) == spec_v6_mask(p2),
    ensures
        p1 == p2,
{
    assert((p1 <= 128 && p2 <= 128 && (if p1 == 0 {
        0u128
    } else {
        0xFFFF_FFFF_FFFF_FFFF_FFFF_FFFF_FFFF_FFFFu128 << ((128 - p1) as u128)
    }) == (if p2 == 0 {
        0u128
    } else {
        0xFFFF_FFFF_FFFF_FFFF_FFFF_FFFF_FFFF_FFFFu128 << ((128 - p2) as u128)
    })) ==> p1 == p2) by (bit_vector);
}

/// The prefix length a valid IPv4 netmask stands for, if the mask's one
/// bits are contiguous from the top; `None` for any other mask.
pub open spec fn spec_v4_prefix_of_mask(m: u32) -> Option<u8> {
    if exists|p: u8| p <= 32 && m == spec_v4_mask(p) {
        Some(choose|p: u8| p <= 32 && m == spec_v4_mask(p))
    } else {
        None
    }
}

/// The prefix length a valid IPv6 netmask stands for, if the mask's one
/// bits are contiguous from the top; `None` for any other mask.
pub open spec fn spec_v6_prefix_of_mask(m: u128) -> Option<u8> {
    if exists|p: u8| p <= 128 && m == spec_v6_mask(p) {
        Some(choose|p: u8| p <= 128 && m == spec_v6_mask(p))
    } else {
        None
    }
}

pub fn v4_mask_of(p: u8) -> (m: u32)
    requires
        p <= 32,
    ensures
        m == spec_v4_mask(p),
{
    if p == 0 {
        0u32
    } else {
        0xFFFF_FFFFu32 << ((32 - p) as u32)
    }
}

pub fn v6_mask_of(p: u8) -> (m: u128)
    requires
        p <= 128,
    ensures
        m == spec_v6_mask(p),
{
    if p == 0 {
        0u128
    } else {
        0xFFFF_FFFF_FFFF_FFFF_FFFF_FFFF_FFFF_FFFFu128 << ((128 - p) as u128)
    }
}

pub fn v4_prefix_of_mask(m: u32) -> (r: Option<u8>)
    ensures
        r == spec_v4_prefix_of_mask(m),
{
    let mut p: u8 = 0;
    while p <= 32
        invariant
            p <= 33,
            forall|q: u8| q < p ==> m != spec_v4_mask(q),
        decreases 33 - p,
    {
        if v4_mask_of(p) == m {
            proof {
                let c = choose|q: u8| q <= 32 && m == spec_v4_mask(q);
                lemma_v4_mask_injective(c, p);
            }
            return Some(p);
        }
        p = p + 1;
    }
    None
}

pub fn v6_prefix_of_mask(m: u128) -> (r: Option<u8>)
    ensures
        r == spec_v6_prefix_of_mask(m),
{
    let mut p: u8 = 0;
    while p <= 128
        invariant
            p <= 129,
            forall|q: u8| q < p ==> m != spec_v6_mask(q),
        decreases 129 - p,
    {
        if v6_mask_of(p) == m {
            proof {
                let c = choose|q: u8| q <= 128 && m == spec_v6_mask(q);
                lemma_v6_mask_injective(c, p);
            }
            return Some(p);
        }
        p = p + 1;
    }
    None
}

/// The full IPv4 mask stands for prefix length 32.
pub proof fn lemma_v4_full_mask()
    ensures
        spec_v4_prefix_of_mask(V4_FULL_MASK) == Some(32u8),
{
    assert(0xFFFF_FFFFu32 << ((32 - 32u8) as u32) == 0xFFFF_FFFFu32) by (bit_vector);
    assert(spec_v4_mask(32) == V4_FULL_MASK);
    let c = choose|p: u8| p <= 32 && V4_FULL_MASK == spec_v4_mask(p);
    lemma_v4_mask_injective(c, 32);
}

/// The full IPv6 mask stands for prefix length 128.
pub proof fn lemma_v6_full_mask()
    ensures
        spec_v6_prefix_of_mask(V6_FULL_MASK) == Some(128u8),
{
    assert(0xFFFF_FFFF_FFFF_FFFF_FFFF_FFFF_FFFF_FFFFu128 << ((128 - 128u8) as u128)
        == 0xFFFF_FFFF_FFFF_FFFF_FFFF_FFFF_FFFF_FFFFu128) by (bit_vector);
    assert(spec_v6_mask(128) == V6_FULL_MASK);
    let c = choose|p: u8| p <= 128 && V6_FULL_MASK == spec_v6_mask(p);
    lemma_v6_mask_injective(c, 128);
}

/// An IP address paired with a prefix length of matching family.
#[derive(Clone, Copy, Debug, PartialEq, Eq, Structural)]
pub struct IpNet {
    pub addr: Addr,
    pub prefix: u8,
}

impl IpNet {
    /// The prefix length never exceeds the address family's bit width.
    pub open spec fn wf(self) -> bool {
        match self.addr {
            Addr::V4(_) => self.prefix <= 32,
            Addr::V6(_) => self.prefix <= 128,
        }
    }

    /// What `new` returns: the pair itself when the prefix fits the
    /// family, the error otherwise.
    pub open spec fn spec_new(addr: Addr, prefix: u8) -> Result<IpNet, NetError> {
        match addr {
            Addr::V4(_) => if prefix <= 32 {
                Ok(IpNet { addr, prefix })
            } else {
                Err(NetError::InvalidPrefix)
            },
            Addr::V6(_) => if prefix <= 128 {
                Ok(IpNet { addr, prefix })
            } else {
                Err(NetError::InvalidPrefix)
            },
        }
    }

    /// Build an address+prefix pair; fails exactly when the prefix
    /// exceeds 32 (IPv4) or 128 (IPv6).
    pub fn new(addr: Addr, prefix: u8) -> (r: Result<IpNet, NetError>)
        ensures
            r == Self::spec_new(addr, prefix),
            r is Ok ==> r->Ok_0.wf(),
    {
        match addr {
            Addr::V4(_) => if prefix <= 32 {
                Ok(IpNet { addr, prefix })
            } else {
                Err(NetError::InvalidPrefix)
            },
            Addr::V6(_) => if prefix <= 128 {
                Ok(IpNet { addr, prefix })
            } else {
                Err(NetError::InvalidPrefix)
            },
        }
    }

    /// What `with_netmask` returns: the address with the prefix the mask
    /// stands for; `FamilyMismatch` when the families differ,
    /// `InvalidPrefix` when the mask is not contiguous.
    pub open spec fn spec_with_netmask(addr: Addr, mask: Addr) -> Result<IpNet, NetError> {
        match (addr, mask) {
            (Addr::V4(_), Addr::V4(m)) => match spec_v4_prefix_of_mask(m) {
                Some(p) => Ok(IpNet { addr, prefix: p }),
                None => Err(NetError::InvalidPrefix),
            },
            (Addr::V6(_), Addr::V6(m)) => match spec_v6_prefix_of_mask(m) {
                Some(p) => Ok(IpNet { addr, prefix: p }),
                None => Err(NetError::InvalidPrefix),
            },
            _ => Err(NetError::FamilyMismatch),
        }
    }

    /// Build an address+mask pair from an explicit netmask; both must be
    /// of one family, and the mask's one bits contiguous from the top.
    pub fn with_netmask(addr: Addr, mask: Addr) -> (r: Result<IpNet, NetError>)
        ensures
            r == Self::spec_with_netmask(addr, mask),
            r is Ok ==> r->Ok_0.wf(),
    {
        match (addr, mask) {
            (Addr::V4(_), Addr::V4(m)) => match v4_prefix_of_mask(m) {
                Some(p) => Ok(IpNet { addr, prefix: p }),
                None => Err(NetError::InvalidPrefix),
            },
            (Addr::V6(_), Addr::V6(m)) => match v6_prefix_of_mask(m) {
                Some(p) => Ok(IpNet { addr, prefix: p }),
                None => Err(NetError::InvalidPrefix),
            },
            _ => Err(NetError::FamilyMismatch),
        }
    }
}

} // verus!
