use vstd::prelude::*;
use crate::flags::{IfFlags, UP, BROADCAST, MULTICAST, IPV4, IPV6, LOOPBACK, PPP, TUN, TAP};
use crate::iface::{collect_ips, ifs_view, spec_ips_concat, Interface, IfaceView};
use crate::net::IpNet;
use crate::raw::RawAddr;

verus! {

// The pre-grouped path: a list of per-adapter records, each already
// owning its nested address list, is mapped one-to-one onto interfaces;
// no merge is needed. The interface-type codes below are the standard
// IANA ifType values the deriver reads.

/// The adapter is a point-to-point link.
pub const IF_TYPE_PPP: u32 = 23;
/// The adapter is a software loopback.
pub const IF_TYPE_SOFTWARE_LOOPBACK: u32 = 24;
/// The adapter is a proprietary virtual device.
pub const IF_TYPE_PROP_VIRTUAL: u32 = 53;

/// One address owned by an adapter: a family-tagged payload and the
/// on-link prefix length the operating system reported with it.
#[derive(Clone, Copy, Debug, PartialEq, Eq)]
pub struct RawUnicast {
    pub addr: RawAddr,
    pub prefix: u8,
}

/// One per-adapter record, already copied out of operating-system
/// memory into plain values.
#[derive(Clone, Debug)]
pub struct RawAdapter {
    pub name: String,
    pub friendly_name: String,
    pub index: usize,
    pub ipv6_index: usize,
    /// Whether the adapter's operational status is "up".
    pub oper_up: bool,
    pub no_multicast: bool,
    pub ipv4_enabled: bool,
    pub ipv6_enabled: bool,
    /// The IANA ifType of the adapter.
    pub if_type: u32,
    /// The adapter's physical address: exactly the bytes the operating
    /// system reported, possibly empty.
    pub phys_addr: Vec<u8>,
    /// The adapter's addresses, in reported order.
    pub unicast: Vec<RawUnicast>,
}

/// The mathematical value of a `RawAdapter`.
pub struct RawAdapterView {
    pub name: Seq<char>,
    pub friendly_name: Seq<char>,
    pub index: usize,
    pub ipv6_index: usize,
    pub oper_up: bool,
    pub no_multicast: bool,
    pub ipv4_enabled: bool,
    pub ipv6_enabled: bool,
    pub if_type: u32,
    pub phys_addr: Seq<u8>,
    pub unicast: Seq<RawUnicast>,
}

impl View for RawAdapter {
    type V = RawAdapterView;

    open spec fn view(&self) -> RawAdapterView {
        RawAdapterView {
            name: self.name@,
            friendly_name: self.friendly_name@,
            index: self.index,
            ipv6_index: self.ipv6_index,
            oper_up: self.oper_up,
            no_multicast: self.no_multicast,
            ipv4_enabled: self.ipv4_enabled,
            ipv6_enabled: self.ipv6_enabled,
            if_type: self.if_type,
            phys_addr: self.phys_addr@,
            unicast: self.unicast@,
        }
    }
}

/// The views of a list of adapters.
pub open spec fn adapters_view(v: Vec<RawAdapter>) -> Seq<RawAdapterView> {
    v@.map_values(|a: RawAdapter| a@)
}

/// The capability flags derived from one adapter. Broadcast support is
/// assumed; multicast unless the adapter opted out; IPv4 and IPv6 as
/// the adapter reports; the interface-type code picks point-to-point,
/// loopback, or — for a proprietary virtual adapter — TUN when it has
/// no physical address and TAP when it has one.
pub open spec fn spec_adapter_flags(a: RawAdapterView) -> IfFlags {
    let b: u32 = 0;
    let b: u32 = if a.oper_up {
        b | UP
    } else {
        b
    };
    let b: u32 = b | BROADCAST;
    let b: u32 = if !a.no_multicast {
        b | MULTICAST
    } else {
        b
    };
    let b: u32 = if a.ipv4_enabled {
        b | IPV4
    } else {
        b
    };
    let b: u32 = if a.ipv6_enabled {
        b | IPV6
    } else {
        b
    };
    let b: u32 = if a.if_type == IF_TYPE_PPP {
        b | PPP
    } else {
        b
    };
    let b: u32 = if a.if_type == IF_TYPE_SOFTWARE_LOOPBACK {
        b | LOOPBACK
    } else {
        b
    };
    let b: u32 = if a.if_type == IF_TYPE_PROP_VIRTUAL {
        if a.phys_addr.len() == 0 {
            b | TUN
        } else {
            b | TAP
        }
    } else {
        b
    };
    IfFlags { bits: b }
}

pub fn adapter_flags(a: &RawAdapter) -> (f: IfFlags)
    ensures
        f == spec_adapter_flags(a@),
{
    let mut f = IfFlags::empty();
    if a.oper_up {
        f.insert(UP);
    }
    f.insert(BROADCAST);
    if !a.no_multicast {
        f.insert(MULTICAST);
    }
    if a.ipv4_enabled {
        f.insert(IPV4);
    }
    if a.ipv6_enabled {
        f.insert(IPV6);
    }
    if a.if_type == IF_TYPE_PPP {
        f.insert(PPP);
    }
    if a.if_type == IF_TYPE_SOFTWARE_LOOPBACK {
        f.insert(LOOPBACK);
    }
    if a.if_type == IF_TYPE_PROP_VIRTUAL {
        if a.phys_addr.len() == 0 {
            f.insert(TUN);
        } else {
            f.insert(TAP);
        }
    }
    f
}

/// The hardware address taken from an adapter's physical-address bytes:
/// the first six, when there are at least six and they are not all
/// zero; absent otherwise.
pub open spec fn spec_adapter_mac(phys: Seq<u8>) -> Option<[u8; 6]> {
    if phys.len() >= 6 && !(phys[0] == 0 && phys[1] == 0 && phys[2] == 0 && phys[3] == 0
        && phys[4] == 0 && phys[5] == 0) {
        Some([phys[0], phys[1], phys[2], phys[3], phys[4], phys[5]])
    } else {
        None
    }
}

pub fn adapter_mac(phys: &Vec<u8>) -> (r: Option<[u8; 6]>)
    ensures
        r == spec_adapter_mac(phys@),
{
    if phys.len() >= 6 {
        let m: [u8; 6] = [phys[0], phys[1], phys[2], phys[3], phys[4], phys[5]];
        if m[0] == 0 && m[1] == 0 && m[2] == 0 && m[3] == 0 && m[4] == 0 && m[5] == 0 {
            None
        } else {
            Some(m)
        }
    } else {
        None
    }
}

/// The address+mask values built from an adapter's nested address list,
/// in order: each recognized IP payload whose prefix fits its family;
/// any other entry is dropped.
pub open spec fn spec_unicast_nets(us: Seq<RawUnicast>) -> Seq<IpNet>
    decreases us.len(),
{
    if us.len() == 0 {
        Seq::empty()
    } else {
        let rest = spec_unicast_nets(us.drop_last());
        let u = us.last();
        match u.addr.as_ip() {
            Some(ip) => match IpNet::spec_new(ip, u.prefix) {
                Ok(n) => rest.push(n),
                Err(_) => rest,
            },
            None => rest,
        }
    }
}

pub fn unicast_nets(us: &Vec<RawUnicast>) -> (r: Vec<IpNet>)
    ensures
        r@ == spec_unicast_nets(us@),
{
    let mut out: Vec<IpNet> = Vec::new();
    let mut k: usize = 0;
    while k < us.len()
        invariant
            k <= us@.len(),
            out@ == spec_unicast_nets(us@.take(k as int)),
        decreases us@.len() - k,
    {
        let u = us[k];
        match u.addr {
            RawAddr::V4(a) => match IpNet::new(crate::net::Addr::V4(a), u.prefix) {
                Ok(n) => out.push(n),
                Err(_) => {},
            },
            RawAddr::V6(a) => match IpNet::new(crate::net::Addr::V6(a), u.prefix) {
                Ok(n) => out.push(n),
                Err(_) => {},
            },
            _ => {},
        }
        proof {
            assert(us@.take(k + 1).drop_last() =~= us@.take(k as int));
            assert(us@.take(k + 1).last() == us@[k as int]);
        }
        k = k + 1;
    }
    proof {
        assert(us@.take(us@.len() as int) =~= us@);
    }
    out
}

/// The interface one adapter stands for.
pub open spec fn spec_adapter_iface(a: RawAdapterView) -> IfaceView {
    IfaceView {
        name: a.name,
        friendly_name: Some(a.friendly_name),
        index: a.index,
        ipv6_index: a.ipv6_index,
        flags: spec_adapter_flags(a),
        ips: spec_unicast_nets(a.unicast),
        mac_addr: spec_adapter_mac(a.phys_addr),
    }
}

/// The pre-grouped enumeration: one interface per adapter, in adapter
/// order, dropping adapters that are not up when `only_up` is set.
pub open spec fn spec_adapter_interfaces(avs: Seq<RawAdapterView>, only_up: bool) -> Seq<
    IfaceView,
>
    decreases avs.len(),
{
    if avs.len() == 0 {
        Seq::empty()
    } else {
        let rest = spec_adapter_interfaces(avs.drop_last(), only_up);
        let a = avs.last();
        if !only_up || a.oper_up {
            rest.push(spec_adapter_iface(a))
        } else {
            rest
        }
    }
}

/// The pre-grouped address enumeration: exactly the concatenation of
/// the address lists of `spec_adapter_interfaces`.
pub open spec fn spec_adapter_addresses(avs: Seq<RawAdapterView>, only_up: bool) -> Seq<IpNet> {
    spec_ips_concat(spec_adapter_interfaces(avs, only_up))
}

/// Enumerate the interfaces described by a pre-grouped adapter list.
pub fn interfaces_from_adapters(adapters: &Vec<RawAdapter>, only_up: bool) -> (res: Vec<
    Interface,
>)
    ensures
        ifs_view(res) == spec_adapter_interfaces(adapters_view(*adapters), only_up),
{
    let ghost av = adapters_view(*adapters);
    let mut out: Vec<Interface> = Vec::new();
    let mut k: usize = 0;
    while k < adapters.len()
        invariant
            k <= adapters@.len(),
            av == adapters_view(*adapters),
            av.len() == adapters@.len(),
            ifs_view(out) == spec_adapter_interfaces(av.take(k as int), only_up),
        decreases adapters@.len() - k,
    {
        let a = &adapters[k];
        if !only_up || a.oper_up {
            let f = adapter_flags(a);
            let mac = adapter_mac(&a.phys_addr);
            let ips = unicast_nets(&a.unicast);
            let e = Interface {
                name: a.name.clone(),
                friendly_name: Some(a.friendly_name.clone()),
                index: a.index,
                ipv6_index: a.ipv6_index,
                flags: f,
                ips,
                mac_addr: mac,
            };
            proof {
                assert(e@ == spec_adapter_iface(av[k as int]));
            }
            out.push(e);
            proof {
                assert(ifs_view(out) =~= spec_adapter_interfaces(av.take(k as int), only_up).push(
                    spec_adapter_iface(av[k as int]),
                ));
            }
        }
        proof {
            assert(av.take(k + 1).drop_last() =~= av.take(k as int));
            assert(av.take(k + 1).last() == av[k as int]);
        }
        k = k + 1;
    }
    proof {
        assert(av.take(av.len() as int) =~= av);
    }
    out
}

/// Enumerate just the addresses described by a pre-grouped adapter
/// list: the concatenation, in adapter order then per-adapter reported
/// order, of the address lists of `interfaces_from_adapters`.
pub fn addresses_from_adapters(adapters: &Vec<RawAdapter>, only_up: bool) -> (res: Vec<IpNet>)
    ensures
        res@ == spec_adapter_addresses(adapters_view(*adapters), only_up),
{
    let ifs = interfaces_from_adapters(adapters, only_up);
    collect_ips(&ifs)
}

/// Every interface name in the pre-grouped result is one adapter's name.
proof fn lemma_adapter_names_from(avs: Seq<RawAdapterView>, only_up: bool)
    ensures
        spec_adapter_interfaces(avs, only_up).len() <= avs.len(),
        forall|i: int|
            0 <= i < spec_adapter_interfaces(avs, only_up).len() ==> exists|j: int|
                0 <= j < avs.len() && (#[trigger] spec_adapter_interfaces(avs, only_up)[i]).name
                    == (#[trigger] avs[j]).name,
    decreases avs.len(),
{
    if avs.len() > 0 {
        lemma_adapter_names_from(avs.drop_last(), only_up);
        let avs0 = avs.drop_last();
        let out0 = spec_adapter_interfaces(avs0, only_up);
        let out = spec_adapter_interfaces(avs, only_up);
        assert(forall|j: int| 0 <= j < avs0.len() ==> #[trigger] avs0[j] == avs[j]);
        assert forall|i: int| 0 <= i < out.len() implies exists|j: int|
            0 <= j < avs.len() && (#[trigger] out[i]).name == (#[trigger] avs[j]).name by {
            if i < out0.len() {
                let j = choose|j: int|
                    0 <= j < avs0.len() && (#[trigger] out0[i]).name == (#[trigger] avs0[j]).name;
                assert(out[i] == out0[i]);
                assert(avs[j] == avs0[j]);
            } else {
                assert(out[i] == spec_adapter_iface(avs.last()));
                assert(avs[avs.len() - 1] == avs.last());
            }
        }
    }
}

/// When the adapters bear pairwise distinct, non-empty names — as one
/// operating-system snapshot does — so do the enumerated interfaces.
pub proof fn lemma_adapter_names_unique_nonempty(avs: Seq<RawAdapterView>, only_up: bool)
    requires
        forall|j1: int, j2: int|
            0 <= j1 < j2 < avs.len() ==> (#[trigger] avs[j1]).name != (#[trigger] avs[j2]).name,
        forall|j: int| 0 <= j < avs.len() ==> (#[trigger] avs[j]).name.len() > 0,
    ensures
        forall|i1: int, i2: int|
            0 <= i1 < i2 < spec_adapter_interfaces(avs, only_up).len() ==> (
            #[trigger] spec_adapter_interfaces(avs, only_up)[i1]).name != (
            #[trigger] spec_adapter_interfaces(avs, only_up)[i2]).name,
        forall|i: int|
            0 <= i < spec_adapter_interfaces(avs, only_up).len() ==> (
            #[trigger] spec_adapter_interfaces(avs, only_up)[i]).name.len() > 0,
    decreases avs.len(),
{
    if avs.len() > 0 {
        let avs0 = avs.drop_last();
        lemma_adapter_names_unique_nonempty(avs0, only_up);
        lemma_adapter_names_from(avs0, only_up);
        let out0 = spec_adapter_interfaces(avs0, only_up);
        let out = spec_adapter_interfaces(avs, only_up);
        assert(forall|j: int| 0 <= j < avs0.len() ==> #[trigger] avs0[j] == avs[j]);
        assert forall|i1: int, i2: int| 0 <= i1 < i2 < out.len() implies (
        #[trigger] out[i1]).name != (#[trigger] out[i2]).name by {
            if i2 < out0.len() {
            } else {
                // The last entry is the last adapter's; entry `i1` bears
                // some earlier adapter's name, and those differ.
                assert(out[i2] == spec_adapter_iface(avs.last()));
                let j = choose|j: int|
                    0 <= j < avs0.len() && (#[trigger] out0[i1]).name == (#[trigger] avs0[j]).name;
                assert(avs[j] == avs0[j]);
                assert(avs[j].name != avs[avs.len() - 1].name);
            }
        }
        assert forall|i: int| 0 <= i < out.len() implies (#[trigger] out[i]).name.len() > 0 by {
            if i < out0.len() {
            } else {
                assert(out[i] == spec_adapter_iface(avs.last()));
                assert(avs[avs.len() - 1] == avs.last());
            }
        }
    }
}

proof fn lemma_adapter_flag_bits(a: RawAdapterView)
    ensures
        a.oper_up ==> spec_adapter_flags(a).spec_has(UP),
        !(spec_adapter_flags(a).spec_has(TUN) && spec_adapter_flags(a).spec_has(TAP)),
{
    let up = a.oper_up;
    let nm = a.no_multicast;
    let v4 = a.ipv4_enabled;
    let v6 = a.ipv6_enabled;
    let t = a.if_type;
    let nophys = a.phys_addr.len() == 0;
    assert(({
        let b: u32 = 0;
        let b: u32 = if up {
            b | 0x1u32
        } else {
            b
        };
        let b: u32 = b | 0x2u32;
        let b: u32 = if !nm {
            b | 0x4u32
        } else {
            b
        };
        let b: u32 = if v4 {
            b | 0x8u32
        } else {
            b
        };
        let b: u32 = if v6 {
            b | 0x10u32
        } else {
            b
        };
        let b: u32 = if t == 23u32 {
            b | 0x40u32
        } else {
            b
        };
        let b: u32 = if t == 24u32 {
            b | 0x20u32
        } else {
            b
        };
        let b: u32 = if t == 53u32 {
            if nophys {
                b | 0x80u32
            } else {
                b | 0x100u32
            }
        } else {
            b
        };
        (up ==> b & 0x1u32 == 0x1u32) && !(b & 0x80u32 == 0x80u32 && b & 0x100u32 == 0x100u32)
    })) by (bit_vector);
}

/// With the only-up filter, every enumerated interface carries UP.
pub proof fn lemma_adapters_only_up_all_up(avs: Seq<RawAdapterView>)
    ensures
        forall|i: int|
            0 <= i < spec_adapter_interfaces(avs, true).len() ==> (
            #[trigger] spec_adapter_interfaces(avs, true)[i]).flags.spec_has(UP),
    decreases avs.len(),
{
    if avs.len() > 0 {
        lemma_adapters_only_up_all_up(avs.drop_last());
        let out0 = spec_adapter_interfaces(avs.drop_last(), true);
        let out = spec_adapter_interfaces(avs, true);
        assert forall|i: int| 0 <= i < out.len() implies (#[trigger] out[i]).flags.spec_has(
            UP,
        ) by {
            if i < out0.len() {
            } else {
                assert(out[i] == spec_adapter_iface(avs.last()));
                lemma_adapter_flag_bits(avs.last());
            }
        }
    }
}

/// With the only-up filter, every address in the enumeration's address
/// list belongs to an interface that carries UP.
pub proof fn lemma_adapters_only_up_addresses(avs: Seq<RawAdapterView>)
    ensures
        forall|k: int|
            #![trigger spec_adapter_addresses(avs, true)[k]]
            0 <= k < spec_adapter_addresses(avs, true).len() ==> exists|i: int|
                0 <= i < spec_adapter_interfaces(avs, true).len() && (
                #[trigger] spec_adapter_interfaces(avs, true)[i]).flags.spec_has(UP)
                    && spec_adapter_interfaces(avs, true)[i].ips.contains(
                    spec_adapter_addresses(avs, true)[k],
                ),
{
    lemma_adapters_only_up_all_up(avs);
    let out = spec_adapter_interfaces(avs, true);
    assert forall|k: int|
        #![trigger spec_adapter_addresses(avs, true)[k]]
        0 <= k < spec_adapter_addresses(avs, true).len() implies exists|i: int|
        0 <= i < out.len() && (#[trigger] out[i]).flags.spec_has(UP) && out[i].ips.contains(
            spec_adapter_addresses(avs, true)[k],
        ) by {
        crate::iface::lemma_concat_membership(out, k);
        let i = choose|i: int|
            0 <= i < out.len() && (#[trigger] out[i]).ips.contains(spec_ips_concat(out)[k]);
        assert(out[i].flags.spec_has(UP));
    }
}

/// TUN and TAP are never both set on one enumerated interface.
pub proof fn lemma_adapters_tun_tap_exclusive(avs: Seq<RawAdapterView>, only_up: bool)
    ensures
        forall|i: int|
            0 <= i < spec_adapter_interfaces(avs, only_up).len() ==> !((
            #[trigger] spec_adapter_interfaces(avs, only_up)[i]).flags.spec_has(TUN)
                && spec_adapter_interfaces(avs, only_up)[i].flags.spec_has(TAP)),
    decreases avs.len(),
{
    if avs.len() > 0 {
        lemma_adapters_tun_tap_exclusive(avs.drop_last(), only_up);
        let out0 = spec_adapter_interfaces(avs.drop_last(), only_up);
        let out = spec_adapter_interfaces(avs, only_up);
        assert forall|i: int| 0 <= i < out.len() implies !((#[trigger] out[i]).flags.spec_has(TUN)
            && out[i].flags.spec_has(TAP)) by {
            if i < out0.len() {
            } else {
                assert(out[i] == spec_adapter_iface(avs.last()));
                lemma_adapter_flag_bits(avs.last());
            }
        }
    }
}

/// An enumerated interface holds a hardware address exactly when its
/// adapter reported at least six physical-address bytes whose first six
/// are not all zero.
pub proof fn lemma_adapter_mac_iff(a: RawAdapterView)
    ensures
        spec_adapter_iface(a).mac_addr is Some <==> (a.phys_addr.len() >= 6 && !(a.phys_addr[0]
            == 0 && a.phys_addr[1] == 0 && a.phys_addr[2] == 0 && a.phys_addr[3] == 0
            && a.phys_addr[4] == 0 && a.phys_addr[5] == 0)),
{
}

} // verus!
