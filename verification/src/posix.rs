use vstd::prelude::*;
use crate::flags::{IfFlags, UP, BROADCAST, MULTICAST, IPV4, IPV6, LOOPBACK, PPP, TUN, TAP};
use crate::iface::{collect_ips, ifs_view, spec_ips_concat, Interface, IfaceView};
use crate::net::{Addr, IpNet, NetError, V4_FULL_MASK, V6_FULL_MASK};
use crate::raw::{NativeFlags, RawAddr, RawRecord, RawRecordView};

verus! {

// The flat-record path: a finite list of per-address records, several of
// which may share one interface name, is merged into one logical
// interface per name. The whole computation is specified by
// `spec_interfaces` below, a fold over the records followed by a
// hardware-address refinement pass.

/// The capability flags derived from one record's native flags. IPv4 and
/// IPv6 capability default to set; a point-to-point link that does not
/// use ARP is guessed to be a virtual device: TAP if the native bits
/// already said so, TUN otherwise. The guess is refined after the merge
/// by `spec_refine_one`, which gets the last word: an interface without
/// a hardware address is never TAP, one with a hardware address never
/// TUN.
pub open spec fn spec_derive_flags(nf: NativeFlags) -> IfFlags {
    let b: u32 = 0;
    let b: u32 = if nf.up {
        b | UP
    } else {
        b
    };
    let b: u32 = if nf.broadcast {
        b | BROADCAST
    } else {
        b
    };
    let b: u32 = if nf.multicast {
        b | MULTICAST
    } else {
        b
    };
    let b: u32 = b | IPV4;
    let b: u32 = b | IPV6;
    let b: u32 = if nf.loopback {
        b | LOOPBACK
    } else {
        b
    };
    let b: u32 = if nf.point_to_point {
        b | PPP
    } else {
        b
    };
    let b: u32 = if nf.tun {
        b | TUN
    } else {
        b
    };
    let b: u32 = if nf.tap {
        b | TAP
    } else {
        b
    };
    let b: u32 = if nf.point_to_point && nf.no_arp {
        if b & TAP == TAP {
            b & !TAP
        } else {
            b | TUN
        }
    } else {
        b
    };
    IfFlags { bits: b }
}

pub fn derive_flags(nf: &NativeFlags) -> (f: IfFlags)
    ensures
        f == spec_derive_flags(*nf),
{
    let mut f = IfFlags::empty();
    if nf.up {
        f.insert(UP);
    }
    if nf.broadcast {
        f.insert(BROADCAST);
    }
    if nf.multicast {
        f.insert(MULTICAST);
    }
    f.insert(IPV4);
    f.insert(IPV6);
    if nf.loopback {
        f.insert(LOOPBACK);
    }
    if nf.point_to_point {
        f.insert(PPP);
    }
    if nf.tun {
        f.insert(TUN);
    }
    if nf.tap {
        f.insert(TAP);
    }
    if nf.point_to_point && nf.no_arp {
        if f.contains(TAP) {
            f.remove(TAP);
        } else {
            f.insert(TUN);
        }
    }
    f
}

/// The views of a list of flat records.
pub open spec fn recs_view(v: Vec<RawRecord>) -> Seq<RawRecordView> {
    v@.map_values(|r: RawRecord| r@)
}

/// The first position at or after `i` whose entry bears `name`.
pub open spec fn spec_find_from(ifs: Seq<IfaceView>, name: Seq<char>, i: int) -> Option<int>
    decreases ifs.len() - i,
{
    if i < 0 || i >= ifs.len() {
        None
    } else if ifs[i].name == name {
        Some(i)
    } else {
        spec_find_from(ifs, name, i + 1)
    }
}

/// The position of the entry bearing `name`, if one exists.
pub open spec fn spec_find(ifs: Seq<IfaceView>, name: Seq<char>) -> Option<int> {
    spec_find_from(ifs, name, 0)
}

/// A fresh entry for a name first observed on record `r`: the flags come
/// from this record; index, addresses and hardware address start unset.
pub open spec fn spec_new_entry(r: RawRecordView) -> IfaceView {
    IfaceView {
        name: r.name,
        friendly_name: None,
        index: 0,
        ipv6_index: 0,
        flags: spec_derive_flags(r.flags),
        ips: Seq::empty(),
        mac_addr: None,
    }
}

/// The list with an entry for `r.name` guaranteed, and that entry's
/// position. A first-seen name is appended, so first-seen order is kept.
pub open spec fn spec_ensure(ifs: Seq<IfaceView>, r: RawRecordView) -> (Seq<IfaceView>, int) {
    match spec_find(ifs, r.name) {
        Some(i) => (ifs, i),
        None => (ifs.push(spec_new_entry(r)), ifs.len() as int),
    }
}

/// Whether all six bytes of a hardware address are zero.
pub open spec fn spec_mac_is_zero(m: [u8; 6]) -> bool {
    forall|k: int| 0 <= k < 6 ==> m[k] == 0
}

/// A link-layer record backfills the entry's indices, and its hardware
/// address when a non-zero one is present; an all-zero or absent one
/// leaves the field as it was.
pub open spec fn spec_link_update(e: IfaceView, ifindex: usize, mac: Option<[u8; 6]>) -> IfaceView {
    let e1 = IfaceView { index: ifindex, ipv6_index: ifindex, ..e };
    match mac {
        Some(m) => if !spec_mac_is_zero(m) {
            IfaceView { mac_addr: Some(m), ..e1 }
        } else {
            e1
        },
        None => e1,
    }
}

/// An address record appends to the entry's address list.
pub open spec fn spec_push_ip(e: IfaceView, net: IpNet) -> IfaceView {
    IfaceView { ips: e.ips.push(net), ..e }
}

/// The netmask taken for an IPv4 address: the record's own, when it
/// carried one of the same family, else the full mask `255.255.255.255`.
pub open spec fn spec_mask_v4(mask: Option<RawAddr>) -> u32 {
    match mask {
        Some(RawAddr::V4(m)) => m,
        _ => V4_FULL_MASK,
    }
}

/// The netmask taken for an IPv6 address: the record's own, when it
/// carried one of the same family, else the full mask (prefix 128).
pub open spec fn spec_mask_v6(mask: Option<RawAddr>) -> u128 {
    match mask {
        Some(RawAddr::V6(m)) => m,
        _ => V6_FULL_MASK,
    }
}

/// One step of the merge: how one record changes the interface list.
/// A record that fails the `only_up` filter, or that carries no payload
/// at all, changes nothing. Any other record first ensures an entry
/// under its name exists; a link-layer payload then backfills that
/// entry, a recognized IP payload whose address+mask value can be built
/// appends it, and everything else (an unrecognized family, a failed
/// construction) leaves the entry as mere evidence that the name was
/// observed.
pub open spec fn spec_step(ifs: Seq<IfaceView>, r: RawRecordView, only_up: bool) -> Seq<
    IfaceView,
> {
    if (only_up && !r.flags.up) || r.addr is None {
        ifs
    } else {
        let (ifs1, i) = spec_ensure(ifs, r);
        match r.addr {
            Some(RawAddr::Link { ifindex, mac }) => ifs1.update(
                i,
                spec_link_update(ifs1[i], ifindex, mac),
            ),
            Some(RawAddr::V4(a)) => match IpNet::spec_with_netmask(
                Addr::V4(a),
                Addr::V4(spec_mask_v4(r.mask)),
            ) {
                Ok(net) => ifs1.update(i, spec_push_ip(ifs1[i], net)),
                Err(_) => ifs1,
            },
            Some(RawAddr::V6(a)) => match IpNet::spec_with_netmask(
                Addr::V6(a),
                Addr::V6(spec_mask_v6(r.mask)),
            ) {
                Ok(net) => ifs1.update(i, spec_push_ip(ifs1[i], net)),
                Err(_) => ifs1,
            },
            _ => ifs1,
        }
    }
}

/// The merge of a whole record list, in arrival order.
pub open spec fn spec_merge(rs: Seq<RawRecordView>, only_up: bool) -> Seq<IfaceView>
    decreases rs.len(),
{
    if rs.len() == 0 {
        Seq::empty()
    } else {
        spec_step(spec_merge(rs.drop_last(), only_up), rs.last(), only_up)
    }
}

/// The post-merge refinement: once all records are in, the hardware
/// address is authoritative. No hardware address: the interface cannot
/// be TAP. A hardware address: it cannot be TUN.
pub open spec fn spec_refine_one(e: IfaceView) -> IfaceView {
    match e.mac_addr {
        None => IfaceView { flags: IfFlags { bits: e.flags.bits & !TAP }, ..e },
        Some(_) => IfaceView { flags: IfFlags { bits: e.flags.bits & !TUN }, ..e },
    }
}

/// The full flat-record enumeration: merge, then refine every entry.
pub open spec fn spec_interfaces(rs: Seq<RawRecordView>, only_up: bool) -> Seq<IfaceView> {
    spec_merge(rs, only_up).map_values(|e: IfaceView| spec_refine_one(e))
}

/// The flat-record address enumeration: exactly the concatenation of the
/// address lists of `spec_interfaces`.
pub open spec fn spec_addresses(rs: Seq<RawRecordView>, only_up: bool) -> Seq<IpNet> {
    spec_ips_concat(spec_interfaces(rs, only_up))
}

fn mac_is_zero(m: &[u8; 6]) -> (r: bool)
    ensures
        r == spec_mac_is_zero(*m),
{
    let mut k: usize = 0;
    while k < 6
        invariant
            k <= 6,
            forall|j: int| 0 <= j < k ==> m[j] == 0,
        decreases 6 - k,
    {
        if m[k] != 0 {
            return false;
        }
        k = k + 1;
    }
    true
}

fn find_entry(ifs: &Vec<Interface>, name: &String) -> (r: Option<usize>)
    ensures
        match r {
            Some(i) => i < ifs@.len() && spec_find(ifs_view(*ifs), name@) == Some(i as int),
            None => spec_find(ifs_view(*ifs), name@) is None,
        },
{
    let ghost vs = ifs_view(*ifs);
    let mut k: usize = 0;
    while k < ifs.len()
        invariant
            k <= ifs@.len(),
            vs == ifs_view(*ifs),
            spec_find(vs, name@) == spec_find_from(vs, name@, k as int),
        decreases ifs@.len() - k,
    {
        proof {
            assert(vs[k as int] == ifs@[k as int]@);
        }
        if ifs[k].name == *name {
            return Some(k);
        }
        k = k + 1;
    }
    None
}

/// Find the entry for `r.name`, creating it from `r`'s flags when the
/// name is first observed.
fn ensure_entry(ifs: &mut Vec<Interface>, r: &RawRecord) -> (idx: usize)
    ensures
        ifs_view(*final(ifs)) == spec_ensure(ifs_view(*old(ifs)), r@).0,
        idx as int == spec_ensure(ifs_view(*old(ifs)), r@).1,
        idx < final(ifs)@.len(),
{
    match find_entry(ifs, &r.name) {
        Some(i) => i,
        None => {
            let f = derive_flags(&r.flags);
            let e = Interface {
                name: r.name.clone(),
                friendly_name: None,
                index: 0,
                ipv6_index: 0,
                flags: f,
                ips: Vec::new(),
                mac_addr: None,
            };
            let idx = ifs.len();
            proof {
                assert(e@ == spec_new_entry(r@));
            }
            ifs.push(e);
            proof {
                assert(ifs_view(*ifs) =~= ifs_view(*old(ifs)).push(spec_new_entry(r@)));
            }
            idx
        },
    }
}

/// Apply one record to the interface list, as `spec_step` says.
fn process_record(ifs: &mut Vec<Interface>, r: &RawRecord, only_up: bool)
    ensures
        ifs_view(*final(ifs)) == spec_step(ifs_view(*old(ifs)), r@, only_up),
{
    if only_up && !r.flags.up {
        return ;
    }
    if r.addr.is_none() {
        return ;
    }
    let ghost s0 = ifs_view(*old(ifs));
    let idx = ensure_entry(ifs, r);
    let ghost s1 = spec_ensure(s0, r@).0;
    match r.addr {
        Some(RawAddr::Link { ifindex, mac }) => {
            ifs[idx].index = ifindex;
            ifs[idx].ipv6_index = ifindex;
            match mac {
                Some(m) => {
                    if !mac_is_zero(&m) {
                        ifs[idx].mac_addr = Some(m);
                    }
                },
                None => {},
            }
            proof {
                assert(ifs_view(*ifs) =~= s1.update(
                    idx as int,
                    spec_link_update(s1[idx as int], ifindex, mac),
                ));
            }
        },
        Some(RawAddr::V4(a)) => {
            let m: u32 = match r.mask {
                Some(RawAddr::V4(mm)) => mm,
                _ => V4_FULL_MASK,
            };
            match IpNet::with_netmask(Addr::V4(a), Addr::V4(m)) {
                Ok(net) => {
                    ifs[idx].ips.push(net);
                    proof {
                        assert(ifs_view(*ifs) =~= s1.update(
                            idx as int,
                            spec_push_ip(s1[idx as int], net),
                        ));
                    }
                },
                Err(_) => {},
            }
        },
        Some(RawAddr::V6(a)) => {
            let m: u128 = match r.mask {
                Some(RawAddr::V6(mm)) => mm,
                _ => V6_FULL_MASK,
            };
            match IpNet::with_netmask(Addr::V6(a), Addr::V6(m)) {
                Ok(net) => {
                    ifs[idx].ips.push(net);
                    proof {
                        assert(ifs_view(*ifs) =~= s1.update(
                            idx as int,
                            spec_push_ip(s1[idx as int], net),
                        ));
                    }
                },
                Err(_) => {},
            }
        },
        _ => {},
    }
}

/// The refinement pass, entry by entry.
fn refine(ifs: &mut Vec<Interface>)
    ensures
        ifs_view(*final(ifs)) == ifs_view(*old(ifs)).map_values(|e: IfaceView| spec_refine_one(e)),
{
    let ghost s0 = ifs_view(*old(ifs));
    let mut k: usize = 0;
    while k < ifs.len()
        invariant
            k <= ifs@.len(),
            ifs@.len() == s0.len(),
            ifs_view(*ifs) == s0.map_values(|e: IfaceView| spec_refine_one(e)).take(k as int)
                + s0.skip(k as int),
        decreases ifs@.len() - k,
    {
        let ghost pre = ifs_view(*ifs);
        proof {
            assert(pre[k as int] == s0[k as int]);
        }
        let has_mac = ifs[k].mac_addr.is_some();
        let b = ifs[k].flags.bits;
        if has_mac {
            ifs[k].flags = IfFlags { bits: b & !TUN };
        } else {
            ifs[k].flags = IfFlags { bits: b & !TAP };
        }
        proof {
            assert(ifs@[k as int]@ == spec_refine_one(s0[k as int]));
            let rhs = s0.map_values(|e: IfaceView| spec_refine_one(e)).take(k + 1) + s0.skip(
                k + 1,
            );
            assert forall|j: int| 0 <= j < s0.len() implies ifs_view(*ifs)[j] == rhs[j] by {
                assert(ifs_view(*ifs)[j] == ifs@[j]@);
                if j < k {
                    assert(pre[j] == s0.map_values(|e: IfaceView| spec_refine_one(e)).take(
                        k as int,
                    )[j]);
                } else if j > k {
                    assert(pre[j] == s0.skip(k as int)[j - k]);
                }
            }
            assert(ifs_view(*ifs) =~= rhs);
        }
        k = k + 1;
    }
    proof {
        assert(s0.map_values(|e: IfaceView| spec_refine_one(e)).take(s0.len() as int) + s0.skip(
            s0.len() as int,
        ) =~= s0.map_values(|e: IfaceView| spec_refine_one(e)));
    }
}

/// Enumerate the interfaces described by a flat record list.
///
/// The result is exactly `spec_interfaces` of the records: one entry per
/// distinct name in first-seen order, each merged from all its records
/// regardless of their order, with the hardware-address refinement
/// applied last. With `only_up`, records whose native flags lack `up`
/// are skipped up front.
pub fn interfaces_from_records(records: &Vec<RawRecord>, only_up: bool) -> (res: Vec<Interface>)
    ensures
        ifs_view(res) == spec_interfaces(recs_view(*records), only_up),
{
    let ghost rv = recs_view(*records);
    let mut ifs: Vec<Interface> = Vec::new();
    let mut k: usize = 0;
    while k < records.len()
        invariant
            k <= records@.len(),
            rv == recs_view(*records),
            rv.len() == records@.len(),
            ifs_view(ifs) == spec_merge(rv.take(k as int), only_up),
        decreases records@.len() - k,
    {
        process_record(&mut ifs, &records[k], only_up);
        proof {
            assert(rv.take(k + 1).drop_last() =~= rv.take(k as int));
            assert(rv.take(k + 1).last() == rv[k as int]);
        }
        k = k + 1;
    }
    proof {
        assert(rv.take(rv.len() as int) =~= rv);
    }
    refine(&mut ifs);
    ifs
}

/// Enumerate just the addresses described by a flat record list: the
/// concatenation, in interface order then per-interface insertion order,
/// of the address lists of `interfaces_from_records`.
pub fn addresses_from_records(records: &Vec<RawRecord>, only_up: bool) -> (res: Vec<IpNet>)
    ensures
        res@ == spec_addresses(recs_view(*records), only_up),
{
    let ifs = interfaces_from_records(records, only_up);
    collect_ips(&ifs)
}

/// Whether a record takes part in the enumeration at all: with the
/// only-up filter, only records whose native flags say `up` do.
pub open spec fn spec_rec_passes(r: RawRecordView, only_up: bool) -> bool {
    !only_up || r.flags.up
}

/// Whether a record is a link-layer record carrying a non-zero hardware
/// address.
pub open spec fn spec_link_mac_of(r: RawRecordView) -> bool {
    match r.addr {
        Some(RawAddr::Link { ifindex: _, mac }) => match mac {
            Some(m) => !spec_mac_is_zero(m),
            None => false,
        },
        _ => false,
    }
}

/// Whether some record in `rs` that passes the filter merges a non-zero
/// hardware address into the interface named `name`.
pub open spec fn spec_has_nonzero_link(
    rs: Seq<RawRecordView>,
    name: Seq<char>,
    only_up: bool,
) -> bool {
    exists|j: int|
        0 <= j < rs.len() && (#[trigger] rs[j]).name == name && spec_rec_passes(rs[j], only_up)
            && spec_link_mac_of(rs[j])
}

/// Some passing record gave this entry its name and its flags.
pub open spec fn spec_entry_evidence(
    rs: Seq<RawRecordView>,
    only_up: bool,
    e: IfaceView,
) -> bool {
    exists|j: int|
        0 <= j < rs.len() && spec_rec_passes(#[trigger] rs[j], only_up) && rs[j].name == e.name
            && e.flags == spec_derive_flags(rs[j].flags)
}

/// Some entry of `out` bears `name`.
pub open spec fn spec_name_present(out: Seq<IfaceView>, name: Seq<char>) -> bool {
    exists|i: int| 0 <= i < out.len() && (#[trigger] out[i]).name == name
}

/// The inductive invariant of the merge: names are pairwise distinct,
/// every entry's name and flags come from a passing record, every
/// passing record has an entry, and an entry holds a hardware address
/// exactly when a passing non-zero link-layer record bears its name.
spec fn spec_merge_ok(rs: Seq<RawRecordView>, only_up: bool, out: Seq<IfaceView>) -> bool {
    &&& forall|i1: int, i2: int|
        0 <= i1 < i2 < out.len() ==> (#[trigger] out[i1]).name != (#[trigger] out[i2]).name
    &&& forall|i: int|
        0 <= i < out.len() ==> spec_entry_evidence(rs, only_up, #[trigger] out[i])
    &&& forall|j: int|
        0 <= j < rs.len() && spec_rec_passes(#[trigger] rs[j], only_up) && rs[j].addr
            is Some ==> spec_name_present(out, rs[j].name)
    &&& forall|i: int|
        0 <= i < out.len() ==> ((#[trigger] out[i]).mac_addr is Some <==> spec_has_nonzero_link(
            rs,
            out[i].name,
            only_up,
        ))
}

proof fn lemma_find_none(ifs: Seq<IfaceView>, name: Seq<char>, i: int)
    requires
        0 <= i <= ifs.len(),
        spec_find_from(ifs, name, i) is None,
    ensures
        forall|j: int| i <= j < ifs.len() ==> (#[trigger] ifs[j]).name != name,
    decreases ifs.len() - i,
{
    if i < ifs.len() {
        lemma_find_none(ifs, name, i + 1);
    }
}

proof fn lemma_find_some(ifs: Seq<IfaceView>, name: Seq<char>, i: int, f: int)
    requires
        0 <= i,
        spec_find_from(ifs, name, i) == Some(f),
    ensures
        i <= f < ifs.len(),
        ifs[f].name == name,
    decreases ifs.len() - i,
{
    if i < ifs.len() && ifs[i].name != name {
        lemma_find_some(ifs, name, i + 1, f);
    }
}

/// Appending one record changes `spec_has_nonzero_link` exactly by what
/// that record itself contributes.
proof fn lemma_link_last(rs: Seq<RawRecordView>, only_up: bool, name: Seq<char>)
    requires
        rs.len() > 0,
    ensures
        spec_has_nonzero_link(rs, name, only_up) == (spec_has_nonzero_link(
            rs.drop_last(),
            name,
            only_up,
        ) || (rs.last().name == name && spec_rec_passes(rs.last(), only_up) && spec_link_mac_of(
            rs.last(),
        ))),
{
    let rs0 = rs.drop_last();
    let r = rs.last();
    if spec_has_nonzero_link(rs, name, only_up) {
        let j = choose|j: int|
            0 <= j < rs.len() && (#[trigger] rs[j]).name == name && spec_rec_passes(rs[j], only_up)
                && spec_link_mac_of(rs[j]);
        if j == rs.len() - 1 {
            assert(r == rs[j]);
        } else {
            assert(rs0[j] == rs[j]);
            assert(spec_has_nonzero_link(rs0, name, only_up));
        }
    }
    if spec_has_nonzero_link(rs0, name, only_up) {
        let j = choose|j: int|
            0 <= j < rs0.len() && (#[trigger] rs0[j]).name == name && spec_rec_passes(
                rs0[j],
                only_up,
            ) && spec_link_mac_of(rs0[j]);
        assert(rs[j] == rs0[j]);
        assert(spec_has_nonzero_link(rs, name, only_up));
    }
    if r.name == name && spec_rec_passes(r, only_up) && spec_link_mac_of(r) {
        assert(rs[rs.len() - 1] == r);
        assert(spec_has_nonzero_link(rs, name, only_up));
    }
}

proof fn lemma_merge_props(rs: Seq<RawRecordView>, only_up: bool)
    ensures
        spec_merge_ok(rs, only_up, spec_merge(rs, only_up)),
    decreases rs.len(),
{
    let out = spec_merge(rs, only_up);
    if rs.len() == 0 {
    } else {
        let rs0 = rs.drop_last();
        let r = rs.last();
        lemma_merge_props(rs0, only_up);
        let out0 = spec_merge(rs0, only_up);
        assert(out == spec_step(out0, r, only_up));
        assert(forall|j: int| 0 <= j < rs0.len() ==> rs0[j] == #[trigger] rs[j]);
        assert(r == rs[rs.len() - 1]);
        if (only_up && !r.flags.up) || r.addr is None {
            assert(out == out0);
            assert forall|i: int| 0 <= i < out.len() implies spec_entry_evidence(
                rs,
                only_up,
                #[trigger] out[i],
            ) by {
                let j = choose|j: int|
                    0 <= j < rs0.len() && spec_rec_passes(#[trigger] rs0[j], only_up)
                        && rs0[j].name == out[i].name && out[i].flags == spec_derive_flags(
                        rs0[j].flags,
                    );
                assert(rs[j] == rs0[j]);
            }
            assert forall|i: int| 0 <= i < out.len() implies ((#[trigger] out[i]).mac_addr is Some
                <==> spec_has_nonzero_link(rs, out[i].name, only_up)) by {
                lemma_link_last(rs, only_up, out[i].name);
            }
        } else {
            let s1 = spec_ensure(out0, r).0;
            let i = spec_ensure(out0, r).1;
            match spec_find(out0, r.name) {
                Some(fi) => {
                    lemma_find_some(out0, r.name, 0, fi);
                    assert(s1 == out0 && i == fi);
                },
                None => {
                    lemma_find_none(out0, r.name, 0);
                    assert(s1 == out0.push(spec_new_entry(r)) && i == out0.len());
                },
            }
            assert(0 <= i < s1.len());
            assert(s1[i].name == r.name);
            assert(forall|j: int| 0 <= j < out0.len() ==> #[trigger] s1[j] == out0[j]);
            // How the final step relates `out` to `s1`.
            assert(out.len() == s1.len());
            assert(forall|j: int|
                0 <= j < s1.len() ==> (#[trigger] out[j]).name == s1[j].name && out[j].flags
                    == s1[j].flags);
            assert(forall|j: int|
                0 <= j < s1.len() && j != i ==> (#[trigger] out[j]).mac_addr == s1[j].mac_addr);
            assert(out[i].mac_addr is Some <==> (spec_link_mac_of(r) || s1[i].mac_addr is Some));

            // Names pairwise distinct.
            assert forall|i1: int, i2: int| 0 <= i1 < i2 < out.len() implies (
            #[trigger] out[i1]).name != (#[trigger] out[i2]).name by {
                if i2 < out0.len() {
                } else {
                    assert(s1[i2].name == r.name);
                }
            }
            // Evidence for every entry.
            assert forall|ii: int| 0 <= ii < out.len() implies spec_entry_evidence(
                rs,
                only_up,
                #[trigger] out[ii],
            ) by {
                if ii < out0.len() {
                    let j = choose|j: int|
                        0 <= j < rs0.len() && spec_rec_passes(#[trigger] rs0[j], only_up)
                            && rs0[j].name == out0[ii].name && out0[ii].flags
                            == spec_derive_flags(rs0[j].flags);
                    assert(rs[j] == rs0[j]);
                    assert(out[ii].name == out0[ii].name && out[ii].flags == out0[ii].flags);
                } else {
                    assert(s1[ii] == spec_new_entry(r));
                    assert(rs[rs.len() - 1] == r);
                    assert(spec_rec_passes(rs[rs.len() - 1], only_up) && rs[rs.len() - 1].name
                        == out[ii].name && out[ii].flags == spec_derive_flags(
                        rs[rs.len() - 1].flags,
                    ));
                }
            }
            // Every passing record has an entry.
            assert forall|j: int|
                0 <= j < rs.len() && spec_rec_passes(#[trigger] rs[j], only_up) && rs[j].addr
                    is Some implies spec_name_present(out, rs[j].name) by {
                if j < rs0.len() {
                    let e = choose|ei: int|
                        0 <= ei < out0.len() && (#[trigger] out0[ei]).name == rs0[j].name;
                    assert(out[e].name == rs0[j].name);
                } else {
                    assert(rs[j] == r);
                    assert(out[i].name == r.name);
                }
            }
            // Hardware address exactly from a passing non-zero link record.
            assert forall|ii: int| 0 <= ii < out.len() implies ((#[trigger] out[ii]).mac_addr
                is Some <==> spec_has_nonzero_link(rs, out[ii].name, only_up)) by {
                lemma_link_last(rs, only_up, out[ii].name);
                if ii != i {
                    // This entry's name is not `r.name`.
                    if ii < i {
                        assert(out[ii].name != out[i].name);
                    } else {
                        assert(out[i].name != out[ii].name);
                    }
                    assert(out[ii].name != r.name);
                    if ii < out0.len() {
                    } else {
                        assert(s1[ii].name == r.name);
                    }
                } else {
                    match spec_find(out0, r.name) {
                        Some(fi) => {
                            assert(s1[i].mac_addr == out0[fi].mac_addr);
                            assert(out0[fi].name == r.name);
                        },
                        None => {
                            assert(s1[i] == spec_new_entry(r));
                            assert(s1[i].mac_addr is None);
                            if spec_has_nonzero_link(rs0, r.name, only_up) {
                                let j = choose|j: int|
                                    0 <= j < rs0.len() && (#[trigger] rs0[j]).name == r.name
                                        && spec_rec_passes(rs0[j], only_up) && spec_link_mac_of(
                                        rs0[j],
                                    );
                                assert(spec_name_present(out0, r.name));
                                let e = choose|ei: int|
                                    0 <= ei < out0.len() && (#[trigger] out0[ei]).name == r.name;
                                assert(out0[e].name != r.name);
                            }
                        },
                    }
                }
            }
        }
    }
}

proof fn lemma_up_survives_refine(b: u32)
    ensures
        b & UP == UP ==> (b & !TAP) & UP == UP,
        b & UP == UP ==> (b & !TUN) & UP == UP,
{
    assert(b & 0x1u32 == 0x1u32 ==> (b & !0x100u32) & 0x1u32 == 0x1u32) by (bit_vector);
    assert(b & 0x1u32 == 0x1u32 ==> (b & !0x80u32) & 0x1u32 == 0x1u32) by (bit_vector);
}

proof fn lemma_refine_not_both(b: u32)
    ensures
        !((b & !TAP) & TUN == TUN && (b & !TAP) & TAP == TAP),
        !((b & !TUN) & TUN == TUN && (b & !TUN) & TAP == TAP),
{
    assert((b & !0x100u32) & 0x100u32 != 0x100u32) by (bit_vector);
    assert((b & !0x80u32) & 0x80u32 != 0x80u32) by (bit_vector);
}

/// A record whose native flags say `up` derives flags that contain UP.
proof fn lemma_derive_up(nf: NativeFlags)
    requires
        nf.up,
    ensures
        spec_derive_flags(nf).spec_has(UP),
{
    let u = nf.up;
    let br = nf.broadcast;
    let mu = nf.multicast;
    let lo = nf.loopback;
    let pp = nf.point_to_point;
    let na = nf.no_arp;
    let tn = nf.tun;
    let tp = nf.tap;
    assert(({
        let b: u32 = 0;
        let b: u32 = if u {
            b | 0x1u32
        } else {
            b
        };
        let b: u32 = if br {
            b | 0x2u32
        } else {
            b
        };
        let b: u32 = if mu {
            b | 0x4u32
        } else {
            b
        };
        let b: u32 = b | 0x8u32;
        let b: u32 = b | 0x10u32;
        let b: u32 = if lo {
            b | 0x20u32
        } else {
            b
        };
        let b: u32 = if pp {
            b | 0x40u32
        } else {
            b
        };
        let b: u32 = if tn {
            b | 0x80u32
        } else {
            b
        };
        let b: u32 = if tp {
            b | 0x100u32
        } else {
            b
        };
        let b: u32 = if pp && na {
            if b & 0x100u32 == 0x100u32 {
                b & !0x100u32
            } else {
                b | 0x80u32
            }
        } else {
            b
        };
        u ==> b & 0x1u32 == 0x1u32
    })) by (bit_vector);
}

/// For any record list: the enumerated interfaces bear pairwise
/// distinct names; and when every record's name is non-empty, so is
/// every interface's.
pub proof fn lemma_names_unique_nonempty(rs: Seq<RawRecordView>, only_up: bool)
    requires
        forall|j: int| 0 <= j < rs.len() ==> (#[trigger] rs[j]).name.len() > 0,
    ensures
        forall|i1: int, i2: int|
            0 <= i1 < i2 < spec_interfaces(rs, only_up).len() ==> (#[trigger] spec_interfaces(
                rs,
                only_up,
            )[i1]).name != (#[trigger] spec_interfaces(rs, only_up)[i2]).name,
        forall|i: int|
            0 <= i < spec_interfaces(rs, only_up).len() ==> (#[trigger] spec_interfaces(
                rs,
                only_up,
            )[i]).name.len() > 0,
{
    lemma_merge_props(rs, only_up);
    let m = spec_merge(rs, only_up);
    let out = spec_interfaces(rs, only_up);
    assert(out.len() == m.len());
    assert(forall|i: int| 0 <= i < m.len() ==> (#[trigger] out[i]).name == m[i].name);
    assert forall|i: int| 0 <= i < m.len() implies (#[trigger] m[i]).name.len() > 0 by {
        let j = choose|j: int|
            0 <= j < rs.len() && spec_rec_passes(#[trigger] rs[j], only_up) && rs[j].name
                == m[i].name && m[i].flags == spec_derive_flags(rs[j].flags);
        assert(rs[j].name.len() > 0);
    }
}

/// With the only-up filter, every enumerated interface carries UP; so
/// every address of `spec_addresses(rs, true)` belongs to an interface
/// that carries UP.
pub proof fn lemma_only_up_all_up(rs: Seq<RawRecordView>)
    ensures
        forall|i: int|
            0 <= i < spec_interfaces(rs, true).len() ==> (#[trigger] spec_interfaces(
                rs,
                true,
            )[i]).flags.spec_has(UP),
{
    lemma_merge_props(rs, true);
    let m = spec_merge(rs, true);
    let out = spec_interfaces(rs, true);
    assert forall|i: int| 0 <= i < out.len() implies (#[trigger] out[i]).flags.spec_has(UP) by {
        let j = choose|j: int|
            0 <= j < rs.len() && spec_rec_passes(#[trigger] rs[j], true) && rs[j].name == m[i].name
                && m[i].flags == spec_derive_flags(rs[j].flags);
        lemma_derive_up(rs[j].flags);
        lemma_up_survives_refine(m[i].flags.bits);
        assert(out[i] == spec_refine_one(m[i]));
    }
}

/// With the only-up filter, every address in the enumeration's address
/// list belongs to an interface that carries UP.
pub proof fn lemma_only_up_addresses(rs: Seq<RawRecordView>)
    ensures
        forall|k: int|
            #![trigger spec_addresses(rs, true)[k]]
            0 <= k < spec_addresses(rs, true).len() ==> exists|i: int|
                0 <= i < spec_interfaces(rs, true).len() && (#[trigger] spec_interfaces(
                    rs,
                    true,
                )[i]).flags.spec_has(UP) && spec_interfaces(rs, true)[i].ips.contains(
                    spec_addresses(rs, true)[k],
                ),
{
    lemma_only_up_all_up(rs);
    let out = spec_interfaces(rs, true);
    assert forall|k: int|
        #![trigger spec_addresses(rs, true)[k]]
        0 <= k < spec_addresses(rs, true).len() implies exists|i: int|
        0 <= i < out.len() && (#[trigger] out[i]).flags.spec_has(UP) && out[i].ips.contains(
            spec_addresses(rs, true)[k],
        ) by {
        crate::iface::lemma_concat_membership(out, k);
        let i = choose|i: int|
            0 <= i < out.len() && (#[trigger] out[i]).ips.contains(spec_ips_concat(out)[k]);
        assert(out[i].flags.spec_has(UP));
    }
}

/// TUN and TAP are never both set on one enumerated interface.
pub proof fn lemma_tun_tap_exclusive(rs: Seq<RawRecordView>, only_up: bool)
    ensures
        forall|i: int|
            0 <= i < spec_interfaces(rs, only_up).len() ==> !((#[trigger] spec_interfaces(
                rs,
                only_up,
            )[i]).flags.spec_has(TUN) && spec_interfaces(rs, only_up)[i].flags.spec_has(TAP)),
{
    let m = spec_merge(rs, only_up);
    let out = spec_interfaces(rs, only_up);
    assert forall|i: int| 0 <= i < out.len() implies !((#[trigger] out[i]).flags.spec_has(TUN)
        && out[i].flags.spec_has(TAP)) by {
        lemma_refine_not_both(m[i].flags.bits);
        assert(out[i] == spec_refine_one(m[i]));
    }
}

/// An enumerated interface holds a hardware address exactly when some
/// record that passed the filter merged a non-zero link-layer address
/// into it.
pub proof fn lemma_mac_iff_nonzero_link(rs: Seq<RawRecordView>, only_up: bool)
    ensures
        forall|i: int|
            0 <= i < spec_interfaces(rs, only_up).len() ==> ((#[trigger] spec_interfaces(
                rs,
                only_up,
            )[i]).mac_addr is Some <==> spec_has_nonzero_link(
                rs,
                spec_interfaces(rs, only_up)[i].name,
                only_up,
            )),
{
    lemma_merge_props(rs, only_up);
    let m = spec_merge(rs, only_up);
    let out = spec_interfaces(rs, only_up);
    assert(forall|i: int|
        0 <= i < m.len() ==> (#[trigger] out[i]).name == m[i].name && out[i].mac_addr
            == m[i].mac_addr);
}

/// When a record carries no netmask of its address's family, an IPv4
/// address is paired with mask `255.255.255.255` (prefix 32) and an
/// IPv6 address with prefix 128.
pub proof fn lemma_default_mask(a4: u32, a6: u128)
    ensures
        IpNet::spec_with_netmask(Addr::V4(a4), Addr::V4(spec_mask_v4(None)))
            == Ok::<IpNet, NetError>(IpNet { addr: Addr::V4(a4), prefix: 32u8 }),
        IpNet::spec_with_netmask(Addr::V6(a6), Addr::V6(spec_mask_v6(None)))
            == Ok::<IpNet, NetError>(IpNet { addr: Addr::V6(a6), prefix: 128u8 }),
{
    crate::net::lemma_v4_full_mask();
    crate::net::lemma_v6_full_mask();
}

} // verus!
