use vstd::prelude::*;
use crate::flags::IfFlags;
use crate::flags::LOOPBACK;
use crate::flags::UP;
use crate::net::IpNet;

verus! {

/// One logical network interface: the unified record both enumeration
/// paths produce.
#[derive(Clone, Debug)]
pub struct Interface {
    /// The name of the interface; unique within one enumeration result.
    pub name: String,
    /// A human-readable display name, where the platform has one.
    pub friendly_name: Option<String>,
    /// The interface index.
    pub index: usize,
    /// The IPv6 interface index, on platforms that expose one; equal to
    /// `index` otherwise.
    pub ipv6_index: usize,
    /// The unified capability flags.
    pub flags: IfFlags,
    /// The interface's addresses, in the order the operating system
    /// reported them.
    pub ips: Vec<IpNet>,
    /// The 6-byte hardware address, when a non-zero one was observed.
    pub mac_addr: Option<[u8; 6]>,
}

/// The mathematical value of an `Interface`.
pub struct IfaceView {
    pub name: Seq<char>,
    pub friendly_name: Option<Seq<char>>,
    pub index: usize,
    pub ipv6_index: usize,
    pub flags: IfFlags,
    pub ips: Seq<IpNet>,
    pub mac_addr: Option<[u8; 6]>,
}

impl View for Interface {
    type V = IfaceView;

    open spec fn view(&self) -> IfaceView {
        IfaceView {
            name: self.name@,
            friendly_name: match self.friendly_name {
                Some(s) => Some(s@),
                None => None,
            },
            index: self.index,
            ipv6_index: self.ipv6_index,
            flags: self.flags,
            ips: self.ips@,
            mac_addr: self.mac_addr,
        }
    }
}

/// The views of a list of interfaces.
pub open spec fn ifs_view(v: Vec<Interface>) -> Seq<IfaceView> {
    v@.map_values(|i: Interface| i@)
}

/// The address lists of `s`, concatenated in interface order, each in
/// its insertion order.
pub open spec fn spec_ips_concat(s: Seq<IfaceView>) -> Seq<IpNet>
    decreases s.len(),
{
    if s.len() == 0 {
        Seq::empty()
    } else {
        spec_ips_concat(s.drop_last()) + s.last().ips
    }
}

/// Every address in the concatenation comes from some interface's own
/// address list.
pub proof fn lemma_concat_membership(s: Seq<IfaceView>, k: int)
    requires
        0 <= k < spec_ips_concat(s).len(),
    ensures
        exists|i: int|
            0 <= i < s.len() && (#[trigger] s[i]).ips.contains(spec_ips_concat(s)[k]),
    decreases s.len(),
{
    if s.len() > 0 {
        let pre = spec_ips_concat(s.drop_last());
        if k < pre.len() {
            lemma_concat_membership(s.drop_last(), k);
            let i = choose|i: int|
                0 <= i < s.drop_last().len() && (#[trigger] s.drop_last()[i]).ips.contains(pre[k]);
            assert(s[i] == s.drop_last()[i]);
            assert(spec_ips_concat(s)[k] == pre[k]);
        } else {
            assert(s.last().ips[k - pre.len()] == spec_ips_concat(s)[k]);
            assert(s[s.len() - 1] == s.last());
            assert(s.last().ips.contains(spec_ips_concat(s)[k]));
        }
    }
}

/// Flatten the interfaces' address lists, in interface order then
/// per-interface insertion order.
pub fn collect_ips(ifs: &Vec<Interface>) -> (out: Vec<IpNet>)
    ensures
        out@ == spec_ips_concat(ifs_view(*ifs)),
{
    let ghost vs = ifs_view(*ifs);
    let mut out: Vec<IpNet> = Vec::new();
    let mut i: usize = 0;
    while i < ifs.len()
        invariant
            i <= ifs@.len(),
            vs == ifs_view(*ifs),
            vs.len() == ifs@.len(),
            out@ == spec_ips_concat(vs.take(i as int)),
        decreases ifs@.len() - i,
    {
        let n = ifs[i].ips.len();
        let mut j: usize = 0;
        while j < n
            invariant
                i < ifs@.len(),
                j <= n,
                n == vs[i as int].ips.len(),
                vs == ifs_view(*ifs),
                vs.len() == ifs@.len(),
                out@ == spec_ips_concat(vs.take(i as int)) + vs[i as int].ips.take(j as int),
            decreases n - j,
    {
            out.push(ifs[i].ips[j]);
            proof {
                assert(vs[i as int].ips.take(j + 1) =~= vs[i as int].ips.take(j as int).push(
                    vs[i as int].ips[j as int],
                ));
            }
            j = j + 1;
        }
        proof {
            assert(vs.take(i + 1).drop_last() =~= vs.take(i as int));
            assert(vs.take(i + 1).last() == vs[i as int]);
            assert(vs[i as int].ips.take(n as int) =~= vs[i as int].ips);
        }
        i = i + 1;
    }
    proof {
        assert(vs.take(vs.len() as int) =~= vs);
    }
    out
}

/// What `friendly_name` returns: the display name, falling back to the
/// interface name when the platform supplied none.
pub open spec fn spec_friendly_name(v: IfaceView) -> Seq<char> {
    match v.friendly_name {
        Some(f) => f,
        None => v.name,
    }
}

impl Interface {
    /// The display name, falling back to `name` when there is none.
    pub fn friendly_name(&self) -> (r: &str)
        ensures
            r@ == spec_friendly_name(self@),
    {
        match &self.friendly_name {
            Some(s) => s.as_str(),
            None => self.name.as_str(),
        }
    }

    /// Whether this interface is up and running.
    pub fn is_up(&self) -> (r: bool)
        ensures
            r == self@.flags.spec_has(UP),
    {
        self.flags.contains(UP)
    }

    /// Whether this is a loopback interface.
    pub fn is_loopback(&self) -> (r: bool)
        ensures
            r == self@.flags.spec_has(LOOPBACK),
    {
        self.flags.contains(LOOPBACK)
    }
}

impl Default for Interface {
    /// An interface with every field unset.
    fn default() -> (r: Interface)
        ensures
            r@.name.len() == 0,
            r@.friendly_name is None,
            r@.index == 0,
            r@.ipv6_index == 0,
            r@.flags.bits == 0,
            r@.ips.len() == 0,
            r@.mac_addr is None,
    {
        Interface {
            name: String::new(),
            friendly_name: None,
            index: 0,
            ipv6_index: 0,
            flags: IfFlags { bits: 0 },
            ips: Vec::new(),
            mac_addr: None,
        }
    }
}

} // verus!
