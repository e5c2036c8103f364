use netifs::adapters::{
    addresses_from_adapters, interfaces_from_adapters, RawAdapter, RawUnicast,
    IF_TYPE_PROP_VIRTUAL, IF_TYPE_SOFTWARE_LOOPBACK,
};
use netifs::flags::{LOOPBACK, TAP, TUN};
use netifs::net::{Addr, IpNet};
use netifs::raw::RawAddr;

fn base_adapter(name: &str) -> RawAdapter {
    RawAdapter {
        name: name.to_string(),
        friendly_name: format!("Adapter {name}"),
        index: 4,
        ipv6_index: 11,
        oper_up: true,
        no_multicast: false,
        ipv4_enabled: true,
        ipv6_enabled: true,
        if_type: 6,
        phys_addr: vec![0xAA, 0xBB, 0xCC, 0x01, 0x02, 0x03],
        unicast: vec![
            RawUnicast { addr: RawAddr::V4(0xC0A8_0064), prefix: 24 },
            RawUnicast { addr: RawAddr::V6(0xFE80_0000_0000_0000_0000_0000_0000_0009), prefix: 64 },
        ],
    }
}

#[test]
fn adapter_maps_fields() {
    let ifs = interfaces_from_adapters(&vec![base_adapter("{guid-1}")], false);
    assert_eq!(ifs.len(), 1);
    assert_eq!(ifs[0].name, "{guid-1}");
    assert_eq!(ifs[0].friendly_name(), "Adapter {guid-1}");
    assert_eq!(ifs[0].index, 4);
    assert_eq!(ifs[0].ipv6_index, 11);
    assert!(ifs[0].is_up());
    assert_eq!(ifs[0].mac_addr, Some([0xAA, 0xBB, 0xCC, 0x01, 0x02, 0x03]));
    assert_eq!(
        ifs[0].ips,
        vec![
            IpNet { addr: Addr::V4(0xC0A8_0064), prefix: 24 },
            IpNet { addr: Addr::V6(0xFE80_0000_0000_0000_0000_0000_0000_0009), prefix: 64 },
        ]
    );
}

#[test]
fn virtual_without_phys_is_tun() {
    let mut a = base_adapter("vpn0");
    a.if_type = IF_TYPE_PROP_VIRTUAL;
    a.phys_addr = Vec::new();
    let ifs = interfaces_from_adapters(&vec![a], false);
    assert!(ifs[0].flags.contains(TUN));
    assert!(!ifs[0].flags.contains(TAP));
}

#[test]
fn virtual_with_phys_is_tap() {
    let mut a = base_adapter("vlan0");
    a.if_type = IF_TYPE_PROP_VIRTUAL;
    let ifs = interfaces_from_adapters(&vec![a], false);
    assert!(ifs[0].flags.contains(TAP));
    assert!(!ifs[0].flags.contains(TUN));
}

#[test]
fn loopback_type_flag() {
    let mut a = base_adapter("lo");
    a.if_type = IF_TYPE_SOFTWARE_LOOPBACK;
    let ifs = interfaces_from_adapters(&vec![a], false);
    assert!(ifs[0].is_loopback());
    assert!(ifs[0].flags.contains(LOOPBACK));
}

#[test]
fn adapter_only_up_filters() {
    let mut down = base_adapter("down0");
    down.oper_up = false;
    let adapters = vec![base_adapter("up0"), down];
    assert_eq!(interfaces_from_adapters(&adapters, false).len(), 2);
    let up = interfaces_from_adapters(&adapters, true);
    assert_eq!(up.len(), 1);
    assert_eq!(up[0].name, "up0");
    assert!(up[0].is_up());
}

#[test]
fn short_or_zero_phys_no_mac() {
    let mut short = base_adapter("short0");
    short.phys_addr = vec![1, 2, 3];
    let mut zero = base_adapter("zero0");
    zero.phys_addr = vec![0, 0, 0, 0, 0, 0, 9];
    let ifs = interfaces_from_adapters(&vec![short, zero], false);
    assert_eq!(ifs[0].mac_addr, None);
    assert_eq!(ifs[1].mac_addr, None);
}

#[test]
fn bad_prefix_dropped() {
    let mut a = base_adapter("odd0");
    a.unicast = vec![
        RawUnicast { addr: RawAddr::V4(1), prefix: 33 },
        RawUnicast { addr: RawAddr::V4(2), prefix: 0 },
        RawUnicast { addr: RawAddr::V6(3), prefix: 129 },
        RawUnicast { addr: RawAddr::Other, prefix: 8 },
    ];
    let ifs = interfaces_from_adapters(&vec![a], false);
    assert_eq!(ifs[0].ips, vec![IpNet { addr: Addr::V4(2), prefix: 0 }]);
}

#[test]
fn adapter_addresses_concatenation() {
    let mut b = base_adapter("b0");
    b.unicast = vec![RawUnicast { addr: RawAddr::V4(7), prefix: 8 }];
    let adapters = vec![base_adapter("a0"), b];
    let ifs = interfaces_from_adapters(&adapters, false);
    let mut expected = Vec::new();
    for nif in &ifs {
        expected.extend(nif.ips.iter().cloned());
    }
    assert_eq!(addresses_from_adapters(&adapters, false), expected);
}
