use netifs::net::{Addr, IpNet};
use netifs::posix::{addresses_from_records, interfaces_from_records};
use netifs::raw::{NativeFlags, RawAddr, RawRecord};

fn quiet_flags() -> NativeFlags {
    NativeFlags {
        up: false,
        broadcast: false,
        multicast: false,
        loopback: false,
        point_to_point: false,
        no_arp: false,
        tun: false,
        tap: false,
    }
}

fn up_flags() -> NativeFlags {
    NativeFlags { up: true, ..quiet_flags() }
}

#[test]
fn loopback_single_record() {
    let records = vec![RawRecord {
        name: "lo".to_string(),
        flags: NativeFlags { up: true, loopback: true, ..quiet_flags() },
        addr: Some(RawAddr::V4(0x7F00_0001)),
        mask: Some(RawAddr::V4(0xFF00_0000)),
    }];
    let ifs = interfaces_from_records(&records, false);
    assert_eq!(ifs.len(), 1);
    assert_eq!(ifs[0].name, "lo");
    assert!(ifs[0].is_loopback());
    assert!(ifs[0].is_up());
    assert_eq!(ifs[0].ips, vec![IpNet { addr: Addr::V4(0x7F00_0001), prefix: 8 }]);
}

#[test]
fn merge_either_order() {
    let v4 = RawRecord {
        name: "eth0".to_string(),
        flags: up_flags(),
        addr: Some(RawAddr::V4(0xC0A8_0102)),
        mask: Some(RawAddr::V4(0xFFFF_FF00)),
    };
    let link = RawRecord {
        name: "eth0".to_string(),
        flags: up_flags(),
        addr: Some(RawAddr::Link { ifindex: 7, mac: Some([1, 2, 3, 4, 5, 6]) }),
        mask: None,
    };
    let orders = vec![vec![v4.clone(), link.clone()], vec![link, v4]];
    for records in orders {
        let ifs = interfaces_from_records(&records, false);
        assert_eq!(ifs.len(), 1);
        assert_eq!(ifs[0].name, "eth0");
        assert_eq!(ifs[0].mac_addr, Some([1, 2, 3, 4, 5, 6]));
        assert_eq!(ifs[0].index, 7);
        assert_eq!(ifs[0].ipv6_index, 7);
        assert_eq!(ifs[0].ips, vec![IpNet { addr: Addr::V4(0xC0A8_0102), prefix: 24 }]);
    }
}

#[test]
fn only_up_filters() {
    let records = vec![
        RawRecord {
            name: "eth0".to_string(),
            flags: up_flags(),
            addr: Some(RawAddr::V4(0x0A00_0001)),
            mask: None,
        },
        RawRecord {
            name: "down0".to_string(),
            flags: quiet_flags(),
            addr: Some(RawAddr::V4(0x0A00_0002)),
            mask: None,
        },
    ];
    let all = interfaces_from_records(&records, false);
    assert_eq!(all.len(), 2);
    let up = interfaces_from_records(&records, true);
    assert_eq!(up.len(), 1);
    assert_eq!(up[0].name, "eth0");
    assert!(up[0].is_up());
    let addrs = addresses_from_records(&records, true);
    assert_eq!(addrs, vec![IpNet { addr: Addr::V4(0x0A00_0001), prefix: 32 }]);
}

#[test]
fn default_masks() {
    let records = vec![
        RawRecord {
            name: "a".to_string(),
            flags: up_flags(),
            addr: Some(RawAddr::V4(0x0A00_0001)),
            mask: None,
        },
        RawRecord {
            name: "a".to_string(),
            flags: up_flags(),
            addr: Some(RawAddr::V6(0xFE80_0000_0000_0000_0000_0000_0000_0001)),
            mask: None,
        },
        RawRecord {
            name: "a".to_string(),
            flags: up_flags(),
            addr: Some(RawAddr::V4(0x0A00_0002)),
            // A netmask of the wrong family counts as no netmask.
            mask: Some(RawAddr::V6(0xFFFF_FFFF_0000_0000_0000_0000_0000_0000)),
        },
    ];
    let ifs = interfaces_from_records(&records, false);
    assert_eq!(ifs.len(), 1);
    assert_eq!(
        ifs[0].ips,
        vec![
            IpNet { addr: Addr::V4(0x0A00_0001), prefix: 32 },
            IpNet { addr: Addr::V6(0xFE80_0000_0000_0000_0000_0000_0000_0001), prefix: 128 },
            IpNet { addr: Addr::V4(0x0A00_0002), prefix: 32 },
        ]
    );
}

#[test]
fn zero_mac_ignored() {
    let records = vec![RawRecord {
        name: "veth0".to_string(),
        flags: up_flags(),
        addr: Some(RawAddr::Link { ifindex: 3, mac: Some([0, 0, 0, 0, 0, 0]) }),
        mask: None,
    }];
    let ifs = interfaces_from_records(&records, false);
    assert_eq!(ifs.len(), 1);
    assert_eq!(ifs[0].mac_addr, None);
    assert_eq!(ifs[0].index, 3);
}

#[test]
fn tun_guess_and_refine() {
    let tun = RawRecord {
        name: "tun0".to_string(),
        flags: NativeFlags { up: true, point_to_point: true, no_arp: true, ..quiet_flags() },
        addr: Some(RawAddr::V4(0x0A08_0001)),
        mask: None,
    };
    let tap_flags = RawRecord {
        name: "tap0".to_string(),
        flags: NativeFlags { up: true, tap: true, ..quiet_flags() },
        addr: Some(RawAddr::V4(0x0A08_0002)),
        mask: None,
    };
    let tap_link = RawRecord {
        name: "tap0".to_string(),
        flags: NativeFlags { up: true, tap: true, ..quiet_flags() },
        addr: Some(RawAddr::Link { ifindex: 9, mac: Some([2, 4, 6, 8, 10, 12]) }),
        mask: None,
    };
    let ifs = interfaces_from_records(&vec![tun, tap_flags, tap_link], false);
    assert_eq!(ifs.len(), 2);
    // A point-to-point no-ARP link with no hardware address is TUN, not TAP.
    assert!(ifs[0].flags.contains(netifs::flags::TUN));
    assert!(!ifs[0].flags.contains(netifs::flags::TAP));
    // A TAP-flagged interface with a hardware address is TAP, not TUN.
    assert!(ifs[1].flags.contains(netifs::flags::TAP));
    assert!(!ifs[1].flags.contains(netifs::flags::TUN));
    for nif in &ifs {
        assert!(
            !(nif.flags.contains(netifs::flags::TUN) && nif.flags.contains(netifs::flags::TAP))
        );
    }
}

#[test]
fn invalid_mask_drops_address() {
    let records = vec![RawRecord {
        name: "odd0".to_string(),
        flags: up_flags(),
        addr: Some(RawAddr::V4(0x0A00_0001)),
        mask: Some(RawAddr::V4(0x00FF_00FF)),
    }];
    let ifs = interfaces_from_records(&records, false);
    assert_eq!(ifs.len(), 1);
    assert_eq!(ifs[0].name, "odd0");
    assert!(ifs[0].ips.is_empty());
}

#[test]
fn unrecognized_family_keeps_name() {
    let records = vec![RawRecord {
        name: "strange0".to_string(),
        flags: up_flags(),
        addr: Some(RawAddr::Other),
        mask: None,
    }];
    let ifs = interfaces_from_records(&records, false);
    assert_eq!(ifs.len(), 1);
    assert_eq!(ifs[0].name, "strange0");
    assert!(ifs[0].ips.is_empty());
    assert_eq!(ifs[0].mac_addr, None);
}

#[test]
fn no_payload_record_skipped() {
    let records = vec![RawRecord {
        name: "ghost0".to_string(),
        flags: up_flags(),
        addr: None,
        mask: None,
    }];
    let ifs = interfaces_from_records(&records, false);
    assert!(ifs.is_empty());
}

#[test]
fn addresses_concatenation() {
    let rec = |name: &str, a: u32| RawRecord {
        name: name.to_string(),
        flags: up_flags(),
        addr: Some(RawAddr::V4(a)),
        mask: Some(RawAddr::V4(0xFFFF_0000)),
    };
    // Records of the two interfaces arrive interleaved.
    let records = vec![rec("eth0", 1), rec("wlan0", 2), rec("eth0", 3)];
    let ifs = interfaces_from_records(&records, false);
    assert_eq!(ifs.len(), 2);
    let mut expected = Vec::new();
    for nif in &ifs {
        expected.extend(nif.ips.iter().cloned());
    }
    let addrs = addresses_from_records(&records, false);
    assert_eq!(addrs, expected);
    // Interface order then insertion order, not raw record order.
    assert_eq!(
        addrs,
        vec![
            IpNet { addr: Addr::V4(1), prefix: 16 },
            IpNet { addr: Addr::V4(3), prefix: 16 },
            IpNet { addr: Addr::V4(2), prefix: 16 },
        ]
    );
}

#[test]
fn duplicate_names_single_entry() {
    let records = vec![
        RawRecord {
            name: "eth0".to_string(),
            flags: up_flags(),
            addr: Some(RawAddr::V4(1)),
            mask: None,
        },
        RawRecord {
            name: "eth0".to_string(),
            flags: up_flags(),
            addr: Some(RawAddr::V4(2)),
            mask: None,
        },
        RawRecord {
            name: "eth1".to_string(),
            flags: up_flags(),
            addr: Some(RawAddr::V4(3)),
            mask: None,
        },
    ];
    let ifs = interfaces_from_records(&records, false);
    assert_eq!(ifs.len(), 2);
    assert_eq!(ifs[0].name, "eth0");
    assert_eq!(ifs[1].name, "eth1");
    assert_eq!(ifs[0].ips.len(), 2);
    // Every name occurs once.
    for i in 0..ifs.len() {
        for j in 0..ifs.len() {
            if i != j {
                assert_ne!(ifs[i].name, ifs[j].name);
            }
        }
    }
}

#[test]
fn friendly_name_falls_back() {
    let records = vec![RawRecord {
        name: "eth0".to_string(),
        flags: up_flags(),
        addr: Some(RawAddr::V4(1)),
        mask: None,
    }];
    let ifs = interfaces_from_records(&records, false);
    assert_eq!(ifs[0].friendly_name(), "eth0");
}
