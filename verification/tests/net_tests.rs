use netifs::flags::{IfFlags, BROADCAST, MULTICAST, UP};
use netifs::net::{Addr, IpNet, NetError};

#[test]
fn new_validates_prefix() {
    assert_eq!(
        IpNet::new(Addr::V4(0x0A00_0001), 24),
        Ok(IpNet { addr: Addr::V4(0x0A00_0001), prefix: 24 })
    );
    assert_eq!(
        IpNet::new(Addr::V4(0x0A00_0001), 32),
        Ok(IpNet { addr: Addr::V4(0x0A00_0001), prefix: 32 })
    );
    assert_eq!(IpNet::new(Addr::V4(0x0A00_0001), 33), Err(NetError::InvalidPrefix));
    assert_eq!(IpNet::new(Addr::V6(1), 128), Ok(IpNet { addr: Addr::V6(1), prefix: 128 }));
    assert_eq!(IpNet::new(Addr::V6(1), 129), Err(NetError::InvalidPrefix));
}

#[test]
fn with_netmask_family_mismatch() {
    assert_eq!(
        IpNet::with_netmask(Addr::V4(1), Addr::V6(0)),
        Err(NetError::FamilyMismatch)
    );
    assert_eq!(
        IpNet::with_netmask(Addr::V6(1), Addr::V4(0)),
        Err(NetError::FamilyMismatch)
    );
}

#[test]
fn with_netmask_prefixes() {
    let cases: Vec<(u32, u8)> = vec![
        (0x0000_0000, 0),
        (0x8000_0000, 1),
        (0xFF00_0000, 8),
        (0xFFFF_FF00, 24),
        (0xFFFF_FFFE, 31),
        (0xFFFF_FFFF, 32),
    ];
    for (mask, prefix) in cases {
        assert_eq!(
            IpNet::with_netmask(Addr::V4(0x0A00_0001), Addr::V4(mask)),
            Ok(IpNet { addr: Addr::V4(0x0A00_0001), prefix })
        );
    }
    assert_eq!(
        IpNet::with_netmask(Addr::V6(5), Addr::V6(u128::MAX)),
        Ok(IpNet { addr: Addr::V6(5), prefix: 128 })
    );
    assert_eq!(
        IpNet::with_netmask(Addr::V6(5), Addr::V6(u128::MAX << 64)),
        Ok(IpNet { addr: Addr::V6(5), prefix: 64 })
    );
    assert_eq!(
        IpNet::with_netmask(Addr::V6(5), Addr::V6(0)),
        Ok(IpNet { addr: Addr::V6(5), prefix: 0 })
    );
}

#[test]
fn with_netmask_rejects_gappy_masks() {
    for mask in [0x00FF_00FFu32, 0x0000_0001, 0x7FFF_FFFF, 0xFFFF_FF01] {
        assert_eq!(
            IpNet::with_netmask(Addr::V4(0x0A00_0001), Addr::V4(mask)),
            Err(NetError::InvalidPrefix)
        );
    }
    assert_eq!(
        IpNet::with_netmask(Addr::V6(1), Addr::V6(1)),
        Err(NetError::InvalidPrefix)
    );
}

#[test]
fn flag_set_operations() {
    let mut f = IfFlags { bits: 0 };
    assert!(!f.contains(UP));
    f.insert(UP);
    f.insert(MULTICAST);
    assert!(f.contains(UP));
    assert!(f.contains(MULTICAST));
    assert!(!f.contains(BROADCAST));
    assert!(f.contains(UP | MULTICAST));
    f.remove(UP);
    assert!(!f.contains(UP));
    assert!(f.contains(MULTICAST));
    assert_eq!(IfFlags::default(), IfFlags { bits: 0 });
}
