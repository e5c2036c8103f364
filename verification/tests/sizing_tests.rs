use netifs::net::{Addr, IpNet};
use netifs::posix::interfaces_from_records;
use netifs::raw::{NativeFlags, RawAddr, RawRecord};
use netifs::sizing::{sizing_init, sizing_step, SizingAction, SizingReply, MAX_ATTEMPTS};

#[test]
fn overflow_then_success_decodes() {
    let mut st = sizing_init();
    let first = st.size;
    // The sizing call reports an overflow asking for a larger buffer.
    let act = sizing_step(&mut st, SizingReply::Overflow(5000));
    assert_eq!(act, SizingAction::Retry);
    assert!(st.size >= 5000);
    assert!(st.size >= first);
    // The retried call, with the grown buffer, succeeds.
    let act = sizing_step(&mut st, SizingReply::Done);
    assert_eq!(act, SizingAction::Finish);
    // The buffer's records then decode as usual.
    let records = vec![RawRecord {
        name: "eth0".to_string(),
        flags: NativeFlags {
            up: true,
            broadcast: true,
            multicast: true,
            loopback: false,
            point_to_point: false,
            no_arp: false,
            tun: false,
            tap: false,
        },
        addr: Some(RawAddr::V4(0x0A00_0001)),
        mask: Some(RawAddr::V4(0xFFFF_0000)),
    }];
    let ifs = interfaces_from_records(&records, false);
    assert_eq!(ifs.len(), 1);
    assert_eq!(ifs[0].ips, vec![IpNet { addr: Addr::V4(0x0A00_0001), prefix: 16 }]);
}

#[test]
fn persistent_overflow_fails() {
    let mut st = sizing_init();
    let mut calls = 1u32;
    loop {
        match sizing_step(&mut st, SizingReply::Overflow(64000)) {
            SizingAction::Retry => calls += 1,
            SizingAction::Fail => break,
            SizingAction::Finish => panic!("persistent overflow must not finish"),
        }
    }
    // The bounded policy makes exactly MAX_ATTEMPTS calls, then fails.
    assert_eq!(calls, u32::from(MAX_ATTEMPTS));
}

#[test]
fn zero_overflow_fails() {
    let mut st = sizing_init();
    assert_eq!(sizing_step(&mut st, SizingReply::Overflow(0)), SizingAction::Fail);
}

#[test]
fn failed_reply_fails() {
    let mut st = sizing_init();
    assert_eq!(sizing_step(&mut st, SizingReply::Failed), SizingAction::Fail);
}

#[test]
fn buffer_grows_monotonically() {
    let mut st = sizing_init();
    assert_eq!(sizing_step(&mut st, SizingReply::Overflow(2000)), SizingAction::Retry);
    assert_eq!(st.size, 2000);
    // A smaller requirement never shrinks the buffer.
    assert_eq!(sizing_step(&mut st, SizingReply::Overflow(500)), SizingAction::Retry);
    assert_eq!(st.size, 2000);
    assert_eq!(st.attempts_left, MAX_ATTEMPTS - 2);
}
