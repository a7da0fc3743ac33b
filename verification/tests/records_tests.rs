use perfmon::ContextSwitchRecord;
use perfmon::Error;
use perfmon::ParsedRecord;
use perfmon::RawRecord;
use perfmon::RecordHeader;

fn raw(type_: u32, misc: u16, payload: Vec<u8>) -> RawRecord {
    let size = (8 + payload.len()) as u16;
    RawRecord { header: RecordHeader { type_, misc, size }, data: payload }
}

#[test]
fn test_decode_exit_and_fork() {
    let mut p = Vec::new();
    p.extend_from_slice(&10u32.to_le_bytes());
    p.extend_from_slice(&11u32.to_le_bytes());
    p.extend_from_slice(&12u32.to_le_bytes());
    p.extend_from_slice(&13u32.to_le_bytes());
    p.extend_from_slice(&99u64.to_le_bytes());
    match raw(4, 0, p.clone()).parse().unwrap() {
        ParsedRecord::Exit(r) => {
            assert_eq!(r.pid, 10);
            assert_eq!(r.ppid, 11);
            assert_eq!(r.tid, 12);
            assert_eq!(r.ptid, 13);
            assert_eq!(r.time, 99);
        },
        other => panic!("unexpected record {:?}", other),
    }
    match raw(7, 0, p).parse().unwrap() {
        ParsedRecord::Fork(r) => assert_eq!(r.pid, 10),
        other => panic!("unexpected record {:?}", other),
    }
}

#[test]
fn test_decode_throttle_records() {
    let mut p = Vec::new();
    p.extend_from_slice(&111u64.to_le_bytes());
    p.extend_from_slice(&222u64.to_le_bytes());
    p.extend_from_slice(&333u64.to_le_bytes());
    match raw(5, 0, p.clone()).parse().unwrap() {
        ParsedRecord::Throttle(t) => {
            assert_eq!(t.time, 111);
            assert_eq!(t.id, 222);
            assert_eq!(t.stream_id, 333);
        },
        other => panic!("unexpected record {:?}", other),
    }
    assert!(matches!(raw(6, 0, p).parse().unwrap(), ParsedRecord::UnThrottle(_)));
}

#[test]
fn test_decode_comm() {
    let mut p = Vec::new();
    p.extend_from_slice(&7u32.to_le_bytes());
    p.extend_from_slice(&8u32.to_le_bytes());
    p.extend_from_slice(b"cat\0....");
    match raw(3, 0, p).parse().unwrap() {
        ParsedRecord::Comm(c) => {
            assert_eq!(c.pid, 7);
            assert_eq!(c.tid, 8);
            assert_eq!(c.comm, "cat");
        },
        other => panic!("unexpected record {:?}", other),
    }
}

#[test]
fn test_decode_comm_invalid_text() {
    let mut p = Vec::new();
    p.extend_from_slice(&7u32.to_le_bytes());
    p.extend_from_slice(&8u32.to_le_bytes());
    p.extend_from_slice(&[0xff, 0xfe, 1, 2, 3, 4, 5, 6]);
    let err = raw(3, 0, p).parse().unwrap_err();
    assert!(matches!(err, Error::ParseUtf8));
}

#[test]
fn test_decode_mmap2() {
    let mut p = Vec::new();
    p.extend_from_slice(&1u32.to_le_bytes());
    p.extend_from_slice(&2u32.to_le_bytes());
    p.extend_from_slice(&0x1000u64.to_le_bytes());
    p.extend_from_slice(&0x2000u64.to_le_bytes());
    p.extend_from_slice(&0x3000u64.to_le_bytes());
    p.extend_from_slice(&5u32.to_le_bytes());
    p.extend_from_slice(&6u32.to_le_bytes());
    p.extend_from_slice(&77u64.to_le_bytes());
    p.extend_from_slice(&88u64.to_le_bytes());
    p.extend_from_slice(&3u32.to_le_bytes());
    p.extend_from_slice(&4u32.to_le_bytes());
    p.extend_from_slice(b"/bin/ls\0");
    match raw(10, 0, p).parse().unwrap() {
        ParsedRecord::Mmap2(m) => {
            assert_eq!(m.pid, 1);
            assert_eq!(m.tid, 2);
            assert_eq!(m.address, 0x1000);
            assert_eq!(m.length, 0x2000);
            assert_eq!(m.page_offset, 0x3000);
            assert_eq!(m.major, 5);
            assert_eq!(m.minor, 6);
            assert_eq!(m.inode, 77);
            assert_eq!(m.inode_generation, 88);
            assert_eq!(m.protection, 3);
            assert_eq!(m.flags, 4);
            assert_eq!(m.filename, "/bin/ls");
        },
        other => panic!("unexpected record {:?}", other),
    }
}

#[test]
fn test_decode_sample() {
    let mut p = Vec::new();
    p.extend_from_slice(&0xdead_beefu64.to_le_bytes());
    p.extend_from_slice(&21u32.to_le_bytes());
    p.extend_from_slice(&22u32.to_le_bytes());
    p.extend_from_slice(&23u64.to_le_bytes());
    p.extend_from_slice(&3u32.to_le_bytes());
    p.extend_from_slice(&0u32.to_le_bytes());
    p.extend_from_slice(&1000u64.to_le_bytes());
    p.extend_from_slice(&555u64.to_le_bytes());
    p.extend_from_slice(&100u64.to_le_bytes());
    p.extend_from_slice(&50u64.to_le_bytes());
    p.extend_from_slice(&77u64.to_le_bytes());
    match raw(9, 0, p).parse().unwrap() {
        ParsedRecord::Sample(s) => {
            assert_eq!(s.ip, 0xdead_beef);
            assert_eq!(s.pid, 21);
            assert_eq!(s.tid, 22);
            assert_eq!(s.time, 23);
            assert_eq!(s.cpu, 3);
            assert_eq!(s.period, 1000);
            assert_eq!(s.value.value, 555);
            assert_eq!(s.value.time_enabled, 100);
            assert_eq!(s.value.time_running, 50);
            assert_eq!(s.value.id, 77);
        },
        other => panic!("unexpected record {:?}", other),
    }
}

#[test]
fn test_decode_context_switch() {
    let switch_in = raw(14, 0, Vec::new()).parse().unwrap();
    assert!(matches!(switch_in, ParsedRecord::ContextSwitch(ContextSwitchRecord::SwitchIn)));
    let out_idle = raw(14, 0x2000, Vec::new()).parse().unwrap();
    assert!(matches!(out_idle, ParsedRecord::ContextSwitch(ContextSwitchRecord::SwitchOutIdle)));
    let out_running = raw(14, 0x6000, Vec::new()).parse().unwrap();
    assert!(matches!(
        out_running,
        ParsedRecord::ContextSwitch(ContextSwitchRecord::SwitchOutRunning)
    ));
}

#[test]
fn test_decode_unknown_type() {
    let rec = raw(100, 0, Vec::new());
    assert!(!rec.is_sample());
    assert!(matches!(rec.parse().unwrap(), ParsedRecord::UnknownEvent));
}

#[test]
fn test_decode_truncated() {
    let err = raw(4, 0, vec![1, 2, 3]).parse().unwrap_err();
    assert!(matches!(err, Error::TruncatedRecord));
    let err = raw(9, 0, vec![0; 16]).parse().unwrap_err();
    assert!(matches!(err, Error::TruncatedRecord));
}

#[test]
fn test_is_sample() {
    assert!(raw(9, 0, vec![0; 72]).is_sample());
    assert!(!raw(4, 0, Vec::new()).is_sample());
}
