use perfmon::ParsedRecord;
use perfmon::RingBuffer;

fn record_bytes(type_: u32, misc: u16, payload: &[u8]) -> Vec<u8> {
    assert!(payload.len() % 8 == 0);
    let size = (8 + payload.len()) as u16;
    let mut out = Vec::new();
    out.extend_from_slice(&type_.to_le_bytes());
    out.extend_from_slice(&misc.to_le_bytes());
    out.extend_from_slice(&size.to_le_bytes());
    out.extend_from_slice(payload);
    out
}

fn exit_payload(pid: u32, ppid: u32, tid: u32, ptid: u32, time: u64) -> Vec<u8> {
    let mut p = Vec::new();
    p.extend_from_slice(&pid.to_le_bytes());
    p.extend_from_slice(&ppid.to_le_bytes());
    p.extend_from_slice(&tid.to_le_bytes());
    p.extend_from_slice(&ptid.to_le_bytes());
    p.extend_from_slice(&time.to_le_bytes());
    p
}

fn lost_payload(id: u64, num: u64) -> Vec<u8> {
    let mut p = Vec::new();
    p.extend_from_slice(&id.to_le_bytes());
    p.extend_from_slice(&num.to_le_bytes());
    p
}

#[test]
fn test_ring_produce_consume() {
    // Three records whose sizes sum to less than the 128-byte capacity must
    // come back in write order, and draining advances by their total size.
    let mut rb = RingBuffer::new(2, 64).unwrap();
    let r1 = record_bytes(4, 0, &exit_payload(1, 2, 3, 4, 5));
    let r2 = record_bytes(2, 0, &lost_payload(9, 7));
    let r3 = record_bytes(14, 0x2000, &[]);
    rb.produce(&r1);
    rb.produce(&r2);
    rb.produce(&r3);
    assert!(rb.events_pending());

    let mut it = rb.events();
    let a = it.next().unwrap();
    let b = it.next().unwrap();
    let c = it.next().unwrap();
    assert!(it.next().is_none());
    assert_eq!(a.header.type_, 4);
    assert_eq!(a.header.size as usize, r1.len());
    assert_eq!(b.header.type_, 2);
    assert_eq!(c.header.type_, 14);
    match a.parse().unwrap() {
        ParsedRecord::Exit(p) => {
            assert_eq!(p.pid, 1);
            assert_eq!(p.ppid, 2);
            assert_eq!(p.tid, 3);
            assert_eq!(p.ptid, 4);
            assert_eq!(p.time, 5);
        },
        other => panic!("unexpected record {:?}", other),
    }
    match b.parse().unwrap() {
        ParsedRecord::Lost(l) => {
            assert_eq!(l.id, 9);
            assert_eq!(l.num, 7);
        },
        other => panic!("unexpected record {:?}", other),
    }
    assert!(matches!(c.parse().unwrap(), ParsedRecord::ContextSwitch(_)));

    rb.advance(None);
    assert!(!rb.events_pending());
}

#[test]
fn test_ring_wraparound_decode() {
    // The same logical record must decode identically whether or not its
    // byte span crosses the wraparound boundary.
    let straddling = record_bytes(2, 0, &lost_payload(0x1122334455667788, 42));

    // Reference: the record at offset zero of a fresh ring.
    let mut plain = RingBuffer::new(1, 64).unwrap();
    plain.produce(&straddling);
    let mut it = plain.events();
    let reference = it.next().unwrap();

    // Wrapped: fill and drain 48 bytes first, so the 24-byte record starts
    // at offset 48 of a 64-byte ring and wraps.
    let mut ring = RingBuffer::new(1, 64).unwrap();
    let filler = record_bytes(1, 0, &[0u8; 40]);
    ring.produce(&filler);
    ring.advance(None);
    ring.produce(&straddling);
    let mut it = ring.events();
    let wrapped = it.next().unwrap();

    assert_eq!(wrapped.header, reference.header);
    assert_eq!(wrapped.data, reference.data);
    match (wrapped.parse().unwrap(), reference.parse().unwrap()) {
        (ParsedRecord::Lost(w), ParsedRecord::Lost(r)) => {
            assert_eq!(w, r);
            assert_eq!(w.id, 0x1122334455667788);
            assert_eq!(w.num, 42);
        },
        _ => panic!("expected lost records"),
    }
}

#[test]
fn test_ring_drain_idempotent() {
    // After draining, nothing is pending until the producer writes more,
    // and draining again changes nothing.
    let mut rb = RingBuffer::new(1, 64).unwrap();
    rb.produce(&record_bytes(2, 0, &lost_payload(1, 1)));
    assert!(rb.events_pending());
    rb.advance(None);
    assert!(!rb.events_pending());
    rb.advance(None);
    assert!(!rb.events_pending());
    assert!(rb.events().next().is_none());
    rb.produce(&record_bytes(2, 0, &lost_payload(2, 2)));
    assert!(rb.events_pending());
}

#[test]
fn test_ring_partial_advance() {
    let mut rb = RingBuffer::new(1, 64).unwrap();
    rb.produce(&record_bytes(2, 0, &lost_payload(1, 1)));
    rb.produce(&record_bytes(2, 0, &lost_payload(2, 2)));
    rb.advance(Some(1));
    assert!(rb.events_pending());
    let mut it = rb.events();
    let rec = it.next().unwrap();
    match rec.parse().unwrap() {
        ParsedRecord::Lost(l) => assert_eq!(l.id, 2),
        other => panic!("unexpected record {:?}", other),
    }
    assert!(it.next().is_none());
}

#[test]
fn test_ring_new_rejects_bad_geometry() {
    assert!(RingBuffer::new(3, 64).is_err());
    assert!(RingBuffer::new(0, 64).is_err());
    assert!(RingBuffer::new(2, 0).is_err());
    assert!(RingBuffer::new(2, 63).is_err());
    assert!(RingBuffer::new(2, 64).is_ok());
}

#[test]
fn test_ring_iterator_snapshot() {
    // Records produced after `events` was called are not visible to that
    // iterator.
    let mut rb = RingBuffer::new(1, 64).unwrap();
    rb.produce(&record_bytes(2, 0, &lost_payload(1, 1)));
    let mut it = rb.events();
    rb.produce(&record_bytes(2, 0, &lost_payload(2, 2)));
    assert!(it.next().is_some());
    assert!(it.next().is_none());
    let mut it2 = rb.events();
    assert!(it2.next().is_some());
    assert!(it2.next().is_some());
    assert!(it2.next().is_none());
}
