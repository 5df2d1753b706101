use gpioline::error::Error;
use gpioline::events::{wait_for, EventStream, Wait, Wake};
use gpioline::line::{AbiVersion, EdgeEvent, EdgeKind, Value};
use gpioline::wire::Endian;

const LE: Endian = Endian::Little;

fn record(seqno: u32, offset: u32, id: u32, timestamp_ns: u64) -> Vec<u8> {
    let mut b = Vec::new();
    b.extend_from_slice(&timestamp_ns.to_le_bytes());
    b.extend_from_slice(&id.to_le_bytes());
    b.extend_from_slice(&offset.to_le_bytes());
    b.extend_from_slice(&seqno.to_le_bytes());
    b.extend_from_slice(&seqno.to_le_bytes());
    b.extend_from_slice(&[0u8; 24]);
    assert_eq!(b.len(), 48);
    b
}

fn records(seqnos: &[u32]) -> Vec<u8> {
    let mut b = Vec::new();
    for s in seqnos {
        b.extend_from_slice(&record(*s, 3, 1, 1000 + *s as u64));
    }
    b
}

fn old_record(id: u32, timestamp_ns: u64) -> Vec<u8> {
    let mut b = Vec::new();
    b.extend_from_slice(&timestamp_ns.to_le_bytes());
    b.extend_from_slice(&id.to_le_bytes());
    b.extend_from_slice(&[0u8; 4]);
    b
}

#[test]
fn a_timeout_says_how_to_wait() {
    assert_eq!(wait_for(None), Wait::Forever);
    assert_eq!(wait_for(Some(0)), Wait::Poll);
    assert_eq!(wait_for(Some(1)), Wait::Until(1));
    assert_eq!(wait_for(Some(u64::MAX)), Wait::Until(u64::MAX));
}

#[test]
fn one_read_may_bring_several_events() {
    let mut stream = EventStream::new(AbiVersion::V2, LE, 0);
    let mut buf = record(1, 3, 1, 100);
    buf.extend_from_slice(&record(2, 5, 2, 150));
    let events = stream.decode(&buf).unwrap();
    assert_eq!(
        events,
        vec![
            EdgeEvent { offset: 3, kind: EdgeKind::Rising, timestamp_ns: 100, seqno: 1, line_seqno: 1 },
            EdgeEvent { offset: 5, kind: EdgeKind::Falling, timestamp_ns: 150, seqno: 2, line_seqno: 2 },
        ]
    );
    assert_eq!(events[0].value(), Value::Active);
    assert_eq!(events[1].value(), Value::Inactive);
    assert_eq!(stream.delivered_events(), 2);
    assert_eq!(stream.lost_events(), 0);
    assert_eq!(stream.decode(&[]), Ok(Vec::new()));
}

#[test]
fn gaps_in_the_numbers_are_counted_as_lost_events() {
    let mut stream = EventStream::new(AbiVersion::V2, LE, 0);
    let first = stream.decode(&records(&[1, 2])).unwrap();
    assert_eq!(first.len(), 2);
    assert_eq!(stream.lost_events(), 0);
    let second = stream.decode(&records(&[5, 6, 9])).unwrap();
    let numbers: Vec<u32> = second.iter().map(|e| e.seqno).collect();
    assert_eq!(numbers, vec![5, 6, 9]);
    // nine events were raised, five came through
    assert_eq!(stream.delivered_events(), 5);
    assert_eq!(stream.lost_events(), 4);
}

#[test]
fn events_lost_before_the_first_are_counted() {
    let mut stream = EventStream::new(AbiVersion::V2, LE, 0);
    let events = stream.decode(&records(&[17])).unwrap();
    assert_eq!(events.len(), 1);
    assert_eq!(stream.lost_events(), 16);
    assert_eq!(stream.delivered_events(), 1);
}

#[test]
fn numbers_that_do_not_rise_are_a_protocol_error() {
    let mut stream = EventStream::new(AbiVersion::V2, LE, 0);
    stream.decode(&records(&[1, 2, 4])).unwrap();
    assert_eq!(stream.decode(&records(&[4])), Err(Error::ProtocolError));
    assert_eq!(stream.decode(&records(&[5, 5])), Err(Error::ProtocolError));
    assert_eq!(stream.decode(&records(&[6, 5])), Err(Error::ProtocolError));
    assert_eq!(stream.decode(&records(&[0])), Err(Error::ProtocolError));
    assert_eq!(stream.delivered_events(), 3);
    assert_eq!(stream.lost_events(), 1);
    assert_eq!(stream.decode(&records(&[5])).unwrap().len(), 1);
    assert_eq!(stream.lost_events(), 1);
}

#[test]
fn a_buffer_that_ends_inside_a_record_is_a_protocol_error() {
    let mut stream = EventStream::new(AbiVersion::V2, LE, 0);
    let buf = records(&[1, 2]);
    assert_eq!(stream.decode(&buf[..47]), Err(Error::ProtocolError));
    assert_eq!(stream.decode(&buf[..95]), Err(Error::ProtocolError));
    assert_eq!(stream.delivered_events(), 0);
    assert_eq!(stream.decode(&buf).unwrap().len(), 2);
}

#[test]
fn an_event_of_unknown_kind_is_a_protocol_error() {
    let mut stream = EventStream::new(AbiVersion::V2, LE, 0);
    let mut buf = record(1, 3, 1, 100);
    buf.extend_from_slice(&record(2, 3, 7, 100));
    assert_eq!(stream.decode(&buf), Err(Error::ProtocolError));
    assert_eq!(stream.delivered_events(), 0);
}

#[test]
fn a_closed_stream_fails_as_closed() {
    let mut stream = EventStream::new(AbiVersion::V2, LE, 0);
    assert!(!stream.is_closed());
    stream.close();
    assert!(stream.is_closed());
    assert_eq!(stream.decode(&records(&[1])), Err(Error::Closed));
    assert_eq!(stream.woken(Wake::Readable), Err(Error::Closed));
    assert_eq!(stream.woken(Wake::TimedOut), Err(Error::Closed));
}

#[test]
fn a_wait_ends_with_something_to_read_with_nothing_or_with_the_stream() {
    let mut stream = EventStream::new(AbiVersion::V2, LE, 0);
    assert_eq!(stream.woken(Wake::Readable), Ok(true));
    assert_eq!(stream.woken(Wake::TimedOut), Ok(false));
    assert!(!stream.is_closed());
    assert_eq!(stream.woken(Wake::HungUp), Err(Error::Closed));
    assert!(stream.is_closed());
    assert_eq!(stream.woken(Wake::Readable), Err(Error::Closed));
}

#[test]
fn events_of_the_first_generation_are_numbered_as_they_come() {
    let mut stream = EventStream::new(AbiVersion::V1, LE, 14);
    let mut buf = old_record(1, 10);
    buf.extend_from_slice(&old_record(2, 20));
    let events = stream.decode(&buf).unwrap();
    assert_eq!(
        events,
        vec![
            EdgeEvent { offset: 14, kind: EdgeKind::Rising, timestamp_ns: 10, seqno: 1, line_seqno: 1 },
            EdgeEvent { offset: 14, kind: EdgeKind::Falling, timestamp_ns: 20, seqno: 2, line_seqno: 2 },
        ]
    );
    let events = stream.decode(&old_record(1, 30)).unwrap();
    assert_eq!(events[0].seqno, 3);
    assert_eq!(stream.delivered_events(), 3);
    assert_eq!(stream.lost_events(), 0);
    assert_eq!(stream.decode(&old_record(1, 30)[..15]), Err(Error::ProtocolError));
    assert_eq!(stream.decode(&old_record(0, 30)), Err(Error::ProtocolError));
    assert_eq!(stream.delivered_events(), 3);
}

#[test]
fn events_are_read_in_big_endian_order_too() {
    let mut stream = EventStream::new(AbiVersion::V2, Endian::Big, 0);
    let mut b = Vec::new();
    b.extend_from_slice(&77u64.to_be_bytes());
    b.extend_from_slice(&2u32.to_be_bytes());
    b.extend_from_slice(&9u32.to_be_bytes());
    b.extend_from_slice(&3u32.to_be_bytes());
    b.extend_from_slice(&1u32.to_be_bytes());
    b.extend_from_slice(&[0u8; 24]);
    let events = stream.decode(&b).unwrap();
    assert_eq!(
        events,
        vec![EdgeEvent { offset: 9, kind: EdgeKind::Falling, timestamp_ns: 77, seqno: 3, line_seqno: 1 }]
    );
    assert_eq!(stream.lost_events(), 2);
}
