//! End-to-end tests of the eventlog decoder on hand-built buffers.

use eventlog::parse_eventlog;
use eventlog::DecodeError;
use eventlog::EventSize;

fn push_u16(buf: &mut Vec<u8>, v: u16) {
    buf.extend_from_slice(&v.to_be_bytes());
}

fn push_u32(buf: &mut Vec<u8>, v: u32) {
    buf.extend_from_slice(&v.to_be_bytes());
}

fn push_u64(buf: &mut Vec<u8>, v: u64) {
    buf.extend_from_slice(&v.to_be_bytes());
}

/// One type-dictionary record, with the size field given as the raw signed
/// 16-bit value the format stores.
fn type_record(id: u16, size: i16, desc: &[u8], extra: &[u8]) -> Vec<u8> {
    let mut buf = Vec::new();
    buf.extend_from_slice(b"etb\0");
    push_u16(&mut buf, id);
    buf.extend_from_slice(&size.to_be_bytes());
    push_u32(&mut buf, desc.len() as u32);
    buf.extend_from_slice(desc);
    push_u32(&mut buf, extra.len() as u32);
    buf.extend_from_slice(extra);
    buf.extend_from_slice(b"ete\0");
    buf
}

/// An event record with a constant-width payload.
fn event_record_constant(ty: u16, time: u64, payload: &[u8]) -> Vec<u8> {
    let mut buf = Vec::new();
    push_u16(&mut buf, ty);
    push_u64(&mut buf, time);
    buf.extend_from_slice(payload);
    buf
}

/// An event record with a length-prefixed payload.
fn event_record_variable(ty: u16, time: u64, payload: &[u8]) -> Vec<u8> {
    let mut buf = Vec::new();
    push_u16(&mut buf, ty);
    push_u64(&mut buf, time);
    push_u16(&mut buf, payload.len() as u16);
    buf.extend_from_slice(payload);
    buf
}

/// A whole eventlog buffer from raw record byte blocks.
fn eventlog_buffer(type_records: &[Vec<u8>], event_records: &[Vec<u8>]) -> Vec<u8> {
    let mut buf = Vec::new();
    buf.extend_from_slice(b"hdrb");
    for r in type_records {
        buf.extend_from_slice(r);
    }
    buf.extend_from_slice(b"hdre");
    buf.extend_from_slice(b"datb");
    for r in event_records {
        buf.extend_from_slice(r);
    }
    buf.extend_from_slice(&[0xff, 0xff]);
    buf
}

#[test]
fn size_policy_zero_is_constant_zero() {
    let buf = eventlog_buffer(&[type_record(1, 0, b"", b"")], &[]);
    let (types, events) = parse_eventlog(&buf).unwrap();
    assert_eq!(types.len(), 1);
    assert_eq!(types[0].size, EventSize::Constant(0));
    assert!(events.is_empty());
}

#[test]
fn size_policy_positive_is_constant() {
    let buf = eventlog_buffer(
        &[type_record(1, 5, b"", b""), type_record(2, 32767, b"", b"")],
        &[],
    );
    let (types, _events) = parse_eventlog(&buf).unwrap();
    assert_eq!(types[0].size, EventSize::Constant(5));
    assert_eq!(types[1].size, EventSize::Constant(32767));
}

#[test]
fn size_policy_negative_is_variable() {
    let buf = eventlog_buffer(
        &[type_record(1, -1, b"", b""), type_record(2, -32768, b"", b"")],
        &[],
    );
    let (types, _events) = parse_eventlog(&buf).unwrap();
    assert_eq!(types[0].size, EventSize::Variable);
    assert_eq!(types[1].size, EventSize::Variable);
}

#[test]
fn empty_dictionary_decodes_to_empty_type_list() {
    let buf = eventlog_buffer(&[], &[]);
    let (types, events) = parse_eventlog(&buf).unwrap();
    assert!(types.is_empty());
    assert!(events.is_empty());
}

#[test]
fn description_and_extra_info_are_preserved() {
    let buf = eventlog_buffer(&[type_record(3, 0, b"temperature", b"celsius")], &[]);
    let (types, _events) = parse_eventlog(&buf).unwrap();
    assert_eq!(types[0].id, 3);
    assert_eq!(types[0].description, b"temperature".to_vec());
    assert_eq!(types[0].extra_info, b"celsius".to_vec());
}

#[test]
fn constant_width_event_decodes_exactly() {
    let buf = eventlog_buffer(
        &[type_record(7, 4, b"", b"")],
        &[event_record_constant(7, 123456789, &[1, 2, 3, 4])],
    );
    let (types, events) = parse_eventlog(&buf).unwrap();
    assert_eq!(types.len(), 1);
    assert_eq!(events.len(), 1);
    assert_eq!(events[0].ty, 7);
    assert_eq!(events[0].time, 123456789);
    assert_eq!(events[0].data, vec![1, 2, 3, 4]);
}

#[test]
fn variable_length_event_decodes_exactly() {
    let buf = eventlog_buffer(
        &[type_record(9, -1, b"", b"")],
        &[event_record_variable(9, 55, b"abc")],
    );
    let (_types, events) = parse_eventlog(&buf).unwrap();
    assert_eq!(events.len(), 1);
    assert_eq!(events[0].ty, 9);
    assert_eq!(events[0].data, vec![0x61, 0x62, 0x63]);
}

#[test]
fn events_keep_file_order() {
    let buf = eventlog_buffer(
        &[type_record(7, 1, b"", b"")],
        &[
            event_record_constant(7, 10, &[0xaa]),
            event_record_constant(7, 20, &[0xbb]),
            event_record_constant(7, 30, &[0xcc]),
        ],
    );
    let (_types, events) = parse_eventlog(&buf).unwrap();
    assert_eq!(events.len(), 3);
    assert_eq!(events[0].time, 10);
    assert_eq!(events[1].time, 20);
    assert_eq!(events[2].time, 30);
    assert_eq!(events[2].data, vec![0xcc]);
}

#[test]
fn trailing_bytes_are_ignored() {
    let mut buf = eventlog_buffer(
        &[type_record(7, 4, b"", b"")],
        &[event_record_constant(7, 123456789, &[1, 2, 3, 4])],
    );
    buf.extend_from_slice(b"leftover junk");
    let (types, events) = parse_eventlog(&buf).unwrap();
    assert_eq!(types.len(), 1);
    assert_eq!(events.len(), 1);
    assert_eq!(events[0].data, vec![1, 2, 3, 4]);
}

#[test]
fn duplicate_id_later_declaration_wins() {
    // Type 5 is declared twice: first constant, then variable. The registry
    // keeps the later declaration, so the event is framed by a length prefix.
    let buf = eventlog_buffer(
        &[type_record(5, 2, b"", b""), type_record(5, -1, b"", b"")],
        &[event_record_variable(5, 1, b"x")],
    );
    let (types, events) = parse_eventlog(&buf).unwrap();
    assert_eq!(types.len(), 2);
    assert_eq!(events.len(), 1);
    assert_eq!(events[0].data, vec![0x78]);
}

#[test]
fn unknown_event_type_fails() {
    let buf = eventlog_buffer(
        &[type_record(1, 0, b"", b"")],
        &[event_record_constant(2, 5, &[])],
    );
    // The event record starts right after "hdrb" (4), one 20-byte type
    // record, "hdre" (4) and "datb" (4).
    assert_eq!(
        parse_eventlog(&buf),
        Err(DecodeError::UnknownType { pos: 32, ty: 2 })
    );
}

#[test]
fn unknown_event_type_returns_no_events() {
    // A valid event precedes the unresolvable one: the whole decode still
    // fails, nothing is returned.
    let buf = eventlog_buffer(
        &[type_record(1, 1, b"", b"")],
        &[
            event_record_constant(1, 5, &[0x01]),
            event_record_constant(2, 6, &[]),
        ],
    );
    assert_eq!(
        parse_eventlog(&buf),
        Err(DecodeError::UnknownType { pos: 43, ty: 2 })
    );
}

#[test]
fn truncated_constant_payload_fails() {
    // Type 7 declares 4 payload bytes; only 2 are present and the buffer
    // ends. The payload would start at offset 42.
    let mut buf = Vec::new();
    buf.extend_from_slice(b"hdrb");
    buf.extend_from_slice(&type_record(7, 4, b"", b""));
    buf.extend_from_slice(b"hdre");
    buf.extend_from_slice(b"datb");
    push_u16(&mut buf, 7);
    push_u64(&mut buf, 99);
    buf.extend_from_slice(&[1, 2]);
    assert_eq!(parse_eventlog(&buf), Err(DecodeError::Truncated { pos: 42 }));
}

#[test]
fn truncated_variable_payload_fails() {
    // The length prefix promises 3 bytes; only 1 follows. The payload would
    // start at offset 44.
    let mut buf = Vec::new();
    buf.extend_from_slice(b"hdrb");
    buf.extend_from_slice(&type_record(9, -1, b"", b""));
    buf.extend_from_slice(b"hdre");
    buf.extend_from_slice(b"datb");
    push_u16(&mut buf, 9);
    push_u64(&mut buf, 99);
    push_u16(&mut buf, 3);
    buf.extend_from_slice(&[0x61]);
    assert_eq!(parse_eventlog(&buf), Err(DecodeError::Truncated { pos: 44 }));
}

#[test]
fn truncated_timestamp_fails() {
    let mut buf = Vec::new();
    buf.extend_from_slice(b"hdrb");
    buf.extend_from_slice(&type_record(1, 1, b"", b""));
    buf.extend_from_slice(b"hdre");
    buf.extend_from_slice(b"datb");
    push_u16(&mut buf, 1);
    buf.extend_from_slice(&[0, 0, 0, 0]);
    assert_eq!(parse_eventlog(&buf), Err(DecodeError::Truncated { pos: 34 }));
}

#[test]
fn truncated_type_record_fails() {
    // The record-begin tag matches at offset 4, then the id field at offset 8
    // has only one byte.
    let mut buf = Vec::new();
    buf.extend_from_slice(b"hdrb");
    buf.extend_from_slice(b"etb\0");
    buf.push(0);
    assert_eq!(parse_eventlog(&buf), Err(DecodeError::Truncated { pos: 8 }));
}

#[test]
fn wrong_header_tag_fails() {
    let buf = b"xxxxhdre".to_vec();
    assert_eq!(parse_eventlog(&buf), Err(DecodeError::TagMismatch { pos: 0 }));
}

#[test]
fn missing_header_end_tag_fails() {
    let buf = b"hdrbdatb\xff\xff".to_vec();
    assert_eq!(parse_eventlog(&buf), Err(DecodeError::TagMismatch { pos: 4 }));
}

#[test]
fn missing_body_end_marker_fails() {
    // After "datb" the buffer ends: no event can begin and no end marker is
    // found.
    let buf = b"hdrbhdredatb".to_vec();
    assert_eq!(parse_eventlog(&buf), Err(DecodeError::Truncated { pos: 12 }));
}

#[test]
fn empty_body_with_nonempty_dictionary() {
    let buf = eventlog_buffer(&[type_record(1, 1, b"one", b"")], &[]);
    let (types, events) = parse_eventlog(&buf).unwrap();
    assert_eq!(types.len(), 1);
    assert_eq!(types[0].description, b"one".to_vec());
    assert!(events.is_empty());
}

#[test]
fn big_endian_fields_decode_exactly() {
    let buf = eventlog_buffer(
        &[type_record(0x1234, 1, b"", b"")],
        &[event_record_constant(0x1234, 0x0102030405060708, &[9])],
    );
    let (types, events) = parse_eventlog(&buf).unwrap();
    assert_eq!(types[0].id, 4660);
    assert_eq!(events[0].ty, 4660);
    assert_eq!(events[0].time, 72623859790382856);
    assert_eq!(events[0].data, vec![9]);
}

#[test]
fn empty_input_fails() {
    assert_eq!(parse_eventlog(&[]), Err(DecodeError::TagMismatch { pos: 0 }));
}
