use dlt_reader::dlt::cursor::{to_i128, to_i16, to_i32, to_i64, to_i8, Cursor};
use dlt_reader::dlt::headers::{
    read_extended_header, read_standard_header, read_storage_header,
};
use dlt_reader::dlt::payload::{ByteConverter, Payload, Value};
use dlt_reader::dlt::{DltError, TraceData, TraceDataIter};

#[test]
fn cursor_round_trips_big_endian_integers() {
    let data: Vec<u8> = vec![0x12, 0x34, 0x56, 0x78, 0x9A, 0xBC, 0xDE, 0xF0];
    let be = ByteConverter::FromBigEndian;
    let mut c = Cursor::new(&data, 0);
    assert_eq!(c.read_u16(&be).unwrap(), 0x1234);
    let mut c = Cursor::new(&data, 0);
    assert_eq!(c.read_u32(&be).unwrap(), 0x12345678);
    let mut c = Cursor::new(&data, 0);
    assert_eq!(c.read_u64(&be).unwrap(), 0x123456789ABCDEF0);
    assert_eq!(c.pos(), 8);
}

#[test]
fn cursor_round_trips_little_endian_integers() {
    let data: Vec<u8> = vec![0x78, 0x56, 0x34, 0x12];
    let le = ByteConverter::FromLittleEndian;
    let mut c = Cursor::new(&data, 0);
    assert_eq!(c.read_u16(&le).unwrap(), 0x5678);
    let mut c = Cursor::new(&data, 0);
    assert_eq!(c.read_u32(&le).unwrap(), 0x12345678);
}

#[test]
fn cursor_round_trips_u128() {
    let mut data: Vec<u8> = vec![0u8; 16];
    data[15] = 0x2A;
    let be = ByteConverter::FromBigEndian;
    let mut c = Cursor::new(&data, 0);
    assert_eq!(c.read_u128(&be).unwrap(), 42u128);
    let le = ByteConverter::FromLittleEndian;
    let mut c = Cursor::new(&data, 0);
    assert_eq!(c.read_u128(&le).unwrap(), 42u128 << 120);
}

#[test]
fn cursor_reports_truncation() {
    let data: Vec<u8> = vec![0x01];
    let be = ByteConverter::FromBigEndian;
    let mut c = Cursor::new(&data, 0);
    assert_eq!(c.read_u32(&be), Err(DltError::Truncated));
    assert_eq!(c.pos(), 0);
}

#[test]
fn signed_conversions_follow_twos_complement() {
    assert_eq!(to_i8(0xFF), -1);
    assert_eq!(to_i8(0x80), i8::MIN);
    assert_eq!(to_i8(0x7F), 127);
    assert_eq!(to_i16(0xFFFE), -2);
    assert_eq!(to_i32(0xFFFF_FFFF), -1);
    assert_eq!(to_i64(0x8000_0000_0000_0000), i64::MIN);
    assert_eq!(to_i128(u128::MAX), -1);
}

#[test]
fn fixed_ascii_trims_trailing_nuls() {
    let data: Vec<u8> = vec![0x45, 0x43, 0x55, 0x00];
    let mut c = Cursor::new(&data, 0);
    let s = c.read_fixed_ascii(4).unwrap();
    assert_eq!(s, "ECU");
    assert_eq!(c.pos(), 4);
}

#[test]
fn length_prefixed_string_reads_exactly() {
    let data: Vec<u8> = vec![0x00, 0x03, b'a', b'b', b'c', b'd'];
    let be = ByteConverter::FromBigEndian;
    let mut c = Cursor::new(&data, 0);
    let s = c.read_length_prefixed_string(&be).unwrap();
    assert_eq!(s, "abc");
    assert_eq!(c.pos(), 5);
}

fn storage_bytes(ecu: &[u8; 4], sec: u32, usec: u32) -> Vec<u8> {
    let mut v = vec![0x44, 0x4C, 0x54, 0x01];
    v.extend_from_slice(&sec.to_be_bytes());
    v.extend_from_slice(&usec.to_be_bytes());
    v.extend_from_slice(ecu);
    v
}

#[test]
fn storage_header_requires_the_magic_pattern() {
    let data = storage_bytes(b"ECU1", 7, 9);
    let mut it = TraceDataIter { data: &data, index: 0 };
    let h = read_storage_header(&mut it).unwrap();
    assert_eq!(h.timestamp_sec, 7);
    assert_eq!(h.timestamp_usec, 9);
    assert_eq!(h.ecu_id().as_str(), "ECU1");
    assert_eq!(it.index, 16);

    let mut bad = data.clone();
    bad[0] = 0x45;
    let mut it = TraceDataIter { data: &bad, index: 0 };
    assert_eq!(read_storage_header(&mut it).err(), Some(DltError::BadMagic));
}

#[test]
fn standard_header_reads_conditional_fields() {
    // HTYP 0x35: extended header, ECU id, timestamp, version 1.
    let mut data = vec![0x35, 0x02, 0x00, 0x22];
    data.extend_from_slice(b"ECU1");
    data.extend_from_slice(&100u32.to_be_bytes());
    let mut it = TraceDataIter { data: &data, index: 0 };
    let h = read_standard_header(&mut it).unwrap();
    assert!(h.has_extended_header());
    assert!(h.has_ecu_id());
    assert!(!h.has_session_id());
    assert!(h.has_timestamp());
    assert!(!h.is_big_endian());
    assert_eq!(h.version(), 1);
    assert_eq!(h.msg_len(), 0x22);
    assert_eq!(h.len(), 12);
    assert_eq!(h.ecu_id().as_deref(), Some("ECU1"));
    assert_eq!(h.session_id, None);
    assert_eq!(h.timestamp, Some(100));
    assert_eq!(it.index, 12);
}

#[test]
fn extended_header_forces_zero_arguments_without_verbose() {
    // MSIN 0x40: not verbose; the count byte must be ignored.
    let mut data = vec![0x40, 0x05];
    data.extend_from_slice(b"APP1");
    data.extend_from_slice(b"CON1");
    let mut it = TraceDataIter { data: &data, index: 0 };
    let h = read_extended_header(&mut it).unwrap();
    assert!(!h.is_verbose());
    assert_eq!(h.number_of_arguments(), 0);
    assert_eq!(h.app_id().as_str(), "APP1");
    assert_eq!(h.context_id().as_str(), "CON1");
    assert_eq!(h.len(), 10);
}

#[test]
fn verbose_arguments_decode_in_order() {
    // bool(1), uint16 = 0x0203, sint8 = -1, string "hi"
    let le = false;
    let mut p: Vec<u8> = Vec::new();
    p.extend_from_slice(&0x00000011u32.to_le_bytes()); // BOOL, TYLE 1
    p.push(1);
    p.extend_from_slice(&0x00000042u32.to_le_bytes()); // UINT, TYLE 2
    p.extend_from_slice(&0x0203u16.to_le_bytes());
    p.extend_from_slice(&0x00000021u32.to_le_bytes()); // SINT, TYLE 1
    p.push(0xFF);
    p.extend_from_slice(&0x00008200u32.to_le_bytes()); // STRG, UTF-8
    p.extend_from_slice(&3u16.to_le_bytes());
    p.extend_from_slice(b"hi\0");
    let pl = Payload::new(&p, 0, le, 4);
    let vals = pl.iter().collect_values();
    assert_eq!(
        vals,
        vec![
            Value::Bool(true),
            Value::UInt16(0x0203),
            Value::SInt8(-1),
            Value::Str(String::from("hi")),
        ]
    );
}

#[test]
fn unsupported_argument_kind_stops_decoding() {
    let mut p: Vec<u8> = Vec::new();
    p.extend_from_slice(&0x00000083u32.to_le_bytes()); // FLOA, TYLE 3
    p.extend_from_slice(&[0, 0, 0, 0]);
    p.extend_from_slice(&0x00000011u32.to_le_bytes()); // BOOL after it
    p.push(1);
    let pl = Payload::new(&p, 0, false, 2);
    let vals = pl.iter().collect_values();
    assert_eq!(vals, vec![Value::Unsupported]);
}

#[test]
fn non_verbose_payload_exposes_id_and_bytes() {
    let mut p: Vec<u8> = Vec::new();
    p.extend_from_slice(&0x01020304u32.to_be_bytes());
    p.extend_from_slice(&[9, 8, 7]);
    let pl = Payload::new_non_verbose(&p, 0, 7, true);
    let v = pl.read_non_verbose();
    assert_eq!(v, Value::NonVerbose(0x01020304, vec![9, 8, 7]));
}

#[test]
fn iterator_yields_nothing_on_empty_buffer() {
    let data: Vec<u8> = Vec::new();
    let trace = TraceData::new(&data, 0);
    let mut it = trace.iter();
    assert!(it.next().is_none());
}

#[test]
fn iterator_reports_truncated_storage_header() {
    let data: Vec<u8> = vec![0x44, 0x4C, 0x54, 0x01, 0x00];
    let trace = TraceData::new(&data, 0);
    let mut it = trace.iter();
    match it.next() {
        Some(Err(DltError::Truncated)) => {}
        other => panic!("expected truncation, got {:?}", other.map(|r| r.err())),
    }
    assert!(it.next().is_none());
}

#[test]
fn iterator_reports_invalid_identifier_bytes() {
    let data = storage_bytes(&[0xFF, 0xFE, 0x00, 0x00], 0, 0);
    let trace = TraceData::new(&data, 0);
    let mut it = trace.iter();
    match it.next() {
        Some(Err(DltError::InvalidUtf8)) => {}
        other => panic!("expected invalid utf8, got {:?}", other.map(|r| r.err())),
    }
}

#[test]
fn trace_info_argument_decodes_like_a_string() {
    let mut p: Vec<u8> = Vec::new();
    p.extend_from_slice(&0x00002000u32.to_le_bytes()); // TRAI
    p.extend_from_slice(&4u16.to_le_bytes());
    p.extend_from_slice(b"tr\0\0");
    let pl = Payload::new(&p, 0, false, 1);
    let vals = pl.iter().collect_values();
    assert_eq!(vals, vec![Value::TraceData(String::from("tr"))]);
}

#[test]
fn invalid_utf8_string_argument_is_skipped() {
    let mut p: Vec<u8> = Vec::new();
    p.extend_from_slice(&0x00008200u32.to_le_bytes()); // STRG
    p.extend_from_slice(&1u16.to_le_bytes());
    p.push(0xFF); // not valid UTF-8
    p.extend_from_slice(&0x00000011u32.to_le_bytes()); // BOOL, TYLE 1
    p.push(1);
    let pl = Payload::new(&p, 0, false, 2);
    let vals = pl.iter().collect_values();
    assert_eq!(vals, vec![Value::Bool(true)]);
}

#[test]
fn cursor_skip_peek_and_positioning() {
    let data: Vec<u8> = vec![10, 20, 30];
    let mut c = Cursor::new(&data, 0);
    assert_eq!(c.peek_u8().unwrap(), 10);
    assert_eq!(c.pos(), 0);
    c.skip(2).unwrap();
    assert_eq!(c.peek_u8().unwrap(), 30);
    assert_eq!(c.skip(2), Err(DltError::Truncated));
    c.set_pos(1);
    assert_eq!(c.read_u8().unwrap(), 20);
}
