use twiboot::errors::HexParseError;
use twiboot::hex::parse_hex_file;

#[test]
fn sixteen_bytes_at_offset_zero() {
    let data = b":10000000010203040506070809000102030405066A".to_vec();
    let image = parse_hex_file(&data, Some(0x1C00)).unwrap();
    assert_eq!(image.len(), 16);
    assert_eq!(
        image,
        vec![
            0x01, 0x02, 0x03, 0x04, 0x05, 0x06, 0x07, 0x08, 0x09, 0x00, 0x01, 0x02, 0x03, 0x04,
            0x05, 0x06
        ]
    );
}

#[test]
fn record_at_boundary_is_a_conflict() {
    let data = b":041C0000010203041234".to_vec();
    let r = parse_hex_file(&data, Some(0x1C00));
    assert_eq!(r, Err(HexParseError::AddressConflict(0x1C00)));
}

#[test]
fn record_above_boundary_is_a_conflict() {
    let data = b":011D00005588".to_vec();
    let r = parse_hex_file(&data, Some(0x1C00));
    assert_eq!(r, Err(HexParseError::AddressConflict(0x1D00)));
}

#[test]
fn empty_input_gives_empty_image() {
    let r = parse_hex_file(&Vec::new(), Some(0x1C00)).unwrap();
    assert_eq!(r.len(), 0);
}

#[test]
fn eof_record_only_gives_empty_image() {
    let data = b":00000001FF\n".to_vec();
    let r = parse_hex_file(&data, Some(0x1C00)).unwrap();
    assert_eq!(r.len(), 0);
}

#[test]
fn comment_lines_are_skipped() {
    let data = b"; a comment\n\n:00000001FF\n".to_vec();
    let r = parse_hex_file(&data, Some(0x1C00)).unwrap();
    assert_eq!(r.len(), 0);
}

#[test]
fn records_after_eof_are_ignored() {
    let data = b":00000001FF\n:01000000AA55\n".to_vec();
    let r = parse_hex_file(&data, Some(0x1C00)).unwrap();
    assert_eq!(r.len(), 0);
}

#[test]
fn other_record_types_are_ignored() {
    let data = b":020000040000FA\n:00000001FF\n".to_vec();
    let r = parse_hex_file(&data, Some(0x1C00)).unwrap();
    assert_eq!(r.len(), 0);
}

#[test]
fn short_marked_line_is_skipped() {
    let data = b":01\n:01000000AA55\n".to_vec();
    let r = parse_hex_file(&data, Some(0x1C00)).unwrap();
    assert_eq!(r, vec![0xAA]);
}

#[test]
fn truncated_payload_is_skipped() {
    // Declares 16 bytes but carries only one.
    let data = b":10000000AA\n:01000000BB44\n".to_vec();
    let r = parse_hex_file(&data, Some(0x1C00)).unwrap();
    assert_eq!(r, vec![0xBB]);
}

#[test]
fn bad_header_is_malformed() {
    let data = b":0G000000".to_vec();
    let r = parse_hex_file(&data, Some(0x1C00));
    assert_eq!(r, Err(HexParseError::Malformed));
}

#[test]
fn bad_address_is_malformed() {
    let data = b":01Z0000055".to_vec();
    let r = parse_hex_file(&data, Some(0x1C00));
    assert_eq!(r, Err(HexParseError::Malformed));
}

#[test]
fn bad_payload_is_malformed() {
    let data = b":01000000GG".to_vec();
    let r = parse_hex_file(&data, Some(0x1C00));
    assert_eq!(r, Err(HexParseError::Malformed));
}

#[test]
fn non_utf8_input_is_an_encoding_error() {
    let mut data = b":00000001FF".to_vec();
    data.push(0xFF);
    let r = parse_hex_file(&data, Some(0x1C00));
    assert_eq!(r, Err(HexParseError::Encoding));
}

#[test]
fn gap_between_records_is_erased_flash() {
    let data = b":0100000011EE\n:01001000221234\n".to_vec();
    let r = parse_hex_file(&data, Some(0x1C00)).unwrap();
    assert_eq!(r.len(), 0x11);
    assert_eq!(r[0], 0x11);
    assert_eq!(r[0x10], 0x22);
    for i in 1..0x10 {
        assert_eq!(r[i], 0xFF);
    }
}

#[test]
fn image_is_truncated_to_highest_written_address() {
    let data = b":0200100033441234\n".to_vec();
    let r = parse_hex_file(&data, Some(0x1C00)).unwrap();
    assert_eq!(r.len(), 0x12);
    assert_eq!(r[0x10], 0x33);
    assert_eq!(r[0x11], 0x44);
}

#[test]
fn default_boundary_applies_when_none_given() {
    // One byte at the last address below the default boundary.
    let data = b":011BFF0077AB\n".to_vec();
    let r = parse_hex_file(&data, None).unwrap();
    assert_eq!(r.len(), 0x1C00);
    assert_eq!(r[0x1BFF], 0x77);
    let conflict = b":011C000077AB\n".to_vec();
    assert_eq!(
        parse_hex_file(&conflict, None),
        Err(HexParseError::AddressConflict(0x1C00))
    );
}

#[test]
fn crlf_and_surrounding_spaces_are_tolerated() {
    let data = b"  :01000000AA55  \r\n:00000001FF\r\n".to_vec();
    let r = parse_hex_file(&data, Some(0x1C00)).unwrap();
    assert_eq!(r, vec![0xAA]);
}

#[test]
fn parse_is_deterministic() {
    let data = b":10000000010203040506070809000102030405066A\n:00000001FF\n".to_vec();
    let a = parse_hex_file(&data, Some(0x1C00));
    let b = parse_hex_file(&data, Some(0x1C00));
    assert_eq!(a, b);
}

#[test]
fn record_payload_may_cross_boundary_only_past_start() {
    // Starts below the boundary; bytes past it are dropped, but the
    // image still ends at the boundary.
    let data = b":041BFE00102030405A\n".to_vec();
    let r = parse_hex_file(&data, Some(0x1C00)).unwrap();
    assert_eq!(r.len(), 0x1C00);
    assert_eq!(r[0x1BFE], 0x10);
    assert_eq!(r[0x1BFF], 0x20);
}
