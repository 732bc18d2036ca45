use twiboot::address::parse_address;
use twiboot::errors::HexParseError;
use twiboot::files::{firmware_from_bytes, FileFormat};

#[test]
fn hex_addresses_parse() {
    assert_eq!(parse_address("0x2F"), Some(0x2F));
    assert_eq!(parse_address("0x7f"), Some(0x7F));
    assert_eq!(parse_address("0xFF"), Some(0xFF));
    assert_eq!(parse_address("0x0"), Some(0));
}

#[test]
fn decimal_addresses_parse() {
    assert_eq!(parse_address("47"), Some(47));
    assert_eq!(parse_address("0"), Some(0));
    assert_eq!(parse_address("255"), Some(255));
}

#[test]
fn bad_addresses_are_rejected() {
    assert_eq!(parse_address(""), None);
    assert_eq!(parse_address("0x"), None);
    assert_eq!(parse_address("abc"), None);
    assert_eq!(parse_address("12a"), None);
    assert_eq!(parse_address("256"), None);
    assert_eq!(parse_address("0x100"), None);
    assert_eq!(parse_address("-1"), None);
    assert_eq!(parse_address("0X2F"), None);
}

#[test]
fn extensions_pick_the_format() {
    assert_eq!(FileFormat::from_extension("firmware.hex"), FileFormat::Hex);
    assert_eq!(FileFormat::from_extension("firmware.bin"), FileFormat::Binary);
    assert_eq!(FileFormat::from_extension("firmware.elf"), FileFormat::Auto);
    assert_eq!(FileFormat::from_extension("firmware"), FileFormat::Auto);
    assert_eq!(FileFormat::from_extension("a/b/app.hex"), FileFormat::Hex);
    assert_eq!(FileFormat::from_extension("v1.2/app"), FileFormat::Auto);
    assert_eq!(FileFormat::from_extension(".hex"), FileFormat::Auto);
    assert_eq!(FileFormat::from_extension("a.tar.hex"), FileFormat::Hex);
    assert_eq!(FileFormat::from_extension("up.HEX"), FileFormat::Auto);
    assert_eq!(FileFormat::from_extension(""), FileFormat::Auto);
}

#[test]
fn binary_bytes_pass_through() {
    let data = vec![0x00, 0x11, 0x22];
    let r = firmware_from_bytes(data.clone(), FileFormat::Binary, 0x1C00).unwrap();
    assert_eq!(r, data);
}

#[test]
fn hex_bytes_are_parsed() {
    let data = b":01000000AA55\n".to_vec();
    let r = firmware_from_bytes(data, FileFormat::Hex, 0x1C00).unwrap();
    assert_eq!(r, vec![0xAA]);
}

#[test]
fn auto_detects_hex_by_leading_marker() {
    let data = b":01000000AA55\n".to_vec();
    let r = firmware_from_bytes(data, FileFormat::Auto, 0x1C00).unwrap();
    assert_eq!(r, vec![0xAA]);
}

#[test]
fn auto_passes_binary_through() {
    let data = vec![0x7F, 0x45, 0x4C, 0x46];
    let r = firmware_from_bytes(data.clone(), FileFormat::Auto, 0x1C00).unwrap();
    assert_eq!(r, data);
}

#[test]
fn auto_surfaces_parse_errors() {
    let data = b":011D000055AB\n".to_vec();
    let r = firmware_from_bytes(data, FileFormat::Auto, 0x1C00);
    assert_eq!(r, Err(HexParseError::AddressConflict(0x1D00)));
}
