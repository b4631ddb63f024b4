use chip8::bits::{extract, nibble};

#[test]
fn bit_2_val_tests() {
    // A single byte occupies the high 8 bits of a 16-bit word.
    let result = extract((245 as u16) << 8, 4, 8);
    assert_eq!(result, 5);
    let result = extract((240 as u16) << 8, 1, 7);
    assert_eq!(result, 56);
}

#[test]
fn bits_2_hex_tests() {
    let result = nibble(0xEEDA, 3);
    assert_eq!(result, 0xA);
}

#[test]
fn full_range_extraction_is_identity() {
    assert_eq!(extract(0x0000, 0, 16), 0x0000);
    assert_eq!(extract(0x1234, 0, 16), 0x1234);
    assert_eq!(extract(0xFFFF, 0, 16), 0xFFFF);
    assert_eq!(extract(0xEEDA, 0, 16), 0xEEDA);
}

#[test]
fn nibbles_are_hex_digits() {
    assert_eq!(nibble(0xEEDA, 0), 0xE);
    assert_eq!(nibble(0xEEDA, 1), 0xE);
    assert_eq!(nibble(0xEEDA, 2), 0xD);
    assert_eq!(nibble(0xEEDA, 3), 0xA);
    assert_eq!(nibble(0x1ABC, 0), 0x1);
    assert_eq!(nibble(0x1ABC, 1), 0xA);
    assert_eq!(nibble(0x1ABC, 2), 0xB);
    assert_eq!(nibble(0x1ABC, 3), 0xC);
}

#[test]
fn extract_address_and_immediate_fields() {
    assert_eq!(extract(0x1ABC, 4, 16), 0xABC);
    assert_eq!(extract(0x6A07, 8, 16), 0x07);
    assert_eq!(extract(0x00F5, 12, 16), 0x5);
}

#[test]
fn extract_empty_range_is_zero() {
    assert_eq!(extract(0xFFFF, 0, 0), 0);
    assert_eq!(extract(0xFFFF, 7, 7), 0);
    assert_eq!(extract(0xFFFF, 16, 16), 0);
}
