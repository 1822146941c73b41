use bitcalc::formatter::{
    convert_to_binary, convert_to_decimal, convert_to_hexadecimal, format_value, is_negative,
    mask_value,
};

#[test]
fn binary_of_low_byte() {
    assert_eq!(format_value(0x0000_00FF, 2, 8, true), "0b11111111");
}

#[test]
fn binary_of_whole_word() {
    assert_eq!(
        format_value(0x0000_00FF, 2, 32, true),
        "0b00000000000000000000000011111111"
    );
}

#[test]
fn binary_ignores_bits_above_the_width() {
    assert_eq!(format_value(0xFFFF_FF05, 2, 4, true), "0b0101");
    assert_eq!(format_value(0xFFFF_FFFE, 2, 1, false), "0b0");
    assert_eq!(format_value(0x8000_0001, 2, 32, false), "0b10000000000000000000000000000001");
}

#[test]
fn hexadecimal_of_one_nibble() {
    assert_eq!(format_value(0xFF, 16, 4, true), "0xF");
}

#[test]
fn hexadecimal_rounds_the_width_up_to_nibbles() {
    assert_eq!(format_value(0xFF, 16, 8, true), "0xFF");
    assert_eq!(format_value(0xFF, 16, 6, true), "0x3F");
    assert_eq!(format_value(0xFF, 16, 1, true), "0x1");
    assert_eq!(format_value(0xFF, 16, 9, true), "0x0FF");
    assert_eq!(format_value(0x1234_ABCD, 16, 32, true), "0x1234ABCD");
    assert_eq!(format_value(0, 16, 32, true), "0x00000000");
    assert_eq!(format_value(0x9A, 16, 12, false), "0x09A");
}

#[test]
fn decimal_of_all_ones_is_minus_one() {
    assert_eq!(format_value(0xFFFF_FFFF, 10, 32, true), "-1");
}

#[test]
fn decimal_with_and_without_sign() {
    assert_eq!(format_value(0, 10, 32, true), "0");
    assert_eq!(format_value(0, 10, 1, false), "0");
    assert_eq!(format_value(42, 10, 32, true), "42");
    assert_eq!(format_value(1234567890, 10, 32, false), "1234567890");
    assert_eq!(format_value(0xFFFF_FFFF, 10, 32, false), "4294967295");
    assert_eq!(format_value(0x8000_0000, 10, 32, true), "-2147483648");
    assert_eq!(format_value(0x7FFF_FFFF, 10, 32, true), "2147483647");
    assert_eq!(format_value(0xFF, 10, 8, true), "-1");
    assert_eq!(format_value(0xFF, 10, 8, false), "255");
    assert_eq!(format_value(0x80, 10, 8, true), "-128");
    assert_eq!(format_value(0x7F, 10, 8, true), "127");
    assert_eq!(format_value(0x1FF, 10, 8, false), "255");
    assert_eq!(format_value(0x100, 10, 8, true), "0");
    assert_eq!(format_value(1, 10, 1, true), "-1");
    assert_eq!(format_value(1, 10, 1, false), "1");
    assert_eq!(format_value(0xFF, 10, 9, true), "255");
    assert_eq!(format_value(100, 10, 32, true), "100");
}

#[test]
fn unknown_base_is_empty() {
    assert_eq!(format_value(1234, 8, 32, true), "");
    assert_eq!(format_value(1234, 0, 32, false), "");
    assert_eq!(format_value(1234, 1, 8, true), "");
    assert_eq!(format_value(0xFFFF_FFFF, u32::MAX, 1, true), "");
}

#[test]
fn formatting_twice_gives_the_same_text() {
    for base in [10u32, 2, 16, 8] {
        for width in [1u32, 4, 8, 31, 32] {
            for flag in [true, false] {
                for value in [0u32, 1, 0x80, 0xFFFF_FFFF, 0x8000_0000, 12345] {
                    assert_eq!(
                        format_value(value, base, width, flag),
                        format_value(value, base, width, flag)
                    );
                }
            }
        }
    }
}

#[test]
fn formatting_agrees_with_the_standard_renderings() {
    for value in [0u32, 1, 9, 10, 0xAB, 0xFFFF, 0x8000_0000, 0xFFFF_FFFF, 305419896] {
        assert_eq!(format_value(value, 10, 32, false), format!("{}", value));
        assert_eq!(format_value(value, 10, 32, true), format!("{}", value as i32));
        assert_eq!(format_value(value, 2, 32, true), format!("0b{:032b}", value));
        assert_eq!(format_value(value, 16, 32, true), format!("0x{:08X}", value));
        assert_eq!(format_value(value, 10, 16, true), format!("{}", value as u16 as i16));
        assert_eq!(format_value(value, 16, 16, true), format!("0x{:04X}", value as u16));
        assert_eq!(format_value(value, 2, 5, true), format!("0b{:05b}", value & 31));
    }
}

#[test]
fn masking_keeps_the_low_bits() {
    assert_eq!(mask_value(0x1234_5678, 16), 0x5678);
    assert_eq!(mask_value(0x1234_5678, 32), 0x1234_5678);
    assert_eq!(mask_value(0xFFFF_FFFF, 1), 1);
    assert_eq!(mask_value(0xFFFF_FFFF, 31), 0x7FFF_FFFF);
    assert_eq!(mask_value(0xFFFF_FFFE, 1), 0);
}

#[test]
fn the_flag_turns_sign_detection_on() {
    assert!(is_negative(0x80, 8, true));
    assert!(!is_negative(0x80, 8, false));
    assert!(!is_negative(0x7F, 8, true));
    assert!(is_negative(0x8000_0000, 32, true));
    assert!(!is_negative(0x8000_0000, 32, false));
    assert!(is_negative(1, 1, true));
    assert!(!is_negative(0, 1, true));
    // Only the top bit of the width counts.
    assert!(!is_negative(0x100, 8, true));
}

#[test]
fn helpers_render_their_base() {
    assert_eq!(convert_to_decimal(0x80, true, 8), "-128");
    assert_eq!(convert_to_decimal(0x80, false, 8), "128");
    assert_eq!(convert_to_decimal(0, false, 8), "0");
    assert_eq!(convert_to_decimal(5, true, 8), "-251");
    assert_eq!(convert_to_decimal(1, true, 32), "-4294967295");
    assert_eq!(convert_to_binary(5, 4), "0b0101");
    assert_eq!(convert_to_hexadecimal(0xABCD_EF01, 32), "0xABCDEF01");
}
