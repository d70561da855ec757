use rexif::lowlevel::{
    read_i16, read_i32, read_i8_array, read_irational, read_u16, read_u16_array, read_u32,
    read_u32_array, read_u64, read_urational, read_urational_array,
};
use rexif::{IRational, URational};

#[test]
fn reads_u16_in_both_orders() {
    assert_eq!(read_u16(true, &[0x34, 0x12]), Some(0x1234));
    assert_eq!(read_u16(false, &[0x12, 0x34, 0xff]), Some(0x1234));
    assert_eq!(read_u16(true, &[0x34]), None);
}

#[test]
fn reads_signed_values() {
    assert_eq!(read_i16(true, &[0xfe, 0xff]), Some(-2));
    assert_eq!(read_i32(false, &[0xff, 0xff, 0xff, 0xfd]), Some(-3));
    assert_eq!(read_i32(false, &[0x7f, 0xff, 0xff, 0xff]), Some(i32::MAX));
}

#[test]
fn reads_u32_and_u64() {
    assert_eq!(read_u32(true, &[1, 2, 3, 4]), Some(0x0403_0201));
    assert_eq!(read_u32(false, &[1, 2, 3, 4]), Some(0x0102_0304));
    assert_eq!(read_u32(false, &[1, 2, 3]), None);
    assert_eq!(read_u64(true, &[1, 0, 0, 0, 0, 0, 0, 0x80]), Some(0x8000_0000_0000_0001));
    assert_eq!(read_u64(false, &[0x3f, 0xf0, 0, 0, 0, 0, 0, 0]), Some(1.0f64.to_bits()));
}

#[test]
fn reads_rationals() {
    assert_eq!(
        read_urational(true, &[1, 0, 0, 0, 2, 0, 0, 0]),
        Some(URational { numerator: 1, denominator: 2 })
    );
    assert_eq!(
        read_irational(false, &[0xff, 0xff, 0xff, 0xff, 0, 0, 0, 3]),
        Some(IRational { numerator: -1, denominator: 3 })
    );
    assert_eq!(read_urational(true, &[1, 0, 0, 0, 2, 0, 0]), None);
}

#[test]
fn array_readers_are_all_or_nothing() {
    assert_eq!(read_u16_array(true, 2, &[1, 0, 2, 0, 9]), Some(vec![1, 2]));
    assert_eq!(read_u16_array(true, 3, &[1, 0, 2, 0, 9]), None);
    assert_eq!(read_u32_array(false, 0, &[]), Some(vec![]));
    assert_eq!(read_u32_array(false, u32::MAX, &[0; 16]), None);
    assert_eq!(read_i8_array(3, &[0xff, 1, 0x80]), Some(vec![-1, 1, -128]));
    assert_eq!(read_i8_array(4, &[0xff, 1, 0x80]), None);
    assert_eq!(
        read_urational_array(true, 2, &[1, 0, 0, 0, 2, 0, 0, 0, 3, 0, 0, 0, 4, 0, 0, 0]),
        Some(vec![
            URational { numerator: 1, denominator: 2 },
            URational { numerator: 3, denominator: 4 }
        ])
    );
}

#[test]
fn rational_text() {
    assert_eq!(URational { numerator: 1, denominator: 2 }.text(), "1/2");
    assert_eq!(URational { numerator: 4294967295, denominator: 0 }.text(), "4294967295/0");
    assert_eq!(IRational { numerator: -7, denominator: 10 }.text(), "-7/10");
    assert_eq!(IRational { numerator: i32::MIN, denominator: -1 }.text(), "-2147483648/-1");
    assert_eq!(rexif::rational::decimal_text(1203), "1203");
}
