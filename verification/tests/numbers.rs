use av1an_core::decimal::{
    parse_u32, printable_base10_digits, push_decimal, push_padded_decimal, push_signed_decimal,
};
use av1an_core::little_endian::{push_le, read_le};

#[test]
fn decimals_are_written_as_the_formatter_writes_them() {
    for n in [0u64, 7, 10, 99, 100, 12_345, 1 << 32, u64::MAX] {
        let mut out = String::from("n=");
        push_decimal(&mut out, n);
        assert_eq!(out, format!("n={n}"));

        let mut padded = String::new();
        push_padded_decimal(&mut padded, n, 5);
        assert_eq!(padded, format!("{n:05}"));
        assert_eq!(printable_base10_digits(n), n.to_string().len());
    }
    for n in [0i64, -1, 30, i64::MIN, i64::MAX] {
        let mut out = String::new();
        push_signed_decimal(&mut out, n);
        assert_eq!(out, n.to_string());
    }
}

#[test]
fn numbers_are_read_as_the_parser_reads_them() {
    for text in [
        "0", "00012", "+5", "4294967295", "4294967296", "99999999999999999999999", "", "+", "-0",
        " 1", "1 ", "1_0", "\u{661}", "++1",
    ] {
        assert_eq!(parse_u32(text), text.parse::<u32>().ok(), "{text:?}");
    }
}

#[test]
fn little_endian_numbers_are_read_back() {
    let mut bytes = vec![0xff];
    push_le(&mut bytes, 0x0102_0304_0506_0708, 8);
    push_le(&mut bytes, 0xabcd, 2);

    assert_eq!(bytes, vec![0xff, 8, 7, 6, 5, 4, 3, 2, 1, 0xcd, 0xab]);
    assert_eq!(read_le(&bytes, 1, 8), 0x0102_0304_0506_0708);
    assert_eq!(read_le(&bytes, 9, 2), 0xabcd);
    assert_eq!(read_le(&bytes, 4, 4), 0x0203_0405);
}
