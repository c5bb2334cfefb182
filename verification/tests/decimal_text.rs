use recon::decimal::{parse_u16, parse_u8};

#[test]
fn parse_u8_reads_decimal_bytes() {
    assert_eq!(parse_u8("0"), Some(0));
    assert_eq!(parse_u8("10"), Some(10));
    assert_eq!(parse_u8("255"), Some(255));
    assert_eq!(parse_u8("007"), Some(7));
    assert_eq!(parse_u8("+7"), Some(7));
}

#[test]
fn parse_u8_refuses_what_is_no_byte() {
    assert_eq!(parse_u8("256"), None);
    assert_eq!(parse_u8("1000"), None);
    assert_eq!(parse_u8(""), None);
    assert_eq!(parse_u8("+"), None);
    assert_eq!(parse_u8("-1"), None);
    assert_eq!(parse_u8("1a"), None);
    assert_eq!(parse_u8(" 1"), None);
    assert_eq!(parse_u8("++1"), None);
}

#[test]
fn parse_u16_reads_port_numbers() {
    assert_eq!(parse_u16("22"), Some(22));
    assert_eq!(parse_u16("65535"), Some(65535));
    assert_eq!(parse_u16("65536"), None);
    assert_eq!(parse_u16("99999999999"), None);
    assert_eq!(parse_u16("8o"), None);
}

#[test]
fn parse_agrees_with_std() {
    for text in ["0", "1", "+0", "255", "256", "-0", "", "+", "65535", "65536", "0042", "4 2"] {
        assert_eq!(parse_u8(text), text.parse::<u8>().ok(), "u8 {:?}", text);
        assert_eq!(parse_u16(text), text.parse::<u16>().ok(), "u16 {:?}", text);
    }
}

#[test]
fn decimal_text_reads_back() {
    for n in 0u16..=255 {
        assert_eq!(parse_u8(&n.to_string()), Some(n as u8));
    }
    for n in [0u32, 9, 10, 99, 100, 1023, 65534, 65535] {
        assert_eq!(parse_u16(&n.to_string()), Some(n as u16));
    }
}
