use youtubeopen::decimal::{decimal2_text, decimal_text, parse_u32, parse_u64};

#[test]
fn writes_numbers_as_std_does() {
    for n in [0u64, 7, 9, 10, 11, 99, 100, 1000, 123456789, u32::MAX as u64, u64::MAX] {
        assert_eq!(decimal_text(n), n.to_string());
        assert_eq!(decimal2_text(n), format!("{:02}", n));
    }
}

#[test]
fn reads_numbers_as_std_does() {
    for text in [
        "",
        "+",
        "-",
        "0",
        "+0",
        "-0",
        "-1",
        "007",
        "+12",
        "++1",
        "1 ",
        " 1",
        "1.5",
        "4294967295",
        "4294967296",
        "18446744073709551615",
        "18446744073709551616",
        "99999999999999999999999",
        "0000000000000000000000001",
        "12a",
        "\u{661}",
    ] {
        assert_eq!(parse_u64(text), text.parse::<u64>().ok(), "{}", text);
        assert_eq!(parse_u32(text), text.parse::<u32>().ok(), "{}", text);
    }
}

#[test]
fn a_written_number_reads_back() {
    for n in [0u64, 1, 1080, u64::MAX] {
        assert_eq!(parse_u64(&decimal_text(n)), Some(n));
    }
}
