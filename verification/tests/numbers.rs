use pt_rs::size::{parse_size, SizeGb};
use pt_rs::text::{
    parse_i64, parse_u32, parse_usize, push_decimal, push_escaped, push_signed_decimal, remove_all,
    str_eq, to_ascii_lowercase,
};

fn size_text(z: SizeGb) -> String {
    let mut s = String::new();
    z.push_text(&mut s);
    s
}

#[test]
fn unsigned_numbers() {
    assert_eq!(parse_u32("0"), Some(0));
    assert_eq!(parse_u32("4294967295"), Some(u32::MAX));
    assert_eq!(parse_u32("4294967296"), None);
    assert_eq!(parse_u32("+12"), Some(12));
    assert_eq!(parse_u32("007"), Some(7));
    assert_eq!(parse_u32(""), None);
    assert_eq!(parse_u32("+"), None);
    assert_eq!(parse_u32("-1"), None);
    assert_eq!(parse_u32("1,000"), None);
    assert_eq!(parse_u32(" 1"), None);
    assert_eq!(parse_usize("18446744073709551615"), Some(usize::MAX));
}

#[test]
fn signed_numbers() {
    assert_eq!(parse_i64("-45211"), Some(-45211));
    assert_eq!(parse_i64("9223372036854775807"), Some(i64::MAX));
    assert_eq!(parse_i64("9223372036854775808"), None);
    assert_eq!(parse_i64("-9223372036854775807"), Some(-i64::MAX));
    assert_eq!(parse_i64("1.0"), None);
}

#[test]
fn numbers_written_in_decimal() {
    let mut s = String::from("n=");
    push_decimal(&mut s, 45211);
    assert_eq!(s, "n=45211");
    let mut s = String::new();
    push_decimal(&mut s, 0);
    assert_eq!(s, "0");
    let mut s = String::new();
    push_signed_decimal(&mut s, -1);
    assert_eq!(s, "-1");
    let mut s = String::new();
    push_signed_decimal(&mut s, i64::MIN);
    assert_eq!(s, "-9223372036854775808");
}

#[test]
fn written_numbers_read_back() {
    for n in [0i64, 1, -1, 45211, 1691824664, i64::MAX, -i64::MAX] {
        let mut s = String::new();
        push_signed_decimal(&mut s, n);
        assert_eq!(parse_i64(&s), Some(n));
    }
    for n in [0u64, 9, 10, 4294967295] {
        let mut s = String::new();
        push_decimal(&mut s, n);
        assert_eq!(parse_u32(&s), Some(n as u32));
    }
}

#[test]
fn quotes_doubled() {
    let mut s = String::from("'");
    push_escaped(&mut s, "It's a 'test'");
    assert_eq!(s, "'It''s a ''test''");
}

#[test]
fn separators_removed() {
    assert_eq!(remove_all("1,234,567", ','), "1234567");
    assert_eq!(remove_all(",,", ','), "");
    assert_eq!(remove_all("中,文", ','), "中文");
}

#[test]
fn text_comparison_and_lowercase() {
    assert!(str_eq("大小", "大小"));
    assert!(!str_eq("大小", "大"));
    assert_eq!(to_ascii_lowercase("CarPT-中文"), "carpt-中文");
}

#[test]
fn size_texts_read_as_floats_are() {
    assert_eq!(parse_size("1.5"), Some(SizeGb { mantissa: 15, exponent: -1 }));
    assert_eq!(parse_size("1"), Some(SizeGb { mantissa: 1, exponent: 0 }));
    assert_eq!(parse_size("1."), Some(SizeGb { mantissa: 1, exponent: 0 }));
    assert_eq!(parse_size(".5"), Some(SizeGb { mantissa: 5, exponent: -1 }));
    assert_eq!(parse_size("+2.50"), Some(SizeGb { mantissa: 250, exponent: -2 }));
    assert_eq!(parse_size("1.5e-05"), Some(SizeGb { mantissa: 15, exponent: -6 }));
    assert_eq!(parse_size("3E2"), Some(SizeGb { mantissa: 3, exponent: 2 }));
    assert_eq!(parse_size("0.0"), Some(SizeGb { mantissa: 0, exponent: -1 }));
}

#[test]
fn size_texts_refused() {
    for bad in ["", ".", "-1.5", "1.5.2", "1,5", "abc", "1e", "1e+", "inf", "NaN", "1.5 ", "18446744073709551616"] {
        assert_eq!(parse_size(bad), None, "{:?}", bad);
    }
    assert_eq!(parse_size("18446744073709551615"), Some(SizeGb { mantissa: u64::MAX, exponent: 0 }));
}

#[test]
fn sizes_in_units() {
    let z = SizeGb { mantissa: 15, exponent: -1 };
    assert_eq!(z.in_unit("MB"), Some(SizeGb { mantissa: 15, exponent: -4 }));
    assert_eq!(z.in_unit("GB"), Some(z));
    assert_eq!(z.in_unit("KB"), Some(SizeGb { mantissa: 15, exponent: -7 }));
    assert_eq!(z.in_unit("TB"), Some(SizeGb { mantissa: 15, exponent: 2 }));
    assert_eq!(z.in_unit("PB"), None);
    assert_eq!(z.in_unit("gb"), None);
}

#[test]
fn sizes_written_as_plain_decimals() {
    assert_eq!(size_text(SizeGb { mantissa: 1, exponent: 0 }), "1");
    assert_eq!(size_text(SizeGb { mantissa: 15, exponent: -1 }), "1.5");
    assert_eq!(size_text(SizeGb { mantissa: 1000, exponent: -2 }), "10");
    assert_eq!(size_text(SizeGb { mantissa: 15, exponent: -4 }), "0.0015");
    assert_eq!(size_text(SizeGb { mantissa: 15, exponent: 2 }), "1500");
    assert_eq!(size_text(SizeGb { mantissa: 0, exponent: 5 }), "0");
    assert_eq!(size_text(SizeGb { mantissa: 70025, exponent: -5 }), "0.70025");
}

#[test]
fn written_sizes_read_back() {
    for z in [
        SizeGb { mantissa: 15, exponent: -1 },
        SizeGb { mantissa: 7, exponent: 3 },
        SizeGb { mantissa: 123456, exponent: -9 },
    ] {
        let back = parse_size(&size_text(z)).unwrap();
        assert_eq!(size_text(back), size_text(z));
    }
    assert_eq!(parse_size(&size_text(SizeGb { mantissa: 15, exponent: -1 })), Some(SizeGb { mantissa: 15, exponent: -1 }));
    assert_eq!(parse_size(&size_text(SizeGb { mantissa: 7, exponent: 3 })), Some(SizeGb { mantissa: 7000, exponent: 0 }));
}
