use server_config::text::{
    chars_of, find_from, read_flag, read_unsigned, same_chars, split_on, string_from, string_of,
    trimmed, upper_of, without_prefix, write_decimal,
};

fn cs(s: &str) -> Vec<char> {
    s.chars().collect()
}

#[test]
fn chars_and_strings_round_trip() {
    assert_eq!(chars_of("a\u{e9}z"), vec!['a', '\u{e9}', 'z']);
    assert_eq!(string_of(&cs("h\u{e9}llo")), "h\u{e9}llo");
    assert_eq!(string_from(&cs("hello"), 1, 3), "el");
    assert_eq!(string_from(&cs("hello"), 2, 2), "");
}

#[test]
fn trimmed_removes_both_ends_only() {
    assert_eq!(trimmed(&cs("  a b \t")), cs("a b"));
    assert_eq!(trimmed(&cs(" \n\r ")), cs(""));
    assert_eq!(trimmed(&cs("")), cs(""));
    assert_eq!(trimmed(&cs("x")), cs("x"));
    assert_eq!(trimmed(&cs("\u{2028}x\u{85}")), cs("x"));
}

#[test]
fn trimmed_agrees_with_the_standard_library() {
    let mut c: u32 = 0;
    while c < 0x3100 {
        if let Some(ch) = char::from_u32(c) {
            let s = format!("{}x{}", ch, ch);
            assert_eq!(string_of(&trimmed(&cs(&s))), s.trim(), "code point {}", c);
        }
        c += 1;
    }
}

#[test]
fn split_on_keeps_empty_pieces() {
    assert_eq!(split_on(&cs("a,b,,c"), ','), vec![cs("a"), cs("b"), cs(""), cs("c")]);
    assert_eq!(split_on(&cs(""), ','), vec![cs("")]);
    assert_eq!(split_on(&cs(","), ','), vec![cs(""), cs("")]);
    assert_eq!(split_on(&cs("abc"), ','), vec![cs("abc")]);
}

#[test]
fn find_from_gives_first_or_length() {
    assert_eq!(find_from(&cs("a=b=c"), 0, '='), 1);
    assert_eq!(find_from(&cs("a=b=c"), 2, '='), 3);
    assert_eq!(find_from(&cs("abc"), 0, '='), 3);
}

#[test]
fn read_unsigned_accepts_digits_and_a_plus() {
    assert_eq!(read_unsigned(&cs("0"), 65535), Some(0));
    assert_eq!(read_unsigned(&cs("80"), 65535), Some(80));
    assert_eq!(read_unsigned(&cs("+80"), 65535), Some(80));
    assert_eq!(read_unsigned(&cs("00080"), 65535), Some(80));
    assert_eq!(read_unsigned(&cs("65535"), 65535), Some(65535));
    assert_eq!(read_unsigned(&cs("18446744073709551615"), u64::MAX), Some(u64::MAX));
}

#[test]
fn read_unsigned_rejects_the_rest() {
    assert_eq!(read_unsigned(&cs(""), 65535), None);
    assert_eq!(read_unsigned(&cs("+"), 65535), None);
    assert_eq!(read_unsigned(&cs("-1"), 65535), None);
    assert_eq!(read_unsigned(&cs("++1"), 65535), None);
    assert_eq!(read_unsigned(&cs("abc"), 65535), None);
    assert_eq!(read_unsigned(&cs(" 80"), 65535), None);
    assert_eq!(read_unsigned(&cs("80 "), 65535), None);
    assert_eq!(read_unsigned(&cs("8_0"), 65535), None);
    assert_eq!(read_unsigned(&cs("0x10"), 65535), None);
    assert_eq!(read_unsigned(&cs("65536"), 65535), None);
    assert_eq!(read_unsigned(&cs("18446744073709551616"), u64::MAX), None);
    assert_eq!(read_unsigned(&cs("99999999999999999999999"), u64::MAX), None);
    assert_eq!(read_unsigned(&cs("\u{661}"), 65535), None);
}

#[test]
fn read_unsigned_agrees_with_the_standard_library() {
    let samples = [
        "", "+", "-", "0", "+0", "-0", "1", "65535", "65536", "065535", "+65535", "1e3", "12a",
        "a12", " 1", "1 ", "4294967295", "4294967296",
    ];
    for s in samples {
        assert_eq!(read_unsigned(&cs(s), 65535), s.parse::<u16>().ok().map(u64::from), "{}", s);
        assert_eq!(
            read_unsigned(&cs(s), u32::MAX as u64),
            s.parse::<u32>().ok().map(u64::from),
            "{}",
            s
        );
    }
}

#[test]
fn read_flag_accepts_exactly_two_words() {
    assert_eq!(read_flag(&cs("true")), Some(true));
    assert_eq!(read_flag(&cs("false")), Some(false));
    assert_eq!(read_flag(&cs("True")), None);
    assert_eq!(read_flag(&cs("1")), None);
    assert_eq!(read_flag(&cs("")), None);
    assert_eq!(read_flag(&cs("true ")), None);
    assert_eq!(read_flag(&cs("falsy")), None);
}

#[test]
fn write_decimal_writes_base_ten() {
    assert_eq!(write_decimal(0), "0");
    assert_eq!(write_decimal(7), "7");
    assert_eq!(write_decimal(10), "10");
    assert_eq!(write_decimal(999), "999");
    assert_eq!(write_decimal(65535), "65535");
    assert_eq!(write_decimal(u64::MAX), "18446744073709551615");
}

#[test]
fn write_decimal_then_read_gives_the_number_back() {
    for n in [0u64, 1, 9, 10, 301, 65535, 1 << 40, u64::MAX] {
        assert_eq!(read_unsigned(&chars_of(&write_decimal(n)), u64::MAX), Some(n));
    }
}

#[test]
fn without_prefix_strips_or_refuses() {
    assert_eq!(without_prefix(&cs("server:a"), &cs("server:")), Some(cs("a")));
    assert_eq!(without_prefix(&cs("server:"), &cs("server:")), Some(cs("")));
    assert_eq!(without_prefix(&cs("serve"), &cs("server:")), None);
    assert_eq!(without_prefix(&cs("xserver:a"), &cs("server:")), None);
    assert_eq!(without_prefix(&cs("abc"), &cs("")), Some(cs("abc")));
}

#[test]
fn same_chars_compares_whole_texts() {
    assert!(same_chars(&cs("GET"), &cs("GET")));
    assert!(!same_chars(&cs("GET"), &cs("GETS")));
    assert!(!same_chars(&cs("GET"), &cs("GEt")));
    assert!(same_chars(&cs(""), &cs("")));
}

#[test]
fn upper_of_changes_the_text() {
    assert_eq!(upper_of(&cs("get")), "GET");
    assert_eq!(upper_of(&cs("Post")), "POST");
    assert_eq!(upper_of(&cs("stra\u{df}e")), "STRASSE");
}
