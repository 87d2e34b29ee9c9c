use taskmon::number::{format_i32, format_u64, parse_i32};
use taskmon::text::{
    chars_eq, chars_of, contains_chars, is_whitespace, join2, split_whitespace, string_from_chars,
};

#[test]
fn whitespace_agrees_with_std_on_every_char() {
    for u in 0u32..=0x10ffff {
        if let Some(c) = char::from_u32(u) {
            assert_eq!(is_whitespace(c), c.is_whitespace(), "char {:x}", u);
        }
    }
}

#[test]
fn split_whitespace_agrees_with_std() {
    let cases = [
        "",
        "   ",
        "kill -n firefox",
        "  kill\t-p12\n-nfoo  ",
        "a\u{3000}b\u{a0}c\u{2028}d",
        "exit",
        "日本 語",
    ];
    for s in cases.iter() {
        let ours = split_whitespace(s);
        let theirs: Vec<String> = s.split_whitespace().map(String::from).collect();
        assert_eq!(ours, theirs, "input {:?}", s);
    }
}

#[test]
fn contains_agrees_with_std() {
    let hay = ["", "firefox", "Firefox-bin", "aaab", "日本語テキスト"];
    let pats = ["", "f", "fox", "Fire", "aab", "本語", "zz", "firefox-bin-long"];
    for h in hay.iter() {
        for p in pats.iter() {
            let hc = chars_of(h);
            let pc = chars_of(p);
            assert_eq!(contains_chars(&hc, &pc), h.contains(p), "{:?} {:?}", h, p);
        }
    }
}

#[test]
fn chars_and_strings_round_trip() {
    let c = chars_of("héllo");
    assert_eq!(c, vec!['h', 'é', 'l', 'l', 'o']);
    assert_eq!(string_from_chars(&c), "héllo");
    assert!(chars_eq(&c, &chars_of("héllo")));
    assert!(!chars_eq(&c, &chars_of("hello")));
    assert_eq!(join2("ab", "cd"), "abcd");
}

#[test]
fn format_i32_agrees_with_display() {
    for v in [0i32, 7, -7, 10, 12345, -99999, i32::MAX, i32::MIN] {
        assert_eq!(format_i32(v), v.to_string());
    }
    for v in [0u64, 9, 10, 4096, u64::MAX] {
        assert_eq!(format_u64(v), v.to_string());
    }
}

#[test]
fn parse_i32_agrees_with_std() {
    let cases = [
        "", "+", "-", "0", "-0", "+5", "12", "0012", "12a", " 1", "1 ", "--1", "+-1",
        "2147483647", "2147483648", "-2147483648", "-2147483649", "99999999999999999999",
        "\u{663}", "1_0",
    ];
    for s in cases.iter() {
        let ours = parse_i32(&chars_of(s));
        let theirs = s.parse::<i32>().ok();
        assert_eq!(ours, theirs, "input {:?}", s);
    }
}

#[test]
fn parse_reads_back_format() {
    for v in [0i32, 1, -1, 42, -42, i32::MAX, i32::MIN, 1_000_000] {
        let s = format_i32(v);
        assert_eq!(parse_i32(&chars_of(&s)), Some(v));
    }
}
