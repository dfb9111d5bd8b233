use memori::text::{chars_of, decimal_chars, parse_u32_range, replace_str, str_equal, str_less};

fn parse(s: &str) -> Option<u32> {
    let chars = chars_of(s);
    parse_u32_range(&chars, 0, chars.len())
}

#[test]
fn parse_accepts_what_from_str_accepts() {
    for s in ["0", "7", "007", "+12", "4294967295", "123456"] {
        assert_eq!(parse(s), s.parse::<u32>().ok(), "{}", s);
    }
    assert_eq!(parse("+12"), Some(12));
    assert_eq!(parse("007"), Some(7));
    assert_eq!(parse("4294967295"), Some(u32::MAX));
}

#[test]
fn parse_rejects_what_from_str_rejects() {
    for s in ["", "+", "-0", "-1", "++1", "1a", " 1", "4294967296", "99999999999999999999", "1_2"] {
        assert_eq!(parse(s), s.parse::<u32>().ok(), "{}", s);
        assert_eq!(parse(s), None, "{}", s);
    }
}

#[test]
fn replace_matches_std_replace() {
    let cases = [
        ("a</b></c", "</", "<\\/"),
        ("<<//", "</", "X"),
        ("aaaa", "aa", "b"),
        ("abc", "abcd", "x"),
        ("", "x", "y"),
        ("x\\y\\z", "\\", "/"),
        ("<head></head>end</head>", "</head>", "[S]"),
    ];
    for (s, pat, rep) in cases {
        assert_eq!(replace_str(s, pat, rep), s.replace(pat, rep), "{:?}", (s, pat, rep));
    }
}

#[test]
fn string_order_matches_std_order() {
    let words = ["", "a", "ab", "b", "Z", "é", "aa", "ba", "007", "010"];
    for a in words {
        for b in words {
            assert_eq!(str_less(a, b), a < b, "{:?} < {:?}", a, b);
            assert_eq!(str_equal(a, b), a == b);
        }
    }
}

#[test]
fn decimal_digits() {
    assert_eq!(decimal_chars(0), vec!['0']);
    assert_eq!(decimal_chars(9), vec!['9']);
    assert_eq!(decimal_chars(10), vec!['1', '0']);
    assert_eq!(decimal_chars(u32::MAX).iter().collect::<String>(), u32::MAX.to_string());
}
