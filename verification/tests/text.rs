use c_sharp_analyzer_provider_cli::text::{
    chars_of, contains, find_from, holds, matches_at, replace_all, split_chars, split_whitespace,
    str_le, str_lt, text_between, trim_start_len,
};

fn chars(s: &str) -> Vec<char> {
    s.chars().collect()
}

#[test]
fn split_keeps_empty_pieces() {
    assert_eq!(split_chars("a.b.c", '.'), vec!["a", "b", "c"]);
    assert_eq!(split_chars("", '.'), vec![""]);
    assert_eq!(split_chars(".", '.'), vec!["", ""]);
    assert_eq!(split_chars("a..b", '.'), vec!["a", "", "b"]);
    assert_eq!(split_chars("abc", '.'), vec!["abc"]);
    assert_eq!(split_chars("a.", '.'), vec!["a", ""]);
}

#[test]
fn split_agrees_with_the_standard_library() {
    for s in ["System.Configuration", "..", "x", "a.b.", ".a", "é.ü"] {
        let expected: Vec<String> = s.split('.').map(|p| p.to_string()).collect();
        assert_eq!(split_chars(s, '.'), expected);
    }
}

#[test]
fn characters_in_order() {
    assert_eq!(chars_of("aé1"), vec!['a', 'é', '1']);
    assert_eq!(chars_of(""), Vec::<char>::new());
}

#[test]
fn tokens_between_white_space() {
    assert_eq!(split_whitespace("  nuget  Foo 1.2.3   "), vec!["nuget", "Foo", "1.2.3"]);
    assert_eq!(split_whitespace(""), Vec::<String>::new());
    assert_eq!(split_whitespace(" \t\n"), Vec::<String>::new());
    assert_eq!(split_whitespace("one"), vec!["one"]);
    assert_eq!(split_whitespace("a\tb\u{2003}c"), vec!["a", "b", "c"]);
}

#[test]
fn tokens_agree_with_the_standard_library() {
    for s in ["a b", " a  b ", "\ta", "a\n", "x\u{a0}y", "== net45"] {
        let expected: Vec<String> = s.split_whitespace().map(|p| p.to_string()).collect();
        assert_eq!(split_whitespace(s), expected);
    }
}

#[test]
fn order_of_strings() {
    assert!(str_le("", ""));
    assert!(str_le("", "a"));
    assert!(!str_le("a", ""));
    assert!(str_le("net45", "net45"));
    assert!(str_lt("net45", "net451"));
    assert!(str_lt("net40", "net45"));
    assert!(!str_lt("net45", "net40"));
    assert!(!str_lt("net45", "net45"));
    assert!(str_lt("net48", "zzzzzzzzzzzzzzz"));
    assert!(str_lt("Z", "a"));
    for (a, b) in [("a", "b"), ("ab", "a"), ("é", "z"), ("z", "é"), ("D: /lib/net45", "D: /lib/net45/")] {
        assert_eq!(str_le(a, b), a <= b);
        assert_eq!(str_lt(a, b), a < b);
    }
}

#[test]
fn occurrences() {
    let s = chars("D: /lib/net45/Foo.dll");
    assert!(matches_at(&s, &chars("D: /"), 0));
    assert!(!matches_at(&s, &chars("F: /"), 0));
    assert!(matches_at(&s, &chars(".dll"), 17));
    assert!(!matches_at(&s, &chars(".dll"), 18));
    assert!(matches_at(&s, &chars(""), 21));
    assert!(!matches_at(&s, &chars(""), 22));
    assert!(contains(&s, &chars("lib")));
    assert!(!contains(&s, &chars("Lib")));
    assert_eq!(find_from(&s, &chars("/"), 0), Some(3));
    assert_eq!(find_from(&s, &chars("/"), 4), Some(7));
    assert_eq!(find_from(&s, &chars("/"), 14), None);
    assert_eq!(find_from(&s, &chars("x"), 0), None);
}

#[test]
fn replacing_and_trimming() {
    assert_eq!(replace_all(&chars("D: /lib/D:x"), &chars("D:"), &chars("F:")), chars("F: /lib/F:x"));
    assert_eq!(replace_all(&chars("aaa"), &chars("aa"), &chars("b")), chars("ba"));
    assert_eq!(replace_all(&chars("abc"), &chars(""), &chars("x")), chars("abc"));
    assert_eq!(replace_all(&chars(""), &chars("a"), &chars("x")), chars(""));
    assert_eq!(trim_start_len(&chars("F: /lib/a.dll"), &chars("F: /")), 4);
    assert_eq!(trim_start_len(&chars("F: /F: /a"), &chars("F: /")), 8);
    assert_eq!(trim_start_len(&chars("lib/a.dll"), &chars("F: /")), 0);
    assert_eq!(trim_start_len(&chars("abc"), &chars("")), 0);
    assert_eq!(text_between(&chars("F: /lib"), 4, 7), "lib");
    assert_eq!(text_between(&chars("abc"), 1, 1), "");
}

#[test]
fn membership() {
    let v = vec!["a".to_string(), "b".to_string()];
    assert!(holds(&v, "b"));
    assert!(!holds(&v, "c"));
    assert!(!holds(&Vec::new(), ""));
}

#[test]
fn white_space_is_what_the_standard_library_takes_for_it() {
    let white = |n: u32| {
        (0x09..=0x0D).contains(&n)
            || n == 0x20
            || n == 0x85
            || n == 0xA0
            || n == 0x1680
            || (0x2000..=0x200A).contains(&n)
            || n == 0x2028
            || n == 0x2029
            || n == 0x202F
            || n == 0x205F
            || n == 0x3000
    };
    for n in 0..=0x10FFFFu32 {
        if let Some(c) = char::from_u32(n) {
            assert_eq!(c.is_whitespace(), white(n), "U+{:04X}", n);
        }
    }
    // A token is cut at each of them and at nothing that only looks like one.
    assert_eq!(split_whitespace("a\u{85}b\u{3000}c\u{200B}d\u{180E}e"), vec!["a", "b", "c\u{200B}d\u{180E}e"]);
}
