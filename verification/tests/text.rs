use killer::offsets::{char_index, char_width};
use killer::text::{
    contains, find, find_from, format_i64, format_u64, from_chars, is_space_char,
    matches_at, replace, split, starts_with, strip_leading, to_chars, trim,
};

fn chars(s: &str) -> Vec<char> {
    s.chars().collect()
}

fn text(v: &[char]) -> String {
    v.iter().collect()
}

#[test]
fn characters_round_trip() {
    for s in ["", "abc", "ação", "日本語", "a😀b"] {
        assert_eq!(to_chars(s), chars(s));
        assert_eq!(from_chars(&chars(s)), s);
    }
}

#[test]
fn find_gives_the_first_occurrence() {
    assert_eq!(find(&chars("abcabc"), &chars("bc")), Some(1));
    assert_eq!(find(&chars("abcabc"), &chars("abcabc")), Some(0));
    assert_eq!(find(&chars("abcabc"), &chars("cb")), None);
    assert_eq!(find(&chars("abc"), &chars("abcd")), None);
    assert_eq!(find(&chars("abc"), &chars("")), Some(0));
    assert_eq!(find(&chars(""), &chars("")), Some(0));
    assert_eq!(find(&chars(""), &chars("a")), None);
    assert_eq!(find(&chars("ééa"), &chars("a")), Some(2));
    assert_eq!(find_from(&chars("abcabc"), &chars("bc"), 2), Some(4));
    assert_eq!(find_from(&chars("abcabc"), &chars("bc"), 5), None);
    assert_eq!(find_from(&chars("abc"), &chars(""), 3), Some(3));
    assert_eq!(find_from(&chars("abc"), &chars(""), 4), None);
}

#[test]
fn matching_at_a_position() {
    assert!(matches_at(&chars("abc"), &chars("bc"), 1));
    assert!(!matches_at(&chars("abc"), &chars("bc"), 0));
    assert!(!matches_at(&chars("abc"), &chars("bc"), 2));
    assert!(matches_at(&chars("abc"), &chars(""), 3));
    assert!(!matches_at(&chars("abc"), &chars(""), 4));
    assert!(starts_with(&chars("[caption x"), &chars("[caption")));
    assert!(!starts_with(&chars("[capt"), &chars("[caption")));
    assert!(starts_with(&chars(""), &chars("")));
    assert!(contains(&chars("a/wp-content/b"), &chars("/wp-content/")));
    assert!(!contains(&chars("a/wp-content"), &chars("/wp-content/")));
}

#[test]
fn replace_agrees_with_the_standard_library() {
    let cases = [
        ("abcabc", "bc", "X"),
        ("aaaa", "aa", "b"),
        ("aaa", "aa", "b"),
        ("abc", "", "-"),
        ("", "", "-"),
        ("", "a", "b"),
        ("abc", "abc", ""),
        ("abc", "abcd", "x"),
        ("/var/www/wordpress/a/var/www/wordpress", "/var/www/wordpress", ""),
        ("ação e ação", "ação", "paz"),
        ("x", "x", "xx"),
    ];
    for (hay, pat, rep) in cases {
        assert_eq!(text(&replace(&chars(hay), &chars(pat), &chars(rep))), hay.replace(pat, rep));
    }
    assert_eq!(text(&replace(&chars("abc"), &chars(""), &chars("-"))), "-a-b-c-");
}

#[test]
fn white_space_is_the_unicode_property() {
    for code in 0u32..=0x10FFFF {
        if let Some(c) = char::from_u32(code) {
            assert_eq!(is_space_char(c), c.is_whitespace());
        }
    }
}

#[test]
fn trim_agrees_with_the_standard_library() {
    let cases = [
        "",
        " ",
        "a",
        "  a b  ",
        "\n\t a\u{a0}",
        "\u{3000}x\u{2003}y\u{2028}",
        "\r\n",
        "a \n",
        " \u{feff}a ",
    ];
    for s in cases {
        assert_eq!(text(&trim(&chars(s))), s.trim());
    }
}

#[test]
fn leading_slashes_are_stripped() {
    for s in ["", "/", "///a/b/", "a/b", "/a", "//"] {
        assert_eq!(text(&strip_leading(&chars(s), '/')), s.trim_start_matches('/'));
    }
}

#[test]
fn split_agrees_with_the_standard_library() {
    for s in ["", ",", "a", "a,b", "a,,b,", ",a", "a|b,c|d", "é,ü"] {
        let got: Vec<String> = split(&chars(s), ',').iter().map(|f| text(f)).collect();
        let expected: Vec<String> = s.split(',').map(|f| f.to_string()).collect();
        assert_eq!(got, expected);
    }
}

#[test]
fn numbers_in_decimal() {
    for n in [0u64, 1, 9, 10, 11, 99, 100, 12345, 4294967295, u64::MAX] {
        assert_eq!(text(&format_u64(n)), n.to_string());
    }
    for n in [0i64, 1, -1, 10, -10, 2147483647, -2147483648, i64::MAX, i64::MIN] {
        assert_eq!(text(&format_i64(n)), n.to_string());
    }
}

#[test]
fn width_is_the_length_of_the_encoding() {
    for code in 0u32..=0x10FFFF {
        if let Some(c) = char::from_u32(code) {
            assert_eq!(char_width(c), c.len_utf8());
        }
    }
}

#[test]
fn byte_offsets_become_character_positions() {
    let s = "ação 😀!";
    let v = chars(s);
    for (position, (offset, _)) in s.char_indices().enumerate() {
        assert_eq!(char_index(&v, offset), position);
    }
    assert_eq!(char_index(&v, s.len()), v.len());
    assert_eq!(char_index(&v, s.len() + 10), v.len());
    // An offset inside a character stands for that character.
    assert_eq!(char_index(&v, 2), 1);
    assert_eq!(char_index(&v, 3), 2);
    assert_eq!(char_index(&v, 4), 2);
    assert_eq!(char_index(&[], 0), 0);
    assert_eq!(char_index(&[], 5), 0);
}
