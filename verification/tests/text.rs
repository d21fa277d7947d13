use zapret_gui::text::{
    is_whitespace, chars_of, concat_str, contains_chars, lex_less, replace_chars, split_lines, string_of,
    lowercase_chars, trim_line_end_chars, trim_suffix_all_chars,
};

fn v(s: &str) -> Vec<char> {
    s.chars().collect()
}

#[test]
fn lines_split_like_std() {
    for text in ["a\r\nb\n", "a\n\nb", "", "\n", "x\r", "a\r\r\nb"] {
        let ours: Vec<String> = split_lines(text).iter().map(|l| l.iter().collect()).collect();
        let std_lines: Vec<String> = text.lines().map(|l| l.to_string()).collect();
        assert_eq!(ours, std_lines, "{:?}", text);
    }
}

#[test]
fn replace_is_left_to_right_and_non_overlapping() {
    for (s, from, to) in [("aaaa", "aa", "b"), ("%BIN%%BIN%", "%BIN%", "x/"), ("abc", "zz", "q"), ("aaa", "aa", "aa")] {
        let r: String = replace_chars(&v(s), &v(from), &v(to)).iter().collect();
        assert_eq!(r, s.replace(from, to));
    }
}

#[test]
fn trimming_and_searching() {
    assert_eq!(trim_line_end_chars(&v("ab ^ \t\r")), v("ab ^"));
    assert_eq!(trim_suffix_all_chars(&v("g.bat.bat"), &v(".bat")), v("g"));
    assert_eq!(trim_suffix_all_chars(&v("g.BAT"), &v(".bat")), v("g.BAT"));
    assert!(contains_chars(&v("xwinws.exey"), &v("winws.exe")));
    assert!(!contains_chars(&v("winws.ex"), &v("winws.exe")));
    assert_eq!(concat_str("ab", "cd"), "abcd");
    assert_eq!(string_of(&chars_of("é∑")), "é∑");
}

#[test]
fn lowercase_is_unicode_aware() {
    assert_eq!(lowercase_chars(&v("WinWS.EXE")), v("winws.exe"));
    assert_eq!(lowercase_chars(&v("ГЕНЕРАЛ")), v("генерал"));
}

#[test]
fn lexicographic_order_matches_string_order() {
    let words = ["", "a", "ab", "b", "B", "é", "z", "ä"];
    for a in words {
        for b in words {
            assert_eq!(lex_less(&v(a), &v(b)), a < b, "{} {}", a, b);
        }
    }
}

#[test]
fn whitespace_matches_std_for_every_char() {
    for u in 0u32..=0x10FFFF {
        if let Some(c) = char::from_u32(u) {
            assert_eq!(is_whitespace(c), c.is_whitespace(), "{:#x}", u);
        }
    }
}
