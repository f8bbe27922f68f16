use task_tracker::paint::{paint, Style, Tint};
use task_tracker::text::{
    chars_of, comes_before, copy_opt_text, copy_texts, digit_of, char_of_digit, first_chars,
    holds_at, insert_name, insert_names, is_word, normalize, parse_i64, push_decimal,
    push_signed_decimal, remove_all, same_text, slice_of, sorted_names, starts_with, string_of,
    suffix_start, trim,
};

fn chars(s: &str) -> Vec<char> {
    s.chars().collect()
}

fn names(list: &[&str]) -> Vec<String> {
    list.iter().map(|s| s.to_string()).collect()
}

#[test]
fn strings_become_characters_and_back() {
    assert_eq!(chars_of("héllo"), vec!['h', 'é', 'l', 'l', 'o']);
    assert_eq!(chars_of(""), Vec::<char>::new());
    let v = chars("héllo wörld");
    assert_eq!(string_of(&v, 0, v.len()), "héllo wörld");
    assert_eq!(string_of(&v, 2, 7), "llo w");
    assert_eq!(string_of(&v, 3, 3), "");
    assert_eq!(slice_of(&v, 6, 11), chars("wörld"));
}

#[test]
fn the_first_characters_of_a_string() {
    assert_eq!(first_chars("0123456789", 7), "0123456");
    assert_eq!(first_chars("0123456", 7), "0123456");
    assert_eq!(first_chars("012", 7), "012");
    assert_eq!(first_chars("", 7), "");
    assert_eq!(first_chars("ééééééééé", 7), "ééééééé");
}

#[test]
fn a_string_begins_with_its_prefixes() {
    assert!(starts_with("abcdef", "abc"));
    assert!(starts_with("abcdef", ""));
    assert!(starts_with("abcdef", "abcdef"));
    assert!(!starts_with("abcdef", "abd"));
    assert!(!starts_with("abc", "abcd"));
    assert!(!starts_with("abcdef", "ABC"));
    assert!(starts_with("", ""));
}

#[test]
fn copies_hold_the_same_text() {
    assert_eq!(copy_opt_text(&Some("a".to_string())), Some("a".to_string()));
    assert_eq!(copy_opt_text(&None), None);
    assert_eq!(copy_texts(&names(&["b", "a", "b"])), names(&["b", "a", "b"]));
    assert!(same_text(&"a".to_string(), &"a".to_string()));
    assert!(!same_text(&"a".to_string(), &"A".to_string()));
}

#[test]
fn white_space_is_trimmed_at_both_ends() {
    assert_eq!(trim(&chars("  a b \t\n")), chars("a b"));
    assert_eq!(trim(&chars("a")), chars("a"));
    assert_eq!(trim(&chars("   ")), chars(""));
    assert_eq!(trim(&chars("")), chars(""));
    assert_eq!(trim(&chars("\u{a0}\u{3000}x\u{2009}\u{85}")), chars("x"));
    assert_eq!(trim(&chars("\u{200b}x")), chars("\u{200b}x"));
}

#[test]
fn trimming_agrees_with_the_standard_library() {
    for code in 0..=0x10ffffu32 {
        if let Some(c) = char::from_u32(code) {
            let text = vec![c, 'x', c];
            let expected = if c.is_whitespace() { vec!['x'] } else { vec![c, 'x', c] };
            assert_eq!(trim(&text), expected);
        }
    }
    for text in ["  a b \t\n", "\u{a0}x y\u{3000}", " ", "", "x", "\r\n x \u{2028}\u{2029}"] {
        let trimmed: String = trim(&chars(text)).into_iter().collect();
        assert_eq!(trimmed, text.trim());
    }
}

#[test]
fn every_occurrence_is_removed() {
    let cut = |s: &str, p: &str| -> String { remove_all(&chars(s), &chars(p)).into_iter().collect() };
    assert_eq!(cut("in 5 days", "in "), "5 days");
    assert_eq!(cut("+5d", "+"), "5d");
    assert_eq!(cut("++5+d+", "+"), "5d");
    assert_eq!(cut("in in 5", "in "), "5");
    assert_eq!(cut("iin n ", "in "), "in ");
    assert_eq!(cut("aaa", "aa"), "a");
    assert_eq!(cut("abc", ""), "abc");
    assert_eq!(cut("", "x"), "");
    assert_eq!(cut("in", "in "), "in");
    for (s, p) in [("in 5 in days in", "in "), ("a+b++c", "+"), ("ababab", "aba"), ("xxxx", "xx")] {
        assert_eq!(cut(s, p), s.replace(p, ""));
    }
}

#[test]
fn a_pattern_is_found_at_a_place() {
    let v = chars("hello");
    assert!(holds_at(&v, 0, &chars("he")));
    assert!(holds_at(&v, 3, &chars("lo")));
    assert!(!holds_at(&v, 3, &chars("low")));
    assert!(holds_at(&v, 5, &chars("")));
    assert!(!holds_at(&v, 1, &chars("he")));
}

#[test]
fn a_suffix_is_found_at_the_end() {
    assert_eq!(suffix_start(&chars("5days"), "days"), Some(1));
    assert_eq!(suffix_start(&chars("5d"), "d"), Some(1));
    assert_eq!(suffix_start(&chars("d"), "d"), Some(0));
    assert_eq!(suffix_start(&chars("5days"), "d"), None);
    assert_eq!(suffix_start(&chars("ays"), "days"), None);
    assert_eq!(suffix_start(&chars("abc"), ""), Some(3));
}

#[test]
fn words_are_compared_character_by_character() {
    assert!(is_word(&chars("today"), "today"));
    assert!(!is_word(&chars("Today"), "today"));
    assert!(!is_word(&chars("toda"), "today"));
    assert!(!is_word(&chars("todays"), "today"));
    assert!(is_word(&chars(""), ""));
}

#[test]
fn the_normal_form_is_trimmed_and_in_lowercase() {
    assert_eq!(normalize("  ToMorrow "), "tomorrow");
    assert_eq!(normalize("EOY"), "eoy");
    assert_eq!(normalize("In 5 Days"), "in 5 days");
    assert_eq!(normalize("2026-01-05"), "2026-01-05");
    assert_eq!(normalize(" ÄÖ "), "äö");
    assert_eq!(normalize(""), "");
    for code in 0..128u8 {
        let c = code as char;
        let text: String = ['x', c, 'x'].iter().collect();
        let expected: String = ['x', c.to_ascii_lowercase(), 'x'].iter().collect();
        assert_eq!(normalize(&text), expected);
    }
}

#[test]
fn digits_and_their_characters() {
    for d in 0..10u8 {
        let c = char_of_digit(d);
        assert_eq!(c, (b'0' + d) as char);
        assert_eq!(digit_of(c), Some(d));
    }
    assert_eq!(digit_of('a'), None);
    assert_eq!(digit_of('٣'), None);
    assert_eq!(digit_of(' '), None);
}

#[test]
fn integers_are_read_as_the_standard_library_reads_them() {
    for text in [
        "0", "5", "-5", "+5", "007", "-0", "+0", "12345678901234567890", "9223372036854775807",
        "9223372036854775808", "-9223372036854775808", "-9223372036854775809", "", "-", "+", "+-5",
        "--5", "5-", " 5", "5 ", "5a", "a5", "٣", "1_000", "0x10", "99999999999999999999999999",
        "-00000000000000000000000000009223372036854775808",
    ] {
        assert_eq!(parse_i64(&chars(text)), text.parse::<i64>().ok(), "{:?}", text);
    }
}

#[test]
fn numbers_are_written_in_decimal_digits() {
    for n in [0u64, 1, 9, 10, 11, 99, 100, 12345, u64::MAX] {
        let mut out = "x".to_string();
        push_decimal(&mut out, n);
        assert_eq!(out, format!("x{}", n));
    }
    for n in [0i64, 1, -1, 10, -10, 1767571200, i64::MAX, i64::MIN] {
        let mut out = String::new();
        push_signed_decimal(&mut out, n);
        assert_eq!(out, n.to_string());
    }
}

#[test]
fn strings_are_ordered_character_by_character() {
    assert!(comes_before("a", "b"));
    assert!(comes_before("a", "ab"));
    assert!(comes_before("", "a"));
    assert!(comes_before("Work", "alpha"));
    assert!(comes_before("abc", "abd"));
    assert!(!comes_before("a", "a"));
    assert!(!comes_before("b", "a"));
    assert!(!comes_before("ab", "a"));
    assert!(!comes_before("", ""));
    let words = ["", "a", "A", "ab", "b", "é", "z", "zz", "\u{10000}", "\u{ffff}"];
    for a in words {
        for b in words {
            assert_eq!(comes_before(a, b), a < b);
        }
    }
}

#[test]
fn names_are_kept_in_order_and_once() {
    let mut list = names(&["b", "d"]);
    insert_name(&mut list, &"c".to_string());
    assert_eq!(list, names(&["b", "c", "d"]));
    insert_name(&mut list, &"a".to_string());
    insert_name(&mut list, &"e".to_string());
    insert_name(&mut list, &"c".to_string());
    assert_eq!(list, names(&["a", "b", "c", "d", "e"]));
    insert_names(&mut list, &names(&["f", "a", "bb"]));
    assert_eq!(list, names(&["a", "b", "bb", "c", "d", "e", "f"]));
    assert_eq!(sorted_names(&names(&["work", "urgent", "work"])), names(&["urgent", "work"]));
    assert_eq!(sorted_names(&vec![]), Vec::<String>::new());
}

#[test]
fn text_is_painted_or_left_plain() {
    let is = |text: String, plain: &str, code: &str| {
        text == plain || text == format!("\u{1b}[{}m{}\u{1b}[0m", code, plain)
    };
    assert_eq!(paint("plain", Style::Plain), "plain");
    assert!(is(paint("g", Style::Tinted(Tint::Green)), "g", "32"));
    assert!(is(paint("y", Style::Tinted(Tint::Yellow)), "y", "33"));
    assert!(is(paint("b", Style::Tinted(Tint::BrightRed)), "b", "91"));
    assert!(is(paint("r", Style::Tinted(Tint::Red)), "r", "31"));
    assert!(is(paint("br", Style::BoldRed), "br", "1;31"));
}
