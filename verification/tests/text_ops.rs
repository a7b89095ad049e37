use audiobook_tagger::text::{
    sort_strings,
    chars_have, chars_lex_le, decimal_string, find_chars, join_chars, lower_chars, parse_u32,
    replace_chars, split_chars, squeeze_chars, str_eq, strip_prefix_all_chars,
    strip_suffix_all_chars, to_chars, trim_chars,
};

fn c(s: &str) -> Vec<char> {
    to_chars(s)
}

fn s(v: &Vec<char>) -> String {
    v.iter().collect()
}

#[test]
fn chars_are_listed_in_order() {
    assert_eq!(c("héllo"), vec!['h', 'é', 'l', 'l', 'o']);
    assert_eq!(c(""), Vec::<char>::new());
}

#[test]
fn trim_drops_unicode_white_space_at_both_ends() {
    assert_eq!(s(&trim_chars(&c("  a b \t\n"))), "a b");
    assert_eq!(s(&trim_chars(&c("\u{00A0}\u{3000}x\u{2003}"))), "x");
    assert_eq!(s(&trim_chars(&c(" \t "))), "");
    assert_eq!(s(&trim_chars(&c(""))), "");
    assert_eq!(s(&trim_chars(&c("\u{200B}x"))), "\u{200B}x");
}

#[test]
fn trim_agrees_with_std_on_every_white_space_char() {
    for code in 0u32..0x3100 {
        if let Some(ch) = char::from_u32(code) {
            let text: String = [ch, 'x', ch].iter().collect();
            assert_eq!(s(&trim_chars(&c(&text))), text.trim(), "code point {:#x}", code);
        }
    }
}

#[test]
fn find_returns_first_occurrence() {
    assert_eq!(find_chars(&c("abcabc"), &c("bc")), Some(1));
    assert_eq!(find_chars(&c("abcabc"), &c("cb")), None);
    assert_eq!(find_chars(&c("abc"), &c("")), Some(0));
    assert_eq!(find_chars(&c(""), &c("")), Some(0));
    assert_eq!(find_chars(&c("ab"), &c("abc")), None);
    assert!(chars_have(&c("Narrated by Jane"), &c("Narrated by ")));
    assert!(!chars_have(&c("narrated by Jane"), &c("Narrated by ")));
}

#[test]
fn split_keeps_empty_pieces() {
    let parts: Vec<String> = split_chars(&c("a,,b,"), ',').iter().map(|p| s(p)).collect();
    assert_eq!(parts, vec!["a", "", "b", ""]);
    let one: Vec<String> = split_chars(&c(""), ',').iter().map(|p| s(p)).collect();
    assert_eq!(one, vec![""]);
}

#[test]
fn join_puts_separator_between_pieces() {
    assert_eq!(s(&join_chars(&vec![c("a"), c("b"), c("c")], &c(", "))), "a, b, c");
    assert_eq!(s(&join_chars(&vec![c("a")], &c(", "))), "a");
    assert_eq!(s(&join_chars(&vec![], &c(", "))), "");
}

#[test]
fn replace_goes_left_to_right_without_overlap() {
    assert_eq!(s(&replace_chars(&c("aaa"), &c("aa"), &c("b"))), "ba");
    assert_eq!(s(&replace_chars(&c("a & b & c"), &c(" & "), &c(";"))), "a;b;c");
    assert_eq!(s(&replace_chars(&c("abc"), &c(""), &c("x"))), "abc");
    assert_eq!(s(&replace_chars(&c("Book - Part 1"), &c(" - Part 1"), &c(""))), "Book");
    let text = "x/y|z and w";
    assert_eq!(s(&replace_chars(&c(text), &c("/"), &c(";"))), text.replace('/', ";"));
}

#[test]
fn strip_takes_repeated_prefix_and_suffix() {
    assert_eq!(s(&strip_prefix_all_chars(&c("```json```json{}"), &c("```json"))), "{}");
    assert_eq!(s(&strip_prefix_all_chars(&c("abc"), &c("x"))), "abc");
    assert_eq!(s(&strip_suffix_all_chars(&c("{}``````"), &c("```"))), "{}");
    assert_eq!(s(&strip_suffix_all_chars(&c("abc"), &c(""))), "abc");
}

#[test]
fn squeeze_reduces_runs_of_white_space() {
    assert_eq!(s(&squeeze_chars(&c("a  \t b\n\nc"))), "a b c");
    assert_eq!(s(&squeeze_chars(&c("  a "))), " a ");
}

#[test]
fn lower_changes_ascii_letters_only() {
    assert_eq!(s(&lower_chars(&c("M4B É Flac"))), "m4b É flac");
}

#[test]
fn lexicographic_order_matches_std() {
    let words = ["", "a", "ab", "b", "B", "é", "01 x", "1 x", "Ch10", "Ch2"];
    for a in words.iter() {
        for b in words.iter() {
            assert_eq!(chars_lex_le(&c(a), &c(b)), a <= b, "{:?} vs {:?}", a, b);
        }
    }
}

#[test]
fn strings_are_sorted_as_std_sorts_them() {
    let names: Vec<String> =
        ["title", "Title", "", "é", "album", "genre", "album", "a", "z", "01"].iter().map(|s| s.to_string()).collect();
    let mut expected = names.clone();
    expected.sort();
    assert_eq!(sort_strings(&names), expected);
    assert!(sort_strings(&vec![]).is_empty());
}

#[test]
fn string_equality_is_by_characters() {
    assert!(str_eq("abc", "abc"));
    assert!(!str_eq("abc", "abd"));
    assert!(!str_eq("abc", "ab"));
}

#[test]
fn decimal_writes_numbers() {
    assert_eq!(decimal_string(0), "0");
    assert_eq!(decimal_string(7), "7");
    assert_eq!(decimal_string(10), "10");
    assert_eq!(decimal_string(4096), "4096");
}

#[test]
fn parse_u32_matches_std() {
    let cases = [
        "0", "7", "2021", "+5", "+", "", "-5", " 5", "5 ", "12a", "4294967295", "4294967296",
        "99999999999999999999", "007", "++1",
    ];
    for text in cases.iter() {
        assert_eq!(parse_u32(text), text.parse::<u32>().ok(), "{:?}", text);
    }
}
