use trashdoctor::pattern::fits_parts;
use trashdoctor::text::{
    chars_of, contains_chars, decimal_text, find_from, has_char, occurs_at_offset, same_chars,
    same_text, spells, split_chars, text_of,
};

fn chars(s: &str) -> Vec<char> {
    s.chars().collect()
}

fn parts(list: &[&str]) -> Vec<Vec<char>> {
    list.iter().map(|p| chars(p)).collect()
}

#[test]
fn chars_and_text_round_trip() {
    assert_eq!(chars_of("héllo"), vec!['h', 'é', 'l', 'l', 'o']);
    assert_eq!(chars_of(""), Vec::<char>::new());
    assert_eq!(text_of(&chars("héllo"), 1, 4), "éll");
    assert_eq!(text_of(&chars("abc"), 0, 3), "abc");
    assert_eq!(text_of(&chars("abc"), 2, 2), "");
}

#[test]
fn equality_of_texts() {
    assert!(same_text("abc", "abc"));
    assert!(!same_text("abc", "abd"));
    assert!(!same_text("abc", "ab"));
    assert!(same_text("", ""));
    assert!(same_chars(&chars("xy"), &chars("xy")));
    assert!(!same_chars(&chars("xy"), &chars("yx")));
    assert!(spells(&chars("jpg"), "jpg"));
    assert!(!spells(&chars("jpg"), "jpeg"));
}

#[test]
fn searching_a_text() {
    let text = chars("abcabc");
    assert!(has_char(&text, 'c'));
    assert!(!has_char(&text, 'd'));
    assert!(occurs_at_offset(&text, &chars("bc"), 1));
    assert!(occurs_at_offset(&text, &chars("bc"), 4));
    assert!(!occurs_at_offset(&text, &chars("bc"), 2));
    assert!(!occurs_at_offset(&text, &chars("bc"), 5));
    assert!(occurs_at_offset(&text, &chars(""), 6));
    assert!(!occurs_at_offset(&text, &chars(""), 7));
    assert_eq!(find_from(&text, &chars("bc"), 0), Some(1));
    assert_eq!(find_from(&text, &chars("bc"), 2), Some(4));
    assert_eq!(find_from(&text, &chars("bc"), 5), None);
    assert_eq!(find_from(&text, &chars("x"), 0), None);
    assert_eq!(find_from(&text, &chars(""), 3), Some(3));
    assert!(contains_chars(&text, &chars("cab")));
    assert!(!contains_chars(&text, &chars("cb")));
    assert!(contains_chars(&text, &chars("")));
}

#[test]
fn splitting_a_text() {
    assert_eq!(split_chars(&chars("a*b"), '*'), parts(&["a", "b"]));
    assert_eq!(split_chars(&chars("*"), '*'), parts(&["", ""]));
    assert_eq!(split_chars(&chars("**"), '*'), parts(&["", "", ""]));
    assert_eq!(split_chars(&chars("abc"), '*'), parts(&["abc"]));
    assert_eq!(split_chars(&chars(""), '*'), parts(&[""]));
    assert_eq!(split_chars(&chars("*/Downloads/*"), '*'), parts(&["", "/Downloads/", ""]));
    let pattern = "a*bc**d*";
    let expected: Vec<Vec<char>> = pattern.split('*').map(|p| p.chars().collect()).collect();
    assert_eq!(split_chars(&chars(pattern), '*'), expected);
}

#[test]
fn numbers_in_decimal() {
    assert_eq!(decimal_text(0), "0");
    assert_eq!(decimal_text(7), "7");
    assert_eq!(decimal_text(10), "10");
    assert_eq!(decimal_text(1234567890), "1234567890");
    assert_eq!(decimal_text(u64::MAX), "18446744073709551615");
}

#[test]
fn parts_are_laid_out_in_order() {
    assert!(fits_parts(&parts(&["", ".txt"]), &chars("test.txt")));
    assert!(fits_parts(&parts(&["a", "b", "c"]), &chars("a-b-c")));
    assert!(fits_parts(&parts(&["a", "b", "c"]), &chars("abc")));
    assert!(!fits_parts(&parts(&["a", "b", "c"]), &chars("acb")));
    assert!(!fits_parts(&parts(&["ab", "bc"]), &chars("abc")));
    assert!(fits_parts(&parts(&["ab", "bc"]), &chars("abbc")));
    assert!(fits_parts(&parts(&["", "b", ""]), &chars("abc")));
    assert!(!fits_parts(&parts(&["", "a"]), &chars("ab")));
    assert!(fits_parts(&parts(&["", "ab", "ab"]), &chars("xabab")));
    assert!(!fits_parts(&parts(&["", "ab", "ab"]), &chars("xab")));
    assert!(fits_parts(&parts(&["x"]), &chars("x")));
    assert!(!fits_parts(&parts(&["x"]), &chars("xx")));
    assert!(!fits_parts(&parts(&[]), &chars("")));
    assert!(fits_parts(&parts(&["a", "a"]), &chars("aa")));
    assert!(!fits_parts(&parts(&["a", "a"]), &chars("a")));
    assert!(fits_parts(&parts(&["", "b", "b"]), &chars("abab")));
}
