use shell_runtime::fields::Fields;
use shell_runtime::pattern::{matches_any, Pattern, Removal};
use std::rc::Rc;

fn rc(s: &str) -> Rc<String> {
    Rc::new(String::from(s))
}

fn pattern(text: &str) -> Pattern {
    Pattern::new(text).unwrap()
}

fn left(how: Removal, text: &str, of: &str) -> String {
    String::from(&**pattern(text).remove(how, rc(of)))
}

#[test]
fn patterns_match_whole_texts() {
    assert!(pattern("a*c").matches("abbc"));
    assert!(pattern("a*c").matches("ac"));
    assert!(!pattern("a*c").matches("abcd"));
    assert!(pattern("a?c").matches("abc"));
    assert!(!pattern("a?c").matches("ac"));
    assert!(pattern("[ab]").matches("b"));
    assert!(!pattern("[!ab]").matches("b"));
    assert!(pattern("").matches(""));
    assert!(!pattern("").matches("a"));
}

#[test]
fn letters_match_in_their_own_case() {
    assert!(pattern("aB").matches("aB"));
    assert!(!pattern("aB").matches("ab"));
}

#[test]
fn wildcards_match_separators_and_leading_dots() {
    assert!(pattern("*").matches("a/b"));
    assert!(pattern("a?b").matches("a/b"));
    assert!(pattern("*").matches(".hidden"));
    assert!(pattern("?hidden").matches(".hidden"));
}

#[test]
fn texts_that_are_no_patterns() {
    assert!(Pattern::new("a[").is_none());
    assert!(Pattern::new("***").is_none());
    assert!(Pattern::new("a**b").is_none());
    assert!(Pattern::new("**").is_some());
}

#[test]
fn suffixes_are_removed() {
    assert_eq!(left(Removal::SmallestSuffix, ".*", "a.b.c"), "a.b");
    assert_eq!(left(Removal::LargestSuffix, ".*", "a.b.c"), "a");
    assert_eq!(left(Removal::SmallestSuffix, "x", "a.b.c"), "a.b.c");
    assert_eq!(left(Removal::LargestSuffix, "x", "a.b.c"), "a.b.c");
    assert_eq!(left(Removal::SmallestSuffix, "a.b.c", "a.b.c"), "");
    assert_eq!(left(Removal::LargestSuffix, "*", "a.b.c"), "");
}

#[test]
fn a_removed_suffix_is_not_empty() {
    assert_eq!(left(Removal::SmallestSuffix, "*", "abc"), "ab");
    assert_eq!(left(Removal::SmallestSuffix, "*", ""), "");
    assert_eq!(left(Removal::SmallestSuffix, "", "abc"), "abc");
}

#[test]
fn prefixes_are_removed() {
    assert_eq!(left(Removal::SmallestPrefix, "*/", "a/b/c"), "b/c");
    assert_eq!(left(Removal::LargestPrefix, "*/", "a/b/c"), "c");
    assert_eq!(left(Removal::SmallestPrefix, "x", "a/b/c"), "a/b/c");
    assert_eq!(left(Removal::LargestPrefix, "x", "a/b/c"), "a/b/c");
    assert_eq!(left(Removal::SmallestPrefix, "a/b/c", "a/b/c"), "");
    assert_eq!(left(Removal::LargestPrefix, "*", "a/b/c"), "");
    // The smallest prefix may be empty.
    assert_eq!(left(Removal::SmallestPrefix, "*", "abc"), "abc");
}

#[test]
fn texts_of_other_alphabets_are_cut_between_characters() {
    assert_eq!(left(Removal::SmallestSuffix, "?", "äß€"), "äß");
    assert_eq!(left(Removal::SmallestPrefix, "?", "äß€"), "ß€");
    assert_eq!(left(Removal::LargestPrefix, "*ß", "äß€"), "€");
    assert_eq!(left(Removal::LargestSuffix, "ß*", "äß€"), "ä");
}

#[test]
fn removal_from_fields() {
    let p = pattern("*/");
    let texts = vec![rc("a/b"), rc(""), rc("c/d/e")];
    let expected = vec![rc("b"), rc(""), rc("e")];
    let how = Removal::LargestPrefix;
    assert_eq!(
        p.remove_from_fields(how, Some(Fields::At(texts.clone()))),
        Some(Fields::At(expected.clone()))
    );
    assert_eq!(
        p.remove_from_fields(how, Some(Fields::Star(texts.clone()))),
        Some(Fields::Star(expected.clone()))
    );
    assert_eq!(
        p.remove_from_fields(how, Some(Fields::Many(texts))),
        Some(Fields::Many(expected))
    );
    assert_eq!(
        p.remove_from_fields(how, Some(Fields::Single(rc("a/b")))),
        Some(Fields::Single(rc("b")))
    );
    assert_eq!(p.remove_from_fields(how, None), None);
}

#[test]
fn one_pattern_of_several() {
    let patterns = vec![pattern("a"), pattern("b*")];
    assert!(matches_any(&patterns, "a"));
    assert!(matches_any(&patterns, "bcd"));
    assert!(!matches_any(&patterns, "ab"));
    assert!(!matches_any(&Vec::new(), ""));
}
