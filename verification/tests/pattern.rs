use jbonsai::model::pattern::glob_match;
use jbonsai::model::stream::Pattern;
use jbonsai::model::ModelError;
use jbonsai::text::{str_contains, str_equal};

#[test]
fn star_matches_every_label() {
    let p = Pattern::from_pattern_string("*").unwrap();
    assert_eq!(p, Pattern::All);
    assert!(p.is_match(""));
    assert!(p.is_match("a"));
    assert!(p.is_match("xx^xx-sil+n=i/A:xx+xx+xx"));
    assert!(glob_match("*", "anything at all"));
}

#[test]
fn plain_pattern_matches_only_itself() {
    let p = Pattern::from_pattern_string("sil").unwrap();
    assert!(p.is_match("sil"));
    assert!(!p.is_match("sill"));
    assert!(!p.is_match("asil"));
    assert!(!p.is_match(""));
    assert!(glob_match("n=i", "n=i"));
    assert!(!glob_match("n=i", "n=ii"));
}

#[test]
fn contains_shape() {
    let p = Pattern::from_pattern_string("*-sil+*").unwrap();
    match &p {
        Pattern::Contains(s) => assert_eq!(s, "-sil+"),
        other => panic!("unexpected shape: {:?}", other),
    }
    assert!(p.is_match("xx^xx-sil+n=i"));
    assert!(!p.is_match("xx^xx-sin+n=i"));
    // an empty inner part matches everything
    let q = Pattern::from_pattern_string("**").unwrap();
    assert!(q.is_match(""));
    assert!(q.is_match("abc"));
}

#[test]
fn wildcard_inside_goes_to_regex() {
    let p = Pattern::from_pattern_string("*/A:-??+*").unwrap();
    match &p {
        Pattern::Regex(_) => {},
        other => panic!("unexpected shape: {:?}", other),
    }
    assert!(p.is_match("a^b/A:-12+c"));
    assert!(!p.is_match("a^b/A:-1+c"));
    assert!(!p.is_match("a^b/A:12+c"));
}

#[test]
fn question_mark_matches_one_character() {
    assert!(glob_match("a?c", "abc"));
    assert!(!glob_match("a?c", "ac"));
    assert!(!glob_match("a?c", "abbc"));
}

#[test]
fn regex_specials_are_literal() {
    assert!(glob_match("a+b", "a+b"));
    assert!(!glob_match("a+b", "ab"));
    assert!(!glob_match("a+b", "aab"));
    assert!(glob_match("a|b", "a|b"));
    assert!(!glob_match("a|b", "a"));
    assert!(glob_match("a^b", "a^b"));
    assert!(!glob_match("a^b", "ab"));
    assert!(glob_match("*=d/A:*", "x=d/A:y"));
    assert!(!glob_match("*=d/A:*", "x=d-A:y"));
}

#[test]
fn bad_pattern_is_reported() {
    match Pattern::from_pattern_string("a(") {
        Err(ModelError::InvalidPattern(s)) => assert_eq!(s, "a("),
        other => panic!("unexpected result: {:?}", other),
    }
}

#[test]
fn text_helpers() {
    assert!(str_equal("abc", "abc"));
    assert!(!str_equal("abc", "abd"));
    assert!(!str_equal("abc", "ab"));
    assert!(str_contains("hello world", "o w"));
    assert!(str_contains("hello", ""));
    assert!(!str_contains("hello", "world"));
    assert!(!str_contains("ab", "abc"));
}
