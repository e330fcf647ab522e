use content_safety::masker::filter_sensitive_words;
use content_safety::terms::parse_term_list;
use content_safety::text::{
    chars_of, contains_chars, is_whitespace_char, matches_at, replace_chars, string_of, trim_chars,
};

fn chars(text: &str) -> Vec<char> {
    text.chars().collect()
}

fn replace(text: &str, pattern: &str, replacement: &str) -> String {
    string_of(&replace_chars(&chars(text), &chars(pattern), &chars(replacement)))
}

#[test]
fn mask_of_empty_text_is_empty() {
    let terms = parse_term_list("国家\n国家机密");
    assert_eq!(filter_sensitive_words("", Some(&terms)), "");
    assert_eq!(filter_sensitive_words("", None), "");
    assert_eq!(filter_sensitive_words("", Some(&parse_term_list(""))), "");
}

#[test]
fn mask_takes_the_longest_term_first() {
    let terms = parse_term_list("国家\n国家机密");
    assert_eq!(
        filter_sensitive_words("这里有国家机密和国家信息", Some(&terms)),
        "这里有****和**信息"
    );
}

#[test]
fn mask_of_overlapping_terms_goes_by_masking_order() {
    let terms = parse_term_list("犯罪\n犯罪分子\n暴力犯罪");
    assert_eq!(filter_sensitive_words("他是一个暴力犯罪分子", Some(&terms)), "他是一个****分子");
    assert_eq!(filter_sensitive_words("他是一个犯罪分子", Some(&terms)), "他是一个****");
    assert_eq!(filter_sensitive_words("犯罪和暴力犯罪", Some(&terms)), "**和****");
}

#[test]
fn mask_breaks_ties_by_dictionary_order() {
    // Both terms have two characters and overlap in "abc"; "ab" goes first.
    let terms = parse_term_list("bc\nab");
    assert_eq!(filter_sensitive_words("abc", Some(&terms)), "**c");
    assert_eq!(filter_sensitive_words("xbcx", Some(&terms)), "x**x");
}

#[test]
fn mask_without_a_snapshot_returns_the_text() {
    assert_eq!(filter_sensitive_words("这里有国家机密", None), "这里有国家机密");
}

#[test]
fn mask_with_no_terms_returns_the_text() {
    let terms = parse_term_list("# nothing here\n");
    assert_eq!(filter_sensitive_words("这里有国家机密", Some(&terms)), "这里有国家机密");
}

#[test]
fn mask_keeps_the_number_of_characters() {
    let terms = parse_term_list("国家\n国家机密\nbad\nworse word");
    let inputs = [
        "这里有国家机密和国家信息",
        "a bad day, a worse word, badbad",
        "nothing to see",
        "国",
        "bad",
    ];
    for input in inputs {
        let masked = filter_sensitive_words(input, Some(&terms));
        assert_eq!(masked.chars().count(), input.chars().count());
    }
}

#[test]
fn mask_replaces_every_occurrence() {
    let terms = parse_term_list("bad");
    assert_eq!(filter_sensitive_words("bad badbad xbadx ba d", Some(&terms)), "*** ****** x***x ba d");
}

#[test]
fn mask_matches_literally_and_by_case() {
    let terms = parse_term_list("a.c\nBad");
    assert_eq!(filter_sensitive_words("abc a.c bad Bad", Some(&terms)), "abc *** bad ***");
}

#[test]
fn mask_leaves_no_term_behind() {
    let terms = parse_term_list("aa\naaa\nab\nba");
    let inputs = ["aaaa", "aabaa", "abababa", "baab", "aaaaaaa", "b"];
    for input in inputs {
        let masked = filter_sensitive_words(input, Some(&terms));
        for term in ["aa", "aaa", "ab", "ba"] {
            assert!(!masked.contains(term), "input: {:?}, output: {:?}", input, masked);
        }
    }
}

#[test]
fn replace_takes_occurrences_from_the_left_without_overlap() {
    assert_eq!(replace("aaa", "aa", "b"), "ba");
    assert_eq!(replace("aaaa", "aa", "b"), "bb");
    assert_eq!(replace("abab", "ab", "abab"), "abababab");
    assert_eq!(replace("hello", "l", ""), "heo");
    assert_eq!(replace("hello", "xyz", "q"), "hello");
    assert_eq!(replace("", "a", "b"), "");
    assert_eq!(replace("abc", "abc", ""), "");
    assert_eq!(replace("abc", "abcd", "x"), "abc");
}

#[test]
fn replace_of_the_empty_pattern_changes_nothing() {
    assert_eq!(replace("abc", "", "x"), "abc");
    assert_eq!(replace("", "", "x"), "");
}

#[test]
fn matches_at_checks_one_position() {
    assert!(matches_at(&chars("hello"), &chars("ell"), 1));
    assert!(!matches_at(&chars("hello"), &chars("ell"), 0));
    assert!(matches_at(&chars("hello"), &chars("lo"), 3));
    assert!(!matches_at(&chars("hello"), &chars("lo"), 4));
    assert!(!matches_at(&chars("hello"), &chars("lo"), 9));
    assert!(matches_at(&chars("hello"), &chars(""), 5));
    assert!(!matches_at(&chars("hello"), &chars(""), 6));
}

#[test]
fn contains_finds_a_pattern_anywhere() {
    assert!(contains_chars(&chars("hello"), &chars("hell")));
    assert!(contains_chars(&chars("hello"), &chars("o")));
    assert!(contains_chars(&chars("hello"), &chars("")));
    assert!(contains_chars(&chars(""), &chars("")));
    assert!(!contains_chars(&chars("hello"), &chars("hellos")));
    assert!(!contains_chars(&chars(""), &chars("a")));
}

#[test]
fn chars_and_strings_convert_both_ways() {
    assert_eq!(chars_of("这里a"), vec!['这', '里', 'a']);
    assert_eq!(string_of(&vec!['这', '里', 'a']), "这里a");
    assert_eq!(string_of(&chars_of("")), "");
}

#[test]
fn whitespace_is_what_unicode_calls_white_space() {
    for code in 0u32..0x11000 {
        if let Some(c) = char::from_u32(code) {
            assert_eq!(is_whitespace_char(c), c.is_whitespace(), "U+{:04X}", code);
        }
    }
}

#[test]
fn trim_cuts_whitespace_at_both_ends() {
    assert_eq!(string_of(&trim_chars(&chars("  a b \t\n"))), "a b");
    assert_eq!(string_of(&trim_chars(&chars("\u{3000}x\u{2028}"))), "x");
    assert_eq!(string_of(&trim_chars(&chars("   "))), "");
    assert_eq!(string_of(&trim_chars(&chars(""))), "");
    assert_eq!(string_of(&trim_chars(&chars("x"))), "x");
}
