use content_safety::patterns::{
    contains_folded, filter_xss_patterns, finish_pattern_chars, spaced_chars,
};

fn chars(text: &str) -> Vec<char> {
    text.chars().collect()
}

fn text(chars: Vec<char>) -> String {
    chars.into_iter().collect()
}

#[test]
fn test_xss_pattern_filtering() {
    let result = filter_xss_patterns("<script>alert(1)</script>");
    println!("XSS测试结果: {}", result);
    assert!(result != "<script>alert(1)</script>");

    let result = filter_xss_patterns("<a href=\"javascript:alert('XSS')\">Click me</a>");
    println!("javascript测试结果: {}", result);
    assert!(result != "<a href=\"javascript:alert('XSS')\">Click me</a>");
}

#[test]
fn xss_patterns_leave_plain_text_alone() {
    assert_eq!(filter_xss_patterns(""), "");
    assert_eq!(filter_xss_patterns("这是正常内容"), "这是正常内容");
    assert_eq!(filter_xss_patterns("a script about data"), "a script about data");
}

#[test]
fn xss_patterns_rewrite_tags() {
    assert_eq!(
        filter_xss_patterns("<script>alert(1)</script>"),
        "&lt;script>alert(1)&lt;/script>"
    );
    assert_eq!(filter_xss_patterns("<SCRIPT>x</SCRIPT>"), "&lt;script>x&lt;/script>");
    assert_eq!(filter_xss_patterns("<iframe src=x>"), "&lt;iframe src=x>");
    assert_eq!(filter_xss_patterns("<OBJECT><EMBED><BASE>"), "&lt;object>&lt;embed>&lt;base>");
}

#[test]
fn xss_patterns_replace_twice_where_the_replacement_holds_the_pattern() {
    assert_eq!(
        filter_xss_patterns("<a href=\"javascript:alert('XSS')\">Click me</a>"),
        "<a href=\"blocked-blocked-javascript:alert('XSS')\">Click me</a>"
    );
    assert_eq!(filter_xss_patterns("data:x"), "blocked-blocked-data:x");
    assert_eq!(filter_xss_patterns("JAVASCRIPT:x"), "blocked-javascript:x");
    assert_eq!(filter_xss_patterns("<img onerror=x>"), "<img data-blocked-onerror=x>");
}

#[test]
fn xss_patterns_miss_mixed_case() {
    assert_eq!(filter_xss_patterns("<ScRiPt>"), "<ScRiPt>");
}

#[test]
fn xss_patterns_catch_spaced_spellings() {
    assert_eq!(filter_xss_patterns("< s c r i p t>"), "&lt;script>");
    assert_eq!(filter_xss_patterns("j a v a s c r i p t :x"), "blocked-javascript:x");
}

#[test]
fn xss_patterns_defuse_encodings() {
    assert_eq!(filter_xss_patterns("&#60;"), "&amp;#60;");
    assert_eq!(filter_xss_patterns("\\x3c"), "&amp;&amp;\\x3c");
    assert_eq!(filter_xss_patterns("\\u003c"), "&amp;&amp;\\u003c");
}

#[test]
fn spaced_puts_one_space_between_each_two() {
    assert_eq!(text(spaced_chars(&chars(""))), "");
    assert_eq!(text(spaced_chars(&chars("a"))), "a");
    assert_eq!(text(spaced_chars(&chars("ab"))), "a b");
    assert_eq!(text(spaced_chars(&chars("<script"))), "< s c r i p t");
    assert_eq!(text(spaced_chars(&chars(" on="))), "  o n =");
}

#[test]
fn contains_folded_looks_at_lowercase_forms() {
    assert!(contains_folded(&chars("<SCRIPT>"), &chars("<script")));
    assert!(contains_folded(&chars("x JavaScript: y"), &chars("JAVASCRIPT:")));
    assert!(!contains_folded(&chars("<scrip>"), &chars("<script")));
    assert!(contains_folded(&chars("anything"), &chars("")));
}

#[test]
fn finish_pattern_replaces_again_only_on_a_folded_hit() {
    let pattern = chars("data:");
    let replacement = chars("blocked-data:");
    assert_eq!(
        text(finish_pattern_chars(chars("blocked-data:x"), &pattern, &replacement, true)),
        "blocked-blocked-data:x"
    );
    assert_eq!(
        text(finish_pattern_chars(chars("blocked-data:x"), &pattern, &replacement, false)),
        "blocked-data:x"
    );
}

#[test]
fn finish_pattern_defuses_encodings_on_two_patterns_only() {
    let script = chars("<script");
    let script_replacement = chars("&lt;script");
    assert_eq!(
        text(finish_pattern_chars(chars("&#x41; \\u0041 \\x41"), &script, &script_replacement, false)),
        "&amp;#x41; &amp;\\u0041 &amp;\\x41"
    );
    let javascript = chars("javascript:");
    let javascript_replacement = chars("blocked-javascript:");
    assert_eq!(
        text(finish_pattern_chars(chars("&#1;"), &javascript, &javascript_replacement, false)),
        "&amp;#1;"
    );
    let data = chars("data:");
    let data_replacement = chars("blocked-data:");
    assert_eq!(
        text(finish_pattern_chars(chars("&#1;"), &data, &data_replacement, false)),
        "&#1;"
    );
}
