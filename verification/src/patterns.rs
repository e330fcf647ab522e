//! Substring rules against markup that could run code.
//!
//! A fixed table of patterns (opening tags of active elements, script-bearing URL
//! schemes, event-handler attributes) is gone through once, in order. Each
//! pattern is replaced by an inert spelling, also where single spaces stand
//! between its characters; on two of the patterns, character references and
//! escape sequences in the text are defused as well. The rules know only the
//! spellings in the table, so they are no substitute for `sanitize_content`.

use crate::text::{
    chars_of, contains, contains_chars, matches_at, replace_all, replace_chars, string_of,
};
use vstd::prelude::*;

verus! {

/// The patterns and what each is replaced by, in the order in which they are
/// applied.
pub open spec fn xss_patterns() -> Seq<(Seq<char>, Seq<char>)> {
    seq![
        ("<script"@, "&lt;script"@),
        ("<SCRIPT"@, "&lt;script"@),
        ("</script"@, "&lt;/script"@),
        ("</SCRIPT"@, "&lt;/script"@),
        ("javascript:"@, "blocked-javascript:"@),
        ("JAVASCRIPT:"@, "blocked-javascript:"@),
        ("Javascript:"@, "blocked-javascript:"@),
        ("data:"@, "blocked-data:"@),
        ("DATA:"@, "blocked-data:"@),
        ("vbscript:"@, "blocked-vbscript:"@),
        ("VBSCRIPT:"@, "blocked-vbscript:"@),
        (" onerror="@, " data-blocked-onerror="@),
        (" ONERROR="@, " data-blocked-onerror="@),
        (" onload="@, " data-blocked-onload="@),
        (" ONLOAD="@, " data-blocked-onload="@),
        (" onclick="@, " data-blocked-onclick="@),
        (" ONCLICK="@, " data-blocked-onclick="@),
        (" ondblclick="@, " data-blocked-ondblclick="@),
        (" onmouseover="@, " data-blocked-onmouseover="@),
        (" onmouseout="@, " data-blocked-onmouseout="@),
        (" onkeydown="@, " data-blocked-onkeydown="@),
        (" onkeypress="@, " data-blocked-onkeypress="@),
        (" onkeyup="@, " data-blocked-onkeyup="@),
        (" onfocus="@, " data-blocked-onfocus="@),
        (" onblur="@, " data-blocked-onblur="@),
        (" onsubmit="@, " data-blocked-onsubmit="@),
        (" onreset="@, " data-blocked-onreset="@),
        (" onselect="@, " data-blocked-onselect="@),
        (" onchange="@, " data-blocked-onchange="@),
        ("<iframe"@, "&lt;iframe"@),
        ("<IFRAME"@, "&lt;iframe"@),
        ("<object"@, "&lt;object"@),
        ("<OBJECT"@, "&lt;object"@),
        ("<embed"@, "&lt;embed"@),
        ("<EMBED"@, "&lt;embed"@),
        ("<base"@, "&lt;base"@),
        ("<BASE"@, "&lt;base"@),
    ]
}

/// The lowercase form that `str::to_lowercase` gives a text.
pub uninterp spec fn lowercase_of(text: Seq<char>) -> Seq<char>;

/// `str::to_lowercase` returns the lowercase equivalent of the string as a new
/// `String`. Trusted: that this is a function of the text.
pub assume_specification[ str::to_lowercase ](text: &str) -> (lower: String)
    ensures
        lower@ == lowercase_of(text@),
;

/// The items of `pattern` with one space between each two.
pub open spec fn spaced(pattern: Seq<char>) -> Seq<char>
    decreases pattern.len(),
{
    if pattern.len() <= 1 {
        pattern
    } else {
        spaced(pattern.drop_last()) + seq![' ', pattern.last()]
    }
}

/// The text holds the start of a character reference or of an escape sequence.
pub open spec fn has_encoding(text: Seq<char>) -> bool {
    contains(text, "&#"@) || contains(text, "\\u"@) || contains(text, "\\x"@)
}

/// `text` with the starts of character references and escape sequences defused.
pub open spec fn defuse_encodings(text: Seq<char>) -> Seq<char> {
    replace_all(
        replace_all(replace_all(text, "&#"@, "&amp;#"@), "\\u"@, "&amp;\\u"@),
        "\\x"@,
        "&amp;\\x"@,
    )
}

/// The two patterns on which encodings are defused.
pub open spec fn defuses_encodings(pattern: Seq<char>) -> bool {
    pattern == "<script"@ || pattern == "javascript:"@
}

/// What is left to do for one pattern once its occurrences are replaced, where
/// `folded_hit` says whether the lowercase text holds the lowercase pattern:
/// if so, the pattern is replaced once more; then its spaced form is replaced;
/// then, on the two patterns concerned, encodings are defused.
pub open spec fn finish_pattern(
    text: Seq<char>,
    pattern: Seq<char>,
    replacement: Seq<char>,
    folded_hit: bool,
) -> Seq<char> {
    let again = if folded_hit {
        replace_all(text, pattern, replacement)
    } else {
        text
    };
    let unspaced = replace_all(again, spaced(pattern), replacement);
    if has_encoding(unspaced) && defuses_encodings(pattern) {
        defuse_encodings(unspaced)
    } else {
        unspaced
    }
}

/// The lowercase form of `text` holds the lowercase form of `pattern`.
pub open spec fn folded_contains(text: Seq<char>, pattern: Seq<char>) -> bool {
    contains(lowercase_of(text), lowercase_of(pattern))
}

/// `text` after one pattern has been applied to it.
pub open spec fn apply_pattern(text: Seq<char>, pattern: Seq<char>, replacement: Seq<char>) -> Seq<
    char,
> {
    let replaced = replace_all(text, pattern, replacement);
    finish_pattern(replaced, pattern, replacement, folded_contains(replaced, pattern))
}

/// `text` after the patterns of `table` have been applied to it, the first one
/// first.
pub open spec fn apply_patterns(text: Seq<char>, table: Seq<(Seq<char>, Seq<char>)>) -> Seq<char>
    decreases table.len(),
{
    if table.len() == 0 {
        text
    } else {
        apply_patterns(apply_pattern(text, table[0].0, table[0].1), table.skip(1))
    }
}

/// What `filter_xss_patterns` makes of `text`.
pub open spec fn xss_filtered(text: Seq<char>) -> Seq<char> {
    apply_patterns(text, xss_patterns())
}

/// The rows of `table` as sequences.
pub open spec fn rows_of(table: Seq<(Vec<char>, Vec<char>)>) -> Seq<(Seq<char>, Seq<char>)> {
    Seq::new(table.len(), |i: int| (table[i].0@, table[i].1@))
}

/// The pattern table.
fn pattern_table() -> (table: Vec<(Vec<char>, Vec<char>)>)
    ensures
        rows_of(table@) == xss_patterns(),
{
    let mut table: Vec<(Vec<char>, Vec<char>)> = Vec::new();
    table.push((chars_of("<script"), chars_of("&lt;script")));
    table.push((chars_of("<SCRIPT"), chars_of("&lt;script")));
    table.push((chars_of("</script"), chars_of("&lt;/script")));
    table.push((chars_of("</SCRIPT"), chars_of("&lt;/script")));
    table.push((chars_of("javascript:"), chars_of("blocked-javascript:")));
    table.push((chars_of("JAVASCRIPT:"), chars_of("blocked-javascript:")));
    table.push((chars_of("Javascript:"), chars_of("blocked-javascript:")));
    table.push((chars_of("data:"), chars_of("blocked-data:")));
    table.push((chars_of("DATA:"), chars_of("blocked-data:")));
    table.push((chars_of("vbscript:"), chars_of("blocked-vbscript:")));
    table.push((chars_of("VBSCRIPT:"), chars_of("blocked-vbscript:")));
    table.push((chars_of(" onerror="), chars_of(" data-blocked-onerror=")));
    table.push((chars_of(" ONERROR="), chars_of(" data-blocked-onerror=")));
    table.push((chars_of(" onload="), chars_of(" data-blocked-onload=")));
    table.push((chars_of(" ONLOAD="), chars_of(" data-blocked-onload=")));
    table.push((chars_of(" onclick="), chars_of(" data-blocked-onclick=")));
    table.push((chars_of(" ONCLICK="), chars_of(" data-blocked-onclick=")));
    table.push((chars_of(" ondblclick="), chars_of(" data-blocked-ondblclick=")));
    table.push((chars_of(" onmouseover="), chars_of(" data-blocked-onmouseover=")));
    table.push((chars_of(" onmouseout="), chars_of(" data-blocked-onmouseout=")));
    table.push((chars_of(" onkeydown="), chars_of(" data-blocked-onkeydown=")));
    table.push((chars_of(" onkeypress="), chars_of(" data-blocked-onkeypress=")));
    table.push((chars_of(" onkeyup="), chars_of(" data-blocked-onkeyup=")));
    table.push((chars_of(" onfocus="), chars_of(" data-blocked-onfocus=")));
    table.push((chars_of(" onblur="), chars_of(" data-blocked-onblur=")));
    table.push((chars_of(" onsubmit="), chars_of(" data-blocked-onsubmit=")));
    table.push((chars_of(" onreset="), chars_of(" data-blocked-onreset=")));
    table.push((chars_of(" onselect="), chars_of(" data-blocked-onselect=")));
    table.push((chars_of(" onchange="), chars_of(" data-blocked-onchange=")));
    table.push((chars_of("<iframe"), chars_of("&lt;iframe")));
    table.push((chars_of("<IFRAME"), chars_of("&lt;iframe")));
    table.push((chars_of("<object"), chars_of("&lt;object")));
    table.push((chars_of("<OBJECT"), chars_of("&lt;object")));
    table.push((chars_of("<embed"), chars_of("&lt;embed")));
    table.push((chars_of("<EMBED"), chars_of("&lt;embed")));
    table.push((chars_of("<base"), chars_of("&lt;base")));
    table.push((chars_of("<BASE"), chars_of("&lt;base")));
    assert(rows_of(table@) =~= xss_patterns());
    table
}

/// The items of `pattern` with one space between each two.
pub fn spaced_chars(pattern: &Vec<char>) -> (out: Vec<char>)
    ensures
        out@ == spaced(pattern@),
{
    let mut out: Vec<char> = Vec::new();
    let mut i: usize = 0;
    assert(pattern@.take(0) =~= Seq::<char>::empty());
    while i < pattern.len()
        invariant
            i <= pattern.len(),
            out@ == spaced(pattern@.take(i as int)),
        decreases pattern.len() - i,
    {
        let ghost next = pattern@.take(i + 1);
        assert(next.drop_last() =~= pattern@.take(i as int));
        if i > 0 {
            out.push(' ');
            out.push(pattern[i]);
            assert(out@ =~= spaced(next.drop_last()) + seq![' ', next.last()]);
        } else {
            out.push(pattern[i]);
            assert(out@ =~= next);
        }
        i += 1;
    }
    assert(pattern@.take(pattern.len() as int) =~= pattern@);
    out
}

/// Whether two texts are the same.
fn same_chars(a: &Vec<char>, b: &Vec<char>) -> (same: bool)
    ensures
        same == (a@ == b@),
{
    if a.len() != b.len() {
        return false;
    }
    let same = matches_at(a, b, 0);
    assert(a@.subrange(0, 0 + b@.len() as int) =~= a@);
    same
}

/// Whether the lowercase form of `text` holds the lowercase form of `pattern`.
pub fn contains_folded(text: &Vec<char>, pattern: &Vec<char>) -> (hit: bool)
    ensures
        hit == folded_contains(text@, pattern@),
{
    let lower_text = chars_of(string_of(text).as_str().to_lowercase().as_str());
    let lower_pattern = chars_of(string_of(pattern).as_str().to_lowercase().as_str());
    contains_chars(&lower_text, &lower_pattern)
}

/// Finishes one pattern on a text in which its occurrences are already
/// replaced. `folded_hit` says whether the lowercase text holds the lowercase
/// pattern.
pub fn finish_pattern_chars(
    text: Vec<char>,
    pattern: &Vec<char>,
    replacement: &Vec<char>,
    folded_hit: bool,
) -> (out: Vec<char>)
    ensures
        out@ == finish_pattern(text@, pattern@, replacement@, folded_hit),
{
    let again = if folded_hit {
        replace_chars(&text, pattern, replacement)
    } else {
        text
    };
    let unspaced = replace_chars(&again, &spaced_chars(pattern), replacement);
    let reference = chars_of("&#");
    let unicode_escape = chars_of("\\u");
    let hex_escape = chars_of("\\x");
    let encoded = contains_chars(&unspaced, &reference) || contains_chars(
        &unspaced,
        &unicode_escape,
    ) || contains_chars(&unspaced, &hex_escape);
    if encoded && (same_chars(pattern, &chars_of("<script")) || same_chars(
        pattern,
        &chars_of("javascript:"),
    )) {
        let step = replace_chars(&unspaced, &reference, &chars_of("&amp;#"));
        let step = replace_chars(&step, &unicode_escape, &chars_of("&amp;\\u"));
        replace_chars(&step, &hex_escape, &chars_of("&amp;\\x"))
    } else {
        unspaced
    }
}

/// Applies the pattern table to `content`.
pub fn filter_xss_patterns(content: &str) -> (result: String)
    ensures
        result@ == xss_filtered(content@),
{
    let table = pattern_table();
    let mut text = chars_of(content);
    let mut i: usize = 0;
    assert(xss_patterns().skip(0) =~= xss_patterns());
    while i < table.len()
        invariant
            i <= table.len(),
            rows_of(table@) == xss_patterns(),
            apply_patterns(text@, xss_patterns().skip(i as int)) == xss_filtered(content@),
        decreases table.len() - i,
    {
        let ghost rest = xss_patterns().skip(i as int);
        assert(rest[0] == rows_of(table@)[i as int]);
        assert(rest.skip(1) =~= xss_patterns().skip(i + 1));
        let pattern = &table[i].0;
        let replacement = &table[i].1;
        let replaced = replace_chars(&text, pattern, replacement);
        let folded_hit = contains_folded(&replaced, pattern);
        text = finish_pattern_chars(replaced, pattern, replacement, folded_hit);
        i += 1;
    }
    string_of(&text)
}

} // verus!
