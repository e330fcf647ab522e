//! Strings as sequences of Unicode scalar values.
//!
//! Every transform in this crate is stated over `Seq<char>`, the view of `str`
//! and `String`. Executable code works on `Vec<char>`, which gives constant-time
//! indexing; `chars_of` and `string_of` move between the representations.

use vstd::prelude::*;

verus! {

/// `String::push` of the standard library: appends the given `char` to the end
/// of the string. Trusted, as its documentation states it.
pub assume_specification[ String::push ](s: &mut String, c: char)
    ensures
        final(s)@ == old(s)@.push(c),
;

/// The scalar values of `s`, in order.
pub fn chars_of(s: &str) -> (v: Vec<char>)
    ensures
        v@ == s@,
{
    let mut v: Vec<char> = Vec::new();
    for c in it: s.chars()
        invariant
            it.seq() == s@,
            v@ == s@.take(it.index()),
    {
        v.push(c);
    }
    v
}

/// The string whose scalar values are `v`, in order.
pub fn string_of(v: &Vec<char>) -> (s: String)
    ensures
        s@ == v@,
{
    let mut s = String::new();
    let mut i: usize = 0;
    while i < v.len()
        invariant
            i <= v.len(),
            s@ == v@.take(i as int),
        decreases v.len() - i,
    {
        s.push(v[i]);
        i += 1;
    }
    s
}

/// `pat` stands in `s` at index `i`.
pub open spec fn occurs_at(s: Seq<char>, pat: Seq<char>, i: int) -> bool {
    0 <= i && i + pat.len() <= s.len() && s.subrange(i, i + pat.len()) == pat
}

/// `pat` stands somewhere in `s`. The empty pattern stands in every text.
pub open spec fn contains(s: Seq<char>, pat: Seq<char>) -> bool {
    exists|i: int| occurs_at(s, pat, i)
}

/// `s` with every occurrence of `pat` replaced by `rep`.
///
/// Occurrences are taken from left to right and do not overlap: once one is
/// replaced, the search goes on behind it. An empty pattern is replaced nowhere.
pub open spec fn replace_all(s: Seq<char>, pat: Seq<char>, rep: Seq<char>) -> Seq<char>
    decreases s.len(),
{
    if pat.len() == 0 || s.len() < pat.len() {
        s
    } else if s.take(pat.len() as int) == pat {
        rep + replace_all(s.skip(pat.len() as int), pat, rep)
    } else {
        seq![s[0]] + replace_all(s.skip(1), pat, rep)
    }
}

/// Replacing by something as long as the pattern keeps the text's length.
pub proof fn lemma_replace_keeps_length(s: Seq<char>, pat: Seq<char>, rep: Seq<char>)
    requires
        rep.len() == pat.len(),
    ensures
        replace_all(s, pat, rep).len() == s.len(),
    decreases s.len(),
{
    if pat.len() == 0 || s.len() < pat.len() {
    } else if s.take(pat.len() as int) == pat {
        lemma_replace_keeps_length(s.skip(pat.len() as int), pat, rep);
    } else {
        lemma_replace_keeps_length(s.skip(1), pat, rep);
    }
}

/// A text in which the pattern does not occur is left as it is.
pub proof fn lemma_replace_absent(s: Seq<char>, pat: Seq<char>, rep: Seq<char>)
    requires
        !contains(s, pat),
    ensures
        replace_all(s, pat, rep) == s,
    decreases s.len(),
{
    if pat.len() == 0 || s.len() < pat.len() {
    } else {
        assert(!occurs_at(s, pat, 0));
        assert(s.take(pat.len() as int) =~= s.subrange(0, 0 + pat.len() as int));
        let rest = s.skip(1);
        assert forall|i: int| !occurs_at(rest, pat, i) by {
            if occurs_at(rest, pat, i) {
                assert(rest.subrange(i, i + pat.len()) =~= s.subrange(i + 1, i + 1 + pat.len()));
                assert(occurs_at(s, pat, i + 1));
            }
        }
        lemma_replace_absent(rest, pat, rep);
        assert(seq![s[0]] + rest =~= s);
    }
}

/// `a` and `b` have no item in common.
pub open spec fn disjoint(a: Seq<char>, b: Seq<char>) -> bool {
    forall|i: int, j: int| 0 <= i < a.len() && 0 <= j < b.len() ==> a[i] != b[j]
}

/// Where the replacement shares no item with the pattern, a start of the
/// replaced text that holds no item of the replacement is a start of the text.
proof fn lemma_replace_keeps_clean_prefix(s: Seq<char>, pat: Seq<char>, rep: Seq<char>, k: int)
    requires
        rep.len() > 0,
        0 <= k <= replace_all(s, pat, rep).len(),
        forall|i: int| 0 <= i < k ==> replace_all(s, pat, rep)[i] != rep[0],
    ensures
        k <= s.len(),
        replace_all(s, pat, rep).take(k) == s.take(k),
    decreases s.len(),
{
    let out = replace_all(s, pat, rep);
    if pat.len() == 0 || s.len() < pat.len() {
    } else if s.take(pat.len() as int) == pat {
        if k > 0 {
            assert(out[0] == rep[0]);
        }
        assert(out.take(k) =~= s.take(k));
    } else if k > 0 {
        let rest = replace_all(s.skip(1), pat, rep);
        assert forall|i: int| 0 <= i < k - 1 implies rest[i] != rep[0] by {
            assert(out[i + 1] == rest[i]);
        }
        lemma_replace_keeps_clean_prefix(s.skip(1), pat, rep, k - 1);
        assert(out.take(k) =~= seq![s[0]] + rest.take(k - 1));
        assert(s.take(k) =~= seq![s[0]] + s.skip(1).take(k - 1));
    } else {
        assert(out.take(k) =~= s.take(k));
    }
}

/// Where the replacement is not empty and shares no item with the pattern, the
/// pattern does not occur in the replaced text.
pub proof fn lemma_replace_leaves_none(s: Seq<char>, pat: Seq<char>, rep: Seq<char>)
    requires
        pat.len() > 0,
        rep.len() > 0,
        disjoint(pat, rep),
    ensures
        !contains(replace_all(s, pat, rep), pat),
    decreases s.len(),
{
    let out = replace_all(s, pat, rep);
    let m = pat.len() as int;
    if s.len() < pat.len() {
    } else if s.take(m) == pat {
        let rest = replace_all(s.skip(m), pat, rep);
        lemma_replace_leaves_none(s.skip(m), pat, rep);
        assert forall|i: int| !occurs_at(out, pat, i) by {
            if occurs_at(out, pat, i) {
                if i < rep.len() {
                    assert(out.subrange(i, i + m)[0] == rep[i]);
                } else {
                    assert(rest.subrange(i - rep.len(), i - rep.len() + m) =~= out.subrange(
                        i,
                        i + m,
                    ));
                    assert(occurs_at(rest, pat, i - rep.len()));
                }
            }
        }
    } else {
        let rest = replace_all(s.skip(1), pat, rep);
        lemma_replace_leaves_none(s.skip(1), pat, rep);
        assert forall|i: int| !occurs_at(out, pat, i) by {
            if occurs_at(out, pat, i) {
                if i == 0 {
                    assert forall|j: int| 0 <= j < m implies out[j] != rep[0] by {
                        assert(out.subrange(0, m)[j] == pat[j]);
                    }
                    lemma_replace_keeps_clean_prefix(s, pat, rep, m);
                    assert(out.take(m) =~= out.subrange(0, 0 + m));
                } else {
                    assert(rest.subrange(i - 1, i - 1 + m) =~= out.subrange(i, i + m));
                    assert(occurs_at(rest, pat, i - 1));
                }
            }
        }
    }
}

/// Whether `pat` stands in `text` at index `i`.
pub fn matches_at(text: &Vec<char>, pat: &Vec<char>, i: usize) -> (hit: bool)
    ensures
        hit == occurs_at(text@, pat@, i as int),
{
    if i > text.len() || pat.len() > text.len() - i {
        return false;
    }
    let mut j: usize = 0;
    while j < pat.len()
        invariant
            j <= pat.len(),
            i + pat.len() <= text.len(),
            forall|k: int| 0 <= k < j ==> text@[i + k] == pat@[k],
        decreases pat.len() - j,
    {
        if text[i + j] != pat[j] {
            assert(text@.subrange(i as int, i + pat.len())[j as int] == text@[i + j]);
            return false;
        }
        j += 1;
    }
    assert(text@.subrange(i as int, i + pat.len()) =~= pat@);
    true
}

/// Whether `pat` stands somewhere in `text`.
pub fn contains_chars(text: &Vec<char>, pat: &Vec<char>) -> (hit: bool)
    ensures
        hit == contains(text@, pat@),
{
    let mut i: usize = 0;
    while i <= text.len()
        invariant
            i <= text.len() + 1,
            forall|k: int| 0 <= k < i ==> !occurs_at(text@, pat@, k),
        decreases text.len() + 1 - i,
    {
        if matches_at(text, pat, i) {
            return true;
        }
        if i == text.len() {
            return false;
        }
        i += 1;
    }
    false
}

/// Copies `text` with every occurrence of `pat` replaced by `rep`.
pub fn replace_chars(text: &Vec<char>, pat: &Vec<char>, rep: &Vec<char>) -> (out: Vec<char>)
    ensures
        out@ == replace_all(text@, pat@, rep@),
{
    let mut out: Vec<char> = Vec::new();
    let mut i: usize = 0;
    assert(text@.skip(0) =~= text@);
    assert(out@ + replace_all(text@, pat@, rep@) =~= replace_all(text@, pat@, rep@));
    while i < text.len()
        invariant
            i <= text.len(),
            out@ + replace_all(text@.skip(i as int), pat@, rep@) == replace_all(
                text@,
                pat@,
                rep@,
            ),
        decreases text.len() - i,
    {
        let ghost rest = text@.skip(i as int);
        if pat.len() > 0 && matches_at(text, pat, i) {
            assert(rest.take(pat.len() as int) =~= text@.subrange(i as int, i + pat.len()));
            assert(rest.skip(pat.len() as int) =~= text@.skip(i + pat.len()));
            let ghost before = out@;
            append_chars(&mut out, rep);
            assert(before + (rep@ + replace_all(rest.skip(pat.len() as int), pat@, rep@))
                =~= out@ + replace_all(text@.skip(i + pat.len()), pat@, rep@));
            i += pat.len();
        } else {
            assert(rest.skip(1) =~= text@.skip(i + 1));
            assert(replace_all(rest, pat@, rep@) =~= seq![rest[0]] + replace_all(
                rest.skip(1),
                pat@,
                rep@,
            )) by {
                if pat.len() > 0 && rest.len() >= pat.len() {
                    assert(rest.take(pat.len() as int) =~= text@.subrange(
                        i as int,
                        i + pat.len(),
                    ));
                }
            }
            let ghost before = out@;
            out.push(text[i]);
            assert(before + (seq![rest[0]] + replace_all(rest.skip(1), pat@, rep@)) =~= out@
                + replace_all(text@.skip(i + 1), pat@, rep@));
            i += 1;
        }
    }
    assert(text@.skip(i as int) =~= Seq::<char>::empty());
    assert(out@ + Seq::<char>::empty() =~= out@);
    out
}

/// Appends the items of `tail` to `out`.
pub fn append_chars(out: &mut Vec<char>, tail: &Vec<char>)
    ensures
        final(out)@ == old(out)@ + tail@,
{
    let mut j: usize = 0;
    while j < tail.len()
        invariant
            j <= tail.len(),
            out@ == old(out)@ + tail@.take(j as int),
        decreases tail.len() - j,
    {
        out.push(tail[j]);
        assert(tail@.take(j + 1) =~= tail@.take(j as int).push(tail@[j as int]));
        j += 1;
    }
    assert(tail@.take(tail.len() as int) =~= tail@);
}

/// The scalar values that Unicode gives the property `White_Space`.
pub open spec fn is_whitespace(c: char) -> bool {
    let n = c as u32;
    ||| 0x09 <= n <= 0x0D
    ||| n == 0x20
    ||| n == 0x85
    ||| n == 0xA0
    ||| n == 0x1680
    ||| 0x2000 <= n <= 0x200A
    ||| n == 0x2028
    ||| n == 0x2029
    ||| n == 0x202F
    ||| n == 0x205F
    ||| n == 0x3000
}

/// `s` without its leading whitespace.
pub open spec fn trim_start(s: Seq<char>) -> Seq<char>
    decreases s.len(),
{
    if s.len() > 0 && is_whitespace(s[0]) {
        trim_start(s.skip(1))
    } else {
        s
    }
}

/// `s` without its trailing whitespace.
pub open spec fn trim_end(s: Seq<char>) -> Seq<char>
    decreases s.len(),
{
    if s.len() > 0 && is_whitespace(s.last()) {
        trim_end(s.drop_last())
    } else {
        s
    }
}

/// `s` without the whitespace that surrounds it.
pub open spec fn trim(s: Seq<char>) -> Seq<char> {
    trim_end(trim_start(s))
}

/// Whether `c` is whitespace.
pub fn is_whitespace_char(c: char) -> (b: bool)
    ensures
        b == is_whitespace(c),
{
    let n: u32 = c as u32;
    (0x09 <= n && n <= 0x0D) || n == 0x20 || n == 0x85 || n == 0xA0 || n == 0x1680 || (0x2000 <= n
        && n <= 0x200A) || n == 0x2028 || n == 0x2029 || n == 0x202F || n == 0x205F || n == 0x3000
}

/// The bounds of `text[from..to]` once the whitespace that surrounds it is cut off.
pub(crate) fn trim_bounds(text: &Vec<char>, from: usize, to: usize) -> (bounds: (usize, usize))
    requires
        from <= to <= text.len(),
    ensures
        from <= bounds.0 <= bounds.1 <= to,
        text@.subrange(bounds.0 as int, bounds.1 as int) == trim(
            text@.subrange(from as int, to as int),
        ),
{
    let mut a: usize = from;
    while a < to && is_whitespace_char(text[a])
        invariant
            from <= a <= to <= text.len(),
            trim_start(text@.subrange(a as int, to as int)) == trim_start(
                text@.subrange(from as int, to as int),
            ),
        decreases to - a,
    {
        assert(text@.subrange(a as int, to as int).skip(1) =~= text@.subrange(a + 1, to as int));
        a += 1;
    }
    let mut b: usize = to;
    while a < b && is_whitespace_char(text[b - 1])
        invariant
            a <= b <= to <= text.len(),
            trim_end(text@.subrange(a as int, b as int)) == trim_end(
                text@.subrange(a as int, to as int),
            ),
        decreases b - a,
    {
        assert(text@.subrange(a as int, b as int).drop_last() =~= text@.subrange(
            a as int,
            b - 1,
        ));
        b -= 1;
    }
    (a, b)
}

/// Copies `text[from..to]`.
pub(crate) fn slice_chars(text: &Vec<char>, from: usize, to: usize) -> (out: Vec<char>)
    requires
        from <= to <= text.len(),
    ensures
        out@ == text@.subrange(from as int, to as int),
{
    let mut out: Vec<char> = Vec::new();
    let mut i: usize = from;
    while i < to
        invariant
            from <= i <= to <= text.len(),
            out@ == text@.subrange(from as int, i as int),
        decreases to - i,
    {
        out.push(text[i]);
        assert(text@.subrange(from as int, i + 1) =~= text@.subrange(from as int, i as int).push(
            text@[i as int],
        ));
        i += 1;
    }
    out
}

/// `s` without the whitespace that surrounds it.
pub fn trim_chars(text: &Vec<char>) -> (out: Vec<char>)
    ensures
        out@ == trim(text@),
{
    let (a, b) = trim_bounds(text, 0, text.len());
    assert(text@.subrange(0, text.len() as int) =~= text@);
    slice_chars(text, a, b)
}

} // verus!
