//! Banned terms and the set that holds them.
//!
//! A banned term is a non-empty sequence of Unicode scalar values. A `TermSet`
//! holds each term once. It keeps its terms in masking order (longer terms
//! first, terms of one length in dictionary order), so the order in which terms
//! are masked depends on the set alone and on nothing else.

use crate::text::{chars_of, slice_chars, string_of, trim, trim_bounds};
use vstd::prelude::*;

verus! {

/// `a` and `b` agree on their first `k` items and `a` is the smaller one at
/// index `k`: it either ends there while `b` goes on, or holds the smaller
/// scalar value.
pub open spec fn less_at(a: Seq<char>, b: Seq<char>, k: int) -> bool {
    &&& 0 <= k <= a.len()
    &&& k <= b.len()
    &&& forall|i: int| 0 <= i < k ==> a[i] == b[i]
    &&& if k < a.len() && k < b.len() {
        (a[k] as u32) < (b[k] as u32)
    } else {
        k == a.len() && k < b.len()
    }
}

/// Dictionary order on sequences of scalar values, strict.
pub open spec fn lex_less(a: Seq<char>, b: Seq<char>) -> bool {
    exists|k: int| less_at(a, b, k)
}

/// `a` is masked before `b`: it is longer, or as long and first in the dictionary.
pub open spec fn masks_before(a: Seq<char>, b: Seq<char>) -> bool {
    a.len() > b.len() || (a.len() == b.len() && lex_less(a, b))
}

/// `order` lists non-empty terms, each before all that follow it in masking
/// order. No term occurs twice in such a list.
pub open spec fn is_masking_order(order: Seq<Seq<char>>) -> bool {
    &&& forall|i: int| 0 <= i < order.len() ==> (#[trigger] order[i]).len() > 0
    &&& forall|i: int, j: int|
        0 <= i < j < order.len() ==> masks_before(#[trigger] order[i], #[trigger] order[j])
}

/// No sequence is masked before itself.
pub proof fn lemma_masks_before_irreflexive(a: Seq<char>)
    ensures
        !masks_before(a, a),
{
    assert forall|k: int| !less_at(a, a, k) by {}
}

/// Of two sequences at most one is masked before the other.
pub proof fn lemma_masks_before_asymmetric(a: Seq<char>, b: Seq<char>)
    requires
        masks_before(a, b),
    ensures
        !masks_before(b, a),
{
    if a.len() == b.len() {
        let k1 = choose|k: int| less_at(a, b, k);
        assert forall|k2: int| !less_at(b, a, k2) by {
            if less_at(b, a, k2) {
                if k1 < k2 {
                    assert(b[k1] == a[k1]);
                } else if k2 < k1 {
                    assert(a[k2] == b[k2]);
                }
            }
        }
    }
}

/// Masking order is transitive.
pub proof fn lemma_masks_before_transitive(a: Seq<char>, b: Seq<char>, c: Seq<char>)
    requires
        masks_before(a, b),
        masks_before(b, c),
    ensures
        masks_before(a, c),
{
    if a.len() == b.len() && b.len() == c.len() {
        let k1 = choose|k: int| less_at(a, b, k);
        let k2 = choose|k: int| less_at(b, c, k);
        let k = if k1 <= k2 { k1 } else { k2 };
        assert forall|i: int| 0 <= i < k implies a[i] == c[i] by {
            assert(a[i] == b[i]);
            assert(b[i] == c[i]);
        }
        if k1 < k2 {
            assert(b[k1] == c[k1]);
        } else if k2 < k1 {
            assert(a[k2] == b[k2]);
        }
        assert(less_at(a, c, k));
    }
}

/// Two sequences of one length that agree up to index `k` and differ somewhere
/// differ first at some index, and there one is the smaller.
proof fn lemma_first_difference(a: Seq<char>, b: Seq<char>, k: int)
    requires
        a.len() == b.len(),
        a != b,
        0 <= k <= a.len(),
        forall|i: int| 0 <= i < k ==> a[i] == b[i],
    ensures
        lex_less(a, b) || lex_less(b, a),
    decreases a.len() - k,
{
    if k == a.len() {
        assert(a =~= b);
    } else if a[k] == b[k] {
        lemma_first_difference(a, b, k + 1);
    } else {
        vstd::utf8::char_u32_cast(a[k], a[k] as u32);
        vstd::utf8::char_u32_cast(b[k], b[k] as u32);
        if (a[k] as u32) < (b[k] as u32) {
            assert(less_at(a, b, k));
        } else {
            assert(less_at(b, a, k));
        }
    }
}

/// Of two different sequences one is masked before the other.
pub proof fn lemma_masks_before_total(a: Seq<char>, b: Seq<char>)
    requires
        a != b,
    ensures
        masks_before(a, b) || masks_before(b, a),
{
    if a.len() == b.len() {
        lemma_first_difference(a, b, 0);
    }
}

/// How one term stands to another in masking order.
#[derive(Clone, Copy, Debug, PartialEq, Eq, Structural)]
pub enum Rank {
    /// Masked before the other.
    Before,
    /// The same term.
    Same,
    /// Masked after the other.
    After,
}

/// Where `a` stands to `b` in masking order.
pub fn rank(a: &Vec<char>, b: &Vec<char>) -> (r: Rank)
    ensures
        r == Rank::Before <==> masks_before(a@, b@),
        r == Rank::Same <==> a@ == b@,
        r == Rank::After <==> masks_before(b@, a@),
{
    if a.len() > b.len() {
        proof {
            lemma_masks_before_asymmetric(a@, b@);
        }
        return Rank::Before;
    }
    if a.len() < b.len() {
        proof {
            lemma_masks_before_asymmetric(b@, a@);
        }
        return Rank::After;
    }
    let mut k: usize = 0;
    while k < a.len() && a[k] == b[k]
        invariant
            k <= a.len(),
            a.len() == b.len(),
            forall|i: int| 0 <= i < k ==> a@[i] == b@[i],
        decreases a.len() - k,
    {
        k += 1;
    }
    if k == a.len() {
        assert(a@ =~= b@);
        proof {
            lemma_masks_before_irreflexive(a@);
        }
        Rank::Same
    } else if (a[k] as u32) < (b[k] as u32) {
        assert(less_at(a@, b@, k as int));
        proof {
            lemma_masks_before_asymmetric(a@, b@);
        }
        Rank::Before
    } else {
        proof {
            vstd::utf8::char_u32_cast(a@[k as int], a@[k as int] as u32);
            vstd::utf8::char_u32_cast(b@[k as int], b@[k as int] as u32);
            assert(less_at(b@, a@, k as int));
            lemma_masks_before_asymmetric(b@, a@);
        }
        Rank::After
    }
}

/// The sequences that `terms` holds, in its order.
spec fn views_of(terms: Seq<Vec<char>>) -> Seq<Seq<char>> {
    Seq::new(terms.len(), |i: int| terms[i]@)
}

/// A set of banned terms.
pub struct TermSet {
    terms: Vec<Vec<char>>,
}

impl View for TermSet {
    type V = Set<Seq<char>>;

    /// The terms as a set.
    open spec fn view(&self) -> Set<Seq<char>> {
        self.order().to_set()
    }
}

impl TermSet {
    /// The terms in the order in which they are masked.
    pub closed spec fn order(&self) -> Seq<Seq<char>> {
        views_of(self.terms@)
    }

    /// Every term is non-empty and stands before all terms that are masked after
    /// it. This holds of every `TermSet` that executable code can hold.
    #[verifier::type_invariant]
    pub open spec fn wf(&self) -> bool {
        is_masking_order(self.order())
    }

    /// The set without terms.
    pub fn new() -> (set: TermSet)
        ensures
            set.order() == Seq::<Seq<char>>::empty(),
            set@ == Set::<Seq<char>>::empty(),
            set.wf(),
    {
        let set = TermSet { terms: Vec::new() };
        assert(set.order() =~= Seq::<Seq<char>>::empty());
        assert(set@ =~= Set::<Seq<char>>::empty());
        set
    }

    /// Adds `term`, unless it is empty or already in the set. Says whether the
    /// set has grown.
    pub fn insert(&mut self, term: &str) -> (added: bool)
        ensures
            final(self).wf(),
            term@.len() == 0 ==> final(self).order() == old(self).order(),
            term@.len() > 0 ==> final(self)@ == old(self)@.insert(term@),
            added == (term@.len() > 0 && !old(self)@.contains(term@)),
    {
        let chars = chars_of(term);
        if chars.len() == 0 {
            proof {
                use_type_invariant(&*self);
            }
            return false;
        }
        self.insert_chars(chars)
    }

    /// Adds the non-empty `term`, unless it is already in the set.
    pub(crate) fn insert_chars(&mut self, term: Vec<char>) -> (added: bool)
        requires
            term@.len() > 0,
        ensures
            final(self).wf(),
            final(self)@ == old(self)@.insert(term@),
            added == !old(self)@.contains(term@),
    {
        proof {
            use_type_invariant(&*self);
        }
        let ghost before = self.order();
        let mut terms: Vec<Vec<char>> = Vec::new();
        core::mem::swap(&mut terms, &mut self.terms);
        assert(views_of(terms@) == before);
        let mut at: usize = 0;
        let mut found: bool = false;
        while at < terms.len()
            invariant_except_break
                !found,
            invariant
                at <= terms.len(),
                views_of(terms@) == before,
                forall|i: int| 0 <= i < at ==> masks_before(#[trigger] before[i], term@),
            ensures
                found ==> at < terms.len() && before[at as int] == term@,
                !found && at < terms.len() ==> masks_before(term@, before[at as int]),
            decreases terms.len() - at,
        {
            assert(before[at as int] == terms@[at as int]@);
            match rank(&terms[at], &term) {
                Rank::Before => {
                    at += 1;
                },
                Rank::Same => {
                    found = true;
                    break;
                },
                Rank::After => {
                    break;
                },
            }
        }
        if found {
            proof {
                assert(before.to_set().contains(before[at as int]));
                assert(before.to_set().insert(term@) =~= before.to_set());
            }
            self.terms = terms;
            return false;
        }
        let ghost after = before.insert(at as int, term@);
        proof {
            assert forall|i: int, j: int| 0 <= i < j < after.len() implies masks_before(
                #[trigger] after[i],
                #[trigger] after[j],
            ) by {
                if j == at {
                    assert(after[i] == before[i]);
                } else if i == at {
                    assert(after[j] == before[j - 1]);
                    if j - 1 > at {
                        lemma_masks_before_transitive(term@, before[at as int], before[j - 1]);
                    }
                } else if i < at && j > at {
                    assert(after[i] == before[i]);
                    assert(after[j] == before[j - 1]);
                } else if i < at {
                    assert(after[i] == before[i]);
                    assert(after[j] == before[j]);
                } else {
                    assert(after[i] == before[i - 1]);
                    assert(after[j] == before[j - 1]);
                }
            }
            assert forall|i: int| 0 <= i < after.len() implies (#[trigger] after[i]).len() > 0 by {
                if i < at {
                    assert(after[i] == before[i]);
                } else if i > at {
                    assert(after[i] == before[i - 1]);
                }
            }
            assert(!before.to_set().contains(term@)) by {
                if before.to_set().contains(term@) {
                    let k = choose|k: int| 0 <= k < before.len() && before[k] == term@;
                    lemma_masks_before_irreflexive(term@);
                    if k > at {
                        lemma_masks_before_transitive(term@, before[at as int], before[k]);
                    }
                }
            }
            assert(after.to_set() =~= before.to_set().insert(term@)) by {
                assert forall|t: Seq<char>| after.to_set().contains(t) implies before.to_set().insert(
                    term@,
                ).contains(t) by {
                    let k = choose|k: int| 0 <= k < after.len() && after[k] == t;
                    if k < at {
                        assert(before[k] == t);
                    } else if k > at {
                        assert(before[k - 1] == t);
                    }
                }
                assert forall|t: Seq<char>| before.to_set().insert(term@).contains(
                    t,
                ) implies after.to_set().contains(t) by {
                    if t == term@ {
                        assert(after[at as int] == t);
                    } else {
                        let k = choose|k: int| 0 <= k < before.len() && before[k] == t;
                        if k < at {
                            assert(after[k] == t);
                        } else {
                            assert(after[k + 1] == t);
                        }
                    }
                }
            }
        }
        terms.insert(at, term);
        assert(views_of(terms@) =~= after);
        self.terms = terms;
        true
    }

    /// The number of terms.
    pub fn len(&self) -> (n: usize)
        ensures
            n == self.order().len(),
            n == self@.len(),
    {
        proof {
            use_type_invariant(self);
            lemma_masking_order_counts(self.order());
        }
        self.terms.len()
    }

    /// Whether the set holds no term.
    pub fn is_empty(&self) -> (b: bool)
        ensures
            b == (self.order().len() == 0),
            b == (self@ == Set::<Seq<char>>::empty()),
    {
        proof {
            if self.order().len() == 0 {
                assert(self@ =~= Set::<Seq<char>>::empty());
            } else {
                assert(self@.contains(self.order()[0]));
            }
        }
        self.terms.len() == 0
    }

    /// Whether `term` is in the set.
    pub fn contains(&self, term: &str) -> (b: bool)
        ensures
            b == self@.contains(term@),
    {
        let chars = chars_of(term);
        let mut i: usize = 0;
        while i < self.terms.len()
            invariant
                i <= self.terms.len(),
                chars@ == term@,
                forall|k: int| 0 <= k < i ==> (#[trigger] self.order()[k]) != term@,
            decreases self.terms.len() - i,
        {
            assert(self.order()[i as int] == self.terms@[i as int]@);
            if rank(&self.terms[i], &chars) == Rank::Same {
                return true;
            }
            i += 1;
        }
        false
    }

    /// The terms in masking order.
    pub fn terms(&self) -> (list: Vec<String>)
        ensures
            list@.len() == self.order().len(),
            forall|i: int| 0 <= i < list@.len() ==> (#[trigger] list@[i])@ == self.order()[i],
    {
        let mut list: Vec<String> = Vec::new();
        let mut i: usize = 0;
        while i < self.terms.len()
            invariant
                i <= self.terms.len(),
                list@.len() == i,
                forall|k: int| 0 <= k < i ==> (#[trigger] list@[k])@ == self.order()[k],
            decreases self.terms.len() - i,
        {
            assert(self.order()[i as int] == self.terms@[i as int]@);
            list.push(string_of(&self.terms[i]));
            i += 1;
        }
        list
    }

    /// The `i`-th term in masking order, as it is stored.
    pub(crate) fn term_chars(&self, i: usize) -> (t: &Vec<char>)
        requires
            i < self.order().len(),
        ensures
            t@ == self.order()[i as int],
    {
        &self.terms[i]
    }
}

/// A masking order holds no term twice, so it has as many terms as the set of
/// its terms.
pub proof fn lemma_masking_order_counts(order: Seq<Seq<char>>)
    requires
        is_masking_order(order),
    ensures
        order.no_duplicates(),
        order.to_set().len() == order.len(),
{
    assert forall|i: int, j: int| 0 <= i < order.len() && 0 <= j < order.len() && i != j implies order[i]
        != order[j] by {
        lemma_masks_before_irreflexive(order[i]);
    }
    order.unique_seq_to_set();
}

/// The set of its terms fixes a masking order: two masking orders of the same
/// terms are the same sequence.
pub proof fn lemma_masking_order_unique(a: Seq<Seq<char>>, b: Seq<Seq<char>>)
    requires
        is_masking_order(a),
        is_masking_order(b),
        a.to_set() == b.to_set(),
    ensures
        a == b,
    decreases a.len(),
{
    lemma_masking_order_counts(a);
    lemma_masking_order_counts(b);
    if a.len() == 0 {
        assert(a =~= b);
    } else {
        assert(a.to_set().contains(a[0]));
        assert(b.to_set().contains(b[0]));
        let j = choose|j: int| 0 <= j < b.len() && b[j] == a[0];
        let i = choose|i: int| 0 <= i < a.len() && a[i] == b[0];
        if i > 0 && j > 0 {
            lemma_masks_before_asymmetric(a[0], a[i]);
        }
        assert(a[0] == b[0]);
        let a_rest = a.skip(1);
        let b_rest = b.skip(1);
        assert(a_rest.to_set() =~= b_rest.to_set()) by {
            assert forall|t: Seq<char>| a_rest.to_set().contains(t) implies b_rest.to_set().contains(
                t,
            ) by {
                let k = choose|k: int| 0 <= k < a_rest.len() && a_rest[k] == t;
                assert(a[k + 1] == t);
                assert(b.to_set().contains(t));
                let l = choose|l: int| 0 <= l < b.len() && b[l] == t;
                assert(l > 0);
                assert(b_rest[l - 1] == t);
            }
            assert forall|t: Seq<char>| b_rest.to_set().contains(t) implies a_rest.to_set().contains(
                t,
            ) by {
                let k = choose|k: int| 0 <= k < b_rest.len() && b_rest[k] == t;
                assert(b[k + 1] == t);
                assert(a.to_set().contains(t));
                let l = choose|l: int| 0 <= l < a.len() && a[l] == t;
                assert(l > 0);
                assert(a_rest[l - 1] == t);
            }
        }
        assert(is_masking_order(a_rest)) by {
            assert forall|i: int| 0 <= i < a_rest.len() implies (#[trigger] a_rest[i]).len() > 0 by {
                assert(a_rest[i] == a[i + 1]);
            }
            assert forall|i: int, j: int| 0 <= i < j < a_rest.len() implies masks_before(
                #[trigger] a_rest[i],
                #[trigger] a_rest[j],
            ) by {
                assert(a_rest[i] == a[i + 1]);
                assert(a_rest[j] == a[j + 1]);
            }
        }
        assert(is_masking_order(b_rest)) by {
            assert forall|i: int| 0 <= i < b_rest.len() implies (#[trigger] b_rest[i]).len() > 0 by {
                assert(b_rest[i] == b[i + 1]);
            }
            assert forall|i: int, j: int| 0 <= i < j < b_rest.len() implies masks_before(
                #[trigger] b_rest[i],
                #[trigger] b_rest[j],
            ) by {
                assert(b_rest[i] == b[i + 1]);
                assert(b_rest[j] == b[j + 1]);
            }
        }
        lemma_masking_order_unique(a_rest, b_rest);
        assert(a =~= seq![a[0]] + a_rest);
        assert(b =~= seq![b[0]] + b_rest);
    }
}

/// Two term sets that hold the same terms mask in the same order.
pub proof fn lemma_same_terms_same_order(a: TermSet, b: TermSet)
    requires
        a.wf(),
        b.wf(),
        a@ == b@,
    ensures
        a.order() == b.order(),
{
    lemma_masking_order_unique(a.order(), b.order());
}

/// `text[from..to]` is a whole line of `text`: it starts at the start of the
/// text or behind a newline, ends at the end of the text or before a newline,
/// and holds no newline.
pub open spec fn is_line(text: Seq<char>, from: int, to: int) -> bool {
    &&& 0 <= from <= to <= text.len()
    &&& (from == 0 || text[from - 1] == '\n')
    &&& (to == text.len() || text[to] == '\n')
    &&& forall|k: int| from <= k < to ==> text[k] != '\n'
}

/// A trimmed line that is a term: it is not empty and no comment.
pub open spec fn is_term_line(line: Seq<char>) -> bool {
    line.len() > 0 && line[0] != '#'
}

/// The line `text[from..to]` lists `term`.
pub open spec fn lists_at(text: Seq<char>, from: int, to: int, term: Seq<char>) -> bool {
    &&& is_line(text, from, to)
    &&& term == trim(text.subrange(from, to))
    &&& is_term_line(term)
}

/// The terms that a term list names: each line, trimmed, unless it is then
/// empty or starts with `#`.
pub open spec fn listed_terms(text: Seq<char>) -> Set<Seq<char>> {
    Set::new(|term: Seq<char>| exists|from: int, to: int| lists_at(text, from, to, term))
}

/// The terms that the lines of `text` which end before `limit` list.
spec fn listed_before(text: Seq<char>, limit: int) -> Set<Seq<char>> {
    Set::new(
        |term: Seq<char>|
            exists|from: int, to: int| #[trigger] lists_at(text, from, to, term) && to < limit,
    )
}

/// Two lines of one text that overlap or touch are the same line.
proof fn lemma_line_unique(text: Seq<char>, start: int, end: int, from: int, to: int)
    requires
        is_line(text, start, end),
        is_line(text, from, to),
        start <= to <= end,
    ensures
        from == start,
        to == end,
{
    if to < end {
        assert(text[to] != '\n');
    }
    if from < start {
        assert(text[start - 1] != '\n');
    }
    if from > start {
        assert(text[from - 1] != '\n');
    }
}

/// Reads a term list: one term per line, surrounding whitespace cut off, empty
/// lines and lines that start with `#` left out.
pub fn parse_term_list(text: &str) -> (set: TermSet)
    ensures
        set@ == listed_terms(text@),
        set.wf(),
{
    let chars = chars_of(text);
    let mut set = TermSet::new();
    let mut start: usize = 0;
    assert(set@ =~= listed_before(chars@, 0));
    loop
        invariant_except_break
            start <= chars.len(),
            start == 0 || chars@[start - 1] == '\n',
            set@ == listed_before(chars@, start as int),
        invariant
            chars@ == text@,
            set.wf(),
        ensures
            set@ == listed_terms(text@),
        decreases chars.len() - start,
    {
        let mut end: usize = start;
        while end < chars.len() && chars[end] != '\n'
            invariant
                start <= end <= chars.len(),
                forall|k: int| start <= k < end ==> chars@[k] != '\n',
            decreases chars.len() - end,
        {
            end += 1;
        }
        assert(is_line(chars@, start as int, end as int));
        let (a, b) = trim_bounds(&chars, start, end);
        let ghost line = trim(chars@.subrange(start as int, end as int));
        let ghost earlier = set@;
        let listed = a < b && chars[a] != '#';
        proof {
            assert(line == chars@.subrange(a as int, b as int));
            if a < b {
                assert(line[0] == chars@[a as int]);
            }
            assert(listed == is_term_line(line));
        }
        if listed {
            set.insert_chars(slice_chars(&chars, a, b));
        }
        proof {
            let now = if listed {
                earlier.insert(line)
            } else {
                earlier
            };
            assert(set@ == now);
            assert(now =~= listed_before(chars@, end + 1)) by {
                assert forall|term: Seq<char>| now.contains(term) implies listed_before(
                    chars@,
                    end + 1,
                ).contains(term) by {
                    if listed && term == line {
                        assert(lists_at(chars@, start as int, end as int, term));
                    } else {
                        let (from, to) = choose|from: int, to: int|
                            #[trigger] lists_at(chars@, from, to, term) && to < start;
                        assert(lists_at(chars@, from, to, term) && to < end + 1);
                    }
                }
                assert forall|term: Seq<char>|
                    listed_before(chars@, end + 1).contains(term) implies now.contains(term) by {
                    let (from, to) = choose|from: int, to: int|
                        #[trigger] lists_at(chars@, from, to, term) && to < end + 1;
                    if to < start {
                        assert(earlier.contains(term));
                    } else {
                        lemma_line_unique(chars@, start as int, end as int, from, to);
                    }
                }
            }
        }
        if end == chars.len() {
            assert(set@ =~= listed_terms(chars@)) by {
                assert forall|term: Seq<char>| listed_terms(chars@).contains(term) implies set@.contains(
                    term,
                ) by {
                    let (from, to) = choose|from: int, to: int| lists_at(chars@, from, to, term);
                    assert(lists_at(chars@, from, to, term) && to < end + 1);
                }
            }
            break;
        }
        start = end + 1;
    }
    set
}

/// The term list could not be read from its source.
pub struct SourceUnavailable {
    /// What the source reported.
    pub reason: String,
}

/// Turns what reading the source gave into a term set: the terms that the text
/// lists, or the failure as it came.
pub fn load_sensitive_words(source: Result<String, SourceUnavailable>) -> (loaded: Result<
    TermSet,
    SourceUnavailable,
>)
    ensures
        match source {
            Ok(text) => loaded is Ok && loaded->Ok_0@ == listed_terms(text@) && loaded->Ok_0.wf(),
            Err(failure) => loaded == Err::<TermSet, SourceUnavailable>(failure),
        },
{
    match source {
        Ok(text) => Ok(parse_term_list(text.as_str())),
        Err(failure) => Err(failure),
    }
}

/// Owns the term set that masking currently goes by.
///
/// The set is only ever replaced as a whole: whoever reads it sees the set of
/// one successful load, never a mixture of two.
pub struct TermListStore {
    snapshot: TermSet,
}

impl View for TermListStore {
    type V = Set<Seq<char>>;

    /// The terms of the current set.
    open spec fn view(&self) -> Set<Seq<char>> {
        self.snapshot()@
    }
}

impl TermListStore {
    /// The current set.
    pub closed spec fn snapshot(&self) -> TermSet {
        self.snapshot
    }

    /// Starts a store from the first load. If the source could not be read, the
    /// store starts empty and masking changes nothing until a reload succeeds.
    pub fn start(source: Result<String, SourceUnavailable>) -> (store: TermListStore)
        ensures
            store.snapshot().wf(),
            match source {
                Ok(text) => store@ == listed_terms(text@),
                Err(_) => store@ == Set::<Seq<char>>::empty(),
            },
    {
        match load_sensitive_words(source) {
            Ok(set) => TermListStore { snapshot: set },
            Err(_) => TermListStore { snapshot: TermSet::new() },
        }
    }

    /// The current set, to read.
    pub fn current(&self) -> (set: &TermSet)
        ensures
            *set == self.snapshot(),
            set.wf(),
    {
        proof {
            use_type_invariant(&self.snapshot);
        }
        &self.snapshot
    }
}

/// Reloads the store from what reading the source gave.
///
/// If the source was read, the store's set becomes the set of the terms that the
/// text lists, and their number is returned. If not, the store keeps the set it
/// had and the failure is returned.
pub fn reload_sensitive_words(
    store: &mut TermListStore,
    source: Result<String, SourceUnavailable>,
) -> (count: Result<usize, SourceUnavailable>)
    ensures
        final(store).snapshot().wf(),
        match source {
            Ok(text) => {
                &&& final(store)@ == listed_terms(text@)
                &&& count is Ok
                &&& count->Ok_0 == listed_terms(text@).len()
            },
            Err(failure) => {
                &&& *final(store) == *old(store)
                &&& count == Err::<usize, SourceUnavailable>(failure)
            },
        },
{
    proof {
        use_type_invariant(&store.snapshot);
    }
    match load_sensitive_words(source) {
        Ok(set) => {
            let n = set.len();
            store.snapshot = set;
            Ok(n)
        },
        Err(failure) => Err(failure),
    }
}

} // verus!
