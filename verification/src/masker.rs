//! Masking of banned terms.
//!
//! Each occurrence of a term is replaced by as many `*` as the term has scalar
//! values. Terms are taken in masking order, each on the text as the terms
//! before it have left it, so a long term is hidden whole before a shorter term
//! inside it is looked for.

use crate::terms::TermSet;
use crate::text::{
    chars_of, contains, disjoint, lemma_replace_absent, lemma_replace_keeps_length,
    lemma_replace_leaves_none, occurs_at, replace_all, replace_chars, string_of,
};
use vstd::prelude::*;

verus! {

/// The scalar value that hides a masked one.
pub const MASK: char = '*';

/// A run of `len` mask characters.
pub open spec fn mask_of(len: nat) -> Seq<char> {
    Seq::new(len, |i: int| MASK)
}

/// `text` with every occurrence of `term` masked.
pub open spec fn mask_term(text: Seq<char>, term: Seq<char>) -> Seq<char> {
    replace_all(text, term, mask_of(term.len()))
}

/// `text` with the terms of `order` masked one after the other, the first term
/// first.
pub open spec fn mask_all(text: Seq<char>, order: Seq<Seq<char>>) -> Seq<char>
    decreases order.len(),
{
    if order.len() == 0 {
        text
    } else {
        mask_all(mask_term(text, order[0]), order.skip(1))
    }
}

/// Masking keeps the number of scalar values.
pub proof fn lemma_mask_keeps_length(text: Seq<char>, order: Seq<Seq<char>>)
    ensures
        mask_all(text, order).len() == text.len(),
    decreases order.len(),
{
    if order.len() > 0 {
        lemma_replace_keeps_length(text, order[0], mask_of(order[0].len()));
        lemma_mask_keeps_length(mask_term(text, order[0]), order.skip(1));
    }
}

/// Masking the empty text gives the empty text.
pub proof fn lemma_mask_of_empty(order: Seq<Seq<char>>)
    ensures
        mask_all(Seq::<char>::empty(), order) == Seq::<char>::empty(),
{
    lemma_mask_keeps_length(Seq::<char>::empty(), order);
    assert(mask_all(Seq::<char>::empty(), order) =~= Seq::<char>::empty());
}

/// `masked` is `text` with some of its items hidden behind the mask character.
pub open spec fn hides_part_of(masked: Seq<char>, text: Seq<char>) -> bool {
    &&& masked.len() == text.len()
    &&& forall|i: int| 0 <= i < text.len() ==> masked[i] == text[i] || masked[i] == MASK
}

/// `term` holds no mask character.
pub open spec fn free_of_mask(term: Seq<char>) -> bool {
    forall|i: int| 0 <= i < term.len() ==> term[i] != MASK
}

/// Masking one term changes nothing but to hide items.
proof fn lemma_mask_term_hides(text: Seq<char>, term: Seq<char>)
    ensures
        hides_part_of(mask_term(text, term), text),
    decreases text.len(),
{
    let run = mask_of(term.len());
    let m = term.len() as int;
    if term.len() == 0 || text.len() < term.len() {
    } else if text.take(m) == term {
        lemma_mask_term_hides(text.skip(m), term);
        lemma_replace_keeps_length(text.skip(m), term, run);
    } else {
        lemma_mask_term_hides(text.skip(1), term);
        lemma_replace_keeps_length(text.skip(1), term, run);
    }
}

/// Masking changes nothing but to hide items: every item of the masked text is
/// the item of the text at that place, or the mask character.
pub proof fn lemma_mask_only_hides(text: Seq<char>, order: Seq<Seq<char>>)
    ensures
        hides_part_of(mask_all(text, order), text),
    decreases order.len(),
{
    if order.len() > 0 {
        lemma_mask_term_hides(text, order[0]);
        lemma_mask_only_hides(mask_term(text, order[0]), order.skip(1));
    }
}

/// Hiding items brings no term into a text that has no mask character in it.
proof fn lemma_hiding_keeps_absent(text: Seq<char>, masked: Seq<char>, term: Seq<char>)
    requires
        hides_part_of(masked, text),
        free_of_mask(term),
        !contains(text, term),
    ensures
        !contains(masked, term),
{
    assert forall|i: int| !occurs_at(masked, term, i) by {
        if occurs_at(masked, term, i) {
            let found = masked.subrange(i, i + term.len());
            assert forall|j: int| 0 <= j < term.len() implies text[i + j] == term[j] by {
                assert(found[j] == term[j]);
                assert(masked[i + j] == found[j]);
            }
            assert(text.subrange(i, i + term.len()) =~= term);
            assert(occurs_at(text, term, i));
        }
    }
}

/// No term survives masking: a term of the order that is not empty and holds
/// no mask character does not occur in the masked text.
pub proof fn lemma_no_term_survives(text: Seq<char>, order: Seq<Seq<char>>, k: int)
    requires
        0 <= k < order.len(),
        order[k].len() > 0,
        free_of_mask(order[k]),
    ensures
        !contains(mask_all(text, order), order[k]),
    decreases order.len(),
{
    let first = mask_term(text, order[0]);
    if k == 0 {
        assert(disjoint(order[0], mask_of(order[0].len())));
        lemma_replace_leaves_none(text, order[0], mask_of(order[0].len()));
        lemma_mask_only_hides(first, order.skip(1));
        lemma_hiding_keeps_absent(first, mask_all(first, order.skip(1)), order[0]);
    } else {
        assert(order.skip(1)[k - 1] == order[k]);
        lemma_no_term_survives(first, order.skip(1), k - 1);
    }
}

/// A text in which none of the terms occurs is left as it is.
pub proof fn lemma_mask_of_clean_text(text: Seq<char>, order: Seq<Seq<char>>)
    requires
        forall|k: int| 0 <= k < order.len() ==> !contains(text, #[trigger] order[k]),
    ensures
        mask_all(text, order) == text,
    decreases order.len(),
{
    if order.len() > 0 {
        lemma_replace_absent(text, order[0], mask_of(order[0].len()));
        assert forall|k: int| 0 <= k < order.skip(1).len() implies !contains(
            text,
            #[trigger] order.skip(1)[k],
        ) by {
            assert(order.skip(1)[k] == order[k + 1]);
        }
        lemma_mask_of_clean_text(text, order.skip(1));
    }
}

/// Masking twice is masking once, where the terms are not empty and hold no
/// mask character.
pub proof fn lemma_mask_idempotent(text: Seq<char>, order: Seq<Seq<char>>)
    requires
        forall|k: int|
            0 <= k < order.len() ==> (#[trigger] order[k]).len() > 0 && free_of_mask(order[k]),
    ensures
        mask_all(mask_all(text, order), order) == mask_all(text, order),
{
    assert forall|k: int| 0 <= k < order.len() implies !contains(
        mask_all(text, order),
        #[trigger] order[k],
    ) by {
        lemma_no_term_survives(text, order, k);
    }
    lemma_mask_of_clean_text(mask_all(text, order), order);
}

/// A run of `len` mask characters.
fn mask_run(len: usize) -> (run: Vec<char>)
    ensures
        run@ == mask_of(len as nat),
{
    let mut run: Vec<char> = Vec::new();
    let mut i: usize = 0;
    while i < len
        invariant
            i <= len,
            run@ == mask_of(i as nat),
        decreases len - i,
    {
        run.push(MASK);
        assert(run@ =~= mask_of((i + 1) as nat));
        i += 1;
    }
    run
}

/// Masks the banned terms in `content`.
///
/// `snapshot` is the term set as the caller got it from the store, or `None`
/// where it could not be had: the content then comes back as it is.
///
/// The terms are masked in the order of the set, each on the text as the terms
/// before it have left it. The masked text differs from the content only in
/// that some of its characters are hidden, and no term of the set that is free
/// of mask characters is left in it.
pub fn filter_sensitive_words(content: &str, snapshot: Option<&TermSet>) -> (masked: String)
    ensures
        match snapshot {
            Some(terms) => masked@ == mask_all(content@, terms.order()),
            None => masked@ == content@,
        },
        hides_part_of(masked@, content@),
        content@.len() == 0 ==> masked@ == content@,
        match snapshot {
            Some(terms) => forall|k: int|
                0 <= k < terms.order().len() && free_of_mask(#[trigger] terms.order()[k])
                    ==> !contains(masked@, terms.order()[k]),
            None => true,
        },
{
    let terms = match snapshot {
        Some(terms) => terms,
        None => {
            return content.to_owned();
        },
    };
    proof {
        use_type_invariant(terms);
        lemma_mask_only_hides(content@, terms.order());
        assert forall|k: int|
            0 <= k < terms.order().len() && free_of_mask(
                #[trigger] terms.order()[k],
            ) implies !contains(mask_all(content@, terms.order()), terms.order()[k]) by {
            lemma_no_term_survives(content@, terms.order(), k);
        }
    }
    let mut text = chars_of(content);
    if text.len() == 0 {
        assert(mask_all(content@, terms.order()) =~= content@);
        return content.to_owned();
    }
    let n = terms.len();
    let mut i: usize = 0;
    assert(terms.order().skip(0) =~= terms.order());
    while i < n
        invariant
            i <= n,
            n == terms.order().len(),
            mask_all(text@, terms.order().skip(i as int)) == mask_all(content@, terms.order()),
        decreases n - i,
    {
        let term = terms.term_chars(i);
        let run = mask_run(term.len());
        let ghost rest = terms.order().skip(i as int);
        assert(rest[0] == term@);
        assert(rest.skip(1) =~= terms.order().skip(i + 1));
        text = replace_chars(&text, term, &run);
        i += 1;
    }
    string_of(&text)
}

} // verus!
