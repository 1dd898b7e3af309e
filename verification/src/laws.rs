//! Properties of the substitution, stated over the scan model and proved
//! once and for all: identity on token-free text, preservation of literal
//! spans, no re-expansion of replacement text, independence of repeated
//! occurrences, and validity of every captured identifier.

use vstd::prelude::*;

use crate::engine::{idents_from, subst_from, substitution_of, valid_replacements};
use crate::token::{has_token_at, is_ident, lemma_token_bounds, token_end, token_ident};

verus! {

/// The literal spans of `s` from position `i` on: the runs of characters
/// between consecutive tokens, in order, with one (possibly empty) span
/// before each token and one after the last. There is always one span more
/// than there are tokens.
pub open spec fn lit_parts(s: Seq<char>, i: int) -> Seq<Seq<char>>
    decreases s.len() - i
    via lit_parts_decreases
{
    if !(0 <= i < s.len()) {
        seq![Seq::<char>::empty()]
    } else if has_token_at(s, i) {
        seq![Seq::<char>::empty()] + lit_parts(s, token_end(s, i))
    } else {
        let rest = lit_parts(s, i + 1);
        rest.update(0, seq![s[i]] + rest[0])
    }
}

#[via_fn]
proof fn lit_parts_decreases(s: Seq<char>, i: int) {
    if 0 <= i < s.len() && has_token_at(s, i) {
        lemma_token_bounds(s, i);
    }
}

/// The interleaving of literal spans with replacement texts:
/// `lits[0] + reps[0] + lits[1] + reps[1] + ... + lits[last]`.
pub open spec fn weave(lits: Seq<Seq<char>>, reps: Seq<Seq<char>>) -> Seq<char>
    decreases lits.len(),
{
    if lits.len() == 0 {
        Seq::empty()
    } else if lits.len() == 1 {
        lits[0]
    } else {
        lits[0] + reps.first() + weave(lits.drop_first(), reps.drop_first())
    }
}

/// There is always exactly one literal span more than there are tokens.
pub proof fn lemma_lit_parts_len(s: Seq<char>, i: int)
    ensures
        lit_parts(s, i).len() == idents_from(s, i).len() + 1,
    decreases s.len() - i,
{
    if 0 <= i < s.len() {
        if has_token_at(s, i) {
            lemma_token_bounds(s, i);
            lemma_lit_parts_len(s, token_end(s, i));
        } else {
            lemma_lit_parts_len(s, i + 1);
        }
    }
}

/// Prepending a character to the first literal span prepends it to the
/// woven output.
proof fn lemma_weave_prepend(c: char, lits: Seq<Seq<char>>, reps: Seq<Seq<char>>)
    requires
        lits.len() >= 1,
    ensures
        weave(lits.update(0, seq![c] + lits[0]), reps) == seq![c] + weave(lits, reps),
{
    let lits2 = lits.update(0, seq![c] + lits[0]);
    if lits.len() == 1 {
        assert(weave(lits2, reps) == lits2[0]);
    } else {
        assert(lits2.drop_first() =~= lits.drop_first());
        assert((seq![c] + lits[0]) + reps.first() + weave(lits.drop_first(), reps.drop_first())
            =~= seq![c] + (lits[0] + reps.first() + weave(lits.drop_first(), reps.drop_first())));
    }
}

/// Output shape: every substitution output is the weave of the literal
/// spans of the template — which depend on the template alone — with the
/// replacement texts. Literal text is preserved verbatim and in order, and
/// each replacement text appears verbatim, in token order, without being
/// scanned for further tokens.
pub proof fn lemma_output_shape(s: Seq<char>, i: int, reps: Seq<Seq<char>>)
    requires
        0 <= i <= s.len(),
        reps.len() == idents_from(s, i).len(),
    ensures
        subst_from(s, i, reps) == weave(lit_parts(s, i), reps),
    decreases s.len() - i,
{
    if !(0 <= i < s.len()) {
        assert(weave(lit_parts(s, i), reps) == Seq::<char>::empty());
    } else if has_token_at(s, i) {
        let e = token_end(s, i);
        lemma_token_bounds(s, i);
        lemma_lit_parts_len(s, e);
        assert(idents_from(s, i) == seq![token_ident(s, i)] + idents_from(s, e));
        assert(reps.drop_first().len() == idents_from(s, e).len());
        lemma_output_shape(s, e, reps.drop_first());
        let lits = seq![Seq::<char>::empty()] + lit_parts(s, e);
        assert(lits.drop_first() =~= lit_parts(s, e));
        assert(lits.len() >= 2);
        assert(lits[0] + reps.first() + weave(lit_parts(s, e), reps.drop_first()) =~= reps.first()
            + weave(lit_parts(s, e), reps.drop_first()));
    } else {
        assert(idents_from(s, i) == idents_from(s, i + 1));
        lemma_lit_parts_len(s, i + 1);
        lemma_output_shape(s, i + 1, reps);
        lemma_weave_prepend(s[i], lit_parts(s, i + 1), reps);
    }
}

/// With every replacement empty, weaving is plain concatenation.
proof fn lemma_weave_empties(lits: Seq<Seq<char>>, reps: Seq<Seq<char>>)
    requires
        forall|k: int| 0 <= k < reps.len() ==> #[trigger] reps[k] == Seq::<char>::empty(),
        lits.len() == reps.len() + 1,
    ensures
        weave(lits, reps) == lits.flatten(),
    decreases lits.len(),
{
    if lits.len() == 1 {
        assert(lits.drop_first().flatten() == Seq::<char>::empty());
        assert(lits[0] + Seq::<char>::empty() =~= lits[0]);
        assert(lits.flatten() == lits.first() + lits.drop_first().flatten());
    } else {
        assert(forall|k: int|
            0 <= k < reps.drop_first().len() ==> #[trigger] reps.drop_first()[k]
                == Seq::<char>::empty());
        lemma_weave_empties(lits.drop_first(), reps.drop_first());
        assert(reps.first() == reps[0]);
        assert(lits[0] + Seq::<char>::empty() + lits.drop_first().flatten() =~= lits.first()
            + lits.drop_first().flatten());
        assert(lits.flatten() == lits.first() + lits.drop_first().flatten());
    }
}

/// Literal preservation: with every replacement empty, the output is
/// exactly the concatenation of the literal (non-token) spans of the
/// template, in the order they stand in the template.
pub proof fn lemma_literal_preservation(s: Seq<char>, reps: Seq<Seq<char>>)
    requires
        reps.len() == idents_from(s, 0).len(),
        forall|k: int| 0 <= k < reps.len() ==> #[trigger] reps[k] == Seq::<char>::empty(),
    ensures
        subst_from(s, 0, reps) == lit_parts(s, 0).flatten(),
{
    lemma_output_shape(s, 0, reps);
    lemma_lit_parts_len(s, 0);
    lemma_weave_empties(lit_parts(s, 0), reps);
}

/// Token-free text substitutes to itself, whatever the replacements.
proof fn lemma_no_tokens_subst(s: Seq<char>, i: int, reps: Seq<Seq<char>>)
    requires
        0 <= i <= s.len(),
        forall|j: int| !(#[trigger] has_token_at(s, j)),
    ensures
        subst_from(s, i, reps) == s.skip(i),
        idents_from(s, i) == Seq::<Seq<char>>::empty(),
    decreases s.len() - i,
{
    if i < s.len() {
        lemma_no_tokens_subst(s, i + 1, reps);
        assert(subst_from(s, i, reps) =~= s.skip(i));
    } else {
        assert(s.skip(i) =~= Seq::<char>::empty());
    }
}

/// Identity on token-free text: where no token occurs in the template,
/// every possible substitution output equals the template itself, whatever
/// the mapping function answers.
pub proof fn lemma_identity_on_no_tokens<F: Fn(&str) -> String>(
    f: F,
    template: Seq<char>,
    result: Seq<char>,
)
    requires
        forall|j: int| !(#[trigger] has_token_at(template, j)),
        substitution_of(f, template, result),
    ensures
        result == template,
{
    let reps = choose|reps: Seq<Seq<char>>|
        #[trigger] valid_replacements(f, template, reps) && result == subst_from(template, 0, reps);
    lemma_no_tokens_subst(template, 0, reps);
    assert(template.skip(0) =~= template);
}

/// Independent resolution of repeats: any family of per-occurrence
/// answers — one entry per token occurrence, each chosen independently,
/// repeated identifiers included — yields a possible substitution output.
/// Nothing ties the answers at two occurrences of the same identifier to
/// one another.
pub proof fn lemma_independent_replacements<F: Fn(&str) -> String>(
    f: F,
    template: Seq<char>,
    reps: Seq<Seq<char>>,
)
    requires
        valid_replacements(f, template, reps),
    ensures
        substitution_of(f, template, subst_from(template, 0, reps)),
{
}

/// Every identifier the scan captures — and hence every string handed to
/// the mapping function — is a syntactically valid identifier.
pub proof fn lemma_idents_valid(s: Seq<char>, i: int)
    requires
        0 <= i <= s.len(),
    ensures
        forall|k: int|
            0 <= k < idents_from(s, i).len() ==> is_ident(#[trigger] idents_from(s, i)[k]),
    decreases s.len() - i,
{
    if i < s.len() {
        if has_token_at(s, i) {
            lemma_token_bounds(s, i);
            let e = token_end(s, i);
            lemma_idents_valid(s, e);
            assert forall|k: int|
                0 <= k < idents_from(s, i).len() implies is_ident(
                #[trigger] idents_from(s, i)[k],
            ) by {
                assert(idents_from(s, i) == seq![token_ident(s, i)] + idents_from(s, e));
                if k == 0 {
                    assert(idents_from(s, i)[0] == token_ident(s, i));
                } else {
                    assert(idents_from(s, i)[k] == idents_from(s, e)[k - 1]);
                }
            }
        } else {
            lemma_idents_valid(s, i + 1);
            assert(idents_from(s, i) == idents_from(s, i + 1));
        }
    }
}

} // verus!
