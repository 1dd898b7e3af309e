//! The substitution engine: scans the template left to right for tokens,
//! hands each captured identifier to the caller's mapping function, and
//! assembles the output from the literal spans and the replacement texts.

use vstd::prelude::*;

use crate::strip::{lemma_token_strip, remove_var_delimiters};
use crate::token::{
    has_token_at, is_ident, lemma_token_bounds, token_end, token_end_at, token_ident,
};

verus! {

/// The identifiers of the tokens of `s` from position `i` on, in scan order.
/// A position occupied by a token is consumed whole; every other position
/// contributes nothing here.
pub open spec fn idents_from(s: Seq<char>, i: int) -> Seq<Seq<char>>
    decreases s.len() - i
    via idents_from_decreases
{
    if !(0 <= i < s.len()) {
        Seq::empty()
    } else if has_token_at(s, i) {
        seq![token_ident(s, i)] + idents_from(s, token_end(s, i))
    } else {
        idents_from(s, i + 1)
    }
}

#[via_fn]
proof fn idents_from_decreases(s: Seq<char>, i: int) {
    if 0 <= i < s.len() && has_token_at(s, i) {
        lemma_token_bounds(s, i);
    }
}

/// The substitution of `s` from position `i` on, where the tokens take, in
/// scan order, the texts of `reps`: a literal character is copied, a token
/// is replaced by the next entry of `reps`, and nothing is re-scanned.
pub open spec fn subst_from(s: Seq<char>, i: int, reps: Seq<Seq<char>>) -> Seq<char>
    decreases s.len() - i
    via subst_from_decreases
{
    if !(0 <= i < s.len()) {
        Seq::empty()
    } else if has_token_at(s, i) {
        reps.first() + subst_from(s, token_end(s, i), reps.drop_first())
    } else {
        seq![s[i]] + subst_from(s, i + 1, reps)
    }
}

#[via_fn]
proof fn subst_from_decreases(s: Seq<char>, i: int, reps: Seq<Seq<char>>) {
    if 0 <= i < s.len() && has_token_at(s, i) {
        lemma_token_bounds(s, i);
    }
}

/// Whether `rep` is a possible answer of the mapping function `f` for the
/// identifier `ident`: some call of `f` on a string holding `ident` may
/// return a string holding `rep`.
pub open spec fn resolves_to<F: Fn(&str) -> String>(f: F, ident: Seq<char>, rep: Seq<char>) -> bool {
    exists|arg: &str, out: String|
        arg@ == ident && out@ == rep && #[trigger] call_ensures(f, (arg,), out)
}

/// Whether `reps` is a possible family of answers of `f` for the tokens of
/// `template`: one entry per token occurrence, in scan order, each an
/// answer for that occurrence's identifier on its own.
pub open spec fn valid_replacements<F: Fn(&str) -> String>(
    f: F,
    template: Seq<char>,
    reps: Seq<Seq<char>>,
) -> bool {
    &&& reps.len() == idents_from(template, 0).len()
    &&& forall|k: int|
        0 <= k < reps.len() ==> #[trigger] resolves_to(f, idents_from(template, 0)[k], reps[k])
}

/// Whether `result` is a possible output of substituting `template` with
/// the mapping function `f`.
pub open spec fn substitution_of<F: Fn(&str) -> String>(
    f: F,
    template: Seq<char>,
    result: Seq<char>,
) -> bool {
    exists|reps: Seq<Seq<char>>|
        #[trigger] valid_replacements(f, template, reps) && result == subst_from(template, 0, reps)
}

/// Replaces variables written `%{{variable}}` in `template_text`. The
/// mapping function `replacement_strategy` gives the value of each
/// variable; the delimiting characters `%`, `{` and `}`, and whitespace
/// around the variable name, are stripped before the name is passed to it.
/// It is called once per token occurrence, in scan order, on a valid
/// identifier each time, and its answers appear verbatim in the output;
/// every character outside a token is copied unchanged.
pub fn replace_variables<F: Fn(&str) -> String>(
    template_text: &str,
    replacement_strategy: F,
) -> (result: String)
    requires
        forall|v: &str| is_ident(v@) ==> #[trigger] call_requires(replacement_strategy, (v,)),
    ensures
        substitution_of(replacement_strategy, template_text@, result@),
{
    let ghost s = template_text@;
    let n: usize = template_text.unicode_len();
    let mut result = String::new();
    let mut i: usize = 0;
    let ghost mut ids: Seq<Seq<char>> = Seq::empty();
    let ghost mut reps: Seq<Seq<char>> = Seq::empty();
    proof {
        assert(Seq::<Seq<char>>::empty() + idents_from(s, 0) =~= idents_from(s, 0));
        assert forall|rest: Seq<Seq<char>>|
            #[trigger] subst_from(s, 0, Seq::<Seq<char>>::empty() + rest) == Seq::<char>::empty()
            + subst_from(s, 0, rest) by {
            assert(Seq::<Seq<char>>::empty() + rest =~= rest);
            assert(Seq::<char>::empty() + subst_from(s, 0, rest) =~= subst_from(s, 0, rest));
        }
    }
    while i < n
        invariant
            n == s.len(),
            s == template_text@,
            i <= n,
            forall|v: &str| is_ident(v@) ==> #[trigger] call_requires(replacement_strategy, (v,)),
            ids.len() == reps.len(),
            idents_from(s, 0) == ids + idents_from(s, i as int),
            forall|k: int|
                0 <= k < reps.len() ==> #[trigger] resolves_to(replacement_strategy, ids[k], reps[k]),
            forall|rest: Seq<Seq<char>>|
                subst_from(s, 0, reps + rest) == result@ + #[trigger] subst_from(s, i as int, rest),
        decreases n - i,
    {
        match token_end_at(template_text, i, n) {
            Some(e) => {
                proof {
                    lemma_token_bounds(s, i as int);
                }
                let span = template_text.substring_char(i, e);
                let ident = remove_var_delimiters(span);
                proof {
                    lemma_token_strip(s, i as int);
                    assert(ident@ == token_ident(s, i as int));
                    assert(is_ident(ident@));
                }
                let ident_str = ident.as_str();
                let rep = replacement_strategy(ident_str);
                let ghost out_before = result@;
                let ghost ids_before = ids;
                let ghost reps_before = reps;
                result.append(rep.as_str());
                proof {
                    let gi = i as int;
                    let ge = e as int;
                    let id = token_ident(s, gi);
                    assert(call_ensures(replacement_strategy, (ident_str,), rep));
                    assert(resolves_to(replacement_strategy, id, rep@));
                    ids = ids_before.push(id);
                    reps = reps_before.push(rep@);
                    assert(idents_from(s, gi) == seq![id] + idents_from(s, ge));
                    assert(ids_before + idents_from(s, gi) =~= ids + idents_from(s, ge));
                    assert forall|k: int|
                        0 <= k < reps.len() implies #[trigger] resolves_to(
                        replacement_strategy,
                        ids[k],
                        reps[k],
                    ) by {
                        if k < reps_before.len() {
                            assert(resolves_to(replacement_strategy, ids_before[k], reps_before[k]));
                        }
                    }
                    assert forall|rest: Seq<Seq<char>>|
                        subst_from(s, 0, reps + rest) == result@ + #[trigger] subst_from(
                        s,
                        ge,
                        rest,
                    ) by {
                        let rest1 = seq![rep@] + rest;
                        assert(subst_from(s, 0, reps_before + rest1) == out_before + subst_from(
                            s,
                            gi,
                            rest1,
                        ));
                        assert(rest1.drop_first() =~= rest);
                        assert(subst_from(s, gi, rest1) == rep@ + subst_from(s, ge, rest));
                        assert(reps + rest =~= reps_before + rest1);
                        assert(out_before + (rep@ + subst_from(s, ge, rest)) =~= (out_before + rep@)
                            + subst_from(s, ge, rest));
                    }
                }
                i = e;
            },
            None => {
                let c = template_text.get_char(i);
                let ghost out_before = result@;
                crate::text::push_char(&mut result, c);
                proof {
                    let gi = i as int;
                    assert(idents_from(s, gi) == idents_from(s, gi + 1));
                    assert forall|rest: Seq<Seq<char>>|
                        subst_from(s, 0, reps + rest) == result@ + #[trigger] subst_from(
                        s,
                        gi + 1,
                        rest,
                    ) by {
                        assert(subst_from(s, 0, reps + rest) == out_before + subst_from(
                            s,
                            gi,
                            rest,
                        ));
                        assert(subst_from(s, gi, rest) == seq![s[gi]] + subst_from(s, gi + 1, rest));
                        assert(out_before + (seq![s[gi]] + subst_from(s, gi + 1, rest)) =~= out_before.push(
                            s[gi],
                        ) + subst_from(s, gi + 1, rest));
                    }
                }
                i = i + 1;
            },
        }
    }
    proof {
        let erest = Seq::<Seq<char>>::empty();
        assert(idents_from(s, n as int) == Seq::<Seq<char>>::empty());
        assert(idents_from(s, 0) =~= ids);
        assert(subst_from(s, n as int, erest) == Seq::<char>::empty());
        assert(subst_from(s, 0, reps + erest) == result@ + Seq::<char>::empty());
        assert(reps + erest =~= reps);
        assert(result@ + Seq::<char>::empty() =~= result@);
        assert(valid_replacements(replacement_strategy, s, reps));
        assert(substitution_of(replacement_strategy, s, result@));
    }
    result
}

} // verus!
