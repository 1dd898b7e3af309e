//! The token grammar: a placeholder is the literal `%{{`, followed by an
//! identifier (`[A-Za-z_][A-Za-z0-9_]*`), followed by the literal `}}`.
//! Scanning is left to right and non-overlapping; the identifier run is
//! maximal, so a candidate that is not followed immediately by `}}` is not
//! a token at all.

use vstd::prelude::*;

verus! {

/// A word character: ASCII letter, digit, or underscore.
pub open spec fn is_word_char(c: char) -> bool {
    ||| 'a' as u32 <= c as u32 <= 'z' as u32
    ||| 'A' as u32 <= c as u32 <= 'Z' as u32
    ||| '0' as u32 <= c as u32 <= '9' as u32
    ||| c == '_'
}

/// A character that may start an identifier: ASCII letter or underscore.
pub open spec fn is_ident_start_char(c: char) -> bool {
    ||| 'a' as u32 <= c as u32 <= 'z' as u32
    ||| 'A' as u32 <= c as u32 <= 'Z' as u32
    ||| c == '_'
}

/// A syntactically valid identifier: non-empty, first character a letter or
/// underscore, every character a word character.
pub open spec fn is_ident(s: Seq<char>) -> bool {
    &&& s.len() >= 1
    &&& is_ident_start_char(s[0])
    &&& forall|k: int| 0 <= k < s.len() ==> is_word_char(#[trigger] s[k])
}

/// The end of the maximal run of word characters that starts at position `i`.
pub open spec fn ident_run_end(s: Seq<char>, i: int) -> int
    decreases s.len() - i,
{
    if 0 <= i < s.len() && is_word_char(s[i]) {
        ident_run_end(s, i + 1)
    } else {
        i
    }
}

/// The defining properties of `ident_run_end`: it does not move backwards,
/// stays within the text, covers word characters only, and is maximal.
pub proof fn lemma_ident_run_end(s: Seq<char>, i: int)
    requires
        0 <= i <= s.len(),
    ensures
        i <= ident_run_end(s, i) <= s.len(),
        forall|j: int| i <= j < ident_run_end(s, i) ==> is_word_char(#[trigger] s[j]),
        ident_run_end(s, i) == s.len() || !is_word_char(s[ident_run_end(s, i)]),
    decreases s.len() - i,
{
    if 0 <= i < s.len() && is_word_char(s[i]) {
        lemma_ident_run_end(s, i + 1);
    }
}

/// Whether a token begins at position `i` of `s`.
pub open spec fn has_token_at(s: Seq<char>, i: int) -> bool {
    &&& 0 <= i
    &&& i + 6 <= s.len()
    &&& s[i] == '%'
    &&& s[i + 1] == '{'
    &&& s[i + 2] == '{'
    &&& is_ident_start_char(s[i + 3])
    &&& ident_run_end(s, i + 3) + 2 <= s.len()
    &&& s[ident_run_end(s, i + 3)] == '}'
    &&& s[ident_run_end(s, i + 3) + 1] == '}'
}

/// The position just past the token that begins at `i`.
pub open spec fn token_end(s: Seq<char>, i: int) -> int {
    ident_run_end(s, i + 3) + 2
}

/// The identifier captured by the token that begins at `i`.
pub open spec fn token_ident(s: Seq<char>, i: int) -> Seq<char> {
    s.subrange(i + 3, ident_run_end(s, i + 3))
}

/// Basic bounds of a token, and validity of its identifier.
pub proof fn lemma_token_bounds(s: Seq<char>, i: int)
    requires
        has_token_at(s, i),
    ensures
        i + 6 <= token_end(s, i) <= s.len(),
        is_ident(token_ident(s, i)),
{
    lemma_ident_run_end(s, i + 3);
    assert(is_word_char(s[i + 3]));
    assert(ident_run_end(s, i + 3) == ident_run_end(s, i + 4));
}

/// Decides whether a word character stands at position `i`.
fn is_word_char_at(s: &str, i: usize) -> (b: bool)
    requires
        i < s@.len(),
    ensures
        b == is_word_char(s@[i as int]),
{
    let c = s.get_char(i);
    let u: u32 = c as u32;
    (97 <= u && u <= 122) || (65 <= u && u <= 90) || (48 <= u && u <= 57) || c == '_'
}

/// Decides whether an identifier-start character stands at position `i`.
fn is_ident_start_char_at(s: &str, i: usize) -> (b: bool)
    requires
        i < s@.len(),
    ensures
        b == is_ident_start_char(s@[i as int]),
{
    let c = s.get_char(i);
    let u: u32 = c as u32;
    (97 <= u && u <= 122) || (65 <= u && u <= 90) || c == '_'
}

/// Looks for a token beginning at position `i` and returns the position just
/// past it, or `None` where no token begins at `i`.
pub fn token_end_at(s: &str, i: usize, n: usize) -> (r: Option<usize>)
    requires
        n == s@.len(),
        i < n,
    ensures
        match r {
            Some(e) => has_token_at(s@, i as int) && e == token_end(s@, i as int),
            None => !has_token_at(s@, i as int),
        },
{
    if n - i < 6 {
        return None;
    }
    if s.get_char(i) != '%' || s.get_char(i + 1) != '{' || s.get_char(i + 2) != '{' {
        return None;
    }
    if !is_ident_start_char_at(s, i + 3) {
        return None;
    }
    let mut j: usize = i + 4;
    proof {
        assert(is_word_char(s@[i + 3]));
    }
    while j < n && is_word_char_at(s, j)
        invariant
            n == s@.len(),
            i + 4 <= j <= n,
            ident_run_end(s@, i + 3) == ident_run_end(s@, j as int),
        decreases n - j,
    {
        proof {
            assert(ident_run_end(s@, j as int) == ident_run_end(s@, j + 1));
        }
        j = j + 1;
    }
    proof {
        assert(ident_run_end(s@, j as int) == j);
    }
    if n - j >= 2 && s.get_char(j) == '}' && s.get_char(j + 1) == '}' {
        Some(j + 2)
    } else {
        None
    }
}

} // verus!
