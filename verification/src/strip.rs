//! Delimiter stripping: the normalization that turns a matched token span
//! into the identifier handed to the mapping function. It deletes every
//! `%`, `{` and `}` character and trims surrounding whitespace — it
//! does not re-check the structure of the span.

use vstd::prelude::*;

use crate::token::{
    has_token_at, is_ident, is_word_char, lemma_ident_run_end, lemma_token_bounds, token_end,
    token_ident,
};
use crate::text::push_char;

verus! {

/// A delimiter character of the token syntax.
pub open spec fn is_delim_char(c: char) -> bool {
    c == '%' || c == '{' || c == '}'
}

/// A whitespace character, as trimmed by the stripping step: the Unicode
/// `White_Space` set, exactly the characters of `char::is_whitespace`.
pub open spec fn is_space_char(c: char) -> bool {
    ||| c == ' '
    ||| c == '\t'
    ||| c == '\n'
    ||| c == '\u{b}'
    ||| c == '\u{c}'
    ||| c == '\r'
    ||| c == '\u{85}'
    ||| c == '\u{a0}'
    ||| c == '\u{1680}'
    ||| '\u{2000}' as u32 <= c as u32 <= '\u{200a}' as u32
    ||| c == '\u{2028}'
    ||| c == '\u{2029}'
    ||| c == '\u{202f}'
    ||| c == '\u{205f}'
    ||| c == '\u{3000}'
}

/// The text with every delimiter character deleted.
pub open spec fn remove_delims(s: Seq<char>) -> Seq<char>
    decreases s.len(),
{
    if s.len() == 0 {
        s
    } else {
        remove_delims(s.drop_last()) + if is_delim_char(s.last()) {
            Seq::<char>::empty()
        } else {
            seq![s.last()]
        }
    }
}

/// The text with leading whitespace removed.
pub open spec fn trim_front(s: Seq<char>) -> Seq<char>
    decreases s.len(),
{
    if s.len() > 0 && is_space_char(s.first()) {
        trim_front(s.drop_first())
    } else {
        s
    }
}

/// The text with trailing whitespace removed.
pub open spec fn trim_back(s: Seq<char>) -> Seq<char>
    decreases s.len(),
{
    if s.len() > 0 && is_space_char(s.last()) {
        trim_back(s.drop_last())
    } else {
        s
    }
}

/// The text with surrounding whitespace removed.
pub open spec fn trimmed(s: Seq<char>) -> Seq<char> {
    trim_back(trim_front(s))
}

/// Deleting delimiters distributes over concatenation.
pub proof fn lemma_remove_delims_concat(a: Seq<char>, b: Seq<char>)
    ensures
        remove_delims(a + b) == remove_delims(a) + remove_delims(b),
    decreases b.len(),
{
    if b.len() == 0 {
        assert(a + b =~= a);
        assert(remove_delims(a) + remove_delims(b) =~= remove_delims(a));
    } else {
        lemma_remove_delims_concat(a, b.drop_last());
        assert((a + b).drop_last() =~= a + b.drop_last());
        assert((a + b).last() == b.last());
        assert(remove_delims(a) + remove_delims(b) =~= remove_delims(a) + remove_delims(
            b.drop_last(),
        ) + if is_delim_char(b.last()) {
            Seq::<char>::empty()
        } else {
            seq![b.last()]
        });
    }
}

/// A text of delimiter characters only is deleted entirely.
pub proof fn lemma_remove_delims_all(s: Seq<char>)
    requires
        forall|j: int| 0 <= j < s.len() ==> is_delim_char(#[trigger] s[j]),
    ensures
        remove_delims(s) == Seq::<char>::empty(),
    decreases s.len(),
{
    if s.len() > 0 {
        lemma_remove_delims_all(s.drop_last());
        assert(remove_delims(s) =~= Seq::<char>::empty());
    }
}

/// A text without delimiter characters is kept whole.
pub proof fn lemma_remove_delims_none(s: Seq<char>)
    requires
        forall|j: int| 0 <= j < s.len() ==> !is_delim_char(#[trigger] s[j]),
    ensures
        remove_delims(s) == s,
    decreases s.len(),
{
    if s.len() > 0 {
        lemma_remove_delims_none(s.drop_last());
        assert(remove_delims(s) =~= s);
    }
}

/// A text without surrounding whitespace is kept whole by trimming.
pub proof fn lemma_trimmed_plain(s: Seq<char>)
    requires
        s.len() > 0 ==> !is_space_char(s.first()),
        s.len() > 0 ==> !is_space_char(s.last()),
    ensures
        trimmed(s) == s,
{
    assert(trim_front(s) == s);
    assert(trim_back(s) == s);
}

/// A word character is neither a delimiter nor whitespace.
pub proof fn lemma_word_char_plain(c: char)
    requires
        is_word_char(c),
    ensures
        !is_delim_char(c),
        !is_space_char(c),
{
}

/// Stripping a matched token span yields exactly the captured identifier:
/// the permissive normalization and the strict capture agree on every token.
pub proof fn lemma_token_strip(s: Seq<char>, i: int)
    requires
        has_token_at(s, i),
    ensures
        trimmed(remove_delims(s.subrange(i, token_end(s, i)))) == token_ident(s, i),
        is_ident(token_ident(s, i)),
{
    lemma_token_bounds(s, i);
    lemma_ident_run_end(s, i + 3);
    let e = ident_run_end_of(s, i);
    let open = s.subrange(i, i + 3);
    let id = token_ident(s, i);
    let close = s.subrange(e, e + 2);
    assert(s.subrange(i, token_end(s, i)) =~= open + id + close);
    lemma_remove_delims_concat(open + id, close);
    lemma_remove_delims_concat(open, id);
    assert(forall|j: int| 0 <= j < open.len() ==> is_delim_char(#[trigger] open[j]));
    lemma_remove_delims_all(open);
    assert(forall|j: int| 0 <= j < close.len() ==> is_delim_char(#[trigger] close[j]));
    lemma_remove_delims_all(close);
    assert forall|j: int| 0 <= j < id.len() implies !is_delim_char(#[trigger] id[j]) by {
        lemma_word_char_plain(id[j]);
    }
    lemma_remove_delims_none(id);
    assert(remove_delims(s.subrange(i, token_end(s, i))) =~= id);
    lemma_word_char_plain(id.first());
    lemma_word_char_plain(id.last());
    lemma_trimmed_plain(id);
}

/// A private shorthand for the end of the identifier run of the token at `i`.
spec fn ident_run_end_of(s: Seq<char>, i: int) -> int {
    crate::token::ident_run_end(s, i + 3)
}

/// Decides whether a character is whitespace (the Unicode `White_Space`
/// set, exactly the characters of `char::is_whitespace`).
fn is_space_char_x(c: char) -> (b: bool)
    ensures
        b == is_space_char(c),
{
    let u: u32 = c as u32;
    (u == 0x20 || u == 0x9 || u == 0xa || u == 0xb || u == 0xc || u == 0xd) || (u == 0x85 || u
        == 0xa0 || u == 0x1680) || (0x2000 <= u && u <= 0x200a) || (u == 0x2028 || u == 0x2029 || u
        == 0x202f || u == 0x205f || u == 0x3000)
}

/// Strips the token delimiters from a piece of text: deletes every `%`,
/// `{` and `}` character and trims surrounding whitespace, as `char::is_whitespace` has it.
pub fn remove_var_delimiters(raw_variable: &str) -> (result: String)
    ensures
        result@ == trimmed(remove_delims(raw_variable@)),
{
    let ghost s = raw_variable@;
    let n: usize = raw_variable.unicode_len();
    let mut kept: Vec<char> = Vec::new();
    let mut i: usize = 0;
    while i < n
        invariant
            n == s.len(),
            s == raw_variable@,
            i <= n,
            kept@ == remove_delims(s.take(i as int)),
        decreases n - i,
    {
        let c = raw_variable.get_char(i);
        proof {
            assert(s.take(i + 1).drop_last() =~= s.take(i as int));
        }
        if !(c == '%' || c == '{' || c == '}') {
            kept.push(c);
        }
        proof {
            assert(kept@ =~= remove_delims(s.take(i + 1)));
        }
        i = i + 1;
    }
    proof {
        assert(s.take(n as int) =~= s);
    }
    let m: usize = kept.len();
    proof {
        assert(kept@.skip(0) =~= kept@);
    }
    let mut lo: usize = 0;
    while lo < m && is_space_char_x(kept[lo])
        invariant
            m == kept@.len(),
            lo <= m,
            trim_front(kept@) == trim_front(kept@.skip(lo as int)),
        decreases m - lo,
    {
        proof {
            assert(kept@.skip(lo as int).drop_first() =~= kept@.skip(lo + 1));
        }
        lo = lo + 1;
    }
    proof {
        assert(trim_front(kept@) == kept@.skip(lo as int));
        assert(kept@.skip(lo as int) =~= kept@.subrange(lo as int, m as int));
    }
    let mut hi: usize = m;
    while hi > lo && is_space_char_x(kept[hi - 1])
        invariant
            m == kept@.len(),
            lo <= hi <= m,
            trim_back(kept@.subrange(lo as int, m as int)) == trim_back(
                kept@.subrange(lo as int, hi as int),
            ),
        decreases hi,
    {
        proof {
            assert(kept@.subrange(lo as int, hi as int).drop_last() =~= kept@.subrange(
                lo as int,
                hi - 1,
            ));
        }
        hi = hi - 1;
    }
    proof {
        assert(trim_back(kept@.subrange(lo as int, hi as int)) == kept@.subrange(
            lo as int,
            hi as int,
        ));
        assert(trimmed(kept@) == kept@.subrange(lo as int, hi as int));
    }
    let mut result = String::new();
    let mut k: usize = lo;
    while k < hi
        invariant
            m == kept@.len(),
            lo <= k <= hi <= m,
            result@ == kept@.subrange(lo as int, k as int),
        decreases hi - k,
    {
        push_char(&mut result, kept[k]);
        proof {
            assert(result@ =~= kept@.subrange(lo as int, k + 1));
        }
        k = k + 1;
    }
    result
}

} // verus!
