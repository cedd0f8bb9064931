use vstd::prelude::*;

use crate::keyword::{ascii_lower, folds_to, keyword_of};
use crate::model::{
    char_at, digit_at, digits_last, has_point, is_space, lemma_digits_last, lemma_line_end,
    lemma_scan_bounds, lemma_skip_spaces, line_end, scan_error, scan_last, skip_spaces,
    token_start, token_text,
};
use crate::token::is_digit;

verus! {

/// `g` is what scanning skips before a token: spaces, tabs and carriage
/// returns, then at most one comment (a `#` and the rest of its line, the
/// newline excluded).
pub open spec fn is_layout(g: Seq<char>) -> bool {
    &&& !g.contains('\n')
    &&& forall|i: int|
        0 <= i < g.len() && !is_space(#[trigger] g[i]) ==> g.subrange(0, i + 1).contains('#')
}

/// From cursor `p` the input is a layout run, then (unless the input ends
/// there) the text of the next token, then, from the character after that
/// text, again such a split.
pub open spec fn splits(s: Seq<char>, p: int) -> bool
    decreases s.len() - p,
{
    let q = token_start(s, p);
    let e = scan_last(s, q) + 1;
    &&& is_layout(s.subrange(p, q))
    &&& (q < s.len() ==> {
        &&& p < e <= s.len()
        &&& s.subrange(p, s.len() as int) == s.subrange(p, q) + token_text(s, q) + s.subrange(e, s.len() as int)
        &&& splits(s, e)
    })
}

proof fn lemma_layout_before_token(s: Seq<char>, p: int)
    requires
        0 <= p <= s.len(),
    ensures
        is_layout(s.subrange(p, token_start(s, p))),
{
    lemma_skip_spaces(s, p);
    let sp = skip_spaces(s, p);
    let q = token_start(s, p);
    let g = s.subrange(p, q);
    if sp < s.len() && s[sp] == '#' {
        lemma_line_end(s, sp);
        assert(q == line_end(s, sp));
        assert forall|i: int| 0 <= i < g.len() && !is_space(#[trigger] g[i]) implies g.subrange(
            0,
            i + 1,
        ).contains('#') by {
            assert(p + i >= sp);
            assert(g.subrange(0, i + 1)[sp - p] == '#');
        }
    }
    assert(!g.contains('\n')) by {
        if g.contains('\n') {
            let i = choose|i: int| 0 <= i < g.len() && g[i] == '\n';
            assert(s[p + i] == '\n');
        }
    }
}

/// Scanning loses nothing but layout: from any cursor, the input is made of
/// layout runs and the texts of the tokens that successive scans (each
/// followed by one advance) read, in order, with no character left out or
/// read twice. Each text is spelled by the token that `get_token` returns
/// for it, whenever the scan does not end in an error.
pub proof fn lemma_lossless(s: Seq<char>, p: int)
    requires
        0 <= p <= s.len(),
    ensures
        splits(s, p),
    decreases s.len() - p,
{
    lemma_layout_before_token(s, p);
    lemma_scan_bounds(s, p);
    let q = token_start(s, p);
    if q < s.len() {
        let e = scan_last(s, q) + 1;
        lemma_lossless(s, e);
        assert(s.subrange(p, s.len() as int) =~= s.subrange(p, q) + token_text(s, q) + s.subrange(
            e,
            s.len() as int,
        ));
    }
}

/// Keywords are recognised whatever the letter case: two spellings that
/// differ only in the case of ASCII letters name the same keyword, or none.
pub proof fn lemma_keyword_ignores_case(a: Seq<char>, b: Seq<char>)
    requires
        a.len() == b.len(),
        forall|i: int| 0 <= i < a.len() ==> ascii_lower(a[i]) == ascii_lower(b[i]),
    ensures
        keyword_of(a) == keyword_of(b),
{
    assert forall|w: Seq<char>| folds_to(a, w) <==> folds_to(b, w) by {
        if folds_to(a, w) {
            assert forall|i: int| 0 <= i < b.len() implies ascii_lower(#[trigger] b[i])
                == w[i] as u32 by {
                assert(ascii_lower(a[i]) == w[i] as u32);
            }
        }
        if folds_to(b, w) {
            assert forall|i: int| 0 <= i < a.len() implies ascii_lower(#[trigger] a[i])
                == w[i] as u32 by {
                assert(ascii_lower(b[i]) == w[i] as u32);
            }
        }
    }
}

/// The first `k` characters of `t` are digits, and the rest is empty or a
/// point followed by digits.
pub open spec fn number_split(t: Seq<char>, k: int) -> bool {
    &&& 0 < k <= t.len()
    &&& forall|j: int| 0 <= j < k ==> is_digit(#[trigger] t[j])
    &&& k == t.len() || (t[k] == '.' && k + 1 < t.len() && forall|j: int|
        k < j < t.len() ==> is_digit(#[trigger] t[j]))
}

/// `t` is a run of digits, optionally followed by a point and another run of digits.
pub open spec fn is_number_text(t: Seq<char>) -> bool {
    exists|k: int| #[trigger] number_split(t, k)
}

/// A number is read whole: where a token starting at `q` begins with a digit
/// and scans without error, its text is digits with at most one decimal part,
/// and the character after it neither extends the digits nor starts a decimal
/// part that the text lacks.
pub proof fn lemma_number_text(s: Seq<char>, q: int)
    requires
        0 <= q < s.len(),
        is_digit(s[q]),
        scan_error(s, q) is None,
    ensures
        is_number_text(token_text(s, q)),
        !digit_at(s, q + token_text(s, q).len()),
        char_at(s, q + token_text(s, q).len()) == Some('.') ==> token_text(s, q).contains('.'),
{
    lemma_digits_last(s, q);
    let d = digits_last(s, q);
    let t = token_text(s, q);
    let k = d - q + 1;
    if has_point(s, q) {
        lemma_digits_last(s, d + 2);
        let e = digits_last(s, d + 2);
        assert(t.len() == e - q + 1);
        assert(forall|j: int| 0 <= j < k ==> #[trigger] t[j] == s[q + j]);
        assert(forall|j: int| 0 <= j < k ==> is_digit(#[trigger] t[j]));
        assert(t[k] == '.');
        assert forall|j: int| k < j < t.len() implies is_digit(#[trigger] t[j]) by {
            assert(t[j] == s[q + j]);
        }
        assert(t.subrange(k, k + 1)[0] == '.');
    } else {
        assert(t.len() == k);
        assert(forall|j: int| 0 <= j < k ==> #[trigger] t[j] == s[q + j]);
        assert(forall|j: int| 0 <= j < k ==> is_digit(#[trigger] t[j]));
    }
    assert(number_split(t, k));
}

} // verus!
