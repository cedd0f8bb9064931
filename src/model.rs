use vstd::prelude::*;

use crate::token::{is_alnum, is_alpha, is_digit, spells, ScanError, Token};

verus! {

pub open spec fn is_space(c: char) -> bool {
    c == ' ' || c == '\t' || c == '\r'
}

/// The character at offset `i` of `s`, or none outside it.
pub open spec fn char_at(s: Seq<char>, i: int) -> Option<char> {
    if 0 <= i < s.len() {
        Some(s[i])
    } else {
        None
    }
}

/// First offset at or after `i` that does not hold a space, tab or carriage return.
pub open spec fn skip_spaces(s: Seq<char>, i: int) -> int
    decreases s.len() - i,
{
    if 0 <= i < s.len() && is_space(s[i]) {
        skip_spaces(s, i + 1)
    } else {
        i
    }
}

/// First offset at or after `i` that holds a newline, or the end of input.
pub open spec fn line_end(s: Seq<char>, i: int) -> int
    decreases s.len() - i,
{
    if 0 <= i < s.len() && s[i] != '\n' {
        line_end(s, i + 1)
    } else {
        i
    }
}

/// Where scanning goes on after a comment that may start at `i`.
pub open spec fn skip_comment(s: Seq<char>, i: int) -> int {
    if 0 <= i < s.len() && s[i] == '#' {
        line_end(s, i)
    } else {
        i
    }
}

/// Offset of the first character of the token scanned from cursor `i`.
pub open spec fn token_start(s: Seq<char>, i: int) -> int {
    skip_comment(s, skip_spaces(s, i))
}

/// Last offset of the run of digits that follows offset `i`.
pub open spec fn digits_last(s: Seq<char>, i: int) -> int
    decreases s.len() - i,
{
    if 0 <= i && i + 1 < s.len() && is_digit(s[i + 1]) {
        digits_last(s, i + 1)
    } else {
        i
    }
}

/// Last offset of the run of letters and digits that follows offset `i`.
pub open spec fn word_last(s: Seq<char>, i: int) -> int
    decreases s.len() - i,
{
    if 0 <= i && i + 1 < s.len() && is_alnum(s[i + 1]) {
        word_last(s, i + 1)
    } else {
        i
    }
}

/// Last offset before the next double quote after offset `i`, or the last offset.
pub open spec fn quote_last(s: Seq<char>, i: int) -> int
    decreases s.len() - i,
{
    if 0 <= i && i + 1 < s.len() && s[i + 1] != '"' {
        quote_last(s, i + 1)
    } else {
        i
    }
}

/// The character at `i` is a digit.
pub open spec fn digit_at(s: Seq<char>, i: int) -> bool {
    0 <= i < s.len() && is_digit(s[i])
}

/// A number at `q` has a decimal point right after its integer digits.
pub open spec fn has_point(s: Seq<char>, q: int) -> bool {
    char_at(s, digits_last(s, q) + 1) == Some('.')
}

/// Where the cursor rests after scanning the token that starts at `q`: on its
/// last character, on the character where an error was found, or at the end of
/// input for the end-of-input marker.
pub open spec fn scan_last(s: Seq<char>, q: int) -> int {
    if q < 0 || q >= s.len() {
        s.len() as int
    } else {
        let c = s[q];
        if c == '=' || c == '>' || c == '<' || c == '!' {
            if char_at(s, q + 1) == Some('=') {
                q + 1
            } else {
                q
            }
        } else if is_digit(c) {
            let d = digits_last(s, q);
            if !has_point(s, q) {
                d
            } else if digit_at(s, d + 2) {
                digits_last(s, d + 2)
            } else {
                d + 1
            }
        } else if is_alpha(c) {
            word_last(s, q)
        } else if c == '"' {
            let e = quote_last(s, q);
            if e + 1 < s.len() {
                e + 1
            } else {
                e
            }
        } else {
            q
        }
    }
}

/// The error met when scanning the token that starts at `q`, if any.
pub open spec fn scan_error(s: Seq<char>, q: int) -> Option<ScanError> {
    if q < 0 || q >= s.len() {
        None
    } else {
        let c = s[q];
        if c == '!' {
            if char_at(s, q + 1) == Some('=') {
                None
            } else {
                Some(ScanError::UnexpectedCharacter('!'))
            }
        } else if is_digit(c) {
            if has_point(s, q) && !digit_at(s, digits_last(s, q) + 2) {
                Some(ScanError::MalformedNumber)
            } else {
                None
            }
        } else if is_alpha(c) {
            None
        } else if c == '"' {
            if quote_last(s, q) + 1 < s.len() {
                None
            } else {
                Some(ScanError::UnterminatedString)
            }
        } else if c == '+' || c == '-' || c == '*' || c == '/' || c == '=' || c == '>' || c == '<'
            || c == '\n' {
            None
        } else {
            Some(ScanError::UnexpectedCharacter(c))
        }
    }
}

/// The source text of the token that starts at `q` (empty at the end of input).
pub open spec fn token_text(s: Seq<char>, q: int) -> Seq<char> {
    if q < 0 || q >= s.len() {
        Seq::empty()
    } else {
        s.subrange(q, scan_last(s, q) + 1)
    }
}

/// The run skipped from `i` holds only spaces, tabs and carriage returns, and stops at a
/// character that is none of them or at the end of input.
pub proof fn lemma_skip_spaces(s: Seq<char>, i: int)
    requires
        0 <= i <= s.len(),
    ensures
        i <= skip_spaces(s, i) <= s.len(),
        forall|j: int| i <= j < skip_spaces(s, i) ==> is_space(#[trigger] s[j]),
        skip_spaces(s, i) < s.len() ==> !is_space(s[skip_spaces(s, i)]),
    decreases s.len() - i,
{
    if i < s.len() && is_space(s[i]) {
        lemma_skip_spaces(s, i + 1);
    }
}

/// The run from `i` to the end of its line holds no newline.
pub proof fn lemma_line_end(s: Seq<char>, i: int)
    requires
        0 <= i <= s.len(),
    ensures
        i <= line_end(s, i) <= s.len(),
        forall|j: int| i <= j < line_end(s, i) ==> #[trigger] s[j] != '\n',
        line_end(s, i) < s.len() ==> s[line_end(s, i)] == '\n',
    decreases s.len() - i,
{
    if i < s.len() && s[i] != '\n' {
        lemma_line_end(s, i + 1);
    }
}

/// The digit run after `i` stays within the input and is maximal.
pub proof fn lemma_digits_last(s: Seq<char>, i: int)
    requires
        0 <= i < s.len(),
    ensures
        i <= digits_last(s, i) < s.len(),
        forall|j: int| i < j <= digits_last(s, i) ==> is_digit(#[trigger] s[j]),
        !digit_at(s, digits_last(s, i) + 1),
    decreases s.len() - i,
{
    if i + 1 < s.len() && is_digit(s[i + 1]) {
        lemma_digits_last(s, i + 1);
    }
}

/// The run of letters and digits after `i` stays within the input and is maximal.
pub proof fn lemma_word_last(s: Seq<char>, i: int)
    requires
        0 <= i < s.len(),
    ensures
        i <= word_last(s, i) < s.len(),
        forall|j: int| i < j <= word_last(s, i) ==> is_alnum(#[trigger] s[j]),
        word_last(s, i) + 1 < s.len() ==> !is_alnum(s[word_last(s, i) + 1]),
    decreases s.len() - i,
{
    if i + 1 < s.len() && is_alnum(s[i + 1]) {
        lemma_word_last(s, i + 1);
    }
}

/// The run after `i` holds no double quote and stops before one or at the last character.
pub proof fn lemma_quote_last(s: Seq<char>, i: int)
    requires
        0 <= i < s.len(),
    ensures
        i <= quote_last(s, i) < s.len(),
        forall|j: int| i < j <= quote_last(s, i) ==> #[trigger] s[j] != '"',
        quote_last(s, i) + 1 < s.len() ==> s[quote_last(s, i) + 1] == '"',
    decreases s.len() - i,
{
    if i + 1 < s.len() && s[i + 1] != '"' {
        lemma_quote_last(s, i + 1);
    }
}

/// The token start lies between the cursor and the end of input, and a token
/// that starts before the end ends before it.
pub proof fn lemma_scan_bounds(s: Seq<char>, i: int)
    requires
        0 <= i <= s.len(),
    ensures
        i <= token_start(s, i) <= s.len(),
        token_start(s, i) < s.len() ==> token_start(s, i) <= scan_last(s, token_start(s, i))
            < s.len(),
        token_start(s, i) == s.len() ==> scan_last(s, token_start(s, i)) == s.len(),
{
    lemma_skip_spaces(s, i);
    let p = skip_spaces(s, i);
    if p < s.len() && s[p] == '#' {
        lemma_line_end(s, p);
    }
    let q = token_start(s, i);
    if q < s.len() {
        let c = s[q];
        if is_digit(c) {
            lemma_digits_last(s, q);
            let d = digits_last(s, q);
            if has_point(s, q) && digit_at(s, d + 2) {
                lemma_digits_last(s, d + 2);
            }
        } else if is_alpha(c) {
            lemma_word_last(s, q);
        } else if c == '"' {
            lemma_quote_last(s, q);
        }
    }
}

} // verus!

verus! {

/// `r` is what scanning from cursor `i` yields: the error found at the token
/// start, if any, and otherwise a token that its source text spells.
pub open spec fn scanned(s: Seq<char>, i: int, r: Result<Token, ScanError>) -> bool {
    let q = token_start(s, i);
    &&& r is Err <==> scan_error(s, q) is Some
    &&& r is Err ==> scan_error(s, q) == Some(r->Err_0)
    &&& r is Ok ==> spells(r->Ok_0, token_text(s, q))
}

} // verus!
