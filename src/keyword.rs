use vstd::prelude::*;
use vstd::string::*;

verus! {

/// The reserved words of the language.
#[derive(Debug, Clone, Copy, PartialEq, Eq, Structural)]
pub enum Keyword {
    IF,
    ENDIF,
    THEN,
    GOTO,
}

/// Code point of `c` with ASCII upper-case letters mapped to lower case.
pub open spec fn ascii_lower(c: char) -> u32 {
    if 'A' <= c && c <= 'Z' {
        (c as u32 + 32) as u32
    } else {
        c as u32
    }
}

/// `s` spells the lower-case word `w`, ignoring ASCII case.
pub open spec fn folds_to(s: Seq<char>, w: Seq<char>) -> bool {
    &&& s.len() == w.len()
    &&& forall|i: int| 0 <= i < s.len() ==> ascii_lower(#[trigger] s[i]) == w[i] as u32
}

/// The canonical (lower-case) spelling of a keyword.
pub open spec fn keyword_text(k: Keyword) -> Seq<char> {
    match k {
        Keyword::IF => seq!['i', 'f'],
        Keyword::ENDIF => seq!['e', 'n', 'd', 'i', 'f'],
        Keyword::THEN => seq!['t', 'h', 'e', 'n'],
        Keyword::GOTO => seq!['g', 'o', 't', 'o'],
    }
}

/// The keyword that `s` spells, if any, ignoring ASCII case.
pub open spec fn keyword_of(s: Seq<char>) -> Option<Keyword> {
    if folds_to(s, keyword_text(Keyword::IF)) {
        Some(Keyword::IF)
    } else if folds_to(s, keyword_text(Keyword::ENDIF)) {
        Some(Keyword::ENDIF)
    } else if folds_to(s, keyword_text(Keyword::THEN)) {
        Some(Keyword::THEN)
    } else if folds_to(s, keyword_text(Keyword::GOTO)) {
        Some(Keyword::GOTO)
    } else {
        None
    }
}

fn lower_code(c: char) -> (r: u32)
    ensures
        r == ascii_lower(c),
{
    if 'A' <= c && c <= 'Z' {
        c as u32 + 32
    } else {
        c as u32
    }
}

/// Compares `s` (of `n` characters) with the lower-case word `w`, ignoring ASCII case.
fn matches_word(s: &str, n: usize, w: &Vec<char>) -> (r: bool)
    requires
        n == s@.len(),
    ensures
        r == folds_to(s@, w@),
{
    if n != w.len() {
        return false;
    }
    let mut i: usize = 0;
    while i < n
        invariant
            n == s@.len(),
            n == w@.len(),
            i <= n,
            forall|j: int| 0 <= j < i ==> ascii_lower(#[trigger] s@[j]) == w@[j] as u32,
        decreases n - i,
    {
        let c = s.get_char(i);
        if lower_code(c) != w[i] as u32 {
            return false;
        }
        i = i + 1;
    }
    true
}

impl Keyword {
    /// Looks `name` up in the keyword table, ignoring ASCII case.
    pub fn from_string(name: &String) -> (r: Option<Keyword>)
        ensures
            r == keyword_of(name@),
    {
        let s = name.as_str();
        let n = s.unicode_len();
        if matches_word(s, n, &vec!['i', 'f']) {
            Some(Keyword::IF)
        } else if matches_word(s, n, &vec!['e', 'n', 'd', 'i', 'f']) {
            Some(Keyword::ENDIF)
        } else if matches_word(s, n, &vec!['t', 'h', 'e', 'n']) {
            Some(Keyword::THEN)
        } else if matches_word(s, n, &vec!['g', 'o', 't', 'o']) {
            Some(Keyword::GOTO)
        } else {
            None
        }
    }
}

} // verus!
