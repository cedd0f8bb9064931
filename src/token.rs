use vstd::prelude::*;

use crate::keyword::{keyword_of, Keyword};

verus! {

/// A classified unit of program text.
#[derive(Debug, PartialEq, Eq)]
pub enum Token {
    EOF,
    SLASH,
    NEWLINE,
    GT,
    GTEQ,
    LT,
    LTEQ,
    NOTEQ,
    EQ,
    EQEQ,
    PLUS,
    MINUS,
    ASTERISK,
    KEYWORD(Keyword),
    IDENTIFIER(String),
    NUMBER(String),
    STRING(String),
}

/// Why a token could not be scanned.
#[derive(Debug, Clone, Copy, PartialEq, Eq, Structural)]
pub enum ScanError {
    /// No closing double quote before the end of input.
    UnterminatedString,
    /// A decimal point not followed by a digit.
    MalformedNumber,
    /// A character that starts no token (a lone `!`, or a symbol outside the language).
    UnexpectedCharacter(char),
}

pub open spec fn is_digit(c: char) -> bool {
    '0' <= c && c <= '9'
}

pub open spec fn is_alpha(c: char) -> bool {
    ('a' <= c && c <= 'z') || ('A' <= c && c <= 'Z')
}

pub open spec fn is_alnum(c: char) -> bool {
    is_alpha(c) || is_digit(c)
}

/// `seg` is the source text of token `t`: the exact characters for operators,
/// numbers, identifiers and strings (quotes included), any letter case for a
/// keyword, and nothing for the end-of-input marker.
pub open spec fn spells(t: Token, seg: Seq<char>) -> bool {
    match t {
        Token::EOF => seg.len() == 0,
        Token::SLASH => seg == seq!['/'],
        Token::NEWLINE => seg == seq!['\n'],
        Token::GT => seg == seq!['>'],
        Token::GTEQ => seg == seq!['>', '='],
        Token::LT => seg == seq!['<'],
        Token::LTEQ => seg == seq!['<', '='],
        Token::NOTEQ => seg == seq!['!', '='],
        Token::EQ => seg == seq!['='],
        Token::EQEQ => seg == seq!['=', '='],
        Token::PLUS => seg == seq!['+'],
        Token::MINUS => seg == seq!['-'],
        Token::ASTERISK => seg == seq!['*'],
        Token::KEYWORD(k) => seg.len() > 0 && is_alpha(seg[0]) && keyword_of(seg) == Some(k),
        Token::IDENTIFIER(x) => x@ == seg && seg.len() > 0 && is_alpha(seg[0]) && keyword_of(seg)
            is None,
        Token::NUMBER(x) => x@ == seg && seg.len() > 0 && is_digit(seg[0]),
        Token::STRING(x) => seg == seq!['"'] + x@ + seq!['"'],
    }
}

} // verus!
