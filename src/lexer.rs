use vstd::prelude::*;
use vstd::string::*;

use crate::keyword::Keyword;
use crate::model::{
    char_at, digit_at, digits_last, lemma_digits_last, lemma_quote_last, lemma_scan_bounds,
    lemma_word_last, line_end, quote_last, scan_error, scan_last, scanned, skip_comment,
    skip_spaces, token_start, token_text, word_last,
};
use crate::token::{is_alnum, is_alpha, is_digit, spells, ScanError, Token};

verus! {

/// A scanner that owns its input and a cursor into it.
pub struct Lexer {
    input: String,
    len: usize,
    cur_char: Option<char>,
    cur_pos: usize,
}

impl Lexer {
    /// The characters of the input.
    pub closed spec fn chars(&self) -> Seq<char> {
        self.input@
    }

    /// The cursor offset, counted in characters.
    pub closed spec fn pos(&self) -> int {
        self.cur_pos as int
    }

    /// The cached length and character agree with the input and the cursor,
    /// and the cursor lies within the input or just past its end.
    pub closed spec fn wf(&self) -> bool {
        &&& self.len == self.input@.len()
        &&& self.cur_pos <= self.len
        &&& self.cur_char == char_at(self.input@, self.cur_pos as int)
    }

    /// A scanner over a copy of `input`, with the cursor on its first character.
    pub fn new(input: &String) -> (r: Lexer)
        ensures
            r.wf(),
            r.chars() == input@,
            r.pos() == 0,
    {
        let len = input.as_str().unicode_len();
        let mut lexer = Lexer { input: input.clone(), len, cur_char: None, cur_pos: 0 };
        lexer.cur_char = lexer.char_at(0);
        lexer
    }

    fn char_at(&self, i: usize) -> (r: Option<char>)
        requires
            self.len == self.input@.len(),
        ensures
            r == char_at(self.input@, i as int),
    {
        if i < self.len {
            Some(self.input.as_str().get_char(i))
        } else {
            None
        }
    }

    /// The character under the cursor, or none at the end of input.
    pub fn cur_char(&self) -> (r: Option<char>)
        requires
            self.wf(),
        ensures
            r == char_at(self.chars(), self.pos()),
    {
        self.cur_char
    }

    /// Moves the cursor one character on; at the end of input it stays there.
    pub fn next_char(&mut self)
        requires
            old(self).wf(),
        ensures
            final(self).wf(),
            final(self).chars() == old(self).chars(),
            final(self).pos() == if old(self).pos() < old(self).chars().len() {
                old(self).pos() + 1
            } else {
                old(self).pos()
            },
            old(self).pos() == old(self).chars().len() ==> *final(self) == *old(self),
    {
        if self.cur_pos < self.len {
            self.cur_pos = self.cur_pos + 1;
        }
        self.cur_char = self.char_at(self.cur_pos);
    }

    /// The character after the cursor, or none if there is none.
    pub fn peek(&self) -> (r: Option<char>)
        requires
            self.wf(),
        ensures
            r == char_at(self.chars(), self.pos() + 1),
    {
        if self.cur_pos < self.len {
            self.char_at(self.cur_pos + 1)
        } else {
            None
        }
    }

    fn peek_is(&self, c: char) -> (r: bool)
        requires
            self.wf(),
        ensures
            r == (char_at(self.chars(), self.pos() + 1) == Some(c)),
    {
        match self.peek() {
            Some(d) => d == c,
            None => false,
        }
    }

    fn peek_is_digit(&self) -> (r: bool)
        requires
            self.wf(),
        ensures
            r == digit_at(self.chars(), self.pos() + 1),
    {
        match self.peek() {
            Some(d) => '0' <= d && d <= '9',
            None => false,
        }
    }

    fn peek_is_alnum(&self) -> (r: bool)
        requires
            self.wf(),
        ensures
            r == (self.pos() + 1 < self.chars().len() && is_alnum(self.chars()[self.pos() + 1])),
    {
        match self.peek() {
            Some(d) => ('a' <= d && d <= 'z') || ('A' <= d && d <= 'Z') || ('0' <= d && d <= '9'),
            None => false,
        }
    }

    /// The characters from `from` up to, not including, `to`.
    fn text(&self, from: usize, to: usize) -> (r: String)
        requires
            self.wf(),
            from <= to <= self.chars().len(),
        ensures
            r@ == self.chars().subrange(from as int, to as int),
    {
        self.input.as_str().substring_char(from, to).to_owned()
    }

    fn skip_whitespace(&mut self)
        requires
            old(self).wf(),
        ensures
            final(self).wf(),
            final(self).chars() == old(self).chars(),
            final(self).pos() == skip_spaces(old(self).chars(), old(self).pos()),
    {
        loop
            invariant
                self.wf(),
                self.chars() == old(self).chars(),
                skip_spaces(self.chars(), self.pos()) == skip_spaces(
                    old(self).chars(),
                    old(self).pos(),
                ),
            ensures
                self.wf(),
                self.chars() == old(self).chars(),
                self.pos() == skip_spaces(old(self).chars(), old(self).pos()),
            decreases self.len - self.cur_pos,
        {
            let c = self.cur_char;
            match c {
                Some(ch) => {
                    if !(ch == ' ' || ch == '\t' || ch == '\r') {
                        break;
                    }
                },
                None => {
                    break;
                },
            }
            self.next_char();
        }
    }

    fn skip_comment(&mut self)
        requires
            old(self).wf(),
        ensures
            final(self).wf(),
            final(self).chars() == old(self).chars(),
            final(self).pos() == skip_comment(old(self).chars(), old(self).pos()),
    {
        if self.cur_char == Some('#') {
            loop
                invariant
                    self.wf(),
                    self.chars() == old(self).chars(),
                    line_end(self.chars(), self.pos()) == line_end(
                        old(self).chars(),
                        old(self).pos(),
                    ),
                ensures
                    self.wf(),
                    self.chars() == old(self).chars(),
                    self.pos() == line_end(old(self).chars(), old(self).pos()),
                decreases self.len - self.cur_pos,
            {
                match self.cur_char {
                    Some(ch) => {
                        if ch == '\n' {
                            break;
                        }
                    },
                    None => {
                        break;
                    },
                }
                self.next_char();
            }
        }
    }
    /// Scans one token. Skips spaces, tabs and carriage returns, then at most
    /// one comment, then classifies the character under the cursor. The cursor
    /// is left on the last character of the token (at the end of input for
    /// the end-of-input marker), or where the error was found.
    pub fn get_token(&mut self) -> (r: Result<Token, ScanError>)
        requires
            old(self).wf(),
        ensures
            final(self).wf(),
            final(self).chars() == old(self).chars(),
            final(self).pos() == scan_last(
                old(self).chars(),
                token_start(old(self).chars(), old(self).pos()),
            ),
            scanned(old(self).chars(), old(self).pos(), r),
    {
        let ghost s = self.chars();
        proof {
            lemma_scan_bounds(s, self.pos());
        }
        self.skip_whitespace();
        self.skip_comment();
        let ghost q = self.pos();
        let c = match self.cur_char {
            Some(c) => c,
            None => {
                return Ok(Token::EOF);
            },
        };
        assert(s[q] == c);
        assert(s.subrange(q, q + 1) =~= seq![c]);
        if c == '+' {
            Ok(Token::PLUS)
        } else if c == '-' {
            Ok(Token::MINUS)
        } else if c == '*' {
            Ok(Token::ASTERISK)
        } else if c == '/' {
            Ok(Token::SLASH)
        } else if c == '\n' {
            Ok(Token::NEWLINE)
        } else if c == '=' || c == '>' || c == '<' || c == '!' {
            if self.peek_is('=') {
                self.next_char();
                assert(s.subrange(q, q + 2) =~= seq![c, '=']);
                if c == '=' {
                    Ok(Token::EQEQ)
                } else if c == '>' {
                    Ok(Token::GTEQ)
                } else if c == '<' {
                    Ok(Token::LTEQ)
                } else {
                    Ok(Token::NOTEQ)
                }
            } else {
                if c == '=' {
                    Ok(Token::EQ)
                } else if c == '>' {
                    Ok(Token::GT)
                } else if c == '<' {
                    Ok(Token::LT)
                } else {
                    Err(ScanError::UnexpectedCharacter('!'))
                }
            }
        } else if '0' <= c && c <= '9' {
            self.scan_number()
        } else if ('a' <= c && c <= 'z') || ('A' <= c && c <= 'Z') {
            self.scan_word()
        } else if c == '"' {
            self.scan_string()
        } else {
            Err(ScanError::UnexpectedCharacter(c))
        }
    }

    /// Scans a number whose first digit is under the cursor.
    fn scan_number(&mut self) -> (r: Result<Token, ScanError>)
        requires
            old(self).wf(),
            old(self).pos() < old(self).chars().len(),
            is_digit(old(self).chars()[old(self).pos()]),
        ensures
            final(self).wf(),
            final(self).chars() == old(self).chars(),
            final(self).pos() == scan_last(old(self).chars(), old(self).pos()),
            r is Err <==> scan_error(old(self).chars(), old(self).pos()) is Some,
            r is Err ==> scan_error(old(self).chars(), old(self).pos()) == Some(r->Err_0),
            r is Ok ==> spells(
                r->Ok_0,
                token_text(old(self).chars(), old(self).pos()),
            ),
    {
        let ghost s = self.chars();
        let ghost q = self.pos();
        let start = self.cur_pos;
        proof {
            lemma_digits_last(s, q);
        }
        while self.peek_is_digit()
            invariant
                self.wf(),
                self.chars() == s,
                q <= self.pos() < s.len(),
                start == q,
                digits_last(s, self.pos()) == digits_last(s, q),
            decreases self.len - self.cur_pos,
        {
            self.next_char();
        }
        let ghost d = self.pos();
        if self.peek_is('.') {
            self.next_char();
            if !self.peek_is_digit() {
                return Err(ScanError::MalformedNumber);
            }
            self.next_char();
            proof {
                lemma_digits_last(s, d + 2);
            }
            while self.peek_is_digit()
                invariant
                    self.wf(),
                    self.chars() == s,
                    d + 2 <= self.pos() < s.len(),
                    digits_last(s, self.pos()) == digits_last(s, d + 2),
                decreases self.len - self.cur_pos,
            {
                self.next_char();
            }
        }
        let text = self.text(start, self.cur_pos + 1);
        Ok(Token::NUMBER(text))
    }

    /// Scans an identifier or keyword whose first letter is under the cursor.
    fn scan_word(&mut self) -> (r: Result<Token, ScanError>)
        requires
            old(self).wf(),
            old(self).pos() < old(self).chars().len(),
            is_alpha(old(self).chars()[old(self).pos()]),
        ensures
            final(self).wf(),
            final(self).chars() == old(self).chars(),
            final(self).pos() == word_last(old(self).chars(), old(self).pos()),
            r is Ok,
            spells(
                r->Ok_0,
                old(self).chars().subrange(
                    old(self).pos(),
                    word_last(old(self).chars(), old(self).pos()) + 1,
                ),
            ),
    {
        let ghost s = self.chars();
        let ghost q = self.pos();
        let start = self.cur_pos;
        proof {
            lemma_word_last(s, q);
        }
        while self.peek_is_alnum()
            invariant
                self.wf(),
                self.chars() == s,
                q <= self.pos() < s.len(),
                start == q,
                word_last(s, self.pos()) == word_last(s, q),
            decreases self.len - self.cur_pos,
        {
            self.next_char();
        }
        let word = self.text(start, self.cur_pos + 1);
        match Keyword::from_string(&word) {
            Some(k) => Ok(Token::KEYWORD(k)),
            None => Ok(Token::IDENTIFIER(word)),
        }
    }

    /// Scans a string whose opening quote is under the cursor.
    fn scan_string(&mut self) -> (r: Result<Token, ScanError>)
        requires
            old(self).wf(),
            old(self).pos() < old(self).chars().len(),
            old(self).chars()[old(self).pos()] == '"',
        ensures
            final(self).wf(),
            final(self).chars() == old(self).chars(),
            final(self).pos() == scan_last(old(self).chars(), old(self).pos()),
            r is Err <==> scan_error(old(self).chars(), old(self).pos()) is Some,
            r is Err ==> scan_error(old(self).chars(), old(self).pos()) == Some(r->Err_0),
            r is Ok ==> spells(
                r->Ok_0,
                token_text(old(self).chars(), old(self).pos()),
            ),
    {
        let ghost s = self.chars();
        let ghost q = self.pos();
        let start = self.cur_pos;
        proof {
            lemma_quote_last(s, q);
        }
        while self.peek().is_some() && !self.peek_is('"')
            invariant
                self.wf(),
                self.chars() == s,
                q <= self.pos() < s.len(),
                start == q,
                quote_last(s, self.pos()) == quote_last(s, q),
            decreases self.len - self.cur_pos,
        {
            self.next_char();
        }
        if self.peek_is('"') {
            let text = self.text(start + 1, self.cur_pos + 1);
            self.next_char();
            assert(s.subrange(q, self.pos() + 1) =~= seq!['"'] + text@ + seq!['"']);
            Ok(Token::STRING(text))
        } else {
            Err(ScanError::UnterminatedString)
        }
    }
    /// Hands out the character under the cursor and moves past it; none at the
    /// end of input, where the cursor stays.
    pub fn next(&mut self) -> (r: Option<char>)
        requires
            old(self).wf(),
        ensures
            final(self).wf(),
            final(self).chars() == old(self).chars(),
            r == char_at(old(self).chars(), old(self).pos()),
            final(self).pos() == if old(self).pos() < old(self).chars().len() {
                old(self).pos() + 1
            } else {
                old(self).pos()
            },
    {
        let c = self.cur_char;
        self.next_char();
        c
    }

    /// One step of token iteration: while a character follows the cursor,
    /// scans a token and moves one character past where the scan stopped;
    /// once none follows, yields nothing and leaves the scanner as it is.
    /// The end-of-input marker is therefore only seen through `get_token`.
    pub fn next_result(&mut self) -> (r: Option<Result<Token, ScanError>>)
        requires
            old(self).wf(),
        ensures
            final(self).wf(),
            final(self).chars() == old(self).chars(),
            r is None <==> char_at(old(self).chars(), old(self).pos() + 1) is None,
            r is None ==> *final(self) == *old(self),
            r is Some ==> scanned(old(self).chars(), old(self).pos(), r->Some_0),
            r is Some ==> final(self).pos() == ({
                let e = scan_last(old(self).chars(), token_start(old(self).chars(), old(self).pos()));
                if e < old(self).chars().len() {
                    e + 1
                } else {
                    e
                }
            }),
    {
        if self.peek().is_none() {
            return None;
        }
        let r = self.get_token();
        self.next_char();
        Some(r)
    }
}

} // verus!
