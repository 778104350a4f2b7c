//! The tokenizer: a single pass over the bytes of the source, one token
//! per call.

pub mod scan;
pub mod token;

use vstd::prelude::*;
use vstd::string::StringSliceAdditionalSpecFns;
use crate::text::{bytes_as_chars, bytes_to_string, digits_value};
use scan::{
    is_digit_byte, is_space, is_word_byte, literal_value, numeral_end, skip_spaces, token_at,
    word_end,
};
use token::{keyword_or_ident, lookup_identifier, Token, TokenKind, TokenKindView};

verus! {

/// A tokenizer over the bytes of a source text. It owns a cursor and hands
/// out one token per call; it keeps no tokens.
pub struct Lexer<'s> {
    source: &'s [u8],
    pos: usize,
}

impl<'s> Lexer<'s> {
    /// The bytes that this tokenizer reads.
    pub closed spec fn source(&self) -> Seq<u8> {
        self.source@
    }

    /// The offset of the byte that is read next.
    pub closed spec fn position(&self) -> nat {
        self.pos as nat
    }

    /// A tokenizer at the start of `input`.
    pub fn new(input: &'s str) -> (lexer: Self)
        ensures
            lexer.source() == input.spec_bytes(),
            lexer.position() == 0,
    {
        Lexer { source: input.as_bytes(), pos: 0 }
    }

    /// Moves on by one byte, unless the end of the source is reached.
    fn read_char(&mut self)
        ensures
            final(self).source() == old(self).source(),
            final(self).position() == if old(self).position() < old(self).source().len() {
                old(self).position() + 1
            } else {
                old(self).position()
            },
    {
        if self.pos < self.source.len() {
            self.pos += 1;
        }
    }

    /// The byte under the cursor, if the source has one there.
    fn current_char(&self) -> (c: Option<u8>)
        ensures
            c == if self.position() < self.source().len() {
                Some(self.source()[self.position() as int])
            } else {
                None
            },
    {
        if self.pos < self.source.len() {
            Some(self.source[self.pos])
        } else {
            None
        }
    }

    /// The byte after the one under the cursor, if the source has one
    /// there. The cursor stays.
    fn peek_char(&self) -> (c: Option<u8>)
        ensures
            c == if self.position() + 1 < self.source().len() {
                Some(self.source()[self.position() as int + 1])
            } else {
                None
            },
    {
        if self.pos < self.source.len() && self.source.len() - self.pos > 1 {
            Some(self.source[self.pos + 1])
        } else {
            None
        }
    }

    /// Moves past a maximal run of whitespace.
    fn skip_withespace(&mut self)
        ensures
            final(self).source() == old(self).source(),
            final(self).position() == skip_spaces(old(self).source(), old(self).position()),
    {
        while self.pos < self.source.len() && is_whitespace(self.source[self.pos])
            invariant
                self.source() == old(self).source(),
                skip_spaces(self.source(), self.position()) == skip_spaces(
                    old(self).source(),
                    old(self).position(),
                ),
            decreases self.source().len() - self.position(),
        {
            self.pos += 1;
        }
    }

    /// Reads the word under the cursor and leaves the cursor on its last
    /// byte. Gives the kind of the word and the offsets of its first and
    /// last byte.
    fn parse_identifier(&mut self) -> (word: (TokenKind, usize, usize))
        requires
            old(self).position() < old(self).source().len(),
        ensures
            final(self).source() == old(self).source(),
            final(self).position() == word_end(old(self).source(), old(self).position()),
            word.1 == old(self).position(),
            word.2 == final(self).position(),
            word.2 < final(self).source().len(),
            word.0@ == keyword_or_ident(
                bytes_as_chars(old(self).source().subrange(word.1 as int, word.2 + 1)),
            ),
    {
        let start_ident = self.pos;
        while self.source.len() - self.pos > 1 && is_letter(self.source[self.pos]) && is_letter(
            self.source[self.pos + 1],
        )
            invariant
                self.source() == old(self).source(),
                old(self).position() <= self.position() < self.source().len(),
                word_end(self.source(), self.position()) == word_end(
                    old(self).source(),
                    old(self).position(),
                ),
            decreases self.source().len() - self.position(),
        {
            self.pos += 1;
        }
        let name = bytes_to_string(self.source, start_ident, self.pos + 1);
        let kind = lookup_identifier(name.as_str());
        (kind, start_ident, self.pos)
    }

    /// Reads the numeral under the cursor and leaves the cursor on its
    /// last digit. Gives the integer token kind and the offsets of the
    /// first and last digit.
    fn parse_integer(&mut self) -> (numeral: (TokenKind, usize, usize))
        requires
            old(self).position() < old(self).source().len(),
            is_digit_byte(old(self).source()[old(self).position() as int]),
        ensures
            final(self).source() == old(self).source(),
            final(self).position() == numeral_end(old(self).source(), old(self).position()),
            numeral.1 == old(self).position(),
            numeral.2 == final(self).position(),
            numeral.2 < final(self).source().len(),
            numeral.0@ == TokenKindView::Int(
                literal_value(old(self).source().subrange(numeral.1 as int, numeral.2 + 1)),
            ),
    {
        let start_ident = self.pos;
        while self.source.len() - self.pos > 1 && is_digit(self.source[self.pos]) && is_digit(
            self.source[self.pos + 1],
        )
            invariant
                self.source() == old(self).source(),
                old(self).position() <= self.position() < self.source().len(),
                forall|i: int|
                    old(self).position() <= i <= self.position() ==> is_digit_byte(
                        #[trigger] self.source()[i],
                    ),
                numeral_end(self.source(), self.position()) == numeral_end(
                    old(self).source(),
                    old(self).position(),
                ),
            decreases self.source().len() - self.position(),
        {
            self.pos += 1;
        }
        let value = parse_digits(self.source, start_ident, self.pos + 1);
        (TokenKind::Int(value), start_ident, self.pos)
    }

    /// The next token of the source. Once the end is reached, every call
    /// gives `Eof`.
    pub fn next_token(&mut self) -> (token: Token)
        ensures
            final(self).source() == old(self).source(),
            token@ == token_at(old(self).source(), old(self).position()).token,
            final(self).position() == token_at(old(self).source(), old(self).position()).next,
    {
        proof {
            reveal(token_at);
        }
        self.skip_withespace();
        let start = self.pos;
        let c = match self.current_char() {
            None => {
                return Token::new(TokenKind::Eof, start, start);
            },
            Some(c) => c,
        };
        let followed_by_equals = match self.peek_char() {
            Some(next) => next == ('=' as u8),
            None => false,
        };
        let token = if c == ('(' as u8) {
            Token::new(TokenKind::LeftParen, start, start)
        } else if c == (')' as u8) {
            Token::new(TokenKind::RightParen, start, start)
        } else if c == ('{' as u8) {
            Token::new(TokenKind::LeftBrace, start, start)
        } else if c == ('}' as u8) {
            Token::new(TokenKind::RightBrace, start, start)
        } else if c == ('=' as u8) {
            if followed_by_equals {
                self.read_char();
                Token::new(TokenKind::Eq, start, self.pos)
            } else {
                Token::new(TokenKind::Assign, start, start)
            }
        } else if c == ('+' as u8) {
            Token::new(TokenKind::Plus, start, start)
        } else if c == (';' as u8) {
            Token::new(TokenKind::SemiColon, start, start)
        } else if c == (',' as u8) {
            Token::new(TokenKind::Comma, start, start)
        } else if c == ('!' as u8) {
            if followed_by_equals {
                self.read_char();
                Token::new(TokenKind::NotEq, start, self.pos)
            } else {
                Token::new(TokenKind::Bang, start, start)
            }
        } else if c == ('/' as u8) {
            Token::new(TokenKind::Slash, start, start)
        } else if c == ('<' as u8) {
            Token::new(TokenKind::LT, start, start)
        } else if c == ('>' as u8) {
            Token::new(TokenKind::GT, start, start)
        } else if c == ('-' as u8) {
            Token::new(TokenKind::Minus, start, start)
        } else if c == ('*' as u8) {
            Token::new(TokenKind::Star, start, start)
        } else if is_letter(c) {
            let (kind, start, end) = self.parse_identifier();
            Token::new(kind, start, end)
        } else if is_digit(c) {
            let (kind, start, end) = self.parse_integer();
            Token::new(kind, start, end)
        } else {
            Token::new(TokenKind::Illegal, start, start)
        };
        self.read_char();
        token
    }
}

fn is_whitespace(c: u8) -> (yes: bool)
    ensures
        yes == is_space(c),
{
    c == (' ' as u8) || c == ('\t' as u8) || c == ('\n' as u8) || c == 0x0C || c == ('\r' as u8)
}

fn is_letter(c: u8) -> (yes: bool)
    ensures
        yes == is_word_byte(c),
{
    (('a' as u8) <= c && c <= ('z' as u8)) || (('A' as u8) <= c && c <= ('Z' as u8)) || c == ('_' as u8)
}

fn is_digit(c: u8) -> (yes: bool)
    ensures
        yes == is_digit_byte(c),
{
    ('0' as u8) <= c && c <= ('9' as u8)
}

/// The value of the integer literal whose digits are the bytes from `from`
/// up to, not including, `to`.
fn parse_digits(bytes: &[u8], from: usize, to: usize) -> (value: i64)
    requires
        from <= to <= bytes@.len(),
        forall|i: int| from <= i < to ==> is_digit_byte(#[trigger] bytes@[i]),
    ensures
        value == literal_value(bytes@.subrange(from as int, to as int)),
{
    let mut value: u64 = 0;
    let mut fits = true;
    let mut i: usize = from;
    while i < to
        invariant
            from <= i <= to <= bytes@.len(),
            forall|k: int| from <= k < to ==> is_digit_byte(#[trigger] bytes@[k]),
            fits ==> value == digits_value(bytes@.subrange(from as int, i as int)),
            fits ==> value <= i64::MAX,
            !fits ==> digits_value(bytes@.subrange(from as int, i as int)) > i64::MAX,
        decreases to - i,
    {
        let digit: u64 = (bytes[i] - ('0' as u8)) as u64;
        proof {
            let longer = bytes@.subrange(from as int, i + 1);
            assert(longer.drop_last() =~= bytes@.subrange(from as int, i as int));
            assert(longer.last() == bytes@[i as int]);
        }
        if fits {
            if value > (i64::MAX as u64 - digit) / 10 {
                fits = false;
            } else {
                value = value * 10 + digit;
            }
        }
        i += 1;
    }
    if fits {
        value as i64
    } else {
        0
    }
}

} // verus!
