//! What the tokenizer computes, stated over the bytes of the source.

use vstd::prelude::*;
use crate::lexer::token::{keyword_or_ident, Span, TokenKindView, TokenView};
use crate::text::{bytes_as_chars, digits_value};

verus! {

/// ASCII whitespace: space, tab, line feed, form feed, carriage return.
pub open spec fn is_space(b: u8) -> bool {
    b == (' ' as u8) || b == ('\t' as u8) || b == ('\n' as u8) || b == 0x0C || b == ('\r' as u8)
}

/// An ASCII letter or an underscore.
pub open spec fn is_word_byte(b: u8) -> bool {
    (('a' as u8) <= b <= ('z' as u8)) || (('A' as u8) <= b <= ('Z' as u8)) || b == ('_' as u8)
}

/// An ASCII decimal digit.
pub open spec fn is_digit_byte(b: u8) -> bool {
    ('0' as u8) <= b <= ('9' as u8)
}

/// The first offset at or after `pos` that holds no whitespace; the end of
/// the source where only whitespace is left.
pub open spec fn skip_spaces(src: Seq<u8>, pos: nat) -> nat
    decreases src.len() - pos,
{
    if pos < src.len() && is_space(src[pos as int]) {
        skip_spaces(src, pos + 1)
    } else {
        pos
    }
}

/// The offset of the last byte of the word that begins at `pos`.
pub open spec fn word_end(src: Seq<u8>, pos: nat) -> nat
    decreases src.len() - pos,
{
    if pos + 1 < src.len() && is_word_byte(src[pos as int]) && is_word_byte(src[pos as int + 1]) {
        word_end(src, pos + 1)
    } else {
        pos
    }
}

/// The offset of the last digit of the numeral that begins at `pos`.
pub open spec fn numeral_end(src: Seq<u8>, pos: nat) -> nat
    decreases src.len() - pos,
{
    if pos + 1 < src.len() && is_digit_byte(src[pos as int]) && is_digit_byte(src[pos as int + 1]) {
        numeral_end(src, pos + 1)
    } else {
        pos
    }
}

/// The value of an integer literal: the number its digits denote, or 0
/// where that number does not fit in 64 signed bits.
pub open spec fn literal_value(digits: Seq<u8>) -> i64 {
    if digits_value(digits) <= i64::MAX {
        digits_value(digits) as i64
    } else {
        0
    }
}

/// A token together with the offset at which scanning goes on.
pub struct Scanned {
    pub token: TokenView,
    pub next: nat,
}

/// A token of kind `kind` over the bytes from `start` to `end`, both
/// included, after which scanning goes on behind `end`.
pub open spec fn scanned(kind: TokenKindView, start: nat, end: nat) -> Scanned {
    Scanned {
        token: TokenView { kind, span: Span { start: start as usize, end: end as usize } },
        next: end + 1,
    }
}

/// The token that begins at `start`, which holds no whitespace.
pub open spec fn token_from(src: Seq<u8>, start: nat) -> Scanned
    recommends
        start < src.len(),
{
    let b = src[start as int];
    let followed_by_equals = start + 1 < src.len() && src[start as int + 1] == ('=' as u8);
    if b == ('(' as u8) {
        scanned(TokenKindView::LeftParen, start, start)
    } else if b == (')' as u8) {
        scanned(TokenKindView::RightParen, start, start)
    } else if b == ('{' as u8) {
        scanned(TokenKindView::LeftBrace, start, start)
    } else if b == ('}' as u8) {
        scanned(TokenKindView::RightBrace, start, start)
    } else if b == ('=' as u8) {
        if followed_by_equals {
            scanned(TokenKindView::Eq, start, start + 1)
        } else {
            scanned(TokenKindView::Assign, start, start)
        }
    } else if b == ('+' as u8) {
        scanned(TokenKindView::Plus, start, start)
    } else if b == (';' as u8) {
        scanned(TokenKindView::SemiColon, start, start)
    } else if b == (',' as u8) {
        scanned(TokenKindView::Comma, start, start)
    } else if b == ('!' as u8) {
        if followed_by_equals {
            scanned(TokenKindView::NotEq, start, start + 1)
        } else {
            scanned(TokenKindView::Bang, start, start)
        }
    } else if b == ('/' as u8) {
        scanned(TokenKindView::Slash, start, start)
    } else if b == ('<' as u8) {
        scanned(TokenKindView::LT, start, start)
    } else if b == ('>' as u8) {
        scanned(TokenKindView::GT, start, start)
    } else if b == ('-' as u8) {
        scanned(TokenKindView::Minus, start, start)
    } else if b == ('*' as u8) {
        scanned(TokenKindView::Star, start, start)
    } else if is_word_byte(b) {
        let end = word_end(src, start);
        let word = bytes_as_chars(src.subrange(start as int, end as int + 1));
        scanned(keyword_or_ident(word), start, end)
    } else if is_digit_byte(b) {
        let end = numeral_end(src, start);
        let digits = src.subrange(start as int, end as int + 1);
        scanned(TokenKindView::Int(literal_value(digits)), start, end)
    } else {
        scanned(TokenKindView::Illegal, start, start)
    }
}

/// The token that a tokenizer standing at `pos` yields next: whitespace is
/// skipped, and the end of the source gives `Eof`, again and again.
#[verifier::opaque]
pub open spec fn token_at(src: Seq<u8>, pos: nat) -> Scanned {
    let start = skip_spaces(src, pos);
    if start >= src.len() {
        Scanned {
            token: TokenView {
                kind: TokenKindView::Eof,
                span: Span { start: start as usize, end: start as usize },
            },
            next: start,
        }
    } else {
        token_from(src, start)
    }
}

/// Skipping whitespace never moves back, stops inside the source or at its
/// end, and stops on a byte that is no whitespace.
pub proof fn lemma_skip_spaces(src: Seq<u8>, pos: nat)
    ensures
        pos <= skip_spaces(src, pos),
        pos <= src.len() ==> skip_spaces(src, pos) <= src.len(),
        skip_spaces(src, pos) < src.len() ==> !is_space(src[skip_spaces(src, pos) as int]),
        forall|i: int| pos <= i < skip_spaces(src, pos) ==> is_space(#[trigger] src[i]),
        skip_spaces(src, skip_spaces(src, pos)) == skip_spaces(src, pos),
    decreases src.len() - pos,
{
    if pos < src.len() && is_space(src[pos as int]) {
        lemma_skip_spaces(src, pos + 1);
    }
}

/// Where nothing but whitespace is left, skipping it leads to the end of
/// the source.
pub proof fn lemma_skip_spaces_to_the_end(src: Seq<u8>, pos: nat)
    requires
        pos <= src.len(),
        forall|i: int| pos <= i < src.len() ==> is_space(#[trigger] src[i]),
    ensures
        skip_spaces(src, pos) == src.len(),
    decreases src.len() - pos,
{
    if pos < src.len() {
        lemma_skip_spaces_to_the_end(src, pos + 1);
    }
}

/// A word is a maximal run of word bytes: it ends inside the source, at
/// or after its first byte; where the first byte is a word byte, all its
/// bytes are, and the byte after it, if there is one, is none.
pub proof fn lemma_word_end(src: Seq<u8>, pos: nat)
    requires
        pos < src.len(),
    ensures
        pos <= word_end(src, pos) < src.len(),
        is_word_byte(src[pos as int]) ==> forall|i: int|
            pos <= i <= word_end(src, pos) ==> is_word_byte(#[trigger] src[i]),
        is_word_byte(src[pos as int]) && word_end(src, pos) + 1 < src.len() ==> !is_word_byte(
            src[word_end(src, pos) as int + 1],
        ),
    decreases src.len() - pos,
{
    if pos + 1 < src.len() && is_word_byte(src[pos as int]) && is_word_byte(src[pos as int + 1]) {
        lemma_word_end(src, pos + 1);
    }
}

/// A numeral is a maximal run of digits: it ends inside the source, at or
/// after its first byte; where the first byte is a digit, all its bytes
/// are, and the byte after it, if there is one, is none.
pub proof fn lemma_numeral_end(src: Seq<u8>, pos: nat)
    requires
        pos < src.len(),
    ensures
        pos <= numeral_end(src, pos) < src.len(),
        is_digit_byte(src[pos as int]) ==> forall|i: int|
            pos <= i <= numeral_end(src, pos) ==> is_digit_byte(#[trigger] src[i]),
        is_digit_byte(src[pos as int]) && numeral_end(src, pos) + 1 < src.len() ==> !is_digit_byte(
            src[numeral_end(src, pos) as int + 1],
        ),
    decreases src.len() - pos,
{
    if pos + 1 < src.len() && is_digit_byte(src[pos as int]) && is_digit_byte(src[pos as int + 1]) {
        lemma_numeral_end(src, pos + 1);
    }
}

/// Scanning moves forward: it never goes back, a token other than `Eof`
/// takes at least one byte and ends inside the source, and `Eof` is given
/// exactly where nothing but whitespace is left.
pub proof fn lemma_scanning_moves_forward(src: Seq<u8>, pos: nat)
    ensures
        pos <= token_at(src, pos).next,
        token_at(src, pos).token.kind is Eof <==> skip_spaces(src, pos) >= src.len(),
        token_at(src, pos).token.kind is Eof ==> token_at(src, pos).next == skip_spaces(src, pos),
        !(token_at(src, pos).token.kind is Eof) ==> pos < token_at(src, pos).next <= src.len(),
{
    reveal(token_at);
    lemma_skip_spaces(src, pos);
    let start = skip_spaces(src, pos);
    if start < src.len() {
        lemma_word_end(src, start);
        lemma_numeral_end(src, start);
        lemma_word_is_keyword_or_identifier(
            bytes_as_chars(src.subrange(start as int, word_end(src, start) as int + 1)),
        );
    }
}

/// Where a token lies. Scanning never moves back. A token other than `Eof`
/// begins on the first byte after the whitespace, covers at least one byte
/// inside the source, and scanning goes on right behind it. `Eof` is given
/// only where nothing but whitespace is left.
pub proof fn lemma_token_extent(src: Seq<u8>, pos: nat)
    requires
        src.len() <= usize::MAX,
    ensures
        ({
            let found = token_at(src, pos);
            let start = skip_spaces(src, pos);
            &&& pos <= start <= found.next
            &&& found.token.kind is Eof <==> start >= src.len()
            &&& found.token.kind is Eof ==> found.next == start
            &&& !(found.token.kind is Eof) ==> {
                &&& found.token.span.start == start
                &&& found.token.span.start <= found.token.span.end < src.len()
                &&& found.next == found.token.span.end + 1
            }
        }),
{
    reveal(token_at);
    lemma_skip_spaces(src, pos);
    let start = skip_spaces(src, pos);
    if start < src.len() {
        lemma_word_end(src, start);
        lemma_numeral_end(src, start);
        lemma_word_is_keyword_or_identifier(
            bytes_as_chars(src.subrange(start as int, word_end(src, start) as int + 1)),
        );
    }
}

/// A token is found again where it begins: scanning from the first byte
/// of a token gives that token, and goes on from the same place.
pub proof fn lemma_token_is_found_at_its_start(src: Seq<u8>, pos: nat)
    requires
        pos <= src.len() <= usize::MAX,
    ensures
        token_at(src, token_at(src, pos).token.span.start as nat) == token_at(src, pos),
{
    reveal(token_at);
    lemma_skip_spaces(src, pos);
}

/// The tokens cover the source: every byte that scanning passes is
/// whitespace or lies in the token that scanning gives.
pub proof fn lemma_tokens_cover_the_source(src: Seq<u8>, pos: nat)
    requires
        src.len() <= usize::MAX,
    ensures
        forall|i: int|
            pos <= i < token_at(src, pos).next && i < src.len() ==> is_space(#[trigger] src[i])
                || token_at(src, pos).token.span.start <= i <= token_at(src, pos).token.span.end,
{
    lemma_token_extent(src, pos);
    lemma_skip_spaces(src, pos);
}

/// A word is a keyword or an identifier, never another kind.
pub proof fn lemma_word_is_keyword_or_identifier(word: Seq<char>)
    ensures
        ({
            let kind = keyword_or_ident(word);
            kind is Let || kind is Fn || kind is If || kind is Else || kind is True
                || kind is False || kind is Return || kind is Ident
        }),
{
}

/// End of input is a steady state: once the tokenizer has given `Eof`, it
/// gives the same `Eof` on every later call and stays where it is.
pub proof fn lemma_eof_is_steady(src: Seq<u8>, pos: nat)
    requires
        token_at(src, pos).token.kind is Eof,
    ensures
        token_at(src, token_at(src, pos).next) == token_at(src, pos),
{
    reveal(token_at);
    lemma_skip_spaces(src, pos);
}

/// Spans never go back: the token that follows another begins behind the
/// end of the first, and no token begins before the place from which it
/// was scanned.
pub proof fn lemma_spans_are_monotone(src: Seq<u8>, pos: nat)
    requires
        pos <= src.len() <= usize::MAX,
    ensures
        ({
            let first = token_at(src, pos);
            let second = token_at(src, first.next);
            &&& pos <= first.token.span.start <= first.token.span.end
            &&& first.token.span.start <= second.token.span.start
            &&& first.token.span.end <= second.token.span.end
            &&& !(first.token.kind is Eof) ==> first.token.span.end < second.token.span.start
        }),
{
    reveal(token_at);
    lemma_token_extent(src, pos);
    lemma_token_extent(src, token_at(src, pos).next);
    lemma_skip_spaces(src, pos);
    lemma_skip_spaces(src, token_at(src, pos).next);
}

/// The bytes that a token covers in the source.
pub open spec fn lexeme(src: Seq<u8>, token: TokenView) -> Seq<u8> {
    src.subrange(token.span.start as int, token.span.end as int + 1)
}

/// Span fidelity: the bytes from a token's `start` through its `end` are
/// the token's source text. For operators, delimiters, keywords and
/// identifiers they spell the text of the kind; for an integer they are the
/// digits that give its value; for an illegal token they are the one byte
/// that begins no token.
pub proof fn lemma_span_holds_the_lexeme(src: Seq<u8>, pos: nat)
    requires
        src.len() <= usize::MAX,
    ensures
        ({
            let token = token_at(src, pos).token;
            let covered = lexeme(src, token);
            match token.kind {
                TokenKindView::Eof => true,
                TokenKindView::Int(value) => {
                    &&& value == literal_value(covered)
                    &&& forall|i: int| 0 <= i < covered.len() ==> is_digit_byte(#[trigger] covered[i])
                },
                TokenKindView::Illegal => {
                    &&& covered.len() == 1
                    &&& !is_space(covered[0])
                    &&& !is_word_byte(covered[0])
                    &&& !is_digit_byte(covered[0])
                },
                kind => bytes_as_chars(covered) == kind.text(),
            }
        }),
{
    reveal(token_at);
    lemma_token_extent(src, pos);
    let start = skip_spaces(src, pos);
    if start < src.len() {
        lemma_skip_spaces(src, pos);
        lemma_word_end(src, start);
        lemma_numeral_end(src, start);
        let token = token_at(src, pos).token;
        let covered = lexeme(src, token);
        let shown = bytes_as_chars(covered);
        reveal_strlit("(");
        reveal_strlit(")");
        reveal_strlit("{");
        reveal_strlit("}");
        reveal_strlit("=");
        reveal_strlit("==");
        reveal_strlit("+");
        reveal_strlit(";");
        reveal_strlit(",");
        reveal_strlit("!");
        reveal_strlit("!=");
        reveal_strlit("/");
        reveal_strlit("<");
        reveal_strlit(">");
        reveal_strlit("-");
        reveal_strlit("*");
        match token.kind {
            TokenKindView::Eof | TokenKindView::Int(_) | TokenKindView::Illegal => {},
            kind => {
                assert(shown =~= kind.text());
            },
        }
    }
}

} // verus!
