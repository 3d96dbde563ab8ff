//! Tokenizer: turns source text into positioned tokens.
//!
//! The source is modelled as the sequence of its UTF-8 bytes, and every span
//! is a half-open range of byte offsets into that sequence. Whitespace between
//! tokens is skipped. An unrecognised character never stops the tokenizer: it
//! becomes a [`TokenKind::Bad`] token that carries the character, and the
//! cursor moves past it.
use vstd::prelude::*;
use vstd::string::*;
use vstd::utf8::*;

verus! {

/// Classification of a token.
#[derive(Debug, Clone, PartialEq, Eq)]
pub enum TokenKind {
    /// An integer literal. A digit run too large for `i64` carries 0.
    Number(i64),
    Plus,
    Minus,
    Asterisk,
    Slash,
    LeftParen,
    RightParen,
    /// A character outside the language, carried as text.
    Bad(String),
    /// End of input.
    Eof,
}

/// Half-open range `[start, end)` of byte offsets into the source.
#[derive(Debug, Clone, PartialEq, Eq)]
pub struct TextSpan {
    pub start: usize,
    pub end: usize,
}

impl TextSpan {
    /// A span never ends before it starts.
    pub open spec fn valid(&self) -> bool {
        self.start <= self.end
    }

    pub fn new(start: usize, end: usize) -> (span: Self)
        requires
            start <= end,
        ensures
            span.start == start,
            span.end == end,
            span.valid(),
    {
        TextSpan { start, end }
    }

    /// Number of bytes the span covers.
    pub fn length(&self) -> (n: usize)
        requires
            self.valid(),
        ensures
            n == self.end - self.start,
    {
        self.end - self.start
    }
}

/// A classified lexical unit and the source range it covers.
#[derive(Debug, Clone, PartialEq, Eq)]
pub struct Token {
    pub kind: TokenKind,
    pub span: TextSpan,
}

impl Token {
    pub fn new(kind: TokenKind, span: TextSpan) -> (token: Self)
        ensures
            token.kind == kind,
            token.span == span,
    {
        Self { kind, span }
    }
}

/// Space, tab, line feed, form feed and carriage return separate tokens.
pub open spec fn is_whitespace(b: u8) -> bool {
    b == 0x20 || b == 0x09 || b == 0x0a || b == 0x0c || b == 0x0d
}

/// The ASCII decimal digits.
pub open spec fn is_digit(b: u8) -> bool {
    0x30 <= b <= 0x39
}

/// First offset at or after `pos` that holds no whitespace (the length of the
/// source when only whitespace is left).
pub open spec fn skip_whitespace(src: Seq<u8>, pos: int) -> int
    decreases src.len() - pos,
{
    if 0 <= pos < src.len() && is_whitespace(src[pos]) {
        skip_whitespace(src, pos + 1)
    } else {
        pos
    }
}

/// End of the maximal run of digits that starts at `pos`.
pub open spec fn digits_end(src: Seq<u8>, pos: int) -> int
    decreases src.len() - pos,
{
    if 0 <= pos < src.len() && is_digit(src[pos]) {
        digits_end(src, pos + 1)
    } else {
        pos
    }
}

/// The natural number that a sequence of decimal digits denotes.
pub open spec fn decimal_value(digits: Seq<u8>) -> nat
    decreases digits.len(),
{
    if digits.len() == 0 {
        0
    } else {
        decimal_value(digits.drop_last()) * 10 + (digits.last() - 0x30) as nat
    }
}

/// Value carried by the literal token for a digit run: the number it denotes,
/// or 0 when that number does not fit in `i64`.
pub open spec fn literal_value(digits: Seq<u8>) -> i64 {
    if decimal_value(digits) <= i64::MAX {
        decimal_value(digits) as i64
    } else {
        0
    }
}

/// Number of bytes of the character whose encoding starts at `pos`.
pub open spec fn char_width(src: Seq<u8>, pos: int) -> int {
    length_of_first_scalar(src.subrange(pos, src.len() as int))
}

/// The character whose encoding starts at `pos`.
pub open spec fn char_at(src: Seq<u8>, pos: int) -> char {
    decode_first_scalar(src.subrange(pos, src.len() as int)) as char
}

/// `token` is the token that starts at the offset `start` of `src`, where
/// `start` is the end of the source or holds no whitespace.
pub open spec fn token_at(src: Seq<u8>, start: int, token: Token) -> bool {
    &&& token.span.start == start
    &&& if start >= src.len() {
        token.kind is Eof && token.span.end == start
    } else if is_digit(src[start]) {
        &&& token.span.end == digits_end(src, start)
        &&& token.kind == TokenKind::Number(
            literal_value(src.subrange(start, digits_end(src, start))),
        )
    } else if src[start] == 0x2b {
        token.kind is Plus && token.span.end == start + 1
    } else if src[start] == 0x2d {
        token.kind is Minus && token.span.end == start + 1
    } else if src[start] == 0x2a {
        token.kind is Asterisk && token.span.end == start + 1
    } else if src[start] == 0x2f {
        token.kind is Slash && token.span.end == start + 1
    } else if src[start] == 0x28 {
        token.kind is LeftParen && token.span.end == start + 1
    } else if src[start] == 0x29 {
        token.kind is RightParen && token.span.end == start + 1
    } else {
        &&& token.span.end == start + char_width(src, start)
        &&& token.kind matches TokenKind::Bad(text)
        &&& text@ == seq![char_at(src, start)]
    }
}

/// The token at index `i` of `tokens` is the one found in `src` after the
/// whitespace that follows its predecessor (the start of `src` for the first).
pub open spec fn token_follows(src: Seq<u8>, tokens: Seq<Token>, i: int) -> bool {
    token_at(
        src,
        skip_whitespace(src, if i == 0 { 0 } else { tokens[i - 1].span.end as int }),
        tokens[i],
    )
}

/// `tokens` is the complete token sequence of `src`: each token follows its
/// predecessor, and the sequence ends with its only end-of-input token.
pub open spec fn is_token_stream(src: Seq<u8>, tokens: Seq<Token>) -> bool {
    &&& tokens.len() >= 1
    &&& forall|i: int| 0 <= i < tokens.len() ==> #[trigger] token_follows(src, tokens, i)
    &&& forall|i: int|
        0 <= i < tokens.len() ==> ((#[trigger] tokens[i]).kind is Eof <==> i == tokens.len() - 1)
}

/// The bytes between `pos` and `skip_whitespace(src, pos)` are whitespace, and
/// the byte that follows, if there is one, is not.
pub proof fn lemma_skip_whitespace(src: Seq<u8>, pos: int)
    requires
        0 <= pos <= src.len(),
    ensures
        pos <= skip_whitespace(src, pos) <= src.len(),
        forall|j: int| pos <= j < skip_whitespace(src, pos) ==> is_whitespace(#[trigger] src[j]),
        skip_whitespace(src, pos) < src.len() ==> !is_whitespace(src[skip_whitespace(src, pos)]),
    decreases src.len() - pos,
{
    if pos < src.len() && is_whitespace(src[pos]) {
        lemma_skip_whitespace(src, pos + 1);
    }
}

/// The bytes between `pos` and `digits_end(src, pos)` are digits, and the byte
/// that follows, if there is one, is not.
pub proof fn lemma_digits_end(src: Seq<u8>, pos: int)
    requires
        0 <= pos <= src.len(),
    ensures
        pos <= digits_end(src, pos) <= src.len(),
        forall|j: int| pos <= j < digits_end(src, pos) ==> is_digit(#[trigger] src[j]),
        digits_end(src, pos) < src.len() ==> !is_digit(src[digits_end(src, pos)]),
    decreases src.len() - pos,
{
    if pos < src.len() && is_digit(src[pos]) {
        lemma_digits_end(src, pos + 1);
    }
}

/// In well-formed UTF-8 the character that starts at a character boundary
/// ends inside the text, at the next character boundary.
pub proof fn lemma_char_boundary_step(src: Seq<u8>, pos: int)
    requires
        valid_utf8(src),
        is_char_boundary(src, pos),
        0 <= pos < src.len(),
    ensures
        1 <= char_width(src, pos) <= 4,
        pos + char_width(src, pos) <= src.len(),
        is_char_boundary(src, pos + char_width(src, pos)),
        valid_first_scalar(src.subrange(pos, src.len() as int)),
        src[pos] <= 0x7f ==> char_width(src, pos) == 1,
    decreases src.len(),
{
    let tail = src.subrange(pos, src.len() as int);
    let first = length_of_first_scalar(src);
    assert(valid_first_scalar(src));
    assert(valid_utf8(pop_first_scalar(src)));
    if pos == 0 {
        assert(tail =~= src);
        assert(is_char_boundary(pop_first_scalar(src), 0));
    } else {
        let rest = pop_first_scalar(src);
        assert(is_char_boundary(rest, pos - first));
        assert(pos - first >= 0) by {
            reveal_with_fuel(is_char_boundary, 2);
        }
        assert(rest.subrange(pos - first, rest.len() as int) =~= tail);
        lemma_char_boundary_step(rest, pos - first);
    }
    assert(tail[0] == src[pos]);
}

/// A one-character slice decodes to the character that its bytes start with.
proof fn lemma_decode_single(tail: Seq<u8>)
    requires
        valid_utf8(tail),
        tail.len() > 0,
    ensures
        valid_utf8(take_first_scalar(tail)),
        decode_utf8(take_first_scalar(tail)) == seq![decode_first_scalar(tail) as char],
{
    let one = take_first_scalar(tail);
    assert(valid_first_scalar(tail));
    assert(one.len() == length_of_first_scalar(tail));
    assert(one[0] == tail[0]);
    assert(valid_first_scalar(one) && length_of_first_scalar(one) == one.len()
        && decode_first_scalar(one) == decode_first_scalar(tail)) by {
        if is_leading_byte_width_1(tail[0]) {
        } else if is_leading_byte_width_2(tail[0]) {
            assert(one[1] == tail[1]);
        } else if is_leading_byte_width_3(tail[0]) {
            assert(one[1] == tail[1]);
            assert(one[2] == tail[2]);
        } else {
            assert(one[1] == tail[1]);
            assert(one[2] == tail[2]);
            assert(one[3] == tail[3]);
        }
    }
    assert(pop_first_scalar(one) =~= Seq::<u8>::empty());
    assert(valid_utf8(pop_first_scalar(one)));
    assert(valid_utf8(one));
    assert(decode_utf8(pop_first_scalar(one)) =~= Seq::<char>::empty());
    assert(decode_utf8(one) =~= seq![decode_first_scalar(tail) as char]);
}

fn is_whitespace_byte(b: u8) -> (r: bool)
    ensures
        r == is_whitespace(b),
{
    b == 0x20 || b == 0x09 || b == 0x0a || b == 0x0c || b == 0x0d
}

fn is_digit_byte(b: u8) -> (r: bool)
    ensures
        r == is_digit(b),
{
    0x30 <= b && b <= 0x39
}

/// Cursor over a source text that hands out its tokens one by one.
pub struct Lexer<'a> {
    input: &'a str,
    current_pos: usize,
    eof_reached: bool,
}

impl<'a> Lexer<'a> {
    /// The cursor stays inside the text and on a character boundary.
    #[verifier::type_invariant]
    spec fn well_formed(&self) -> bool {
        &&& self.current_pos <= self.input.spec_bytes().len()
        &&& is_char_boundary(self.input.spec_bytes(), self.current_pos as int)
    }

    /// The UTF-8 bytes of the text being tokenized.
    pub closed spec fn source(&self) -> Seq<u8> {
        self.input.spec_bytes()
    }

    /// Byte offset of the cursor.
    pub closed spec fn position(&self) -> int {
        self.current_pos as int
    }

    /// True once the end-of-input token has been handed out.
    pub closed spec fn exhausted(&self) -> bool {
        self.eof_reached
    }

    pub fn new(input: &'a str) -> (lexer: Self)
        ensures
            lexer.source() == input.spec_bytes(),
            lexer.position() == 0,
            !lexer.exhausted(),
    {
        proof {
            encode_utf8_valid_utf8(input@);
            is_char_boundary_start_end_of_seq(input.spec_bytes());
        }
        Self { input, current_pos: 0, eof_reached: false }
    }

    /// Hands out the next token, or `None` once the end-of-input token has
    /// been handed out.
    pub fn next_token(&mut self) -> (next: Option<Token>)
        ensures
            final(self).source() == old(self).source(),
            old(self).exhausted() ==> {
                &&& next is None
                &&& final(self).exhausted()
                &&& final(self).position() == old(self).position()
            },
            !old(self).exhausted() ==> {
                &&& next matches Some(token)
                &&& token_at(
                    old(self).source(),
                    skip_whitespace(old(self).source(), old(self).position()),
                    token,
                )
                &&& token.span.valid()
                &&& old(self).position() <= token.span.start
                &&& token.span.end <= old(self).source().len()
                &&& !(token.kind is Eof) ==> token.span.start < token.span.end
                &&& final(self).position() == token.span.end
                &&& final(self).exhausted() == (token.kind is Eof)
            },
    {
        if self.eof_reached {
            return None;
        }
        self.eat_whitespace();
        let start = self.current_pos;
        proof {
            use_type_invariant(&*self);
            encode_utf8_valid_utf8(self.input@);
        }
        if start >= self.input.as_bytes().len() {
            self.eof_reached = true;
            return Some(Token::new(TokenKind::Eof, TextSpan::new(start, start)));
        }
        proof {
            lemma_char_boundary_step(self.source(), start as int);
            lemma_digits_end(self.source(), start as int);
        }
        let b = self.input.as_bytes()[start];
        let kind = if is_digit_byte(b) {
            let number = self.eat_num();
            TokenKind::Number(number)
        } else if b == 0x2b {
            self.eat_char();
            TokenKind::Plus
        } else if b == 0x2d {
            self.eat_char();
            TokenKind::Minus
        } else if b == 0x2a {
            self.eat_char();
            TokenKind::Asterisk
        } else if b == 0x2f {
            self.eat_char();
            TokenKind::Slash
        } else if b == 0x28 {
            self.eat_char();
            TokenKind::LeftParen
        } else if b == 0x29 {
            self.eat_char();
            TokenKind::RightParen
        } else {
            let unrecognized = self.current_char().to_owned();
            self.eat_char();
            TokenKind::Bad(unrecognized)
        };
        let end = self.current_pos;
        Some(Token::new(kind, TextSpan::new(start, end)))
    }

    /// Moves the cursor past the whitespace it stands on.
    fn eat_whitespace(&mut self)
        ensures
            final(self).source() == old(self).source(),
            final(self).exhausted() == old(self).exhausted(),
            final(self).position() == skip_whitespace(old(self).source(), old(self).position()),
            old(self).position() <= final(self).position() <= old(self).source().len(),
    {
        proof {
            use_type_invariant(&*self);
            encode_utf8_valid_utf8(self.input@);
        }
        let bytes = self.input.as_bytes();
        let mut pos = self.current_pos;
        while pos < bytes.len() && is_whitespace_byte(bytes[pos])
            invariant
                bytes@ == self.input.spec_bytes(),
                valid_utf8(bytes@),
                self.current_pos <= pos <= bytes@.len(),
                is_char_boundary(bytes@, pos as int),
                skip_whitespace(bytes@, pos as int) == skip_whitespace(
                    bytes@,
                    self.current_pos as int,
                ),
            decreases bytes@.len() - pos,
        {
            proof {
                lemma_char_boundary_step(bytes@, pos as int);
            }
            pos += 1;
        }
        self.current_pos = pos;
    }

    /// The character under the cursor, as a one-character slice of the text.
    fn current_char(&self) -> (ch: &'a str)
        requires
            self.position() < self.source().len(),
        ensures
            ch@ == seq![char_at(self.source(), self.position())],
    {
        proof {
            use_type_invariant(self);
            encode_utf8_valid_utf8(self.input@);
            lemma_char_boundary_step(self.source(), self.current_pos as int);
        }
        let width = self.current_width();
        let (_, tail) = self.input.split_at(self.current_pos);
        proof {
            encode_utf8_valid_utf8(tail@);
            assert(tail.spec_bytes() =~= self.source().subrange(
                self.current_pos as int,
                self.source().len() as int,
            ));
            assert(valid_first_scalar(tail.spec_bytes()));
            assert(valid_utf8(pop_first_scalar(tail.spec_bytes())));
            assert(is_char_boundary(pop_first_scalar(tail.spec_bytes()), 0));
            assert(is_char_boundary(tail.spec_bytes(), width as int));
        }
        let (ch, _) = tail.split_at(width);
        proof {
            assert(ch.spec_bytes() =~= take_first_scalar(tail.spec_bytes()));
            lemma_decode_single(tail.spec_bytes());
            encode_utf8_decode_utf8(ch@);
        }
        ch
    }

    /// Width in bytes of the character under the cursor.
    fn current_width(&self) -> (width: usize)
        requires
            self.position() < self.source().len(),
        ensures
            width == char_width(self.source(), self.position()),
    {
        let b = self.input.as_bytes()[self.current_pos];
        proof {
            let tail = self.source().subrange(self.position(), self.source().len() as int);
            assert(tail[0] == b);
        }
        if b <= 0x7f {
            1
        } else if 0xc0 <= b && b <= 0xdf {
            2
        } else if 0xe0 <= b && b <= 0xef {
            3
        } else {
            4
        }
    }

    /// Moves the cursor past the character it stands on; at the end of the
    /// text it stays where it is.
    fn eat_char(&mut self)
        ensures
            final(self).source() == old(self).source(),
            final(self).exhausted() == old(self).exhausted(),
            final(self).position() == if old(self).position() < old(self).source().len() {
                old(self).position() + char_width(old(self).source(), old(self).position())
            } else {
                old(self).position()
            },
    {
        if self.current_pos < self.input.as_bytes().len() {
            proof {
                use_type_invariant(&*self);
                encode_utf8_valid_utf8(self.input@);
                lemma_char_boundary_step(self.source(), self.current_pos as int);
            }
            let width = self.current_width();
            self.current_pos += width;
        }
    }

    /// Consumes the maximal run of digits under the cursor and returns the
    /// value of the literal.
    fn eat_num(&mut self) -> (value: i64)
        ensures
            final(self).source() == old(self).source(),
            final(self).exhausted() == old(self).exhausted(),
            final(self).position() == digits_end(old(self).source(), old(self).position()),
            value == literal_value(
                old(self).source().subrange(old(self).position(), final(self).position()),
            ),
    {
        proof {
            use_type_invariant(&*self);
            encode_utf8_valid_utf8(self.input@);
        }
        let bytes = self.input.as_bytes();
        let start = self.current_pos;
        let mut pos = start;
        let mut value: i64 = 0;
        let mut fits = true;
        proof {
            assert(bytes@.subrange(start as int, pos as int) =~= Seq::<u8>::empty());
        }
        while pos < bytes.len() && is_digit_byte(bytes[pos])
            invariant
                bytes@ == self.input.spec_bytes(),
                valid_utf8(bytes@),
                start <= pos <= bytes@.len(),
                is_char_boundary(bytes@, pos as int),
                digits_end(bytes@, pos as int) == digits_end(bytes@, start as int),
                forall|j: int| start <= j < pos ==> is_digit(#[trigger] bytes@[j]),
                fits ==> 0 <= value == decimal_value(bytes@.subrange(start as int, pos as int)),
                !fits ==> decimal_value(bytes@.subrange(start as int, pos as int)) > i64::MAX,
            decreases bytes@.len() - pos,
        {
            let digit = (bytes[pos] - 0x30) as i64;
            proof {
                lemma_char_boundary_step(bytes@, pos as int);
                let run = bytes@.subrange(start as int, pos + 1);
                assert(run.drop_last() =~= bytes@.subrange(start as int, pos as int));
                assert(run.last() == bytes@[pos as int]);
            }
            if fits {
                if value <= (i64::MAX - digit) / 10 {
                    value = value * 10 + digit;
                } else {
                    fits = false;
                }
            }
            pos += 1;
        }
        self.current_pos = pos;
        if fits {
            value
        } else {
            0
        }
    }
}

} // verus!
