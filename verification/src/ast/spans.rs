//! Laws of the spans of a token sequence: they follow one another through the
//! source, only whitespace lies between them, and together they hold the
//! source with its whitespace removed.
use vstd::prelude::*;
use vstd::utf8::{is_char_boundary, valid_first_scalar, valid_utf8};
use super::lexer::{
    char_width, digits_end, is_digit, is_token_stream, is_whitespace, lemma_char_boundary_step,
    lemma_digits_end, lemma_skip_whitespace, skip_whitespace, token_at, token_follows, Token,
};

verus! {

/// `text` without its whitespace.
pub open spec fn without_whitespace(text: Seq<u8>) -> Seq<u8> {
    text.filter(|b: u8| !is_whitespace(b))
}

/// The pieces of `src` that the spans of `tokens` cover, one after the other.
pub open spec fn covered_text(src: Seq<u8>, tokens: Seq<Token>) -> Seq<u8>
    decreases tokens.len(),
{
    if tokens.len() == 0 {
        Seq::empty()
    } else {
        covered_text(src, tokens.drop_last()) + src.subrange(
            tokens.last().span.start as int,
            tokens.last().span.end as int,
        )
    }
}

/// Offset at which the scan for the token at index `i` starts: the end of
/// its predecessor, or the start of the source.
pub open spec fn scan_start(tokens: Seq<Token>, i: int) -> int {
    if i == 0 {
        0
    } else {
        tokens[i - 1].span.end as int
    }
}

/// A run of ASCII bytes that starts at a character boundary ends at one.
proof fn lemma_ascii_run_boundary(src: Seq<u8>, from: int, to: int)
    requires
        valid_utf8(src),
        0 <= from <= to <= src.len(),
        is_char_boundary(src, from),
        forall|j: int| from <= j < to ==> #[trigger] src[j] <= 0x7f,
    ensures
        is_char_boundary(src, to),
    decreases to - from,
{
    if from < to {
        lemma_char_boundary_step(src, from);
        lemma_ascii_run_boundary(src, from + 1, to);
    }
}

/// A piece of text that is all whitespace vanishes when whitespace is
/// removed.
proof fn lemma_whitespace_vanishes(text: Seq<u8>)
    requires
        forall|j: int| 0 <= j < text.len() ==> is_whitespace(#[trigger] text[j]),
    ensures
        without_whitespace(text) == Seq::<u8>::empty(),
    decreases text.len(),
{
    reveal(Seq::filter);
    if text.len() > 0 {
        lemma_whitespace_vanishes(text.drop_last());
    }
}

/// A piece of text that holds no whitespace stays as it is when whitespace
/// is removed.
proof fn lemma_visible_stays(text: Seq<u8>)
    requires
        forall|j: int| 0 <= j < text.len() ==> !is_whitespace(#[trigger] text[j]),
    ensures
        without_whitespace(text) == text,
    decreases text.len(),
{
    reveal(Seq::filter);
    if text.len() > 0 {
        lemma_visible_stays(text.drop_last());
        assert(text.drop_last().push(text.last()) =~= text);
    }
}

/// Where the token found after `pos` lies: at or after `pos`, inside the
/// source, with only whitespace in front of it and none inside it. It is
/// empty exactly when it is the end-of-input token, which stands at the end
/// of the source.
pub proof fn lemma_token_span(src: Seq<u8>, pos: int, token: Token)
    requires
        valid_utf8(src),
        0 <= pos <= src.len(),
        is_char_boundary(src, pos),
        token_at(src, skip_whitespace(src, pos), token),
    ensures
        pos <= token.span.start <= token.span.end <= src.len(),
        is_char_boundary(src, token.span.end as int),
        forall|j: int| pos <= j < token.span.start ==> is_whitespace(#[trigger] src[j]),
        forall|j: int| token.span.start <= j < token.span.end ==> !is_whitespace(#[trigger] src[j]),
        token.kind is Eof <==> token.span.start == token.span.end,
        token.kind is Eof <==> token.span.start == src.len(),
{
    let start = skip_whitespace(src, pos);
    lemma_skip_whitespace(src, pos);
    assert forall|j: int| pos <= j < start implies #[trigger] src[j] <= 0x7f by {
        assert(is_whitespace(src[j]));
    }
    lemma_ascii_run_boundary(src, pos, start);
    if start < src.len() {
        lemma_char_boundary_step(src, start);
        if is_digit(src[start]) {
            let end = digits_end(src, start);
            lemma_digits_end(src, start);
            assert(end > start);
            assert forall|j: int| start <= j < end implies #[trigger] src[j] <= 0x7f by {
                assert(is_digit(src[j]));
            }
            lemma_ascii_run_boundary(src, start, end);
            assert forall|j: int| start <= j < end implies !is_whitespace(#[trigger] src[j]) by {
                assert(is_digit(src[j]));
            }
        } else {
            let tail = src.subrange(start, src.len() as int);
            assert(valid_first_scalar(tail));
            assert forall|j: int|
                start <= j < start + char_width(src, start) implies !is_whitespace(
                #[trigger] src[j],
            ) by {
                assert(src[j] == tail[j - start]);
            }
        }
    }
}

/// The spans of a token sequence follow one another through the source:
/// each is well formed and starts at or after the end of its predecessor,
/// only whitespace lies between two of them, and the last one, the
/// end-of-input token, stands at the end of the source.
pub proof fn lemma_token_stream_spans(src: Seq<u8>, tokens: Seq<Token>, i: int)
    requires
        valid_utf8(src),
        is_token_stream(src, tokens),
        0 <= i < tokens.len(),
    ensures
        0 <= scan_start(tokens, i) <= tokens[i].span.start <= tokens[i].span.end <= src.len(),
        is_char_boundary(src, tokens[i].span.end as int),
        forall|j: int|
            scan_start(tokens, i) <= j < tokens[i].span.start ==> is_whitespace(#[trigger] src[j]),
        forall|j: int|
            tokens[i].span.start <= j < tokens[i].span.end ==> !is_whitespace(#[trigger] src[j]),
        i < tokens.len() - 1 ==> tokens[i].span.start < tokens[i].span.end,
        i == tokens.len() - 1 ==> tokens[i].span.start == src.len() && tokens[i].span.end
            == src.len(),
    decreases i,
{
    if i > 0 {
        lemma_token_stream_spans(src, tokens, i - 1);
    }
    assert(token_follows(src, tokens, i));
    lemma_token_span(src, scan_start(tokens, i), tokens[i]);
}

/// Removing the whitespace from the part of the source that the first
/// `count` tokens reach over leaves what their spans cover.
proof fn lemma_prefix_covers(src: Seq<u8>, tokens: Seq<Token>, count: int)
    requires
        valid_utf8(src),
        is_token_stream(src, tokens),
        0 <= count <= tokens.len(),
    ensures
        covered_text(src, tokens.take(count)) == without_whitespace(
            src.subrange(0, scan_start(tokens, count)),
        ),
    decreases count,
{
    if count == 0 {
        reveal(Seq::filter);
        assert(src.subrange(0, 0) =~= Seq::<u8>::empty());
    } else {
        let i = count - 1;
        lemma_prefix_covers(src, tokens, i);
        lemma_token_stream_spans(src, tokens, i);
        let from = scan_start(tokens, i);
        let start = tokens[i].span.start as int;
        let end = tokens[i].span.end as int;
        let gap = src.subrange(from, start);
        let text = src.subrange(start, end);
        assert(tokens.take(count).drop_last() =~= tokens.take(i));
        assert(tokens.take(count).last() == tokens[i]);
        assert(src.subrange(0, end) =~= src.subrange(0, from) + gap + text);
        lemma_whitespace_vanishes(gap);
        lemma_visible_stays(text);
        Seq::filter_distributes_over_add(src.subrange(0, from), gap, |b: u8| !is_whitespace(b));
        Seq::filter_distributes_over_add(
            src.subrange(0, from) + gap,
            text,
            |b: u8| !is_whitespace(b),
        );
        assert(without_whitespace(src.subrange(0, from)) + Seq::<u8>::empty()
            =~= without_whitespace(src.subrange(0, from)));
    }
}

/// Put one after the other, the pieces of the source that the tokens cover
/// give the source with its whitespace removed; where the source holds no
/// whitespace, they give the source itself.
pub proof fn lemma_token_stream_covers(src: Seq<u8>, tokens: Seq<Token>)
    requires
        valid_utf8(src),
        is_token_stream(src, tokens),
    ensures
        covered_text(src, tokens) == without_whitespace(src),
        (forall|j: int| 0 <= j < src.len() ==> !is_whitespace(#[trigger] src[j]))
            ==> covered_text(src, tokens) == src,
{
    let count = tokens.len() as int;
    lemma_prefix_covers(src, tokens, count);
    lemma_token_stream_spans(src, tokens, count - 1);
    assert(tokens.take(count) =~= tokens);
    assert(src.subrange(0, src.len() as int) =~= src);
    if forall|j: int| 0 <= j < src.len() ==> !is_whitespace(#[trigger] src[j]) {
        lemma_visible_stays(src);
    }
}

} // verus!
