//! Theorems about the tokenizer's behaviour.

use vstd::prelude::*;
use vstd::utf8::{encode_utf8, is_ascii_chars, is_ascii_chars_encode_utf8};
use crate::lexer::{
    lemma_run_end, lemma_scan_progress, run_end, scan, token_at, tokens_from, word_kind,
    ByteClass,
};
use crate::text::text_of;
use crate::token::{TokenKind, TokenView};

verus! {

/// The spelling of every payload-free kind is ASCII, so its encoding has one
/// byte per character, with the character's code.
pub proof fn lemma_lexeme_encoding(kind: TokenKind)
    ensures
        encode_utf8(kind.lexeme()).len() == kind.lexeme().len(),
        forall|i: int|
            0 <= i < kind.lexeme().len() ==> #[trigger] encode_utf8(kind.lexeme())[i]
                == kind.lexeme()[i] as u8,
        text_of(encode_utf8(kind.lexeme())) == kind.lexeme(),
{
    let chars = kind.lexeme();
    assert(is_ascii_chars(chars));
    is_ascii_chars_encode_utf8(chars);
    assert(text_of(encode_utf8(chars)) =~= chars);
}

/// Round trip of token classification: rendering an operator, a delimiter
/// or a keyword back to text and tokenizing that text yields the same token,
/// and the cursor then stands at the end of the text.
pub proof fn lemma_fixed_lexeme_round_trip(kind: TokenKind)
    requires
        kind.has_fixed_lexeme(),
    ensures
        scan(encode_utf8(kind.lexeme()), 0).token == TokenView::fixed(kind),
        scan(encode_utf8(kind.lexeme()), 0).next == encode_utf8(kind.lexeme()).len(),
{
    let chars = kind.lexeme();
    let input = encode_utf8(chars);
    lemma_lexeme_encoding(kind);
    assert(run_end(input, 0, ByteClass::Blank) == 0);
    if kind.is_keyword() {
        reveal_with_fuel(run_end, 8);
        let end = run_end(input, 0, ByteClass::Letter);
        assert(end == input.len());
        assert(input.subrange(0, end) =~= input);
        assert(word_kind(chars) == kind);
    } else {
        assert(token_at(input, 0).token == TokenView::fixed(kind));
    }
}

/// The cursor position after `n` steps of the tokenizer from `pos`.
pub open spec fn cursor_after(input: Seq<u8>, pos: int, n: nat) -> int
    decreases n,
{
    if n == 0 {
        pos
    } else {
        scan(input, cursor_after(input, pos, (n - 1) as nat)).next
    }
}

/// Idempotent end of input: once a step has yielded the end marker, every
/// later step yields the end marker too, and the cursor rests where the
/// first end marker left it.
pub proof fn lemma_end_marker_repeats(input: Seq<u8>, pos: int, n: nat)
    requires
        0 <= pos <= input.len(),
        scan(input, pos).token.kind == TokenKind::Eof,
    ensures
        scan(input, cursor_after(input, pos, n)).token == TokenView::eof(),
        n >= 1 ==> cursor_after(input, pos, n) == scan(input, pos).next,
    decreases n,
{
    lemma_scan_progress(input, pos);
    if n > 0 {
        lemma_end_marker_repeats(input, pos, (n - 1) as nat);
        let before = cursor_after(input, pos, (n - 1) as nat);
        assert(scan(input, before).next == scan(input, pos).next);
    }
}

/// The same, seen from the stream: where the next step yields the end
/// marker, the stream of tokens still to come is the end marker alone, from
/// there and from wherever later steps leave the cursor.
pub proof fn lemma_stream_ends_with_end_marker(input: Seq<u8>, pos: int, n: nat)
    requires
        0 <= pos <= input.len(),
        scan(input, pos).token.kind == TokenKind::Eof,
    ensures
        tokens_from(input, cursor_after(input, pos, n)) == seq![TokenView::eof()],
{
    lemma_end_marker_repeats(input, pos, n);
    lemma_scan_progress(input, pos);
}

/// At the end of the input a step yields the end marker and leaves the
/// cursor where it is.
pub proof fn lemma_end_of_input_is_stable(input: Seq<u8>)
    ensures
        scan(input, input.len() as int).token == TokenView::eof(),
        scan(input, input.len() as int).next == input.len(),
{
    lemma_scan_progress(input, input.len() as int);
}

/// In a text without zero bytes the end marker is yielded only at the end
/// of the input: every token of the text comes before it.
pub proof fn lemma_end_marker_only_at_end(input: Seq<u8>, pos: int)
    requires
        0 <= pos <= input.len(),
        forall|i: int| 0 <= i < input.len() ==> input[i] != 0,
        scan(input, pos).token.kind == TokenKind::Eof,
    ensures
        scan(input, pos).next == input.len(),
{
    lemma_run_end(input, pos, ByteClass::Blank);
    let start = run_end(input, pos, ByteClass::Blank);
    if start < input.len() {
        assert(input[start] != 0);
        if ByteClass::Letter.contains(input[start]) {
            lemma_word_is_not_end_marker(text_of(input.subrange(start, run_end(input, start, ByteClass::Letter))));
        }
    }
}

/// A run of letters never reads as the end marker.
pub proof fn lemma_word_is_not_end_marker(word: Seq<char>)
    ensures
        word_kind(word) != TokenKind::Eof,
{
}

/// A token spells its source: the text of a token scanned from an ASCII
/// byte other than zero is the text of the bytes between the place it
/// starts at and the place the cursor moves to. (The end marker and a byte
/// outside ASCII have a text that is not in the source.)
pub proof fn lemma_token_spells_its_source(input: Seq<u8>, start: int)
    requires
        0 <= start < input.len(),
        0 < input[start] < 0x80,
    ensures
        start < token_at(input, start).next <= input.len(),
        token_at(input, start).token.text == text_of(
            input.subrange(start, token_at(input, start).next),
        ),
{
    let b = input[start];
    let step = token_at(input, start);
    if ByteClass::Letter.contains(b) {
        lemma_run_end(input, start, ByteClass::Letter);
    } else if ByteClass::Digit.contains(b) {
        lemma_run_end(input, start, ByteClass::Digit);
    } else {
        assert(step.token.text =~= text_of(input.subrange(start, step.next)));
    }
}

/// A tokenized text ends with exactly one end marker: the sequence of
/// tokens is not empty, ends with the end marker and holds no other.
pub proof fn lemma_single_end_marker(input: Seq<u8>, pos: int)
    requires
        0 <= pos <= input.len(),
    ensures
        tokens_from(input, pos).len() >= 1,
        tokens_from(input, pos).last() == TokenView::eof(),
        forall|i: int|
            0 <= i < tokens_from(input, pos).len() - 1 ==> (#[trigger] tokens_from(
                input,
                pos,
            )[i]).kind != TokenKind::Eof,
    decreases input.len() - pos,
{
    let step = scan(input, pos);
    if pos < input.len() && step.token.kind != TokenKind::Eof {
        lemma_scan_progress(input, pos);
        lemma_single_end_marker(input, step.next);
        let rest = tokens_from(input, step.next);
        let all = tokens_from(input, pos);
        assert(all =~= seq![step.token] + rest);
        assert forall|i: int| 0 <= i < all.len() - 1 implies (#[trigger] all[i]).kind
            != TokenKind::Eof by {
            if i > 0 {
                assert(all[i] == rest[i - 1]);
            }
        }
    }
}

} // verus!
