//! What the grammar consumes: every element that matches ends inside the
//! text, at or after the position where it began, and spans ASCII bytes only.
//! A failure is reported at such a position too.

use crate::grammar::{
    black_end_game, blanks, blanks_end, byte_is, checkmate, departure, digits_end, end_game,
    figure, full_moves, game, game_result, half_move, half_move_with_departure,
    half_move_without_departure, has_at, is_blank, is_digit, more_full_moves, move_number,
    move_tail, next_full_move, numbered_full_move, numbered_half_move, opt_byte, opt_mark,
    score_token, spaced_half_move, square, white_end_game, Parsed,
};
use crate::notation::{
    draw_offer_mark, draw_score, en_passant_mark, is_ascii, kingside, queenside, score,
};
use crate::types::{Color, Departure, Figure, Move};
use vstd::prelude::*;

verus! {

/// Whether `from..to` is a range of `s` that holds ASCII bytes only.
pub open spec fn spans_ascii(s: Seq<u8>, from: int, to: int) -> bool {
    &&& 0 <= from <= to <= s.len()
    &&& forall|i: int| from <= i < to ==> #[trigger] s[i] < 0x80
}

/// Whether an outcome of the grammar from `at` spans ASCII bytes only: up
/// to the end of a match, or up to the position of a failure.
pub open spec fn matched_ascii<T>(outcome: Parsed<T>, s: Seq<u8>, at: int) -> bool {
    match outcome {
        Parsed::Matched { end, .. } => spans_ascii(s, at, end),
        Parsed::Failed { at: failed_at, .. } => spans_ascii(s, at, failed_at),
    }
}

/// A run of blanks is ASCII.
proof fn lemma_blanks_end_spans_ascii(s: Seq<u8>, at: int)
    requires
        0 <= at <= s.len(),
    ensures
        spans_ascii(s, at, blanks_end(s, at)),
    decreases s.len() - at,
{
    if at < s.len() && is_blank(s[at]) {
        lemma_blanks_end_spans_ascii(s, at + 1);
    }
}

/// A run of digits is ASCII.
proof fn lemma_digits_end_spans_ascii(s: Seq<u8>, at: int)
    requires
        0 <= at <= s.len(),
    ensures
        spans_ascii(s, at, digits_end(s, at)),
    decreases s.len() - at,
{
    if at < s.len() && is_digit(s[at]) {
        lemma_digits_end_spans_ascii(s, at + 1);
    }
}

/// An ASCII piece that stands in a text spans ASCII bytes there.
proof fn lemma_has_at_spans_ascii(s: Seq<u8>, at: int, piece: Seq<u8>)
    requires
        has_at(s, at, piece),
        is_ascii(piece),
    ensures
        spans_ascii(s, at, at + piece.len()),
{
    assert forall|i: int| at <= i < at + piece.len() implies #[trigger] s[i] < 0x80 by {
        assert(s[i] == s.subrange(at, at + piece.len())[i - at]);
        assert(piece[i - at] < 0x80);
    }
}

/// An optional marker, read or not, spans ASCII bytes.
proof fn lemma_opt_mark_spans_ascii(s: Seq<u8>, at: int, mark: Seq<u8>)
    requires
        0 <= at <= s.len(),
        is_ascii(mark),
    ensures
        spans_ascii(s, at, opt_mark(s, at, mark).1),
{
    lemma_blanks_end_spans_ascii(s, at);
    if blanks_end(s, at) > at && has_at(s, blanks_end(s, at), mark) {
        lemma_has_at_spans_ascii(s, blanks_end(s, at), mark);
    }
}

/// What follows figure and departure spans ASCII bytes.
proof fn lemma_move_tail_spans_ascii(s: Seq<u8>, at: int, piece: Figure, from: Option<Departure>)
    requires
        0 <= at <= s.len(),
    ensures
        move_tail(s, at, piece, from) matches Some((_, end)) ==> spans_ascii(s, at, end),
{
    let after_capture = opt_byte(s, at, 'x' as u8).1;
    if let Some((_, after_arrival)) = square(s, after_capture) {
        let after_check = opt_byte(s, after_arrival, '+' as u8).1;
        lemma_opt_mark_spans_ascii(s, after_check, en_passant_mark());
        let after_en_passant = opt_mark(s, after_check, en_passant_mark()).1;
        lemma_opt_mark_spans_ascii(s, after_en_passant, draw_offer_mark());
    }
}

/// A half-move is looked for, and found, within ASCII bytes.
pub proof fn lemma_half_move_spans_ascii(s: Seq<u8>, at: int)
    requires
        0 <= at <= s.len(),
    ensures
        matched_ascii(half_move(s, at), s, at),
{
    let (piece, after_figure) = figure(s, at);
    if let Some((from, after_departure)) = departure(s, after_figure) {
        lemma_move_tail_spans_ascii(s, after_departure, piece, Some(from));
    }
    lemma_move_tail_spans_ascii(s, after_figure, piece, None);
    if half_move_with_departure(s, at) is None && half_move_without_departure(s, at) is None {
        if has_at(s, at, queenside()) {
            lemma_has_at_spans_ascii(s, at, queenside());
        } else if has_at(s, at, kingside()) {
            lemma_has_at_spans_ascii(s, at, kingside());
        }
    }
}

/// Blanks span ASCII bytes and at least one of them.
proof fn lemma_blanks_spans_ascii(s: Seq<u8>, at: int)
    requires
        0 <= at <= s.len(),
    ensures
        matched_ascii(blanks(s, at), s, at),
        blanks(s, at) matches Parsed::Matched { end, .. } ==> at < end,
{
    lemma_blanks_end_spans_ascii(s, at);
}

/// A move number spans ASCII bytes and at least one of them.
proof fn lemma_move_number_spans_ascii(s: Seq<u8>, at: int)
    requires
        0 <= at <= s.len(),
    ensures
        matched_ascii(move_number(s, at), s, at),
        move_number(s, at) matches Parsed::Matched { end, .. } ==> at < end,
{
    lemma_digits_end_spans_ascii(s, at);
}

/// Blanks and a half-move span ASCII bytes.
proof fn lemma_spaced_half_move_spans_ascii(s: Seq<u8>, at: int)
    requires
        0 <= at <= s.len(),
    ensures
        matched_ascii(spaced_half_move(s, at), s, at),
        spaced_half_move(s, at) matches Parsed::Matched { end, .. } ==> at < end,
{
    lemma_blanks_spans_ascii(s, at);
    if let Parsed::Matched { end, .. } = blanks(s, at) {
        lemma_half_move_spans_ascii(s, end);
    }
}

/// A numbered half-move spans ASCII bytes.
proof fn lemma_numbered_half_move_spans_ascii(s: Seq<u8>, at: int)
    requires
        0 <= at <= s.len(),
    ensures
        matched_ascii(numbered_half_move(s, at), s, at),
        numbered_half_move(s, at) matches Parsed::Matched { end, .. } ==> at < end,
{
    lemma_move_number_spans_ascii(s, at);
    if let Parsed::Matched { end, .. } = move_number(s, at) {
        lemma_spaced_half_move_spans_ascii(s, end);
    }
}

/// A full move spans ASCII bytes.
proof fn lemma_numbered_full_move_spans_ascii(s: Seq<u8>, at: int)
    requires
        0 <= at <= s.len(),
    ensures
        matched_ascii(numbered_full_move(s, at), s, at),
        numbered_full_move(s, at) matches Parsed::Matched { end, .. } ==> at < end,
{
    lemma_numbered_half_move_spans_ascii(s, at);
    if let Parsed::Matched { end, .. } = numbered_half_move(s, at) {
        lemma_spaced_half_move_spans_ascii(s, end);
    }
}

/// Blanks and a full move span ASCII bytes.
proof fn lemma_next_full_move_spans_ascii(s: Seq<u8>, at: int)
    requires
        0 <= at <= s.len(),
    ensures
        matched_ascii(next_full_move(s, at), s, at),
        next_full_move(s, at) matches Parsed::Matched { end, .. } ==> at < end,
{
    lemma_blanks_spans_ascii(s, at);
    if let Parsed::Matched { end, .. } = blanks(s, at) {
        lemma_numbered_full_move_spans_ascii(s, end);
    }
}

/// The full moves that follow span ASCII bytes, and none that was found
/// is dropped.
proof fn lemma_more_full_moves_spans_ascii(s: Seq<u8>, at: int, found: Seq<Move>)
    requires
        0 <= at <= s.len(),
    ensures
        spans_ascii(s, at, more_full_moves(s, at, found).1),
        more_full_moves(s, at, found).0.len() >= found.len(),
    decreases s.len() - at,
{
    lemma_next_full_move_spans_ascii(s, at);
    if let Parsed::Matched { value, end } = next_full_move(s, at) {
        lemma_more_full_moves_spans_ascii(s, end, found.push(value));
    }
}

/// The sequence of full moves spans ASCII bytes.
proof fn lemma_full_moves_spans_ascii(s: Seq<u8>, at: int)
    requires
        0 <= at <= s.len(),
    ensures
        spans_ascii(s, at, full_moves(s, at).1),
{
    lemma_numbered_full_move_spans_ascii(s, at);
    if let Parsed::Matched { value, end } = numbered_full_move(s, at) {
        lemma_more_full_moves_spans_ascii(s, end, seq![value]);
    }
}

/// A score spans ASCII bytes.
proof fn lemma_score_token_spans_ascii(s: Seq<u8>, at: int)
    requires
        0 <= at <= s.len(),
    ensures
        score_token(s, at) matches Some((_, end)) ==> spans_ascii(s, at, end),
{
    if has_at(s, at, score(Color::White)) {
        lemma_has_at_spans_ascii(s, at, score(Color::White));
    } else if has_at(s, at, score(Color::Black)) {
        lemma_has_at_spans_ascii(s, at, score(Color::Black));
    } else if has_at(s, at, draw_score()) {
        lemma_has_at_spans_ascii(s, at, draw_score());
    }
}

/// A result spans ASCII bytes.
proof fn lemma_game_result_spans_ascii(s: Seq<u8>, at: int, draw_offer: bool)
    requires
        0 <= at <= s.len(),
    ensures
        matched_ascii(game_result(s, at, draw_offer), s, at),
{
    lemma_blanks_spans_ascii(s, at);
    if let Parsed::Matched { end, .. } = blanks(s, at) {
        lemma_score_token_spans_ascii(s, end);
    }
}

/// A checkmate marker with its optional score spans ASCII bytes.
proof fn lemma_checkmate_spans_ascii(s: Seq<u8>, at: int, winner: Color)
    requires
        0 <= at <= s.len(),
    ensures
        checkmate(s, at, winner) matches Some((_, end)) ==> spans_ascii(s, at, end),
{
    if byte_is(s, at, '#' as u8) {
        lemma_opt_mark_spans_ascii(s, at + 1, score(winner));
    }
}

/// The end of a game after Black's half-move spans ASCII bytes.
proof fn lemma_black_end_game_spans_ascii(s: Seq<u8>, at: int, draw_offer: bool)
    requires
        0 <= at <= s.len(),
    ensures
        matched_ascii(black_end_game(s, at, draw_offer), s, at),
{
    lemma_checkmate_spans_ascii(s, at, Color::Black);
    lemma_game_result_spans_ascii(s, at, draw_offer);
}

/// The end of a game after a half-move of White spans ASCII bytes.
proof fn lemma_white_end_game_spans_ascii(s: Seq<u8>, at: int)
    requires
        0 <= at <= s.len(),
    ensures
        matched_ascii(white_end_game(s, at), s, at),
{
    lemma_numbered_half_move_spans_ascii(s, at);
    if let Parsed::Matched { value, end } = numbered_half_move(s, at) {
        lemma_checkmate_spans_ascii(s, end, Color::White);
        lemma_game_result_spans_ascii(s, end, value.offers_draw());
    }
}

/// The end of a game spans ASCII bytes.
proof fn lemma_end_game_spans_ascii(s: Seq<u8>, at: int, moves: Seq<Move>)
    requires
        0 <= at <= s.len(),
    ensures
        matched_ascii(end_game(s, at, moves), s, at),
{
    lemma_black_end_game_spans_ascii(s, at, moves.len() > 0 && moves.last().black.offers_draw());
    lemma_blanks_spans_ascii(s, at);
    if let Parsed::Matched { end, .. } = blanks(s, at) {
        lemma_white_end_game_spans_ascii(s, end);
    }
}

/// A game that matches ends inside the text, and every byte before its end
/// is ASCII. The same holds of the position of a failure.
pub proof fn lemma_game_spans_ascii(s: Seq<u8>)
    ensures
        matched_ascii(game(s), s, 0),
{
    lemma_full_moves_spans_ascii(s, 0);
    lemma_end_game_spans_ascii(s, full_moves(s, 0).1, full_moves(s, 0).0);
}

} // verus!
