//! Parsing undoes rendering: the transcript of a canonical game is read back
//! as that game, to its last byte.

use crate::grammar::{
    blanks, blanks_end, checkmate, digits_end, end_game, full_moves, game, game_result, half_move,
    half_move_with_departure, half_move_without_departure, has_at, is_digit, more_full_moves,
    move_number, next_full_move, numbered_full_move, score_token, spaced_half_move, white_end_game,
    Parsed,
};
use crate::notation::{
    decimal, draw_score, kingside, lemma_moves_notation_not_empty, moves_notation, numbered,
    queenside, score,
};
use crate::reading::{
    half_move_stops, lemma_decimal, lemma_has_at_byte, lemma_has_at_split, lemma_read_full_move,
    lemma_read_number, lemma_read_numbered_half_move, lemma_single_blank, lemma_stops_at_end,
    lemma_stops_before_byte, lemma_stops_before_token, token_starts,
};
use crate::types::{Color, GameView, HalfMove, Move, Result};
use vstd::prelude::*;

verus! {

/// A text holds itself from its start.
pub proof fn lemma_has_at_whole(s: Seq<u8>)
    ensures
        has_at(s, 0, s),
{
    assert(s.subrange(0, s.len() as int) =~= s);
}

/// The full moves of a game are read back, up to the position where their
/// notation ends: from there on, reading goes on with all of them found.
pub proof fn lemma_read_moves(s: Seq<u8>, at: int, moves: Seq<Move>)
    requires
        moves.len() >= 1,
        has_at(s, at, moves_notation(moves)),
        half_move_stops(s, at + moves_notation(moves).len()),
    ensures
        full_moves(s, at) == more_full_moves(s, at + moves_notation(moves).len(), moves),
        token_starts(s, at),
        is_digit(s[at]),
    decreases moves.len(),
{
    if moves.len() == 1 {
        lemma_read_full_move(s, at, 1, moves[0]);
        assert(seq![moves[0]] =~= moves);
    } else {
        let init = moves.drop_last();
        let last = numbered(moves.len(), moves.last().notation());
        let blank = seq![' ' as u8];
        lemma_has_at_split(s, at, moves_notation(init) + blank, last);
        lemma_has_at_split(s, at, moves_notation(init), blank);
        let at_blank = at + moves_notation(init).len();
        lemma_has_at_byte(s, at_blank, blank, 0);
        lemma_read_full_move(s, at_blank + 1, moves.len(), moves.last());
        lemma_stops_before_token(s, at_blank);
        lemma_read_moves(s, at, init);
        assert(init.push(moves.last()) =~= moves);
        assert(next_full_move(s, at_blank) == numbered_full_move(s, at_blank + 1));
    }
}

/// The sequence of full moves is read back where nothing after it can be
/// taken for a part of it.
pub proof fn lemma_read_all_moves(s: Seq<u8>, moves: Seq<Move>)
    requires
        has_at(s, 0, moves_notation(moves)),
        half_move_stops(s, moves_notation(moves).len() as int),
        next_full_move(s, moves_notation(moves).len() as int) is Failed,
        moves.len() == 0 ==> numbered_full_move(s, 0) is Failed,
    ensures
        full_moves(s, 0) == (moves, moves_notation(moves).len() as int),
{
    if moves.len() >= 1 {
        lemma_read_moves(s, 0, moves);
    } else {
        assert(moves =~= Seq::<Move>::empty());
    }
}

/// A score is read back, and is neither a move number nor a half-move.
pub proof fn lemma_read_score(s: Seq<u8>, at: int, result: Result)
    requires
        result.stands_apart(),
        has_at(s, at, result.notation()),
    ensures
        score_token(s, at) == Some((result, at + result.notation().len())),
        token_starts(s, at),
        move_number(s, at) is Failed,
        half_move(s, at) is Failed,
{
    let token = result.notation();
    lemma_has_at_byte(s, at, token, 0);
    lemma_has_at_byte(s, at, token, 1);
    lemma_has_at_byte(s, at, token, 2);
    reveal_with_fuel(digits_end, 3);
    if has_at(s, at, score(Color::White)) {
        lemma_has_at_byte(s, at, score(Color::White), 0);
        lemma_has_at_byte(s, at, score(Color::White), 1);
    }
    if has_at(s, at, score(Color::Black)) {
        lemma_has_at_byte(s, at, score(Color::Black), 0);
        lemma_has_at_byte(s, at, score(Color::Black), 2);
    }
    if has_at(s, at, queenside()) {
        lemma_has_at_byte(s, at, queenside(), 0);
        lemma_has_at_byte(s, at, queenside(), 2);
    }
    if has_at(s, at, kingside()) {
        lemma_has_at_byte(s, at, kingside(), 0);
        lemma_has_at_byte(s, at, kingside(), 2);
    }
    assert(half_move_with_departure(s, at) is None);
    assert(half_move_without_departure(s, at) is None);
}

/// A blank and a score after the last half-move are read back as the
/// result. The half-move stops before them, and neither a full move nor a
/// half-move follows it.
pub proof fn lemma_read_result(s: Seq<u8>, at: int, result: Result, draw_offer: bool)
    requires
        result.stands_apart(),
        has_at(s, at, seq![' ' as u8] + result.notation()),
    ensures
        game_result(s, at, draw_offer) == (Parsed::Matched {
            value: result,
            end: at + 1 + result.notation().len(),
        }),
        half_move_stops(s, at),
        checkmate(s, at, Color::White) is None,
        checkmate(s, at, Color::Black) is None,
        next_full_move(s, at) is Failed,
        spaced_half_move(s, at) is Failed,
{
    lemma_has_at_split(s, at, seq![' ' as u8], result.notation());
    lemma_has_at_byte(s, at, seq![' ' as u8], 0);
    lemma_read_score(s, at + 1, result);
    lemma_stops_before_token(s, at);
}

/// The checkmate marker with the winner's score is read back. The
/// half-move stops before it, and no blank follows the half-move.
pub proof fn lemma_read_checkmate(s: Seq<u8>, at: int, winner: Color)
    requires
        has_at(s, at, Result::Checkmate(winner).notation()),
    ensures
        checkmate(s, at, winner) == Some((Result::Checkmate(winner), at + 5)),
        half_move_stops(s, at),
        blanks(s, at) is Failed,
        move_number(s, at) is Failed,
{
    let mark = seq!['#' as u8, ' ' as u8];
    lemma_has_at_split(s, at, mark, score(winner));
    lemma_has_at_byte(s, at, mark, 0);
    lemma_has_at_byte(s, at, mark, 1);
    lemma_has_at_byte(s, at + 2, score(winner), 0);
    lemma_stops_before_byte(s, at);
    lemma_single_blank(s, at + 1);
    reveal_with_fuel(blanks_end, 1);
    reveal_with_fuel(digits_end, 1);
}

/// A move number is no score.
pub proof fn lemma_number_is_no_score(s: Seq<u8>, at: int, n: nat)
    requires
        n >= 1,
        has_at(s, at, decimal(n) + seq!['.' as u8, ' ' as u8]),
    ensures
        score_token(s, at) is None,
{
    lemma_read_number(s, at, n);
    lemma_decimal(n);
    if has_at(s, at, score(Color::White)) {
        lemma_has_at_byte(s, at, score(Color::White), 1);
    }
    if has_at(s, at, score(Color::Black)) {
        lemma_has_at_byte(s, at, score(Color::Black), 0);
    }
    if has_at(s, at, draw_score()) {
        lemma_has_at_byte(s, at, draw_score(), 1);
    }
}

/// What is written after a last half-move of White: the checkmate marker
/// with White's score, or a blank and a score.
pub open spec fn white_end_notation(result: Result) -> Seq<u8> {
    if result.stands_apart() {
        seq![' ' as u8] + result.notation()
    } else {
        result.notation()
    }
}

/// What a canonical game writes after its full moves: a blank, White's last
/// half-move under the next number and its result; or the result alone,
/// after a blank where it is a score.
pub open spec fn end_notation(g: GameView) -> Seq<u8> {
    match g.last_half_move {
        Some(white) => seq![' ' as u8] + (numbered(g.moves.len() + 1, white.notation())
            + white_end_notation(g.result)),
        None => if g.result.stands_apart() {
            seq![' ' as u8] + g.result.notation()
        } else {
            g.result.notation()
        },
    }
}

/// The transcript of a canonical game is the notation of its full moves and
/// what is written after them.
pub proof fn lemma_notation_parts(g: GameView)
    requires
        g.is_canonical(),
    ensures
        g.notation() == moves_notation(g.moves) + end_notation(g),
{
    if g.moves.len() > 0 {
        lemma_moves_notation_not_empty(g.moves);
    }
    assert(g.notation() =~= moves_notation(g.moves) + end_notation(g));
}

/// The end of the text, after moves without a draw offer of Black, is read
/// as an unknown result.
proof fn lemma_read_end_unknown(s: Seq<u8>, moves: Seq<Move>)
    requires
        !(moves.len() > 0 && moves.last().black.offers_draw()),
    ensures
        end_game(s, s.len() as int, moves) == (Parsed::Matched {
            value: GameView { moves, last_half_move: None, result: Result::Unknown },
            end: s.len() as int,
        }),
        half_move_stops(s, s.len() as int),
        next_full_move(s, s.len() as int) is Failed,
        s.len() == 0 ==> numbered_full_move(s, 0) is Failed,
{
    lemma_stops_at_end(s);
    reveal_with_fuel(blanks_end, 1);
    reveal_with_fuel(digits_end, 1);
}

/// A checkmate by Black after the full moves is read back.
proof fn lemma_read_end_checkmate(s: Seq<u8>, at: int, moves: Seq<Move>)
    requires
        has_at(s, at, Result::Checkmate(Color::Black).notation()),
    ensures
        end_game(s, at, moves) == (Parsed::Matched {
            value: GameView {
                moves,
                last_half_move: None,
                result: Result::Checkmate(Color::Black),
            },
            end: at + 5,
        }),
        half_move_stops(s, at),
        next_full_move(s, at) is Failed,
        numbered_full_move(s, at) is Failed,
{
    lemma_read_checkmate(s, at, Color::Black);
}

/// A result after the full moves is read back.
proof fn lemma_read_end_result(s: Seq<u8>, at: int, moves: Seq<Move>, result: Result)
    requires
        result.stands_apart(),
        has_at(s, at, seq![' ' as u8] + result.notation()),
    ensures
        end_game(s, at, moves) == (Parsed::Matched {
            value: GameView { moves, last_half_move: None, result },
            end: at + 1 + result.notation().len(),
        }),
        half_move_stops(s, at),
        next_full_move(s, at) is Failed,
{
    lemma_read_result(s, at, result, moves.len() > 0 && moves.last().black.offers_draw());
}

/// A last half-move of White with its result is read back.
proof fn lemma_read_white_end(s: Seq<u8>, at: int, n: nat, white: HalfMove, result: Result)
    requires
        n >= 1,
        result.stands_apart() || result == Result::Checkmate(Color::White),
        has_at(s, at, numbered(n, white.notation()) + white_end_notation(result)),
    ensures
        white_end_game(s, at) == (Parsed::Matched {
            value: (white, result),
            end: at + (numbered(n, white.notation()) + white_end_notation(result)).len(),
        }),
        numbered_full_move(s, at) is Failed,
        score_token(s, at) is None,
        token_starts(s, at),
{
    let last = numbered(n, white.notation());
    let number = decimal(n) + seq!['.' as u8, ' ' as u8];
    lemma_has_at_split(s, at, last, white_end_notation(result));
    lemma_has_at_split(s, at, number, white.notation());
    let after_last = at + last.len();
    match result {
        Result::Checkmate(winner) => {
            lemma_read_checkmate(s, after_last, winner);
        },
        _ => {
            lemma_read_result(s, after_last, result, white.offers_draw());
        },
    }
    lemma_read_numbered_half_move(s, at, n, white);
    lemma_number_is_no_score(s, at, n);
}

/// A last half-move of White after the full moves, with its result, is read
/// back.
proof fn lemma_read_end_white(
    s: Seq<u8>,
    at: int,
    moves: Seq<Move>,
    white: HalfMove,
    result: Result,
)
    requires
        moves.len() >= 1,
        !moves.last().black.offers_draw(),
        result.stands_apart() || result == Result::Checkmate(Color::White),
        has_at(
            s,
            at,
            seq![' ' as u8] + (numbered(moves.len() + 1, white.notation()) + white_end_notation(
                result,
            )),
        ),
    ensures
        end_game(s, at, moves) == (Parsed::Matched {
            value: GameView { moves, last_half_move: Some(white), result },
            end: at + 1 + (numbered(moves.len() + 1, white.notation()) + white_end_notation(
                result,
            )).len(),
        }),
        half_move_stops(s, at),
        next_full_move(s, at) is Failed,
{
    let rest = numbered(moves.len() + 1, white.notation()) + white_end_notation(result);
    lemma_has_at_split(s, at, seq![' ' as u8], rest);
    lemma_has_at_byte(s, at, seq![' ' as u8], 0);
    lemma_read_white_end(s, at + 1, moves.len() + 1, white, result);
    lemma_stops_before_token(s, at);
}

/// What a canonical game writes after its full moves is read back as the
/// end of the game, and the full moves stop before it.
proof fn lemma_read_end(s: Seq<u8>, at: int, g: GameView)
    requires
        g.is_canonical(),
        has_at(s, at, end_notation(g)),
        at + end_notation(g).len() == s.len(),
        g.moves.len() == 0 ==> at == 0,
    ensures
        end_game(s, at, g.moves) == (Parsed::Matched { value: g, end: s.len() as int }),
        half_move_stops(s, at),
        next_full_move(s, at) is Failed,
        g.moves.len() == 0 ==> numbered_full_move(s, 0) is Failed,
{
    match g.last_half_move {
        Some(white) => {
            lemma_read_end_white(s, at, g.moves, white, g.result);
        },
        None => match g.result {
            Result::Unknown => {
                lemma_read_end_unknown(s, g.moves);
            },
            Result::Checkmate(winner) => {
                lemma_read_end_checkmate(s, at, g.moves);
            },
            _ => {
                lemma_read_end_result(s, at, g.moves, g.result);
            },
        },
    }
}

/// Parsing undoes rendering: the transcript of a canonical game is read
/// back as that game, and nothing of the transcript is left over.
pub proof fn lemma_parse_of_rendered_game(g: GameView)
    requires
        g.is_canonical(),
    ensures
        game(g.notation()) == (Parsed::Matched { value: g, end: g.notation().len() as int }),
{
    let s = g.notation();
    let body = moves_notation(g.moves);
    lemma_notation_parts(g);
    lemma_has_at_whole(s);
    lemma_has_at_split(s, 0, body, end_notation(g));
    lemma_read_end(s, body.len() as int, g);
    lemma_read_all_moves(s, g.moves);
}

/// Whether `text` is the transcript of a canonical game: single blanks
/// between its tokens, moves numbered from 1, and the result written out.
pub open spec fn is_canonical_transcript(text: Seq<u8>) -> bool {
    exists|g: GameView| g.is_canonical() && #[trigger] g.notation() == text
}

/// Rendering undoes parsing: a canonical transcript is parsed to its last
/// byte, and the game that is found has that transcript.
pub proof fn lemma_render_of_parsed_transcript(text: Seq<u8>)
    requires
        is_canonical_transcript(text),
    ensures
        game(text) matches Parsed::Matched { value, end } && value.is_canonical()
            && value.notation() == text && end == text.len(),
{
    let g = choose|g: GameView| g.is_canonical() && #[trigger] g.notation() == text;
    lemma_parse_of_rendered_game(g);
}

/// Every game that the grammar finds is well formed.
pub proof fn lemma_parsed_game_is_well_formed(text: Seq<u8>)
    ensures
        game(text) matches Parsed::Matched { value, .. } ==> value.is_well_formed(),
{
}

/// The transcript of a parsed game is canonical: a game of at least one
/// full move that was found in any text is found again in its own
/// transcript, whatever blanks, numbers and omitted results that text had.
pub proof fn lemma_parsed_game_is_read_back(text: Seq<u8>)
    ensures
        game(text) matches Parsed::Matched { value, .. } ==> value.moves.len() > 0 ==> game(
            value.notation(),
        ) == (Parsed::Matched { value, end: value.notation().len() as int }),
{
    lemma_parsed_game_is_well_formed(text);
    if let Parsed::Matched { value, .. } = game(text) {
        if value.moves.len() > 0 {
            lemma_parse_of_rendered_game(value);
        }
    }
}

} // verus!
