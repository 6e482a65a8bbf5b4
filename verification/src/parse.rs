//! The parser: from the bytes of a transcript to a [`Game`].
//!
//! Every function reads one element of the grammar at a position of the text
//! and is proved to agree with the spec function of the same element in
//! [`crate::grammar`].

use crate::extent::{lemma_game_spans_ascii, lemma_half_move_spans_ascii, spans_ascii};
use crate::grammar::{
    black_end_game, blanks, blanks_end, byte_is, checkmate, departure, digits_end, end_game,
    figure, file, full_moves, game, game_result, half_move, half_move_with_departure,
    half_move_without_departure, has_at, more_full_moves, move_number, move_tail, next_full_move,
    numbered_full_move, numbered_half_move, opt_byte, opt_mark, rank, score_token,
    spaced_half_move, square, white_end_game, Expected, Parsed,
};
use crate::notation::{draw_offer_mark, draw_score, en_passant_mark, kingside, queenside, score};
use crate::text::split_after_ascii;
use crate::types::{
    Color, Departure, Figure, File, Game, HalfMove, Move, MoveDetails, Rank, Result, Square,
};
use vstd::prelude::*;
use vstd::string::StringSliceAdditionalSpecFns;

verus! {

/// No alternative of the grammar matched.
#[derive(Debug, Eq, PartialEq, Clone, Copy, Structural)]
pub struct SyntaxError {
    /// The offset in bytes at which the parser gave up.
    pub position: usize,
    /// What it looked for there.
    pub expected: Expected,
}

/// Whether the outcome `got` of a parser is the outcome `wanted` of the
/// grammar.
spec fn agrees<T>(
    got: core::result::Result<(T, usize), SyntaxError>,
    wanted: Parsed<T>,
) -> bool {
    match wanted {
        Parsed::Matched { value, end } => got matches Ok((v, e)) && v == value && e == end,
        Parsed::Failed { at, expected } => got matches Err(error) && error.position == at
            && error.expected == expected,
    }
}

/// Whether the optional outcome `got` of a parser is the outcome `wanted` of
/// the grammar.
spec fn agrees_opt<T>(got: Option<(T, usize)>, wanted: Option<(T, int)>) -> bool {
    match wanted {
        Some((value, end)) => got matches Some((v, e)) && v == value && e == end,
        None => got is None,
    }
}

/// Whether a parser that went from `at` to the end it reports stayed inside
/// the text.
spec fn within<T>(
    got: core::result::Result<(T, usize), SyntaxError>,
    at: usize,
    len: nat,
) -> bool {
    got matches Ok((_, end)) ==> at <= end <= len
}

/// As [`within`], for an optional outcome.
spec fn within_opt<T>(got: Option<(T, usize)>, at: usize, len: nat) -> bool {
    got matches Some((_, end)) ==> at <= end <= len
}

/// Whether the byte `b` stands at `at`.
fn has_byte(text: &[u8], at: usize, b: u8) -> (found: bool)
    ensures
        found == byte_is(text@, at as int, b),
        found ==> at < usize::MAX,
{
    at < text.len() && text[at] == b
}

/// Whether the bytes `piece` stand at `at`.
fn has_bytes(text: &[u8], at: usize, piece: &[u8]) -> (found: bool)
    requires
        at <= text@.len(),
    ensures
        found == has_at(text@, at as int, piece@),
        found ==> at + piece@.len() <= usize::MAX,
{
    if piece.len() > text.len() - at {
        return false;
    }
    let mut i: usize = 0;
    while i < piece.len()
        invariant
            at + piece@.len() <= text@.len() <= usize::MAX,
            i <= piece@.len(),
            text@.subrange(at as int, at + i) == piece@.subrange(0, i as int),
        decreases piece@.len() - i,
    {
        if text[at + i] != piece[i] {
            assert(text@.subrange(at as int, at + piece@.len())[i as int] != piece@[i as int]);
            return false;
        }
        i += 1;
        assert(text@.subrange(at as int, at + i) =~= text@.subrange(at as int, at + i - 1).push(
            text@[at + i - 1],
        ));
        assert(piece@.subrange(0, i as int) =~= piece@.subrange(0, i - 1).push(piece@[i - 1]));
    }
    assert(piece@.subrange(0, i as int) =~= piece@);
    true
}

/// The end of the run of blanks at `at`, which may be empty.
fn skip_blanks(text: &[u8], at: usize) -> (end: usize)
    requires
        at <= text@.len(),
    ensures
        end == blanks_end(text@, at as int),
        at <= end <= text@.len(),
{
    let mut end: usize = at;
    while end < text.len() && (text[end] == ' ' as u8 || text[end] == '\t' as u8)
        invariant
            at <= end <= text@.len(),
            blanks_end(text@, end as int) == blanks_end(text@, at as int),
        decreases text@.len() - end,
    {
        end += 1;
    }
    end
}

/// The end of the run of digits at `at`, which may be empty.
fn skip_digits(text: &[u8], at: usize) -> (end: usize)
    requires
        at <= text@.len(),
    ensures
        end == digits_end(text@, at as int),
        at <= end <= text@.len(),
{
    let mut end: usize = at;
    while end < text.len() && '0' as u8 <= text[end] && text[end] <= '9' as u8
        invariant
            at <= end <= text@.len(),
            digits_end(text@, end as int) == digits_end(text@, at as int),
        decreases text@.len() - end,
    {
        end += 1;
    }
    end
}

/// Reads one or more blanks.
fn parse_blanks(text: &[u8], at: usize) -> (got: core::result::Result<((), usize), SyntaxError>)
    requires
        at <= text@.len(),
    ensures
        agrees(got, blanks(text@, at as int)),
        got matches Ok((_, end)) ==> at < end <= text@.len(),
{
    let end = skip_blanks(text, at);
    if end > at {
        Ok(((), end))
    } else {
        Err(SyntaxError { position: at, expected: Expected::Whitespace })
    }
}

/// Reads a figure letter; where none stands, the figure is a pawn.
fn parse_figure(text: &[u8], at: usize) -> (got: (Figure, usize))
    requires
        at <= text@.len(),
    ensures
        got.0 == figure(text@, at as int).0,
        got.1 == figure(text@, at as int).1,
        at <= got.1 <= text@.len(),
{
    if at >= text.len() {
        return (Figure::Pawn, at);
    }
    let b: u8 = text[at];
    if b == 'K' as u8 {
        (Figure::King, at + 1)
    } else if b == 'Q' as u8 {
        (Figure::Queen, at + 1)
    } else if b == 'R' as u8 {
        (Figure::Rook, at + 1)
    } else if b == 'B' as u8 {
        (Figure::Bishop, at + 1)
    } else if b == 'N' as u8 {
        (Figure::Knight, at + 1)
    } else {
        (Figure::Pawn, at)
    }
}

/// Reads a file letter.
fn parse_file(text: &[u8], at: usize) -> (got: Option<(File, usize)>)
    requires
        at <= text@.len(),
    ensures
        agrees_opt(got, file(text@, at as int)),
        within_opt(got, at, text@.len()),
{
    if at >= text.len() {
        return None;
    }
    let b: u8 = text[at];
    if b == 'a' as u8 {
        Some((File::A, at + 1))
    } else if b == 'b' as u8 {
        Some((File::B, at + 1))
    } else if b == 'c' as u8 {
        Some((File::C, at + 1))
    } else if b == 'd' as u8 {
        Some((File::D, at + 1))
    } else if b == 'e' as u8 {
        Some((File::E, at + 1))
    } else if b == 'f' as u8 {
        Some((File::F, at + 1))
    } else if b == 'g' as u8 {
        Some((File::G, at + 1))
    } else if b == 'h' as u8 {
        Some((File::H, at + 1))
    } else {
        None
    }
}

/// Reads a rank digit.
fn parse_rank(text: &[u8], at: usize) -> (got: Option<(Rank, usize)>)
    requires
        at <= text@.len(),
    ensures
        agrees_opt(got, rank(text@, at as int)),
        within_opt(got, at, text@.len()),
{
    if at >= text.len() {
        return None;
    }
    let b: u8 = text[at];
    if b == '1' as u8 {
        Some((Rank::R1, at + 1))
    } else if b == '2' as u8 {
        Some((Rank::R2, at + 1))
    } else if b == '3' as u8 {
        Some((Rank::R3, at + 1))
    } else if b == '4' as u8 {
        Some((Rank::R4, at + 1))
    } else if b == '5' as u8 {
        Some((Rank::R5, at + 1))
    } else if b == '6' as u8 {
        Some((Rank::R6, at + 1))
    } else if b == '7' as u8 {
        Some((Rank::R7, at + 1))
    } else if b == '8' as u8 {
        Some((Rank::R8, at + 1))
    } else {
        None
    }
}

/// Reads a file letter and a rank digit.
fn parse_square(text: &[u8], at: usize) -> (got: Option<(Square, usize)>)
    requires
        at <= text@.len(),
    ensures
        agrees_opt(got, square(text@, at as int)),
        within_opt(got, at, text@.len()),
{
    match parse_file(text, at) {
        Some((f, after_file)) => match parse_rank(text, after_file) {
            Some((r, end)) => Some((Square { file: f, rank: r }, end)),
            None => None,
        },
        None => None,
    }
}

/// Reads a departure: a full square, else a file, else a rank.
fn parse_departure(text: &[u8], at: usize) -> (got: Option<(Departure, usize)>)
    requires
        at <= text@.len(),
    ensures
        agrees_opt(got, departure(text@, at as int)),
        within_opt(got, at, text@.len()),
{
    match parse_square(text, at) {
        Some((sq, end)) => Some((Departure::Square(sq), end)),
        None => match parse_file(text, at) {
            Some((f, end)) => Some((Departure::File(f), end)),
            None => match parse_rank(text, at) {
                Some((r, end)) => Some((Departure::Rank(r), end)),
                None => None,
            },
        },
    }
}

/// Reads the byte `ch` where it stands, and says whether it did.
fn parse_opt_char(ch: u8, text: &[u8], at: usize) -> (got: (bool, usize))
    requires
        at <= text@.len(),
    ensures
        got.0 == opt_byte(text@, at as int, ch).0,
        got.1 == opt_byte(text@, at as int, ch).1,
        at <= got.1 <= text@.len(),
{
    if has_byte(text, at, ch) {
        (true, at + 1)
    } else {
        (false, at)
    }
}

/// Reads blanks and `mark` where both stand, and says whether they did.
/// Blanks alone are not consumed.
fn parse_opt_mark(text: &[u8], at: usize, mark: &[u8]) -> (got: (bool, usize))
    requires
        at <= text@.len(),
    ensures
        got.0 == opt_mark(text@, at as int, mark@).0,
        got.1 == opt_mark(text@, at as int, mark@).1,
        at <= got.1 <= text@.len(),
{
    let after_blanks = skip_blanks(text, at);
    if after_blanks > at && has_bytes(text, after_blanks, mark) {
        (true, after_blanks + mark.len())
    } else {
        (false, at)
    }
}

/// Reads the en passant marker after blanks, where it stands.
fn parse_en_passant(text: &[u8], at: usize) -> (got: (bool, usize))
    requires
        at <= text@.len(),
    ensures
        got.0 == opt_mark(text@, at as int, en_passant_mark()).0,
        got.1 == opt_mark(text@, at as int, en_passant_mark()).1,
        at <= got.1 <= text@.len(),
{
    let mark: [u8; 4] = ['e' as u8, '.' as u8, 'p' as u8, '.' as u8];
    assert(mark@ =~= en_passant_mark());
    parse_opt_mark(text, at, mark.as_slice())
}

/// Reads the draw offer after blanks, where it stands.
fn parse_draw_offer(text: &[u8], at: usize) -> (got: (bool, usize))
    requires
        at <= text@.len(),
    ensures
        got.0 == opt_mark(text@, at as int, draw_offer_mark()).0,
        got.1 == opt_mark(text@, at as int, draw_offer_mark()).1,
        at <= got.1 <= text@.len(),
{
    let mark: [u8; 3] = ['(' as u8, '=' as u8, ')' as u8];
    assert(mark@ =~= draw_offer_mark());
    parse_opt_mark(text, at, mark.as_slice())
}

/// Reads what follows figure and departure: the capture marker, the
/// arrival square and the markers after it.
fn parse_move_tail(text: &[u8], at: usize, piece: Figure, from: Option<Departure>) -> (got: Option<
    (MoveDetails, usize),
>)
    requires
        at <= text@.len(),
    ensures
        agrees_opt(got, move_tail(text@, at as int, piece, from)),
        within_opt(got, at, text@.len()),
{
    let (capture, after_capture) = parse_opt_char('x' as u8, text, at);
    match parse_square(text, after_capture) {
        Some((arrival, after_arrival)) => {
            let (check, after_check) = parse_opt_char('+' as u8, text, after_arrival);
            let (en_passant, after_en_passant) = parse_en_passant(text, after_check);
            let (draw_offer, end) = parse_draw_offer(text, after_en_passant);
            Some(
                (
                    MoveDetails {
                        figure: piece,
                        departure: from,
                        capture,
                        arrival,
                        check,
                        en_passant,
                        draw_offer,
                    },
                    end,
                ),
            )
        },
        None => None,
    }
}

/// Reads a piece move that names a departure.
fn parse_half_move_with_departure(text: &[u8], at: usize) -> (got: Option<(MoveDetails, usize)>)
    requires
        at <= text@.len(),
    ensures
        agrees_opt(got, half_move_with_departure(text@, at as int)),
        within_opt(got, at, text@.len()),
{
    let (piece, after_figure) = parse_figure(text, at);
    match parse_departure(text, after_figure) {
        Some((from, after_departure)) => parse_move_tail(text, after_departure, piece, Some(from)),
        None => None,
    }
}

/// Reads a piece move that names no departure.
fn parse_half_move_without_departure(text: &[u8], at: usize) -> (got: Option<(MoveDetails, usize)>)
    requires
        at <= text@.len(),
    ensures
        agrees_opt(got, half_move_without_departure(text@, at as int)),
        within_opt(got, at, text@.len()),
{
    let (piece, after_figure) = parse_figure(text, at);
    parse_move_tail(text, after_figure, piece, None)
}

/// Reads a half-move: a piece move with a departure, else one without,
/// else queenside castling, else kingside castling.
fn parse_half_move_at(text: &[u8], at: usize) -> (got: core::result::Result<
    (HalfMove, usize),
    SyntaxError,
>)
    requires
        at <= text@.len(),
    ensures
        agrees(got, half_move(text@, at as int)),
        within(got, at, text@.len()),
{
    if let Some((details, end)) = parse_half_move_with_departure(text, at) {
        return Ok((HalfMove::HalfMove(details), end));
    }
    if let Some((details, end)) = parse_half_move_without_departure(text, at) {
        return Ok((HalfMove::HalfMove(details), end));
    }
    let long: [u8; 5] = ['0' as u8, '-' as u8, '0' as u8, '-' as u8, '0' as u8];
    let short: [u8; 3] = ['0' as u8, '-' as u8, '0' as u8];
    assert(long@ =~= queenside());
    assert(short@ =~= kingside());
    if has_bytes(text, at, long.as_slice()) {
        Ok((HalfMove::QueensideCastling, at + 5))
    } else if has_bytes(text, at, short.as_slice()) {
        Ok((HalfMove::KingsideCastling, at + 3))
    } else {
        Err(SyntaxError { position: at, expected: Expected::HalfMove })
    }
}

/// Reads a move number: digits and a dot. The number itself is not kept.
fn parse_move_number(text: &[u8], at: usize) -> (got: core::result::Result<((), usize), SyntaxError>)
    requires
        at <= text@.len(),
    ensures
        agrees(got, move_number(text@, at as int)),
        got matches Ok((_, end)) ==> at < end <= text@.len(),
{
    let after_digits = skip_digits(text, at);
    if after_digits <= at {
        Err(SyntaxError { position: at, expected: Expected::Digit })
    } else if has_byte(text, after_digits, '.' as u8) {
        Ok(((), after_digits + 1))
    } else {
        Err(SyntaxError { position: after_digits, expected: Expected::Dot })
    }
}

/// Reads blanks and a half-move.
fn parse_spaced_half_move(text: &[u8], at: usize) -> (got: core::result::Result<
    (HalfMove, usize),
    SyntaxError,
>)
    requires
        at <= text@.len(),
    ensures
        agrees(got, spaced_half_move(text@, at as int)),
        got matches Ok((_, end)) ==> at < end <= text@.len(),
{
    match parse_blanks(text, at) {
        Ok((_, after_blanks)) => parse_half_move_at(text, after_blanks),
        Err(error) => Err(error),
    }
}

/// Reads a move number, blanks and White's half-move.
fn parse_numbered_half_move(text: &[u8], at: usize) -> (got: core::result::Result<
    (HalfMove, usize),
    SyntaxError,
>)
    requires
        at <= text@.len(),
    ensures
        agrees(got, numbered_half_move(text@, at as int)),
        got matches Ok((_, end)) ==> at < end <= text@.len(),
{
    match parse_move_number(text, at) {
        Ok((_, after_number)) => parse_spaced_half_move(text, after_number),
        Err(error) => Err(error),
    }
}

/// Reads a full move: number, White's half-move and Black's.
fn parse_numbered_full_move(text: &[u8], at: usize) -> (got: core::result::Result<
    (Move, usize),
    SyntaxError,
>)
    requires
        at <= text@.len(),
    ensures
        agrees(got, numbered_full_move(text@, at as int)),
        got matches Ok((_, end)) ==> at < end <= text@.len(),
{
    match parse_numbered_half_move(text, at) {
        Ok((white, after_white)) => match parse_spaced_half_move(text, after_white) {
            Ok((black, end)) => Ok((Move { white, black }, end)),
            Err(error) => Err(error),
        },
        Err(error) => Err(error),
    }
}

/// Reads blanks and a full move.
fn parse_next_full_move(text: &[u8], at: usize) -> (got: core::result::Result<
    (Move, usize),
    SyntaxError,
>)
    requires
        at <= text@.len(),
    ensures
        agrees(got, next_full_move(text@, at as int)),
        got matches Ok((_, end)) ==> at < end <= text@.len(),
{
    match parse_blanks(text, at) {
        Ok((_, after_blanks)) => parse_numbered_full_move(text, after_blanks),
        Err(error) => Err(error),
    }
}

/// Reads the longest sequence of full moves parted by blanks. Blanks that
/// no full move follows are left.
fn parse_full_moves(text: &[u8], at: usize) -> (got: (Vec<Move>, usize))
    requires
        at <= text@.len(),
    ensures
        got.0@ == full_moves(text@, at as int).0,
        got.1 == full_moves(text@, at as int).1,
        at <= got.1 <= text@.len(),
{
    let mut moves: Vec<Move> = Vec::new();
    let mut end: usize = at;
    match parse_numbered_full_move(text, at) {
        Ok((first, after_first)) => {
            moves.push(first);
            end = after_first;
        },
        Err(_) => {
            return (moves, at);
        },
    }
    assert(moves@ =~= seq![numbered_full_move(text@, at as int)->value]);
    loop
        invariant
            at <= end <= text@.len(),
            more_full_moves(text@, end as int, moves@) == full_moves(text@, at as int),
        ensures
            moves@ == full_moves(text@, at as int).0,
            end == full_moves(text@, at as int).1,
            at <= end <= text@.len(),
        decreases text@.len() - end,
    {
        match parse_next_full_move(text, end) {
            Ok((next, after_next)) => {
                moves.push(next);
                end = after_next;
            },
            Err(_) => {
                break ;
            },
        }
    }
    (moves, end)
}

/// Reads one of the scores `1-0`, `0-1` and `1/2-1/2`.
fn parse_score(text: &[u8], at: usize) -> (got: Option<(Result, usize)>)
    requires
        at <= text@.len(),
    ensures
        agrees_opt(got, score_token(text@, at as int)),
        within_opt(got, at, text@.len()),
{
    let white: [u8; 3] = ['1' as u8, '-' as u8, '0' as u8];
    let black: [u8; 3] = ['0' as u8, '-' as u8, '1' as u8];
    let draw: [u8; 7] = [
        '1' as u8,
        '/' as u8,
        '2' as u8,
        '-' as u8,
        '1' as u8,
        '/' as u8,
        '2' as u8,
    ];
    assert(white@ =~= score(Color::White));
    assert(black@ =~= score(Color::Black));
    assert(draw@ =~= draw_score());
    if has_bytes(text, at, white.as_slice()) {
        Some((Result::Win(Color::White), at + 3))
    } else if has_bytes(text, at, black.as_slice()) {
        Some((Result::Win(Color::Black), at + 3))
    } else if has_bytes(text, at, draw.as_slice()) {
        Some((Result::Draw, at + 7))
    } else {
        None
    }
}

/// Reads blanks and a score. After a draw offer both may be missing, and
/// the game is drawn then.
fn parse_game_result(draw_offer: bool, text: &[u8], at: usize) -> (got: core::result::Result<
    (Result, usize),
    SyntaxError,
>)
    requires
        at <= text@.len(),
    ensures
        agrees(got, game_result(text@, at as int, draw_offer)),
        within(got, at, text@.len()),
        draw_offer ==> got is Ok,
{
    match parse_blanks(text, at) {
        Ok((_, after_blanks)) => match parse_score(text, after_blanks) {
            Some((result, end)) => Ok((result, end)),
            None => if draw_offer {
                Ok((Result::Draw, at))
            } else {
                Err(SyntaxError { position: after_blanks, expected: Expected::Score })
            },
        },
        Err(error) => if draw_offer {
            Ok((Result::Draw, at))
        } else {
            Err(error)
        },
    }
}

/// Reads the checkmate marker and, where it follows after blanks, the
/// winner's score.
fn parse_checkmate(text: &[u8], at: usize, winner: Color) -> (got: Option<(Result, usize)>)
    requires
        at <= text@.len(),
    ensures
        agrees_opt(got, checkmate(text@, at as int, winner)),
        within_opt(got, at, text@.len()),
{
    if !has_byte(text, at, '#' as u8) {
        return None;
    }
    let white: [u8; 3] = ['1' as u8, '-' as u8, '0' as u8];
    let black: [u8; 3] = ['0' as u8, '-' as u8, '1' as u8];
    assert(white@ =~= score(Color::White));
    assert(black@ =~= score(Color::Black));
    let (_, end) = match winner {
        Color::White => parse_opt_mark(text, at + 1, white.as_slice()),
        Color::Black => parse_opt_mark(text, at + 1, black.as_slice()),
    };
    Some((Result::Checkmate(winner), end))
}

/// Reads a checkmate by Black, after a full move.
fn parse_black_checkmate(text: &[u8], at: usize) -> (got: Option<(Result, usize)>)
    requires
        at <= text@.len(),
    ensures
        agrees_opt(got, checkmate(text@, at as int, Color::Black)),
        within_opt(got, at, text@.len()),
{
    parse_checkmate(text, at, Color::Black)
}

/// Reads a checkmate by White, after a half-move of White.
fn parse_white_checkmate(text: &[u8], at: usize) -> (got: Option<(Result, usize)>)
    requires
        at <= text@.len(),
    ensures
        agrees_opt(got, checkmate(text@, at as int, Color::White)),
        within_opt(got, at, text@.len()),
{
    parse_checkmate(text, at, Color::White)
}

/// Reads the end of a game after Black's half-move: a checkmate, else a
/// result.
fn parse_black_end_game(draw_offer: bool, text: &[u8], at: usize) -> (got: core::result::Result<
    (Result, usize),
    SyntaxError,
>)
    requires
        at <= text@.len(),
    ensures
        agrees(got, black_end_game(text@, at as int, draw_offer)),
        within(got, at, text@.len()),
{
    match parse_black_checkmate(text, at) {
        Some((result, end)) => Ok((result, end)),
        None => parse_game_result(draw_offer, text, at),
    }
}

/// Reads a last half-move of White and the end of the game after it: a
/// checkmate, else a result.
fn parse_white_end_game(text: &[u8], at: usize) -> (got: core::result::Result<
    ((HalfMove, Result), usize),
    SyntaxError,
>)
    requires
        at <= text@.len(),
    ensures
        agrees(got, white_end_game(text@, at as int)),
        within(got, at, text@.len()),
{
    match parse_numbered_half_move(text, at) {
        Ok((white, after_white)) => match parse_white_checkmate(text, after_white) {
            Some((result, end)) => Ok(((white, result), end)),
            None => match parse_game_result(white.has_draw_offer(), text, after_white) {
                Ok((result, end)) => Ok(((white, result), end)),
                Err(error) => Err(error),
            },
        },
        Err(error) => Err(error),
    }
}

/// Reads the end of a game after the full moves `moves`. Where nothing
/// matches and the text is at its end, the result is unknown.
fn parse_end_game(text: &[u8], at: usize, moves: Vec<Move>) -> (got: core::result::Result<
    (Game, usize),
    SyntaxError,
>)
    requires
        at <= text@.len(),
    ensures
        match end_game(text@, at as int, moves@) {
            Parsed::Matched { value, end } => got matches Ok((game, e)) && game@ == value && e
                == end && at <= e <= text@.len(),
            Parsed::Failed { at: failed_at, expected } => got matches Err(error) && error.position
                == failed_at && error.expected == expected,
        },
{
    let draw_offer = moves.len() > 0 && moves[moves.len() - 1].black.has_draw_offer();
    match parse_black_end_game(draw_offer, text, at) {
        Ok((result, end)) => Ok((Game { moves, last_half_move: None, result }, end)),
        Err(_) => match parse_blanks(text, at) {
            Ok((_, after_blanks)) => match parse_white_end_game(text, after_blanks) {
                Ok(((white, result), end)) => Ok(
                    (Game { moves, last_half_move: Some(white), result }, end),
                ),
                Err(error) => Err(error),
            },
            Err(error) => if at == text.len() {
                Ok((Game { moves, last_half_move: None, result: Result::Unknown }, at))
            } else {
                Err(error)
            },
        },
    }
}

/// Reads a game from the start of `text`.
fn parse_game_bytes(text: &[u8]) -> (got: core::result::Result<(Game, usize), SyntaxError>)
    ensures
        match game(text@) {
            Parsed::Matched { value, end } => got matches Ok((game, e)) && game@ == value && e
                == end && e <= text@.len(),
            Parsed::Failed { at, expected } => got matches Err(error) && error.position == at
                && error.expected == expected,
        },
{
    let (moves, end) = parse_full_moves(text, 0);
    parse_end_game(text, end, moves)
}

/// Reads one player's action from the start of `text`: a piece move or a
/// castling. Returns what is left of the text, and the half-move.
///
/// Fails where neither stands there; the error then points at the start.
pub fn parse_half_move(text: &str) -> (got: core::result::Result<(&str, HalfMove), SyntaxError>)
    ensures
        match half_move(text.spec_bytes(), 0) {
            Parsed::Matched { value, end } => got matches Ok((rest, found)) && found == value
                && rest.spec_bytes() == text.spec_bytes().skip(end) && rest@ == text@.skip(end),
            Parsed::Failed { at, expected } => got == Err::<(&str, HalfMove), SyntaxError>(
                SyntaxError { position: 0, expected: Expected::HalfMove },
            ),
        },
{
    let bytes = text.as_bytes();
    match parse_half_move_at(bytes, 0) {
        Ok((found, end)) => {
            proof {
                lemma_half_move_spans_ascii(bytes@, 0);
            }
            Ok((split_after_ascii(text, end), found))
        },
        Err(error) => Err(error),
    }
}

/// Reads a game from the start of `text`: the longest sequence of full
/// moves, then the end of the game. Returns what is left of the text, and
/// the game.
///
/// Fails where the full moves are followed by text that is no end of a
/// game; the error then says where a last half-move of White with its result
/// stopped matching, and what was looked for there. That position lies in the
/// text, after ASCII bytes only, so it counts characters as well as bytes.
pub fn parse_game(text: &str) -> (got: core::result::Result<(&str, Game), SyntaxError>)
    ensures
        match game(text.spec_bytes()) {
            Parsed::Matched { value, end } => got matches Ok((rest, found)) && found@ == value
                && rest.spec_bytes() == text.spec_bytes().skip(end) && rest@ == text@.skip(end),
            Parsed::Failed { at, expected } => got matches Err(error) && error.position == at
                && error.expected == expected,
        },
        got matches Ok((_, found)) ==> found@.is_well_formed(),
        got matches Err(error) ==> spans_ascii(text.spec_bytes(), 0, error.position as int),
{
    let bytes = text.as_bytes();
    proof {
        lemma_game_spans_ascii(bytes@);
    }
    match parse_game_bytes(bytes) {
        Ok((found, end)) => Ok((split_after_ascii(text, end), found)),
        Err(error) => Err(error),
    }
}

} // verus!
