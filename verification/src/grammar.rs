//! The grammar of a transcript, as spec functions on bytes.
//!
//! Each function reads one element of the grammar at a position of a text and
//! says where the element ends. Alternatives are tried in a fixed order and
//! the first that matches wins; a longer form is always tried before a form
//! that is a prefix of it.

use crate::notation::{draw_offer_mark, draw_score, en_passant_mark, kingside, queenside, score};
use crate::types::{
    Color, Departure, Figure, File, GameView, HalfMove, Move, MoveDetails, Rank, Result, Square,
};
use vstd::prelude::*;

verus! {

/// What the parser looked for at the position where it gave up.
#[derive(Debug, Eq, PartialEq, Clone, Copy, Structural)]
pub enum Expected {
    /// One or more blanks.
    Whitespace,
    /// The first digit of a move number.
    Digit,
    /// The dot that ends a move number.
    Dot,
    /// A piece move or a castling.
    HalfMove,
    /// One of the scores `1-0`, `0-1`, `1/2-1/2`.
    Score,
}

/// The outcome of reading one element of the grammar.
pub enum Parsed<T> {
    /// The element was read; `end` is the position after its last byte.
    Matched { value: T, end: int },
    /// No alternative matched; `at` is where `expected` was looked for.
    Failed { at: int, expected: Expected },
}

/// Whether `s` holds the byte `b` at `at`.
pub open spec fn byte_is(s: Seq<u8>, at: int, b: u8) -> bool {
    0 <= at < s.len() && s[at] == b
}

/// Whether `s` holds the bytes `piece` from `at` on.
pub open spec fn has_at(s: Seq<u8>, at: int, piece: Seq<u8>) -> bool {
    0 <= at && at + piece.len() <= s.len() && s.subrange(at, at + piece.len()) == piece
}

/// A blank is a space or a tab.
pub open spec fn is_blank(b: u8) -> bool {
    b == ' ' as u8 || b == '\t' as u8
}

/// A digit is one of `0` to `9`.
pub open spec fn is_digit(b: u8) -> bool {
    '0' as u8 <= b <= '9' as u8
}

/// Where the longest run of blanks from `at` ends.
pub open spec fn blanks_end(s: Seq<u8>, at: int) -> int
    decreases s.len() - at,
{
    if 0 <= at < s.len() && is_blank(s[at]) {
        blanks_end(s, at + 1)
    } else {
        at
    }
}

/// Where the longest run of digits from `at` ends.
pub open spec fn digits_end(s: Seq<u8>, at: int) -> int
    decreases s.len() - at,
{
    if 0 <= at < s.len() && is_digit(s[at]) {
        digits_end(s, at + 1)
    } else {
        at
    }
}

/// One or more blanks.
pub open spec fn blanks(s: Seq<u8>, at: int) -> Parsed<()> {
    if blanks_end(s, at) > at {
        Parsed::Matched { value: (), end: blanks_end(s, at) }
    } else {
        Parsed::Failed { at, expected: Expected::Whitespace }
    }
}

/// The piece that a letter names.
pub open spec fn figure_of(b: u8) -> Option<Figure> {
    if b == 'K' as u8 {
        Some(Figure::King)
    } else if b == 'Q' as u8 {
        Some(Figure::Queen)
    } else if b == 'R' as u8 {
        Some(Figure::Rook)
    } else if b == 'B' as u8 {
        Some(Figure::Bishop)
    } else if b == 'N' as u8 {
        Some(Figure::Knight)
    } else {
        None
    }
}

/// The file that a letter names.
pub open spec fn file_of(b: u8) -> Option<File> {
    if b == 'a' as u8 {
        Some(File::A)
    } else if b == 'b' as u8 {
        Some(File::B)
    } else if b == 'c' as u8 {
        Some(File::C)
    } else if b == 'd' as u8 {
        Some(File::D)
    } else if b == 'e' as u8 {
        Some(File::E)
    } else if b == 'f' as u8 {
        Some(File::F)
    } else if b == 'g' as u8 {
        Some(File::G)
    } else if b == 'h' as u8 {
        Some(File::H)
    } else {
        None
    }
}

/// The rank that a digit names.
pub open spec fn rank_of(b: u8) -> Option<Rank> {
    if b == '1' as u8 {
        Some(Rank::R1)
    } else if b == '2' as u8 {
        Some(Rank::R2)
    } else if b == '3' as u8 {
        Some(Rank::R3)
    } else if b == '4' as u8 {
        Some(Rank::R4)
    } else if b == '5' as u8 {
        Some(Rank::R5)
    } else if b == '6' as u8 {
        Some(Rank::R6)
    } else if b == '7' as u8 {
        Some(Rank::R7)
    } else if b == '8' as u8 {
        Some(Rank::R8)
    } else {
        None
    }
}

/// A figure letter, or a pawn where none stands. Never fails.
pub open spec fn figure(s: Seq<u8>, at: int) -> (Figure, int) {
    if 0 <= at < s.len() && figure_of(s[at]) is Some {
        (figure_of(s[at])->0, at + 1)
    } else {
        (Figure::Pawn, at)
    }
}

/// A file letter.
pub open spec fn file(s: Seq<u8>, at: int) -> Option<(File, int)> {
    if 0 <= at < s.len() && file_of(s[at]) is Some {
        Some((file_of(s[at])->0, at + 1))
    } else {
        None
    }
}

/// A rank digit.
pub open spec fn rank(s: Seq<u8>, at: int) -> Option<(Rank, int)> {
    if 0 <= at < s.len() && rank_of(s[at]) is Some {
        Some((rank_of(s[at])->0, at + 1))
    } else {
        None
    }
}

/// A file letter followed by a rank digit.
pub open spec fn square(s: Seq<u8>, at: int) -> Option<(Square, int)> {
    match file(s, at) {
        Some((f, after_file)) => match rank(s, after_file) {
            Some((r, end)) => Some((Square { file: f, rank: r }, end)),
            None => None,
        },
        None => None,
    }
}

/// A departure: a full square, else a file, else a rank.
pub open spec fn departure(s: Seq<u8>, at: int) -> Option<(Departure, int)> {
    match square(s, at) {
        Some((sq, end)) => Some((Departure::Square(sq), end)),
        None => match file(s, at) {
            Some((f, end)) => Some((Departure::File(f), end)),
            None => match rank(s, at) {
                Some((r, end)) => Some((Departure::Rank(r), end)),
                None => None,
            },
        },
    }
}

/// An optional byte: whether it stands at `at`, and where reading goes on.
pub open spec fn opt_byte(s: Seq<u8>, at: int, b: u8) -> (bool, int) {
    if byte_is(s, at, b) {
        (true, at + 1)
    } else {
        (false, at)
    }
}

/// An optional marker after one or more blanks. Where the marker does not
/// follow the blanks, nothing is consumed.
pub open spec fn opt_mark(s: Seq<u8>, at: int, mark: Seq<u8>) -> (bool, int) {
    if blanks_end(s, at) > at && has_at(s, blanks_end(s, at), mark) {
        (true, blanks_end(s, at) + mark.len())
    } else {
        (false, at)
    }
}

/// What follows figure and departure: an optional `x`, the arrival square,
/// an optional `+`, an optional en passant marker, an optional draw offer.
pub open spec fn move_tail(
    s: Seq<u8>,
    at: int,
    piece: Figure,
    from: Option<Departure>,
) -> Option<(MoveDetails, int)> {
    let (capture, after_capture) = opt_byte(s, at, 'x' as u8);
    match square(s, after_capture) {
        Some((arrival, after_arrival)) => {
            let (check, after_check) = opt_byte(s, after_arrival, '+' as u8);
            let (en_passant, after_en_passant) = opt_mark(s, after_check, en_passant_mark());
            let (draw_offer, end) = opt_mark(s, after_en_passant, draw_offer_mark());
            Some(
                (
                    MoveDetails {
                        figure: piece,
                        departure: from,
                        capture,
                        arrival,
                        check,
                        en_passant,
                        draw_offer,
                    },
                    end,
                ),
            )
        },
        None => None,
    }
}

/// A piece move that names a departure.
pub open spec fn half_move_with_departure(s: Seq<u8>, at: int) -> Option<(MoveDetails, int)> {
    let (piece, after_figure) = figure(s, at);
    match departure(s, after_figure) {
        Some((from, after_departure)) => move_tail(s, after_departure, piece, Some(from)),
        None => None,
    }
}

/// A piece move that names no departure.
pub open spec fn half_move_without_departure(s: Seq<u8>, at: int) -> Option<(MoveDetails, int)> {
    let (piece, after_figure) = figure(s, at);
    move_tail(s, after_figure, piece, None)
}

/// One player's action: a piece move with a departure, else one without,
/// else queenside castling, else kingside castling.
pub open spec fn half_move(s: Seq<u8>, at: int) -> Parsed<HalfMove> {
    match half_move_with_departure(s, at) {
        Some((details, end)) => Parsed::Matched { value: HalfMove::HalfMove(details), end },
        None => match half_move_without_departure(s, at) {
            Some((details, end)) => Parsed::Matched { value: HalfMove::HalfMove(details), end },
            None => if has_at(s, at, queenside()) {
                Parsed::Matched { value: HalfMove::QueensideCastling, end: at + 5 }
            } else if has_at(s, at, kingside()) {
                Parsed::Matched { value: HalfMove::KingsideCastling, end: at + 3 }
            } else {
                Parsed::Failed { at, expected: Expected::HalfMove }
            },
        },
    }
}

/// A move number: one or more digits and a dot. The number is not read.
pub open spec fn move_number(s: Seq<u8>, at: int) -> Parsed<()> {
    if digits_end(s, at) <= at {
        Parsed::Failed { at, expected: Expected::Digit }
    } else if byte_is(s, digits_end(s, at), '.' as u8) {
        Parsed::Matched { value: (), end: digits_end(s, at) + 1 }
    } else {
        Parsed::Failed { at: digits_end(s, at), expected: Expected::Dot }
    }
}

/// One or more blanks, then a half-move.
pub open spec fn spaced_half_move(s: Seq<u8>, at: int) -> Parsed<HalfMove> {
    match blanks(s, at) {
        Parsed::Matched { end, .. } => half_move(s, end),
        Parsed::Failed { at, expected } => Parsed::Failed { at, expected },
    }
}

/// A move number, then White's half-move after blanks.
pub open spec fn numbered_half_move(s: Seq<u8>, at: int) -> Parsed<HalfMove> {
    match move_number(s, at) {
        Parsed::Matched { end, .. } => spaced_half_move(s, end),
        Parsed::Failed { at, expected } => Parsed::Failed { at, expected },
    }
}

/// A full move: number, White's half-move, Black's half-move, with blanks
/// between them.
pub open spec fn numbered_full_move(s: Seq<u8>, at: int) -> Parsed<Move> {
    match numbered_half_move(s, at) {
        Parsed::Matched { value: white, end } => match spaced_half_move(s, end) {
            Parsed::Matched { value: black, end } => Parsed::Matched {
                value: Move { white, black },
                end,
            },
            Parsed::Failed { at, expected } => Parsed::Failed { at, expected },
        },
        Parsed::Failed { at, expected } => Parsed::Failed { at, expected },
    }
}

/// The full move that follows blanks at `at`, if there is one.
pub open spec fn next_full_move(s: Seq<u8>, at: int) -> Parsed<Move> {
    match blanks(s, at) {
        Parsed::Matched { end, .. } => numbered_full_move(s, end),
        Parsed::Failed { at, expected } => Parsed::Failed { at, expected },
    }
}

/// The full moves that follow `at`, each after blanks, appended to `found`:
/// as many as can be read. Where blanks are not followed by a full move, the
/// blanks are not consumed.
pub open spec fn more_full_moves(s: Seq<u8>, at: int, found: Seq<Move>) -> (Seq<Move>, int)
    decreases s.len() - at,
{
    match next_full_move(s, at) {
        Parsed::Matched { value, end } => if at < end <= s.len() {
            more_full_moves(s, end, found.push(value))
        } else {
            (found, at)
        },
        Parsed::Failed { .. } => (found, at),
    }
}

/// The longest sequence of full moves at `at`, parted by blanks. It may be
/// empty.
pub open spec fn full_moves(s: Seq<u8>, at: int) -> (Seq<Move>, int) {
    match numbered_full_move(s, at) {
        Parsed::Matched { value, end } => more_full_moves(s, end, seq![value]),
        Parsed::Failed { .. } => (Seq::empty(), at),
    }
}

/// One of the three scores.
pub open spec fn score_token(s: Seq<u8>, at: int) -> Option<(Result, int)> {
    if has_at(s, at, score(Color::White)) {
        Some((Result::Win(Color::White), at + 3))
    } else if has_at(s, at, score(Color::Black)) {
        Some((Result::Win(Color::Black), at + 3))
    } else if has_at(s, at, draw_score()) {
        Some((Result::Draw, at + 7))
    } else {
        None
    }
}

/// The result after the last half-move: blanks and a score. Where that
/// half-move offered a draw and no score follows, the game is drawn and
/// nothing is consumed.
pub open spec fn game_result(s: Seq<u8>, at: int, draw_offer: bool) -> Parsed<Result> {
    match blanks(s, at) {
        Parsed::Matched { end: after_blanks, .. } => match score_token(s, after_blanks) {
            Some((result, end)) => Parsed::Matched { value: result, end },
            None => if draw_offer {
                Parsed::Matched { value: Result::Draw, end: at }
            } else {
                Parsed::Failed { at: after_blanks, expected: Expected::Score }
            },
        },
        Parsed::Failed { at: failed_at, expected } => if draw_offer {
            Parsed::Matched { value: Result::Draw, end: at }
        } else {
            Parsed::Failed { at: failed_at, expected }
        },
    }
}

/// The checkmate marker `#` glued to the half-move of `winner`, and after it
/// an optional score of the winner, which adds nothing.
pub open spec fn checkmate(s: Seq<u8>, at: int, winner: Color) -> Option<(Result, int)> {
    if byte_is(s, at, '#' as u8) {
        Some((Result::Checkmate(winner), opt_mark(s, at + 1, score(winner)).1))
    } else {
        None
    }
}

/// The end of a game after Black's half-move: a checkmate by Black, else a
/// result.
pub open spec fn black_end_game(s: Seq<u8>, at: int, draw_offer: bool) -> Parsed<Result> {
    match checkmate(s, at, Color::Black) {
        Some((result, end)) => Parsed::Matched { value: result, end },
        None => game_result(s, at, draw_offer),
    }
}

/// The end of a game after a half-move of White that Black did not answer:
/// number and half-move, then a checkmate by White, else a result.
pub open spec fn white_end_game(s: Seq<u8>, at: int) -> Parsed<(HalfMove, Result)> {
    match numbered_half_move(s, at) {
        Parsed::Matched { value: white, end: after_white } => match checkmate(
            s,
            after_white,
            Color::White,
        ) {
            Some((result, end)) => Parsed::Matched { value: (white, result), end },
            None => match game_result(s, after_white, white.offers_draw()) {
                Parsed::Matched { value: result, end } => Parsed::Matched {
                    value: (white, result),
                    end,
                },
                Parsed::Failed { at, expected } => Parsed::Failed { at, expected },
            },
        },
        Parsed::Failed { at, expected } => Parsed::Failed { at, expected },
    }
}

/// The end of a game after the full moves `moves`, which end at `at`: the
/// end after Black's half-move, else blanks and the end after a last
/// half-move of White. Where neither matches and the text ends at `at`, the
/// result is unknown. Otherwise the failure is that of the last alternative.
pub open spec fn end_game(s: Seq<u8>, at: int, moves: Seq<Move>) -> Parsed<GameView> {
    let draw_offer = moves.len() > 0 && moves.last().black.offers_draw();
    match black_end_game(s, at, draw_offer) {
        Parsed::Matched { value: result, end } => Parsed::Matched {
            value: GameView { moves, last_half_move: None, result },
            end,
        },
        Parsed::Failed { .. } => match blanks(s, at) {
            Parsed::Matched { end: after_blanks, .. } => match white_end_game(s, after_blanks) {
                Parsed::Matched { value: (white, result), end } => Parsed::Matched {
                    value: GameView { moves, last_half_move: Some(white), result },
                    end,
                },
                Parsed::Failed { at, expected } => Parsed::Failed { at, expected },
            },
            Parsed::Failed { at: failed_at, expected } => if at == s.len() {
                Parsed::Matched {
                    value: GameView { moves, last_half_move: None, result: Result::Unknown },
                    end: at,
                }
            } else {
                Parsed::Failed { at: failed_at, expected }
            },
        },
    }
}

/// A game: the longest sequence of full moves, then the end of the game.
pub open spec fn game(s: Seq<u8>) -> Parsed<GameView> {
    let (moves, end) = full_moves(s, 0);
    end_game(s, end, moves)
}

/// A draw offer makes the score optional: after a half-move that offers a
/// draw a result is always found, and it is a draw, with nothing consumed,
/// where no blanks and score follow.
pub proof fn lemma_draw_offer_makes_score_optional(s: Seq<u8>, at: int)
    ensures
        game_result(s, at, true) is Matched,
        blanks(s, at) is Failed || score_token(s, blanks_end(s, at)) is None ==> game_result(
            s,
            at,
            true,
        ) == (Parsed::Matched { value: Result::Draw, end: at }),
        blanks(s, at) is Matched && score_token(s, blanks_end(s, at)) is Some ==> game_result(
            s,
            at,
            true,
        ) == game_result(s, at, false),
{
}

/// The longest departure is preferred: a full square is taken before a file
/// and a file before a rank, and a move that can be read with a departure is
/// read so.
pub proof fn lemma_longest_departure_is_preferred(s: Seq<u8>, at: int)
    ensures
        square(s, at) matches Some((sq, end)) ==> departure(s, at) == Some(
            (Departure::Square(sq), end),
        ),
        square(s, at) is None ==> (file(s, at) matches Some((f, end)) ==> departure(s, at) == Some(
            (Departure::File(f), end),
        )),
        half_move_with_departure(s, at) matches Some((details, end)) ==> half_move(s, at) == (
        Parsed::Matched { value: HalfMove::HalfMove(details), end }),
{
}

} // verus!
