//! The written form of each value, as a sequence of bytes.
//!
//! These spec functions define the canonical transcript. The renderer is
//! proved to produce them, and the grammar is proved to read them back.

use crate::types::{
    Color, Departure, Figure, File, GameView, HalfMove, Move, MoveDetails, Rank, Result, Square,
};
use vstd::prelude::*;

verus! {

/// The text that a sequence of ASCII bytes spells.
pub open spec fn as_text(bytes: Seq<u8>) -> Seq<char> {
    Seq::new(bytes.len(), |i: int| bytes[i] as char)
}

/// Whether every byte is an ASCII character.
pub open spec fn is_ascii(bytes: Seq<u8>) -> bool {
    forall|i: int| 0 <= i < bytes.len() ==> #[trigger] bytes[i] < 0x80
}

/// The byte of a decimal digit.
pub open spec fn digit_byte(d: int) -> u8 {
    ('0' as u8 + d) as u8
}

/// The decimal numeral of `n`, without leading zeros.
pub open spec fn decimal(n: nat) -> Seq<u8>
    decreases n,
{
    if n < 10 {
        seq![digit_byte(n as int)]
    } else {
        decimal(n / 10).push(digit_byte((n % 10) as int))
    }
}

/// The score that a win of `color` is recorded with.
pub open spec fn score(color: Color) -> Seq<u8> {
    match color {
        Color::White => seq!['1' as u8, '-' as u8, '0' as u8],
        Color::Black => seq!['0' as u8, '-' as u8, '1' as u8],
    }
}

/// The score of a drawn game.
pub open spec fn draw_score() -> Seq<u8> {
    seq!['1' as u8, '/' as u8, '2' as u8, '-' as u8, '1' as u8, '/' as u8, '2' as u8]
}

/// The marker of an en passant capture, without the blank before it.
pub open spec fn en_passant_mark() -> Seq<u8> {
    seq!['e' as u8, '.' as u8, 'p' as u8, '.' as u8]
}

/// The marker of a draw offer, without the blank before it.
pub open spec fn draw_offer_mark() -> Seq<u8> {
    seq!['(' as u8, '=' as u8, ')' as u8]
}

/// Castling on the king's side.
pub open spec fn kingside() -> Seq<u8> {
    seq!['0' as u8, '-' as u8, '0' as u8]
}

/// Castling on the queen's side.
pub open spec fn queenside() -> Seq<u8> {
    seq!['0' as u8, '-' as u8, '0' as u8, '-' as u8, '0' as u8]
}

impl Figure {
    /// The letter of the piece; a pawn has none.
    pub open spec fn notation(self) -> Seq<u8> {
        match self {
            Figure::King => seq!['K' as u8],
            Figure::Queen => seq!['Q' as u8],
            Figure::Rook => seq!['R' as u8],
            Figure::Bishop => seq!['B' as u8],
            Figure::Knight => seq!['N' as u8],
            Figure::Pawn => seq![],
        }
    }
}

impl File {
    /// The letter of the file.
    pub open spec fn letter(self) -> u8 {
        match self {
            File::A => 'a' as u8,
            File::B => 'b' as u8,
            File::C => 'c' as u8,
            File::D => 'd' as u8,
            File::E => 'e' as u8,
            File::F => 'f' as u8,
            File::G => 'g' as u8,
            File::H => 'h' as u8,
        }
    }

    /// The letter, as a piece of notation.
    pub open spec fn notation(self) -> Seq<u8> {
        seq![self.letter()]
    }
}

impl Rank {
    /// The digit of the rank.
    pub open spec fn digit(self) -> u8 {
        match self {
            Rank::R1 => '1' as u8,
            Rank::R2 => '2' as u8,
            Rank::R3 => '3' as u8,
            Rank::R4 => '4' as u8,
            Rank::R5 => '5' as u8,
            Rank::R6 => '6' as u8,
            Rank::R7 => '7' as u8,
            Rank::R8 => '8' as u8,
        }
    }

    /// The digit, as a piece of notation.
    pub open spec fn notation(self) -> Seq<u8> {
        seq![self.digit()]
    }
}

impl Square {
    /// File letter, then rank digit.
    pub open spec fn notation(self) -> Seq<u8> {
        seq![self.file.letter(), self.rank.digit()]
    }
}

impl Departure {
    /// The file letter, the rank digit or the square that is named.
    pub open spec fn notation(self) -> Seq<u8> {
        match self {
            Departure::File(file) => file.notation(),
            Departure::Rank(rank) => rank.notation(),
            Departure::Square(square) => square.notation(),
        }
    }
}

/// What is written for an optional departure.
pub open spec fn departure_notation(departure: Option<Departure>) -> Seq<u8> {
    match departure {
        Some(d) => d.notation(),
        None => seq![],
    }
}

/// A marker that is written only where `present` holds.
pub open spec fn mark_if(present: bool, mark: Seq<u8>) -> Seq<u8> {
    if present {
        mark
    } else {
        seq![]
    }
}

impl MoveDetails {
    /// What follows the arrival square: check, en passant, draw offer.
    pub open spec fn marks(self) -> Seq<u8> {
        mark_if(self.check, seq!['+' as u8]) + mark_if(
            self.en_passant,
            seq![' ' as u8] + en_passant_mark(),
        ) + mark_if(self.draw_offer, seq![' ' as u8] + draw_offer_mark())
    }

    /// Figure, departure, capture marker, arrival square, then the marks.
    pub open spec fn notation(self) -> Seq<u8> {
        self.figure.notation() + departure_notation(self.departure) + mark_if(
            self.capture,
            seq!['x' as u8],
        ) + self.arrival.notation() + self.marks()
    }
}

impl HalfMove {
    /// The notation of a piece move, or `0-0` or `0-0-0` for a castling.
    pub open spec fn notation(self) -> Seq<u8> {
        match self {
            HalfMove::HalfMove(details) => details.notation(),
            HalfMove::KingsideCastling => kingside(),
            HalfMove::QueensideCastling => queenside(),
        }
    }
}

impl Move {
    /// White's action, a blank, Black's action.
    pub open spec fn notation(self) -> Seq<u8> {
        self.white.notation() + seq![' ' as u8] + self.black.notation()
    }
}

/// A move number, a dot, a blank, and what the number announces.
pub open spec fn numbered(n: nat, body: Seq<u8>) -> Seq<u8> {
    decimal(n) + seq!['.' as u8, ' ' as u8] + body
}

/// The full moves, numbered from 1 and joined by single blanks.
pub open spec fn moves_notation(moves: Seq<Move>) -> Seq<u8>
    decreases moves.len(),
{
    if moves.len() == 0 {
        seq![]
    } else if moves.len() == 1 {
        numbered(1, moves[0].notation())
    } else {
        moves_notation(moves.drop_last()) + seq![' ' as u8] + numbered(
            moves.len(),
            moves.last().notation(),
        )
    }
}

impl Result {
    /// The token of the result. A checkmate is the marker `#`, a blank and
    /// the winner's score; an unknown result is not written.
    pub open spec fn notation(self) -> Seq<u8> {
        match self {
            Result::Checkmate(color) => seq!['#' as u8, ' ' as u8] + score(color),
            Result::Win(color) => score(color),
            Result::Draw => draw_score(),
            Result::Unknown => seq![],
        }
    }

    /// Whether a blank parts the token from what stands before it. The
    /// checkmate marker is glued to the half-move it follows.
    pub open spec fn stands_apart(self) -> bool {
        self is Win || self is Draw
    }
}

impl GameView {
    /// The full moves and, where White moved last, that half-move under the
    /// next number.
    pub open spec fn moves_text(self) -> Seq<u8> {
        match self.last_half_move {
            Some(half_move) => moves_notation(self.moves) + mark_if(
                self.moves.len() > 0,
                seq![' ' as u8],
            ) + numbered(self.moves.len() + 1, half_move.notation()),
            None => moves_notation(self.moves),
        }
    }

    /// The transcript of the game: its tokens joined by single blanks, the
    /// checkmate marker glued to the token before it.
    pub open spec fn notation(self) -> Seq<u8> {
        self.moves_text() + mark_if(
            self.result.stands_apart() && self.moves_text().len() > 0,
            seq![' ' as u8],
        ) + self.result.notation()
    }
}

/// Two ASCII pieces written one after the other are ASCII.
pub proof fn lemma_is_ascii_add(a: Seq<u8>, b: Seq<u8>)
    requires
        is_ascii(a),
        is_ascii(b),
    ensures
        is_ascii(a + b),
{
    assert forall|i: int| 0 <= i < (a + b).len() implies #[trigger] (a + b)[i] < 0x80 by {
        if i < a.len() {
            assert((a + b)[i] == a[i]);
        } else {
            assert((a + b)[i] == b[i - a.len()]);
        }
    }
}

/// A decimal numeral is ASCII and not empty.
pub proof fn lemma_decimal_is_ascii(n: nat)
    ensures
        is_ascii(decimal(n)),
        decimal(n).len() > 0,
    decreases n,
{
    if n >= 10 {
        lemma_decimal_is_ascii(n / 10);
        lemma_is_ascii_add(decimal(n / 10), seq![digit_byte((n % 10) as int)]);
        assert(decimal(n) =~= decimal(n / 10) + seq![digit_byte((n % 10) as int)]);
    }
}

/// The notation of at least one full move is not empty.
pub proof fn lemma_moves_notation_not_empty(moves: Seq<Move>)
    requires
        moves.len() > 0,
    ensures
        moves_notation(moves).len() > 0,
{
    lemma_decimal_is_ascii(moves.len());
    lemma_decimal_is_ascii(1);
}

/// The markers after the arrival square are ASCII.
pub proof fn lemma_marks_are_ascii(details: MoveDetails)
    ensures
        is_ascii(details.marks()),
{
    let check = mark_if(details.check, seq!['+' as u8]);
    let en_passant = mark_if(details.en_passant, seq![' ' as u8] + en_passant_mark());
    let draw_offer = mark_if(details.draw_offer, seq![' ' as u8] + draw_offer_mark());
    assert(is_ascii(check));
    assert(is_ascii(en_passant));
    assert(is_ascii(draw_offer));
    lemma_is_ascii_add(check, en_passant);
    lemma_is_ascii_add(check + en_passant, draw_offer);
}

/// The notation of a half-move is ASCII.
pub proof fn lemma_half_move_is_ascii(half_move: HalfMove)
    ensures
        is_ascii(half_move.notation()),
{
    match half_move {
        HalfMove::HalfMove(details) => {
            let piece = details.figure.notation();
            let from = departure_notation(details.departure);
            let capture = mark_if(details.capture, seq!['x' as u8]);
            let arrival = details.arrival.notation();
            assert(is_ascii(piece));
            assert(is_ascii(from));
            assert(is_ascii(capture));
            assert(is_ascii(arrival));
            lemma_marks_are_ascii(details);
            lemma_is_ascii_add(piece, from);
            lemma_is_ascii_add(piece + from, capture);
            lemma_is_ascii_add(piece + from + capture, arrival);
            lemma_is_ascii_add(piece + from + capture + arrival, details.marks());
        },
        _ => {},
    }
}

/// A numbered piece of ASCII notation is ASCII.
pub proof fn lemma_numbered_is_ascii(n: nat, body: Seq<u8>)
    requires
        is_ascii(body),
    ensures
        is_ascii(numbered(n, body)),
{
    lemma_decimal_is_ascii(n);
    lemma_is_ascii_add(decimal(n), seq!['.' as u8, ' ' as u8]);
    lemma_is_ascii_add(decimal(n) + seq!['.' as u8, ' ' as u8], body);
}

/// The notation of a full move is ASCII.
pub proof fn lemma_move_is_ascii(full_move: Move)
    ensures
        is_ascii(full_move.notation()),
{
    lemma_half_move_is_ascii(full_move.white);
    lemma_half_move_is_ascii(full_move.black);
    lemma_is_ascii_add(full_move.white.notation(), seq![' ' as u8]);
    lemma_is_ascii_add(full_move.white.notation() + seq![' ' as u8], full_move.black.notation());
}

/// The notation of the full moves is ASCII.
pub proof fn lemma_moves_are_ascii(moves: Seq<Move>)
    ensures
        is_ascii(moves_notation(moves)),
    decreases moves.len(),
{
    if moves.len() == 1 {
        lemma_move_is_ascii(moves[0]);
        lemma_numbered_is_ascii(1, moves[0].notation());
    } else if moves.len() > 1 {
        let last = numbered(moves.len(), moves.last().notation());
        lemma_moves_are_ascii(moves.drop_last());
        lemma_move_is_ascii(moves.last());
        lemma_numbered_is_ascii(moves.len(), moves.last().notation());
        lemma_is_ascii_add(moves_notation(moves.drop_last()), seq![' ' as u8]);
        lemma_is_ascii_add(moves_notation(moves.drop_last()) + seq![' ' as u8], last);
    }
}

/// A transcript is ASCII.
pub proof fn lemma_game_is_ascii(g: GameView)
    ensures
        is_ascii(g.notation()),
{
    let blank = mark_if(g.result.stands_apart() && g.moves_text().len() > 0, seq![' ' as u8]);
    lemma_moves_are_ascii(g.moves);
    match g.last_half_move {
        Some(half_move) => {
            let sep = mark_if(g.moves.len() > 0, seq![' ' as u8]);
            lemma_half_move_is_ascii(half_move);
            lemma_numbered_is_ascii(g.moves.len() + 1, half_move.notation());
            lemma_is_ascii_add(moves_notation(g.moves), sep);
            lemma_is_ascii_add(
                moves_notation(g.moves) + sep,
                numbered(g.moves.len() + 1, half_move.notation()),
            );
        },
        None => {},
    }
    assert(is_ascii(g.result.notation())) by {
        match g.result {
            Result::Checkmate(color) => lemma_is_ascii_add(
                seq!['#' as u8, ' ' as u8],
                score(color),
            ),
            _ => {},
        }
    }
    lemma_is_ascii_add(g.moves_text(), blank);
    lemma_is_ascii_add(g.moves_text() + blank, g.result.notation());
}

/// Whether `text` ends with `tail`.
pub open spec fn ends_with(text: Seq<u8>, tail: Seq<u8>) -> bool {
    tail.len() <= text.len() && text.subrange(text.len() - tail.len(), text.len() as int) == tail
}

/// A text that is written as `head` and then `tail` ends with `tail`.
pub proof fn lemma_ends_with_tail(head: Seq<u8>, tail: Seq<u8>)
    ensures
        ends_with(head + tail, tail),
{
    let text = head + tail;
    assert(text.subrange(text.len() - tail.len(), text.len() as int) =~= tail);
}

impl GameView {
    /// The half-move that was made last: White's, where Black did not
    /// answer it, else Black's in the last full move.
    pub open spec fn final_half_move(self) -> Option<HalfMove> {
        match self.last_half_move {
            Some(half_move) => Some(half_move),
            None => if self.moves.len() > 0 {
                Some(self.moves.last().black)
            } else {
                None
            },
        }
    }
}

/// The marker of a checkmate is glued to the half-move before it: the
/// transcript ends with the notation of the last half-move, then `#` with no
/// blank before it, then a blank and the winner's score.
pub proof fn lemma_checkmate_marker_is_glued(g: GameView, winner: Color)
    requires
        g.result == Result::Checkmate(winner),
    ensures
        g.notation() == g.moves_text() + seq!['#' as u8, ' ' as u8] + score(winner),
        g.final_half_move() matches Some(half_move) ==> ends_with(
            g.notation(),
            half_move.notation() + seq!['#' as u8, ' ' as u8] + score(winner),
        ),
{
    let mark = seq!['#' as u8, ' ' as u8];
    assert(g.notation() =~= g.moves_text() + mark + score(winner));
    if let Some(half_move) = g.final_half_move() {
        let last = half_move.notation();
        let head = choose|head: Seq<u8>| g.moves_text() == head + last;
        assert(exists|head: Seq<u8>| g.moves_text() == head + last) by {
            match g.last_half_move {
                Some(_) => {
                    let head = moves_notation(g.moves) + mark_if(
                        g.moves.len() > 0,
                        seq![' ' as u8],
                    ) + decimal(g.moves.len() + 1) + seq!['.' as u8, ' ' as u8];
                    assert(g.moves_text() =~= head + last);
                },
                None => {
                    let number = decimal(g.moves.len()) + seq!['.' as u8, ' ' as u8];
                    let white = g.moves.last().white.notation() + seq![' ' as u8];
                    if g.moves.len() == 1 {
                        assert(g.moves_text() =~= number + white + last);
                    } else {
                        let head = moves_notation(g.moves.drop_last()) + seq![' ' as u8] + number
                            + white;
                        assert(g.moves_text() =~= head + last);
                    }
                },
            }
        }
        assert(g.notation() =~= head + (last + mark + score(winner)));
        lemma_ends_with_tail(head, last + mark + score(winner));
    }
}

} // verus!
