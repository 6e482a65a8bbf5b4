//! Reading back what was written: the grammar, applied where the notation
//! of a value stands in a text, finds that value and ends where the notation
//! ends, provided that what follows cannot be taken for a part of it.

use crate::grammar::{
    blanks, blanks_end, byte_is, departure, digits_end, figure, figure_of, file, file_of,
    half_move, half_move_with_departure, half_move_without_departure, has_at, is_blank, is_digit,
    move_number, move_tail, numbered_full_move, numbered_half_move, opt_byte, opt_mark, rank,
    rank_of, square, Parsed,
};
use crate::notation::{
    decimal, departure_notation, draw_offer_mark, en_passant_mark, mark_if, numbered, queenside,
};
use crate::types::{Departure, Figure, HalfMove, Move, MoveDetails, Square};
use vstd::prelude::*;

verus! {

/// A piece that stands in a text is made of parts that stand there one
/// after the other.
pub proof fn lemma_has_at_split(s: Seq<u8>, at: int, a: Seq<u8>, b: Seq<u8>)
    requires
        has_at(s, at, a + b),
    ensures
        has_at(s, at, a),
        has_at(s, at + a.len(), b),
{
    let whole = s.subrange(at, at + (a + b).len());
    assert(s.subrange(at, at + a.len()) =~= whole.subrange(0, a.len() as int));
    assert(whole.subrange(0, a.len() as int) =~= a);
    assert(s.subrange(at + a.len(), at + a.len() + b.len()) =~= whole.subrange(
        a.len() as int,
        (a + b).len() as int,
    ));
    assert(whole.subrange(a.len() as int, (a + b).len() as int) =~= b);
}

/// The bytes of a piece that stands in a text.
pub proof fn lemma_has_at_byte(s: Seq<u8>, at: int, piece: Seq<u8>, i: int)
    requires
        has_at(s, at, piece),
        0 <= i < piece.len(),
    ensures
        0 <= at + i < s.len(),
        s[at + i] == piece[i],
{
    assert(s.subrange(at, at + piece.len())[i] == s[at + i]);
}

/// A single blank before a byte that is none is a run of one blank.
pub proof fn lemma_single_blank(s: Seq<u8>, at: int)
    requires
        byte_is(s, at, ' ' as u8),
        !(at + 1 < s.len() && is_blank(s[at + 1])),
    ensures
        blanks_end(s, at) == at + 1,
        blanks(s, at) == (Parsed::Matched { value: (), end: at + 1 }),
{
    reveal_with_fuel(blanks_end, 2);
}

/// Whether the text at `at` is no continuation of a half-move that ends
/// there: no marker of a capture, of a check, of an en passant capture or of
/// a draw offer, no file letter and no hyphen.
pub open spec fn half_move_stops(s: Seq<u8>, at: int) -> bool {
    &&& !byte_is(s, at, '+' as u8)
    &&& !byte_is(s, at, 'x' as u8)
    &&& !byte_is(s, at, '-' as u8)
    &&& 0 <= at < s.len() ==> file_of(s[at]) is None
    &&& !opt_mark(s, at, en_passant_mark()).0
    &&& !opt_mark(s, at, draw_offer_mark()).0
}

/// Whether a token begins at `at` that is no blank and no marker of an en
/// passant capture or of a draw offer.
pub open spec fn token_starts(s: Seq<u8>, at: int) -> bool {
    &&& 0 <= at < s.len()
    &&& !is_blank(s[at])
    &&& s[at] != '(' as u8
    &&& !(s[at] == 'e' as u8 && byte_is(s, at + 1, '.' as u8))
}

/// A half-move stops at the end of the text.
pub proof fn lemma_stops_at_end(s: Seq<u8>)
    ensures
        half_move_stops(s, s.len() as int),
{
    reveal_with_fuel(blanks_end, 1);
}

/// A half-move stops before a byte that is no blank and none of the bytes
/// that go on with it, such as the checkmate marker.
pub proof fn lemma_stops_before_byte(s: Seq<u8>, at: int)
    requires
        0 <= at < s.len(),
        !is_blank(s[at]),
        s[at] != '+' as u8,
        s[at] != 'x' as u8,
        s[at] != '-' as u8,
        file_of(s[at]) is None,
    ensures
        half_move_stops(s, at),
{
    reveal_with_fuel(blanks_end, 1);
}

/// A half-move stops before a single blank and the token after it.
pub proof fn lemma_stops_before_token(s: Seq<u8>, at: int)
    requires
        byte_is(s, at, ' ' as u8),
        token_starts(s, at + 1),
    ensures
        half_move_stops(s, at),
        blanks(s, at) == (Parsed::Matched { value: (), end: at + 1 }),
{
    lemma_single_blank(s, at);
    if has_at(s, at + 1, en_passant_mark()) {
        lemma_has_at_byte(s, at + 1, en_passant_mark(), 0);
        lemma_has_at_byte(s, at + 1, en_passant_mark(), 1);
    }
    if has_at(s, at + 1, draw_offer_mark()) {
        lemma_has_at_byte(s, at + 1, draw_offer_mark(), 0);
    }
}

/// A square is read back.
pub proof fn lemma_read_square(s: Seq<u8>, at: int, sq: Square)
    requires
        has_at(s, at, sq.notation()),
    ensures
        square(s, at) == Some((sq, at + 2)),
        file(s, at) == Some((sq.file, at + 1)),
        rank(s, at) is None,
        figure_of(s[at]) is None,
        s[at] != 'x' as u8,
{
    lemma_has_at_byte(s, at, sq.notation(), 0);
    lemma_has_at_byte(s, at, sq.notation(), 1);
}

/// The markers after the arrival square are read back.
pub proof fn lemma_read_marks(s: Seq<u8>, at: int, details: MoveDetails)
    requires
        has_at(s, at, details.marks()),
        half_move_stops(s, at + details.marks().len()),
    ensures
        ({
            let (check, after_check) = opt_byte(s, at, '+' as u8);
            let (en_passant, after_en_passant) = opt_mark(s, after_check, en_passant_mark());
            let (draw_offer, end) = opt_mark(s, after_en_passant, draw_offer_mark());
            &&& check == details.check
            &&& en_passant == details.en_passant
            &&& draw_offer == details.draw_offer
            &&& end == at + details.marks().len()
        }),
        !byte_is(s, at, 'x' as u8),
        0 <= at < s.len() ==> file_of(s[at]) is None,
{
    let check = mark_if(details.check, seq!['+' as u8]);
    let en_passant = mark_if(details.en_passant, seq![' ' as u8] + en_passant_mark());
    let draw_offer = mark_if(details.draw_offer, seq![' ' as u8] + draw_offer_mark());
    lemma_has_at_split(s, at, check + en_passant, draw_offer);
    lemma_has_at_split(s, at, check, en_passant);
    let after_check = at + check.len();
    let after_en_passant = after_check + en_passant.len();
    let end = after_en_passant + draw_offer.len();
    // the draw offer, or what follows the half-move
    if details.draw_offer {
        lemma_has_at_split(s, after_en_passant, seq![' ' as u8], draw_offer_mark());
        lemma_has_at_byte(s, after_en_passant, seq![' ' as u8], 0);
        lemma_has_at_byte(s, after_en_passant + 1, draw_offer_mark(), 0);
        lemma_single_blank(s, after_en_passant);
        if has_at(s, after_en_passant + 1, en_passant_mark()) {
            lemma_has_at_byte(s, after_en_passant + 1, en_passant_mark(), 0);
        }
    }
    assert(opt_mark(s, after_en_passant, draw_offer_mark()) == (details.draw_offer, end));
    assert(!opt_mark(s, after_en_passant, en_passant_mark()).0);
    // the en passant marker
    if details.en_passant {
        lemma_has_at_split(s, after_check, seq![' ' as u8], en_passant_mark());
        lemma_has_at_byte(s, after_check, seq![' ' as u8], 0);
        lemma_has_at_byte(s, after_check + 1, en_passant_mark(), 0);
        lemma_single_blank(s, after_check);
    }
    assert(opt_mark(s, after_check, en_passant_mark()) == (details.en_passant, after_en_passant));
    // the check marker
    if details.check {
        lemma_has_at_byte(s, at, check, 0);
    }
}

/// What a piece move writes after figure and departure: the capture
/// marker, the arrival square and the markers after it.
pub open spec fn tail_notation(details: MoveDetails) -> Seq<u8> {
    mark_if(details.capture, seq!['x' as u8]) + details.arrival.notation() + details.marks()
}

/// What follows figure and departure is read back. It begins with no figure
/// letter and no rank digit.
pub proof fn lemma_read_tail(
    s: Seq<u8>,
    at: int,
    piece: Figure,
    from: Option<Departure>,
    details: MoveDetails,
)
    requires
        has_at(s, at, tail_notation(details)),
        half_move_stops(s, at + tail_notation(details).len()),
    ensures
        move_tail(s, at, piece, from) == Some(
            (
                MoveDetails { figure: piece, departure: from, ..details },
                at + tail_notation(details).len(),
            ),
        ),
        0 <= at < s.len(),
        figure_of(s[at]) is None,
        rank_of(s[at]) is None,
        tail_notation(details).len() >= 2,
{
    let capture = mark_if(details.capture, seq!['x' as u8]);
    let arrival = details.arrival.notation();
    lemma_has_at_split(s, at, capture + arrival, details.marks());
    lemma_has_at_split(s, at, capture, arrival);
    let after_capture = at + capture.len();
    lemma_read_square(s, after_capture, details.arrival);
    if details.capture {
        lemma_has_at_byte(s, at, capture, 0);
    }
    assert(opt_byte(s, at, 'x' as u8) == (details.capture, after_capture));
    lemma_read_marks(s, after_capture + 2, details);
}

/// Where a move names no departure, none is found: either no departure
/// stands at `at`, or the arrival square is taken for one and no second
/// arrival follows it.
pub proof fn lemma_no_departure(s: Seq<u8>, at: int, piece: Figure, details: MoveDetails)
    requires
        has_at(s, at, tail_notation(details)),
        half_move_stops(s, at + tail_notation(details).len()),
    ensures
        match departure(s, at) {
            Some((from, end)) => move_tail(s, end, piece, Some(from)) is None,
            None => true,
        },
{
    let capture = mark_if(details.capture, seq!['x' as u8]);
    let arrival = details.arrival.notation();
    lemma_has_at_split(s, at, capture + arrival, details.marks());
    lemma_has_at_split(s, at, capture, arrival);
    if details.capture {
        lemma_has_at_byte(s, at, capture, 0);
        assert(departure(s, at) is None);
    } else {
        lemma_read_square(s, at, details.arrival);
        assert(departure(s, at) == Some((Departure::Square(details.arrival), at + 2)));
        lemma_read_marks(s, at + 2, details);
    }
}

/// A departure is read back where the rest of the move follows it.
pub proof fn lemma_read_departure(s: Seq<u8>, at: int, from: Departure, next: u8)
    requires
        has_at(s, at, from.notation()),
        byte_is(s, at + from.notation().len(), next),
        rank_of(next) is None,
    ensures
        departure(s, at) == Some((from, at + from.notation().len())),
        figure_of(s[at]) is None,
{
    lemma_has_at_byte(s, at, from.notation(), 0);
    match from {
        Departure::Square(sq) => {
            lemma_read_square(s, at, sq);
        },
        _ => {},
    }
}

/// A figure is read back where the rest of the move follows it.
pub proof fn lemma_read_figure(s: Seq<u8>, at: int, piece: Figure, next: u8)
    requires
        has_at(s, at, piece.notation()),
        byte_is(s, at + piece.notation().len(), next),
        figure_of(next) is None,
    ensures
        figure(s, at) == (piece, at + piece.notation().len()),
{
    if piece != Figure::Pawn {
        lemma_has_at_byte(s, at, piece.notation(), 0);
    }
}

/// A piece move is read back.
pub proof fn lemma_read_details(s: Seq<u8>, at: int, details: MoveDetails)
    requires
        has_at(s, at, details.notation()),
        half_move_stops(s, at + details.notation().len()),
    ensures
        half_move(s, at) == (Parsed::Matched {
            value: HalfMove::HalfMove(details),
            end: at + details.notation().len(),
        }),
{
    let piece = details.figure.notation();
    let from = departure_notation(details.departure);
    let tail = tail_notation(details);
    assert(details.notation() =~= piece + from + tail);
    lemma_has_at_split(s, at, piece + from, tail);
    lemma_has_at_split(s, at, piece, from);
    let after_figure = at + piece.len();
    let after_departure = after_figure + from.len();
    lemma_read_tail(s, after_departure, details.figure, details.departure, details);
    match details.departure {
        Some(d) => {
            lemma_read_departure(s, after_figure, d, s[after_departure]);
            lemma_read_figure(s, at, details.figure, s[after_figure]);
        },
        None => {
            lemma_read_figure(s, at, details.figure, s[after_figure]);
            lemma_no_departure(s, after_figure, details.figure, details);
        },
    }
}

/// A castling is read back.
pub proof fn lemma_read_castling(s: Seq<u8>, at: int, castling: HalfMove)
    requires
        !(castling is HalfMove),
        has_at(s, at, castling.notation()),
        half_move_stops(s, at + castling.notation().len()),
    ensures
        half_move(s, at) == (Parsed::Matched {
            value: castling,
            end: at + castling.notation().len(),
        }),
{
    lemma_has_at_byte(s, at, castling.notation(), 0);
    assert(s[at] == '0' as u8);
    assert(half_move_with_departure(s, at) is None);
    assert(half_move_without_departure(s, at) is None);
    if castling is KingsideCastling && has_at(s, at, queenside()) {
        lemma_has_at_byte(s, at, queenside(), 3);
    }
}

/// Queenside castling is tried before kingside castling: where `0-0-0`
/// stands, it is read whole, whatever follows, and never as `0-0` with a
/// hyphen and a zero left over.
pub proof fn lemma_queenside_castling_is_read_whole(s: Seq<u8>, at: int)
    requires
        has_at(s, at, queenside()),
    ensures
        half_move(s, at) == (Parsed::Matched { value: HalfMove::QueensideCastling, end: at + 5 }),
{
    lemma_has_at_byte(s, at, queenside(), 0);
    assert(half_move_with_departure(s, at) is None);
    assert(half_move_without_departure(s, at) is None);
}

/// A half-move is read back where its notation stands and stops.
pub proof fn lemma_read_half_move(s: Seq<u8>, at: int, found: HalfMove)
    requires
        has_at(s, at, found.notation()),
        half_move_stops(s, at + found.notation().len()),
    ensures
        half_move(s, at) == (Parsed::Matched { value: found, end: at + found.notation().len() }),
{
    match found {
        HalfMove::HalfMove(details) => lemma_read_details(s, at, details),
        _ => lemma_read_castling(s, at, found),
    }
}

/// The notation of a half-move begins as a token does.
pub proof fn lemma_half_move_starts(s: Seq<u8>, at: int, found: HalfMove)
    requires
        has_at(s, at, found.notation()),
    ensures
        found.notation().len() >= 2,
        token_starts(s, at),
{
    match found {
        HalfMove::HalfMove(details) => {
            let piece = details.figure.notation();
            let from = departure_notation(details.departure);
            let capture = mark_if(details.capture, seq!['x' as u8]);
            let arrival = details.arrival.notation();
            let text = details.notation();
            assert(text =~= piece + from + capture + arrival + details.marks());
            assert(text.len() >= 2);
            lemma_has_at_byte(s, at, text, 0);
            lemma_has_at_byte(s, at, text, 1);
            let head = piece + from + capture + arrival;
            assert(text[0] == head[0]);
            assert(text[1] == head[1]);
            assert(!is_blank(head[0]) && head[0] != '(' as u8);
            assert(head[0] == 'e' as u8 ==> head[1] != '.' as u8);
        },
        _ => {
            lemma_has_at_byte(s, at, found.notation(), 0);
        },
    }
}

/// A decimal numeral is made of digits, has at least one, and begins with
/// a zero only where it is zero.
pub proof fn lemma_decimal(n: nat)
    ensures
        decimal(n).len() >= 1,
        forall|i: int| 0 <= i < decimal(n).len() ==> is_digit(#[trigger] decimal(n)[i]),
        n >= 1 ==> decimal(n)[0] != '0' as u8,
    decreases n,
{
    if n >= 10 {
        lemma_decimal(n / 10);
    }
}

/// A run of digits that stands in a text before a byte that is no digit
/// ends where it ends.
pub proof fn lemma_digits_run(s: Seq<u8>, at: int, piece: Seq<u8>, from: int)
    requires
        has_at(s, at, piece),
        forall|i: int| 0 <= i < piece.len() ==> is_digit(#[trigger] piece[i]),
        !(at + piece.len() < s.len() && is_digit(s[at + piece.len()])),
        0 <= from <= piece.len(),
    ensures
        digits_end(s, at + from) == at + piece.len(),
    decreases piece.len() - from,
{
    if from < piece.len() {
        lemma_has_at_byte(s, at, piece, from);
        lemma_digits_run(s, at, piece, from + 1);
    }
}

/// A move number with its dot is read back. It begins as a token does, with
/// a digit.
pub proof fn lemma_read_number(s: Seq<u8>, at: int, n: nat)
    requires
        has_at(s, at, decimal(n) + seq!['.' as u8, ' ' as u8]),
    ensures
        move_number(s, at) == (Parsed::Matched { value: (), end: at + decimal(n).len() + 1 }),
        byte_is(s, at + decimal(n).len() + 1, ' ' as u8),
        token_starts(s, at),
        is_digit(s[at]),
        s[at] == decimal(n)[0],
        byte_is(s, at + 1, '.' as u8) || (at + 1 < s.len() && is_digit(s[at + 1])),
{
    let dot = seq!['.' as u8, ' ' as u8];
    lemma_decimal(n);
    lemma_has_at_split(s, at, decimal(n), dot);
    let after_digits = at + decimal(n).len();
    lemma_has_at_byte(s, after_digits, dot, 0);
    lemma_has_at_byte(s, after_digits, dot, 1);
    lemma_digits_run(s, at, decimal(n), 0);
    lemma_has_at_byte(s, at, decimal(n), 0);
    if decimal(n).len() > 1 {
        lemma_has_at_byte(s, at, decimal(n), 1);
    }
}

/// A numbered half-move is read back where it stands and stops.
pub proof fn lemma_read_numbered_half_move(s: Seq<u8>, at: int, n: nat, found: HalfMove)
    requires
        has_at(s, at, numbered(n, found.notation())),
        half_move_stops(s, at + numbered(n, found.notation()).len()),
    ensures
        numbered_half_move(s, at) == (Parsed::Matched {
            value: found,
            end: at + numbered(n, found.notation()).len(),
        }),
        token_starts(s, at),
        is_digit(s[at]),
        s[at] == decimal(n)[0],
        byte_is(s, at + 1, '.' as u8) || (at + 1 < s.len() && is_digit(s[at + 1])),
{
    let number = decimal(n) + seq!['.' as u8, ' ' as u8];
    lemma_has_at_split(s, at, number, found.notation());
    lemma_read_number(s, at, n);
    let at_blank = at + decimal(n).len() + 1;
    lemma_half_move_starts(s, at_blank + 1, found);
    lemma_stops_before_token(s, at_blank);
    lemma_read_half_move(s, at_blank + 1, found);
}

/// A full move is read back where it stands and stops.
pub proof fn lemma_read_full_move(s: Seq<u8>, at: int, n: nat, found: Move)
    requires
        has_at(s, at, numbered(n, found.notation())),
        half_move_stops(s, at + numbered(n, found.notation()).len()),
    ensures
        numbered_full_move(s, at) == (Parsed::Matched {
            value: found,
            end: at + numbered(n, found.notation()).len(),
        }),
        token_starts(s, at),
        is_digit(s[at]),
{
    let white = numbered(n, found.white.notation());
    let black = seq![' ' as u8] + found.black.notation();
    assert(numbered(n, found.notation()) =~= white + black);
    lemma_has_at_split(s, at, white, black);
    let after_white = at + white.len();
    lemma_has_at_split(s, after_white, seq![' ' as u8], found.black.notation());
    lemma_has_at_byte(s, after_white, seq![' ' as u8], 0);
    lemma_half_move_starts(s, after_white + 1, found.black);
    lemma_stops_before_token(s, after_white);
    lemma_read_numbered_half_move(s, at, n, found.white);
    lemma_read_half_move(s, after_white + 1, found.black);
}

} // verus!
