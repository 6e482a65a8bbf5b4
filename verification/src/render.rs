//! The renderer: from a [`Game`] to its transcript.
//!
//! Each value writes its notation at the end of a string. What is written is
//! the text of the bytes that [`crate::notation`] defines.

use crate::notation::{
    as_text, decimal, departure_notation, digit_byte, draw_offer_mark, draw_score,
    en_passant_mark, kingside, lemma_decimal_is_ascii, lemma_game_is_ascii,
    lemma_moves_notation_not_empty, mark_if, moves_notation, queenside, score,
};
use crate::text::lemma_ascii_bytes_encode_their_text;
use crate::types::{
    Color, Departure, Figure, File, Game, HalfMove, Move, MoveDetails, Rank, Result, Square,
};
use vstd::prelude::*;
use vstd::utf8::encode_utf8;

verus! {

/// The text of two pieces written one after the other.
pub proof fn lemma_as_text_add(a: Seq<u8>, b: Seq<u8>)
    ensures
        as_text(a + b) == as_text(a) + as_text(b),
{
    assert(as_text(a + b) =~= as_text(a) + as_text(b));
}

/// The score that a win of `color` is recorded with: `1-0` or `0-1`.
pub fn render_score_by_color(color: &Color) -> (text: String)
    ensures
        text@ == as_text(score(*color)),
{
    proof {
        reveal_strlit("1-0");
        reveal_strlit("0-1");
    }
    let text = match color {
        Color::White => String::from_str("1-0"),
        Color::Black => String::from_str("0-1"),
    };
    assert(text@ =~= as_text(score(*color)));
    text
}

/// Writes the digit `d`.
fn write_digit(d: u8, out: &mut String)
    requires
        d < 10,
    ensures
        final(out)@ == old(out)@ + as_text(seq![digit_byte(d as int)]),
{
    proof {
        reveal_strlit("0");
        reveal_strlit("1");
        reveal_strlit("2");
        reveal_strlit("3");
        reveal_strlit("4");
        reveal_strlit("5");
        reveal_strlit("6");
        reveal_strlit("7");
        reveal_strlit("8");
        reveal_strlit("9");
    }
    let digit = if d == 0 {
        "0"
    } else if d == 1 {
        "1"
    } else if d == 2 {
        "2"
    } else if d == 3 {
        "3"
    } else if d == 4 {
        "4"
    } else if d == 5 {
        "5"
    } else if d == 6 {
        "6"
    } else if d == 7 {
        "7"
    } else if d == 8 {
        "8"
    } else {
        "9"
    };
    assert(digit@ =~= as_text(seq![digit_byte(d as int)]));
    out.append(digit);
}

/// Writes `n` in decimal, without leading zeros.
fn write_decimal(n: u128, out: &mut String)
    ensures
        final(out)@ == old(out)@ + as_text(decimal(n as nat)),
    decreases n,
{
    if n >= 10 {
        write_decimal(n / 10, out);
    }
    write_digit((n % 10) as u8, out);
    proof {
        if n >= 10 {
            lemma_as_text_add(decimal((n / 10) as nat), seq![digit_byte((n % 10) as int)]);
            assert(decimal((n / 10) as nat).push(digit_byte((n % 10) as int)) =~= decimal(
                (n / 10) as nat,
            ) + seq![digit_byte((n % 10) as int)]);
        }
    }
}

/// Writes the number of a move, the dot and the blank after it.
fn write_move_number(n: u128, out: &mut String)
    ensures
        final(out)@ == old(out)@ + as_text(decimal(n as nat) + seq!['.' as u8, ' ' as u8]),
{
    write_decimal(n, out);
    proof {
        reveal_strlit(". ");
        lemma_as_text_add(decimal(n as nat), seq!['.' as u8, ' ' as u8]);
        assert(". "@ =~= as_text(seq!['.' as u8, ' ' as u8]));
    }
    out.append(". ");
}

impl Figure {
    /// Writes the letter of the piece; for a pawn, nothing.
    pub fn fmt(&self, out: &mut String)
        ensures
            final(out)@ == old(out)@ + as_text(self.notation()),
    {
        proof {
            reveal_strlit("K");
            reveal_strlit("Q");
            reveal_strlit("R");
            reveal_strlit("B");
            reveal_strlit("N");
            reveal_strlit("");
        }
        let letter = match self {
            Figure::King => "K",
            Figure::Queen => "Q",
            Figure::Rook => "R",
            Figure::Bishop => "B",
            Figure::Knight => "N",
            Figure::Pawn => "",
        };
        assert(letter@ =~= as_text(self.notation()));
        out.append(letter);
    }
}

impl File {
    /// Writes the letter of the file.
    pub fn fmt(&self, out: &mut String)
        ensures
            final(out)@ == old(out)@ + as_text(self.notation()),
    {
        proof {
            reveal_strlit("a");
            reveal_strlit("b");
            reveal_strlit("c");
            reveal_strlit("d");
            reveal_strlit("e");
            reveal_strlit("f");
            reveal_strlit("g");
            reveal_strlit("h");
        }
        let letter = match self {
            File::A => "a",
            File::B => "b",
            File::C => "c",
            File::D => "d",
            File::E => "e",
            File::F => "f",
            File::G => "g",
            File::H => "h",
        };
        assert(letter@ =~= as_text(self.notation()));
        out.append(letter);
    }
}

impl Rank {
    /// Writes the digit of the rank.
    pub fn fmt(&self, out: &mut String)
        ensures
            final(out)@ == old(out)@ + as_text(self.notation()),
    {
        proof {
            reveal_strlit("1");
            reveal_strlit("2");
            reveal_strlit("3");
            reveal_strlit("4");
            reveal_strlit("5");
            reveal_strlit("6");
            reveal_strlit("7");
            reveal_strlit("8");
        }
        let digit = match self {
            Rank::R1 => "1",
            Rank::R2 => "2",
            Rank::R3 => "3",
            Rank::R4 => "4",
            Rank::R5 => "5",
            Rank::R6 => "6",
            Rank::R7 => "7",
            Rank::R8 => "8",
        };
        assert(digit@ =~= as_text(self.notation()));
        out.append(digit);
    }
}

impl Square {
    /// Writes the file letter and the rank digit.
    pub fn fmt(&self, out: &mut String)
        ensures
            final(out)@ == old(out)@ + as_text(self.notation()),
    {
        self.file.fmt(out);
        self.rank.fmt(out);
        proof {
            lemma_as_text_add(self.file.notation(), self.rank.notation());
            assert(self.notation() =~= self.file.notation() + self.rank.notation());
        }
    }
}

impl Departure {
    /// Writes the file, the rank or the square that the piece left.
    pub fn fmt(&self, out: &mut String)
        ensures
            final(out)@ == old(out)@ + as_text(self.notation()),
    {
        match self {
            Departure::File(file) => file.fmt(out),
            Departure::Rank(rank) => rank.fmt(out),
            Departure::Square(square) => square.fmt(out),
        }
    }
}

/// The text of three pieces written after `base`.
proof fn lemma_text_of_three(base: Seq<char>, a: Seq<u8>, b: Seq<u8>, c: Seq<u8>)
    ensures
        base + as_text(a) + as_text(b) + as_text(c) == base + as_text(a + b + c),
{
    assert(base + as_text(a) + as_text(b) + as_text(c) =~= base + as_text(a + b + c));
}

/// The text of five pieces written after `base`.
proof fn lemma_text_of_five(
    base: Seq<char>,
    a: Seq<u8>,
    b: Seq<u8>,
    c: Seq<u8>,
    d: Seq<u8>,
    e: Seq<u8>,
)
    ensures
        base + as_text(a) + as_text(b) + as_text(c) + as_text(d) + as_text(e) == base + as_text(
            a + b + c + d + e,
        ),
{
    assert(base + as_text(a) + as_text(b) + as_text(c) + as_text(d) + as_text(e) =~= base
        + as_text(a + b + c + d + e));
}

/// Writes the departure, where the move names one.
fn write_departure(departure: &Option<Departure>, out: &mut String)
    ensures
        final(out)@ == old(out)@ + as_text(departure_notation(*departure)),
{
    match departure {
        None => {
            assert(out@ =~= old(out)@ + as_text(departure_notation(*departure)));
        },
        Some(from) => {
            from.fmt(out);
        },
    }
}

/// Writes the capture marker `x`, where the move captures.
fn write_capture(capture: bool, out: &mut String)
    ensures
        final(out)@ == old(out)@ + as_text(mark_if(capture, seq!['x' as u8])),
{
    proof {
        reveal_strlit("x");
    }
    if capture {
        out.append("x");
    }
    assert(out@ =~= old(out)@ + as_text(mark_if(capture, seq!['x' as u8])));
}

/// Writes the check marker `+`, where the move gives check.
fn write_check(check: bool, out: &mut String)
    ensures
        final(out)@ == old(out)@ + as_text(mark_if(check, seq!['+' as u8])),
{
    proof {
        reveal_strlit("+");
    }
    if check {
        out.append("+");
    }
    assert(out@ =~= old(out)@ + as_text(mark_if(check, seq!['+' as u8])));
}

/// Writes a blank and the en passant marker, where the move is such a
/// capture.
fn write_en_passant(en_passant: bool, out: &mut String)
    ensures
        final(out)@ == old(out)@ + as_text(
            mark_if(en_passant, seq![' ' as u8] + en_passant_mark()),
        ),
{
    proof {
        reveal_strlit(" e.p.");
    }
    if en_passant {
        out.append(" e.p.");
    }
    assert(out@ =~= old(out)@ + as_text(mark_if(en_passant, seq![' ' as u8] + en_passant_mark())));
}

/// Writes a blank and the draw offer, where the move carries one.
fn write_draw_offer(draw_offer: bool, out: &mut String)
    ensures
        final(out)@ == old(out)@ + as_text(
            mark_if(draw_offer, seq![' ' as u8] + draw_offer_mark()),
        ),
{
    proof {
        reveal_strlit(" (=)");
    }
    if draw_offer {
        out.append(" (=)");
    }
    assert(out@ =~= old(out)@ + as_text(mark_if(draw_offer, seq![' ' as u8] + draw_offer_mark())));
}

impl MoveDetails {
    /// Writes what follows the arrival square: the check marker, the en
    /// passant marker and the draw offer, each where it is set.
    fn fmt_marks(&self, out: &mut String)
        ensures
            final(out)@ == old(out)@ + as_text(self.marks()),
    {
        write_check(self.check, out);
        write_en_passant(self.en_passant, out);
        write_draw_offer(self.draw_offer, out);
        proof {
            lemma_text_of_three(
                old(out)@,
                mark_if(self.check, seq!['+' as u8]),
                mark_if(self.en_passant, seq![' ' as u8] + en_passant_mark()),
                mark_if(self.draw_offer, seq![' ' as u8] + draw_offer_mark()),
            );
        }
    }

    /// Writes figure, departure, capture marker, arrival square and the
    /// marks after it, in this order.
    pub fn fmt(&self, out: &mut String)
        ensures
            final(out)@ == old(out)@ + as_text(self.notation()),
    {
        self.figure.fmt(out);
        write_departure(&self.departure, out);
        write_capture(self.capture, out);
        self.arrival.fmt(out);
        self.fmt_marks(out);
        proof {
            lemma_text_of_five(
                old(out)@,
                self.figure.notation(),
                departure_notation(self.departure),
                mark_if(self.capture, seq!['x' as u8]),
                self.arrival.notation(),
                self.marks(),
            );
        }
    }
}

impl HalfMove {
    /// Writes a piece move by its details; a castling as `0-0` or `0-0-0`.
    pub fn fmt(&self, out: &mut String)
        ensures
            final(out)@ == old(out)@ + as_text(self.notation()),
    {
        proof {
            reveal_strlit("0-0");
            reveal_strlit("0-0-0");
        }
        match self {
            HalfMove::HalfMove(details) => {
                details.fmt(out);
            },
            HalfMove::KingsideCastling => {
                out.append("0-0");
                assert(out@ =~= old(out)@ + as_text(kingside()));
            },
            HalfMove::QueensideCastling => {
                out.append("0-0-0");
                assert(out@ =~= old(out)@ + as_text(queenside()));
            },
        }
    }
}

impl Move {
    /// Writes White's half-move, a blank and Black's half-move.
    pub fn fmt(&self, out: &mut String)
        ensures
            final(out)@ == old(out)@ + as_text(self.notation()),
    {
        proof {
            reveal_strlit(" ");
        }
        self.white.fmt(out);
        out.append(" ");
        self.black.fmt(out);
        assert(out@ =~= old(out)@ + as_text(self.notation()));
    }
}

impl Result {
    /// Writes the token of the result: a score, for a checkmate the marker
    /// `#` and a blank before it, for an unknown result nothing.
    pub fn fmt(&self, out: &mut String)
        ensures
            final(out)@ == old(out)@ + as_text(self.notation()),
    {
        proof {
            reveal_strlit("1/2-1/2");
            reveal_strlit("# ");
        }
        match self {
            Result::Draw => {
                out.append("1/2-1/2");
                assert(out@ =~= old(out)@ + as_text(draw_score()));
            },
            Result::Checkmate(color) => {
                out.append("# ");
                let score_text = render_score_by_color(color);
                out.append(score_text.as_str());
                assert(out@ =~= old(out)@ + as_text(self.notation()));
            },
            Result::Win(color) => {
                let score_text = render_score_by_color(color);
                out.append(score_text.as_str());
            },
            Result::Unknown => {
                assert(out@ =~= old(out)@ + as_text(self.notation()));
            },
        }
    }
}

/// Writes the blank that parts two tokens.
fn write_blank(out: &mut String)
    ensures
        final(out)@ == old(out)@ + as_text(seq![' ' as u8]),
{
    proof {
        reveal_strlit(" ");
    }
    out.append(" ");
    assert(out@ =~= old(out)@ + as_text(seq![' ' as u8]));
}

/// Writes the full moves, numbered from 1 and joined by single blanks.
fn write_moves(moves: &Vec<Move>, out: &mut String)
    ensures
        final(out)@ == old(out)@ + as_text(moves_notation(moves@)),
{
    let mut i: usize = 0;
    assert(out@ =~= old(out)@ + as_text(moves_notation(moves@.take(0))));
    while i < moves.len()
        invariant
            i <= moves@.len(),
            out@ == old(out)@ + as_text(moves_notation(moves@.take(i as int))),
        decreases moves@.len() - i,
    {
        let ghost done = moves@.take(i as int);
        let ghost next = moves@.take(i + 1);
        if i > 0 {
            write_blank(out);
        }
        write_move_number(i as u128 + 1, out);
        moves[i].fmt(out);
        proof {
            assert(next.drop_last() =~= done);
            assert(next.last() == moves@[i as int]);
            assert(out@ =~= old(out)@ + as_text(moves_notation(next)));
        }
        i += 1;
    }
    assert(moves@.take(i as int) =~= moves@);
}

impl Game {
    /// Writes the full moves and, where White moved last, a blank and that
    /// half-move under the next number.
    fn fmt_moves(&self, out: &mut String)
        ensures
            final(out)@ == old(out)@ + as_text(self@.moves_text()),
    {
        write_moves(&self.moves, out);
        if let Some(half_move) = &self.last_half_move {
            if self.moves.len() > 0 {
                write_blank(out);
            }
            write_move_number(self.moves.len() as u128 + 1, out);
            half_move.fmt(out);
        }
        assert(out@ =~= old(out)@ + as_text(self@.moves_text()));
    }

    /// Writes the transcript of the game: the full moves numbered from 1,
    /// then White's last half-move under the next number where there is
    /// one, then the result, joined by single blanks. The marker of a
    /// checkmate is glued to the half-move before it.
    pub fn fmt(&self, out: &mut String)
        ensures
            final(out)@ == old(out)@ + as_text(self@.notation()),
    {
        self.fmt_moves(out);
        let written = self.moves.len() > 0 || self.last_half_move.is_some();
        proof {
            if self.moves@.len() > 0 {
                lemma_moves_notation_not_empty(self.moves@);
            }
            lemma_decimal_is_ascii(self.moves@.len() + 1);
            assert(written == (self@.moves_text().len() > 0));
        }
        match self.result {
            Result::Win(_) | Result::Draw => {
                if written {
                    write_blank(out);
                }
            },
            _ => {},
        }
        self.result.fmt(out);
        assert(out@ =~= old(out)@ + as_text(self@.notation()));
    }
}

/// The transcript of `game`.
///
/// Every game has one. It is the text of the game's notation, which is
/// ASCII, so the bytes of the transcript are the notation itself. It is not
/// empty where the game has a full move.
pub fn render_game(game: Game) -> (text: String)
    ensures
        text@ == as_text(game@.notation()),
        encode_utf8(text@) == game@.notation(),
        game@.moves.len() > 0 ==> text@.len() > 0,
{
    let mut text = String::new();
    game.fmt(&mut text);
    proof {
        assert(text@ =~= as_text(game@.notation()));
        lemma_game_is_ascii(game@);
        lemma_ascii_bytes_encode_their_text(game@.notation());
        if game@.moves.len() > 0 {
            lemma_moves_notation_not_empty(game@.moves);
        }
    }
    text
}

} // verus!
