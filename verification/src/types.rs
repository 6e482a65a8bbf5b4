//! The vocabulary of a game transcript: pieces, squares, moves and games.
//!
//! Every type here is a plain value. The small ones are their own mathematical
//! model; [`Game`], which owns a vector, is viewed as a [`GameView`].

use vstd::prelude::*;

verus! {

/// The side that makes a move or wins a game.
#[derive(Debug, Eq, PartialEq, Clone, Copy, Structural)]
pub enum Color {
    White,
    Black,
}

/// The kind of piece that moves.
#[derive(Debug, Eq, PartialEq, Clone, Copy, Structural)]
pub enum Figure {
    King,
    Queen,
    Rook,
    Bishop,
    Knight,
    Pawn,
}

/// A column of the board, written `a` to `h`.
#[derive(Debug, Eq, PartialEq, Clone, Copy, Structural)]
pub enum File {
    A,
    B,
    C,
    D,
    E,
    F,
    G,
    H,
}

/// A row of the board, written `1` to `8`.
#[derive(Debug, Eq, PartialEq, Clone, Copy, Structural)]
pub enum Rank {
    R1,
    R2,
    R3,
    R4,
    R5,
    R6,
    R7,
    R8,
}

/// One player's action within a numbered move.
#[derive(Debug, Eq, PartialEq, Clone, Copy)]
pub enum HalfMove {
    HalfMove(MoveDetails),
    KingsideCastling,
    QueensideCastling,
}

/// Everything the notation records about a piece move.
#[derive(Debug, Eq, PartialEq, Clone, Copy)]
pub struct MoveDetails {
    pub figure: Figure,
    pub departure: Option<Departure>,
    pub capture: bool,
    pub arrival: Square,
    pub check: bool,
    pub en_passant: bool,
    pub draw_offer: bool,
}

/// A board coordinate.
#[derive(Debug, Eq, PartialEq, Clone, Copy, Structural)]
pub struct Square {
    pub file: File,
    pub rank: Rank,
}

/// What the notation says about the square a piece left.
#[derive(Debug, Eq, PartialEq, Clone, Copy, Structural)]
pub enum Departure {
    File(File),
    Rank(Rank),
    Square(Square),
}

/// A numbered move: White's action followed by Black's.
#[derive(Debug, Eq, PartialEq, Clone, Copy)]
pub struct Move {
    pub white: HalfMove,
    pub black: HalfMove,
}

/// How a game ended. `Unknown` stands for a transcript without a result.
#[derive(Debug, Eq, PartialEq, Clone, Copy, Structural)]
pub enum Result {
    Checkmate(Color),
    Win(Color),
    Draw,
    Unknown,
}

/// A whole game: the full moves, White's last action where Black did not
/// answer it, and the result.
#[derive(Debug, Eq, PartialEq, Clone)]
pub struct Game {
    pub moves: Vec<Move>,
    pub last_half_move: Option<HalfMove>,
    pub result: Result,
}

/// The mathematical model of a [`Game`].
pub struct GameView {
    pub moves: Seq<Move>,
    pub last_half_move: Option<HalfMove>,
    pub result: Result,
}

impl View for Game {
    type V = GameView;

    open spec fn view(&self) -> GameView {
        GameView { moves: self.moves@, last_half_move: self.last_half_move, result: self.result }
    }
}

impl HalfMove {
    /// Whether this action carries a draw offer. Castling never does.
    pub open spec fn offers_draw(self) -> bool {
        match self {
            HalfMove::HalfMove(details) => details.draw_offer,
            _ => false,
        }
    }

    /// Whether this action carries a draw offer.
    pub fn has_draw_offer(&self) -> (offer: bool)
        ensures
            offer == self.offers_draw(),
    {
        match self {
            HalfMove::HalfMove(details) => details.draw_offer,
            _ => false,
        }
    }
}

impl GameView {
    /// Whether Black offered a draw in the last full move.
    pub open spec fn black_offers_draw(self) -> bool {
        self.moves.len() > 0 && self.moves.last().black.offers_draw()
    }

    /// The invariant of a game: a last half-move of White is kept only where
    /// Black did not answer it; a checkmate is White's after such a
    /// half-move and Black's after a full move; and no result is unknown
    /// after a draw offer, which stands for a draw then.
    pub open spec fn is_well_formed(self) -> bool {
        &&& self.result is Unknown ==> self.last_half_move is None && !self.black_offers_draw()
        &&& self.result == Result::Checkmate(Color::White) ==> self.last_half_move is Some
        &&& self.result == Result::Checkmate(Color::Black) ==> self.last_half_move is None
        &&& self.last_half_move is Some ==> !self.black_offers_draw()
    }

    /// The games that their transcript determines: the well-formed games of
    /// at least one full move, the empty game, and a bare checkmate by
    /// Black. Any other game without a full move begins its transcript with
    /// a token that the grammar wants a blank before.
    pub open spec fn is_canonical(self) -> bool {
        &&& self.is_well_formed()
        &&& self.moves.len() == 0 ==> self.last_half_move is None && (self.result is Unknown
            || self.result == Result::Checkmate(Color::Black))
    }
}

/// A piece move under construction.
pub struct MoveBuilder(MoveDetails);

impl View for MoveBuilder {
    type V = MoveDetails;

    closed spec fn view(&self) -> MoveDetails {
        self.0
    }
}

/// Starts a move of `figure` to the square `file``rank`, with no departure
/// and every flag cleared.
pub fn move_figure_to(figure: Figure, file: File, rank: Rank) -> (builder: MoveBuilder)
    ensures
        builder@ == (MoveDetails {
            figure,
            departure: None,
            capture: false,
            arrival: Square { file, rank },
            check: false,
            en_passant: false,
            draw_offer: false,
        }),
{
    MoveBuilder(
        MoveDetails {
            figure,
            arrival: Square { file, rank },
            departure: None,
            capture: false,
            check: false,
            en_passant: false,
            draw_offer: false,
        },
    )
}

impl MoveBuilder {
    /// Names the file the piece left. Replaces any earlier departure.
    pub fn with_departure_file(self, file: File) -> (builder: Self)
        ensures
            builder@ == (MoveDetails { departure: Some(Departure::File(file)), ..self@ }),
    {
        let mut details = self.0;
        details.departure = Some(Departure::File(file));
        MoveBuilder(details)
    }

    /// Names the rank the piece left. Replaces any earlier departure.
    pub fn with_departure_rank(self, rank: Rank) -> (builder: Self)
        ensures
            builder@ == (MoveDetails { departure: Some(Departure::Rank(rank)), ..self@ }),
    {
        let mut details = self.0;
        details.departure = Some(Departure::Rank(rank));
        MoveBuilder(details)
    }

    /// Names the square the piece left. Replaces any earlier departure.
    pub fn with_departure_square(self, file: File, rank: Rank) -> (builder: Self)
        ensures
            builder@ == (MoveDetails {
                departure: Some(Departure::Square(Square { file, rank })),
                ..self@
            }),
    {
        let mut details = self.0;
        details.departure = Some(Departure::Square(Square { file, rank }));
        MoveBuilder(details)
    }

    /// Marks the move as a capture.
    pub fn capture(self) -> (builder: Self)
        ensures
            builder@ == (MoveDetails { capture: true, ..self@ }),
    {
        let mut details = self.0;
        details.capture = true;
        MoveBuilder(details)
    }

    /// Marks the move as an en passant capture.
    pub fn en_passant(self) -> (builder: Self)
        ensures
            builder@ == (MoveDetails { en_passant: true, ..self@ }),
    {
        let mut details = self.0;
        details.en_passant = true;
        MoveBuilder(details)
    }

    /// Marks the move as giving check.
    pub fn check(self) -> (builder: Self)
        ensures
            builder@ == (MoveDetails { check: true, ..self@ }),
    {
        let mut details = self.0;
        details.check = true;
        MoveBuilder(details)
    }

    /// Attaches a draw offer to the move.
    pub fn draw_offer(self) -> (builder: Self)
        ensures
            builder@ == (MoveDetails { draw_offer: true, ..self@ }),
    {
        let mut details = self.0;
        details.draw_offer = true;
        MoveBuilder(details)
    }

    /// The finished half-move.
    pub fn build(self) -> (half_move: HalfMove)
        ensures
            half_move == HalfMove::HalfMove(self@),
    {
        HalfMove::HalfMove(self.0)
    }
}

} // verus!
