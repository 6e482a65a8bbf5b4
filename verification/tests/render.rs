use chess_notation::{
    move_figure_to, render_game, render_score_by_color, Color, Departure, Figure, File, Game,
    HalfMove, Move, Rank, Result, Square,
};

fn rendered_half_move(half_move: HalfMove) -> String {
    let mut out = String::new();
    half_move.fmt(&mut out);
    out
}

fn pawn(file: File, rank: Rank) -> HalfMove {
    move_figure_to(Figure::Pawn, file, rank).build()
}

fn opening() -> Vec<Move> {
    vec![Move { white: pawn(File::E, Rank::R4), black: pawn(File::E, Rank::R5) }]
}

#[test]
fn scores_by_color() {
    assert_eq!(render_score_by_color(&Color::White), "1-0");
    assert_eq!(render_score_by_color(&Color::Black), "0-1");
}

#[test]
fn figures_files_and_ranks_have_their_symbols() {
    let figures = [
        (Figure::King, "K"),
        (Figure::Queen, "Q"),
        (Figure::Rook, "R"),
        (Figure::Bishop, "B"),
        (Figure::Knight, "N"),
        (Figure::Pawn, ""),
    ];
    for (figure, symbol) in figures {
        let mut out = String::new();
        figure.fmt(&mut out);
        assert_eq!(out, symbol);
    }
    let files = [
        (File::A, "a"),
        (File::B, "b"),
        (File::C, "c"),
        (File::D, "d"),
        (File::E, "e"),
        (File::F, "f"),
        (File::G, "g"),
        (File::H, "h"),
    ];
    for (file, symbol) in files {
        let mut out = String::new();
        file.fmt(&mut out);
        assert_eq!(out, symbol);
    }
    let ranks = [
        (Rank::R1, "1"),
        (Rank::R2, "2"),
        (Rank::R3, "3"),
        (Rank::R4, "4"),
        (Rank::R5, "5"),
        (Rank::R6, "6"),
        (Rank::R7, "7"),
        (Rank::R8, "8"),
    ];
    for (rank, symbol) in ranks {
        let mut out = String::new();
        rank.fmt(&mut out);
        assert_eq!(out, symbol);
    }
}

#[test]
fn writing_appends_to_what_is_there() {
    let mut out = String::from("so far: ");
    Square { file: File::G, rank: Rank::R7 }.fmt(&mut out);
    assert_eq!(out, "so far: g7");
    Departure::Rank(Rank::R3).fmt(&mut out);
    Departure::File(File::A).fmt(&mut out);
    Departure::Square(Square { file: File::H, rank: Rank::R1 }).fmt(&mut out);
    assert_eq!(out, "so far: g73ah1");
}

#[test]
fn half_move_parts_come_in_order() {
    let all = move_figure_to(Figure::Pawn, File::D, Rank::R6)
        .with_departure_square(File::E, Rank::R5)
        .capture()
        .check()
        .en_passant()
        .draw_offer()
        .build();
    assert_eq!(rendered_half_move(all), "e5xd6+ e.p. (=)");
    let knight = move_figure_to(Figure::Knight, File::F, Rank::R3)
        .with_departure_rank(Rank::R5)
        .build();
    assert_eq!(rendered_half_move(knight), "N5f3");
    let rook = move_figure_to(Figure::Rook, File::E, Rank::R8)
        .with_departure_file(File::A)
        .check()
        .build();
    assert_eq!(rendered_half_move(rook), "Rae8+");
    let offer = move_figure_to(Figure::King, File::B, Rank::R1).draw_offer().build();
    assert_eq!(rendered_half_move(offer), "Kb1 (=)");
    assert_eq!(rendered_half_move(HalfMove::KingsideCastling), "0-0");
    assert_eq!(rendered_half_move(HalfMove::QueensideCastling), "0-0-0");
}

#[test]
fn full_move_is_white_blank_black() {
    let mut out = String::new();
    Move { white: HalfMove::QueensideCastling, black: pawn(File::A, Rank::R6) }.fmt(&mut out);
    assert_eq!(out, "0-0-0 a6");
}

#[test]
fn result_tokens() {
    let tokens = [
        (Result::Draw, "1/2-1/2"),
        (Result::Win(Color::White), "1-0"),
        (Result::Win(Color::Black), "0-1"),
        (Result::Checkmate(Color::White), "# 1-0"),
        (Result::Checkmate(Color::Black), "# 0-1"),
        (Result::Unknown, ""),
    ];
    for (result, token) in tokens {
        let mut out = String::new();
        result.fmt(&mut out);
        assert_eq!(out, token);
    }
}

#[test]
fn game_tokens_are_joined_by_single_blanks() {
    let game = Game {
        moves: vec![
            Move { white: pawn(File::E, Rank::R4), black: pawn(File::E, Rank::R5) },
            Move {
                white: move_figure_to(Figure::Knight, File::F, Rank::R3).build(),
                black: move_figure_to(Figure::Knight, File::C, Rank::R6).build(),
            },
        ],
        last_half_move: Some(move_figure_to(Figure::Bishop, File::B, Rank::R5).build()),
        result: Result::Win(Color::Black),
    };
    assert_eq!(render_game(game), "1. e4 e5 2. Nf3 Nc6 3. Bb5 0-1");
}

#[test]
fn unknown_result_writes_nothing() {
    let game = Game { moves: opening(), last_half_move: None, result: Result::Unknown };
    assert_eq!(render_game(game), "1. e4 e5");
}

#[test]
fn checkmate_marker_is_glued_to_the_last_half_move() {
    let white = Game {
        moves: opening(),
        last_half_move: Some(move_figure_to(Figure::Queen, File::H, Rank::R5).build()),
        result: Result::Checkmate(Color::White),
    };
    assert_eq!(render_game(white), "1. e4 e5 2. Qh5# 1-0");
    let black = Game {
        moves: opening(),
        last_half_move: None,
        result: Result::Checkmate(Color::Black),
    };
    assert_eq!(render_game(black), "1. e4 e5# 0-1");
}

#[test]
fn rendering_with_a_full_move_is_never_empty() {
    let results = [
        Result::Unknown,
        Result::Draw,
        Result::Win(Color::White),
        Result::Checkmate(Color::Black),
    ];
    for result in results {
        let game = Game { moves: opening(), last_half_move: None, result };
        assert!(!render_game(game).is_empty());
    }
}

#[test]
fn games_without_a_full_move() {
    let empty = Game { moves: vec![], last_half_move: None, result: Result::Unknown };
    assert_eq!(render_game(empty), "");
    let draw = Game { moves: vec![], last_half_move: None, result: Result::Draw };
    assert_eq!(render_game(draw), "1/2-1/2");
    let lone = Game {
        moves: vec![],
        last_half_move: Some(pawn(File::E, Rank::R4)),
        result: Result::Win(Color::White),
    };
    assert_eq!(render_game(lone), "1. e4 1-0");
    let mate = Game { moves: vec![], last_half_move: None, result: Result::Checkmate(Color::Black) };
    assert_eq!(render_game(mate), "# 0-1");
}

#[test]
fn move_numbers_count_past_nine_and_ninety_nine() {
    let one = Move { white: pawn(File::E, Rank::R4), black: pawn(File::E, Rank::R5) };
    let game = Game { moves: vec![one; 101], last_half_move: None, result: Result::Draw };
    let text = render_game(game);
    assert!(text.starts_with("1. e4 e5 2. e4 e5 "));
    assert!(text.contains(" 9. e4 e5 10. e4 e5 11. e4 e5 "));
    assert!(text.contains(" 99. e4 e5 100. e4 e5 101. e4 e5 1/2-1/2"));
    assert!(text.ends_with("101. e4 e5 1/2-1/2"));
}
