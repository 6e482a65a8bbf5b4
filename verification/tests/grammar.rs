use chess_notation::{
    move_figure_to, parse_game, parse_half_move, Color, Expected, Figure, File, Game, HalfMove,
    Move, Rank, Result, SyntaxError,
};

fn pawn(file: File, rank: Rank) -> HalfMove {
    move_figure_to(Figure::Pawn, file, rank).build()
}

fn opening() -> Vec<Move> {
    vec![Move { white: pawn(File::E, Rank::R4), black: pawn(File::E, Rank::R5) }]
}

fn error(position: usize, expected: Expected) -> SyntaxError {
    SyntaxError { position, expected }
}

#[test]
fn longest_departure_is_preferred() {
    assert_eq!(
        parse_half_move("Bb2e5"),
        Ok((
            "",
            move_figure_to(Figure::Bishop, File::E, Rank::R5)
                .with_departure_square(File::B, Rank::R2)
                .build()
        ))
    );
    assert_eq!(
        parse_half_move("N5f3"),
        Ok((
            "",
            move_figure_to(Figure::Knight, File::F, Rank::R3)
                .with_departure_rank(Rank::R5)
                .build()
        ))
    );
    assert_eq!(
        parse_half_move("dxe5"),
        Ok((
            "",
            move_figure_to(Figure::Pawn, File::E, Rank::R5)
                .with_departure_file(File::D)
                .capture()
                .build()
        ))
    );
    assert_eq!(
        parse_half_move("Nf3"),
        Ok(("", move_figure_to(Figure::Knight, File::F, Rank::R3).build()))
    );
    assert_eq!(
        parse_half_move("e2e4"),
        Ok((
            "",
            move_figure_to(Figure::Pawn, File::E, Rank::R4)
                .with_departure_square(File::E, Rank::R2)
                .build()
        ))
    );
}

#[test]
fn queenside_castling_comes_before_kingside() {
    assert_eq!(parse_half_move("0-0-0"), Ok(("", HalfMove::QueensideCastling)));
    assert_eq!(parse_half_move("0-0"), Ok(("", HalfMove::KingsideCastling)));
    assert_eq!(parse_half_move("0-0-"), Ok(("-", HalfMove::KingsideCastling)));
    assert_eq!(parse_half_move("0-0 0-0-0"), Ok((" 0-0-0", HalfMove::KingsideCastling)));
}

#[test]
fn every_figure_letter_is_read() {
    let figures = [
        ("Ka1", Figure::King),
        ("Qa1", Figure::Queen),
        ("Ra1", Figure::Rook),
        ("Ba1", Figure::Bishop),
        ("Na1", Figure::Knight),
        ("a1", Figure::Pawn),
    ];
    for (text, figure) in figures {
        assert_eq!(
            parse_half_move(text),
            Ok(("", move_figure_to(figure, File::A, Rank::R1).build()))
        );
    }
}

#[test]
fn every_square_is_read() {
    let files = [
        ('a', File::A),
        ('b', File::B),
        ('c', File::C),
        ('d', File::D),
        ('e', File::E),
        ('f', File::F),
        ('g', File::G),
        ('h', File::H),
    ];
    let ranks = [
        ('1', Rank::R1),
        ('2', Rank::R2),
        ('3', Rank::R3),
        ('4', Rank::R4),
        ('5', Rank::R5),
        ('6', Rank::R6),
        ('7', Rank::R7),
        ('8', Rank::R8),
    ];
    for (letter, file) in files {
        for (digit, rank) in ranks {
            let text = format!("Q{}{}", letter, digit);
            assert_eq!(
                parse_half_move(&text),
                Ok(("", move_figure_to(Figure::Queen, file, rank).build()))
            );
        }
    }
    assert_eq!(parse_half_move("Qi1"), Err(error(0, Expected::HalfMove)));
    assert_eq!(parse_half_move("Qa9"), Err(error(0, Expected::HalfMove)));
    assert_eq!(parse_half_move("Qa0"), Err(error(0, Expected::HalfMove)));
}

#[test]
fn markers_after_the_arrival_square() {
    assert_eq!(
        parse_half_move("exd6+ e.p. (=)"),
        Ok((
            "",
            move_figure_to(Figure::Pawn, File::D, Rank::R6)
                .with_departure_file(File::E)
                .capture()
                .check()
                .en_passant()
                .draw_offer()
                .build()
        ))
    );
    assert_eq!(
        parse_half_move("Kb1 \t (=)"),
        Ok(("", move_figure_to(Figure::King, File::B, Rank::R1).draw_offer().build()))
    );
    assert_eq!(
        parse_half_move("exd6\te.p."),
        Ok((
            "",
            move_figure_to(Figure::Pawn, File::D, Rank::R6)
                .with_departure_file(File::E)
                .capture()
                .en_passant()
                .build()
        ))
    );
}

#[test]
fn blanks_before_a_missing_marker_are_left() {
    assert_eq!(
        parse_half_move("e4 e5"),
        Ok((" e5", move_figure_to(Figure::Pawn, File::E, Rank::R4).build()))
    );
    assert_eq!(
        parse_half_move("e4  (="),
        Ok(("  (=", move_figure_to(Figure::Pawn, File::E, Rank::R4).build()))
    );
    assert_eq!(
        parse_half_move("e4(=)"),
        Ok(("(=)", move_figure_to(Figure::Pawn, File::E, Rank::R4).build()))
    );
    assert_eq!(
        parse_half_move("e4 (=) e.p."),
        Ok((" e.p.", move_figure_to(Figure::Pawn, File::E, Rank::R4).draw_offer().build()))
    );
}

#[test]
fn what_is_no_half_move() {
    for text in ["", " e4", "x", "Kx", "K", "e", "4", "0-1", "1-0", "O-O", "#"] {
        assert_eq!(parse_half_move(text), Err(error(0, Expected::HalfMove)));
    }
}

#[test]
fn game_with_a_score() {
    for (score, result) in [
        ("1-0", Result::Win(Color::White)),
        ("0-1", Result::Win(Color::Black)),
        ("1/2-1/2", Result::Draw),
    ] {
        let text = format!("1. e4 e5 {}", score);
        assert_eq!(
            parse_game(&text),
            Ok(("", Game { moves: opening(), last_half_move: None, result }))
        );
        let text = format!("1. e4 e5 2. Nf3 {}", score);
        assert_eq!(
            parse_game(&text),
            Ok((
                "",
                Game {
                    moves: opening(),
                    last_half_move: Some(move_figure_to(Figure::Knight, File::F, Rank::R3).build()),
                    result,
                }
            ))
        );
    }
}

#[test]
fn game_without_a_result() {
    assert_eq!(
        parse_game("1. e4 e5"),
        Ok(("", Game { moves: opening(), last_half_move: None, result: Result::Unknown }))
    );
    assert_eq!(
        parse_game(""),
        Ok(("", Game { moves: vec![], last_half_move: None, result: Result::Unknown }))
    );
}

#[test]
fn draw_offer_stands_for_a_draw() {
    let offer = move_figure_to(Figure::King, File::B, Rank::R1).draw_offer().build();
    let after_white = Game { moves: opening(), last_half_move: Some(offer), result: Result::Draw };
    assert_eq!(parse_game("1. e4 e5 2. Kb1 (=)"), Ok(("", after_white.clone())));
    assert_eq!(parse_game("1. e4 e5 2. Kb1 (=) 1/2-1/2"), Ok(("", after_white)));
    let black = Move { white: pawn(File::E, Rank::R4), black: offer };
    let after_black = Game { moves: vec![black], last_half_move: None, result: Result::Draw };
    assert_eq!(parse_game("1. e4 Kb1 (=)"), Ok(("", after_black.clone())));
    assert_eq!(parse_game("1. e4 Kb1 (=) 1/2-1/2"), Ok(("", after_black)));
    assert_eq!(
        parse_game("1. e4 Kb1 (=) 0-1"),
        Ok(("", Game { moves: vec![black], last_half_move: None, result: Result::Win(Color::Black) }))
    );
    assert_eq!(
        parse_game("1. e4 Kb1 (=) and more"),
        Ok((" and more", Game { moves: vec![black], last_half_move: None, result: Result::Draw }))
    );
}

#[test]
fn draw_offer_in_the_middle_goes_on() {
    let offer = move_figure_to(Figure::Pawn, File::E, Rank::R5).draw_offer().build();
    let game = Game {
        moves: vec![
            Move { white: pawn(File::E, Rank::R4), black: offer },
            Move { white: pawn(File::D, Rank::R4), black: pawn(File::D, Rank::R5) },
        ],
        last_half_move: None,
        result: Result::Win(Color::White),
    };
    assert_eq!(parse_game("1. e4 e5 (=) 2. d4 d5 1-0"), Ok(("", game)));
}

#[test]
fn checkmate_by_either_side() {
    let queen = move_figure_to(Figure::Queen, File::H, Rank::R5).build();
    let white = Game {
        moves: opening(),
        last_half_move: Some(queen),
        result: Result::Checkmate(Color::White),
    };
    assert_eq!(parse_game("1. e4 e5 2. Qh5#"), Ok(("", white.clone())));
    assert_eq!(parse_game("1. e4 e5 2. Qh5# 1-0"), Ok(("", white.clone())));
    assert_eq!(parse_game("1. e4 e5 2. Qh5#  \t1-0"), Ok(("", white.clone())));
    assert_eq!(parse_game("1. e4 e5 2. Qh5# 0-1"), Ok((" 0-1", white.clone())));
    assert_eq!(parse_game("1. e4 e5 2. Qh5#1-0"), Ok(("1-0", white)));
    let black = Game {
        moves: opening(),
        last_half_move: None,
        result: Result::Checkmate(Color::Black),
    };
    assert_eq!(parse_game("1. e4 e5#"), Ok(("", black.clone())));
    assert_eq!(parse_game("1. e4 e5# 0-1"), Ok(("", black.clone())));
    assert_eq!(parse_game("1. e4 e5# 1-0"), Ok((" 1-0", black)));
    assert_eq!(
        parse_game("# 0-1"),
        Ok(("", Game { moves: vec![], last_half_move: None, result: Result::Checkmate(Color::Black) }))
    );
}

#[test]
fn move_numbers_are_not_read() {
    let game = Game {
        moves: vec![
            Move { white: pawn(File::E, Rank::R4), black: pawn(File::E, Rank::R5) },
            Move { white: pawn(File::D, Rank::R4), black: pawn(File::D, Rank::R5) },
        ],
        last_half_move: None,
        result: Result::Draw,
    };
    assert_eq!(parse_game("7. e4 e5 3. d4 d5 1/2-1/2"), Ok(("", game.clone())));
    assert_eq!(parse_game("007. e4 e5 0. d4 d5 1/2-1/2"), Ok(("", game.clone())));
    assert_eq!(
        parse_game("255. e4 e5 256. d4 d5 1/2-1/2"),
        Ok(("", game.clone()))
    );
    assert_eq!(
        parse_game("1. e4 e5 340282366920938463463374607431768211456. d4 d5 1/2-1/2"),
        Ok(("", game))
    );
}

#[test]
fn blanks_are_runs_of_spaces_and_tabs() {
    let game = Game {
        moves: opening(),
        last_half_move: Some(pawn(File::D, Rank::R4)),
        result: Result::Win(Color::White),
    };
    assert_eq!(parse_game("1.  e4\te5 \t 2.\td4   1-0"), Ok(("", game)));
    assert_eq!(parse_game("1. e4\ne5 1-0"), Err(error(0, Expected::Whitespace)));
}

#[test]
fn what_is_left_is_handed_back() {
    let game = Game { moves: opening(), last_half_move: None, result: Result::Win(Color::White) };
    assert_eq!(parse_game("1. e4 e5 1-0 and so on"), Ok((" and so on", game.clone())));
    assert_eq!(parse_game("1. e4 e5 1-0\n"), Ok(("\n", game.clone())));
    assert_eq!(parse_game("1. e4 e5 1-0 \u{2654}\u{e9}"), Ok((" \u{2654}\u{e9}", game)));
}

#[test]
fn a_game_without_a_full_move_wants_a_blank_first() {
    let lone = Game {
        moves: vec![],
        last_half_move: Some(pawn(File::E, Rank::R4)),
        result: Result::Win(Color::White),
    };
    assert_eq!(parse_game(" 1. e4 1-0"), Ok(("", lone)));
    assert_eq!(parse_game("1. e4 1-0"), Err(error(0, Expected::Whitespace)));
    assert_eq!(
        parse_game(" 1/2-1/2"),
        Ok(("", Game { moves: vec![], last_half_move: None, result: Result::Draw }))
    );
    assert_eq!(parse_game("1/2-1/2"), Err(error(0, Expected::Whitespace)));
}

#[test]
fn errors_say_where_and_what() {
    assert_eq!(parse_game("x"), Err(error(0, Expected::Whitespace)));
    assert_eq!(parse_game("\u{e9}"), Err(error(0, Expected::Whitespace)));
    assert_eq!(parse_game("1. e4 e5 "), Err(error(9, Expected::Digit)));
    assert_eq!(parse_game("1. e4 e5 x"), Err(error(9, Expected::Digit)));
    assert_eq!(parse_game("1. e4 e5 2 d4 1-0"), Err(error(10, Expected::Dot)));
    assert_eq!(parse_game("1. e4 e5 22"), Err(error(11, Expected::Dot)));
    assert_eq!(parse_game("1. e4 e5 2.d4 1-0"), Err(error(11, Expected::Whitespace)));
    assert_eq!(parse_game("1. e4 e5 2. ?"), Err(error(12, Expected::HalfMove)));
    assert_eq!(parse_game("1. e4 e5 2. "), Err(error(12, Expected::HalfMove)));
    assert_eq!(parse_game("1. e4 e5 2."), Err(error(11, Expected::Whitespace)));
    assert_eq!(parse_game("1. e4 e5 2. Nf3"), Err(error(15, Expected::Whitespace)));
    assert_eq!(parse_game("1. e4 e5 2. Nf3 "), Err(error(16, Expected::Score)));
    assert_eq!(parse_game("1. e4 e5 2. Nf3 Zc6 1-0"), Err(error(16, Expected::Score)));
    assert_eq!(parse_game("1. e4 e5 2. Nf3 1-1"), Err(error(16, Expected::Score)));
    assert_eq!(parse_game("1. e4"), Err(error(0, Expected::Whitespace)));
}
