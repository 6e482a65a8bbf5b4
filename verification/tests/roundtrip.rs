use chess_notation::{
    move_figure_to, parse_game, render_game, Color, Figure, File, Game, HalfMove, Move, Rank,
    Result,
};

fn half_moves() -> Vec<HalfMove> {
    vec![
        move_figure_to(Figure::Pawn, File::E, Rank::R4).build(),
        move_figure_to(Figure::Pawn, File::E, Rank::R5).with_departure_file(File::D).build(),
        move_figure_to(Figure::Pawn, File::D, Rank::R6)
            .with_departure_file(File::E)
            .capture()
            .en_passant()
            .build(),
        move_figure_to(Figure::Knight, File::F, Rank::R3).with_departure_rank(Rank::R5).build(),
        move_figure_to(Figure::Bishop, File::E, Rank::R5)
            .with_departure_square(File::B, Rank::R2)
            .capture()
            .check()
            .build(),
        move_figure_to(Figure::King, File::B, Rank::R1).draw_offer().build(),
        move_figure_to(Figure::Rook, File::A, Rank::R8).check().en_passant().draw_offer().build(),
        move_figure_to(Figure::Queen, File::H, Rank::R1).capture().build(),
        move_figure_to(Figure::Pawn, File::E, Rank::R8).with_departure_rank(Rank::R7).build(),
        HalfMove::KingsideCastling,
        HalfMove::QueensideCastling,
    ]
}

fn reads_back(game: Game) {
    let text = render_game(game.clone());
    assert_eq!(parse_game(&text), Ok(("", game)), "transcript: {:?}", text);
}

#[test]
fn every_pair_of_half_moves_is_read_back() {
    let results = [
        Result::Draw,
        Result::Win(Color::White),
        Result::Win(Color::Black),
        Result::Checkmate(Color::Black),
    ];
    for white in half_moves() {
        for black in half_moves() {
            for result in results {
                let moves = vec![
                    Move { white: black, black: white },
                    Move { white, black },
                ];
                reads_back(Game { moves, last_half_move: None, result });
            }
        }
    }
}

#[test]
fn unknown_result_is_read_back_without_a_draw_offer() {
    for white in half_moves() {
        for black in half_moves() {
            if black.has_draw_offer() {
                continue;
            }
            let moves = vec![Move { white, black }];
            reads_back(Game { moves, last_half_move: None, result: Result::Unknown });
        }
    }
}

#[test]
fn last_half_move_of_white_is_read_back() {
    let results = [
        Result::Draw,
        Result::Win(Color::White),
        Result::Win(Color::Black),
        Result::Checkmate(Color::White),
    ];
    for white in half_moves() {
        for black in half_moves() {
            if black.has_draw_offer() {
                continue;
            }
            for last in half_moves() {
                for result in results {
                    let moves = vec![Move { white, black }];
                    reads_back(Game { moves, last_half_move: Some(last), result });
                }
            }
        }
    }
}

#[test]
fn games_without_a_full_move_that_are_read_back() {
    reads_back(Game { moves: vec![], last_half_move: None, result: Result::Unknown });
    reads_back(Game { moves: vec![], last_half_move: None, result: Result::Checkmate(Color::Black) });
}

#[test]
fn long_games_are_read_back() {
    let all = half_moves();
    let mut moves = Vec::new();
    for round in 0..120 {
        let white = all[round % all.len()];
        let black = all[(round * 7 + 3) % all.len()];
        moves.push(Move { white, black });
    }
    moves.push(Move { white: all[0], black: all[1] });
    reads_back(Game { moves: moves.clone(), last_half_move: None, result: Result::Unknown });
    reads_back(Game { moves, last_half_move: Some(all[5]), result: Result::Draw });
}

#[test]
fn parsed_games_render_to_a_transcript_that_is_read_back() {
    let texts = [
        "1.  e4\te5   2. Nf3 Nc6 3. Bb5 (=)",
        "12. e4 e5 (=) 13. d4 d5 (=)",
        "1. e4 e5 2. Qh5#",
        "1. e4 e5# 0-1 and more",
        "3. 0-0 0-0-0 9. exd6 e.p. Kb1 1-0 trailing",
    ];
    for text in texts {
        let (_, game) = parse_game(text).unwrap();
        let canonical = render_game(game.clone());
        assert_eq!(parse_game(&canonical), Ok(("", game.clone())));
        assert_eq!(render_game(game), canonical);
    }
}

#[test]
fn draw_offer_with_and_without_result_render_alike() {
    let short = "1. e4 e5 2. Nf3 Nc6 3. Kb1 (=)";
    let long = "1. e4 e5 2. Nf3 Nc6 3. Kb1 (=) 1/2-1/2";
    let (rest_short, game_short) = parse_game(short).unwrap();
    let (rest_long, game_long) = parse_game(long).unwrap();
    assert_eq!(rest_short, "");
    assert_eq!(rest_long, "");
    assert_eq!(game_short.result, Result::Draw);
    assert_eq!(game_long.result, Result::Draw);
    assert_eq!(game_short, game_long);
    assert_eq!(render_game(game_short), long);
    assert_eq!(render_game(game_long), long);
}

#[test]
fn fischer_spassky_ends_in_a_draw_after_white() {
    let text = "1. e4 e5 2. Nf3 Nc6 3. Bb5 a6 4. Ba4 Nf6 5. 0-0 Be7 6. Re1 b5 7. Bb3 d6 \
                8. c3 0-0 9. h3 Nb8 10. d4 Nbd7 11. c4 c6 12. cxb5 axb5 13. Nc3 Bb7 \
                14. Bg5 b4 15. Nb1 h6 16. Bh4 c5 17. dxe5 Nxe4 18. Bxe7 Qxe7 19. exd6 Qf6 \
                20. Nbd2 Nxd6 21. Nc4 Nxc4 22. Bxc4 Nb6 23. Ne5 Rae8 24. Bxf7+ Rxf7 \
                25. Nxf7 Rxe1+ 26. Qxe1 Kxf7 27. Qe3 Qg5 28. Qxg5 hxg5 29. b3 Ke6 \
                30. a3 Kd6 31. axb4 cxb4 32. Ra5 Nd5 33. f3 Bc8 34. Kf2 Bf5 35. Ra7 g6 \
                36. Ra6+ Kc5 37. Ke1 Nf4 38. g3 Nxh3 39. Kd2 Kb5 40. Rd6 Kc5 41. Ra6 Nf2 \
                42. g4 Bd3 43. Re6 1/2-1/2";
    let (rest, game) = parse_game(text).unwrap();
    assert_eq!(rest, "");
    assert_eq!(game.result, Result::Draw);
    assert_eq!(game.moves.len(), 42);
    assert_eq!(
        game.last_half_move,
        Some(move_figure_to(Figure::Rook, File::E, Rank::R6).build())
    );
    assert_eq!(render_game(game), text);
}

#[test]
fn morphy_ends_in_a_checkmate_by_white() {
    let text = "1. e4 e5 2. Nf3 d6 3. d4 Bg4 4. d4xe5 Bxf3 5. Qxf3 d6xe5 6. Bc4 Nf6 \
                7. Qb3 Qe7 8. Nc3 c6 9. Bg5 b5 10. Nxb5 c6xb5 11. Bxb5+ Nd7 \
                12. 0-0-0 Rd8 13. Rxd7 Rxd7 14. Rd1 Qe6 15. Bxd7+ Nxd7 16. Qb8+ Nxb8 17. Rd8#";
    let (rest, game) = parse_game(text).unwrap();
    assert_eq!(rest, "");
    assert_eq!(game.result, Result::Checkmate(Color::White));
    assert_eq!(game.moves.len(), 16);
    assert_eq!(
        game.last_half_move,
        Some(move_figure_to(Figure::Rook, File::D, Rank::R8).build())
    );
    assert_eq!(render_game(game), format!("{} 1-0", text));
}

#[test]
fn handbook_game_keeps_the_draw_offer_of_white() {
    let text = "1. e4 0-0 2. Nf3 Nf6 3. d4 exd4 4. e5 Ne4 5. Qxd4 d5 \
                6. exd6 e.p. Nxd6 7. Bg5 Nc6 8. Qe3+ Be7 9. Nbd2 0-0 \
                10. 0-0-0 Re8 11. Kb1 (=) 1/2-1/2";
    let (rest, game) = parse_game(text).unwrap();
    assert_eq!(rest, "");
    assert_eq!(game.result, Result::Draw);
    assert_eq!(
        game.last_half_move,
        Some(move_figure_to(Figure::King, File::B, Rank::R1).draw_offer().build())
    );
    assert_eq!(render_game(game), text);
}
