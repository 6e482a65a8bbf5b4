use chess_notation::{
    move_figure_to, parse_game, parse_half_move, render_game, Figure, File, HalfMove, Rank,
};

#[test]
fn test_parse_half_moves() {
    assert_eq!(
        parse_half_move("e4"),
        Ok(("", move_figure_to(Figure::Pawn, File::E, Rank::R4).build()))
    );
    assert_eq!(
        parse_half_move("dxe5"),
        Ok((
            "",
            move_figure_to(Figure::Pawn, File::E, Rank::R5)
                .with_departure_file(File::D)
                .capture()
                .build()
        ))
    );
    assert_eq!(
        parse_half_move("N5f3"),
        Ok((
            "",
            move_figure_to(Figure::Knight, File::F, Rank::R3)
                .with_departure_rank(Rank::R5)
                .build()
        ))
    );
    assert_eq!(
        parse_half_move("Bb2e5"),
        Ok((
            "",
            move_figure_to(Figure::Bishop, File::E, Rank::R5)
                .with_departure_square(File::B, Rank::R2)
                .build()
        ))
    );
    assert_eq!(
        parse_half_move("Bxb5+"),
        Ok((
            "",
            move_figure_to(Figure::Bishop, File::B, Rank::R5)
                .capture()
                .check()
                .build()
        ))
    );
    assert_eq!(parse_half_move("0-0"), Ok(("", HalfMove::KingsideCastling)));
}

// 3 game notations from the FIDE handbook
#[test]
fn test_parse_game1() {
    let game = "1. e4 0-0 2. Nf3 Nf6 3. d4 exd4 4. e5 Ne4 5. Qxd4 d5 \
                6. exd6 e.p. Nxd6 7. Bg5 Nc6 8. Qe3+ Be7 9. Nbd2 0-0 \
                10. 0-0-0 Re8 11. Kb1 (=) 1/2-1/2";
    let (_, parsed) = parse_game(game).unwrap();
    assert_eq!(render_game(parsed), game);
}

#[test]
fn test_parse_game2() {
    let game = "1. e4 e5 2. Nf3 Nf6 3. d4 ed4 4. e5 Ne4 5. Qd4 d5 \
                6. ed6 Nd6 7. Bg5 Nc6 8. Qe3 Be7 9. Nbd2 0-0 10. 0-0-0 Re8 \
                11. Kb1 (=) 1/2-1/2";
    let (_, parsed) = parse_game(game).unwrap();
    assert_eq!(render_game(parsed), game);
}

#[test]
fn test_parse_game3() {
    let game = "1. e2e4 e7e5 2. Ng1f3 Ng8f6 3. d2d4 e5xd4 4. e4e5 Nf6e4 \
                5. Qd1xd4 d7d5 6. e5xd6 e.p. Ne4xd6 7. Bc1g5 Nb8c6 \
                8. Qd4d3 Bf8e7 9. Nb1d2 0-0 10. 0-0-0 Rf8e8 11. Kb1 (=)";
    let (_, parsed) = parse_game(game).unwrap();
    assert_eq!(
        render_game(parsed),
        // game result is optional when parsing but not so in render
        [game, "1/2-1/2"].join(" ")
    );
}

#[test]
fn test_parse_fischer_spassky() {
    // 1992.11.04, Belgrade, 29th round
    let game = "1. e4 e5 2. Nf3 Nc6 3. Bb5 a6 4. Ba4 Nf6 5. 0-0 Be7 6. Re1 b5 7. Bb3 d6 \
                8. c3 0-0 9. h3 Nb8 10. d4 Nbd7 11. c4 c6 12. cxb5 axb5 13. Nc3 Bb7 \
                14. Bg5 b4 15. Nb1 h6 16. Bh4 c5 17. dxe5 Nxe4 18. Bxe7 Qxe7 19. exd6 Qf6 \
                20. Nbd2 Nxd6 21. Nc4 Nxc4 22. Bxc4 Nb6 23. Ne5 Rae8 24. Bxf7+ Rxf7 \
                25. Nxf7 Rxe1+ 26. Qxe1 Kxf7 27. Qe3 Qg5 28. Qxg5 hxg5 29. b3 Ke6 \
                30. a3 Kd6 31. axb4 cxb4 32. Ra5 Nd5 33. f3 Bc8 34. Kf2 Bf5 35. Ra7 g6 \
                36. Ra6+ Kc5 37. Ke1 Nf4 38. g3 Nxh3 39. Kd2 Kb5 40. Rd6 Kc5 41. Ra6 Nf2 \
                42. g4 Bd3 43. Re6 1/2-1/2";
    let (_, parsed) = parse_game(game).unwrap();
    assert_eq!(render_game(parsed), game);
}

#[test]
fn test_parse_morphy_game_1858() {
    // This sample chess game was played between Paul Morphy and his two opponents,
    // the Duke of Brunswick and Count Isouard, in 1858 during a performance of
    // The Barber of Seville at the Paris Opera.
    let game =
        "1. e4 e5 2. Nf3 d6 3. d4 Bg4 4. d4xe5 Bxf3 5. Qxf3 d6xe5 6. Bc4 Nf6 \
         7. Qb3 Qe7 8. Nc3 c6 9. Bg5 b5 10. Nxb5 c6xb5 11. Bxb5+ Nd7 \
         12. 0-0-0 Rd8 13. Rxd7 Rxd7 14. Rd1 Qe6 15. Bxd7+ Nxd7 16. Qb8+ Nxb8 17. Rd8#";
    let (_, parsed) = parse_game(game).unwrap();
    assert_eq!(
        render_game(parsed),
        // game result is optional when parsing but not so in render
        [game, "1-0"].join(" ")
    );
}
