use chess_trainer::chess::Color;
use chess_trainer::drill::Drill;
use chess_trainer::engine::Score;
use chess_trainer::game::{Game, Grade, Phase, Quality};
use chess_trainer::openings::{Book, Opening};
use chess_trainer::review::{MoveReview, Stage};
use chess_trainer::ui::{
    drill_status, eval_text, feedback_line, move_list, opening_line, plural, status_line,
    summary_body, Tone,
};

const BOOK: &str = "eco\tname\tpgn
A10\tEnglish Opening\t1. c4
A10\tEnglish Opening: Anglo-Dutch Defense\t1. c4 f5
A15\tEnglish Opening: Anglo-Indian Defense\t1. c4 Nf6
A16\tEnglish Opening: Anglo-Indian Defense, Queen's Knight Variation\t1. c4 Nf6 2. Nc3
A17\tEnglish Opening: Anglo-Indian Defense, Hedgehog System\t1. c4 Nf6 2. Nc3 e6
A20\tEnglish Opening: King's English Variation\t1. c4 e5
A22\tEnglish Opening: King's English Variation, Two Knights Variation\t1. c4 e5 2. Nc3 Nf6
A28\tEnglish Opening: King's English Variation, Four Knights Variation\t1. c4 e5 2. Nc3 Nf6 3. Nf3 Nc6
A30\tEnglish Opening: Symmetrical Variation\t1. c4 c5
A45\tIndian Defense\t1. d4 Nf6
A50\tIndian Defense: Normal Variation\t1. d4 Nf6 2. c4
E00\tIndian Defense: East Indian Defense\t1. d4 Nf6 2. c4 e6
E20\tNimzo-Indian Defense\t1. d4 Nf6 2. c4 e6 3. Nc3 Bb4
A80\tDutch Defense\t1. d4 f5
A81\tDutch Defense: Leningrad Variation\t1. d4 f5 2. g3 Nf6 3. Bg2 g6
A84\tDutch Defense: Classical Variation\t1. d4 e6 2. c4 f5
D00\tQueen's Pawn Game\t1. d4 d5
B00\tKing's Pawn Game\t1. e4
B20\tSicilian Defense\t1. e4 c5
B50\tSicilian Defense: Modern Variations\t1. e4 c5 2. Nf3 d6
B90\tSicilian Defense: Najdorf Variation\t1. e4 c5 2. Nf3 d6 3. d4 cxd4 4. Nxd4 Nf6 5. Nc3 a6
B90\tSicilian Defense: Najdorf Variation, Adams Attack\t1. e4 c5 2. Nf3 d6 3. d4 cxd4 4. Nxd4 Nf6 5. Nc3 a6 6. h3
B90\tSicilian Defense: Najdorf Variation, English Attack\t1. e4 c5 2. Nf3 d6 3. d4 cxd4 4. Nxd4 Nf6 5. Nc3 a6 6. Be3 e5 7. Nb3 Be6 8. f3
B91\tSicilian Defense: Najdorf Variation, Zagreb Variation\t1. e4 c5 2. Nf3 d6 3. d4 cxd4 4. Nxd4 Nf6 5. Nc3 a6 6. g3
B92\tSicilian Defense: Najdorf Variation, Opocensky Variation\t1. e4 c5 2. Nf3 d6 3. d4 cxd4 4. Nxd4 Nf6 5. Nc3 a6 6. Be2
B94\tSicilian Defense: Najdorf Variation\t1. e4 c5 2. Nf3 d6 3. d4 cxd4 4. Nxd4 Nf6 5. Nc3 a6 6. Bg5
B96\tSicilian Defense: Najdorf Variation, Polugaevsky Variation\t1. e4 c5 2. Nf3 d6 3. d4 cxd4 4. Nxd4 Nf6 5. Nc3 a6 6. Bg5 e6 7. f4 b5
C20\tKing's Pawn Game\t1. e4 e5
C20\tBongcloud Attack\t1. e4 e5 2. Ke2
C44\tKing's Knight Opening: Normal Variation\t1. e4 e5 2. Nf3 Nc6
C60\tRuy Lopez\t1. e4 e5 2. Nf3 Nc6 3. Bb5
C60\tRuy Lopez: Bulgarian Variation\t1. e4 e5 2. Nf3 Nc6 3. Bb5 a5
C65\tRuy Lopez: Berlin Defense\t1. e4 e5 2. Nf3 Nc6 3. Bb5 Nf6
C68\tRuy Lopez: Morphy Defense\t1. e4 e5 2. Nf3 Nc6 3. Bb5 a6
C68\tRuy Lopez: Exchange Variation\t1. e4 e5 2. Nf3 Nc6 3. Bb5 a6 4. Bxc6
C70\tRuy Lopez: Morphy Defense, Caro Line\t1. e4 e5 2. Nf3 Nc6 3. Bb5 a6 4. Ba4 b5
C77\tRuy Lopez: Morphy Defense\t1. e4 e5 2. Nf3 Nc6 3. Bb5 a6 4. Ba4 Nf6
C78\tRuy Lopez: Morphy Defense, Normal Variation\t1. e4 e5 2. Nf3 Nc6 3. Bb5 a6 4. Ba4 Nf6 5. O-O
C80\tRuy Lopez: Open\t1. e4 e5 2. Nf3 Nc6 3. Bb5 a6 4. Ba4 Nf6 5. O-O Nxe4
C84\tRuy Lopez: Closed\t1. e4 e5 2. Nf3 Nc6 3. Bb5 a6 4. Ba4 Nf6 5. O-O Be7
C88\tRuy Lopez: Closed, Anti-Marshall\t1. e4 e5 2. Nf3 Nc6 3. Bb5 a6 4. Ba4 Nf6 5. O-O Be7 6. Re1 b5 7. Bb3
C89\tRuy Lopez: Marshall Attack\t1. e4 e5 2. Nf3 Nc6 3. Bb5 a6 4. Ba4 Nf6 5. O-O Be7 6. Re1 b5 7. Bb3 O-O 8. c3 d5
C92\tRuy Lopez: Closed, Main Line\t1. e4 e5 2. Nf3 Nc6 3. Bb5 a6 4. Ba4 Nf6 5. O-O Be7 6. Re1 b5 7. Bb3 d6 8. c3 O-O 9. h3
";

fn review(ply: u32, stage: Stage, quality: Quality, loss_cp: i32, accuracy: Option<f32>) -> MoveReview {
    MoveReview {
        ply,
        stage,
        quality,
        loss_cp,
        accuracy: accuracy.map(|a| (a * 100.0).round() as u32),
        san: format!("{}. Nf3", ply.div_ceil(2)),
    }
}

fn game_with(reviews: Vec<MoveReview>) -> Game {
    let mut game = Game::new(Color::White, 5);
    game.reviews = reviews;
    game
}

fn ruy_lopez_drill() -> Drill {
    let book = Book::load(BOOK);
    Drill::new(book.repertoire("Ruy Lopez").unwrap())
}

#[test]
fn an_ungraded_game_says_so_instead_of_showing_an_empty_panel() {
    let body = summary_body(&game_with(Vec::new()));
    assert!(body.contains("No graded moves yet"), "{body}");
}

#[test]
fn the_breakdown_names_the_weakest_stage() {
    let body = summary_body(&game_with(vec![
        review(1, Stage::Opening, Quality::Best, 0, Some(100.0)),
        review(3, Stage::Opening, Quality::Good, 20, Some(96.0)),
        review(5, Stage::Middlegame, Quality::Blunder, 310, Some(30.0)),
        review(7, Stage::Middlegame, Quality::Good, 20, Some(96.0)),
    ]));

    assert!(body.contains("Opening   98%   2 moves"), "{body}");
    assert!(body.contains("Middlegame   63%   2 moves"), "{body}");
    assert!(body.contains("1 blunder"), "{body}");
    assert!(body.contains("worst  3. Nf3  -3.10"), "{body}");
    assert!(body.contains("Weakest   Middlegame"), "{body}");
}

#[test]
fn a_single_stage_has_nothing_to_be_weakest_against() {
    let body = summary_body(&game_with(vec![review(
        1,
        Stage::Opening,
        Quality::Best,
        0,
        Some(100.0),
    )]));

    assert!(body.contains("Overall   100%"), "{body}");
    assert!(!body.contains("Weakest"), "{body}");
}

#[test]
fn a_stage_of_pure_theory_is_not_given_a_percentage() {
    let body = summary_body(&game_with(vec![
        review(1, Stage::Opening, Quality::Book, 30, None),
        review(3, Stage::Opening, Quality::Book, 10, None),
        review(5, Stage::Middlegame, Quality::Good, 20, Some(96.0)),
    ]));

    assert!(body.contains("Opening   all theory"), "{body}");
    // Memorised moves must not be scored as if you had found them.
    assert!(!body.contains("Opening   100%"), "{body}");
    assert!(body.contains("Overall   96%"), "{body}");
}

#[test]
fn theory_moves_are_counted_alongside_the_scored_ones() {
    let body = summary_body(&game_with(vec![
        review(1, Stage::Opening, Quality::Book, 0, None),
        review(3, Stage::Opening, Quality::Book, 0, None),
        review(5, Stage::Opening, Quality::Mistake, 150, Some(60.0)),
    ]));

    assert!(body.contains("Opening   60%   1 move  (+2 book)"), "{body}");
}

#[test]
fn an_opening_in_theory_shows_only_its_name() {
    let mut game = game_with(Vec::new());
    game.opening = Some(Opening {
        eco: "B90".to_string(),
        name: "Sicilian Defense: Najdorf Variation".to_string(),
    });

    assert_eq!(
        opening_line(&game, 0),
        "Sicilian Defense: Najdorf Variation (B90)"
    );
}

#[test]
fn leaving_theory_says_where_and_what_would_have_stayed() {
    let mut game = game_with(Vec::new());
    game.opening = Some(Opening {
        eco: "C60".to_string(),
        name: "Ruy Lopez".to_string(),
    });
    game.left_book_at = Some(7);
    game.book_alternatives = vec!["Nf3".to_string(), "d4".to_string()];

    let line = opening_line(&game, 0);
    assert!(line.contains("Ruy Lopez (C60)"), "{line}");
    assert!(line.contains("left theory at move 7"), "{line}");
    assert!(line.contains("book: Nf3, d4"), "{line}");
}

#[test]
fn an_unnamed_position_still_in_book_says_nothing() {
    assert_eq!(opening_line(&game_with(Vec::new()), 0), "");
}

#[test]
fn a_named_line_is_qualified_by_how_mainstream_it_is() {
    let mut game = game_with(Vec::new());
    game.opening = Some(Opening {
        eco: "C60".to_string(),
        name: "Ruy Lopez".to_string(),
    });

    // The same name means something different on 84 lines than on 1.
    assert!(opening_line(&game, 84).contains("on 84 book lines"));
    assert!(opening_line(&game, 1).contains("on 1 book line"));
    // Out of book there is no traffic to report.
    assert!(!opening_line(&game, 0).contains("book line"));
}

#[test]
fn an_unnamed_book_position_still_reports_its_traffic() {
    let line = opening_line(&game_with(Vec::new()), 12);
    assert_eq!(line, "on 12 book lines");
}

#[test]
fn a_drill_in_progress_shows_the_score_and_the_task() {
    let drill = ruy_lopez_drill();
    let game = Game::new(Color::White, 5);

    let status = drill_status(&drill, &game);
    assert!(status.contains("Drill: Ruy Lopez"), "{status}");
    assert!(status.contains("0/0 first try"), "{status}");
    assert!(status.contains("Find the book move"), "{status}");
}

#[test]
fn a_finished_drill_lists_what_was_missed() {
    let mut drill = ruy_lopez_drill();
    drill.complete = true;
    drill.missed = vec!["Nf3".to_string(), "Bb5".to_string()];

    let status = drill_status(&drill, &Game::new(Color::White, 5));
    assert!(status.contains("Missed: Nf3, Bb5"), "{status}");
    assert!(!status.contains("Find the book move"), "{status}");
}

#[test]
fn a_clean_finish_invites_another_run_instead_of_a_miss_list() {
    let mut drill = ruy_lopez_drill();
    drill.complete = true;

    let status = drill_status(&drill, &Game::new(Color::White, 5));
    assert!(status.contains("press N to go again"), "{status}");
}

#[test]
fn a_single_move_is_not_reported_as_moves() {
    let body = summary_body(&game_with(vec![review(
        1,
        Stage::Opening,
        Quality::Best,
        0,
        Some(100.0),
    )]));

    assert!(body.contains("1 move\n") || body.ends_with("1 move"), "{body}");
    assert!(!body.contains("1 moves"), "{body}");
}

#[test]
fn the_whole_breakdown_reads_line_by_line() {
    let body = summary_body(&game_with(vec![
        review(1, Stage::Opening, Quality::Book, 0, None),
        review(3, Stage::Opening, Quality::Best, 0, Some(100.0)),
        review(21, Stage::Middlegame, Quality::Mistake, 150, Some(60.0)),
        review(23, Stage::Middlegame, Quality::Inaccuracy, 30, Some(90.0)),
    ]));
    assert_eq!(
        body,
        "Opening   100%   1 move  (+1 book)\n\
         Middlegame   75%   2 moves\n   1 inaccuracy, 1 mistake\n   worst  11. Nf3  -1.50\n\
         \nOverall   83%\n\
         Weakest   Middlegame"
    );
}

#[test]
fn half_percentages_round_to_even() {
    let body = summary_body(&game_with(vec![review(1, Stage::Endgame, Quality::Best, 0, Some(62.5))]));
    assert!(body.contains("Endgame   62%"), "{body}");
    let body = summary_body(&game_with(vec![review(1, Stage::Endgame, Quality::Best, 0, Some(63.5))]));
    assert!(body.contains("Endgame   64%"), "{body}");
}

#[test]
fn counts_are_pluralised() {
    assert_eq!(plural(1, "move"), "1 move");
    assert_eq!(plural(0, "move"), "0 moves");
    assert_eq!(plural(7, "move"), "7 moves");
}

#[test]
fn the_status_says_whose_move_it_is() {
    let game = Game::new(Color::White, 5);
    assert_eq!(status_line(&game, None, true, "Stockfish ready"), "Your move as White  (skill 5)");
    let game = Game::new(Color::Black, 7);
    assert_eq!(status_line(&game, None, true, "Stockfish ready"), "Stockfish is thinking...  (skill 7)");
    assert_eq!(
        status_line(&game, None, false, "Stockfish not found"),
        "Stockfish not found\n(playing without engine)"
    );
    let drill = ruy_lopez_drill();
    let game = Game::new(Color::White, 5);
    assert!(status_line(&game, Some(&drill), false, "").starts_with("Drill: Ruy Lopez"));
}

#[test]
fn the_status_warns_of_check_and_reports_the_result() {
    let mut game = Game::new(Color::White, 5);
    for uci in ["e2e4", "f7f6", "d2d4", "g7g5"] {
        let m = game.parse_uci(uci).unwrap();
        game.apply(m);
    }
    game.phase = Phase::PlayerTurn;
    let m = game.parse_uci("d1h5").unwrap();
    game.apply(m);
    assert_eq!(game.phase, Phase::GameOver);
    assert_eq!(status_line(&game, None, true, ""), "Checkmate - You win");

    let mut g = Game::new(Color::Black, 5);
    g.pos = chess_trainer::chess::Position::from_fen("rnbqkbnr/ppppp2p/5p2/6pQ/3PP3/8/PPP2PPP/RNB1KBNR b KQkq - 1 3").unwrap();
    g.phase = Phase::PlayerTurn;
    assert!(status_line(&g, None, true, "").ends_with("  - you are in check!"));
}

#[test]
fn the_feedback_names_the_verdict_and_what_it_cost() {
    let mut game = Game::new(Color::White, 5);
    game.last_grade = Some(Grade {
        quality: Quality::Mistake,
        loss_cp: 200,
        played_san: "1. a3".to_string(),
        better_san: Some("d4".to_string()),
    });
    let (text, tone) = feedback_line(&game, None);
    assert_eq!(text, "Mistake  (1. a3)\nlost 2.00 pawns\nbetter was d4");
    assert_eq!(tone, Some(Tone::Verdict(Quality::Mistake)));

    game.last_grade = Some(Grade {
        quality: Quality::Book,
        loss_cp: 50,
        played_san: "1. e4".to_string(),
        better_san: None,
    });
    let (text, _) = feedback_line(&game, None);
    assert_eq!(text, "Theory  (1. e4)");

    game.last_grade = None;
    assert_eq!(feedback_line(&game, None), (String::new(), None));
}

#[test]
fn while_drilling_the_feedback_is_the_drills() {
    let game = Game::new(Color::White, 5);
    let mut drill = ruy_lopez_drill();
    assert_eq!(feedback_line(&game, Some(&drill)), (String::new(), Some(Tone::Book)));
    drill.feedback = Some("Correct - e4".to_string());
    drill.last_ok = Some(true);
    assert_eq!(
        feedback_line(&game, Some(&drill)),
        ("Correct - e4".to_string(), Some(Tone::Verdict(Quality::Best)))
    );
    drill.last_ok = Some(false);
    assert_eq!(feedback_line(&game, Some(&drill)).1, Some(Tone::Verdict(Quality::Mistake)));
}

#[test]
fn the_move_list_shows_the_last_sixteen_entries() {
    let mut game = Game::new(Color::White, 5);
    for i in 0..20 {
        game.history.push(format!("m{i}"));
    }
    let list = move_list(&game);
    assert!(list.starts_with("m4  m5"), "{list}");
    assert!(list.ends_with("m18  m19"), "{list}");
    game.history.truncate(2);
    assert_eq!(move_list(&game), "m0  m1");
}

#[test]
fn the_evaluation_reads_as_the_score_of_the_current_ply() {
    let mut game = Game::new(Color::White, 5);
    assert_eq!(eval_text(&game), "...");
    game.evals.insert(0, Score::Centipawns(-45));
    assert_eq!(eval_text(&game), "-0.45");
    game.evals.insert(0, Score::Mate(4));
    assert_eq!(eval_text(&game), "M4");
}

use chess_trainer::chess::Square;
use chess_trainer::ui::{tile_is_light, tile_look, TileLook};

fn square(name: &str) -> Square {
    let b = name.as_bytes();
    Square::at(b[0] - b'a', b[1] - b'1')
}

#[test]
fn tiles_alternate_from_a_dark_a1() {
    assert!(!tile_is_light(square("a1")));
    assert!(tile_is_light(square("b1")));
    assert!(tile_is_light(square("a2")));
    assert!(!tile_is_light(square("h8")));
}

#[test]
fn tiles_show_the_selection_its_targets_and_the_hint() {
    let mut game = Game::new(Color::White, 5);
    game.select(square("e2"));
    assert_eq!(tile_look(&game, square("e2")), TileLook::Selected);
    assert_eq!(tile_look(&game, square("e4")), TileLook::Move);
    assert_eq!(tile_look(&game, square("e5")), TileLook::Dark);
    assert_eq!(tile_look(&game, square("d5")), TileLook::Light);

    game.clear_selection();
    game.best_move = Some("g1f3".to_string());
    assert_eq!(tile_look(&game, square("g1")), TileLook::Dark);
    game.show_hint = true;
    assert_eq!(tile_look(&game, square("g1")), TileLook::Hint);
    assert_eq!(tile_look(&game, square("f3")), TileLook::Hint);
}

#[test]
fn a_capture_and_a_king_in_check_stand_out() {
    let mut game = Game::new(Color::White, 5);
    game.pos = chess_trainer::chess::Position::from_fen("4k3/8/8/3p4/4P3/8/8/4K2q w - - 0 1").unwrap();
    assert_eq!(tile_look(&game, square("e1")), TileLook::Check);
    game.pos = chess_trainer::chess::Position::from_fen("4k3/8/8/3p4/4P3/8/8/4K3 w - - 0 1").unwrap();
    game.select(square("e4"));
    assert_eq!(tile_look(&game, square("d5")), TileLook::Capture);
    assert_eq!(tile_look(&game, square("e5")), TileLook::Move);
}
