use chess_trainer::chess::Position;
use chess_trainer::game::Quality;
use chess_trainer::review::{classify, overall_accuracy, summarise, MoveReview, Stage, StageStats};

fn position(fen: &str) -> Position {
    Position::from_fen(fen).unwrap()
}

#[test]
fn the_starting_position_is_an_opening() {
    assert_eq!(classify(&Position::initial()), Stage::Opening);
}

#[test]
fn a_developed_position_is_a_middlegame_even_with_full_material() {
    // Both sides castled, all minors off their home squares, move 9.
    let pos = position("r2q1rk1/ppp1bppp/2np1n2/4p1B1/2B1P1b1/2NP1N2/PPP2PPP/R2Q1RK1 w - - 0 9");
    assert_eq!(classify(&pos), Stage::Middlegame);
}

#[test]
fn an_undeveloped_position_past_move_fifteen_is_a_middlegame() {
    // Same pieces at home as the start, but 20 moves of pawn shuffling in.
    let pos = position("rnbqkbnr/8/pppppppp/8/8/PPPPPPPP/8/RNBQKBNR w KQkq - 0 20");
    assert_eq!(classify(&pos), Stage::Middlegame);
}

#[test]
fn a_rook_ending_is_an_endgame() {
    let pos = position("8/5pk1/6p1/7p/7P/6P1/5PK1/3R4 w - - 0 40");
    assert_eq!(classify(&pos), Stage::Endgame);
}

#[test]
fn queens_and_rooks_alone_are_not_yet_an_endgame() {
    // 2Q + 2R = 28 points of non-pawn material, above the threshold.
    let pos = position("3qr1k1/5ppp/8/8/8/8/5PPP/3QR1K1 w - - 0 25");
    assert_eq!(classify(&pos), Stage::Middlegame);
}

#[test]
fn the_ruy_lopez_is_still_an_opening() {
    let pos = position("r1bqkbnr/pppp1ppp/2n5/1B2p3/4P3/5N2/PPPP1PPP/RNBQK2R b KQkq - 3 3");
    assert_eq!(classify(&pos), Stage::Opening);
}

#[test]
fn a_piece_of_the_wrong_colour_at_home_is_not_undeveloped_material() {
    // Black knights have raided b1/g1; White's own minors are developed.
    let pos = position("r1bqk2r/pppp1ppp/8/2b1p3/2B1P3/5N2/PPPP1PPP/RnBQK1nR w KQkq - 0 8");
    assert_eq!(classify(&pos), Stage::Middlegame);
}

#[test]
fn exactly_twenty_points_of_material_is_an_endgame() {
    // A rook and a bishop each: 5 + 3 + 5 + 3 = 16.
    let at_sixteen = position("4k3/3r1b2/8/8/8/8/3R1B2/4K3 w - - 0 30");
    assert_eq!(classify(&at_sixteen), Stage::Endgame);
    // Queen and rook against queen: 9 + 5 + 9 = 23.
    let at_twenty_three = position("3qk3/8/8/8/8/8/8/3QK2R w K - 0 30");
    assert_eq!(classify(&at_twenty_three), Stage::Middlegame);
    // Queen and bishop against rook and bishop: 9 + 3 + 5 + 3 = 20.
    let at_twenty = position("3qk3/5b2/8/8/8/8/5B2/3RK3 w - - 0 30");
    assert_eq!(classify(&at_twenty), Stage::Endgame);
}

fn review(ply: u32, stage: Stage, quality: Quality, loss_cp: i32) -> MoveReview {
    MoveReview {
        ply,
        stage,
        quality,
        loss_cp,
        // 100% less a tenth of a percent per centipawn, in hundredths.
        accuracy: Some((10_000 - loss_cp * 10) as u32),
        san: format!("move{ply}"),
    }
}

#[test]
fn stages_that_were_never_reached_are_left_out() {
    let reviews = [review(1, Stage::Opening, Quality::Best, 0)];
    let stats = summarise(&reviews);
    assert_eq!(stats.len(), 1);
    assert_eq!(stats[0].stage, Stage::Opening);
}

#[test]
fn each_stage_averages_only_its_own_moves() {
    let reviews = [
        review(1, Stage::Opening, Quality::Best, 0),
        review(3, Stage::Opening, Quality::Good, 20),
        review(5, Stage::Middlegame, Quality::Blunder, 400),
        review(7, Stage::Middlegame, Quality::Mistake, 120),
        review(9, Stage::Middlegame, Quality::Inaccuracy, 60),
    ];

    let stats = summarise(&reviews);
    assert_eq!(stats.len(), 2);

    assert_eq!(stats[0].stage, Stage::Opening);
    assert_eq!(stats[0].moves, 2);
    assert_eq!(stats[0].accuracy, Some(9_900));
    assert_eq!(stats[0].problem_summary(), "");

    assert_eq!(stats[1].stage, Stage::Middlegame);
    assert_eq!(stats[1].moves, 3);
    assert_eq!(stats[1].blunders, 1);
    assert_eq!(stats[1].mistakes, 1);
    assert_eq!(stats[1].inaccuracies, 1);
    assert_eq!(
        stats[1].problem_summary(),
        "1 inaccuracy, 1 mistake, 1 blunder"
    );
    assert_eq!(stats[1].worst, Some(("move5".to_string(), 400)));
}

#[test]
fn a_flawless_stage_reports_no_worst_move() {
    let reviews = [review(1, Stage::Opening, Quality::Best, 0)];
    assert_eq!(summarise(&reviews)[0].worst, None);
}

#[test]
fn overall_accuracy_spans_every_stage() {
    let reviews = [
        review(1, Stage::Opening, Quality::Best, 0),
        review(3, Stage::Endgame, Quality::Mistake, 200),
    ];
    let overall = overall_accuracy(&reviews).unwrap();
    assert_eq!(overall, 9_000);
    assert!(overall_accuracy(&[]).is_none());
}

fn theory(ply: u32, stage: Stage) -> MoveReview {
    MoveReview {
        ply,
        stage,
        quality: Quality::Book,
        loss_cp: 0,
        accuracy: None,
        san: format!("book{ply}"),
    }
}

#[test]
fn theory_moves_are_counted_but_never_averaged() {
    let reviews = [
        theory(1, Stage::Opening),
        theory(3, Stage::Opening),
        review(5, Stage::Opening, Quality::Mistake, 150),
    ];
    let stats = summarise(&reviews);
    assert_eq!(stats[0].moves, 1);
    assert_eq!(stats[0].book_moves, 2);
    assert_eq!(stats[0].accuracy, Some(8_500));
    assert_eq!(overall_accuracy(&reviews), Some(8_500));
}

#[test]
fn a_stage_of_pure_theory_has_no_accuracy() {
    let reviews = [theory(1, Stage::Opening)];
    let stats = summarise(&reviews);
    assert_eq!(stats.len(), 1);
    assert_eq!(stats[0].accuracy, None);
    assert_eq!(stats[0].moves, 0);
    assert_eq!(stats[0].book_moves, 1);
    assert_eq!(stats[0].worst, None);
    assert!(overall_accuracy(&reviews).is_none());
}

#[test]
fn the_mean_rounds_to_the_nearest_hundredth() {
    let reviews = [
        review(1, Stage::Opening, Quality::Best, 0),
        review(3, Stage::Opening, Quality::Best, 0),
        review(5, Stage::Opening, Quality::Good, 1),
    ];
    // (10000 + 10000 + 9990) / 3 = 9996.67
    assert_eq!(overall_accuracy(&reviews), Some(9_997));
}

#[test]
fn the_costliest_move_is_the_last_among_equals() {
    let reviews = [
        review(1, Stage::Middlegame, Quality::Mistake, 150),
        review(3, Stage::Middlegame, Quality::Mistake, 150),
    ];
    assert_eq!(summarise(&reviews)[0].worst, Some(("move3".to_string(), 150)));
}

#[test]
fn problems_are_pluralised() {
    let stats = StageStats {
        stage: Stage::Endgame,
        moves: 9,
        book_moves: 0,
        accuracy: Some(5_000),
        inaccuracies: 0,
        mistakes: 2,
        blunders: 3,
        worst: None,
    };
    assert_eq!(stats.problem_summary(), "2 mistakes, 3 blunders");
}

#[test]
fn stage_labels_name_the_stage() {
    assert_eq!(Stage::Opening.label(), "Opening");
    assert_eq!(Stage::Middlegame.label(), "Middlegame");
    assert_eq!(Stage::Endgame.label(), "Endgame");
    assert_eq!(Stage::all(), [Stage::Opening, Stage::Middlegame, Stage::Endgame]);
}
