use chess_trainer::chess::Color;
use chess_trainer::engine::{EngineRequest, Score};
use chess_trainer::flow::{
    drive_engine, engine_lost, initial_skill, keyboard, opponent_moved, record_analysis,
    side_from, starting_game, track_opening, EngineSync, Keys, OpponentOutcome,
};
use chess_trainer::game::{Game, Phase};
use chess_trainer::openings::Book;

const BOOK: &str = "eco\tname\tpgn
A10\tEnglish Opening\t1. c4
A10\tEnglish Opening: Anglo-Dutch Defense\t1. c4 f5
A15\tEnglish Opening: Anglo-Indian Defense\t1. c4 Nf6
A16\tEnglish Opening: Anglo-Indian Defense, Queen's Knight Variation\t1. c4 Nf6 2. Nc3
A17\tEnglish Opening: Anglo-Indian Defense, Hedgehog System\t1. c4 Nf6 2. Nc3 e6
A20\tEnglish Opening: King's English Variation\t1. c4 e5
A22\tEnglish Opening: King's English Variation, Two Knights Variation\t1. c4 e5 2. Nc3 Nf6
A28\tEnglish Opening: King's English Variation, Four Knights Variation\t1. c4 e5 2. Nc3 Nf6 3. Nf3 Nc6
A30\tEnglish Opening: Symmetrical Variation\t1. c4 c5
A45\tIndian Defense\t1. d4 Nf6
A50\tIndian Defense: Normal Variation\t1. d4 Nf6 2. c4
E00\tIndian Defense: East Indian Defense\t1. d4 Nf6 2. c4 e6
E20\tNimzo-Indian Defense\t1. d4 Nf6 2. c4 e6 3. Nc3 Bb4
A80\tDutch Defense\t1. d4 f5
A81\tDutch Defense: Leningrad Variation\t1. d4 f5 2. g3 Nf6 3. Bg2 g6
A84\tDutch Defense: Classical Variation\t1. d4 e6 2. c4 f5
D00\tQueen's Pawn Game\t1. d4 d5
B00\tKing's Pawn Game\t1. e4
B20\tSicilian Defense\t1. e4 c5
B50\tSicilian Defense: Modern Variations\t1. e4 c5 2. Nf3 d6
B90\tSicilian Defense: Najdorf Variation\t1. e4 c5 2. Nf3 d6 3. d4 cxd4 4. Nxd4 Nf6 5. Nc3 a6
B90\tSicilian Defense: Najdorf Variation, Adams Attack\t1. e4 c5 2. Nf3 d6 3. d4 cxd4 4. Nxd4 Nf6 5. Nc3 a6 6. h3
B90\tSicilian Defense: Najdorf Variation, English Attack\t1. e4 c5 2. Nf3 d6 3. d4 cxd4 4. Nxd4 Nf6 5. Nc3 a6 6. Be3 e5 7. Nb3 Be6 8. f3
B91\tSicilian Defense: Najdorf Variation, Zagreb Variation\t1. e4 c5 2. Nf3 d6 3. d4 cxd4 4. Nxd4 Nf6 5. Nc3 a6 6. g3
B92\tSicilian Defense: Najdorf Variation, Opocensky Variation\t1. e4 c5 2. Nf3 d6 3. d4 cxd4 4. Nxd4 Nf6 5. Nc3 a6 6. Be2
B94\tSicilian Defense: Najdorf Variation\t1. e4 c5 2. Nf3 d6 3. d4 cxd4 4. Nxd4 Nf6 5. Nc3 a6 6. Bg5
B96\tSicilian Defense: Najdorf Variation, Polugaevsky Variation\t1. e4 c5 2. Nf3 d6 3. d4 cxd4 4. Nxd4 Nf6 5. Nc3 a6 6. Bg5 e6 7. f4 b5
C20\tKing's Pawn Game\t1. e4 e5
C20\tBongcloud Attack\t1. e4 e5 2. Ke2
C44\tKing's Knight Opening: Normal Variation\t1. e4 e5 2. Nf3 Nc6
C60\tRuy Lopez\t1. e4 e5 2. Nf3 Nc6 3. Bb5
C60\tRuy Lopez: Bulgarian Variation\t1. e4 e5 2. Nf3 Nc6 3. Bb5 a5
C65\tRuy Lopez: Berlin Defense\t1. e4 e5 2. Nf3 Nc6 3. Bb5 Nf6
C68\tRuy Lopez: Morphy Defense\t1. e4 e5 2. Nf3 Nc6 3. Bb5 a6
C68\tRuy Lopez: Exchange Variation\t1. e4 e5 2. Nf3 Nc6 3. Bb5 a6 4. Bxc6
C70\tRuy Lopez: Morphy Defense, Caro Line\t1. e4 e5 2. Nf3 Nc6 3. Bb5 a6 4. Ba4 b5
C77\tRuy Lopez: Morphy Defense\t1. e4 e5 2. Nf3 Nc6 3. Bb5 a6 4. Ba4 Nf6
C78\tRuy Lopez: Morphy Defense, Normal Variation\t1. e4 e5 2. Nf3 Nc6 3. Bb5 a6 4. Ba4 Nf6 5. O-O
C80\tRuy Lopez: Open\t1. e4 e5 2. Nf3 Nc6 3. Bb5 a6 4. Ba4 Nf6 5. O-O Nxe4
C84\tRuy Lopez: Closed\t1. e4 e5 2. Nf3 Nc6 3. Bb5 a6 4. Ba4 Nf6 5. O-O Be7
C88\tRuy Lopez: Closed, Anti-Marshall\t1. e4 e5 2. Nf3 Nc6 3. Bb5 a6 4. Ba4 Nf6 5. O-O Be7 6. Re1 b5 7. Bb3
C89\tRuy Lopez: Marshall Attack\t1. e4 e5 2. Nf3 Nc6 3. Bb5 a6 4. Ba4 Nf6 5. O-O Be7 6. Re1 b5 7. Bb3 O-O 8. c3 d5
C92\tRuy Lopez: Closed, Main Line\t1. e4 e5 2. Nf3 Nc6 3. Bb5 a6 4. Ba4 Nf6 5. O-O Be7 6. Re1 b5 7. Bb3 d6 8. c3 O-O 9. h3
";

fn played(ucis: &[&str]) -> Game {
    let mut game = Game::new(Color::White, 5);
    for uci in ucis {
        let m = game.parse_uci(uci).expect("test move should be legal");
        game.apply(m);
    }
    game
}

/// Follows the game through the book one move at a time, as the app's frame
/// loop does: the opening name comes from the named positions passed
/// *through*, not from the final one.
fn followed(ucis: &[&str]) -> Game {
    let book = Book::load(BOOK);
    let mut game = Game::new(Color::White, 5);
    let mut last_seen: u64 = 0;
    track_opening(&mut game, &book, &mut last_seen);
    for uci in ucis {
        let m = game.parse_uci(uci).expect("test move should be legal");
        game.apply(m);
        track_opening(&mut game, &book, &mut last_seen);
    }
    game
}

fn no_keys() -> Keys {
    Keys { hint: false, summary: false, takeback: false, new_game: false, stronger: false, weaker: false }
}

#[test]
fn a_takeback_is_refused_while_drilling() {
    let mut game = played(&["e2e4", "e7e5"]);
    let mut sync = EngineSync::new();
    let keys = Keys { takeback: true, ..no_keys() };
    keyboard(&mut game, &mut sync, keys, true);

    assert_eq!(game.ply, 2, "the drill owns the board");
}

#[test]
fn a_main_line_is_named_as_it_is_played() {
    let game = followed(&["e2e4", "c7c5"]);

    let opening = game.opening.as_ref().expect("1.e4 c5 should be named");
    assert!(opening.name.contains("Sicilian"), "{}", opening.name);
    assert!(game.book_plies.contains(&2));
    assert_eq!(game.left_book_at, None);
    assert!(game.book_alternatives.is_empty());
}

#[test]
fn leaving_theory_records_the_move_and_the_alternatives() {
    // A Ruy Lopez, then 3...Nh6, which no database line contains.
    let game = followed(&["e2e4", "e7e5", "g1f3", "b8c6", "f1b5", "g8h6"]);

    assert_eq!(game.left_book_at, Some(4));
    assert!(!game.book_plies.contains(&6));
    assert!(
        !game.book_alternatives.is_empty(),
        "3...a5 leaves a position with known replies"
    );
    // The last name reached still stands.
    let opening = game
        .opening
        .as_ref()
        .expect("the Ruy Lopez should still be named");
    assert!(opening.name.contains("Ruy Lopez"), "{}", opening.name);
}

#[test]
fn a_transposition_is_still_recognised_as_theory() {
    // The same position by two move orders. Neither order ends on a named
    // line, so what is asserted is that both stay *in* theory.
    let direct = followed(&["d2d4", "g8f6", "c2c4", "e7e6", "b1c3"]);
    let transposed = followed(&["c2c4", "g8f6", "b1c3", "e7e6", "d2d4"]);

    assert_eq!(direct.left_book_at, None);
    assert_eq!(transposed.left_book_at, None);
    assert!(direct.book_plies.contains(&5));
    assert!(transposed.book_plies.contains(&5));
    assert!(direct.opening.is_some());
    assert!(transposed.opening.is_some());
}

#[test]
fn an_empty_book_leaves_the_game_untouched() {
    let mut game = played(&["e2e4", "c7c5"]);
    let book = Book::new();
    let mut last_seen: u64 = 0;
    track_opening(&mut game, &book, &mut last_seen);

    assert!(game.opening.is_none());
    assert!(game.book_plies.is_empty());
}

#[test]
fn the_alternatives_are_the_best_travelled_book_moves() {
    let game = followed(&["e2e4", "e7e5", "g1f3", "b8c6", "f1b5", "g8h6"]);
    assert_eq!(game.book_alternatives, vec!["a6", "Nf6", "a5"]);
}

#[test]
fn an_unchanged_position_is_not_looked_at_again() {
    let book = Book::load(BOOK);
    let mut game = Game::new(Color::White, 5);
    let mut last_seen: u64 = 0;
    track_opening(&mut game, &book, &mut last_seen);
    assert!(game.book_plies.contains(&0));
    game.book_plies.clear();
    track_opening(&mut game, &book, &mut last_seen);
    assert!(game.book_plies.is_empty());
}

#[test]
fn the_engine_is_asked_once_per_ply() {
    let game = Game::new(Color::Black, 5);
    let mut sync = EngineSync::new();
    let first = drive_engine(&game, true, &mut sync, false);
    assert_eq!(first.len(), 2);
    assert!(matches!(&first[0], EngineRequest::Analyse { ply: 0, .. }));
    match &first[1] {
        EngineRequest::PlayMove { fen, ply } => {
            assert_eq!(*ply, 0);
            assert_eq!(fen, "rnbqkbnr/pppppppp/8/8/8/8/PPPPPPPP/RNBQKBNR w KQkq - 0 1");
        }
        _ => panic!("expected a move request"),
    }
    assert!(drive_engine(&game, true, &mut sync, false).is_empty());
}

#[test]
fn a_drill_asks_the_engine_for_analysis_only() {
    let game = Game::new(Color::Black, 5);
    let mut sync = EngineSync::new();
    let requests = drive_engine(&game, true, &mut sync, true);
    assert_eq!(requests.len(), 1);
    assert!(matches!(&requests[0], EngineRequest::Analyse { .. }));
}

#[test]
fn nothing_is_asked_without_an_engine() {
    let game = Game::new(Color::Black, 5);
    let mut sync = EngineSync::new();
    assert!(drive_engine(&game, false, &mut sync, false).is_empty());
    assert_eq!(sync.analyse_requested, None);
}

#[test]
fn an_analysis_of_the_players_move_is_due_a_grade() {
    let mut game = played(&["e2e4"]);
    let due = record_analysis(&mut game, 1, Score::Centipawns(15), "e7e5".to_string());
    assert!(due);
    assert_eq!(game.evals.get(&1), Some(&Score::Centipawns(15)));
    assert_eq!(game.best_move.as_deref(), Some("e7e5"));
    // An analysis of an earlier ply is kept but grades nothing.
    let due = record_analysis(&mut game, 0, Score::Centipawns(20), "e2e4".to_string());
    assert!(!due);
    assert_eq!(game.best_moves.get(&0).map(String::as_str), Some("e2e4"));
    assert_eq!(game.best_move.as_deref(), Some("e7e5"));
}

#[test]
fn the_engines_move_is_played_only_on_its_turn() {
    let mut game = Game::new(Color::Black, 5);
    assert_eq!(opponent_moved(&mut game, 3, "e2e4"), OpponentOutcome::Stale);
    assert_eq!(opponent_moved(&mut game, 0, "e2e5"), OpponentOutcome::Unplayable);
    assert_eq!(game.phase, Phase::PlayerTurn);

    let mut game = Game::new(Color::Black, 5);
    assert_eq!(opponent_moved(&mut game, 0, "e2e4"), OpponentOutcome::Played);
    assert_eq!(game.ply, 1);
    assert_eq!(game.phase, Phase::PlayerTurn);
}

#[test]
fn losing_the_engine_hands_both_sides_to_the_player() {
    let mut game = Game::new(Color::Black, 5);
    engine_lost(&mut game);
    assert!(game.free_play);
    assert_eq!(game.phase, Phase::PlayerTurn);
}

#[test]
fn the_keys_toggle_take_back_and_restart() {
    let mut game = played(&["e2e4", "e7e5"]);
    let mut sync = EngineSync { analyse_requested: Some(2), move_requested: Some(1) };

    keyboard(&mut game, &mut sync, Keys { hint: true, summary: true, ..no_keys() }, false);
    assert!(game.show_hint);
    assert!(game.show_summary);

    let out = keyboard(&mut game, &mut sync, Keys { takeback: true, ..no_keys() }, false);
    assert_eq!(game.ply, 0);
    assert_eq!(sync.analyse_requested, None);
    assert!(!out.reset_drill);

    play_and_restart(&mut game);
}

fn play_and_restart(game: &mut Game) {
    let m = game.parse_uci("d2d4").unwrap();
    game.apply(m);
    let mut sync = EngineSync::new();
    let out = keyboard(game, &mut sync, Keys { new_game: true, ..no_keys() }, true);
    assert!(out.reset_drill);
    assert_eq!(game.ply, 0);
    assert!(game.history.is_empty());
}

#[test]
fn engine_strength_stays_between_zero_and_twenty() {
    let mut game = Game::new(Color::White, 20);
    let mut sync = EngineSync::new();
    let out = keyboard(&mut game, &mut sync, Keys { stronger: true, ..no_keys() }, false);
    assert_eq!(out.new_skill, None);
    assert_eq!(game.skill, 20);

    let out = keyboard(&mut game, &mut sync, Keys { weaker: true, ..no_keys() }, false);
    assert_eq!(out.new_skill, Some(19));

    let mut game = Game::new(Color::White, 0);
    let out = keyboard(&mut game, &mut sync, Keys { weaker: true, ..no_keys() }, false);
    assert_eq!(out.new_skill, None);
    assert_eq!(game.skill, 0);
}

#[test]
fn settings_are_read_with_their_defaults() {
    assert_eq!(initial_skill(None), 5);
    assert_eq!(initial_skill(Some(12)), 12);
    assert_eq!(initial_skill(Some(99)), 20);
    assert_eq!(side_from(Some("black")), Color::Black);
    assert_eq!(side_from(Some("b")), Color::Black);
    assert_eq!(side_from(Some("Black")), Color::White);
    assert_eq!(side_from(None), Color::White);
}

#[test]
fn without_an_engine_both_sides_are_played_by_hand() {
    let game = starting_game(Color::Black, 5, false, false);
    assert!(game.free_play);
    assert_eq!(game.phase, Phase::PlayerTurn);

    // A drill needs no engine, so it keeps the sides apart.
    let drilling = starting_game(Color::Black, 5, false, true);
    assert!(!drilling.free_play);
    assert_eq!(drilling.phase, Phase::EngineThinking);
}

use chess_trainer::chess::Square;
use chess_trainer::flow::on_click;

fn square(name: &str) -> Square {
    let b = name.as_bytes();
    Square::at(b[0] - b'a', b[1] - b'1')
}

#[test]
fn clicks_pick_up_put_down_and_move() {
    let mut game = Game::new(Color::White, 5);
    on_click(&mut game, square("e2"));
    assert_eq!(game.selected, Some(square("e2")));
    on_click(&mut game, square("e2"));
    assert_eq!(game.selected, None);

    on_click(&mut game, square("g1"));
    on_click(&mut game, square("f3"));
    assert_eq!(game.ply, 1);
    assert_eq!(game.history, vec!["1. Nf3"]);

    // It is the engine's turn now, so clicks do nothing.
    on_click(&mut game, square("e7"));
    assert_eq!(game.selected, None);
    assert_eq!(game.ply, 1);
}

#[test]
fn a_click_elsewhere_picks_up_another_piece_or_nothing() {
    let mut game = Game::new(Color::White, 5);
    on_click(&mut game, square("e2"));
    on_click(&mut game, square("d2"));
    assert_eq!(game.selected, Some(square("d2")));
    on_click(&mut game, square("d5"));
    assert_eq!(game.selected, None);
    assert_eq!(game.ply, 0);
}
