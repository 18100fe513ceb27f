use chess_trainer::engine::{first_word_is, parse_score, parse_score_overflows, read_search_line, white_to_move, Score, SearchLine};

#[test]
fn scores_are_flipped_only_for_black_to_move() {
    assert_eq!(
        parse_score("info depth 12 score cp 120 pv e2e4", 1),
        Some(Score::Centipawns(120))
    );
    assert_eq!(
        parse_score("info depth 12 score cp 120 pv e7e5", -1),
        Some(Score::Centipawns(-120))
    );
}

#[test]
fn mate_scores_are_parsed_and_ordered() {
    assert_eq!(
        parse_score("info depth 20 score mate 3 pv a1a8", 1),
        Some(Score::Mate(3))
    );
    assert_eq!(
        parse_score("info depth 20 score mate 3 pv a8a1", -1),
        Some(Score::Mate(-3))
    );
    assert!(Score::Mate(1).to_cp() > Score::Mate(5).to_cp());
    assert!(Score::Mate(5).to_cp() > Score::Centipawns(900).to_cp());
    assert!(Score::Mate(-1).to_cp() < Score::Mate(-5).to_cp());
    assert!(Score::Mate(-5).to_cp() < Score::Centipawns(-900).to_cp());
}

#[test]
fn lines_without_a_score_are_ignored() {
    assert_eq!(parse_score("info depth 1 currmove e2e4", 1), None);
    assert_eq!(parse_score("bestmove e2e4 ponder e7e5", 1), None);
    assert_eq!(parse_score("info string Skill Level set", 1), None);
}

#[test]
fn side_to_move_is_read_from_the_fen() {
    assert!(white_to_move(
        "rnbqkbnr/pppppppp/8/8/8/8/PPPPPPPP/RNBQKBNR w KQkq - 0 1"
    ));
    assert!(!white_to_move(
        "rnbqkbnr/pppppppp/8/8/8/8/PPPPPPPP/RNBQKBNR b KQkq - 0 1"
    ));
}

#[test]
fn centipawns_are_clamped_and_mates_counted_down() {
    assert_eq!(Score::Centipawns(25_000).to_cp(), 10_000);
    assert_eq!(Score::Centipawns(-25_000).to_cp(), -10_000);
    assert_eq!(Score::Centipawns(-37).to_cp(), -37);
    assert_eq!(Score::Mate(3).to_cp(), 9_970);
    assert_eq!(Score::Mate(-3).to_cp(), -9_970);
    assert_eq!(Score::Mate(500).to_cp(), 9_010);
    assert_eq!(Score::Mate(0).to_cp(), 10_000);
}

#[test]
fn score_labels_read_as_signed_pawns_or_mates() {
    assert_eq!(Score::Centipawns(34).label(), "+0.34");
    assert_eq!(Score::Centipawns(-310).label(), "-3.10");
    assert_eq!(Score::Centipawns(0).label(), "+0.00");
    assert_eq!(Score::Centipawns(1205).label(), "+12.05");
    assert_eq!(Score::Mate(3).label(), "M3");
    assert_eq!(Score::Mate(-2).label(), "-M2");
}

#[test]
fn an_unknown_score_kind_is_ignored() {
    assert_eq!(parse_score("info depth 3 score lowerbound 20", 1), None);
    assert_eq!(parse_score("info depth 3 score cp", 1), None);
    assert_eq!(parse_score("info depth 3 score cp x12", 1), None);
}

#[test]
fn only_the_lowest_mate_overflows_when_turned_round() {
    assert!(parse_score_overflows("info score mate -2147483648", -1));
    assert!(!parse_score_overflows("info score mate -2147483648", 1));
    assert!(!parse_score_overflows("info score cp 12", -1));
}

#[test]
fn search_output_is_read_line_by_line() {
    match read_search_line("info depth 8 score cp 34 pv e2e4", -1) {
        SearchLine::Score(s) => assert_eq!(s, Score::Centipawns(-34)),
        _ => panic!("expected a score"),
    }
    match read_search_line("bestmove e2e4 ponder e7e5", 1) {
        SearchLine::BestMove(m) => assert_eq!(m, "e2e4"),
        _ => panic!("expected the best move"),
    }
    match read_search_line("bestmove", 1) {
        SearchLine::BestMove(m) => assert_eq!(m, "(none)"),
        _ => panic!("expected the best move"),
    }
    assert!(matches!(read_search_line("info depth 1 currmove e2e4", 1), SearchLine::Other));
    assert!(matches!(read_search_line("readyok", 1), SearchLine::Other));
    assert!(matches!(read_search_line("", 1), SearchLine::Other));
}

#[test]
fn the_first_word_is_what_a_reply_is_waited_for_by() {
    assert!(first_word_is("uciok", "uciok"));
    assert!(first_word_is("  readyok  ", "readyok"));
    assert!(!first_word_is("id name Stockfish", "uciok"));
    assert!(!first_word_is("", "uciok"));
}

use chess_trainer::engine::{commands_for, reply_for, search_sign, EngineReply, EngineRequest};

#[test]
fn requests_become_uci_commands() {
    let fen = "rnbqkbnr/pppppppp/8/8/8/8/PPPPPPPP/RNBQKBNR w KQkq - 0 1";
    assert_eq!(
        commands_for(&EngineRequest::Analyse { fen: fen.to_string(), ply: 0 }),
        vec![format!("position fen {fen}"), "go depth 14".to_string()]
    );
    assert_eq!(
        commands_for(&EngineRequest::PlayMove { fen: fen.to_string(), ply: 3 }),
        vec![format!("position fen {fen}"), "go movetime 500".to_string()]
    );
    assert_eq!(
        commands_for(&EngineRequest::SetSkill(12)),
        vec!["setoption name Skill Level value 12".to_string()]
    );
    assert!(commands_for(&EngineRequest::Shutdown).is_empty());
}

#[test]
fn a_finished_search_answers_the_request() {
    let fen = "8/8/8/8/8/8/8/8 w - - 0 1".to_string();
    match reply_for(&EngineRequest::Analyse { fen: fen.clone(), ply: 4 }, Score::Centipawns(34), "e2e4".to_string()) {
        Some(EngineReply::Analysis { ply, score, best_move }) => {
            assert_eq!(ply, 4);
            assert_eq!(score, Score::Centipawns(34));
            assert_eq!(best_move, "e2e4");
        }
        _ => panic!("expected an analysis"),
    }
    match reply_for(&EngineRequest::PlayMove { fen, ply: 5 }, Score::Centipawns(0), "g8f6".to_string()) {
        Some(EngineReply::OpponentMove { ply, uci }) => {
            assert_eq!(ply, 5);
            assert_eq!(uci, "g8f6");
        }
        _ => panic!("expected a move"),
    }
    assert!(reply_for(&EngineRequest::SetSkill(3), Score::Mate(1), String::new()).is_none());
}

#[test]
fn black_to_move_turns_scores_round() {
    assert_eq!(search_sign("rnbqkbnr/pppppppp/8/8/4P3/8/PPPP1PPP/RNBQKBNR b KQkq - 0 1"), -1);
    assert_eq!(search_sign("rnbqkbnr/pppppppp/8/8/8/8/PPPPPPPP/RNBQKBNR w KQkq - 0 1"), 1);
}

use chess_trainer::chess::fen_move_number;

#[test]
fn the_move_number_is_read_as_shakmaty_reads_it() {
    let fen = |n: &str| -> Vec<char> { format!("8/8/8/8/8/8/8/4K2k w - - 0 {n}").chars().collect() };
    assert_eq!(fen_move_number(&fen("37")), 37);
    assert_eq!(fen_move_number(&fen("0")), 1);
    assert_eq!(fen_move_number(&fen("2147483648")), 2_147_483_648);
    assert_eq!(fen_move_number(&fen("99999999999")), u32::MAX);
    assert_eq!(fen_move_number(&"8/8/8/8/8/8/8/4K2k w - - 0".chars().collect::<Vec<char>>()), 1);
}
