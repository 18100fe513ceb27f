use chess_trainer::chess::Position;
use chess_trainer::openings::{Book, Opening, Repertoire, MAX_CONTINUATIONS};
use shakmaty::san::SanPlus;

/// A slice of the Lichess chess-openings database, in its own format.
const BOOK: &str = "eco\tname\tpgn
A10\tEnglish Opening\t1. c4
A10\tEnglish Opening: Anglo-Dutch Defense\t1. c4 f5
A15\tEnglish Opening: Anglo-Indian Defense\t1. c4 Nf6
A16\tEnglish Opening: Anglo-Indian Defense, Queen's Knight Variation\t1. c4 Nf6 2. Nc3
A17\tEnglish Opening: Anglo-Indian Defense, Hedgehog System\t1. c4 Nf6 2. Nc3 e6
A20\tEnglish Opening: King's English Variation\t1. c4 e5
A22\tEnglish Opening: King's English Variation, Two Knights Variation\t1. c4 e5 2. Nc3 Nf6
A28\tEnglish Opening: King's English Variation, Four Knights Variation\t1. c4 e5 2. Nc3 Nf6 3. Nf3 Nc6
A30\tEnglish Opening: Symmetrical Variation\t1. c4 c5
A45\tIndian Defense\t1. d4 Nf6
A50\tIndian Defense: Normal Variation\t1. d4 Nf6 2. c4
E00\tIndian Defense: East Indian Defense\t1. d4 Nf6 2. c4 e6
E20\tNimzo-Indian Defense\t1. d4 Nf6 2. c4 e6 3. Nc3 Bb4
A80\tDutch Defense\t1. d4 f5
A81\tDutch Defense: Leningrad Variation\t1. d4 f5 2. g3 Nf6 3. Bg2 g6
A84\tDutch Defense: Classical Variation\t1. d4 e6 2. c4 f5
D00\tQueen's Pawn Game\t1. d4 d5
B00\tKing's Pawn Game\t1. e4
B20\tSicilian Defense\t1. e4 c5
B50\tSicilian Defense: Modern Variations\t1. e4 c5 2. Nf3 d6
B90\tSicilian Defense: Najdorf Variation\t1. e4 c5 2. Nf3 d6 3. d4 cxd4 4. Nxd4 Nf6 5. Nc3 a6
B90\tSicilian Defense: Najdorf Variation, Adams Attack\t1. e4 c5 2. Nf3 d6 3. d4 cxd4 4. Nxd4 Nf6 5. Nc3 a6 6. h3
B90\tSicilian Defense: Najdorf Variation, English Attack\t1. e4 c5 2. Nf3 d6 3. d4 cxd4 4. Nxd4 Nf6 5. Nc3 a6 6. Be3 e5 7. Nb3 Be6 8. f3
B91\tSicilian Defense: Najdorf Variation, Zagreb Variation\t1. e4 c5 2. Nf3 d6 3. d4 cxd4 4. Nxd4 Nf6 5. Nc3 a6 6. g3
B92\tSicilian Defense: Najdorf Variation, Opocensky Variation\t1. e4 c5 2. Nf3 d6 3. d4 cxd4 4. Nxd4 Nf6 5. Nc3 a6 6. Be2
B94\tSicilian Defense: Najdorf Variation\t1. e4 c5 2. Nf3 d6 3. d4 cxd4 4. Nxd4 Nf6 5. Nc3 a6 6. Bg5
B96\tSicilian Defense: Najdorf Variation, Polugaevsky Variation\t1. e4 c5 2. Nf3 d6 3. d4 cxd4 4. Nxd4 Nf6 5. Nc3 a6 6. Bg5 e6 7. f4 b5
C20\tKing's Pawn Game\t1. e4 e5
C20\tBongcloud Attack\t1. e4 e5 2. Ke2
C44\tKing's Knight Opening: Normal Variation\t1. e4 e5 2. Nf3 Nc6
C60\tRuy Lopez\t1. e4 e5 2. Nf3 Nc6 3. Bb5
C60\tRuy Lopez: Bulgarian Variation\t1. e4 e5 2. Nf3 Nc6 3. Bb5 a5
C65\tRuy Lopez: Berlin Defense\t1. e4 e5 2. Nf3 Nc6 3. Bb5 Nf6
C68\tRuy Lopez: Morphy Defense\t1. e4 e5 2. Nf3 Nc6 3. Bb5 a6
C68\tRuy Lopez: Exchange Variation\t1. e4 e5 2. Nf3 Nc6 3. Bb5 a6 4. Bxc6
C70\tRuy Lopez: Morphy Defense, Caro Line\t1. e4 e5 2. Nf3 Nc6 3. Bb5 a6 4. Ba4 b5
C77\tRuy Lopez: Morphy Defense\t1. e4 e5 2. Nf3 Nc6 3. Bb5 a6 4. Ba4 Nf6
C78\tRuy Lopez: Morphy Defense, Normal Variation\t1. e4 e5 2. Nf3 Nc6 3. Bb5 a6 4. Ba4 Nf6 5. O-O
C80\tRuy Lopez: Open\t1. e4 e5 2. Nf3 Nc6 3. Bb5 a6 4. Ba4 Nf6 5. O-O Nxe4
C84\tRuy Lopez: Closed\t1. e4 e5 2. Nf3 Nc6 3. Bb5 a6 4. Ba4 Nf6 5. O-O Be7
C88\tRuy Lopez: Closed, Anti-Marshall\t1. e4 e5 2. Nf3 Nc6 3. Bb5 a6 4. Ba4 Nf6 5. O-O Be7 6. Re1 b5 7. Bb3
C89\tRuy Lopez: Marshall Attack\t1. e4 e5 2. Nf3 Nc6 3. Bb5 a6 4. Ba4 Nf6 5. O-O Be7 6. Re1 b5 7. Bb3 O-O 8. c3 d5
C92\tRuy Lopez: Closed, Main Line\t1. e4 e5 2. Nf3 Nc6 3. Bb5 a6 4. Ba4 Nf6 5. O-O Be7 6. Re1 b5 7. Bb3 d6 8. c3 O-O 9. h3
";

fn book() -> Book {
    Book::load(BOOK)
}

fn after(moves: &[&str]) -> Position {
    let mut pos = Position::initial();
    for san in moves {
        let token: Vec<char> = san.chars().collect();
        let m = pos.san_move(&token).expect("test move should be legal");
        pos = pos.play(&m).expect("test move should be playable");
    }
    pos
}

fn chars(s: &str) -> Vec<char> {
    s.chars().collect()
}

#[test]
fn the_starting_position_is_in_book() {
    assert!(book().contains(&Position::initial()));
}

#[test]
fn a_main_line_is_named() {
    let book = book();
    let sicilian = after(&["e4", "c5"]);
    let named = book.name(&sicilian).expect("1.e4 c5 should be named");
    assert!(named.name.contains("Sicilian"), "{}", named.name);
    assert_eq!(named.eco, "B20");
}

#[test]
fn a_deeper_line_gets_the_more_specific_name() {
    let book = book();
    let najdorf = after(&[
        "e4", "c5", "Nf3", "d6", "d4", "cxd4", "Nxd4", "Nf6", "Nc3", "a6",
    ]);
    let named = book.name(&najdorf).expect("the Najdorf should be named");
    assert!(named.name.contains("Najdorf"), "{}", named.name);
}

#[test]
fn a_transposition_finds_the_same_position() {
    // 1.d4 Nf6 2.c4 e6 3.Nc3 and 1.c4 Nf6 2.Nc3 e6 3.d4 reach one position.
    let book = book();
    let direct = after(&["d4", "Nf6", "c4", "e6", "Nc3"]);
    let transposed = after(&["c4", "Nf6", "Nc3", "e6", "d4"]);
    assert_eq!(book.position_key(&direct), book.position_key(&transposed));
    assert!(book.contains(&direct));
    assert!(book.contains(&transposed));
}

#[test]
fn nonsense_leaves_the_book() {
    // 1.h4 a5 2.Rh3 is not theory anybody has bothered to name.
    assert!(!book().contains(&after(&["h4", "a5", "Rh3"])));
}

#[test]
fn continuations_are_offered_from_a_book_position() {
    let moves = book().continuations(&Position::initial());
    assert!(!moves.is_empty());
    assert!(moves.len() <= MAX_CONTINUATIONS);
    // Every suggestion must itself be legal SAN in the position.
    for san in &moves {
        assert!(san.parse::<SanPlus>().is_ok(), "{san}");
    }
}

#[test]
fn a_position_outside_the_book_offers_nothing_to_return_to() {
    // Deep in an unnamed line, no legal move leads back into theory.
    let lost = after(&["h4", "a5", "Rh3", "a4", "Rg3", "a3"]);
    assert!(book().continuations(&lost).is_empty());
}

#[test]
fn traffic_separates_a_main_line_from_a_sideline() {
    let book = book();
    let main = after(&["e4", "e5", "Nf3", "Nc6", "Bb5"]);
    let sideline = after(&["e4", "e5", "Nf3", "Nc6", "Bb5", "a5"]);

    // The Bulgarian Variation is named, so `contains` cannot tell them
    // apart. Traffic can, and by a wide margin.
    assert!(book.contains(&sideline));
    assert!(
        book.traffic(&main) > 10 * book.traffic(&sideline),
        "main {} vs sideline {}",
        book.traffic(&main),
        book.traffic(&sideline)
    );
}

#[test]
fn traffic_is_zero_outside_the_book() {
    assert_eq!(book().traffic(&after(&["h4", "a5", "Rh3"])), 0);
}

#[test]
fn continuations_lead_with_the_most_travelled_move() {
    let ruy = after(&["e4", "e5", "Nf3", "Nc6", "Bb5"]);
    let moves = book().continuations(&ruy);
    // 3...a6 is the Main Line; a5 and the rest are sidelines.
    assert_eq!(moves.first().map(String::as_str), Some("a6"), "{moves:?}");
}

#[test]
fn a_repertoire_can_be_chosen_by_name_or_eco() {
    let book = book();
    let by_name = book.repertoire("najdorf").expect("Najdorf lines exist");
    assert!(by_name.lines() > 5, "{}", by_name.lines());

    let by_eco = book.repertoire("B90").expect("B90 exists");
    assert!(by_eco.lines() > 0);

    // A typo selects nothing rather than silently drilling everything.
    assert!(book.repertoire("nadjorf").is_none());
    assert!(book.repertoire("   ").is_none());
}

#[test]
fn a_repertoire_steers_the_move_that_gets_taught() {
    let book = book();
    let start = Position::initial();

    // Globally, 1.e4 or 1.d4 lead. Asked for the English, the book teaches
    // the move that actually reaches it.
    let english = book.repertoire("English Opening").unwrap();
    let (san, _) = book
        .main_line(&start, Some(&english))
        .expect("the English starts somewhere");
    assert_eq!(san, "c4");

    let dutch = book.repertoire("Dutch Defense").unwrap();
    let after_d4 = after(&["d4"]);
    let (san, _) = book.main_line(&after_d4, Some(&dutch)).unwrap();
    assert_eq!(san, "f5");
}

#[test]
fn a_line_runs_out_at_its_end() {
    let book = book();
    let english = book.repertoire("English Opening").unwrap();
    // Twenty plies of the English is past the end of any named line.
    let deep = after(&[
        "c4", "e5", "Nc3", "Nf6", "Nf3", "Nc6", "e3", "Bb4", "Qc2", "Bxc3",
        "Qxc3", "O-O", "Be2", "Re8", "O-O", "d5", "cxd5", "Nxd5", "Qc2", "Nb6",
    ]);
    assert!(book.main_line(&deep, Some(&english)).is_none());
}

#[test]
fn an_unparseable_line_is_skipped_rather_than_fatal() {
    let mut book = Book::new();
    assert!(book.add_line(&chars("1. e4 zz9"), 0).is_none());
    assert!(book.add_line(&chars("1. e4 e5 2. Ke2"), 1).is_some());
}

#[test]
fn move_numbers_are_not_mistaken_for_moves() {
    let mut book = Book::new();
    let plain = book.add_line(&chars("1. e4 e5 2. Nf3"), 0);
    let mut other = Book::new();
    let numbered = other.add_line(&chars("1. e4 1... e5 2. Nf3"), 0);
    assert_eq!(plain, numbered);
    assert!(plain.is_some());
}

#[test]
fn a_named_opening_reads_as_a_label() {
    let opening = Opening {
        eco: "B90".to_string(),
        name: "Sicilian Defense: Najdorf Variation".to_string(),
    };
    assert_eq!(
        opening.label(),
        "Sicilian Defense: Najdorf Variation (B90)"
    );
}

#[test]
fn the_database_is_read_row_by_row() {
    let book = book();
    // Every row is a line, and the header is not.
    assert_eq!(book.opening_count(), BOOK.lines().count() - 1);
    assert!(!book.is_empty());
    assert!(book.position_count() > 50, "{}", book.position_count());
}

#[test]
fn malformed_rows_are_skipped() {
    let text = "eco\tname\tpgn\n\
                A00\tno line here\n\
                \n\
                B00\tNonsense\t1. e4 Na6 2. Qh5 zz\n\
                C20\tKing's Pawn Game\t1. e4 e5\n";
    let book = Book::load(text);
    assert_eq!(book.opening_count(), 1);
    // The nonsense line's playable start is still recorded as theory.
    assert!(book.contains(&after(&["e4", "Na6"])));
    assert!(book.name(&after(&["e4", "e5"])).is_some());
    assert!(book.name(&after(&["e4", "Na6"])).is_none());
}

#[test]
fn an_empty_text_is_an_empty_book() {
    let book = Book::load("");
    assert!(book.is_empty());
    assert_eq!(book.traffic(&Position::initial()), 0);
    assert!(book.continuations(&Position::initial()).is_empty());
}

#[test]
fn continuations_are_capped_at_three() {
    let moves = book().continuations(&Position::initial());
    // e4, d4 and c4 all lead somewhere; e4 is on the most lines.
    assert_eq!(moves, vec!["e4", "c4", "d4"]);
}

#[test]
fn a_repertoire_keeps_what_was_asked_for() {
    let book = book();
    let rep = book.repertoire("  Ruy Lopez ").unwrap();
    assert_eq!(rep.label, "Ruy Lopez");
    assert_eq!(rep.lines(), 13);
    let b90 = book.repertoire("b90").unwrap();
    assert_eq!(b90.lines(), 3);
    let empty = Repertoire::empty("nothing");
    assert_eq!(empty.lines(), 0);
    assert!(book.main_line(&Position::initial(), Some(&empty)).is_none());
}
