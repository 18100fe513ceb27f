//! The text of the panels: status, feedback, opening line, move list,
//! evaluation and the accuracy breakdown. Drawing them is the app's job;
//! what they say is decided here.
use vstd::prelude::*;
use crate::chess::Color;
use crate::drill::{score_text, Drill};
use crate::engine::{spec_score_label, Score};
use crate::game::{quality_label, Game, Phase, Quality};
use crate::openings::{opening_label, OpeningView};
use crate::review::{
    mean_accuracy, problem_parts, review_views, stages, stats_views, summary_of, Stage,
    StatsView,
};
use crate::text::{chars_of, decimal, digit_char, join, join_texts, push_all, push_decimal, push_str, string_of, strings, texts};

verus! {

/// `1 move`, `2 moves`.
pub open spec fn plural_text(n: u32, word: Seq<char>) -> Seq<char> {
    decimal(n as nat) + " "@ + word + (if n == 1 {
        seq![]
    } else {
        "s"@
    })
}

pub fn plural(n: u32, word: &str) -> (s: String)
    ensures
        s@ == plural_text(n, word@),
{
    let mut out: Vec<char> = Vec::new();
    push_decimal(&mut out, n as u64);
    push_str(&mut out, " ");
    push_str(&mut out, word);
    if n != 1 {
        push_str(&mut out, "s");
    }
    assert(out@ =~= plural_text(n, word@));
    string_of(&out)
}

/// Centipawns as pawns with two decimals: `310` reads `3.10`.
pub open spec fn pawns(cp: nat) -> Seq<char> {
    decimal(cp / 100) + "."@ + (if cp % 100 < 10 {
        "0"@
    } else {
        seq![]
    }) + decimal(cp % 100)
}

/// Centipawns read as pawns: the whole pawns, a point, and always exactly two
/// digits of hundredths, which read back as `cp % 100`.
pub proof fn law_pawns_has_two_decimals(cp: nat)
    ensures
        pawns(cp).len() == decimal(cp / 100).len() + 3,
        pawns(cp).take(pawns(cp).len() - 3) == decimal(cp / 100),
        pawns(cp)[pawns(cp).len() - 3] == '.',
        '0' <= pawns(cp)[pawns(cp).len() - 2] <= '9',
        '0' <= pawns(cp)[pawns(cp).len() - 1] <= '9',
        (pawns(cp)[pawns(cp).len() - 2] as int - '0' as int) * 10 + (pawns(cp)[pawns(cp).len() - 1] as int
            - '0' as int) == cp % 100,
{
    reveal_strlit(".");
    reveal_strlit("0");
    reveal_with_fuel(decimal, 2);
    let c = cp % 100;
    let d = decimal(cp / 100);
    let p = pawns(cp);
    if c < 10 {
        assert(decimal(c) == seq![digit_char(c as int)]);
        assert(p == d + seq!['.'] + seq!['0'] + seq![digit_char(c as int)]);
    } else {
        assert(decimal(c / 10) == seq![digit_char((c / 10) as int)]);
        assert(decimal(c) == seq![digit_char((c / 10) as int), digit_char((c % 10) as int)]);
        assert(p == d + seq!['.'] + seq![digit_char((c / 10) as int), digit_char((c % 10) as int)]);
    }
    assert(p.take(p.len() - 3) =~= d);
}

fn push_pawns(out: &mut Vec<char>, cp: u32)
    ensures
        final(out)@ == old(out)@ + pawns(cp as nat),
{
    push_decimal(out, (cp / 100) as u64);
    push_str(out, ".");
    if cp % 100 < 10 {
        push_str(out, "0");
    }
    push_decimal(out, (cp % 100) as u64);
    assert(out@ =~= old(out)@ + pawns(cp as nat));
}

/// A percentage held in hundredths, rounded to a whole percent, halves to
/// even as `{:.0}` does.
pub open spec fn whole_percent(h: u32) -> nat {
    let q = (h / 100) as nat;
    let r = h % 100;
    if r > 50 || (r == 50 && q % 2 == 1) {
        q + 1
    } else {
        q
    }
}

fn round_percent(h: u32) -> (p: u32)
    ensures
        p == whole_percent(h),
{
    let q = h / 100;
    let r = h % 100;
    if r > 50 || (r == 50 && q % 2 == 1) {
        q + 1
    } else {
        q
    }
}

/// How mainstream a book position is: `on 1 book line`, `on 84 book lines`,
/// nothing outside the book.
pub open spec fn traffic_note(traffic: nat) -> Seq<char> {
    if traffic == 0 {
        seq![]
    } else if traffic == 1 {
        "on 1 book line"@
    } else {
        "on "@ + decimal(traffic) + " book lines"@
    }
}

/// The opening panel: while theory lasts, the line's name (if one has been
/// reached) and how many book lines run through the position; once the game
/// has left theory, where it did and which moves would have stayed in it.
pub open spec fn opening_text(
    opening: Option<OpeningView>,
    left_at: Option<u32>,
    alternatives: Seq<Seq<char>>,
    traffic: nat,
) -> Seq<char> {
    match left_at {
        Some(fullmove) => (match opening {
            Some(o) => opening_label(o) + "\nleft theory at move "@ + decimal(fullmove as nat),
            None => "Left theory at move "@ + decimal(fullmove as nat),
        }) + (if alternatives.len() > 0 {
            "\nbook: "@ + join(alternatives, ", "@)
        } else {
            seq![]
        }),
        None => match opening {
            Some(o) => opening_label(o) + (if traffic > 0 {
                "\n"@ + traffic_note(traffic)
            } else {
                seq![]
            }),
            None => traffic_note(traffic),
        },
    }
}

/// The game's opening, as the panel reads it.
pub open spec fn game_opening(g: Game) -> Option<OpeningView> {
    match g.opening {
        Some(o) => Some(o@),
        None => None,
    }
}

fn push_traffic_note(out: &mut Vec<char>, traffic: usize)
    ensures
        final(out)@ == old(out)@ + traffic_note(traffic as nat),
{
    if traffic == 1 {
        push_str(out, "on 1 book line");
    } else if traffic > 1 {
        push_str(out, "on ");
        push_decimal(out, traffic as u64);
        push_str(out, " book lines");
    }
    assert(final(out)@ =~= old(out)@ + traffic_note(traffic as nat));
}

/// The opening line so far: its name while theory lasts, how mainstream the
/// position is, and where theory ran out.
///
/// `traffic` is the count of database lines running through the current
/// position, and it is the honest qualifier on the name: the database names
/// some very obscure moves, so "Ruy Lopez: Bulgarian Variation" on one line
/// means something quite different from a position sitting on eighty.
pub fn opening_line(game: &Game, traffic: usize) -> (s: String)
    ensures
        s@ == opening_text(
            game_opening(*game),
            game.left_book_at,
            strings(game.book_alternatives@),
            traffic as nat,
        ),
{
    let mut out: Vec<char> = Vec::new();
    match game.left_book_at {
        Some(fullmove) => {
            match &game.opening {
                Some(o) => {
                    let l = o.label();
                    push_str(&mut out, l.as_str());
                    push_str(&mut out, "\nleft theory at move ");
                },
                None => {
                    push_str(&mut out, "Left theory at move ");
                },
            }
            push_decimal(&mut out, fullmove as u64);
            if game.book_alternatives.len() > 0 {
                push_str(&mut out, "\nbook: ");
                let alts = crate::text::join_strings(&game.book_alternatives, ", ");
                push_str(&mut out, alts.as_str());
            }
        },
        None => {
            match &game.opening {
                Some(o) => {
                    let l = o.label();
                    push_str(&mut out, l.as_str());
                    if traffic > 0 {
                        push_str(&mut out, "\n");
                    }
                },
                None => {},
            }
            push_traffic_note(&mut out, traffic);
        },
    }
    assert(out@ =~= opening_text(
        game_opening(*game),
        game.left_book_at,
        strings(game.book_alternatives@),
        traffic as nat,
    ));
    string_of(&out)
}

/// The drill's status panel: what is being drilled, the score, and then the
/// misses (or an invitation to go again) once the line is done, or the task
/// while it is the player's turn.
pub open spec fn drill_status_text(
    label: Seq<char>,
    correct: u32,
    asked: u32,
    complete: bool,
    missed: Seq<Seq<char>>,
    players_turn: bool,
) -> Seq<char> {
    join(
        seq!["Drill: "@ + label, score_text(correct, asked)] + (if complete {
            if missed.len() == 0 {
                seq!["Line complete - press N to go again"@]
            } else {
                seq!["Missed: "@ + join(missed, ", "@)]
            }
        } else if players_turn {
            seq!["Find the book move"@]
        } else {
            seq![]
        }),
        "\n"@,
    )
}

/// Drill status: what is being drilled, the score, and whose turn it is.
pub fn drill_status(drill: &Drill, game: &Game) -> (s: String)
    ensures
        s@ == drill_status_text(
            drill.repertoire@.label,
            drill.correct,
            drill.asked,
            drill.complete,
            strings(drill.missed@),
            game.pos.spec_turn() == game.player,
        ),
{
    let mut lines: Vec<Vec<char>> = Vec::new();
    let l = drill.label();
    lines.push(chars_of(l.as_str()));
    let sc = drill.score();
    lines.push(chars_of(sc.as_str()));
    if drill.complete {
        if drill.missed.len() == 0 {
            lines.push(chars_of("Line complete - press N to go again"));
        } else {
            let mut m: Vec<char> = Vec::new();
            push_str(&mut m, "Missed: ");
            let j = crate::text::join_strings(&drill.missed, ", ");
            push_str(&mut m, j.as_str());
            lines.push(m);
        }
    } else if game.pos.turn() == game.player {
        lines.push(chars_of("Find the book move"));
    }
    assert(texts(lines@) =~= seq!["Drill: "@ + drill.repertoire@.label, score_text(drill.correct, drill.asked)] + (if drill.complete {
        if strings(drill.missed@).len() == 0 {
            seq!["Line complete - press N to go again"@]
        } else {
            seq!["Missed: "@ + join(strings(drill.missed@), ", "@)]
        }
    } else if game.pos.spec_turn() == game.player {
        seq!["Find the book move"@]
    } else {
        seq![]
    }));
    let sep = chars_of("\n");
    let r = join_texts(&lines, sep.as_slice());
    string_of(&r)
}

/// A stage's first line: its accuracy and how many moves were scored (with
/// the theory moves beside them), or `all theory`.
pub open spec fn headline(s: StatsView) -> Seq<char> {
    (match s.accuracy {
        Some(a) => s.stage.spec_label() + "   "@ + decimal(whole_percent(a)) + "%   "@
            + plural_text(s.moves, "move"@),
        None => s.stage.spec_label() + "   all theory"@,
    }) + (if s.book_moves > 0 && s.accuracy is Some {
        "  (+"@ + decimal(s.book_moves as nat) + " book)"@
    } else {
        seq![]
    })
}

/// A stage's lines: the headline, its problems when there were any, and its
/// worst move when that cost more than 40 centipawns.
pub open spec fn stat_lines(s: StatsView) -> Seq<Seq<char>> {
    let problems = join(problem_parts(s), ", "@);
    seq![headline(s)] + (if problems.len() > 0 {
        seq!["   "@ + problems]
    } else {
        seq![]
    }) + (match s.worst {
        Some((san, loss)) => if loss > 40 {
            seq!["   worst  "@ + san + "  -"@ + pawns(loss as nat)]
        } else {
            seq![]
        },
        None => seq![],
    })
}

pub open spec fn all_stat_lines(ss: Seq<StatsView>) -> Seq<Seq<char>>
    decreases ss.len(),
{
    if ss.len() == 0 {
        seq![]
    } else {
        all_stat_lines(ss.drop_last()) + stat_lines(ss.last())
    }
}

/// How many of the stages were scored.
pub open spec fn scored_count(ss: Seq<StatsView>) -> nat
    decreases ss.len(),
{
    if ss.len() == 0 {
        0
    } else {
        scored_count(ss.drop_last()) + (if ss.last().accuracy is Some {
            1nat
        } else {
            0nat
        })
    }
}

/// The scored stage of lowest accuracy, the first among equals.
pub open spec fn weakest(ss: Seq<StatsView>) -> Option<(Stage, u32)>
    decreases ss.len(),
{
    if ss.len() == 0 {
        None
    } else {
        let before = weakest(ss.drop_last());
        match ss.last().accuracy {
            Some(a) => match before {
                Some((st, b)) => if a < b {
                    Some((ss.last().stage, a))
                } else {
                    before
                },
                None => Some((ss.last().stage, a)),
            },
            None => before,
        }
    }
}

/// The weakest stage is a scored stage of the lowest accuracy there is, the
/// first of them when several tie; there is none only when no stage was
/// scored.
pub proof fn law_weakest_is_least_accurate(ss: Seq<StatsView>)
    ensures
        weakest(ss) is None <==> forall|j: int| 0 <= j < ss.len() ==> (#[trigger] ss[j]).accuracy is None,
        weakest(ss) is Some ==> exists|i: int|
            #![trigger ss[i]]
            0 <= i < ss.len() && ss[i].stage == weakest(ss).unwrap().0 && ss[i].accuracy == Some(
                weakest(ss).unwrap().1,
            ) && forall|j: int|
                0 <= j < i && (#[trigger] ss[j]).accuracy is Some ==> weakest(ss).unwrap().1
                    < ss[j].accuracy.unwrap(),
        weakest(ss) is Some ==> forall|j: int|
            0 <= j < ss.len() && (#[trigger] ss[j]).accuracy is Some ==> weakest(ss).unwrap().1
                <= ss[j].accuracy.unwrap(),
    decreases ss.len(),
{
    if ss.len() > 0 {
        let p = ss.drop_last();
        let k = p.len() as int;
        law_weakest_is_least_accurate(p);
        assert forall|j: int| 0 <= j < k implies #[trigger] ss[j] == p[j] by {}
        match ss.last().accuracy {
            None => {
                if weakest(p) is Some {
                    let i = choose|i: int|
                        #![trigger p[i]]
                        0 <= i < p.len() && p[i].stage == weakest(p).unwrap().0 && p[i].accuracy
                            == Some(weakest(p).unwrap().1) && forall|j: int|
                            0 <= j < i && (#[trigger] p[j]).accuracy is Some ==> weakest(p).unwrap().1
                                < p[j].accuracy.unwrap();
                    assert(ss[i] == p[i]);
                }
            },
            Some(a) => {
                match weakest(p) {
                    None => {
                        assert(ss[k] == ss.last());
                    },
                    Some((st, b)) => {
                        if a < b {
                            assert(ss[k] == ss.last());
                        } else {
                            let i = choose|i: int|
                                #![trigger p[i]]
                                0 <= i < p.len() && p[i].stage == st && p[i].accuracy == Some(b)
                                    && forall|j: int|
                                    0 <= j < i && (#[trigger] p[j]).accuracy is Some ==> b
                                        < p[j].accuracy.unwrap();
                            assert(ss[i] == p[i]);
                        }
                    },
                }
            },
        }
    }
}

/// The accuracy panel: each stage's lines, the overall accuracy, and the
/// weakest stage when at least two were scored; a prompt when nothing has
/// been graded.
pub open spec fn summary_text(ss: Seq<StatsView>, overall: Option<u32>) -> Seq<char> {
    if ss.len() == 0 {
        "No graded moves yet.\nPlay a few moves and press S again."@
    } else {
        join(
            all_stat_lines(ss) + (match overall {
                Some(o) => seq!["\nOverall   "@ + decimal(whole_percent(o)) + "%"@],
                None => seq![],
            }) + (if scored_count(ss) > 1 {
                match weakest(ss) {
                    Some((st, _)) => seq!["Weakest   "@ + st.spec_label()],
                    None => seq![],
                }
            } else {
                seq![]
            }),
            "\n"@,
        )
    }
}

/// The lines of one stage.
fn push_stat_lines(lines: &mut Vec<Vec<char>>, st: &crate::review::StageStats)
    ensures
        texts(final(lines)@) == texts(old(lines)@) + stat_lines(st@),
{
    let ghost l0 = texts(lines@);
    let mut head: Vec<char> = Vec::new();
    let label = st.stage.label();
    push_str(&mut head, label);
    match st.accuracy {
        Some(a) => {
            push_str(&mut head, "   ");
            push_decimal(&mut head, round_percent(a) as u64);
            push_str(&mut head, "%   ");
            let p = plural(st.moves, "move");
            push_str(&mut head, p.as_str());
            if st.book_moves > 0 {
                push_str(&mut head, "  (+");
                push_decimal(&mut head, st.book_moves as u64);
                push_str(&mut head, " book)");
            }
        },
        None => {
            push_str(&mut head, "   all theory");
        },
    }
    assert(head@ =~= headline(st@));
    lines.push(head);
    let problems = st.problem_summary();
    let pc = chars_of(problems.as_str());
    if pc.len() > 0 {
        let mut l: Vec<char> = Vec::new();
        push_str(&mut l, "   ");
        push_all(&mut l, pc.as_slice());
        lines.push(l);
    }
    match &st.worst {
        Some((san, loss)) => {
            if *loss > 40 {
                let mut l: Vec<char> = Vec::new();
                push_str(&mut l, "   worst  ");
                push_str(&mut l, san.as_str());
                push_str(&mut l, "  -");
                push_pawns(&mut l, *loss as u32);
                lines.push(l);
            }
        },
        None => {},
    }
    assert(texts(lines@) =~= l0 + stat_lines(st@));
}

proof fn lemma_summary_len(rs: Seq<crate::review::ReviewView>, ss: Seq<Stage>)
    ensures
        summary_of(rs, ss).len() <= ss.len(),
    decreases ss.len(),
{
    if ss.len() > 0 {
        lemma_summary_len(rs, ss.drop_last());
    }
}

/// Every stage's lines, how many stages were scored, and the weakest.
fn breakdown(stats: &Vec<crate::review::StageStats>) -> (r: (Vec<Vec<char>>, u32, Option<(Stage, u32)>))
    requires
        stats.len() <= 3,
    ensures
        texts(r.0@) == all_stat_lines(stats_views(stats@)),
        r.1 == scored_count(stats_views(stats@)),
        r.2 == weakest(stats_views(stats@)),
{
    let ghost ss = stats_views(stats@);
    let mut lines: Vec<Vec<char>> = Vec::new();
    let mut scored: u32 = 0;
    let mut weak: Option<(Stage, u32)> = None;
    let mut i: usize = 0;
    while i < stats.len()
        invariant
            i <= stats.len(),
            stats.len() <= 3,
            ss == stats_views(stats@),
            texts(lines@) == all_stat_lines(ss.take(i as int)),
            scored == scored_count(ss.take(i as int)),
            scored <= i,
            weak == weakest(ss.take(i as int)),
        decreases stats.len() - i,
    {
        let ghost t = ss.take(i + 1);
        assert(t.drop_last() == ss.take(i as int));
        assert(t.last() == stats@[i as int]@);
        let st = &stats[i];
        push_stat_lines(&mut lines, st);
        match st.accuracy {
            Some(a) => {
                scored = scored + 1;
                weak = match weak {
                    Some((ws, b)) => if a < b {
                        Some((st.stage, a))
                    } else {
                        Some((ws, b))
                    },
                    None => Some((st.stage, a)),
                };
            },
            None => {},
        }
        i = i + 1;
    }
    assert(ss.take(stats.len() as int) == ss);
    (lines, scored, weak)
}

/// The breakdown that centipawn grading alone cannot give: not how bad a move
/// was, but which part of the game the bad moves keep landing in.
pub fn summary_body(game: &Game) -> (s: String)
    requires
        game.reviews.len() <= u32::MAX,
    ensures
        s@ == summary_text(
            summary_of(review_views(game.reviews@), stages()),
            mean_accuracy(review_views(game.reviews@)),
        ),
{
    let stats = game.stage_summary();
    let ghost ss = stats_views(stats@);
    proof {
        lemma_summary_len(review_views(game.reviews@), stages());
    }
    if stats.len() == 0 {
        return String::from_str("No graded moves yet.\nPlay a few moves and press S again.");
    }
    let (mut lines, scored, weak) = breakdown(&stats);
    let ghost body = texts(lines@);
    let overall = game.overall_accuracy();
    let ghost tail1: Seq<Seq<char>> = match overall {
        Some(o) => seq!["\nOverall   "@ + decimal(whole_percent(o)) + "%"@],
        None => seq![],
    };
    match overall {
        Some(o) => {
            let mut l: Vec<char> = Vec::new();
            push_str(&mut l, "\nOverall   ");
            push_decimal(&mut l, round_percent(o) as u64);
            push_str(&mut l, "%");
            lines.push(l);
        },
        None => {},
    }
    assert(texts(lines@) =~= body + tail1);
    let ghost mid = texts(lines@);
    let ghost tail2: Seq<Seq<char>> = if scored_count(ss) > 1 {
        match weakest(ss) {
            Some((st, _)) => seq!["Weakest   "@ + st.spec_label()],
            None => seq![],
        }
    } else {
        seq![]
    };
    if scored > 1 {
        match weak {
            Some((ws, _)) => {
                let mut l: Vec<char> = Vec::new();
                push_str(&mut l, "Weakest   ");
                push_str(&mut l, ws.label());
                lines.push(l);
            },
            None => {},
        }
    }
    assert(texts(lines@) =~= mid + tail2);
    let sep = chars_of("\n");
    let r = join_texts(&lines, sep.as_slice());
    string_of(&r)
}

/// The status panel in play: the result once the game is over, the
/// engine's turn with its strength, or the player's turn with their colour,
/// the strength and a warning when in check.
pub open spec fn play_status_text(g: Game) -> Seq<char> {
    match g.phase {
        Phase::GameOver => match g.result_text {
            Some(t) => t@,
            None => "Game over"@,
        },
        Phase::EngineThinking => "Stockfish is thinking...  (skill "@ + decimal(g.skill as nat) + ")"@,
        Phase::PlayerTurn => "Your move as "@ + (if g.player == Color::White {
            "White"@
        } else {
            "Black"@
        }) + "  (skill "@ + decimal(g.skill as nat) + ")"@ + (if crate::chess::spec_is_check(g.pos@) {
            "  - you are in check!"@
        } else {
            seq![]
        }),
    }
}

/// The status panel. A drill has no engine opponent and no skill level, so
/// neither belongs in its status; without an engine the panel says why.
pub fn status_line(game: &Game, drill: Option<&Drill>, engine_available: bool, engine_status: &str) -> (s: String)
    ensures
        drill matches Some(d) ==> s@ == drill_status_text(
            d.repertoire@.label,
            d.correct,
            d.asked,
            d.complete,
            strings(d.missed@),
            game.pos.spec_turn() == game.player,
        ),
        drill is None && !engine_available ==> s@ == engine_status@ + "\n(playing without engine)"@,
        drill is None && engine_available ==> s@ == play_status_text(*game),
{
    match drill {
        Some(d) => {
            return drill_status(d, game);
        },
        None => {},
    }
    let mut out: Vec<char> = Vec::new();
    if !engine_available {
        push_str(&mut out, engine_status);
        push_str(&mut out, "\n(playing without engine)");
        return string_of(&out);
    }
    match game.phase {
        Phase::GameOver => {
            match &game.result_text {
                Some(t) => push_str(&mut out, t.as_str()),
                None => push_str(&mut out, "Game over"),
            }
        },
        Phase::EngineThinking => {
            push_str(&mut out, "Stockfish is thinking...  (skill ");
            push_decimal(&mut out, game.skill as u64);
            push_str(&mut out, ")");
        },
        Phase::PlayerTurn => {
            push_str(&mut out, "Your move as ");
            if game.player == Color::White {
                push_str(&mut out, "White");
            } else {
                push_str(&mut out, "Black");
            }
            push_str(&mut out, "  (skill ");
            push_decimal(&mut out, game.skill as u64);
            push_str(&mut out, ")");
            if game.pos.is_check() {
                push_str(&mut out, "  - you are in check!");
            }
        },
    }
    assert(out@ =~= play_status_text(*game));
    string_of(&out)
}

/// The colour the feedback is drawn in: a verdict's colour, or the book's.
#[derive(Debug, Clone, Copy, PartialEq, Eq, Structural)]
pub enum Tone {
    Verdict(Quality),
    Book,
}

/// A graded move as the feedback panel reads it: the verdict and the move,
/// what it cost when that was more than 10 centipawns and not theory, and
/// the better move when there was one.
pub open spec fn grade_text(g: crate::game::GradeView) -> Seq<char> {
    quality_label(g.quality) + "  ("@ + g.played_san + ")"@ + (if g.loss_cp > 10 && g.quality
        != Quality::Book {
        "\nlost "@ + pawns(g.loss_cp as nat) + " pawns"@
    } else {
        seq![]
    }) + match g.better_san {
        Some(b) => "\nbetter was "@ + b,
        None => seq![],
    }
}

/// The feedback panel and its colour. While drilling, the answer to the
/// question is the feedback that matters; the analyst's centipawn verdict on
/// a book move is not. `None` for the colour leaves it as it was.
pub fn feedback_line(game: &Game, drill: Option<&Drill>) -> (r: (String, Option<Tone>))
    ensures
        drill matches Some(d) ==> (r.0@ == match d.feedback {
            Some(f) => f@,
            None => seq![],
        }) && r.1 == Some(match d.last_ok {
            Some(true) => Tone::Verdict(Quality::Best),
            Some(false) => Tone::Verdict(Quality::Mistake),
            None => Tone::Book,
        }),
        drill is None ==> match game.last_grade {
            Some(g) => r.0@ == grade_text(g@) && r.1 == Some(Tone::Verdict(g.quality)),
            None => r.0@.len() == 0 && r.1 is None,
        },
{
    match drill {
        Some(d) => {
            let text = match &d.feedback {
                Some(f) => f.clone(),
                None => String::new(),
            };
            let tone = match d.last_ok {
                Some(true) => Tone::Verdict(Quality::Best),
                Some(false) => Tone::Verdict(Quality::Mistake),
                None => Tone::Book,
            };
            return (text, Some(tone));
        },
        None => {},
    }
    match &game.last_grade {
        Some(g) => {
            let mut out: Vec<char> = Vec::new();
            push_str(&mut out, g.quality.label());
            push_str(&mut out, "  (");
            push_str(&mut out, g.played_san.as_str());
            push_str(&mut out, ")");
            if g.loss_cp > 10 && g.quality != Quality::Book {
                push_str(&mut out, "\nlost ");
                push_pawns(&mut out, g.loss_cp as u32);
                push_str(&mut out, " pawns");
            }
            match &g.better_san {
                Some(b) => {
                    push_str(&mut out, "\nbetter was ");
                    push_str(&mut out, b.as_str());
                },
                None => {},
            }
            assert(out@ =~= grade_text(g@));
            (string_of(&out), Some(Tone::Verdict(g.quality)))
        },
        None => (String::new(), None),
    }
}

/// How many moves the move list shows.
pub const RECENT_MOVES: usize = 16;

/// The move list: the last 16 entries, two spaces apart.
pub fn move_list(game: &Game) -> (s: String)
    ensures
        s@ == join(
            strings(game.history@).skip(
                if game.history@.len() > RECENT_MOVES {
                    game.history@.len() - RECENT_MOVES
                } else {
                    0
                },
            ),
            "  "@,
        ),
{
    let n = game.history.len();
    let start = if n > RECENT_MOVES {
        n - RECENT_MOVES
    } else {
        0
    };
    let mut recent: Vec<String> = Vec::new();
    let mut i: usize = start;
    while i < n
        invariant
            start <= i <= n,
            n == game.history.len(),
            strings(recent@) == strings(game.history@).subrange(start as int, i as int),
        decreases n - i,
    {
        let ghost before = recent@;
        let e = game.history[i].clone();
        assert(e@ == strings(game.history@)[i as int]);
        recent.push(e);
        assert(strings(recent@) =~= strings(before).push(e@));
        assert(strings(recent@) =~= strings(game.history@).subrange(start as int, i + 1));
        i = i + 1;
    }
    assert(strings(game.history@).subrange(start as int, n as int) =~= strings(game.history@).skip(start as int));
    crate::text::join_strings(&recent, "  ")
}

/// The evaluation label: the analyst's score of the current position, or
/// `...` while it is being worked out.
pub fn eval_text(game: &Game) -> (s: String)
    requires
        game.evals@.contains_key(game.ply) ==> game.evals@[game.ply] != Score::Mate(i32::MIN),
    ensures
        s@ == (if game.evals@.contains_key(game.ply) {
            spec_score_label(game.evals@[game.ply])
        } else {
            "..."@
        }),
{
    match game.evals.get(&game.ply) {
        Some(score) => score.label(),
        None => String::from_str("..."),
    }
}

/// How a board tile is drawn.
#[derive(Debug, Clone, Copy, PartialEq, Eq, Structural)]
pub enum TileLook {
    /// The king of the side to move, in check.
    Check,
    /// The square of the piece picked up.
    Selected,
    /// Either end of the analyst's move, while the hint is shown.
    Hint,
    /// A target of the piece picked up that holds a piece.
    Capture,
    /// A target of the piece picked up that is empty.
    Move,
    Light,
    Dark,
}

/// Whether a square is a light one: a1 is dark.
pub open spec fn is_light(sq: crate::chess::Square) -> bool {
    (sq.spec_file() + sq.spec_rank()) % 2 == 1
}

pub fn tile_is_light(sq: crate::chess::Square) -> (b: bool)
    ensures
        b == is_light(sq),
{
    ((sq.file() + sq.rank()) % 2) == 1
}

/// The analyst's move, while the hint is shown and it reads as a move.
pub open spec fn hint_move(g: Game) -> Option<crate::chess::ChessMove> {
    if g.show_hint {
        match g.best_move {
            Some(b) => match crate::chess::spec_engine_move(g.pos@, b@) {
                Some(t) => crate::chess::parse_move_text(t),
                None => None,
            },
            None => None,
        }
    } else {
        None
    }
}

/// The square of the king in check, if the side to move is in check.
pub open spec fn checked_king(g: Game) -> Option<crate::chess::Square> {
    if crate::chess::spec_is_check(g.pos@) {
        g.pos.spec_king(g.pos.spec_turn())
    } else {
        None
    }
}

/// How the tile on `sq` is drawn: a king in check first, then the piece
/// picked up, the hint, the targets (captures apart), and the board colour.
pub open spec fn spec_tile_look(g: Game, sq: crate::chess::Square) -> TileLook {
    if checked_king(g) == Some(sq) {
        TileLook::Check
    } else if g.selected == Some(sq) {
        TileLook::Selected
    } else if hint_move(g) matches Some(m) && (m.from == sq || m.to == sq) {
        TileLook::Hint
    } else if exists|i: int| 0 <= i < g.targets@.len() && (#[trigger] g.targets@[i]).0 == sq {
        if g.pos.spec_piece_at(sq) is Some {
            TileLook::Capture
        } else {
            TileLook::Move
        }
    } else if is_light(sq) {
        TileLook::Light
    } else {
        TileLook::Dark
    }
}

pub fn tile_look(game: &Game, sq: crate::chess::Square) -> (t: TileLook)
    ensures
        t == spec_tile_look(*game, sq),
{
    let king = if game.pos.is_check() {
        game.pos.king_of(game.pos.turn())
    } else {
        None
    };
    if king == Some(sq) {
        return TileLook::Check;
    }
    if game.selected == Some(sq) {
        return TileLook::Selected;
    }
    let hint = if game.show_hint {
        match &game.best_move {
            Some(b) => game.parse_uci(b.as_str()),
            None => None,
        }
    } else {
        None
    };
    match hint {
        Some(m) => {
            if m.from == sq || m.to == sq {
                return TileLook::Hint;
            }
        },
        None => {},
    }
    let mut k: usize = 0;
    while k < game.targets.len()
        invariant
            k <= game.targets.len(),
            forall|i: int| 0 <= i < k ==> (#[trigger] game.targets@[i]).0 != sq,
            checked_king(*game) != Some(sq),
            game.selected != Some(sq),
            !(hint_move(*game) matches Some(m) && (m.from == sq || m.to == sq)),
        decreases game.targets.len() - k,
    {
        if game.targets[k].0 == sq {
            assert((game.targets@[k as int]).0 == sq);
            return if game.pos.piece_at(sq).is_some() {
                TileLook::Capture
            } else {
                TileLook::Move
            };
        }
        k = k + 1;
    }
    if tile_is_light(sq) {
        TileLook::Light
    } else {
        TileLook::Dark
    }
}

} // verus!
