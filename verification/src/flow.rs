//! The decisions of the app's frame loop: following the game through the
//! book, asking the engine for work, taking in its replies, and the keys.
//! The app performs the I/O they call for and hands the outcome back.
use vstd::prelude::*;
use crate::chess::{parse_move_text, spec_engine_move, Color};
use crate::engine::{EngineRequest, Score};
use crate::game::{played, taken_back, Game, Phase};
use crate::openings::{book_moves, is_ranking, sans, Book, RankedView, MAX_CONTINUATIONS};
use crate::text::strings;

verus! {

broadcast use vstd::std_specs::hash::group_hash_axioms;

/// The skill level the engine starts at.
pub const DEFAULT_SKILL: u32 = 5;

/// Stockfish's highest skill level.
pub const MAX_SKILL: u32 = 20;

/// The skill a setting asks for, defaulted and capped.
pub fn initial_skill(setting: Option<u32>) -> (s: u32)
    ensures
        s == (match setting {
            Some(v) => if v < MAX_SKILL {
                v
            } else {
                MAX_SKILL
            },
            None => DEFAULT_SKILL,
        }),
{
    let v = match setting {
        Some(v) => v,
        None => DEFAULT_SKILL,
    };
    if v < MAX_SKILL {
        v
    } else {
        MAX_SKILL
    }
}

/// The side the player takes: Black for `black` or `b`, White otherwise.
pub fn side_from(setting: Option<&str>) -> (c: Color)
    ensures
        c == (if setting matches Some(t) && (t@ == "black"@ || t@ == "b"@) {
            Color::Black
        } else {
            Color::White
        }),
{
    match setting {
        Some(t) => {
            let v = crate::text::chars_of(t);
            let black = crate::text::chars_of("black");
            let b = crate::text::chars_of("b");
            let is_black = v.len() == black.len() && crate::text::matches_at(v.as_slice(), 0, black.as_slice());
            let is_b = v.len() == b.len() && crate::text::matches_at(v.as_slice(), 0, b.as_slice());
            assert(v@.subrange(0, v@.len() as int) == v@);
            if is_black || is_b {
                Color::Black
            } else {
                Color::White
            }
        },
        None => Color::White,
    }
}

/// The game the app starts with. Without an engine, and not drilling, both
/// sides are moved by hand rather than leaving the board blocked; a drill
/// needs no engine, since the book plays the replies.
pub fn starting_game(player: Color, skill: u32, engine_available: bool, drilling: bool) -> (g: Game)
    ensures
        g.pos@ == crate::chess::start_fen(),
        g.player == player,
        g.skill == skill,
        g.ply == 0,
        g.free_play == (!engine_available && !drilling),
        g.phase == (if g.free_play || player == Color::White {
            Phase::PlayerTurn
        } else {
            Phase::EngineThinking
        }),
        g.reviews@.len() == 0,
        g.history@.len() == 0,
        g.spec_snapshots().len() == 0,
        g.wf(),
{
    let mut g = Game::new(player, skill);
    if !engine_available && !drilling {
        g.free_play = true;
        g.phase = Phase::PlayerTurn;
    }
    g
}

/// The game as its opening panel sees it.
pub open spec fn opening_view(g: Game) -> Option<crate::openings::OpeningView> {
    match g.opening {
        Some(o) => Some(o@),
        None => None,
    }
}

/// Follow the game through the opening book: name the line while it lasts,
/// and record where it ended. Nothing is touched until the position
/// actually moves, which `last_seen` (the key of the position last looked
/// at) tells.
pub fn track_opening(game: &mut Game, book: &Book, last_seen: &mut u64)
    ensures
        ({
            let g0 = *old(game);
            let g1 = *final(game);
            let key = crate::chess::spec_zobrist(g0.pos@);
            let idle = book@.openings.len() == 0 || *old(last_seen) == key;
            let in_book = book@.through.contains_key(key);
            &&& idle ==> g1 == g0 && *final(last_seen) == *old(last_seen)
            &&& !idle ==> *final(last_seen) == key
            &&& !idle && in_book ==> {
                &&& g1.book_plies@ == g0.book_plies@.insert(g0.ply)
                &&& opening_view(g1) == (if book@.endings.contains_key(key) && book@.endings[key]
                    < book@.openings.len() {
                    Some(book@.openings[book@.endings[key] as int])
                } else {
                    opening_view(g0)
                })
                &&& g1 == (Game { book_plies: g1.book_plies, opening: g1.opening, ..g0 })
            }
            &&& !idle && !in_book && g0.left_book_at is Some ==> g1 == g0
            &&& !idle && !in_book && g0.left_book_at is None ==> {
                &&& g1.left_book_at == Some(g0.pos.spec_fullmoves() as u32)
                &&& g0.spec_snapshots().len() == 0 ==> g1.book_alternatives@.len() == 0
                &&& g0.spec_snapshots().len() > 0 ==> exists|rk: Seq<RankedView>|
                    is_ranking(rk, book_moves(book@, g0.spec_snapshots().last(), None))
                        && strings(g1.book_alternatives@) == sans(
                        rk.take(
                            if rk.len() < MAX_CONTINUATIONS {
                                rk.len() as int
                            } else {
                                MAX_CONTINUATIONS as int
                            },
                        ),
                    )
                &&& g1 == (Game {
                    left_book_at: g1.left_book_at,
                    book_alternatives: g1.book_alternatives,
                    ..g0
                })
            }
        }),
{
    if book.is_empty() {
        return;
    }
    let key = book.position_key(&game.pos);
    if *last_seen == key {
        return;
    }
    *last_seen = key;
    if book.contains(&game.pos) {
        let ply = game.ply;
        game.book_plies.insert(ply);
        match book.name(&game.pos) {
            Some(o) => {
                game.opening = Some(o.duplicate());
            },
            None => {},
        }
        return;
    }
    if game.left_book_at.is_none() {
        let alternatives = match game.previous_position() {
            Some(prev) => book.continuations(prev),
            None => Vec::new(),
        };
        game.left_book_at = Some(game.pos.fullmoves());
        game.book_alternatives = alternatives;
    }
}

/// Which engine requests have been made for which ply, so that each is made
/// once.
pub struct EngineSync {
    pub analyse_requested: Option<u32>,
    pub move_requested: Option<u32>,
}

impl EngineSync {
    pub fn new() -> (s: EngineSync)
        ensures
            s.analyse_requested is None,
            s.move_requested is None,
    {
        EngineSync { analyse_requested: None, move_requested: None }
    }
}

/// Ask the engine for what the current ply still needs: the analyst's
/// evaluation always, and the opponent's move when it is the engine's turn
/// and not drilling (a drill's replies come from the book). Nothing while no
/// engine is available or once the game is over.
pub fn drive_engine(game: &Game, engine_available: bool, sync: &mut EngineSync, drilling: bool) -> (r: Vec<EngineRequest>)
    ensures
        ({
            let live = engine_available && game.phase != Phase::GameOver;
            let analyse = live && old(sync).analyse_requested != Some(game.ply);
            let play = live && !drilling && game.phase == Phase::EngineThinking
                && old(sync).move_requested != Some(game.ply);
            &&& r@.len() == (if analyse {
                1int
            } else {
                0int
            }) + (if play {
                1int
            } else {
                0int
            })
            &&& analyse ==> (r@[0] matches EngineRequest::Analyse { fen, ply } && fen@ == game.pos@
                && ply == game.ply)
            &&& play ==> (r@[r@.len() - 1] matches EngineRequest::PlayMove { fen, ply } && fen@
                == game.pos@ && ply == game.ply)
            &&& final(sync).analyse_requested == (if live {
                Some(game.ply)
            } else {
                old(sync).analyse_requested
            })
            &&& final(sync).move_requested == (if play {
                Some(game.ply)
            } else {
                old(sync).move_requested
            })
        }),
{
    let mut out: Vec<EngineRequest> = Vec::new();
    if !engine_available || game.phase == Phase::GameOver {
        return out;
    }
    let ply = game.ply;
    if sync.analyse_requested != Some(ply) {
        sync.analyse_requested = Some(ply);
        out.push(EngineRequest::Analyse { fen: game.fen(), ply });
    }
    if drilling {
        return out;
    }
    if game.phase == Phase::EngineThinking && sync.move_requested != Some(ply) {
        sync.move_requested = Some(ply);
        out.push(EngineRequest::PlayMove { fen: game.fen(), ply });
    }
    out
}

/// Take in the analyst's evaluation of `ply`. When it is the current ply
/// the analyst's move becomes the hint; the result says whether the move
/// that made it is now due a grade (it is the player's, or any move in free
/// play), which the caller then gives with `Game::grade`.
pub fn record_analysis(game: &mut Game, ply: u32, score: Score, best_move: String) -> (grade_due: bool)
    ensures
        final(game).evals@ == old(game).evals@.insert(ply, score),
        final(game).best_moves@.dom() == old(game).best_moves@.dom().insert(ply),
        final(game).best_moves@[ply]@ == best_move@,
        forall|p: u32| #![trigger final(game).best_moves@[p]] p != ply && old(game).best_moves@.contains_key(p)
            ==> final(game).best_moves@[p] == old(game).best_moves@[p],
        ply == old(game).ply ==> (final(game).best_move matches Some(b) && b@ == best_move@),
        ply != old(game).ply ==> final(game).best_move == old(game).best_move,
        grade_due == (ply == old(game).ply && ply > 0 && (old(game).free_play
            || old(game).pos.spec_turn().spec_other() == old(game).player)),
        *final(game) == (Game {
            evals: final(game).evals,
            best_moves: final(game).best_moves,
            best_move: final(game).best_move,
            ..*old(game)
        }),
{
    game.evals.insert(ply, score);
    let b2 = best_move.clone();
    game.best_moves.insert(ply, b2);
    if ply == game.ply {
        game.best_move = Some(best_move);
        let mover = game.pos.turn().other();
        ply > 0 && (game.free_play || mover == game.player)
    } else {
        false
    }
}

/// What became of an opponent move the engine sent.
#[derive(Debug, Clone, Copy, PartialEq, Eq, Structural)]
pub enum OpponentOutcome {
    /// It was for an earlier ply, or it is no longer the engine's turn.
    Stale,
    Played,
    /// It named no legal move; the turn passes to the player.
    Unplayable,
}

/// Take in the opponent's move for `ply`.
pub fn opponent_moved(game: &mut Game, ply: u32, uci: &str) -> (r: OpponentOutcome)
    requires
        old(game).ply < u32::MAX,
    ensures
        ({
            let g0 = *old(game);
            let stale = ply != g0.ply || g0.phase != Phase::EngineThinking;
            let m = match spec_engine_move(g0.pos@, uci@) {
                Some(t) => parse_move_text(t),
                None => None,
            };
            &&& stale ==> r == OpponentOutcome::Stale && *final(game) == g0
            &&& !stale && m is Some ==> r == OpponentOutcome::Played && played(
                g0,
                m->0,
                *final(game),
            )
            &&& !stale && m is None ==> r == OpponentOutcome::Unplayable && *final(game) == (Game {
                phase: Phase::PlayerTurn,
                ..g0
            })
        }),
{
    if ply != game.ply || game.phase != Phase::EngineThinking {
        return OpponentOutcome::Stale;
    }
    match game.parse_uci(uci) {
        Some(m) => {
            game.apply(m);
            OpponentOutcome::Played
        },
        None => {
            game.phase = Phase::PlayerTurn;
            OpponentOutcome::Unplayable
        },
    }
}

/// The engine has gone: both sides are moved by hand from now on.
pub fn engine_lost(game: &mut Game)
    ensures
        *final(game) == (Game { free_play: true, phase: Phase::PlayerTurn, ..*old(game) }),
{
    game.free_play = true;
    game.phase = Phase::PlayerTurn;
}

/// The keys pressed this frame.
#[derive(Debug, Clone, Copy, PartialEq, Eq, Structural)]
pub struct Keys {
    pub hint: bool,
    pub summary: bool,
    pub takeback: bool,
    pub new_game: bool,
    pub stronger: bool,
    pub weaker: bool,
}

/// What the keys ask of the app beyond the game itself.
#[derive(Debug, Clone, Copy, PartialEq, Eq, Structural)]
pub struct KeyOutcome {
    /// Restart the drill (a new game while drilling).
    pub reset_drill: bool,
    /// Tell the engine its new strength.
    pub new_skill: Option<u32>,
}

/// The skill after the strength keys: one up (to at most 20), one down (to
/// at least 0), both in that order.
pub open spec fn adjusted_skill(skill: u32, stronger: bool, weaker: bool) -> u32 {
    let up = if stronger {
        if skill + 1 < MAX_SKILL {
            (skill + 1) as u32
        } else {
            MAX_SKILL
        }
    } else {
        skill
    };
    if weaker {
        if up > 0 {
            (up - 1) as u32
        } else {
            0
        }
    } else {
        up
    }
}

/// The keys: `H` toggles the hint, `S` the accuracy panel, `U` takes back
/// (refused while drilling: the drill owns the board and does its own
/// retries), `N` starts a new game with the same side, strength and mode,
/// `]` and `[` change the engine's strength.
pub fn keyboard(game: &mut Game, sync: &mut EngineSync, keys: Keys, drilling: bool) -> (r: KeyOutcome)
    requires
        old(game).wf(),
        old(game).skill < u32::MAX,
    ensures
        final(game).wf(),
        r.reset_drill == (keys.new_game && drilling),
        ({
            let g0 = *old(game);
            let skill = adjusted_skill(g0.skill, keys.stronger, keys.weaker);
            &&& final(game).skill == skill
            &&& r.new_skill == (if skill != g0.skill {
                Some(skill)
            } else {
                None
            })
            &&& final(game).player == g0.player
            &&& final(game).free_play == g0.free_play
            &&& keys.new_game ==> {
                &&& final(game).pos@ == crate::chess::start_fen()
                &&& final(game).ply == 0
                &&& final(game).history@.len() == 0
                &&& final(game).reviews@.len() == 0
                &&& final(game).spec_snapshots().len() == 0
                &&& final(game).selected is None
                &&& final(game).targets@.len() == 0
                &&& final(game).evals@.len() == 0
                &&& final(game).best_moves@.len() == 0
                &&& final(game).best_move is None
                &&& final(game).last_grade is None
                &&& !final(game).show_hint
                &&& !final(game).show_summary
                &&& final(game).result_text is None
                &&& final(game).opening is None
                &&& final(game).book_plies@.len() == 0
                &&& final(game).left_book_at is None
                &&& final(game).book_alternatives@.len() == 0
                &&& final(game).phase == (if g0.free_play || g0.player == Color::White {
                    Phase::PlayerTurn
                } else {
                    Phase::EngineThinking
                })
                &&& final(sync).analyse_requested is None && final(sync).move_requested is None
            }
            &&& !keys.new_game ==> {
                let g1 = Game {
                    show_hint: g0.show_hint != keys.hint,
                    show_summary: g0.show_summary != keys.summary,
                    ..g0
                };
                &&& (keys.takeback && !drilling) ==> taken_back(g1, Game { skill: g1.skill, ..*final(game) })
                    && final(sync).analyse_requested is None && final(sync).move_requested is None
                &&& !(keys.takeback && !drilling) ==> *final(game) == Game { skill, ..g1 }
                    && final(sync).analyse_requested == old(sync).analyse_requested
                    && final(sync).move_requested == old(sync).move_requested
            }
        }),
{
    if keys.hint {
        game.show_hint = !game.show_hint;
    }
    if keys.summary {
        game.show_summary = !game.show_summary;
    }
    if keys.takeback && !drilling {
        game.undo();
        *sync = EngineSync::new();
    }
    let mut reset_drill = false;
    if keys.new_game {
        let player = game.player;
        let skill = game.skill;
        let free_play = game.free_play;
        let mut fresh = Game::new(player, skill);
        fresh.free_play = free_play;
        if free_play {
            fresh.phase = Phase::PlayerTurn;
        }
        *game = fresh;
        *sync = EngineSync::new();
        reset_drill = drilling;
    }
    let mut skill = game.skill;
    if keys.stronger {
        skill = if skill + 1 < MAX_SKILL {
            skill + 1
        } else {
            MAX_SKILL
        };
    }
    if keys.weaker {
        skill = if skill > 0 {
            skill - 1
        } else {
            0
        };
    }
    let mut new_skill = None;
    if skill != game.skill {
        game.skill = skill;
        new_skill = Some(skill);
    }
    KeyOutcome { reset_drill, new_skill }
}

/// A click on the board: with a piece picked up, a click on one of its
/// targets plays the move; a click on the picked-up piece puts it back; any
/// other click picks up what is there (or nothing). Clicks count only on
/// the player's turn.
pub fn on_click(game: &mut Game, sq: crate::chess::Square)
    requires
        old(game).ply < u32::MAX,
    ensures
        ({
            let g0 = *old(game);
            let g1 = *final(game);
            let allowed = g0.phase == Phase::PlayerTurn && g0.spec_is_player_turn();
            let m = crate::game::move_for_click(g0.targets@, sq);
            let movable = match g0.pos.spec_piece_at(sq) {
                Some(p) => p.color == g0.spec_movable_color(),
                None => false,
            };
            &&& !allowed ==> g1 == g0
            &&& allowed && g0.selected is Some && m is Some ==> played(g0, m->0, g1)
            &&& allowed && !(g0.selected is Some && m is Some) ==> {
                &&& g1 == (Game { selected: g1.selected, targets: g1.targets, ..g0 })
                &&& g0.selected == Some(sq) ==> g1.selected is None && g1.targets@.len() == 0
                &&& g0.selected != Some(sq) && movable ==> g1.selected == Some(sq)
                    && g1.targets@ == crate::game::targets_from(
                    crate::chess::moves_of(crate::chess::spec_legal_moves(g0.pos@)),
                    sq,
                )
                &&& g0.selected != Some(sq) && !movable ==> g1.selected is None
                    && g1.targets@.len() == 0
            }
        }),
{
    if game.phase != Phase::PlayerTurn || !game.is_player_turn() {
        return;
    }
    if game.selected.is_some() {
        match game.move_to(sq) {
            Some(m) => {
                game.apply(m);
                return;
            },
            None => {},
        }
    }
    if game.selected == Some(sq) {
        game.clear_selection();
    } else {
        game.select(sq);
    }
}

} // verus!
