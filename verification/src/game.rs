//! The game being played: rules through the chess module, move grading,
//! takebacks.
use vstd::prelude::*;
use std::collections::{HashMap, HashSet};
use crate::chess::{
    fens, move_text, moves_of, parse_move_text, spec_engine_move, spec_is_checkmate,
    spec_is_game_over, spec_is_stalemate, spec_legal_moves, spec_play, spec_san, ChessMove, Color,
    Position, Role, Square,
};
use crate::engine::{spec_to_cp, Score};
use crate::openings::Opening;
use crate::review::{
    classify, overall_accuracy, review_views, stage_of, stages, summarise, summary_of, mean_accuracy,
    stats_views, MoveReview, ReviewView, StageStats,
};
use crate::text::{chars_of, decimal, ends_with, push_all, push_decimal, push_str, string_of, strings, text_ends_with};

verus! {

#[derive(Debug, Clone, Copy, PartialEq, Eq, Structural)]
pub enum Phase {
    PlayerTurn,
    EngineThinking,
    GameOver,
}

/// The verdict on one move.
#[derive(Debug, Clone, Copy, PartialEq, Eq, Structural)]
pub enum Quality {
    /// Theory: the move is in the opening book. Book lines routinely "lose"
    /// a few centipawns to a depth-14 search, and calling the Najdorf an
    /// inaccuracy would teach the opposite of what a trainer should.
    Book,
    Best,
    Good,
    Inaccuracy,
    Mistake,
    Blunder,
}

/// The verdict for a move that gave away `loss_cp` centipawns.
pub open spec fn quality_for_loss(loss_cp: int) -> Quality {
    if loss_cp <= 10 {
        Quality::Best
    } else if loss_cp <= 40 {
        Quality::Good
    } else if loss_cp <= 90 {
        Quality::Inaccuracy
    } else if loss_cp <= 200 {
        Quality::Mistake
    } else {
        Quality::Blunder
    }
}

pub open spec fn quality_label(q: Quality) -> Seq<char> {
    match q {
        Quality::Book => "Theory"@,
        Quality::Best => "Best move"@,
        Quality::Good => "Good move"@,
        Quality::Inaccuracy => "Inaccuracy"@,
        Quality::Mistake => "Mistake"@,
        Quality::Blunder => "Blunder"@,
    }
}

impl Quality {
    pub fn from_loss(loss_cp: i32) -> (q: Quality)
        ensures
            q == quality_for_loss(loss_cp as int),
    {
        if loss_cp <= 10 {
            Quality::Best
        } else if loss_cp <= 40 {
            Quality::Good
        } else if loss_cp <= 90 {
            Quality::Inaccuracy
        } else if loss_cp <= 200 {
            Quality::Mistake
        } else {
            Quality::Blunder
        }
    }

    pub fn label(self) -> (s: &'static str)
        ensures
            s@ == quality_label(self),
    {
        match self {
            Quality::Book => "Theory",
            Quality::Best => "Best move",
            Quality::Good => "Good move",
            Quality::Inaccuracy => "Inaccuracy",
            Quality::Mistake => "Mistake",
            Quality::Blunder => "Blunder",
        }
    }
}


broadcast use vstd::std_specs::hash::group_hash_axioms;

/// The verdict on a graded move, as the feedback panel shows it.
#[derive(Debug, Clone)]
pub struct Grade {
    pub quality: Quality,
    pub loss_cp: i32,
    pub played_san: String,
    pub better_san: Option<String>,
}

pub struct GradeView {
    pub quality: Quality,
    pub loss_cp: i32,
    pub played_san: Seq<char>,
    pub better_san: Option<Seq<char>>,
}

impl View for Grade {
    type V = GradeView;

    open spec fn view(&self) -> GradeView {
        GradeView {
            quality: self.quality,
            loss_cp: self.loss_cp,
            played_san: self.played_san@,
            better_san: match self.better_san {
                Some(b) => Some(b@),
                None => None,
            },
        }
    }
}

pub struct Game {
    pub pos: Position,
    pub player: Color,
    pub ply: u32,
    pub phase: Phase,
    pub selected: Option<Square>,
    pub targets: Vec<(Square, ChessMove)>,
    pub evals: HashMap<u32, Score>,
    pub best_moves: HashMap<u32, String>,
    pub best_move: Option<String>,
    pub free_play: bool,
    pub last_grade: Option<Grade>,
    pub show_hint: bool,
    pub history: Vec<String>,
    pub skill: u32,
    pub result_text: Option<String>,
    /// Every graded player move, for the per-stage accuracy breakdown.
    pub reviews: Vec<MoveReview>,
    pub show_summary: bool,
    /// The most specific named opening reached so far.
    pub opening: Option<Opening>,
    /// Plies whose resulting position was still in known theory.
    pub book_plies: HashSet<u32>,
    /// Fullmove number at which the game left theory, once it has.
    pub left_book_at: Option<u32>,
    /// What would have stayed in theory at that point, in SAN.
    pub book_alternatives: Vec<String>,
    /// The positions before each move, for takebacks.
    pub snapshots: Vec<Position>,
}

/// The reviews are in strictly increasing order of ply: one per ply.
pub open spec fn reviews_ordered(rs: Seq<ReviewView>) -> bool {
    forall|i: int, j: int| 0 <= i < j < rs.len() ==> rs[i].ply < rs[j].ply
}

/// The phase for a position in which `turn` is to move.
pub open spec fn phase_for_turn(turn: Color, player: Color) -> Phase {
    if turn == player {
        Phase::PlayerTurn
    } else {
        Phase::EngineThinking
    }
}

/// The targets a piece on `sq` has among `moves`: each move from `sq`,
/// paired with the square it goes to.
pub open spec fn targets_from(moves: Seq<ChessMove>, sq: Square) -> Seq<(Square, ChessMove)>
    decreases moves.len(),
{
    if moves.len() == 0 {
        seq![]
    } else {
        let before = targets_from(moves.drop_last(), sq);
        let m = moves.last();
        if m.from == sq {
            before.push((m.to, m))
        } else {
            before
        }
    }
}

/// The first index `k..` of `ts` whose square is `to` (and, when `queen` is
/// set, whose promotion is a queen).
pub open spec fn first_target(ts: Seq<(Square, ChessMove)>, to: Square, queen: bool, k: int) -> Option<int>
    decreases ts.len() - k,
{
    if k < 0 || k >= ts.len() {
        None
    } else if ts[k].0 == to && (!queen || ts[k].1.promotion == Some(Role::Queen)) {
        Some(k)
    } else {
        first_target(ts, to, queen, k + 1)
    }
}

/// The move a click on `to` makes: the first target there, except that a
/// promotion becomes a queen when a queen promotion is on offer.
pub open spec fn move_for_click(ts: Seq<(Square, ChessMove)>, to: Square) -> Option<ChessMove> {
    match first_target(ts, to, false, 0) {
        Some(i) => if ts[i].1.promotion is Some {
            match first_target(ts, to, true, 0) {
                Some(j) => Some(ts[j].1),
                None => Some(ts[i].1),
            }
        } else {
            Some(ts[i].1)
        },
        None => None,
    }
}

/// The move-list entry for a move made in `fen`: White's moves carry the move
/// number.
pub open spec fn history_entry(fen: Seq<char>, san: Seq<char>) -> Seq<char> {
    if crate::chess::fen_turn(fen) == Color::White {
        decimal(crate::chess::fen_fullmoves(fen) as nat) + ". "@ + san
    } else {
        san
    }
}

/// The result line of a finished game.
pub open spec fn outcome_text(fen: Seq<char>, player: Color) -> Seq<char> {
    if spec_is_checkmate(fen) {
        if crate::chess::fen_turn(fen).spec_other() == player {
            "Checkmate - You win"@
        } else {
            "Checkmate - Stockfish wins"@
        }
    } else if spec_is_stalemate(fen) {
        "Draw by stalemate"@
    } else {
        "Draw"@
    }
}

/// In a checkmate the side to move is the one mated: when that is the player
/// the engine has won, and when it is the engine the player has. A game that
/// ends without a mate is a draw, by stalemate where the side to move has no
/// move and is not in check.
pub proof fn law_the_side_to_move_is_mated(fen: Seq<char>, player: Color)
    ensures
        spec_is_checkmate(fen) && crate::chess::fen_turn(fen) == player ==> outcome_text(fen, player)
            == "Checkmate - Stockfish wins"@,
        spec_is_checkmate(fen) && crate::chess::fen_turn(fen) != player ==> outcome_text(fen, player)
            == "Checkmate - You win"@,
        !spec_is_checkmate(fen) && spec_is_stalemate(fen) ==> outcome_text(fen, player)
            == "Draw by stalemate"@,
        !spec_is_checkmate(fen) && !spec_is_stalemate(fen) ==> outcome_text(fen, player) == "Draw"@,
{
    let turn = crate::chess::fen_turn(fen);
    assert(turn != player ==> turn.spec_other() == player) by {
        match turn {
            Color::White => {},
            Color::Black => {},
        }
        match player {
            Color::White => {},
            Color::Black => {},
        }
    }
}

/// How many positions a takeback pops: back to the most recent one in which
/// `player` was to move, or all of them.
pub open spec fn takeback_depth(snaps: Seq<Seq<char>>, player: Color) -> nat
    decreases snaps.len(),
{
    if snaps.len() == 0 {
        0
    } else if crate::chess::fen_turn(snaps.last()) == player {
        1
    } else {
        1 + takeback_depth(snaps.drop_last(), player)
    }
}

proof fn lemma_takeback_depth(snaps: Seq<Seq<char>>, player: Color)
    ensures
        takeback_depth(snaps, player) <= snaps.len(),
        snaps.len() > 0 ==> takeback_depth(snaps, player) >= 1,
    decreases snaps.len(),
{
    if snaps.len() > 0 {
        lemma_takeback_depth(snaps.drop_last(), player);
    }
}

/// `reviews` with the review for `ply` replaced by (or joined by) `r`, kept
/// in order of ply.
pub open spec fn with_review(rs: Seq<ReviewView>, r: ReviewView) -> Seq<ReviewView> {
    rs.filter(|x: ReviewView| x.ply < r.ply) + seq![r] + rs.filter(|x: ReviewView| x.ply > r.ply)
}

impl Game {
    pub open spec fn wf(&self) -> bool {
        reviews_ordered(review_views(self.reviews@))
    }

    pub open spec fn spec_snapshots(&self) -> Seq<Seq<char>> {
        fens(self.snapshots@)
    }

    pub fn new(player: Color, skill: u32) -> (g: Game)
        ensures
            g.pos@ == crate::chess::start_fen(),
            g.player == player,
            g.ply == 0,
            g.phase == (if player == Color::White {
                Phase::PlayerTurn
            } else {
                Phase::EngineThinking
            }),
            g.selected is None,
            g.targets@.len() == 0,
            g.evals@ == Map::<u32, Score>::empty(),
            g.best_moves@ == Map::<u32, String>::empty(),
            g.best_move is None,
            !g.free_play,
            g.last_grade is None,
            !g.show_hint,
            g.history@.len() == 0,
            g.skill == skill,
            g.result_text is None,
            g.reviews@.len() == 0,
            !g.show_summary,
            g.opening is None,
            g.book_plies@ == Set::<u32>::empty(),
            g.left_book_at is None,
            g.book_alternatives@.len() == 0,
            g.spec_snapshots().len() == 0,
            g.wf(),
    {
        let phase = if player == Color::White {
            Phase::PlayerTurn
        } else {
            Phase::EngineThinking
        };
        let g = Game {
            pos: Position::initial(),
            player,
            ply: 0,
            phase,
            selected: None,
            targets: Vec::new(),
            evals: HashMap::new(),
            best_moves: HashMap::new(),
            best_move: None,
            free_play: false,
            last_grade: None,
            show_hint: false,
            history: Vec::new(),
            skill,
            result_text: None,
            reviews: Vec::new(),
            show_summary: false,
            opening: None,
            book_plies: HashSet::new(),
            left_book_at: None,
            book_alternatives: Vec::new(),
            snapshots: Vec::new(),
        };
        assert(g.spec_snapshots() =~= Seq::<Seq<char>>::empty());
        g
    }

    /// The position before the most recent move.
    /// Whether the reviews are in strictly increasing order of ply, as every
    /// operation of the game keeps them.
    pub fn reviews_in_order(&self) -> (b: bool)
        ensures
            b == self.wf(),
    {
        let ghost v = review_views(self.reviews@);
        let mut i: usize = 1;
        while i < self.reviews.len()
            invariant
                1 <= i,
                v == review_views(self.reviews@),
                i <= self.reviews.len() || self.reviews.len() == 0,
                forall|a: int, b: int| 0 <= a < b < i && b < v.len() ==> v[a].ply < v[b].ply,
            decreases self.reviews.len() - i,
        {
            if self.reviews[i - 1].ply >= self.reviews[i].ply {
                assert(v[i - 1].ply >= v[i as int].ply);
                return false;
            }
            assert forall|a: int, b: int| 0 <= a < b < i + 1 && b < v.len() implies v[a].ply < v[b].ply by {
                if b == i {
                    if a < i - 1 {
                        assert(v[a].ply < v[i - 1].ply);
                    }
                }
            }
            i = i + 1;
        }
        true
    }

    pub fn previous_position(&self) -> (p: Option<&Position>)
        ensures
            p matches Some(q) ==> self.spec_snapshots().len() > 0 && q@
                == self.spec_snapshots().last(),
            p is None ==> self.spec_snapshots().len() == 0,
    {
        if self.snapshots.len() == 0 {
            None
        } else {
            Some(&self.snapshots[self.snapshots.len() - 1])
        }
    }

    pub fn fen(&self) -> (s: String)
        ensures
            s@ == self.pos@,
    {
        self.pos.fen()
    }

    pub open spec fn spec_movable_color(&self) -> Color {
        if self.free_play {
            self.pos.spec_turn()
        } else {
            self.player
        }
    }

    /// The colour whose pieces may be picked up: the side to move in free
    /// play, otherwise the player's.
    pub fn movable_color(&self) -> (c: Color)
        ensures
            c == self.spec_movable_color(),
    {
        if self.free_play {
            self.pos.turn()
        } else {
            self.player
        }
    }

    pub open spec fn spec_is_player_turn(&self) -> bool {
        self.phase != Phase::GameOver && (self.free_play || (self.pos.spec_turn() == self.player
            && self.phase == Phase::PlayerTurn))
    }

    pub fn is_player_turn(&self) -> (b: bool)
        ensures
            b == self.spec_is_player_turn(),
    {
        if self.phase == Phase::GameOver {
            return false;
        }
        self.free_play || (self.pos.turn() == self.player && self.phase == Phase::PlayerTurn)
    }

    /// Put the picked-up piece back.
    pub fn clear_selection(&mut self)
        ensures
            final(self).selected is None,
            final(self).targets@.len() == 0,
            *final(self) == (Game {
                selected: final(self).selected,
                targets: final(self).targets,
                ..*old(self)
            }),
    {
        self.selected = None;
        self.targets.clear();
    }

    /// Pick up the piece on `sq`, offering the squares it can move to; a
    /// square without a piece that may move clears the selection instead.
    pub fn select(&mut self, sq: Square)
        ensures
            (match old(self).pos.spec_piece_at(sq) {
                Some(p) => p.color == old(self).spec_movable_color(),
                None => false,
            }) ==> {
                &&& final(self).selected == Some(sq)
                &&& final(self).targets@ == targets_from(moves_of(spec_legal_moves(old(self).pos@)), sq)
            },
            !(match old(self).pos.spec_piece_at(sq) {
                Some(p) => p.color == old(self).spec_movable_color(),
                None => false,
            }) ==> final(self).selected is None && final(self).targets@.len() == 0,
            *final(self) == (Game {
                selected: final(self).selected,
                targets: final(self).targets,
                ..*old(self)
            }),
    {
        let piece = self.pos.piece_at(sq);
        let movable = self.movable_color();
        match piece {
            None => {
                self.clear_selection();
                return;
            },
            Some(p) => {
                if p.color != movable {
                    self.clear_selection();
                    return;
                }
            },
        }
        let moves = self.pos.legal_moves();
        let mut targets: Vec<(Square, ChessMove)> = Vec::new();
        let mut i: usize = 0;
        while i < moves.len()
            invariant
                i <= moves.len(),
                targets@ == targets_from(moves@.take(i as int), sq),
            decreases moves.len() - i,
        {
            assert(moves@.take(i + 1).drop_last() == moves@.take(i as int));
            assert(moves@.take(i + 1).last() == moves@[i as int]);
            let m = moves[i];
            if m.from == sq {
                targets.push((m.to, m));
            }
            i = i + 1;
        }
        assert(moves@.take(moves.len() as int) == moves@);
        self.targets = targets;
        self.selected = Some(sq);
    }

    fn find_target(&self, to: Square, queen: bool) -> (r: Option<usize>)
        ensures
            r matches Some(i) ==> first_target(self.targets@, to, queen, 0) == Some(i as int)
                && i < self.targets@.len(),
            r is None ==> first_target(self.targets@, to, queen, 0) is None,
    {
        let mut k: usize = 0;
        while k < self.targets.len()
            invariant
                k <= self.targets.len(),
                first_target(self.targets@, to, queen, 0) == first_target(
                    self.targets@,
                    to,
                    queen,
                    k as int,
                ),
            decreases self.targets.len() - k,
        {
            let t = self.targets[k];
            if t.0 == to && (!queen || t.1.promotion == Some(Role::Queen)) {
                return Some(k);
            }
            k = k + 1;
        }
        None
    }

    /// The move a click on `to` makes with the piece picked up.
    pub fn move_to(&self, to: Square) -> (m: Option<ChessMove>)
        ensures
            m == move_for_click(self.targets@, to),
    {
        let first = match self.find_target(to, false) {
            Some(i) => i,
            None => return None,
        };
        if self.targets[first].1.promotion.is_some() {
            match self.find_target(to, true) {
                Some(j) => Some(self.targets[j].1),
                None => Some(self.targets[first].1),
            }
        } else {
            Some(self.targets[first].1)
        }
    }

    fn describe_outcome(&self) -> (s: String)
        ensures
            s@ == outcome_text(self.pos@, self.player),
    {
        if self.pos.is_checkmate() {
            let winner = self.pos.turn().other();
            if winner == self.player {
                String::from_str("Checkmate - You win")
            } else {
                String::from_str("Checkmate - Stockfish wins")
            }
        } else if self.pos.is_stalemate() {
            String::from_str("Draw by stalemate")
        } else {
            String::from_str("Draw")
        }
    }

    /// The engine's move text read as a legal move of the current position.
    pub fn parse_uci(&self, uci: &str) -> (m: Option<ChessMove>)
        ensures
            m == (match spec_engine_move(self.pos@, uci@) {
                Some(t) => parse_move_text(t),
                None => None,
            }),
    {
        let t = chars_of(uci);
        self.pos.engine_move(t.as_slice())
    }
}


proof fn lemma_filter_within(s: Seq<ReviewView>, p: spec_fn(ReviewView) -> bool, q: spec_fn(ReviewView) -> bool)
    requires
        forall|x: ReviewView| #[trigger] p(x) ==> q(x),
    ensures
        s.filter(p).filter(q) == s.filter(p),
    decreases s.len(),
{
    reveal_with_fuel(Seq::<ReviewView>::filter, 1);
    if s.len() > 0 {
        lemma_filter_within(s.drop_last(), p, q);
        let f = s.drop_last().filter(p);
        if p(s.last()) {
            assert(s.filter(p) == f.push(s.last()));
            assert(f.push(s.last()).drop_last() == f);
        }
    }
}

proof fn lemma_filter_apart(s: Seq<ReviewView>, p: spec_fn(ReviewView) -> bool, q: spec_fn(ReviewView) -> bool)
    requires
        forall|x: ReviewView| #[trigger] p(x) ==> !q(x),
    ensures
        s.filter(p).filter(q).len() == 0,
    decreases s.len(),
{
    reveal_with_fuel(Seq::<ReviewView>::filter, 1);
    if s.len() > 0 {
        lemma_filter_apart(s.drop_last(), p, q);
        let f = s.drop_last().filter(p);
        if p(s.last()) {
            assert(s.filter(p) == f.push(s.last()));
            assert(f.push(s.last()).drop_last() == f);
        }
    }
}

proof fn lemma_filter_one(r: ReviewView, q: spec_fn(ReviewView) -> bool)
    ensures
        seq![r].filter(q) == (if q(r) {
            seq![r]
        } else {
            Seq::<ReviewView>::empty()
        }),
{
    reveal_with_fuel(Seq::<ReviewView>::filter, 2);
    assert(seq![r].drop_last() =~= Seq::<ReviewView>::empty());
}

/// The reviews of `with_review(rs, r)` that a test picks: those of `rs`
/// below the ply that it picks, `r` if it picks it, and those of `rs` above.
proof fn lemma_with_review_filter(rs: Seq<ReviewView>, r: ReviewView, q: spec_fn(ReviewView) -> bool)
    ensures
        with_review(rs, r).filter(q) == rs.filter(|x: ReviewView| x.ply < r.ply).filter(q) + (if q(r) {
            seq![r]
        } else {
            Seq::<ReviewView>::empty()
        }) + rs.filter(|x: ReviewView| x.ply > r.ply).filter(q),
{
    let lo = rs.filter(|x: ReviewView| x.ply < r.ply);
    let hi = rs.filter(|x: ReviewView| x.ply > r.ply);
    Seq::filter_distributes_over_add(lo + seq![r], hi, q);
    Seq::filter_distributes_over_add(lo, seq![r], q);
    lemma_filter_one(r, q);
}

/// Grading a ply again replaces its review rather than adding a second:
/// filing `r2` where `r1` was filed for the same ply gives what filing `r2`
/// alone gives.
pub proof fn law_regrading_replaces(rs: Seq<ReviewView>, r1: ReviewView, r2: ReviewView)
    requires
        r1.ply == r2.ply,
    ensures
        with_review(with_review(rs, r1), r2) == with_review(rs, r2),
{
    let lt = |x: ReviewView| x.ply < r1.ply;
    let gt = |x: ReviewView| x.ply > r1.ply;
    lemma_with_review_filter(rs, r1, lt);
    lemma_with_review_filter(rs, r1, gt);
    lemma_filter_within(rs, lt, lt);
    lemma_filter_within(rs, gt, gt);
    lemma_filter_apart(rs, lt, gt);
    lemma_filter_apart(rs, gt, lt);
    assert(with_review(rs, r1).filter(lt) =~= rs.filter(lt));
    assert(with_review(rs, r1).filter(gt) =~= rs.filter(gt));
}

/// Each graded ply has exactly one review.
pub proof fn law_one_review_per_ply(rs: Seq<ReviewView>, r: ReviewView)
    ensures
        with_review(rs, r).filter(|x: ReviewView| x.ply == r.ply) == seq![r],
{
    let lt = |x: ReviewView| x.ply < r.ply;
    let gt = |x: ReviewView| x.ply > r.ply;
    let eq = |x: ReviewView| x.ply == r.ply;
    lemma_with_review_filter(rs, r, eq);
    lemma_filter_apart(rs, lt, eq);
    lemma_filter_apart(rs, gt, eq);
    assert(with_review(rs, r).filter(eq) =~= seq![r]);
}

proof fn lemma_filter_ordered(v: Seq<ReviewView>, p: spec_fn(ReviewView) -> bool)
    requires
        reviews_ordered(v),
    ensures
        reviews_ordered(v.filter(p)),
        forall|j: int| 0 <= j < v.filter(p).len() ==> #[trigger] v.filter(p)[j].ply <= v.last().ply,
    decreases v.len(),
{
    reveal_with_fuel(Seq::<ReviewView>::filter, 1);
    if v.len() > 0 {
        let d = v.drop_last();
        assert(reviews_ordered(d));
        lemma_filter_ordered(d, p);
        let f = d.filter(p);
        if d.len() > 0 {
            assert(d.last().ply < v.last().ply);
        } else {
            assert(f.len() == 0);
        }
        if p(v.last()) {
            assert(v.filter(p) == f.push(v.last()));
        } else {
            assert(v.filter(p) == f);
        }
    }
}

/// The SAN of the analyst's preferred move from the position before `ply`,
/// when the analyst named one and it reads there.
pub open spec fn analyst_san(best: Map<u32, String>, snaps: Seq<Seq<char>>, ply: u32) -> Option<
    Seq<char>,
> {
    if best.contains_key((ply - 1) as u32) && snaps.len() > 0 {
        let prev = snaps.last();
        match spec_engine_move(prev, best[(ply - 1) as u32]@) {
            Some(t) => match parse_move_text(t) {
                Some(m) => spec_san(prev, move_text(m)),
                None => None,
            },
            None => None,
        }
    } else {
        None
    }
}

/// The centipawns the mover gave away: the fall of their own side's
/// evaluation from `before` to `after` (both from White's point of view),
/// never below zero.
pub open spec fn centipawn_loss(mover: Color, before: Score, after: Score) -> int {
    let delta = spec_to_cp(after) - spec_to_cp(before);
    let loss = if mover == Color::White {
        -delta
    } else {
        delta
    };
    if loss > 0 {
        loss
    } else {
        0
    }
}

impl Game {
    /// What the accuracy of the move that made `ply` is computed from, when
    /// it can be graded: whether White moved, and the evaluations before and
    /// after it in centipawns from White's side.
    pub fn accuracy_inputs(&self, ply: u32) -> (r: Option<(bool, i32, i32)>)
        ensures
            r is Some <==> (ply > 0 && self.history@.len() > 0 && self.evals@.contains_key(
                (ply - 1) as u32,
            ) && self.evals@.contains_key(ply)),
            r matches Some((w, b, a)) ==> w == (self.pos.spec_turn().spec_other() == Color::White)
                && b == spec_to_cp(self.evals@[(ply - 1) as u32]) && a == spec_to_cp(
                self.evals@[ply],
            ),
    {
        if ply == 0 || self.history.len() == 0 {
            return None;
        }
        let before = match self.evals.get(&(ply - 1)) {
            Some(b) => *b,
            None => return None,
        };
        let after = match self.evals.get(&ply) {
            Some(a) => *a,
            None => return None,
        };
        Some((self.pos.turn().other() == Color::White, before.to_cp(), after.to_cp()))
    }

    /// File the graded move under the stage it was *chosen in*, so that a
    /// blunder on the move the queens come off is charged to the middlegame
    /// rather than to the endgame it created. A ply graded again replaces its
    /// earlier review.
    fn record_review(
        &mut self,
        ply: u32,
        quality: Quality,
        loss_cp: i32,
        accuracy: Option<u32>,
        san: &String,
    )
        requires
            old(self).wf(),
        ensures
            final(self).wf(),
            old(self).spec_snapshots().len() > 0 ==> review_views(final(self).reviews@)
                == with_review(
                review_views(old(self).reviews@),
                ReviewView {
                    ply,
                    stage: stage_of(
                        crate::chess::placement(old(self).spec_snapshots().last()),
                        crate::chess::fen_fullmoves(old(self).spec_snapshots().last()),
                    ),
                    quality,
                    loss_cp,
                    accuracy,
                    san: san@,
                },
            ),
            old(self).spec_snapshots().len() == 0 ==> final(self).reviews == old(self).reviews,
            *final(self) == (Game { reviews: final(self).reviews, ..*old(self) }),
    {
        if self.snapshots.len() == 0 {
            return;
        }
        let n = self.snapshots.len();
        let stage = classify(&self.snapshots[n - 1]);
        assert(self.snapshots@[n - 1]@ == self.spec_snapshots().last());
        let ghost v = review_views(self.reviews@);
        let new_review = MoveReview {
            ply,
            stage,
            quality,
            loss_cp,
            accuracy,
            san: san.clone(),
        };
        let ghost lt = |x: ReviewView| x.ply < ply;
        let ghost gt = |x: ReviewView| x.ply > ply;
        let mut lo: Vec<MoveReview> = Vec::new();
        let mut hi: Vec<MoveReview> = Vec::new();
        let mut i: usize = 0;
        while i < self.reviews.len()
            invariant
                i <= self.reviews.len(),
                v == review_views(self.reviews@),
                forall|x: ReviewView| #[trigger] lt(x) == (x.ply < ply),
                forall|x: ReviewView| #[trigger] gt(x) == (x.ply > ply),
                review_views(lo@) == v.take(i as int).filter(lt),
                review_views(hi@) == v.take(i as int).filter(gt),
            decreases self.reviews.len() - i,
        {
            let ghost pre = v.take(i as int);
            let ghost cur = v.take(i + 1);
            assert(cur.drop_last() == pre);
            assert(cur.last() == self.reviews@[i as int]@);
            reveal_with_fuel(Seq::<ReviewView>::filter, 1);
            let r = self.reviews[i].duplicate();
            if r.ply < ply {
                let ghost b = lo@;
                lo.push(r);
                assert(review_views(lo@) =~= review_views(b).push(r@));
            } else if r.ply > ply {
                let ghost b = hi@;
                hi.push(r);
                assert(review_views(hi@) =~= review_views(b).push(r@));
            }
            i = i + 1;
        }
        assert(v.take(self.reviews.len() as int) == v);
        let ghost b = lo@;
        lo.push(new_review);
        assert(review_views(lo@) =~= review_views(b).push(new_review@));
        let mut k: usize = 0;
        let ghost lo0 = review_views(lo@);
        while k < hi.len()
            invariant
                k <= hi.len(),
                review_views(lo@) == lo0 + review_views(hi@).take(k as int),
            decreases hi.len() - k,
        {
            let ghost b2 = lo@;
            let r = hi[k].duplicate();
            lo.push(r);
            assert(review_views(lo@) =~= review_views(b2).push(r@));
            assert(review_views(hi@).take(k + 1) =~= review_views(hi@).take(k as int).push(
                hi@[k as int]@,
            ));
            k = k + 1;
        }
        assert(review_views(hi@).take(hi.len() as int) == review_views(hi@));
        proof {
            lemma_filter_ordered(v, lt);
            lemma_filter_ordered(v, gt);
            v.lemma_filter_len(lt);
            let w = review_views(lo@);
            let fl = v.filter(lt);
            let fg = v.filter(gt);
            assert(w == fl + seq![new_review@] + fg);
            assert forall|a: int, c: int| 0 <= a < c < w.len() implies w[a].ply < w[c].ply by {
                if c < fl.len() {
                } else if c == fl.len() {
                    v.lemma_filter_pred(lt, a);
                } else if a < fl.len() {
                    v.lemma_filter_pred(lt, a);
                    v.lemma_filter_pred(gt, c - fl.len() - 1);
                } else if a == fl.len() {
                    v.lemma_filter_pred(gt, c - fl.len() - 1);
                } else {
                }
            }
        }
        self.reviews = lo;
    }

    pub fn stage_summary(&self) -> (r: Vec<StageStats>)
        requires
            self.reviews.len() <= u32::MAX,
        ensures
            stats_views(r@) == summary_of(review_views(self.reviews@), stages()),
    {
        summarise(self.reviews.as_slice())
    }

    /// Mean accuracy over the scored moves, in hundredths of a percent.
    pub fn overall_accuracy(&self) -> (r: Option<u32>)
        requires
            self.reviews.len() <= u32::MAX,
        ensures
            r == mean_accuracy(review_views(self.reviews@)),
    {
        overall_accuracy(self.reviews.as_slice())
    }
}


/// The phase after a move into `fen`: over when the game is, otherwise the
/// player's turn in free play or when it is their colour to move.
pub open spec fn phase_after_move(fen: Seq<char>, player: Color, free_play: bool) -> Phase {
    if spec_is_game_over(fen) {
        Phase::GameOver
    } else if free_play || crate::chess::fen_turn(fen) == player {
        Phase::PlayerTurn
    } else {
        Phase::EngineThinking
    }
}

/// `g1` is `g0` after playing `m`: the move is recorded in the move list
/// and the position before it kept for a takeback; a legal move hands the
/// turn over (or ends the game), an illegal one changes nothing else.
pub open spec fn played(g0: Game, m: ChessMove, g1: Game) -> bool {
    &&& (strings(g1.history@) == strings(g0.history@).push(
                history_entry(
                    g0.pos@,
                    match spec_san(g0.pos@, move_text(m)) {
                        Some(s) => s,
                        None => seq![],
                    },
                ),
            ))
    &&& (g1.spec_snapshots() == g0.spec_snapshots().push(g0.pos@))
    &&& (match spec_play(g0.pos@, move_text(m)) {
                Some(f) => {
                    &&& g1.pos@ == f
                    &&& g1.ply == g0.ply + 1
                    &&& g1.selected is None
                    &&& g1.targets@.len() == 0
                    &&& !g1.show_hint
                    &&& g1.best_move is None
                    &&& g1.phase == phase_after_move(f, g0.player, g0.free_play)
                    &&& spec_is_game_over(f) ==> (g1.show_summary && (g1.result_text
                        matches Some(t) && t@ == outcome_text(f, g0.player)))
                    &&& !spec_is_game_over(f) ==> g1.show_summary == g0.show_summary
                        && g1.result_text == g0.result_text
                },
                None => {
                    &&& g1.pos == g0.pos
                    &&& g1.ply == g0.ply
                    &&& g1.phase == g0.phase
                    &&& g1.selected == g0.selected
                    &&& g1.targets == g0.targets
                    &&& g1.show_hint == g0.show_hint
                    &&& g1.best_move == g0.best_move
                    &&& g1.show_summary == g0.show_summary
                    &&& g1.result_text == g0.result_text
                },
            })
    &&& (g1.player == g0.player)
    &&& (g1.free_play == g0.free_play)
    &&& (g1.reviews == g0.reviews)
    &&& (g1.evals == g0.evals)
    &&& (g1.best_moves == g0.best_moves)
    &&& (g1.book_plies == g0.book_plies)
    &&& (g1.last_grade == g0.last_grade)
    &&& (g1.left_book_at == g0.left_book_at)
    &&& (g1.skill == g0.skill)
    &&& (g1.opening == g0.opening)
    &&& (g1.book_alternatives == g0.book_alternatives)
}

impl Game {
    /// Play `m`: record it in the move list, keep the position for a
    /// takeback, and hand the turn over (or end the game).
    pub fn apply(&mut self, m: ChessMove)
        requires
            old(self).ply < u32::MAX,
        ensures
            played(*old(self), m, *final(self)),
    {
        let mut entry: Vec<char> = Vec::new();
        if self.pos.turn() == Color::White {
            push_decimal(&mut entry, self.pos.fullmoves() as u64);
            push_str(&mut entry, ". ");
        }
        match self.pos.san(&m) {
            Some(san) => push_all(&mut entry, san.as_slice()),
            None => {},
        }
        assert(entry@ =~= history_entry(
            old(self).pos@,
            match spec_san(old(self).pos@, move_text(m)) {
                Some(s) => s,
                None => seq![],
            },
        ));
        let ghost h0 = self.history@;
        let e = string_of(&entry);
        self.history.push(e);
        assert(strings(self.history@) =~= strings(h0).push(entry@));
        let ghost s0 = self.snapshots@;
        self.snapshots.push(self.pos.duplicate());
        assert(fens(self.snapshots@) =~= fens(s0).push(old(self).pos@));
        match self.pos.play(&m) {
            Some(next) => self.pos = next,
            None => return,
        }
        self.ply = self.ply + 1;
        self.clear_selection();
        self.show_hint = false;
        self.best_move = None;
        if self.pos.is_game_over() {
            self.phase = Phase::GameOver;
            self.result_text = Some(self.describe_outcome());
            self.show_summary = true;
        } else if self.free_play || self.pos.turn() == self.player {
            self.phase = Phase::PlayerTurn;
        } else {
            self.phase = Phase::EngineThinking;
        }
    }
}


/// Whether `p` is at most `limit`.
pub fn at_most(p: u32, limit: u32) -> (b: bool)
    ensures
        b == (p <= limit),
{
    p <= limit
}

/// `HashSet::retain`, keeping the elements that `at_most(_, limit)` accepts.
#[verifier::external_body]
fn keep_up_to(set: &mut HashSet<u32>, limit: u32)
    ensures
        final(set)@ == old(set)@.filter(|p: u32| p <= limit),
{
    set.retain(|p| at_most(*p, limit));
}


/// The reviews of plies up to `limit`, in order.
fn reviews_up_to(rs: &Vec<MoveReview>, limit: u32) -> (r: Vec<MoveReview>)
    ensures
        review_views(r@) == review_views(rs@).filter(|x: ReviewView| x.ply <= limit),
{
    let ghost v = review_views(rs@);
    let ghost keep = |x: ReviewView| x.ply <= limit;
    let mut out: Vec<MoveReview> = Vec::new();
    let mut i: usize = 0;
    while i < rs.len()
        invariant
            i <= rs.len(),
            v == review_views(rs@),
            forall|x: ReviewView| #[trigger] keep(x) == (x.ply <= limit),
            review_views(out@) == v.take(i as int).filter(keep),
        decreases rs.len() - i,
    {
        assert(v.take(i + 1).drop_last() == v.take(i as int));
        assert(v.take(i + 1).last() == rs@[i as int]@);
        reveal_with_fuel(Seq::<ReviewView>::filter, 1);
        if rs[i].ply <= limit {
            let ghost b = out@;
            let r = rs[i].duplicate();
            out.push(r);
            assert(review_views(out@) =~= review_views(b).push(r@));
        }
        i = i + 1;
    }
    assert(v.take(rs.len() as int) == v);
    out
}

/// `g1` is `g0` after a takeback: rewound to the most recent kept position
/// in which the player was to move (or to the first one kept), the reviews,
/// theory marks and moves of the plies undone dropped; with nothing kept,
/// nothing changes.
pub open spec fn taken_back(g0: Game, g1: Game) -> bool {
    &&& (g0.spec_snapshots().len() == 0 ==> g1 == g0)
    &&& (g0.spec_snapshots().len() > 0 ==> ({
                let snaps = g0.spec_snapshots();
                let k = takeback_depth(snaps, g0.player);
                let h = strings(g0.history@);
                &&& g1.spec_snapshots() == snaps.take(snaps.len() - k)
                &&& g1.pos@ == snaps[snaps.len() - k]
                &&& strings(g1.history@) == h.take(
                    if h.len() >= k {
                        h.len() - k
                    } else {
                        0
                    },
                )
                &&& g1.ply == (if g0.ply >= k {
                    g0.ply - k
                } else {
                    0
                })
                &&& g1.selected is None
                &&& g1.targets@.len() == 0
                &&& g1.last_grade is None
                &&& g1.best_move is None
                &&& !g1.show_hint
                &&& g1.result_text is None
                &&& review_views(g1.reviews@) == review_views(g0.reviews@).filter(
                    |x: ReviewView| x.ply <= g1.ply,
                )
                &&& g1.book_plies@ == g0.book_plies@.filter(
                    |p: u32| p <= g1.ply,
                )
                &&& g1.left_book_at is None
                &&& g1.book_alternatives@.len() == 0
                &&& g1.phase == phase_for_turn(g1.pos.spec_turn(), g0.player)
            }))
    &&& (g1.player == g0.player)
    &&& (g1.free_play == g0.free_play)
    &&& (g1.evals == g0.evals)
    &&& (g1.best_moves == g0.best_moves)
    &&& (g1.skill == g0.skill)
    &&& (g1.show_summary == g0.show_summary)
    &&& (g1.opening == g0.opening)
}

impl Game {
    /// Take back the last move, and the engine's reply before it when there
    /// was one: rewind to the most recent position in which the player was to
    /// move (or to the first position kept). Reviews and theory marks of the
    /// plies undone are dropped, and the game is back inside theory.
    pub fn undo(&mut self)
        requires
            old(self).wf(),
        ensures
            final(self).wf(),
            taken_back(*old(self), *final(self)),
    {
        if self.snapshots.len() == 0 {
            return;
        }
        let ghost snaps0 = self.spec_snapshots();
        let ghost h0 = strings(self.history@);
        let ghost ply0 = self.ply;
        let player = self.player;
        let ghost k = takeback_depth(snaps0, player);
        assert(snaps0.len() == self.snapshots.len());
        let mut snaps: Vec<Position> = Vec::new();
        std::mem::swap(&mut snaps, &mut self.snapshots);
        let mut hist: Vec<String> = Vec::new();
        std::mem::swap(&mut hist, &mut self.history);
        let mut pos = self.pos.duplicate();
        let mut ply = self.ply;
        let mut c: usize = 0;
        let mut done = false;
        assert(snaps0.take(snaps0.len() as int) == snaps0);
        assert(h0.take(h0.len() as int) == h0);
        while !done && snaps.len() > 0
            invariant
                c <= snaps0.len(),
                snaps0.len() <= usize::MAX,
                fens(snaps@) == snaps0.take(snaps0.len() - c),
                !done ==> k == c + takeback_depth(snaps0.take(snaps0.len() - c), player),
                done ==> k == c,
                c >= 1 ==> pos@ == snaps0[snaps0.len() - c],
                snaps0.len() > 0,
                k == takeback_depth(snaps0, player),
                strings(hist@) == h0.take(
                    if h0.len() >= c {
                        h0.len() - c
                    } else {
                        0
                    },
                ),
                ply == (if ply0 >= c {
                    ply0 - c
                } else {
                    0
                }),
                done ==> c >= 1,
            decreases snaps.len(),
        {
            let ghost cur = snaps0.take(snaps0.len() - c);
            let ghost hb = hist@;
            assert(snaps@.len() == fens(snaps@).len());
            let prev = snaps.pop().unwrap();
            assert(prev@ == cur.last());
            assert(fens(snaps@) =~= cur.drop_last());
            assert(cur.drop_last() =~= snaps0.take(snaps0.len() - (c + 1)));
            hist.pop();
            proof {
                if hb.len() > 0 {
                    assert(strings(hist@) =~= strings(hb).drop_last());
                }
            }
            ply = if ply > 0 {
                ply - 1
            } else {
                0
            };
            c = c + 1;
            if prev.turn() == player {
                done = true;
            }
            pos = prev;
        }
        proof {
            if !done {
                assert(snaps0.take(snaps0.len() - c).len() == 0);
            }
        }
        self.pos = pos;
        self.snapshots = snaps;
        self.history = hist;
        self.ply = ply;
        self.selected = None;
        self.targets.clear();
        self.last_grade = None;
        self.best_move = None;
        self.show_hint = false;
        self.result_text = None;
        // Moves that no longer happened should not still be counted against you.
        let ghost rv0 = review_views(self.reviews@);
        let kept = reviews_up_to(&self.reviews, ply);
        proof {
            lemma_filter_ordered(rv0, |x: ReviewView| x.ply <= ply);
        }
        self.reviews = kept;
        keep_up_to(&mut self.book_plies, ply);
        // Rewinding past the point theory ended puts you back in it.
        self.left_book_at = None;
        self.book_alternatives.clear();
        self.phase = if self.pos.turn() == self.player {
            Phase::PlayerTurn
        } else {
            Phase::EngineThinking
        };
    }
}


/// The review a graded move is filed as.
pub open spec fn review_for(
    snaps: Seq<Seq<char>>,
    ply: u32,
    quality: Quality,
    loss_cp: i32,
    accuracy: Option<u32>,
    san: Seq<char>,
) -> ReviewView {
    ReviewView {
        ply,
        stage: stage_of(crate::chess::placement(snaps.last()), crate::chess::fen_fullmoves(snaps.last())),
        quality,
        loss_cp,
        accuracy,
        san,
    }
}

impl Game {
    /// Whether the move that made `ply` can be graded: it is a move, and the
    /// analyst has evaluated the positions before and after it.
    pub open spec fn gradable(&self, ply: u32) -> bool {
        ply > 0 && self.history@.len() > 0 && self.evals@.contains_key((ply - 1) as u32)
            && self.evals@.contains_key(ply)
    }

    /// Grade the move that made `ply` from the analyst's evaluations before
    /// and after it. A move still in theory is graded as theory: it is not
    /// scored and no better move is named against it. Otherwise the verdict
    /// follows the centipawns given away, `accuracy` (hundredths of a
    /// percent, computed by the caller from `accuracy_inputs`) is recorded,
    /// and the analyst's move is named when it is not the one played.
    pub fn grade(&mut self, ply: u32, accuracy: u32)
        requires
            old(self).wf(),
        ensures
            final(self).wf(),
            !old(self).gradable(ply) ==> *final(self) == *old(self),
            old(self).gradable(ply) ==> ({
                let before = old(self).evals@[(ply - 1) as u32];
                let after = old(self).evals@[ply];
                let loss = centipawn_loss(old(self).pos.spec_turn().spec_other(), before, after);
                let in_book = old(self).book_plies@.contains(ply);
                let quality = if in_book {
                    Quality::Book
                } else {
                    quality_for_loss(loss)
                };
                let played = strings(old(self).history@).last();
                let better = if in_book {
                    None
                } else {
                    match analyst_san(old(self).best_moves@, old(self).spec_snapshots(), ply) {
                        Some(b) => if ends_with(played, b) {
                            None
                        } else {
                            Some(b)
                        },
                        None => None,
                    }
                };
                &&& final(self).last_grade matches Some(g) && g@ == GradeView {
                    quality,
                    loss_cp: loss as i32,
                    played_san: played,
                    better_san: better,
                }
                &&& old(self).spec_snapshots().len() > 0 ==> review_views(final(self).reviews@)
                    == with_review(
                    review_views(old(self).reviews@),
                    review_for(
                        old(self).spec_snapshots(),
                        ply,
                        quality,
                        loss as i32,
                        if in_book {
                            None
                        } else {
                            Some(accuracy)
                        },
                        played,
                    ),
                )
                &&& old(self).spec_snapshots().len() == 0 ==> final(self).reviews == old(self).reviews
            }),
            *final(self) == (Game {
                last_grade: final(self).last_grade,
                reviews: final(self).reviews,
                ..*old(self)
            }),
    {
        if ply == 0 || self.history.len() == 0 {
            return;
        }
        let before = match self.evals.get(&(ply - 1)) {
            Some(b) => *b,
            None => return,
        };
        let after = match self.evals.get(&ply) {
            Some(a) => *a,
            None => return,
        };
        let delta = after.to_cp() - before.to_cp();
        let mover = self.pos.turn().other();
        let loss = if mover == Color::White {
            -delta
        } else {
            delta
        };
        let loss = if loss > 0 {
            loss
        } else {
            0
        };
        let played_san = self.history[self.history.len() - 1].clone();
        assert(played_san@ == strings(self.history@).last());
        let ghost snaps = self.spec_snapshots();
        let better_raw: Option<Vec<char>> = match self.best_moves.get(&(ply - 1)) {
            Some(uci) => {
                if self.snapshots.len() > 0 {
                    let prev = &self.snapshots[self.snapshots.len() - 1];
                    assert(prev@ == snaps.last());
                    let t = chars_of(uci.as_str());
                    match prev.engine_move(t.as_slice()) {
                        Some(m) => prev.san(&m),
                        None => None,
                    }
                } else {
                    None
                }
            },
            None => None,
        };
        assert(better_raw matches Some(b) ==> analyst_san(self.best_moves@, snaps, ply) == Some(b@));
        assert(better_raw is None ==> analyst_san(self.best_moves@, snaps, ply) is None);
        let played_chars = chars_of(played_san.as_str());
        let better: Option<Vec<char>> = match better_raw {
            Some(b) => if text_ends_with(played_chars.as_slice(), b.as_slice()) {
                None
            } else {
                Some(b)
            },
            None => None,
        };
        // A theory move is reported as theory, whatever the search thinks of it.
        let in_book = self.book_plies.contains(&ply);
        let quality = if in_book {
            Quality::Book
        } else {
            Quality::from_loss(loss)
        };
        // Theory is not scored, so it neither flatters nor dents your accuracy.
        let acc = if in_book {
            None
        } else {
            Some(accuracy)
        };
        self.record_review(ply, quality, loss, acc, &played_san);
        // Naming "the engine preferred Nc3" against a main line is the noise
        // this whole feature exists to remove.
        let better_san = if in_book {
            None
        } else {
            match better {
                Some(b) => Some(string_of(&b)),
                None => None,
            }
        };
        self.last_grade = Some(Grade { quality, loss_cp: loss, played_san, better_san });
    }
}

/// A takeback right after the player's move returns to the position the
/// player moved from, with the kept positions, the move list and the move
/// counter as they were.
pub proof fn law_takeback_undoes_the_players_move(g0: Game, m: ChessMove, g1: Game, g2: Game)
    requires
        g0.pos.spec_turn() == g0.player,
        spec_play(g0.pos@, move_text(m)) is Some,
        played(g0, m, g1),
        taken_back(g1, g2),
    ensures
        g2.pos@ == g0.pos@,
        g2.ply == g0.ply,
        g2.spec_snapshots() == g0.spec_snapshots(),
        strings(g2.history@) == strings(g0.history@),
{
    let snaps = g1.spec_snapshots();
    assert(snaps.drop_last() == g0.spec_snapshots());
    assert(takeback_depth(snaps, g0.player) == 1);
    assert(snaps.take(snaps.len() - 1) == g0.spec_snapshots());
    let h = strings(g1.history@);
    assert(h.take(h.len() - 1) == strings(g0.history@));
}

/// A takeback after the player's move and the engine's reply returns to the
/// position the player moved from, with the kept positions, the move list
/// and the move counter as they were.
pub proof fn law_takeback_undoes_a_move_and_its_reply(
    g0: Game,
    m1: ChessMove,
    g1: Game,
    m2: ChessMove,
    g2: Game,
    g3: Game,
)
    requires
        g0.pos.spec_turn() == g0.player,
        spec_play(g0.pos@, move_text(m1)) is Some,
        played(g0, m1, g1),
        g1.pos.spec_turn() != g0.player,
        spec_play(g1.pos@, move_text(m2)) is Some,
        played(g1, m2, g2),
        taken_back(g2, g3),
    ensures
        g3.pos@ == g0.pos@,
        g3.ply == g0.ply,
        g3.spec_snapshots() == g0.spec_snapshots(),
        strings(g3.history@) == strings(g0.history@),
{
    let snaps = g2.spec_snapshots();
    assert(snaps.drop_last() == g1.spec_snapshots());
    assert(g1.spec_snapshots().drop_last() == g0.spec_snapshots());
    assert(takeback_depth(g1.spec_snapshots(), g0.player) == 1);
    assert(takeback_depth(snaps, g0.player) == 2);
    assert(snaps.take(snaps.len() - 2) == g0.spec_snapshots());
    assert(snaps[snaps.len() - 2] == g0.pos@);
    let h = strings(g2.history@);
    assert(h.take(h.len() - 2) == strings(g0.history@));
}

} // verus!
