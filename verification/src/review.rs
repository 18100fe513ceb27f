//! Which stage of the game a move belonged to, and how accurately it was played.
//!
//! Centipawn loss on its own says a move cost 0.6 pawns. It never says whether
//! that happened while you were still developing or twenty moves later in a rook
//! ending, so a game full of grades still cannot answer the only question worth
//! asking: *which part of my game is the weak one?* Tagging each move with a
//! stage and averaging accuracy within the stage is what answers it.
//!
//! Accuracy is a percentage held in hundredths (10000 is 100%), as the
//! accuracy formula's caller hands it in.
use vstd::prelude::*;
use crate::chess::{Color, Piece, Position, Role, Square};
use crate::game::Quality;
use crate::text::{decimal, push_all, push_decimal, push_str, string_of};

verus! {

/// Non-pawn material (both sides, Q=9 R=5 B=N=3) at or below which the position
/// counts as an endgame. 20 is about a rook and a minor each: queens are off and
/// king activity has started to matter.
pub const ENDGAME_MATERIAL: u32 = 20;

/// A position is only still an opening while *both* bounds hold. Either one
/// alone misfires: a gambit can leave a piece on its home square at move 30, and
/// a quiet exchange line can be fully developed by move 8.
pub const OPENING_LAST_FULLMOVE: u32 = 15;

pub const OPENING_MIN_UNDEVELOPED: u32 = 4;

/// The three stages a game passes through, in board order.
#[derive(Debug, Clone, Copy, PartialEq, Eq, Structural)]
pub enum Stage {
    Opening,
    Middlegame,
    Endgame,
}

impl Stage {
    /// The stage's name as the summary panel prints it.
    pub open spec fn spec_label(self) -> Seq<char> {
        match self {
            Stage::Opening => "Opening"@,
            Stage::Middlegame => "Middlegame"@,
            Stage::Endgame => "Endgame"@,
        }
    }

    pub fn label(self) -> (r: &'static str)
        ensures
            r@ == self.spec_label(),
    {
        match self {
            Stage::Opening => "Opening",
            Stage::Middlegame => "Middlegame",
            Stage::Endgame => "Endgame",
        }
    }

    /// Every stage, in board order.
    pub fn all() -> (r: [Stage; 3])
        ensures
            r@ == stages(),
    {
        let r = [Stage::Opening, Stage::Middlegame, Stage::Endgame];
        assert(r@ =~= stages());
        r
    }
}

pub open spec fn stages() -> Seq<Stage> {
    seq![Stage::Opening, Stage::Middlegame, Stage::Endgame]
}

/// Material value of a piece for the endgame test: pawns and kings count 0.
pub open spec fn piece_value(p: Option<Piece>) -> int {
    match p {
        Some(piece) => match piece.role {
            Role::Queen => 9,
            Role::Rook => 5,
            Role::Bishop => 3,
            Role::Knight => 3,
            _ => 0,
        },
        None => 0,
    }
}

/// The non-pawn material standing on `board`, both sides together.
pub open spec fn material(board: Seq<Option<Piece>>) -> int
    decreases board.len(),
{
    if board.len() == 0 {
        0
    } else {
        material(board.drop_last()) + piece_value(board.last())
    }
}

/// A knight or bishop of `color` stands on `sq`.
pub open spec fn minor_at_home(board: Seq<Option<Piece>>, sq: int, color: Color) -> bool {
    match board[sq] {
        Some(p) => p.color == color && (p.role == Role::Knight || p.role == Role::Bishop),
        None => false,
    }
}

pub open spec fn b2i(b: bool) -> int {
    if b {
        1
    } else {
        0
    }
}

/// How many of the eight minor-piece home squares (b1 c1 f1 g1 for White,
/// b8 c8 f8 g8 for Black) still hold a knight or bishop of their own side.
pub open spec fn undeveloped(board: Seq<Option<Piece>>) -> int {
    b2i(minor_at_home(board, 1, Color::White)) + b2i(minor_at_home(board, 2, Color::White)) + b2i(
        minor_at_home(board, 5, Color::White),
    ) + b2i(minor_at_home(board, 6, Color::White)) + b2i(minor_at_home(board, 57, Color::Black))
        + b2i(minor_at_home(board, 58, Color::Black)) + b2i(minor_at_home(board, 61, Color::Black))
        + b2i(minor_at_home(board, 62, Color::Black))
}

/// The stage of a position: an endgame once non-pawn material is down to 20,
/// otherwise an opening while it is move 15 or earlier and at least four
/// minor pieces are still at home, otherwise a middlegame.
pub open spec fn stage_of(board: Seq<Option<Piece>>, fullmoves: int) -> Stage {
    if material(board) <= ENDGAME_MATERIAL {
        Stage::Endgame
    } else if fullmoves <= OPENING_LAST_FULLMOVE && undeveloped(board) >= OPENING_MIN_UNDEVELOPED {
        Stage::Opening
    } else {
        Stage::Middlegame
    }
}

fn value_of(p: Option<Piece>) -> (v: u32)
    ensures
        v == piece_value(p),
{
    match p {
        Some(piece) => match piece.role {
            Role::Queen => 9,
            Role::Rook => 5,
            Role::Bishop => 3,
            Role::Knight => 3,
            _ => 0,
        },
        None => 0,
    }
}

fn home_minor(board: &Vec<Option<Piece>>, sq: usize, color: Color) -> (b: u32)
    requires
        sq < board.len(),
    ensures
        b == b2i(minor_at_home(board@, sq as int, color)),
{
    match board[sq] {
        Some(p) => if p.color == color && (p.role == Role::Knight || p.role == Role::Bishop) {
            1
        } else {
            0
        },
        None => 0,
    }
}

/// Classify the position a move was chosen *in* — not the one it led to.
pub fn classify(pos: &Position) -> (s: Stage)
    ensures
        s == stage_of(pos.spec_board(), pos.spec_fullmoves()),
        (s == Stage::Endgame) <==> counted_material(pos.spec_board()) <= 20,
{
    proof {
        law_endgame_is_twenty_points_or_less(pos.spec_board(), pos.spec_fullmoves());
    }
    let board = pos.board();
    let mut m: u32 = 0;
    let mut i: usize = 0;
    while i < 64
        invariant
            i <= 64,
            board.len() == 64,
            m == material(board@.take(i as int)),
            m <= 9 * i,
        decreases 64 - i,
    {
        assert(board@.take(i + 1).drop_last() == board@.take(i as int));
        m = m + value_of(board[i]);
        i = i + 1;
    }
    assert(board@.take(64) == board@);
    if m <= ENDGAME_MATERIAL {
        return Stage::Endgame;
    }
    let undeveloped = home_minor(&board, 1, Color::White) + home_minor(&board, 2, Color::White)
        + home_minor(&board, 5, Color::White) + home_minor(&board, 6, Color::White) + home_minor(
        &board,
        57,
        Color::Black,
    ) + home_minor(&board, 58, Color::Black) + home_minor(&board, 61, Color::Black)
        + home_minor(&board, 62, Color::Black);
    if pos.fullmoves() <= OPENING_LAST_FULLMOVE && undeveloped >= OPENING_MIN_UNDEVELOPED {
        Stage::Opening
    } else {
        Stage::Middlegame
    }
}

/// How many pieces of kind `role`, of either side, stand on `board`.
pub open spec fn count_role(board: Seq<Option<Piece>>, role: Role) -> int
    decreases board.len(),
{
    if board.len() == 0 {
        0
    } else {
        count_role(board.drop_last(), role) + (match board.last() {
            Some(p) => if p.role == role {
                1int
            } else {
                0int
            },
            None => 0int,
        })
    }
}

/// The queens, rooks, bishops and knights on `board`, both sides, at
/// Q9 R5 B3 N3.
pub open spec fn counted_material(board: Seq<Option<Piece>>) -> int {
    9 * count_role(board, Role::Queen) + 5 * count_role(board, Role::Rook) + 3 * count_role(
        board,
        Role::Bishop,
    ) + 3 * count_role(board, Role::Knight)
}

/// The material of a board is nine points a queen, five a rook and three a
/// bishop or a knight, of either side; pawns and kings count nothing.
pub proof fn law_material_counts_every_piece(board: Seq<Option<Piece>>)
    ensures
        material(board) == counted_material(board),
    decreases board.len(),
{
    if board.len() > 0 {
        law_material_counts_every_piece(board.drop_last());
    }
}

/// A position is an endgame exactly when its queens, rooks, bishops and
/// knights, both sides, are worth 20 points or less at Q9 R5 B3 N3, whatever
/// the move number. Above that it is an opening exactly while it is move 15
/// or earlier and at least four minor pieces are still at home, and a
/// middlegame otherwise.
pub proof fn law_endgame_is_twenty_points_or_less(board: Seq<Option<Piece>>, fullmoves: int)
    ensures
        (stage_of(board, fullmoves) == Stage::Endgame) <==> counted_material(board) <= 20,
        (stage_of(board, fullmoves) == Stage::Opening) <==> (counted_material(board) > 20
            && fullmoves <= 15 && undeveloped(board) >= 4),
        (stage_of(board, fullmoves) == Stage::Middlegame) <==> (counted_material(board) > 20 && (
        fullmoves > 15 || undeveloped(board) < 4)),
{
    law_material_counts_every_piece(board);
}

/// One graded player move, kept for the end-of-game breakdown.
#[derive(Debug, Clone)]
pub struct MoveReview {
    pub ply: u32,
    pub stage: Stage,
    pub quality: Quality,
    pub loss_cp: i32,
    /// Hundredths of a percent; `None` for a theory move, which is not scored.
    pub accuracy: Option<u32>,
    pub san: String,
}

/// What a review says, with its SAN as characters.
pub struct ReviewView {
    pub ply: u32,
    pub stage: Stage,
    pub quality: Quality,
    pub loss_cp: i32,
    pub accuracy: Option<u32>,
    pub san: Seq<char>,
}

impl View for MoveReview {
    type V = ReviewView;

    open spec fn view(&self) -> ReviewView {
        ReviewView {
            ply: self.ply,
            stage: self.stage,
            quality: self.quality,
            loss_cp: self.loss_cp,
            accuracy: self.accuracy,
            san: self.san@,
        }
    }
}

impl MoveReview {
    pub fn duplicate(&self) -> (r: MoveReview)
        ensures
            r@ == self@,
    {
        MoveReview {
            ply: self.ply,
            stage: self.stage,
            quality: self.quality,
            loss_cp: self.loss_cp,
            accuracy: self.accuracy,
            san: self.san.clone(),
        }
    }
}

pub open spec fn review_views(rs: Seq<MoveReview>) -> Seq<ReviewView> {
    rs.map_values(|r: MoveReview| r@)
}

/// The reviews of `rs` filed under `s`, in order.
pub open spec fn in_stage(rs: Seq<ReviewView>, s: Stage) -> Seq<ReviewView> {
    rs.filter(|r: ReviewView| r.stage == s)
}

/// How many reviews of `rs` carry an accuracy (scored) or none (theory).
pub open spec fn count_scored(rs: Seq<ReviewView>, scored: bool) -> nat
    decreases rs.len(),
{
    if rs.len() == 0 {
        0
    } else {
        count_scored(rs.drop_last(), scored) + (if (rs.last().accuracy is Some) == scored {
            1nat
        } else {
            0nat
        })
    }
}

/// How many reviews of `rs` have quality `q`.
pub open spec fn count_quality(rs: Seq<ReviewView>, q: Quality) -> nat
    decreases rs.len(),
{
    if rs.len() == 0 {
        0
    } else {
        count_quality(rs.drop_last(), q) + (if rs.last().quality == q {
            1nat
        } else {
            0nat
        })
    }
}

/// The accuracies of the scored reviews of `rs`, added up.
pub open spec fn accuracy_total(rs: Seq<ReviewView>) -> nat
    decreases rs.len(),
{
    if rs.len() == 0 {
        0
    } else {
        accuracy_total(rs.drop_last()) + match rs.last().accuracy {
            Some(a) => a as nat,
            None => 0nat,
        }
    }
}

/// `total / count` rounded to the nearest hundredth, halves up.
pub open spec fn mean(total: nat, count: nat) -> nat {
    (total + count / 2) / count
}

/// The mean accuracy of the scored reviews of `rs`; `None` when none is
/// scored.
pub open spec fn mean_accuracy(rs: Seq<ReviewView>) -> Option<u32> {
    let n = count_scored(rs, true);
    if n == 0 {
        None
    } else {
        Some(mean(accuracy_total(rs), n) as u32)
    }
}

/// The scored review of `rs` that lost the most, the last one among equals.
pub open spec fn costliest(rs: Seq<ReviewView>) -> Option<ReviewView>
    decreases rs.len(),
{
    if rs.len() == 0 {
        None
    } else {
        let before = costliest(rs.drop_last());
        let r = rs.last();
        if r.accuracy is None {
            before
        } else {
            match before {
                Some(b) => if r.loss_cp >= b.loss_cp {
                    Some(r)
                } else {
                    Some(b)
                },
                None => Some(r),
            }
        }
    }
}

/// The costliest scored move of `rs` as (SAN, centipawns lost), when it lost
/// anything at all.
pub open spec fn worst_move(rs: Seq<ReviewView>) -> Option<(Seq<char>, i32)> {
    match costliest(rs) {
        Some(r) => if r.loss_cp > 0 {
            Some((r.san, r.loss_cp))
        } else {
            None
        },
        None => None,
    }
}

#[derive(Debug, Clone)]
pub struct StageStats {
    pub stage: Stage,
    /// Scored moves.
    pub moves: u32,
    /// Theory moves, which are counted but never scored.
    pub book_moves: u32,
    /// Mean accuracy of the scored moves, in hundredths of a percent;
    /// `None` when the stage was all theory.
    pub accuracy: Option<u32>,
    pub inaccuracies: u32,
    pub mistakes: u32,
    pub blunders: u32,
    /// The single move that cost the most, as (SAN, centipawns lost).
    pub worst: Option<(String, i32)>,
}

pub struct StatsView {
    pub stage: Stage,
    pub moves: u32,
    pub book_moves: u32,
    pub accuracy: Option<u32>,
    pub inaccuracies: u32,
    pub mistakes: u32,
    pub blunders: u32,
    pub worst: Option<(Seq<char>, i32)>,
}

impl View for StageStats {
    type V = StatsView;

    open spec fn view(&self) -> StatsView {
        StatsView {
            stage: self.stage,
            moves: self.moves,
            book_moves: self.book_moves,
            accuracy: self.accuracy,
            inaccuracies: self.inaccuracies,
            mistakes: self.mistakes,
            blunders: self.blunders,
            worst: match self.worst {
                Some((s, l)) => Some((s@, l)),
                None => None,
            },
        }
    }
}

/// The breakdown of one stage's reviews.
pub open spec fn stats_of(rs: Seq<ReviewView>, s: Stage) -> StatsView {
    let m = in_stage(rs, s);
    StatsView {
        stage: s,
        moves: count_scored(m, true) as u32,
        book_moves: count_scored(m, false) as u32,
        accuracy: mean_accuracy(m),
        inaccuracies: count_quality(m, Quality::Inaccuracy) as u32,
        mistakes: count_quality(m, Quality::Mistake) as u32,
        blunders: count_quality(m, Quality::Blunder) as u32,
        worst: worst_move(m),
    }
}

/// The breakdown of each stage in `ss` that has a review, in the order of `ss`.
pub open spec fn summary_of(rs: Seq<ReviewView>, ss: Seq<Stage>) -> Seq<StatsView>
    decreases ss.len(),
{
    if ss.len() == 0 {
        seq![]
    } else {
        let before = summary_of(rs, ss.drop_last());
        if in_stage(rs, ss.last()).len() == 0 {
            before
        } else {
            before.push(stats_of(rs, ss.last()))
        }
    }
}

pub open spec fn stats_views(v: Seq<StageStats>) -> Seq<StatsView> {
    v.map_values(|s: StageStats| s@)
}

/// `1 mistake`, `2 mistakes`.
pub open spec fn count_phrase(n: u32, one: Seq<char>, many: Seq<char>) -> Seq<char> {
    decimal(n as nat) + " "@ + (if n == 1 {
        one
    } else {
        many
    })
}

/// The phrase for each kind of bad move that occurred, mildest first.
pub open spec fn problem_parts(s: StatsView) -> Seq<Seq<char>> {
    (if s.inaccuracies > 0 {
        seq![count_phrase(s.inaccuracies, "inaccuracy"@, "inaccuracies"@)]
    } else {
        seq![]
    }) + (if s.mistakes > 0 {
        seq![count_phrase(s.mistakes, "mistake"@, "mistakes"@)]
    } else {
        seq![]
    }) + (if s.blunders > 0 {
        seq![count_phrase(s.blunders, "blunder"@, "blunders"@)]
    } else {
        seq![]
    })
}

/// Appends `count_phrase(n, one, many)`.
fn push_count(out: &mut Vec<char>, n: u32, one: &str, many: &str)
    ensures
        final(out)@ == old(out)@ + count_phrase(n, one@, many@),
{
    push_decimal(out, n as u64);
    push_str(out, " ");
    if n == 1 {
        push_str(out, one);
    } else {
        push_str(out, many);
    }
    assert(final(out)@ =~= old(out)@ + count_phrase(n, one@, many@));
}

impl StageStats {
    /// "2 mistakes, 1 blunder", or empty when the stage was played cleanly.
    pub fn problem_summary(&self) -> (r: String)
        ensures
            r@ == crate::text::join(problem_parts(self@), ", "@),
    {
        let mut parts: Vec<Vec<char>> = Vec::new();
        if self.inaccuracies > 0 {
            let mut p: Vec<char> = Vec::new();
            push_count(&mut p, self.inaccuracies, "inaccuracy", "inaccuracies");
            parts.push(p);
        }
        if self.mistakes > 0 {
            let mut p: Vec<char> = Vec::new();
            push_count(&mut p, self.mistakes, "mistake", "mistakes");
            parts.push(p);
        }
        if self.blunders > 0 {
            let mut p: Vec<char> = Vec::new();
            push_count(&mut p, self.blunders, "blunder", "blunders");
            parts.push(p);
        }
        assert(crate::text::texts(parts@) =~= problem_parts(self@));
        let sep = crate::text::chars_of(", ");
        let r = crate::text::join_texts(&parts, sep.as_slice());
        string_of(&r)
    }
}


proof fn lemma_mean_fits(total: nat, n: nat)
    requires
        n > 0,
        total <= n * 0xffff_ffff,
    ensures
        mean(total, n) <= 0xffff_ffff,
{
    assert((total + n / 2) / n <= 0xffff_ffff) by (nonlinear_arith)
        requires
            n > 0,
            total <= n * 0xffff_ffff,
    ;
}

/// The breakdown of the reviews filed under `s`.
pub fn stage_stats(reviews: &[MoveReview], s: Stage) -> (r: StageStats)
    requires
        reviews.len() <= u32::MAX,
    ensures
        r@ == stats_of(review_views(reviews@), s),
{
    let ghost v = review_views(reviews@);
    let mut moves: u32 = 0;
    let mut book: u32 = 0;
    let mut total: u128 = 0;
    let mut inacc: u32 = 0;
    let mut mist: u32 = 0;
    let mut blun: u32 = 0;
    let mut worst: Option<usize> = None;
    let mut i: usize = 0;
    while i < reviews.len()
        invariant
            i <= reviews.len() <= u32::MAX,
            v == review_views(reviews@),
            moves == count_scored(in_stage(v.take(i as int), s), true),
            book == count_scored(in_stage(v.take(i as int), s), false),
            moves + book <= i,
            total == accuracy_total(in_stage(v.take(i as int), s)),
            total <= moves * 0xffff_ffff,
            inacc == count_quality(in_stage(v.take(i as int), s), Quality::Inaccuracy),
            mist == count_quality(in_stage(v.take(i as int), s), Quality::Mistake),
            blun == count_quality(in_stage(v.take(i as int), s), Quality::Blunder),
            inacc <= i && mist <= i && blun <= i,
            worst matches Some(j) ==> j < i && costliest(in_stage(v.take(i as int), s)) == Some(
                v[j as int],
            ),
            worst is None ==> costliest(in_stage(v.take(i as int), s)) is None,
        decreases reviews.len() - i,
    {
        let ghost pre = v.take(i as int);
        let ghost cur = v.take(i + 1);
        assert(cur.drop_last() == pre);
        assert(cur.last() == v[i as int]);
        assert(v[i as int] == reviews@[i as int]@);
        let ghost fp = in_stage(pre, s);
        let ghost fc = in_stage(cur, s);
        assert(fc == (if v[i as int].stage == s {
            fp.push(v[i as int])
        } else {
            fp
        })) by {
            reveal_with_fuel(Seq::<ReviewView>::filter, 1);
        }
        let r = &reviews[i];
        if r.stage == s {
            assert(fc.drop_last() == fp);
            assert(fc.last() == v[i as int]);
            match r.accuracy {
                Some(a) => {
                    moves = moves + 1;
                    total = total + a as u128;
                    let replace = match worst {
                        Some(j) => r.loss_cp >= reviews[j].loss_cp,
                        None => true,
                    };
                    if replace {
                        worst = Some(i);
                    }
                },
                None => {
                    book = book + 1;
                },
            }
            if r.quality == Quality::Inaccuracy {
                inacc = inacc + 1;
            } else if r.quality == Quality::Mistake {
                mist = mist + 1;
            } else if r.quality == Quality::Blunder {
                blun = blun + 1;
            }
        }
        i = i + 1;
    }
    assert(v.take(reviews.len() as int) == v);
    let accuracy = if moves == 0 {
        None
    } else {
        proof {
            lemma_mean_fits(total as nat, moves as nat);
        }
        let m = (total + (moves / 2) as u128) / (moves as u128);
        Some(m as u32)
    };
    let worst_pair = match worst {
        Some(j) => if reviews[j].loss_cp > 0 {
            Some((reviews[j].san.clone(), reviews[j].loss_cp))
        } else {
            None
        },
        None => None,
    };
    let r = StageStats {
        stage: s,
        moves,
        book_moves: book,
        accuracy,
        inaccuracies: inacc,
        mistakes: mist,
        blunders: blun,
        worst: worst_pair,
    };
    assert(r@ == stats_of(v, s));
    r
}

/// Group the reviews by stage, in board order, skipping stages never reached.
pub fn summarise(reviews: &[MoveReview]) -> (r: Vec<StageStats>)
    requires
        reviews.len() <= u32::MAX,
    ensures
        stats_views(r@) == summary_of(review_views(reviews@), stages()),
{
    let ghost v = review_views(reviews@);
    let all = Stage::all();
    let mut r: Vec<StageStats> = Vec::new();
    let mut k: usize = 0;
    while k < 3
        invariant
            k <= 3,
            all@ == stages(),
            reviews.len() <= u32::MAX,
            v == review_views(reviews@),
            stats_views(r@) == summary_of(v, stages().take(k as int)),
        decreases 3 - k,
    {
        let s = all[k];
        assert(stages().take(k + 1).drop_last() == stages().take(k as int));
        assert(stages().take(k + 1).last() == s);
        let st = stage_stats(reviews, s);
        let ghost before = r@;
        if st.moves > 0 || st.book_moves > 0 {
            proof {
                lemma_stage_nonempty(v, s);
            }
            r.push(st);
            assert(stats_views(r@) =~= stats_views(before).push(st@));
        } else {
            proof {
                lemma_stage_nonempty(v, s);
            }
        }
        k = k + 1;
    }
    assert(stages().take(3) == stages());
    r
}

proof fn lemma_count_split(m: Seq<ReviewView>)
    ensures
        count_scored(m, true) + count_scored(m, false) == m.len(),
    decreases m.len(),
{
    if m.len() > 0 {
        lemma_count_split(m.drop_last());
    }
}

proof fn lemma_stage_nonempty(v: Seq<ReviewView>, s: Stage)
    requires
        v.len() <= u32::MAX,
    ensures
        (in_stage(v, s).len() == 0) == (stats_of(v, s).moves == 0 && stats_of(v, s).book_moves
            == 0),
{
    let m = in_stage(v, s);
    lemma_count_split(m);
    v.lemma_filter_len(|r: ReviewView| r.stage == s);
}

/// Every review of a stage is counted once: either among its scored moves
/// or among its theory moves.
pub proof fn law_stage_counts_partition(rs: Seq<ReviewView>, s: Stage)
    requires
        rs.len() <= u32::MAX,
    ensures
        stats_of(rs, s).moves + stats_of(rs, s).book_moves == in_stage(rs, s).len(),
{
    let m = in_stage(rs, s);
    lemma_count_split(m);
    rs.lemma_filter_len(|r: ReviewView| r.stage == s);
}

/// A theory move never moves an accuracy: adding one changes neither the
/// mean of the scored moves nor what is added up.
pub proof fn law_theory_is_not_scored(rs: Seq<ReviewView>, r: ReviewView)
    requires
        r.accuracy is None,
    ensures
        mean_accuracy(rs.push(r)) == mean_accuracy(rs),
        count_scored(rs.push(r), true) == count_scored(rs, true),
{
    assert(rs.push(r).drop_last() == rs);
}

proof fn lemma_summary_has(rs: Seq<ReviewView>, ss: Seq<Stage>, s: Stage)
    requires
        rs.len() <= u32::MAX,
    ensures
        (exists|i: int| 0 <= i < summary_of(rs, ss).len() && #[trigger] summary_of(rs, ss)[i].stage == s)
            <==> (ss.contains(s) && in_stage(rs, s).len() > 0),
    decreases ss.len(),
{
    if ss.len() > 0 {
        let before = summary_of(rs, ss.drop_last());
        lemma_summary_has(rs, ss.drop_last(), s);
        if ss.contains(s) && !ss.drop_last().contains(s) {
            let k = choose|k: int| 0 <= k < ss.len() && ss[k] == s;
            assert(k == ss.len() - 1) by {
                if k < ss.len() - 1 {
                    assert(ss.drop_last()[k] == s);
                }
            }
        }
        if ss.drop_last().contains(s) {
            let k = choose|k: int| 0 <= k < ss.drop_last().len() && ss.drop_last()[k] == s;
            assert(ss[k] == s);
        }
        if in_stage(rs, ss.last()).len() > 0 {
            let after = before.push(stats_of(rs, ss.last()));
            assert(summary_of(rs, ss) == after);
            if exists|i: int| 0 <= i < before.len() && #[trigger] before[i].stage == s {
                let i = choose|i: int| 0 <= i < before.len() && #[trigger] before[i].stage == s;
                assert(after[i].stage == s);
            }
            if ss.last() == s {
                assert(after[before.len() as int].stage == s);
            }
            if exists|i: int| 0 <= i < after.len() && #[trigger] after[i].stage == s {
                let i = choose|i: int| 0 <= i < after.len() && #[trigger] after[i].stage == s;
                if i < before.len() {
                    assert(before[i].stage == s);
                }
            }
        }
    }
}

/// The breakdown has a line for a stage exactly when some reviewed move was
/// chosen in it: stages never reached are left out.
pub proof fn law_unreached_stages_are_left_out(rs: Seq<ReviewView>, s: Stage)
    requires
        rs.len() <= u32::MAX,
    ensures
        (exists|i: int| 0 <= i < summary_of(rs, stages()).len() && #[trigger] summary_of(rs, stages())[i].stage == s)
            <==> in_stage(rs, s).len() > 0,
{
    lemma_summary_has(rs, stages(), s);
    match s {
        Stage::Opening => assert(stages()[0] == s),
        Stage::Middlegame => assert(stages()[1] == s),
        Stage::Endgame => assert(stages()[2] == s),
    }
}

/// Mean accuracy over the scored moves of the whole game; `None` when no move
/// was scored.
pub fn overall_accuracy(reviews: &[MoveReview]) -> (r: Option<u32>)
    requires
        reviews.len() <= u32::MAX,
    ensures
        r == mean_accuracy(review_views(reviews@)),
{
    let ghost v = review_views(reviews@);
    let mut n: u32 = 0;
    let mut total: u128 = 0;
    let mut i: usize = 0;
    while i < reviews.len()
        invariant
            i <= reviews.len() <= u32::MAX,
            v == review_views(reviews@),
            n == count_scored(v.take(i as int), true),
            n <= i,
            total == accuracy_total(v.take(i as int)),
            total <= n * 0xffff_ffff,
        decreases reviews.len() - i,
    {
        assert(v.take(i + 1).drop_last() == v.take(i as int));
        assert(v.take(i + 1).last() == reviews@[i as int]@);
        if let Some(a) = reviews[i].accuracy {
            n = n + 1;
            total = total + a as u128;
        }
        i = i + 1;
    }
    assert(v.take(reviews.len() as int) == v);
    if n == 0 {
        None
    } else {
        proof {
            lemma_mean_fits(total as nat, n as nat);
        }
        Some(((total + (n / 2) as u128) / (n as u128)) as u32)
    }
}

} // verus!
