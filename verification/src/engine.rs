//! What the engine says, read and normalised: scores from UCI `info` lines,
//! turned to White's point of view, and the side to move of a FEN.
use vstd::prelude::*;
use crate::chess::{fen_turn, fen_white_to_move, Color};
use crate::text::{chars_of, parse_i32, parse_int32, push_decimal, push_signed, split_words, string_of, texts, words, decimal, signed_decimal};

verus! {

/// An evaluation, in centipawns or as a forced mate in so many moves; the
/// sign says which side is better.
#[derive(Debug, Clone, Copy, PartialEq, Eq, Structural)]
pub enum Score {
    Centipawns(i32),
    Mate(i32),
}

/// The centipawn value that stands for a score: centipawns clamped to
/// ±10000, a mate in `n` as 10000 - 10n for `n` up to 99 (and the mirror for
/// the side being mated), so that nearer mates count for more.
pub open spec fn spec_to_cp(s: Score) -> int {
    match s {
        Score::Centipawns(cp) => if cp < -10000 {
            -10000
        } else if cp > 10000 {
            10000
        } else {
            cp as int
        },
        Score::Mate(n) => if n >= 0 {
            10000 - (if n < 99 { n as int } else { 99 }) * 10
        } else {
            -10000 - (if n > -99 { n as int } else { -99 }) * 10
        },
    }
}

/// How a score reads on the evaluation bar: centipawns as signed pawns with
/// two decimals, mates as `M3` or `-M3`.
pub open spec fn spec_score_label(s: Score) -> Seq<char> {
    match s {
        Score::Centipawns(cp) => {
            let a = if cp < 0 {
                -(cp as int)
            } else {
                cp as int
            };
            let sign = if cp < 0 {
                seq!['-']
            } else {
                seq!['+']
            };
            let cents = a % 100;
            sign + decimal((a / 100) as nat) + seq!['.'] + (if cents < 10 {
                seq!['0']
            } else {
                seq![]
            }) + decimal(cents as nat)
        },
        Score::Mate(n) => if n >= 0 {
            seq!['M'] + decimal(n as nat)
        } else {
            seq!['-', 'M'] + decimal((-n) as nat)
        },
    }
}

impl Score {
    pub fn to_cp(self) -> (r: i32)
        ensures
            r == spec_to_cp(self),
            -10000 <= r <= 10000,
    {
        match self {
            Score::Centipawns(cp) => if cp < -10000 {
                -10000
            } else if cp > 10000 {
                10000
            } else {
                cp
            },
            Score::Mate(n) => if n >= 0 {
                10000 - (if n < 99 {
                    n
                } else {
                    99
                }) * 10
            } else {
                -10000 - (if n > -99 {
                    n
                } else {
                    -99
                }) * 10
            },
        }
    }

    /// The evaluation bar's text. A mate against the side to move is written
    /// with its distance made positive, which `i32::MIN` has not.
    pub fn label(self) -> (s: String)
        requires
            self != Score::Mate(i32::MIN),
        ensures
            s@ == spec_score_label(self),
    {
        let mut out: Vec<char> = Vec::new();
        match self {
            Score::Centipawns(cp) => {
                let a: u64 = if cp < 0 {
                    (-(cp as i64)) as u64
                } else {
                    cp as u64
                };
                out.push(if cp < 0 {
                    '-'
                } else {
                    '+'
                });
                push_decimal(&mut out, a / 100);
                out.push('.');
                if a % 100 < 10 {
                    out.push('0');
                }
                push_decimal(&mut out, a % 100);
                assert(out@ =~= spec_score_label(self));
            },
            Score::Mate(n) => {
                if n >= 0 {
                    out.push('M');
                    push_decimal(&mut out, n as u64);
                } else {
                    out.push('-');
                    out.push('M');
                    push_decimal(&mut out, (-n) as u64);
                }
                assert(out@ =~= spec_score_label(self));
            },
        }
        string_of(&out)
    }
}

/// A mate for White outranks every centipawn score short of the clamp's
/// mate zone, and a nearer mate outranks a farther one; the same holds in
/// mirror for Black.
pub proof fn law_mates_are_ordered(a: i32, b: i32, cp: i32)
    ensures
        0 <= a < b <= 99 ==> spec_to_cp(Score::Mate(a)) > spec_to_cp(Score::Mate(b)),
        -99 <= b < a < 0 ==> spec_to_cp(Score::Mate(a)) < spec_to_cp(Score::Mate(b)),
        a >= 0 && cp < 9010 ==> spec_to_cp(Score::Mate(a)) > spec_to_cp(Score::Centipawns(cp)),
        a < 0 && cp > -9010 ==> spec_to_cp(Score::Mate(a)) < spec_to_cp(Score::Centipawns(cp)),
{
}

/// Whether the position's second FEN field makes White the side to move
/// (anything but `b` does).
pub fn white_to_move(fen: &str) -> (b: bool)
    ensures
        b == (fen_turn(fen@) == Color::White),
{
    let v = chars_of(fen);
    fen_white_to_move(v.as_slice())
}

/// The position of the first `w` among `t[k..]`.
pub open spec fn index_from(t: Seq<Seq<char>>, w: Seq<char>, k: int) -> Option<int>
    decreases t.len() - k,
{
    if k < 0 || k >= t.len() {
        None
    } else if t[k] == w {
        Some(k)
    } else {
        index_from(t, w, k + 1)
    }
}

/// The kind and value that follow the first `score` word of an `info` line.
pub open spec fn score_fields(line: Seq<char>) -> Option<(Seq<char>, i32)> {
    let t = words(line);
    match index_from(t, "score"@, 0) {
        Some(i) => if i + 2 < t.len() {
            match parse_i32(t[i + 2]) {
                Some(v) => Some((t[i + 1], v)),
                None => None,
            }
        } else {
            None
        },
        None => None,
    }
}

/// The score an `info` line reports, multiplied by `sign` (-1 when Black is
/// to move, so that the score is White's); `None` for lines without one and
/// for kinds other than `cp` and `mate`.
pub open spec fn spec_parse_score(line: Seq<char>, sign: i32) -> Option<Score> {
    match score_fields(line) {
        Some((kind, v)) => if kind == "cp"@ {
            Some(Score::Centipawns((v * sign) as i32))
        } else if kind == "mate"@ {
            Some(Score::Mate((v * sign) as i32))
        } else {
            None
        },
        None => None,
    }
}

/// Whether normalising this line's score would leave `i32` (only
/// `i32::MIN` turned round for Black does).
pub open spec fn score_overflows(line: Seq<char>, sign: i32) -> bool {
    score_fields(line) matches Some((_, v)) && v * sign != (v * sign) as i32
}

proof fn lemma_index_from_found(t: Seq<Seq<char>>, w: Seq<char>, k: int)
    requires
        0 <= k,
    ensures
        index_from(t, w, k) matches Some(i) ==> k <= i < t.len() && t[i] == w,
    decreases t.len() - k,
{
    if k < t.len() && t[k] != w {
        lemma_index_from_found(t, w, k + 1);
    }
}

fn find_word(t: &Vec<Vec<char>>, w: &[char]) -> (r: Option<usize>)
    ensures
        r matches Some(i) ==> index_from(texts(t@), w@, 0) == Some(i as int),
        r is None ==> index_from(texts(t@), w@, 0) is None,
{
    let mut k: usize = 0;
    while k < t.len()
        invariant
            k <= t.len(),
            index_from(texts(t@), w@, 0) == index_from(texts(t@), w@, k as int),
        decreases t.len() - k,
    {
        let same = t[k].len() == w.len() && crate::text::matches_at(t[k].as_slice(), 0, w);
        assert(t[k as int]@ == texts(t@)[k as int]);
        assert(t[k as int]@.subrange(0, t[k as int]@.len() as int) == t[k as int]@);
        if same {
            return Some(k);
        }
        k = k + 1;
    }
    None
}

/// Reads the score of a UCI `info` line and turns it to White's side.
pub fn parse_score(line: &str, sign: i32) -> (r: Option<Score>)
    requires
        sign == 1 || sign == -1,
        !score_overflows(line@, sign),
    ensures
        r == spec_parse_score(line@, sign),
{
    let v = chars_of(line);
    let t = split_words(v.as_slice());
    let score_word = chars_of("score");
    let cp_word = chars_of("cp");
    let mate_word = chars_of("mate");
    let i = match find_word(&t, score_word.as_slice()) {
        Some(i) => i,
        None => return None,
    };
    proof {
        lemma_index_from_found(texts(t@), score_word@, 0);
    }
    if i >= t.len() || t.len() - i <= 2 {
        return None;
    }
    assert(t[i + 2]@ == texts(t@)[i + 2]);
    assert(t[i + 1]@ == texts(t@)[i + 1]);
    let value = match parse_int32(t[i + 2].as_slice()) {
        Some(x) => x,
        None => return None,
    };
    let kind = &t[i + 1];
    let is_cp = kind.len() == cp_word.len() && crate::text::matches_at(kind.as_slice(), 0, cp_word.as_slice());
    let is_mate = kind.len() == mate_word.len() && crate::text::matches_at(kind.as_slice(), 0, mate_word.as_slice());
    assert(kind@.subrange(0, kind@.len() as int) == kind@);
    assert(is_cp == (kind@ == "cp"@));
    assert(is_mate == (kind@ == "mate"@));
    if is_cp {
        Some(Score::Centipawns(value * sign))
    } else if is_mate {
        Some(Score::Mate(value * sign))
    } else {
        None
    }
}

/// Whether `parse_score` would have to turn `i32::MIN` round.
pub fn parse_score_overflows(line: &str, sign: i32) -> (b: bool)
    requires
        sign == 1 || sign == -1,
    ensures
        b == score_overflows(line@, sign),
{
    if sign == 1 {
        return false;
    }
    let v = chars_of(line);
    let t = split_words(v.as_slice());
    let score_word = chars_of("score");
    let i = match find_word(&t, score_word.as_slice()) {
        Some(i) => i,
        None => return false,
    };
    proof {
        lemma_index_from_found(texts(t@), score_word@, 0);
    }
    if i >= t.len() || t.len() - i <= 2 {
        return false;
    }
    assert(t[i + 2]@ == texts(t@)[i + 2]);
    match parse_int32(t[i + 2].as_slice()) {
        Some(x) => x == i32::MIN,
        None => false,
    }
}

pub open spec fn negated(s: Option<Score>) -> Option<Score> {
    match s {
        Some(Score::Centipawns(c)) => Some(Score::Centipawns(-c as i32)),
        Some(Score::Mate(m)) => Some(Score::Mate(-m as i32)),
        None => None,
    }
}

/// The same `info` line read with Black to move gives the negation of what
/// it gives with White to move.
pub proof fn law_black_scores_are_negated(line: Seq<char>)
    requires
        !score_overflows(line, -1i32),
    ensures
        spec_parse_score(line, -1i32) == negated(spec_parse_score(line, 1i32)),
{
}

/// A request to the engine worker.
pub enum EngineRequest {
    Analyse { fen: String, ply: u32 },
    PlayMove { fen: String, ply: u32 },
    SetSkill(u32),
    Shutdown,
}

/// What the engine worker reports back.
pub enum EngineReply {
    Analysis { ply: u32, score: Score, best_move: String },
    OpponentMove { ply: u32, uci: String },
    Unavailable(String),
}

/// Whether the first word of `line` is `token`.
pub fn first_word_is(line: &str, token: &str) -> (b: bool)
    ensures
        b == (words(line@).len() > 0 && words(line@)[0] == token@),
{
    let v = chars_of(line);
    let t = split_words(v.as_slice());
    if t.len() == 0 {
        return false;
    }
    let w = chars_of(token);
    assert(t[0]@ == texts(t@)[0]);
    assert(t[0]@.subrange(0, t[0]@.len() as int) == t[0]@);
    t[0].len() == w.len() && crate::text::matches_at(t[0].as_slice(), 0, w.as_slice())
}

/// What a line of the engine's output means to a search in progress.
pub enum SearchLine {
    /// An `info` line with a score, normalised to White.
    Score(Score),
    /// The search is over: the move it chose, `(none)` when it named none.
    BestMove(String),
    /// Anything else, an `info` line without a score included.
    Other,
}

/// Read one line of the engine's output during a search. `sign` is -1 when
/// Black is to move, so that scores are White's.
pub fn read_search_line(line: &str, sign: i32) -> (r: SearchLine)
    requires
        sign == 1 || sign == -1,
        words(line@).len() > 0 && words(line@)[0] == "info"@ ==> !score_overflows(line@, sign),
    ensures
        ({
            let t = words(line@);
            &&& (t.len() > 0 && t[0] == "info"@) ==> match spec_parse_score(line@, sign) {
                Some(s) => r == SearchLine::Score(s),
                None => r is Other,
            }
            &&& (t.len() > 0 && t[0] == "bestmove"@) ==> (r matches SearchLine::BestMove(b) && b@
                == (if t.len() > 1 {
                t[1]
            } else {
                "(none)"@
            }))
            &&& !(t.len() > 0 && (t[0] == "info"@ || t[0] == "bestmove"@)) ==> r is Other
        }),
{
    proof {
        reveal_strlit("info");
        reveal_strlit("bestmove");
        assert("info"@.len() != "bestmove"@.len());
    }
    if first_word_is(line, "info") {
        return match parse_score(line, sign) {
            Some(s) => SearchLine::Score(s),
            None => SearchLine::Other,
        };
    }
    if first_word_is(line, "bestmove") {
        let v = chars_of(line);
        let t = split_words(v.as_slice());
        if t.len() > 1 {
            assert(t[1]@ == texts(t@)[1]);
            return SearchLine::BestMove(string_of(&t[1]));
        }
        return SearchLine::BestMove(String::from_str("(none)"));
    }
    SearchLine::Other
}

/// How deep the analyst searches.
pub const ANALYSIS_DEPTH: u32 = 14;

/// How long the opponent thinks, in milliseconds.
pub const OPPONENT_MOVE_TIME_MS: u32 = 500;

/// The sign that turns the engine's scores for this position into White's.
pub fn search_sign(fen: &str) -> (s: i32)
    ensures
        s == (if fen_turn(fen@) == Color::White {
            1i32
        } else {
            -1i32
        }),
{
    if white_to_move(fen) {
        1
    } else {
        -1
    }
}

/// The UCI command that sets the opponent's strength.
pub open spec fn skill_command(level: u32) -> Seq<char> {
    "setoption name Skill Level value "@ + decimal(level as nat)
}

/// The UCI commands that serve a request: the position and a search to a
/// fixed depth for the analyst or for a fixed time for the opponent, the
/// new strength, or nothing at shutdown.
pub open spec fn request_commands(req: EngineRequest) -> Seq<Seq<char>> {
    match req {
        EngineRequest::Analyse { fen, ply } => seq![
            "position fen "@ + fen@,
            "go depth "@ + decimal(ANALYSIS_DEPTH as nat),
        ],
        EngineRequest::PlayMove { fen, ply } => seq![
            "position fen "@ + fen@,
            "go movetime "@ + decimal(OPPONENT_MOVE_TIME_MS as nat),
        ],
        EngineRequest::SetSkill(level) => seq![skill_command(level)],
        EngineRequest::Shutdown => seq![],
    }
}

fn line_of(prefix: &str, tail: &str) -> (s: String)
    ensures
        s@ == prefix@ + tail@,
{
    let mut out: Vec<char> = Vec::new();
    crate::text::push_str(&mut out, prefix);
    crate::text::push_str(&mut out, tail);
    string_of(&out)
}

fn line_with_number(prefix: &str, n: u32) -> (s: String)
    ensures
        s@ == prefix@ + decimal(n as nat),
{
    let mut out: Vec<char> = Vec::new();
    crate::text::push_str(&mut out, prefix);
    push_decimal(&mut out, n as u64);
    string_of(&out)
}

pub fn commands_for(req: &EngineRequest) -> (r: Vec<String>)
    ensures
        crate::text::strings(r@) == request_commands(*req),
{
    let mut out: Vec<String> = Vec::new();
    match req {
        EngineRequest::Analyse { fen, ply } => {
            out.push(line_of("position fen ", fen.as_str()));
            out.push(line_with_number("go depth ", ANALYSIS_DEPTH));
        },
        EngineRequest::PlayMove { fen, ply } => {
            out.push(line_of("position fen ", fen.as_str()));
            out.push(line_with_number("go movetime ", OPPONENT_MOVE_TIME_MS));
        },
        EngineRequest::SetSkill(level) => {
            out.push(line_with_number("setoption name Skill Level value ", *level));
        },
        EngineRequest::Shutdown => {},
    }
    assert(crate::text::strings(out@) =~= request_commands(*req));
    out
}

/// What a finished search answers: the analyst's evaluation and preferred
/// move, or the opponent's move. Other requests are not searches.
pub fn reply_for(req: &EngineRequest, score: Score, best: String) -> (r: Option<EngineReply>)
    ensures
        match *req {
            EngineRequest::Analyse { fen, ply } => r == Some(
                EngineReply::Analysis { ply, score, best_move: best },
            ),
            EngineRequest::PlayMove { fen, ply } => r == Some(
                EngineReply::OpponentMove { ply, uci: best },
            ),
            _ => r is None,
        },
{
    match req {
        EngineRequest::Analyse { fen, ply } => Some(
            EngineReply::Analysis { ply: *ply, score, best_move: best },
        ),
        EngineRequest::PlayMove { fen, ply } => Some(EngineReply::OpponentMove { ply: *ply, uci: best }),
        _ => None,
    }
}

} // verus!
