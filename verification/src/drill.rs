//! Opening drill: the trainer plays a chosen repertoire and you have to find
//! the book move.
//!
//! Naming theory as it goes by (see `openings`) teaches recognition, which is
//! not the same as knowing a line. A drill inverts the exchange — the position
//! is given and the *move* is the answer — and that is the only part of this
//! app where the player is asked a question rather than graded on an answer
//! they had already chosen.
//!
//! Correctness is judged by comparing the resulting *position* against the one
//! the book move reaches, not by comparing move text. SAN comparison would
//! have to deal with move-number prefixes and with two different notations for
//! the same move; position keys make the whole question go away.
use vstd::prelude::*;
use crate::chess::{move_text, spec_play, spec_zobrist, Color};
use crate::game::{played, taken_back, Game, Phase};
use crate::openings::{book_moves, is_best, Book, RankedView, Repertoire};
use crate::text::{chars_of, decimal, push_all, push_decimal, push_str, string_of, strings};

verus! {

/// The move being asked for, and the position it leads to.
#[derive(Debug, Clone)]
pub struct Question {
    pub san: String,
    pub answer: u64,
    /// Cleared by a wrong guess, so a retry cannot earn the point.
    pub first_try: bool,
}

/// A drill in progress; its absence is what puts the app in normal play.
pub struct Drill {
    pub repertoire: Repertoire,
    pub question: Option<Question>,
    pub asked: u32,
    pub correct: u32,
    /// Book moves that were missed on the first attempt.
    pub missed: Vec<String>,
    pub feedback: Option<String>,
    /// Whether the last answer was right, for colouring the feedback.
    pub last_ok: Option<bool>,
    /// The repertoire ran out of moves — the line has been played to its end.
    pub complete: bool,
}

/// `7/9 first try`.
pub open spec fn score_text(correct: u32, asked: u32) -> Seq<char> {
    decimal(correct as nat) + "/"@ + decimal(asked as nat) + " first try"@
}

pub open spec fn correct_text(san: Seq<char>) -> Seq<char> {
    "Correct - "@ + san
}

pub open spec fn wrong_text(played: Seq<char>, san: Seq<char>) -> Seq<char> {
    played + "?  the book move is "@ + san
}

pub open spec fn complete_text(correct: u32, asked: u32) -> Seq<char> {
    "Line complete - "@ + score_text(correct, asked)
}

/// The last entry of the move list, or nothing.
pub open spec fn last_entry(g: Game) -> Seq<char> {
    let h = strings(g.history@);
    if h.len() > 0 {
        h.last()
    } else {
        seq![]
    }
}

/// An answer is outstanding and it is still the player's turn.
pub open spec fn awaiting(d: Drill, g: Game) -> bool {
    d.question is Some && g.pos.spec_turn() == g.player
}

/// The move just played answered the outstanding question.
pub open spec fn answered_right(d: Drill, g: Game) -> bool {
    match d.question {
        Some(q) => g.pos.spec_turn() != g.player && spec_zobrist(g.pos@) == q.answer,
        None => false,
    }
}

/// The move just played did not answer the outstanding question.
pub open spec fn answered_wrong(d: Drill, g: Game) -> bool {
    match d.question {
        Some(q) => g.pos.spec_turn() != g.player && spec_zobrist(g.pos@) != q.answer,
        None => false,
    }
}

/// The book moves of the repertoire being drilled, from the position of `g`.
pub open spec fn drill_moves(b: Book, d: Drill, g: Game) -> Seq<RankedView> {
    book_moves(b@, g.pos@, Some(d.repertoire@.lines))
}

/// `q` asks for the best book move of `cands`, by the position it leads to
/// from `fen`.
pub open spec fn poses(q: Question, fen: Seq<char>, cands: Seq<RankedView>) -> bool {
    &&& q.first_try
    &&& exists|v: RankedView|
        #![trigger is_best(v, cands)]
        is_best(v, cands) && q.san@ == v.san && (spec_play(fen, move_text(v.mv)) matches Some(
            n,
        ) && q.answer == spec_zobrist(n))
}

impl Drill {
    /// The score never runs ahead of the questions: every question asked is
    /// answered right on its first try, missed, or still open on its first
    /// try, so the right answers and the misses together are at most the
    /// questions asked.
    pub open spec fn wf(&self) -> bool {
        self.correct + self.missed@.len() + (if self.question matches Some(q) && q.first_try {
            1int
        } else {
            0int
        }) <= self.asked
    }

    pub fn new(repertoire: Repertoire) -> (d: Drill)
        ensures
            d.repertoire == repertoire,
            d.question is None,
            d.asked == 0,
            d.correct == 0,
            d.missed@.len() == 0,
            d.feedback is None,
            d.last_ok is None,
            !d.complete,
            d.wf(),
    {
        Drill {
            repertoire,
            question: None,
            asked: 0,
            correct: 0,
            missed: Vec::new(),
            feedback: None,
            last_ok: None,
            complete: false,
        }
    }

    /// The drill a filter asks for: none for a blank filter, and none when
    /// nothing matches it, so that a typo is reported rather than quietly
    /// drilling the entire database.
    pub fn from_filter(book: &Book, filter: &str) -> (r: Option<Drill>)
        requires
            book.wf(),
        ensures
            ({
                let needle = crate::openings::filter_needle(filter@);
                let found = crate::openings::matching_lines(book@.openings, needle, book@.openings.len());
                &&& (r is None <==> (crate::text::trim(filter@).len() == 0 || needle.len() == 0
                    || found.len() == 0))
                &&& (r matches Some(d) ==> d.repertoire@.lines == found && d.repertoire@.label
                    == crate::text::trim(filter@) && d.question is None && d.asked == 0
                    && d.correct == 0 && d.missed@.len() == 0 && d.feedback is None
                    && d.last_ok is None && !d.complete && d.wf())
            }),
    {
        let fc = chars_of(filter);
        let t = crate::text::trimmed(fc.as_slice());
        if t.len() == 0 {
            return None;
        }
        match book.repertoire(filter) {
            Some(rep) => Some(Drill::new(rep)),
            None => None,
        }
    }

    /// `Drill: Najdorf`.
    pub fn label(&self) -> (s: String)
        ensures
            s@ == "Drill: "@ + self.repertoire@.label,
    {
        let mut out: Vec<char> = Vec::new();
        push_str(&mut out, "Drill: ");
        let l = chars_of(self.repertoire.label_str());
        push_all(&mut out, l.as_slice());
        string_of(&out)
    }

    /// `7/9 first try`.
    pub fn score(&self) -> (s: String)
        ensures
            s@ == score_text(self.correct, self.asked),
    {
        let mut out: Vec<char> = Vec::new();
        push_decimal(&mut out, self.correct as u64);
        push_str(&mut out, "/");
        push_decimal(&mut out, self.asked as u64);
        push_str(&mut out, " first try");
        string_of(&out)
    }

    /// Restart the drill without losing the chosen repertoire.
    pub fn reset(&mut self)
        ensures
            final(self).repertoire@ == old(self).repertoire@,
            final(self).question is None,
            final(self).asked == 0,
            final(self).correct == 0,
            final(self).missed@.len() == 0,
            final(self).feedback is None,
            final(self).last_ok is None,
            !final(self).complete,
            final(self).wf(),
    {
        let repertoire = self.repertoire.duplicate();
        *self = Drill::new(repertoire);
    }

    /// The line has run out: the drill is over, with its score.
    fn finish(&mut self)
        ensures
            final(self).complete,
            final(self).feedback matches Some(f) && f@ == complete_text(old(self).correct, old(self).asked),
            final(self).repertoire == old(self).repertoire,
            final(self).question == old(self).question,
            final(self).asked == old(self).asked,
            final(self).correct == old(self).correct,
            final(self).missed == old(self).missed,
            final(self).last_ok == old(self).last_ok,
    {
        let mut out: Vec<char> = Vec::new();
        push_str(&mut out, "Line complete - ");
        let s = self.score();
        let sc = chars_of(s.as_str());
        push_all(&mut out, sc.as_slice());
        self.complete = true;
        self.feedback = Some(string_of(&out));
    }
}

/// One step of the drill loop: mark the answer, reply from the book, then pose
/// the next question. All three happen in the same frame, so a correct answer
/// is met with the opponent's reply immediately.
///
/// A wrong answer is taken back and the same question asked again, no longer
/// on its first try; a right one scores only on its first try. The opponent
/// replies with the repertoire's best book move, and the next question asks
/// for the best book move after it. When the repertoire has no move left the
/// drill is complete.
pub fn step(game: &mut Game, book: &Book, drill: &mut Drill)
    requires
        old(game).wf(),
        old(game).ply < u32::MAX,
        old(drill).wf(),
        old(drill).asked < u32::MAX,
    ensures
        final(game).wf(),
        final(drill).wf(),
        final(drill).correct + final(drill).missed@.len() <= final(drill).asked,
        old(drill).asked <= final(drill).asked <= old(drill).asked + 1,
        old(drill).correct <= final(drill).correct,
        old(drill).missed@.len() <= final(drill).missed@.len(),
        final(drill).missed@.subrange(0, old(drill).missed@.len() as int) == old(drill).missed@,
        old(drill).complete ==> final(drill).complete,
        final(drill).repertoire == old(drill).repertoire,
        (book@.openings.len() == 0 || old(drill).complete) ==> *final(drill) == *old(drill)
            && *final(game) == *old(game),
        !(book@.openings.len() == 0 || old(drill).complete) && answered_wrong(*old(drill), *old(game))
            ==> ({
            let q = old(drill).question->0;
            &&& taken_back(*old(game), *final(game))
            &&& final(drill).question == Some(
                Question { san: q.san, answer: q.answer, first_try: false },
            )
            &&& final(drill).asked == old(drill).asked
            &&& final(drill).correct == old(drill).correct
            &&& strings(final(drill).missed@) == (if q.first_try {
                strings(old(drill).missed@).push(q.san@)
            } else {
                strings(old(drill).missed@)
            })
            &&& final(drill).feedback matches Some(f) && f@ == wrong_text(
                last_entry(*old(game)),
                q.san@,
            )
            &&& final(drill).last_ok == Some(false)
            &&& !final(drill).complete
        }),
        !(book@.openings.len() == 0 || old(drill).complete) && !answered_wrong(
            *old(drill),
            *old(game),
        ) ==> ({
            let d0 = *old(drill);
            let g0 = *old(game);
            let right = answered_right(d0, g0);
            let q0 = d0.question->0;
            let correct = d0.correct + (if right && q0.first_try {
                1int
            } else {
                0int
            });
            let feedback = if right {
                Some(correct_text(q0.san@))
            } else {
                match d0.feedback {
                    Some(f) => Some(f@),
                    None => None,
                }
            };
            let last_ok = if right {
                Some(true)
            } else {
                d0.last_ok
            };
            let waiting = awaiting(d0, g0);
            let replies = g0.pos.spec_turn() != g0.player;
            let cands0 = drill_moves(*book, d0, g0);
            let cands1 = drill_moves(*book, d0, *final(game));
            let fb = match final(drill).feedback {
                Some(f) => Some(f@),
                None => None,
            };
            &&& final(drill).correct == correct
            &&& final(drill).missed == d0.missed
            &&& final(drill).last_ok == last_ok
            &&& if g0.phase == Phase::GameOver {
                &&& *final(game) == g0
                &&& final(drill).complete
                &&& final(drill).asked == d0.asked
                &&& final(drill).question == (if waiting {
                    d0.question
                } else {
                    None
                })
                &&& fb == feedback
            } else if replies && cands0.len() == 0 {
                &&& *final(game) == g0
                &&& final(drill).complete
                &&& final(drill).asked == d0.asked
                &&& final(drill).question is None
                &&& fb == Some(complete_text(correct as u32, d0.asked))
            } else {
                &&& (replies ==> exists|v: RankedView|
                    #![trigger is_best(v, cands0)]
                    is_best(v, cands0) && played(g0, v.mv, *final(game)))
                &&& (!replies ==> *final(game) == g0)
                &&& if waiting {
                    &&& final(drill).question == d0.question
                    &&& final(drill).asked == d0.asked
                    &&& !final(drill).complete
                    &&& fb == feedback
                } else if cands1.len() == 0 {
                    &&& final(drill).complete
                    &&& final(drill).asked == d0.asked
                    &&& final(drill).question is None
                    &&& fb == Some(complete_text(correct as u32, d0.asked))
                } else {
                    &&& !final(drill).complete
                    &&& final(drill).asked == d0.asked + 1
                    &&& final(drill).question matches Some(q) && poses(q, final(game).pos@, cands1)
                    &&& fb == feedback
                }
            }
        }),
{
    if book.is_empty() || drill.complete {
        return;
    }
    let ghost g0 = *game;
    let q = drill.question.take();
    match q {
        Some(question) => {
            if game.pos.turn() == game.player {
                drill.question = Some(question);
            } else if book.position_key(&game.pos) == question.answer {
                if question.first_try {
                    drill.correct = drill.correct + 1;
                }
                let mut out: Vec<char> = Vec::new();
                push_str(&mut out, "Correct - ");
                let san = chars_of(question.san.as_str());
                push_all(&mut out, san.as_slice());
                drill.feedback = Some(string_of(&out));
                drill.last_ok = Some(true);
            } else {
                let mut out: Vec<char> = Vec::new();
                let n = game.history.len();
                if n > 0 {
                    let last = chars_of(game.history[n - 1].as_str());
                    push_all(&mut out, last.as_slice());
                }
                assert(out@ == last_entry(g0));
                push_str(&mut out, "?  the book move is ");
                let san = chars_of(question.san.as_str());
                push_all(&mut out, san.as_slice());
                drill.feedback = Some(string_of(&out));
                drill.last_ok = Some(false);
                if question.first_try {
                    let ghost m0 = drill.missed@;
                    drill.missed.push(question.san.clone());
                    assert(strings(drill.missed@) =~= strings(m0).push(question.san@));
                }
                game.undo();
                drill.question = Some(
                    Question { san: question.san, answer: question.answer, first_try: false },
                );
                return;
            }
        },
        None => {},
    }
    if game.phase == Phase::GameOver {
        drill.complete = true;
        return;
    }
    if game.pos.turn() != game.player {
        match book.main_line(&game.pos, Some(&drill.repertoire)) {
            Some((_, reply)) => {
                game.apply(reply);
            },
            None => {
                drill.finish();
                return;
            },
        }
    }
    if drill.question.is_none() {
        let asked = match book.main_line(&game.pos, Some(&drill.repertoire)) {
            Some((san, m)) => match game.pos.play(&m) {
                Some(next) => Some(Question { san, answer: book.position_key(&next), first_try: true }),
                None => None,
            },
            None => None,
        };
        match asked {
            Some(question) => {
                drill.asked = drill.asked + 1;
                drill.question = Some(question);
            },
            None => {
                drill.finish();
            },
        }
    }
}

} // verus!
