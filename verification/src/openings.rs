//! Named opening theory, from the Lichess `chess-openings` database.
//!
//! Centipawn grading is the wrong instrument in the opening. A main line can
//! "lose" 20cp to an engine at depth 14 and still be the move every strong
//! player has made for a century, so calling it an inaccuracy teaches exactly
//! the wrong lesson. In book the useful verdict is not a number, it is a name
//! and a yes/no: *this is the Najdorf, and you are still in it*.
//!
//! Positions are keyed by Polyglot-compatible Zobrist hash rather than by move
//! sequence, so a line reached by transposition is recognised as the same
//! opening — which is most of the point of naming openings at all.
use vstd::prelude::*;
use std::collections::{HashMap, HashSet};
use crate::chess::{move_text, parse_move_text, spec_play, spec_san_move, spec_zobrist, start_fen, ChessMove, Position};
use crate::text::{
    chars_of, ends_with, is_digit, lines, pieces, push_all, push_str, split_lines, split_on,
    split_words, string_of, texts, trim, trimmed, words,
};

verus! {

#[derive(Debug, Clone, PartialEq, Eq)]
pub struct Opening {
    pub eco: String,
    pub name: String,
}

pub struct OpeningView {
    pub eco: Seq<char>,
    pub name: Seq<char>,
}

impl View for Opening {
    type V = OpeningView;

    open spec fn view(&self) -> OpeningView {
        OpeningView { eco: self.eco@, name: self.name@ }
    }
}

/// `Name (ECO)`.
pub open spec fn opening_label(o: OpeningView) -> Seq<char> {
    o.name + " ("@ + o.eco + ")"@
}

impl Opening {
    pub fn label(&self) -> (s: String)
        ensures
            s@ == opening_label(self@),
    {
        let mut out = chars_of(self.name.as_str());
        push_str(&mut out, " (");
        push_str(&mut out, self.eco.as_str());
        push_str(&mut out, ")");
        string_of(&out)
    }

    pub fn duplicate(&self) -> (o: Opening)
        ensures
            o@ == self@,
    {
        Opening { eco: self.eco.clone(), name: self.name.clone() }
    }
}


broadcast use vstd::std_specs::hash::group_hash_axioms;

/// The position after one SAN token of a database line.
pub open spec fn line_step(fen: Seq<char>, tok: Seq<char>) -> Option<Seq<char>> {
    match spec_san_move(fen, tok) {
        Some(t) => match parse_move_text(t) {
            Some(m) => spec_play(fen, move_text(m)),
            None => None,
        },
        None => None,
    }
}

/// Replaying the tokens of a line from `fen`: the positions reached, in order,
/// and the final position, or `None` when a token is not a playable move.
/// Move numbers (`1.`, `1...`, any token ending in `.` or starting with a
/// digit) are skipped.
pub open spec fn replay(fen: Seq<char>, toks: Seq<Seq<char>>) -> (Seq<Seq<char>>, Option<Seq<char>>)
    decreases toks.len(),
{
    if toks.len() == 0 {
        (seq![], Some(fen))
    } else {
        let t = toks[0];
        let rest = toks.drop_first();
        if ends_with(t, seq!['.']) {
            replay(fen, rest)
        } else if t.len() == 0 {
            (seq![], None)
        } else if is_digit(t[0]) {
            replay(fen, rest)
        } else {
            match line_step(fen, t) {
                Some(f) => {
                    let r = replay(f, rest);
                    (seq![f] + r.0, r.1)
                },
                None => (seq![], None),
            }
        }
    }
}

/// `m` with `index` appended to the list under `key`.
pub open spec fn registered(m: Map<u64, Seq<u32>>, key: u64, index: u32) -> Map<u64, Seq<u32>> {
    m.insert(
        key,
        (if m.contains_key(key) {
            m[key]
        } else {
            seq![]
        }).push(index),
    )
}

/// `m` with `index` appended under the key of each position of `fens`, in order.
pub open spec fn register_all(m: Map<u64, Seq<u32>>, fens: Seq<Seq<char>>, index: u32) -> Map<
    u64,
    Seq<u32>,
>
    decreases fens.len(),
{
    if fens.len() == 0 {
        m
    } else {
        register_all(registered(m, spec_zobrist(fens[0]), index), fens.drop_first(), index)
    }
}

/// Every position recorded is on at least one line.
pub open spec fn lists_nonempty(m: Map<u64, Seq<u32>>) -> bool {
    forall|k: u64| #[trigger] m.contains_key(k) ==> m[k].len() > 0
}

proof fn lemma_register_all_nonempty(m: Map<u64, Seq<u32>>, fens: Seq<Seq<char>>, index: u32)
    requires
        lists_nonempty(m),
    ensures
        lists_nonempty(register_all(m, fens, index)),
    decreases fens.len(),
{
    if fens.len() > 0 {
        let m1 = registered(m, spec_zobrist(fens[0]), index);
        assert(lists_nonempty(m1));
        lemma_register_all_nonempty(m1, fens.drop_first(), index);
    }
}

proof fn lemma_load_rows_nonempty(b: BookView, ls: Seq<Seq<char>>)
    requires
        lists_nonempty(b.through),
    ensures
        lists_nonempty(load_rows(b, ls).through),
    decreases ls.len(),
{
    if ls.len() > 0 {
        let l = ls[0];
        let f = pieces(l, '\t');
        if !(trim(l).len() == 0 || f.len() < 3) {
            let idx = b.openings.len() as u32;
            let r = replay(start_fen(), words(f[2]));
            lemma_register_all_nonempty(b.through, seq![start_fen()] + r.0, idx);
        }
        let next = if trim(l).len() == 0 || f.len() < 3 {
            b
        } else {
            let idx = b.openings.len() as u32;
            let r = replay(start_fen(), words(f[2]));
            let through = register_all(b.through, seq![start_fen()] + r.0, idx);
            match r.1 {
                Some(e) => BookView {
                    openings: b.openings.push(OpeningView { eco: f[0], name: f[1] }),
                    through,
                    endings: b.endings.insert(spec_zobrist(e), idx),
                },
                None => BookView { openings: b.openings, through, endings: b.endings },
            }
        };
        lemma_load_rows_nonempty(next, ls.drop_first());
    }
}

pub struct BookView {
    pub openings: Seq<OpeningView>,
    /// Position key -> the lines that pass through it.
    pub through: Map<u64, Seq<u32>>,
    /// Position key -> the line that ends there.
    pub endings: Map<u64, u32>,
}

/// The book after reading the database rows `ls`: a row needs an ECO code, a
/// name and a line separated by tabs; every position its line reaches is
/// recorded, and a line that replays to its end is named and recorded as
/// ending at its last position. Blank rows and rows without three fields are
/// skipped.
pub open spec fn load_rows(b: BookView, ls: Seq<Seq<char>>) -> BookView
    decreases ls.len(),
{
    if ls.len() == 0 {
        b
    } else {
        let l = ls[0];
        let f = pieces(l, '\t');
        let next = if trim(l).len() == 0 || f.len() < 3 {
            b
        } else {
            let idx = b.openings.len() as u32;
            let r = replay(start_fen(), words(f[2]));
            let through = register_all(b.through, seq![start_fen()] + r.0, idx);
            match r.1 {
                Some(e) => BookView {
                    openings: b.openings.push(OpeningView { eco: f[0], name: f[1] }),
                    through,
                    endings: b.endings.insert(spec_zobrist(e), idx),
                },
                None => BookView { openings: b.openings, through, endings: b.endings },
            }
        };
        load_rows(next, ls.drop_first())
    }
}

pub open spec fn empty_book() -> BookView {
    BookView { openings: seq![], through: Map::empty(), endings: Map::empty() }
}

/// The book a TSV database reads as: its header row skipped.
pub open spec fn book_of_tsv(text: Seq<char>) -> BookView {
    let ls = lines(text);
    load_rows(
        empty_book(),
        if ls.len() > 0 {
            ls.skip(1)
        } else {
            ls
        },
    )
}

/// The opening database, indexed by position.
pub struct Book {
    openings: Vec<Opening>,
    /// Position -> the database lines that pass *through* it. The length of the
    /// list is what separates a main line from an obscure sideline: 1.e4 e5 is
    /// on hundreds of lines, the Bulgarian Variation on one. Without this the
    /// book can only say "named", never "usual", and a drill has no way to pick
    /// which move to teach.
    through: HashMap<u64, Vec<u32>>,
    /// Position -> the line that *ends* there. Walking the game forward and
    /// keeping the last hit lands on the most specific name, without having to
    /// compare line lengths.
    endings: HashMap<u64, u32>,
}

impl View for Book {
    type V = BookView;

    closed spec fn view(&self) -> BookView {
        BookView {
            openings: self.openings@.map_values(|o: Opening| o@),
            through: self.through@.map_values(|v: Vec<u32>| v@),
            endings: self.endings@,
        }
    }
}

impl Book {
    /// The book has no more lines than a `u32` can number, and every
    /// position it records is on at least one line.
    pub open spec fn wf(&self) -> bool {
        &&& self@.openings.len() <= u32::MAX
        &&& lists_nonempty(self@.through)
    }

    /// An empty book.
    pub fn new() -> (b: Book)
        ensures
            b@ == empty_book(),
            b.wf(),
    {
        let b = Book { openings: Vec::new(), through: HashMap::new(), endings: HashMap::new() };
        assert(b@.openings =~= Seq::<OpeningView>::empty());
        assert(b@.through =~= Map::<u64, Seq<u32>>::empty());
        b
    }

    fn register(&mut self, key: u64, index: u32)
        ensures
            final(self)@ == (BookView {
                openings: old(self)@.openings,
                through: registered(old(self)@.through, key, index),
                endings: old(self)@.endings,
            }),
    {
        let mut list = match self.through.remove(&key) {
            Some(v) => v,
            None => Vec::new(),
        };
        list.push(index);
        self.through.insert(key, list);
        assert(self@.through =~= registered(old(self)@.through, key, index));
    }

    /// Replay one SAN line, recording every position along it as belonging to
    /// line `index`. Returns the key of the final position, or `None` if the
    /// line did not parse.
    ///
    /// A rejected line may already have registered some of its positions. That
    /// is harmless — those positions are real theory regardless — and cheaper
    /// than buffering every line to roll it back.
    pub fn add_line(&mut self, pgn: &[char], index: u32) -> (r: Option<u64>)
        ensures
            ({
                let rp = replay(start_fen(), words(pgn@));
                &&& final(self)@ == (BookView {
                    openings: old(self)@.openings,
                    through: register_all(old(self)@.through, seq![start_fen()] + rp.0, index),
                    endings: old(self)@.endings,
                })
                &&& r == (match rp.1 {
                    Some(e) => Some(spec_zobrist(e)),
                    None => None,
                })
            }),
    {
        let toks = split_words(pgn);
        let ghost ts = texts(toks@);
        let mut pos = Position::initial();
        let ghost t0 = old(self)@.through;
        self.register(pos.key(), index);
        let ghost mut seen: Seq<Seq<char>> = seq![start_fen()];
        assert(register_all(t0, seen, index) == registered(t0, spec_zobrist(start_fen()), index)) by {
            assert(seen.drop_first().len() == 0);
            reveal_with_fuel(register_all, 2);
        }
        assert(ts.skip(0) == ts);
        assert(seen.drop_first() + replay(start_fen(), ts).0 =~= replay(start_fen(), ts).0);
        let mut dot: Vec<char> = Vec::new();
        dot.push('.');
        assert(dot@ =~= seq!['.']);
        let mut i: usize = 0;
        while i < toks.len()
            invariant
                i <= toks.len(),
                ts == texts(toks@),
                ts == words(pgn@),
                dot@ == seq!['.'],
                self@.openings == old(self)@.openings,
                self@.endings == old(self)@.endings,
                t0 == old(self)@.through,
                replay(start_fen(), ts) == ({
                    let r = replay(pos@, ts.skip(i as int));
                    (seen.drop_first() + r.0, r.1)
                }),
                seen.len() >= 1,
                seen[0] == start_fen(),
                seen.last() == pos@,
                self@.through == register_all(t0, seen, index),
            decreases toks.len() - i,
        {
            let tok = toks[i].as_slice();
            let ghost rest = ts.skip(i as int);
            assert(rest[0] == tok@);
            assert(rest.drop_first() == ts.skip(i + 1));
            if crate::text::text_ends_with(tok, dot.as_slice()) {
            } else if tok.len() == 0 {
                proof {
                    assert(replay(pos@, rest) == (Seq::<Seq<char>>::empty(), None::<Seq<char>>));
                    assert(seen =~= seq![start_fen()] + seen.drop_first());
                    assert(seen.drop_first() + Seq::<Seq<char>>::empty() =~= seen.drop_first());
                    assert(seq![start_fen()] + replay(start_fen(), ts).0 =~= seen);
                    assert(replay(start_fen(), ts).1 is None);
                    assert(self@.through == register_all(t0, seq![start_fen()] + replay(start_fen(), ts).0, index));
                }
                return None;
            } else if '0' <= tok[0] && tok[0] <= '9' {
            } else {
                let next = match pos.san_move(tok) {
                    Some(m) => pos.play(&m),
                    None => None,
                };
                match next {
                    Some(n) => {
                        let k = n.key();
                        self.register(k, index);
                        proof {
                            lemma_register_all_append(t0, seen, seq![n@], index);
                            assert(register_all(register_all(t0, seen, index), seq![n@], index) == registered(register_all(t0, seen, index), spec_zobrist(n@), index)) by {
                                reveal_with_fuel(register_all, 2);
                                assert(seq![n@].drop_first().len() == 0);
                            }
                            assert(seen + seq![n@] =~= seen.push(n@));
                            let r = replay(n@, ts.skip(i + 1));
                            assert(seen.drop_first() + (seq![n@] + r.0) =~= seen.push(n@).drop_first() + r.0);
                            seen = seen.push(n@);
                        }
                        pos = n;
                    },
                    None => {
                        proof {
                            assert(replay(pos@, rest) == (Seq::<Seq<char>>::empty(), None::<Seq<char>>));
                            assert(seen =~= seq![start_fen()] + seen.drop_first());
                            assert(seen.drop_first() + Seq::<Seq<char>>::empty() =~= seen.drop_first());
                            assert(seq![start_fen()] + replay(start_fen(), ts).0 =~= seen);
                        }
                        return None;
                    },
                }
            }
            i = i + 1;
        }
        proof {
            assert(ts.skip(toks.len() as int).len() == 0);
            assert(seen =~= seq![start_fen()] + seen.drop_first());
            assert(seen.drop_first() + Seq::<Seq<char>>::empty() =~= seen.drop_first());
            assert(seq![start_fen()] + replay(start_fen(), ts).0 =~= seen);
        }
        Some(pos.key())
    }
}

proof fn lemma_register_all_append(m: Map<u64, Seq<u32>>, a: Seq<Seq<char>>, b: Seq<Seq<char>>, index: u32)
    ensures
        register_all(register_all(m, a, index), b, index) == register_all(m, a + b, index),
    decreases a.len(),
{
    if a.len() > 0 {
        lemma_register_all_append(registered(m, spec_zobrist(a[0]), index), a.drop_first(), b, index);
        assert((a + b).drop_first() =~= a.drop_first() + b);
        assert((a + b)[0] == a[0]);
    } else {
        assert(a + b =~= b);
    }
}


proof fn lemma_pieces_len(s: Seq<char>, sep: char)
    ensures
        crate::text::pieces(s, sep).len() <= s.len() + 1,
    decreases s.len(),
{
    if s.len() > 0 {
        lemma_pieces_len(s.drop_last(), sep);
        let f = crate::text::pieces(s.drop_last(), sep);
        assert(f.len() <= s.len());
        if s.last() == sep {
            assert(crate::text::pieces(s, sep) == f.push(seq![]));
        } else {
            crate::text::lemma_pieces_nonempty(s.drop_last(), sep);
            assert(crate::text::pieces(s, sep) == f.update(f.len() - 1, f.last().push(s.last())));
        }
    }
}

proof fn lemma_load_rows_grows(b: BookView, ls: Seq<Seq<char>>)
    ensures
        load_rows(b, ls).openings.len() <= b.openings.len() + ls.len(),
    decreases ls.len(),
{
    if ls.len() > 0 {
        let l = ls[0];
        let f = pieces(l, '\t');
        let next = if trim(l).len() == 0 || f.len() < 3 {
            b
        } else {
            let idx = b.openings.len() as u32;
            let r = replay(start_fen(), words(f[2]));
            let through = register_all(b.through, seq![start_fen()] + r.0, idx);
            match r.1 {
                Some(e) => BookView {
                    openings: b.openings.push(OpeningView { eco: f[0], name: f[1] }),
                    through,
                    endings: b.endings.insert(spec_zobrist(e), idx),
                },
                None => BookView { openings: b.openings, through, endings: b.endings },
            }
        };
        lemma_load_rows_grows(next, ls.drop_first());
    }
}

impl Book {
    /// Read the database: a header row, then one opening per row as ECO
    /// code, name and the line in SAN with move numbers, separated by tabs.
    /// Malformed rows are skipped rather than fatal: a book with a hole in it
    /// is still worth having.
    pub fn load(text: &str) -> (b: Book)
        requires
            text@.len() < u32::MAX,
        ensures
            b@ == book_of_tsv(text@),
            b.wf(),
    {
        let chars = chars_of(text);
        let ls = split_lines(chars.as_slice());
        let ghost all = lines(text@);
        proof {
            lemma_pieces_len(text@, '\n');
            crate::text::lemma_pieces_nonempty(text@, '\n');
            assert(all.len() <= crate::text::pieces(text@, '\n').len());
        }
        let mut book = Book::new();
        proof {
            let all = lines(text@);
            lemma_load_rows_nonempty(
                empty_book(),
                if all.len() > 0 {
                    all.skip(1)
                } else {
                    all
                },
            );
        }
        if ls.len() == 0 {
            return book;
        }
        let ghost rows = all.skip(1);
        let mut i: usize = 1;
        assert(all.skip(1).skip(0) == all.skip(1));
        proof {
            lemma_load_rows_grows(empty_book(), rows);
        }
        while i < ls.len()
            invariant
                1 <= i <= ls.len(),
                texts(ls@) == all,
                all.len() <= text@.len() + 1,
                text@.len() < u32::MAX,
                rows == all.skip(1),
                book_of_tsv(text@) == load_rows(book@, all.skip(i as int)),
                book@.openings.len() <= i - 1,
            decreases ls.len() - i,
        {
            let ghost rest = all.skip(i as int);
            assert(rest[0] == ls@[i as int]@);
            assert(rest.drop_first() == all.skip(i + 1));
            let line = ls[i].as_slice();
            let t = trimmed(line);
            if t.len() > 0 {
                let f = split_on(line, '\t');
                if f.len() >= 3 {
                    assert(f@[2]@ == texts(f@)[2]);
                    assert(f@[0]@ == texts(f@)[0]);
                    assert(f@[1]@ == texts(f@)[1]);
                    let idx = book.openings.len() as u32;
                    assert(book@.openings.len() == book.openings@.len());
                    let end = book.add_line(f[2].as_slice(), idx);
                    match end {
                        Some(e) => {
                            let o = Opening { eco: string_of(&f[0]), name: string_of(&f[1]) };
                            let ghost ob = book.openings@;
                            book.openings.push(o);
                            book.endings.insert(e, idx);
                            assert(book@.openings =~= ob.map_values(|o: Opening| o@).push(o@));
                        },
                        None => {},
                    }
                }
            }
            i = i + 1;
        }
        assert(all.skip(ls.len() as int).len() == 0);
        book
    }

    pub fn is_empty(&self) -> (b: bool)
        ensures
            b == (self@.openings.len() == 0),
    {
        self.openings.len() == 0
    }

    /// How many named lines the book holds.
    pub fn opening_count(&self) -> (n: usize)
        ensures
            n == self@.openings.len(),
    {
        self.openings.len()
    }

    /// How many distinct positions the book records.
    pub fn position_count(&self) -> (n: usize)
        ensures
            n == self@.through.len(),
    {
        assert(self@.through.dom() =~= self.through@.dom());
        self.through.len()
    }

    /// Identifies a position, for callers that only want to know whether it
    /// changed. Cheaper than cloning or comparing the board.
    pub fn position_key(&self, pos: &Position) -> (k: u64)
        ensures
            k == spec_zobrist(pos@),
    {
        pos.key()
    }

    /// Is this position still somewhere in known theory?
    pub fn contains(&self, pos: &Position) -> (b: bool)
        ensures
            b == self@.through.contains_key(spec_zobrist(pos@)),
    {
        let k = pos.key();
        self.through.contains_key(&k)
    }

    /// How many database lines run through this position. A rough stand-in for
    /// how mainstream it is — the database carries no popularity data.
    pub fn traffic(&self, pos: &Position) -> (n: usize)
        ensures
            n == (if self@.through.contains_key(spec_zobrist(pos@)) {
                self@.through[spec_zobrist(pos@)].len()
            } else {
                0
            }),
            self.wf() ==> (n > 0 <==> self@.through.contains_key(spec_zobrist(pos@))),
    {
        let k = pos.key();
        match self.through.get(&k) {
            Some(v) => v.len(),
            None => 0,
        }
    }

    /// The opening this exact position is the endpoint of, if any.
    pub fn name(&self, pos: &Position) -> (o: Option<&Opening>)
        ensures
            o matches Some(x) ==> self@.endings.contains_key(spec_zobrist(pos@)) && self@.endings[spec_zobrist(pos@)] < self@.openings.len()
                && x@ == self@.openings[self@.endings[spec_zobrist(pos@)] as int],
            o is None ==> !(self@.endings.contains_key(spec_zobrist(pos@)) && self@.endings[spec_zobrist(pos@)] < self@.openings.len()),
    {
        let k = pos.key();
        match self.endings.get(&k) {
            Some(i) => {
                if (*i as usize) < self.openings.len() {
                    Some(&self.openings[*i as usize])
                } else {
                    None
                }
            },
            None => None,
        }
    }
}


/// How many alternative book moves to name when you leave theory. Some
/// positions have a dozen; a coach names two or three.
pub const MAX_CONTINUATIONS: usize = 3;

/// A subset of the database, selected by name or ECO code — the lines you are
/// actually trying to learn.
#[derive(Debug, Clone)]
pub struct Repertoire {
    /// Indices into the book's openings, ascending.
    lines: Vec<u32>,
    /// What the user asked for, for display.
    pub label: String,
}

pub struct RepertoireView {
    pub lines: Seq<u32>,
    pub label: Seq<char>,
}

impl View for Repertoire {
    type V = RepertoireView;

    closed spec fn view(&self) -> RepertoireView {
        RepertoireView { lines: self.lines@, label: self.label@ }
    }
}

/// Whether an opening answers a filter: its lower-cased name contains the
/// needle, or its ECO code equals it ignoring ASCII case.
pub open spec fn matches_filter(o: OpeningView, needle: Seq<char>) -> bool {
    crate::text::has_sub(crate::text::spec_lowercase(o.name), needle)
        || crate::text::eq_ignore_ascii(o.eco, needle)
}

/// The indices below `n` of the openings that answer `needle`, ascending.
pub open spec fn matching_lines(ops: Seq<OpeningView>, needle: Seq<char>, n: nat) -> Seq<u32>
    decreases n,
{
    if n == 0 {
        seq![]
    } else {
        let before = matching_lines(ops, needle, (n - 1) as nat);
        if matches_filter(ops[n - 1], needle) {
            before.push((n - 1) as u32)
        } else {
            before
        }
    }
}

impl Repertoire {
    /// How many database lines the repertoire holds.
    pub fn lines(&self) -> (n: usize)
        ensures
            n == self@.lines.len(),
    {
        self.lines.len()
    }

    /// What the user asked for.
    pub fn label_str(&self) -> (s: &str)
        ensures
            s@ == self@.label,
    {
        self.label.as_str()
    }

    /// A repertoire matching nothing, for exercising the empty-book paths.
    pub fn empty(label: &str) -> (r: Repertoire)
        ensures
            r@.lines.len() == 0,
            r@.label == label@,
    {
        Repertoire { lines: Vec::new(), label: String::from_str(label) }
    }

    pub fn duplicate(&self) -> (r: Repertoire)
        ensures
            r@ == self@,
    {
        Repertoire { lines: self.lines.clone(), label: self.label.clone() }
    }

    /// Whether line `i` belongs to the repertoire.
    pub fn has_line(&self, i: u32) -> (b: bool)
        ensures
            b == self@.lines.contains(i),
    {
        let mut k: usize = 0;
        while k < self.lines.len()
            invariant
                k <= self.lines.len(),
                forall|j: int| 0 <= j < k ==> self.lines@[j] != i,
            decreases self.lines.len() - k,
        {
            if self.lines[k] == i {
                return true;
            }
            k = k + 1;
        }
        false
    }
}

/// How many of `lines` belong to `rep`.
pub open spec fn count_in(lines: Seq<u32>, rep: Seq<u32>) -> nat
    decreases lines.len(),
{
    if lines.len() == 0 {
        0
    } else {
        count_in(lines.drop_last(), rep) + (if rep.contains(lines.last()) {
            1nat
        } else {
            0nat
        })
    }
}

/// How much a position weighs as a continuation: the database lines through
/// it, counting only the repertoire's when one is given.
pub open spec fn weight_of(lines: Seq<u32>, within: Option<Seq<u32>>) -> nat {
    match within {
        Some(rep) => count_in(lines, rep),
        None => lines.len(),
    }
}

/// A book move: its SAN, the move, how many lines it keeps you on, and its
/// place in the legal-move list.
pub struct RankedView {
    pub san: Seq<char>,
    pub mv: ChessMove,
    pub weight: nat,
    pub idx: nat,
}

/// `a` ranks no lower than `b`: more traffic first, then SAN in `String`
/// order, then move-list order.
pub open spec fn rank_leq(a: RankedView, b: RankedView) -> bool {
    a.weight > b.weight || (a.weight == b.weight && (crate::text::lex_lt(a.san, b.san) || (a.san
        == b.san && a.idx <= b.idx)))
}

/// The book moves among `moves` (the legal moves of `fen`, in order): each
/// move whose resulting position the book records with positive weight.
pub open spec fn candidates(b: BookView, fen: Seq<char>, within: Option<Seq<u32>>, moves: Seq<ChessMove>) -> Seq<RankedView>
    decreases moves.len(),
{
    if moves.len() == 0 {
        seq![]
    } else {
        let before = candidates(b, fen, within, moves.drop_last());
        let m = moves.last();
        match spec_play(fen, move_text(m)) {
            Some(next) => {
                let k = spec_zobrist(next);
                if b.through.contains_key(k) && weight_of(b.through[k], within) > 0 {
                    before.push(
                        RankedView {
                            san: match crate::chess::spec_san(fen, move_text(m)) {
                                Some(x) => x,
                                None => seq![],
                            },
                            mv: m,
                            weight: weight_of(b.through[k], within),
                            idx: (moves.len() - 1) as nat,
                        },
                    )
                } else {
                    before
                }
            },
            None => before,
        }
    }
}

/// The book moves of a position, as the ranking sees them.
pub open spec fn book_moves(b: BookView, fen: Seq<char>, within: Option<Seq<u32>>) -> Seq<RankedView> {
    candidates(b, fen, within, crate::chess::moves_of(crate::chess::spec_legal_moves(fen)))
}

/// Every move of `s` ranks no lower than every move after it.
pub open spec fn sorted_ranks(s: Seq<RankedView>) -> bool {
    forall|i: int, j: int| 0 <= i < j < s.len() ==> rank_leq(#[trigger] s[i], #[trigger] s[j])
}

/// `rk` is `cands` in rank order.
pub open spec fn is_ranking(rk: Seq<RankedView>, cands: Seq<RankedView>) -> bool {
    sorted_ranks(rk) && rk.to_multiset() == cands.to_multiset()
}

/// `v` is one of `cands` and ranks no lower than any of them.
pub open spec fn is_best(v: RankedView, cands: Seq<RankedView>) -> bool {
    cands.contains(v) && forall|j: int| 0 <= j < cands.len() ==> rank_leq(v, #[trigger] cands[j])
}

/// The SANs of a ranking, in order.
pub open spec fn sans(rk: Seq<RankedView>) -> Seq<Seq<char>> {
    rk.map_values(|r: RankedView| r.san)
}

/// The repertoire's lines, when one is given.
pub open spec fn rep_lines(within: Option<&Repertoire>) -> Option<Seq<u32>> {
    match within {
        Some(r) => Some(r@.lines),
        None => None,
    }
}

/// The needle a filter selects by: trimmed, then lower-cased.
pub open spec fn filter_needle(filter: Seq<char>) -> Seq<char> {
    crate::text::spec_lowercase(trim(filter))
}

/// Every book move is playable in the position it is a move of.
pub proof fn lemma_candidates_play(b: BookView, fen: Seq<char>, within: Option<Seq<u32>>, moves: Seq<ChessMove>)
    ensures
        forall|k: int|
            0 <= k < candidates(b, fen, within, moves).len() ==> spec_play(
                fen,
                move_text(#[trigger] candidates(b, fen, within, moves)[k].mv),
            ) is Some,
    decreases moves.len(),
{
    if moves.len() > 0 {
        lemma_candidates_play(b, fen, within, moves.drop_last());
    }
}

proof fn lemma_candidates_increasing(b: BookView, fen: Seq<char>, within: Option<Seq<u32>>, moves: Seq<ChessMove>)
    ensures
        forall|i: int, j: int|
            0 <= i < j < candidates(b, fen, within, moves).len() ==> #[trigger] candidates(
                b,
                fen,
                within,
                moves,
            )[i].idx < #[trigger] candidates(b, fen, within, moves)[j].idx,
        forall|i: int|
            0 <= i < candidates(b, fen, within, moves).len() ==> #[trigger] candidates(
                b,
                fen,
                within,
                moves,
            )[i].idx < moves.len(),
    decreases moves.len(),
{
    if moves.len() > 0 {
        lemma_candidates_increasing(b, fen, within, moves.drop_last());
    }
}

proof fn lemma_ranking_unique(x: Seq<RankedView>, y: Seq<RankedView>)
    requires
        sorted_ranks(x),
        sorted_ranks(y),
        x.to_multiset() == y.to_multiset(),
        forall|a: RankedView, b: RankedView|
            x.contains(a) && x.contains(b) && a.idx == b.idx ==> a == b,
    ensures
        x == y,
    decreases x.len(),
{
    broadcast use vstd::seq_lib::group_to_multiset_ensures;

    if x.len() == 0 || y.len() == 0 {
        assert(x.len() == y.len());
        assert(x =~= y);
    } else {
        assert(x.to_multiset().count(x[0]) > 0);
        assert(y.contains(x[0]));
        assert(y.to_multiset().count(y[0]) > 0);
        assert(x.contains(y[0]));
        let k = choose|k: int| 0 <= k < y.len() && y[k] == x[0];
        let i = choose|i: int| 0 <= i < x.len() && x[i] == y[0];
        if k > 0 {
            assert(rank_leq(y[0], y[k]));
        }
        if i > 0 {
            assert(rank_leq(x[0], x[i]));
        }
        assert(rank_leq(y[0], x[0]));
        assert(rank_leq(x[0], y[0]));
        crate::text::lemma_lex_asymmetric(x[0].san, y[0].san);
        assert(x[0].idx == y[0].idx);
        assert(x[0] == y[0]);
        assert(x.remove(0) =~= x.drop_first());
        assert(y.remove(0) =~= y.drop_first());
        assert(x.drop_first().to_multiset() == y.drop_first().to_multiset());
        assert forall|a: RankedView, b: RankedView|
            x.drop_first().contains(a) && x.drop_first().contains(b) && a.idx == b.idx implies a
            == b by {
            let ia = choose|ia: int| 0 <= ia < x.drop_first().len() && x.drop_first()[ia] == a;
            let ib = choose|ib: int| 0 <= ib < x.drop_first().len() && x.drop_first()[ib] == b;
            assert(x[ia + 1] == a);
            assert(x[ib + 1] == b);
            assert(x.contains(a));
            assert(x.contains(b));
        }
        lemma_ranking_unique(x.drop_first(), y.drop_first());
        assert(x =~= seq![x[0]] + x.drop_first());
        assert(y =~= seq![y[0]] + y.drop_first());
    }
}

/// The book moves of a position have exactly one ranking: whatever two
/// orderings put them in rank order, they are the same sequence.
pub proof fn law_book_moves_have_one_ranking(
    b: BookView,
    fen: Seq<char>,
    within: Option<Seq<u32>>,
    rk1: Seq<RankedView>,
    rk2: Seq<RankedView>,
)
    requires
        is_ranking(rk1, book_moves(b, fen, within)),
        is_ranking(rk2, book_moves(b, fen, within)),
    ensures
        rk1 == rk2,
{
    broadcast use vstd::seq_lib::group_to_multiset_ensures;

    let cands = book_moves(b, fen, within);
    lemma_candidates_increasing(
        b,
        fen,
        within,
        crate::chess::moves_of(crate::chess::spec_legal_moves(fen)),
    );
    assert forall|x: RankedView, y: RankedView|
        rk1.contains(x) && rk1.contains(y) && x.idx == y.idx implies x == y by {
        assert(rk1.to_multiset().count(x) > 0);
        assert(rk1.to_multiset().count(y) > 0);
        assert(cands.contains(x));
        assert(cands.contains(y));
        let i = choose|i: int| 0 <= i < cands.len() && cands[i] == x;
        let j = choose|j: int| 0 <= j < cands.len() && cands[j] == y;
        if i < j {
            assert(cands[i].idx < cands[j].idx);
        } else if j < i {
            assert(cands[j].idx < cands[i].idx);
        }
    }
    lemma_ranking_unique(rk1, rk2);
}

pub proof fn lemma_rank_total(a: RankedView, b: RankedView)
    ensures
        rank_leq(a, b) || rank_leq(b, a),
{
    if a.weight == b.weight && a.san != b.san {
        crate::text::lemma_lex_total(a.san, b.san);
    }
}

pub proof fn lemma_rank_transitive(a: RankedView, b: RankedView, c: RankedView)
    requires
        rank_leq(a, b),
        rank_leq(b, c),
    ensures
        rank_leq(a, c),
{
    if a.weight == b.weight && b.weight == c.weight {
        if crate::text::lex_lt(a.san, b.san) && crate::text::lex_lt(b.san, c.san) {
            crate::text::lemma_lex_transitive(a.san, b.san, c.san);
        }
    }
}

/// A book move as the ranking holds it.
struct Ranked {
    san: Vec<char>,
    mv: ChessMove,
    weight: usize,
    idx: usize,
}

impl View for Ranked {
    type V = RankedView;

    closed spec fn view(&self) -> RankedView {
        RankedView { san: self.san@, mv: self.mv, weight: self.weight as nat, idx: self.idx as nat }
    }
}

spec fn views(s: Seq<Ranked>) -> Seq<RankedView> {
    s.map_values(|r: Ranked| r@)
}

/// Whether `a` ranks no lower than `b`.
fn ranks_before(a: &Ranked, b: &Ranked) -> (r: bool)
    ensures
        r == rank_leq(a@, b@),
{
    if a.weight != b.weight {
        return a.weight > b.weight;
    }
    if crate::text::text_less(a.san.as_slice(), b.san.as_slice()) {
        return true;
    }
    if crate::text::text_less(b.san.as_slice(), a.san.as_slice()) {
        proof {
            crate::text::lemma_lex_asymmetric(a.san@, b.san@);
            crate::text::lemma_lex_irreflexive(a.san@);
        }
        return false;
    }
    proof {
        if a.san@ != b.san@ {
            crate::text::lemma_lex_total(a.san@, b.san@);
        }
    }
    a.idx <= b.idx
}

/// Insert `x` into a ranked list, keeping it ranked.
fn insert_ranked(out: &mut Vec<Ranked>, x: Ranked)
    requires
        sorted_ranks(views(old(out)@)),
    ensures
        sorted_ranks(views(final(out)@)),
        views(final(out)@).to_multiset() == views(old(out)@).to_multiset().insert(x@),
{
    let ghost vs = views(out@);
    let mut j: usize = 0;
    let mut done = false;
    while j < out.len() && !done
        invariant
            j <= out.len(),
            vs == views(out@),
            sorted_ranks(vs),
            forall|k: int| 0 <= k < j ==> rank_leq(#[trigger] vs[k], x@),
            done ==> j < out.len() && !rank_leq(vs[j as int], x@),
        decreases (out.len() - j) * 2 + (if done {
            0int
        } else {
            1int
        }),
    {
        if ranks_before(&out[j], &x) {
            j = j + 1;
        } else {
            done = true;
        }
    }
    proof {
        assert forall|k: int| j <= k < vs.len() implies rank_leq(x@, #[trigger] vs[k]) by {
            lemma_rank_total(vs[j as int], x@);
            if k > j {
                lemma_rank_transitive(x@, vs[j as int], vs[k]);
            }
        }
    }
    out.insert(j, x);
    proof {
        let ns = views(out@);
        assert(ns =~= vs.insert(j as int, x@));
        vstd::seq_lib::to_multiset_insert(vs, j as int, x@);
        assert forall|a: int, b: int| 0 <= a < b < ns.len() implies rank_leq(#[trigger] ns[a], #[trigger] ns[b]) by {
            if b < j {
            } else if b == j {
                assert(ns[a] == vs[a]);
            } else if a < j {
                assert(ns[a] == vs[a]);
                assert(ns[b] == vs[b - 1]);
                lemma_rank_transitive(vs[a], x@, vs[b - 1]);
            } else if a == j {
                assert(ns[b] == vs[b - 1]);
            } else {
                assert(ns[a] == vs[a - 1]);
                assert(ns[b] == vs[b - 1]);
            }
        }
    }
}

/// How many of `list` count for the repertoire, or all of them without one.
fn weigh(list: &Vec<u32>, within: Option<&Repertoire>) -> (w: usize)
    ensures
        w == weight_of(list@, rep_lines(within)),
{
    match within {
        None => list.len(),
        Some(rep) => {
            let mut c: usize = 0;
            let mut j: usize = 0;
            while j < list.len()
                invariant
                    j <= list.len(),
                    c <= j,
                    c == count_in(list@.take(j as int), rep@.lines),
                decreases list.len() - j,
            {
                assert(list@.take(j + 1).drop_last() == list@.take(j as int));
                assert(list@.take(j + 1).last() == list@[j as int]);
                if rep.has_line(list[j]) {
                    c = c + 1;
                }
                j = j + 1;
            }
            assert(list@.take(list.len() as int) == list@);
            c
        },
    }
}

impl Book {
    /// Select the lines whose name contains `filter`, or whose ECO code equals
    /// it. `None` when nothing matched, so a typo is reported rather than
    /// silently drilling the whole database.
    pub fn repertoire(&self, filter: &str) -> (r: Option<Repertoire>)
        requires
            self.wf(),
        ensures
            ({
                let needle = filter_needle(filter@);
                let found = matching_lines(self@.openings, needle, self@.openings.len());
                &&& (r is None <==> (needle.len() == 0 || found.len() == 0))
                &&& (r matches Some(rep) ==> rep@.lines == found && rep@.label == trim(filter@))
            }),
    {
        let fc = chars_of(filter);
        let t = trimmed(fc.as_slice());
        let needle = crate::text::lowercase(t.as_slice());
        if needle.len() == 0 {
            return None;
        }
        let mut lines: Vec<u32> = Vec::new();
        let mut i: usize = 0;
        assert(self@.openings.len() == self.openings@.len());
        while i < self.openings.len()
            invariant
                i <= self.openings.len(),
                self@.openings.len() == self.openings@.len(),
                self.openings@.len() <= u32::MAX,
                needle@ == filter_needle(filter@),
                lines@ == matching_lines(self@.openings, needle@, i as nat),
            decreases self.openings.len() - i,
        {
            let o = &self.openings[i];
            assert(self@.openings[i as int] == o@);
            let name = chars_of(o.name.as_str());
            let lname = crate::text::lowercase(name.as_slice());
            let eco = chars_of(o.eco.as_str());
            if crate::text::contains_text(lname.as_slice(), needle.as_slice())
                || crate::text::same_ignoring_ascii_case(eco.as_slice(), needle.as_slice()) {
                lines.push(i as u32);
            }
            i = i + 1;
        }
        if lines.len() == 0 {
            return None;
        }
        Some(Repertoire { lines, label: string_of(&t) })
    }

    /// Every book move from this position, most-travelled first. Derived by
    /// trying each legal move rather than stored, which costs one hash per
    /// legal move and saves holding a second index of the whole book.
    fn ranked_moves(&self, pos: &Position, within: Option<&Repertoire>) -> (r: Vec<Ranked>)
        ensures
            is_ranking(views(r@), book_moves(self@, pos@, rep_lines(within))),
    {
        let moves = pos.legal_moves();
        let ghost w = rep_lines(within);
        let mut out: Vec<Ranked> = Vec::new();
        assert(views(out@) =~= Seq::<RankedView>::empty());
        let mut i: usize = 0;
        while i < moves.len()
            invariant
                i <= moves.len(),
                w == rep_lines(within),
                moves@ == crate::chess::moves_of(crate::chess::spec_legal_moves(pos@)),
                sorted_ranks(views(out@)),
                views(out@).to_multiset() == candidates(self@, pos@, w, moves@.take(i as int)).to_multiset(),
            decreases moves.len() - i,
        {
            let m = moves[i];
            let ghost before = candidates(self@, pos@, w, moves@.take(i as int));
            assert(moves@.take(i + 1).drop_last() == moves@.take(i as int));
            assert(moves@.take(i + 1).last() == m);
            match pos.play(&m) {
                Some(next) => {
                    let k = next.key();
                    match self.through.get(&k) {
                        Some(list) => {
                            assert(self@.through[k] == list@);
                            let wt = weigh(list, within);
                            if wt > 0 {
                                let san = match pos.san(&m) {
                                    Some(s) => s,
                                    None => Vec::new(),
                                };
                                let x = Ranked { san, mv: m, weight: wt, idx: i };
                                let ghost xv = x@;
                                insert_ranked(&mut out, x);
                                proof {
                                    vstd::seq_lib::to_multiset_build(before, xv);
                                }
                            }
                        },
                        None => {
                            assert(!self@.through.contains_key(k));
                        },
                    }
                },
                None => {},
            }
            i = i + 1;
        }
        assert(moves@.take(moves.len() as int) == moves@);
        out
    }

    /// The moves that would have kept the game in theory, most-travelled
    /// first, at most `MAX_CONTINUATIONS` of them.
    pub fn continuations(&self, pos: &Position) -> (r: Vec<String>)
        ensures
            exists|rk: Seq<RankedView>|
                is_ranking(rk, book_moves(self@, pos@, None))
                    && crate::text::strings(r@) == sans(
                    rk.take(
                        if rk.len() < MAX_CONTINUATIONS {
                            rk.len() as int
                        } else {
                            MAX_CONTINUATIONS as int
                        },
                    ),
                ),
    {
        let ranked = self.ranked_moves(pos, None);
        let ghost rk = views(ranked@);
        let n = if ranked.len() < MAX_CONTINUATIONS {
            ranked.len()
        } else {
            MAX_CONTINUATIONS
        };
        let mut out: Vec<String> = Vec::new();
        let mut j: usize = 0;
        while j < n
            invariant
                j <= n,
                n <= ranked.len(),
                rk == views(ranked@),
                crate::text::strings(out@) == sans(rk.take(j as int)),
            decreases n - j,
        {
            assert(rk[j as int].san == ranked@[j as int].san@);
            let s = string_of(&ranked[j].san);
            let ghost before = out@;
            out.push(s);
            assert(out@ == before.push(s));
            assert(crate::text::strings(out@) =~= sans(rk.take(j + 1))) by {
                assert(rk.take(j + 1) =~= rk.take(j as int).push(rk[j as int]));
                assert(crate::text::strings(out@) =~= crate::text::strings(before).push(s@));
            }
            j = j + 1;
        }
        assert(is_ranking(rk, book_moves(self@, pos@, rep_lines(None))));
        out
    }

    /// The move to teach here: the most-travelled continuation, restricted to
    /// the repertoire being drilled. `None` once the lines run out.
    pub fn main_line(&self, pos: &Position, within: Option<&Repertoire>) -> (r: Option<(String, ChessMove)>)
        ensures
            (r is None <==> book_moves(self@, pos@, rep_lines(within)).len() == 0),
            r matches Some(x) ==> exists|v: RankedView|
                is_best(v, book_moves(self@, pos@, rep_lines(within))) && v.san == x.0@ && v.mv == x.1,
            r matches Some(x) ==> spec_play(pos@, move_text(x.1)) is Some,
    {
        let ranked = self.ranked_moves(pos, within);
        let ghost rk = views(ranked@);
        let ghost cands = book_moves(self@, pos@, rep_lines(within));
        proof {
            vstd::seq_lib::to_multiset_len(rk);
            vstd::seq_lib::to_multiset_len(cands);
        }
        if ranked.len() == 0 {
            return None;
        }
        let best = &ranked[0];
        proof {
            let v = rk[0];
            assert(v == best@);
            vstd::seq_lib::to_multiset_contains(rk, v);
            vstd::seq_lib::to_multiset_contains(cands, v);
            assert(rk.contains(v));
            assert forall|j: int| 0 <= j < cands.len() implies rank_leq(v, #[trigger] cands[j]) by {
                vstd::seq_lib::to_multiset_contains(cands, cands[j]);
                vstd::seq_lib::to_multiset_contains(rk, cands[j]);
                assert(cands.contains(cands[j]));
                let k = choose|k: int| 0 <= k < rk.len() && rk[k] == cands[j];
                if k > 0 {
                    assert(rank_leq(rk[0], rk[k]));
                }
            }
            assert(is_best(v, cands));
            let kv = choose|k: int| 0 <= k < cands.len() && cands[k] == v;
            lemma_candidates_play(self@, pos@, rep_lines(within), crate::chess::moves_of(crate::chess::spec_legal_moves(pos@)));
            assert(spec_play(pos@, move_text(cands[kv].mv)) is Some);
        }
        Some((string_of(&best.san), best.mv))
    }
}

} // verus!
