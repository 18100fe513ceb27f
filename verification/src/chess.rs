//! The board as the rest of the library reads it, and the rules of chess.
//!
//! A position is held as its FEN text, which is the plain, complete record of
//! a standard chess position. The library reads the placement, the side to
//! move and the move number out of that text itself; everything that needs
//! the rules (legal moves, playing a move, notation, hashing, game end) is
//! asked of shakmaty through the small trusted functions at the end of this
//! file, each from text to text.
use vstd::prelude::*;
use crate::text::{
    ascii_lower, chars_of, is_digit, push_str, split_words, string_of, texts,
    words,
};
use shakmaty::fen::Fen;
use shakmaty::san::SanPlus;
use shakmaty::uci::UciMove;
use shakmaty::zobrist::{Zobrist64, ZobristHash};
use shakmaty::{CastlingMode, Chess, EnPassantMode, Position as ShakmatyPosition};

verus! {

#[derive(Debug, Clone, Copy, PartialEq, Eq, Structural)]
pub enum Color {
    White,
    Black,
}

impl Color {
    pub open spec fn spec_other(self) -> Color {
        match self {
            Color::White => Color::Black,
            Color::Black => Color::White,
        }
    }

    /// The opponent's colour.
    pub fn other(self) -> (r: Color)
        ensures
            r == self.spec_other(),
    {
        match self {
            Color::White => Color::Black,
            Color::Black => Color::White,
        }
    }
}

#[derive(Debug, Clone, Copy, PartialEq, Eq, Structural)]
pub enum Role {
    Pawn,
    Knight,
    Bishop,
    Rook,
    Queen,
    King,
}

#[derive(Debug, Clone, Copy, PartialEq, Eq, Structural)]
pub struct Piece {
    pub color: Color,
    pub role: Role,
}

/// A square, numbered `file + 8 * rank` from a1 = 0 to h8 = 63.
#[derive(Debug, Clone, Copy, PartialEq, Eq, Structural)]
pub struct Square(pub u8);

impl Square {
    pub open spec fn valid(self) -> bool {
        self.0 < 64
    }

    pub open spec fn spec_file(self) -> int {
        self.0 as int % 8
    }

    pub open spec fn spec_rank(self) -> int {
        self.0 as int / 8
    }

    /// The square on `file` (0 = a) and `rank` (0 = first).
    pub fn at(file: u8, rank: u8) -> (s: Square)
        requires
            file < 8,
            rank < 8,
        ensures
            s.valid(),
            s.spec_file() == file,
            s.spec_rank() == rank,
    {
        Square(rank * 8 + file)
    }

    pub fn file(self) -> (f: u8)
        ensures
            f == self.spec_file(),
    {
        self.0 % 8
    }

    pub fn rank(self) -> (r: u8)
        ensures
            r == self.spec_rank(),
    {
        self.0 / 8
    }
}

/// A move, as a UCI move names it: the square it starts from, the square it
/// goes to (the rook's square for castling, as in Chess960 notation) and the
/// piece a pawn promotes to.
#[derive(Debug, Clone, Copy, PartialEq, Eq, Structural)]
pub struct ChessMove {
    pub from: Square,
    pub to: Square,
    pub promotion: Option<Role>,
}

// ---------------------------------------------------------------------------
// Reading FEN text
// ---------------------------------------------------------------------------

/// The piece a FEN placement letter stands for.
pub open spec fn piece_of_char(c: char) -> Option<Piece> {
    let color = if 'a' <= c && c <= 'z' {
        Color::Black
    } else {
        Color::White
    };
    let l = ascii_lower(c);
    if l == 'p' {
        Some(Piece { color, role: Role::Pawn })
    } else if l == 'n' {
        Some(Piece { color, role: Role::Knight })
    } else if l == 'b' {
        Some(Piece { color, role: Role::Bishop })
    } else if l == 'r' {
        Some(Piece { color, role: Role::Rook })
    } else if l == 'q' {
        Some(Piece { color, role: Role::Queen })
    } else if l == 'k' {
        Some(Piece { color, role: Role::King })
    } else {
        None
    }
}

fn piece_from_char(c: char) -> (r: Option<Piece>)
    ensures
        r == piece_of_char(c),
{
    let color = if 'a' <= c && c <= 'z' {
        Color::Black
    } else {
        Color::White
    };
    let l = if 'A' <= c && c <= 'Z' {
        let u = (c as u32) + 32;
        u as u8 as char
    } else {
        c
    };
    let role = if l == 'p' {
        Role::Pawn
    } else if l == 'n' {
        Role::Knight
    } else if l == 'b' {
        Role::Bishop
    } else if l == 'r' {
        Role::Rook
    } else if l == 'q' {
        Role::Queen
    } else if l == 'k' {
        Role::King
    } else {
        return None;
    };
    Some(Piece { color, role })
}

pub open spec fn empty_board() -> Seq<Option<Piece>> {
    Seq::new(64, |i: int| None)
}

/// Reading the placement field of a FEN from character `i` on, with the
/// squares filled so far in `board` and the reading position at `rank` and
/// `file`. Ranks are read from the eighth down, files from a to h; a digit
/// skips that many squares, `/` starts the next rank lower, and the field
/// ends at the first space. Positions off the board are kept at 8 (file) and
/// -1 (rank), where nothing is placed.
pub open spec fn scan(s: Seq<char>, i: int, board: Seq<Option<Piece>>, rank: int, file: int) -> Seq<
    Option<Piece>,
>
    decreases s.len() - i,
{
    if i < 0 || i >= s.len() || s[i] == ' ' {
        board
    } else if s[i] == '/' {
        scan(s, i + 1, board, if rank > 0 { rank - 1 } else { -1 }, 0)
    } else if is_digit(s[i]) {
        let f = file + (s[i] as int - 48);
        scan(s, i + 1, board, rank, if f < 8 { f } else { 8 })
    } else if piece_of_char(s[i]) is Some && 0 <= rank < 8 && 0 <= file < 8 {
        scan(s, i + 1, board.update(rank * 8 + file, piece_of_char(s[i])), rank, file + 1)
    } else {
        scan(s, i + 1, board, rank, if file < 8 { file + 1 } else { 8 })
    }
}

/// The 64 squares of the position written in `fen`, a1 first.
pub open spec fn placement(fen: Seq<char>) -> Seq<Option<Piece>> {
    scan(fen, 0, empty_board(), 7, 0)
}

proof fn lemma_scan_len(s: Seq<char>, i: int, board: Seq<Option<Piece>>, rank: int, file: int)
    requires
        board.len() == 64,
    ensures
        scan(s, i, board, rank, file).len() == 64,
    decreases s.len() - i,
{
    if i < 0 || i >= s.len() || s[i] == ' ' {
    } else if s[i] == '/' {
        lemma_scan_len(s, i + 1, board, if rank > 0 { rank - 1 } else { -1 }, 0);
    } else if is_digit(s[i]) {
        let f = file + (s[i] as int - 48);
        lemma_scan_len(s, i + 1, board, rank, if f < 8 { f } else { 8 });
    } else if piece_of_char(s[i]) is Some && 0 <= rank < 8 && 0 <= file < 8 {
        lemma_scan_len(s, i + 1, board.update(rank * 8 + file, piece_of_char(s[i])), rank, file + 1);
    } else {
        lemma_scan_len(s, i + 1, board, rank, if file < 8 { file + 1 } else { 8 });
    }
}

/// Whatever the text, a FEN reads as a board of exactly 64 squares.
pub proof fn law_every_board_has_64_squares(fen: Seq<char>)
    ensures
        placement(fen).len() == 64,
{
    lemma_scan_len(fen, 0, empty_board(), 7, 0);
}

/// Reads the placement field of `fen` into 64 squares.
pub fn read_placement(fen: &[char]) -> (board: Vec<Option<Piece>>)
    ensures
        board@ == placement(fen@),
        board.len() == 64,
{
    let mut board: Vec<Option<Piece>> = Vec::new();
    let mut k: usize = 0;
    while k < 64
        invariant
            k <= 64,
            board@ == Seq::new(k as nat, |i: int| None::<Piece>),
        decreases 64 - k,
    {
        board.push(None);
        assert(board@ =~= Seq::new((k + 1) as nat, |i: int| None::<Piece>));
        k = k + 1;
    }
    assert(board@ =~= empty_board());
    let mut rank: i64 = 7;
    let mut file: i64 = 0;
    let mut i: usize = 0;
    while i < fen.len() && fen[i] != ' '
        invariant
            i <= fen.len(),
            -1 <= rank <= 7,
            0 <= file <= 8,
            board.len() == 64,
            scan(fen@, 0, empty_board(), 7, 0) == scan(fen@, i as int, board@, rank as int, file as int),
        decreases fen.len() - i,
    {
        let c = fen[i];
        if c == '/' {
            rank = if rank > 0 {
                rank - 1
            } else {
                -1
            };
            file = 0;
        } else if '0' <= c && c <= '9' {
            let f = file + (c as u32 - 48) as i64;
            file = if f < 8 {
                f
            } else {
                8
            };
        } else {
            let p = piece_from_char(c);
            if p.is_some() && 0 <= rank && rank < 8 && 0 <= file && file < 8 {
                let idx = (rank * 8 + file) as usize;
                board.set(idx, p);
                file = file + 1;
            } else {
                file = if file < 8 {
                    file + 1
                } else {
                    8
                };
            }
        }
        i = i + 1;
    }
    board
}

/// The FEN's fields, as whitespace-separated words.
pub open spec fn fen_field(fen: Seq<char>, k: int) -> Option<Seq<char>> {
    let w = words(fen);
    if 0 <= k < w.len() {
        Some(w[k])
    } else {
        None
    }
}

/// The side to move: White unless the second field is exactly `b`.
pub open spec fn fen_turn(fen: Seq<char>) -> Color {
    if fen_field(fen, 1) == Some(seq!['b']) {
        Color::Black
    } else {
        Color::White
    }
}

/// The move number in the sixth field, read as shakmaty reads it: digits
/// saturating at `u32::MAX`, with 0 (or a missing or unreadable field) taken
/// as 1.
pub open spec fn fen_fullmoves(fen: Seq<char>) -> int {
    match fen_field(fen, 5) {
        Some(f) => match crate::text::parse_u32_saturating(f) {
            Some(v) => if v >= 1 {
                v as int
            } else {
                1
            },
            None => 1,
        },
        None => 1,
    }
}

/// Whether the FEN's second field says White is to move.
pub fn fen_white_to_move(fen: &[char]) -> (b: bool)
    ensures
        b == (fen_turn(fen@) == Color::White),
{
    let w = split_words(fen);
    if w.len() > 1 {
        assert(w@[1]@ == words(fen@)[1]);
        !(w[1].len() == 1 && w[1][0] == 'b') || {
            assert(w@[1]@ =~= seq!['b']);
            false
        }
    } else {
        true
    }
}

pub fn fen_move_number(fen: &[char]) -> (n: u32)
    ensures
        n == fen_fullmoves(fen@),
        n >= 1,
{
    let w = split_words(fen);
    if w.len() > 5 {
        assert(w@[5]@ == words(fen@)[5]);
        match crate::text::parse_count(w[5].as_slice()) {
            Some(v) => if v >= 1 {
                v
            } else {
                1
            },
            None => 1,
        }
    } else {
        1
    }
}

/// A position of standard chess, held as its FEN.
#[derive(Debug, Clone)]
pub struct Position {
    fen: Vec<char>,
}

impl View for Position {
    type V = Seq<char>;

    closed spec fn view(&self) -> Seq<char> {
        self.fen@
    }
}

pub open spec fn start_fen() -> Seq<char> {
    "rnbqkbnr/pppppppp/8/8/8/8/PPPPPPPP/RNBQKBNR w KQkq - 0 1"@
}

impl Position {
    /// The starting position.
    pub fn initial() -> (p: Position)
        ensures
            p@ == start_fen(),
    {
        let mut fen: Vec<char> = Vec::new();
        push_str(&mut fen, "rnbqkbnr/pppppppp/8/8/8/8/PPPPPPPP/RNBQKBNR w KQkq - 0 1");
        Position { fen }
    }

    /// The position a FEN describes, written the way shakmaty writes it;
    /// `None` when shakmaty does not accept it as a legal position.
    pub fn from_fen(text: &str) -> (p: Option<Position>)
        ensures
            p matches Some(q) ==> spec_normalized_fen(text@) == Some(q@),
            p is None ==> spec_normalized_fen(text@) is None,
    {
        let t = chars_of(text);
        match normalized_fen(t.as_slice()) {
            Some(f) => Some(Position { fen: f }),
            None => None,
        }
    }

    pub fn duplicate(&self) -> (p: Position)
        ensures
            p@ == self@,
    {
        Position { fen: self.fen.clone() }
    }

    /// The FEN text.
    pub fn fen(&self) -> (s: String)
        ensures
            s@ == self@,
    {
        string_of(&self.fen)
    }

    pub open spec fn spec_turn(&self) -> Color {
        fen_turn(self@)
    }

    pub fn turn(&self) -> (c: Color)
        ensures
            c == self.spec_turn(),
    {
        if fen_white_to_move(self.fen.as_slice()) {
            Color::White
        } else {
            Color::Black
        }
    }

    pub open spec fn spec_fullmoves(&self) -> int {
        fen_fullmoves(self@)
    }

    pub fn fullmoves(&self) -> (n: u32)
        ensures
            n == self.spec_fullmoves(),
            n >= 1,
    {
        fen_move_number(self.fen.as_slice())
    }

    pub open spec fn spec_board(&self) -> Seq<Option<Piece>> {
        placement(self@)
    }

    /// All 64 squares, a1 first.
    pub fn board(&self) -> (b: Vec<Option<Piece>>)
        ensures
            b@ == self.spec_board(),
            b.len() == 64,
    {
        read_placement(self.fen.as_slice())
    }

    pub open spec fn spec_piece_at(&self, sq: Square) -> Option<Piece> {
        if sq.valid() {
            self.spec_board()[sq.0 as int]
        } else {
            None
        }
    }

    pub fn piece_at(&self, sq: Square) -> (p: Option<Piece>)
        ensures
            p == self.spec_piece_at(sq),
    {
        if sq.0 >= 64 {
            return None;
        }
        let b = self.board();
        b[sq.0 as usize]
    }

    /// The square of `color`'s king, the first one from a1 if there were
    /// several.
    pub open spec fn spec_king(&self, color: Color) -> Option<Square> {
        match first_at(self.spec_board(), Piece { color, role: Role::King }, 0) {
            Some(i) => Some(Square(i as u8)),
            None => None,
        }
    }

    /// The square of `color`'s king, the first one from a1 if there were
    /// several.
    pub fn king_of(&self, color: Color) -> (r: Option<Square>)
        ensures
            r == self.spec_king(color),
            r matches Some(sq) ==> sq.valid() && self.spec_piece_at(sq) == Some(
                Piece { color, role: Role::King },
            ),
            r is None ==> forall|i: int|
                0 <= i < 64 ==> self.spec_board()[i] != Some(Piece { color, role: Role::King }),
    {
        let b = self.board();
        let mut i: usize = 0;
        while i < 64
            invariant
                i <= 64,
                b@ == self.spec_board(),
                b.len() == 64,
                forall|k: int| 0 <= k < i ==> b@[k] != Some(Piece { color, role: Role::King }),
                first_at(b@, Piece { color, role: Role::King }, 0) == first_at(
                    b@,
                    Piece { color, role: Role::King },
                    i as int,
                ),
            decreases 64 - i,
        {
            if b[i] == Some(Piece { color, role: Role::King }) {
                return Some(Square(i as u8));
            }
            i = i + 1;
        }
        None
    }
}

/// The first index from `k` on at which `board` holds `p`.
pub open spec fn first_at(board: Seq<Option<Piece>>, p: Piece, k: int) -> Option<int>
    decreases board.len() - k,
{
    if k < 0 || k >= board.len() {
        None
    } else if board[k] == Some(p) {
        Some(k)
    } else {
        first_at(board, p, k + 1)
    }
}

// ---------------------------------------------------------------------------
// Move text
// ---------------------------------------------------------------------------

pub open spec fn role_letter(r: Role) -> char {
    match r {
        Role::Pawn => 'p',
        Role::Knight => 'n',
        Role::Bishop => 'b',
        Role::Rook => 'r',
        Role::Queen => 'q',
        Role::King => 'k',
    }
}

pub open spec fn role_of_letter(c: char) -> Option<Role> {
    if c == 'p' {
        Some(Role::Pawn)
    } else if c == 'n' {
        Some(Role::Knight)
    } else if c == 'b' {
        Some(Role::Bishop)
    } else if c == 'r' {
        Some(Role::Rook)
    } else if c == 'q' {
        Some(Role::Queen)
    } else if c == 'k' {
        Some(Role::King)
    } else {
        None
    }
}

pub open spec fn square_name(sq: Square) -> Seq<char> {
    seq![(sq.spec_file() + 97) as char, (sq.spec_rank() + 49) as char]
}

/// A move in UCI notation: from-square, to-square, promotion letter.
pub open spec fn move_text(m: ChessMove) -> Seq<char> {
    let base = square_name(m.from) + square_name(m.to);
    match m.promotion {
        Some(r) => base.push(role_letter(r)),
        None => base,
    }
}

pub open spec fn square_of_name(f: char, r: char) -> Option<Square> {
    if 'a' <= f && f <= 'h' && '1' <= r && r <= '8' {
        Some(Square(((r as int - 49) * 8 + (f as int - 97)) as u8))
    } else {
        None
    }
}

/// The move a UCI text names, if it is one.
pub open spec fn parse_move_text(t: Seq<char>) -> Option<ChessMove> {
    if t.len() == 4 || t.len() == 5 {
        match (square_of_name(t[0], t[1]), square_of_name(t[2], t[3])) {
            (Some(from), Some(to)) => if t.len() == 4 {
                Some(ChessMove { from, to, promotion: None })
            } else {
                match role_of_letter(t[4]) {
                    Some(r) => Some(ChessMove { from, to, promotion: Some(r) }),
                    None => None,
                }
            },
            _ => None,
        }
    } else {
        None
    }
}

fn letter_of_role(r: Role) -> (c: char)
    ensures
        c == role_letter(r),
{
    match r {
        Role::Pawn => 'p',
        Role::Knight => 'n',
        Role::Bishop => 'b',
        Role::Rook => 'r',
        Role::Queen => 'q',
        Role::King => 'k',
    }
}

fn role_from_letter(c: char) -> (r: Option<Role>)
    ensures
        r == role_of_letter(c),
{
    if c == 'p' {
        Some(Role::Pawn)
    } else if c == 'n' {
        Some(Role::Knight)
    } else if c == 'b' {
        Some(Role::Bishop)
    } else if c == 'r' {
        Some(Role::Rook)
    } else if c == 'q' {
        Some(Role::Queen)
    } else if c == 'k' {
        Some(Role::King)
    } else {
        None
    }
}

fn square_from_name(f: char, r: char) -> (s: Option<Square>)
    ensures
        s == square_of_name(f, r),
        s matches Some(q) ==> q.valid(),
{
    if 'a' <= f && f <= 'h' && '1' <= r && r <= '8' {
        Some(Square(((r as u32 - 49) * 8 + (f as u32 - 97)) as u8))
    } else {
        None
    }
}

impl ChessMove {
    /// The move in UCI notation.
    pub fn text(&self) -> (t: Vec<char>)
        ensures
            t@ == move_text(*self),
    {
        let mut t: Vec<char> = Vec::new();
        t.push(((self.from.0 % 8) + 97) as char);
        t.push(((self.from.0 / 8) + 49) as char);
        t.push(((self.to.0 % 8) + 97) as char);
        t.push(((self.to.0 / 8) + 49) as char);
        if let Some(r) = self.promotion {
            t.push(letter_of_role(r));
        }
        assert(t@ =~= move_text(*self));
        t
    }

    /// Reads a move in UCI notation.
    pub fn from_text(t: &[char]) -> (m: Option<ChessMove>)
        ensures
            m == parse_move_text(t@),
            m matches Some(x) ==> x.from.valid() && x.to.valid(),
    {
        if t.len() != 4 && t.len() != 5 {
            return None;
        }
        let from = square_from_name(t[0], t[1]);
        let to = square_from_name(t[2], t[3]);
        match (from, to) {
            (Some(from), Some(to)) => if t.len() == 4 {
                Some(ChessMove { from, to, promotion: None })
            } else {
                match role_from_letter(t[4]) {
                    Some(r) => Some(ChessMove { from, to, promotion: Some(r) }),
                    None => None,
                }
            },
            _ => None,
        }
    }
}

/// A move on the board written in UCI notation reads back as the same move.
pub proof fn law_move_text_round_trip(m: ChessMove)
    requires
        m.from.valid(),
        m.to.valid(),
    ensures
        parse_move_text(move_text(m)) == Some(m),
{
    let t = move_text(m);
    assert(square_of_name(t[0], t[1]) == Some(m.from));
    assert(square_of_name(t[2], t[3]) == Some(m.to));
    if let Some(r) = m.promotion {
        assert(role_of_letter(t[4]) == Some(r));
    }
}

/// The moves among the UCI texts `ts` that read as moves, in order.
pub open spec fn moves_of(ts: Seq<Seq<char>>) -> Seq<ChessMove>
    decreases ts.len(),
{
    if ts.len() == 0 {
        seq![]
    } else {
        let before = moves_of(ts.drop_last());
        match parse_move_text(ts.last()) {
            Some(m) => before.push(m),
            None => before,
        }
    }
}

/// The views of a list of positions.
pub open spec fn fens(v: Seq<Position>) -> Seq<Seq<char>> {
    v.map_values(|p: Position| p@)
}

impl Position {
    /// The legal moves, in shakmaty's order.
    pub fn legal_moves(&self) -> (r: Vec<ChessMove>)
        ensures
            r@ == moves_of(spec_legal_moves(self@)),
            forall|i: int| 0 <= i < r.len() ==> r@[i].from.valid() && r@[i].to.valid(),
    {
        let ts = legal_moves_of(self.fen.as_slice());
        let mut r: Vec<ChessMove> = Vec::new();
        let mut i: usize = 0;
        while i < ts.len()
            invariant
                i <= ts.len(),
                texts(ts@) == spec_legal_moves(self@),
                r@ == moves_of(texts(ts@).take(i as int)),
                forall|k: int| 0 <= k < r.len() ==> r@[k].from.valid() && r@[k].to.valid(),
            decreases ts.len() - i,
        {
            assert(texts(ts@).take(i + 1).drop_last() == texts(ts@).take(i as int));
            assert(texts(ts@).take(i + 1).last() == ts@[i as int]@);
            match ChessMove::from_text(ts[i].as_slice()) {
                Some(m) => r.push(m),
                None => {},
            }
            i = i + 1;
        }
        assert(texts(ts@).take(ts.len() as int) == texts(ts@));
        r
    }

    /// The position after `m`; `None` when `m` is not legal here.
    pub fn play(&self, m: &ChessMove) -> (r: Option<Position>)
        ensures
            r matches Some(p) ==> spec_play(self@, move_text(*m)) == Some(p@),
            r is None ==> spec_play(self@, move_text(*m)) is None,
    {
        let t = m.text();
        match play_of(self.fen.as_slice(), t.as_slice()) {
            Some(f) => Some(Position { fen: f }),
            None => None,
        }
    }

    /// `m` in SAN with its check or mate suffix; `None` when `m` is not legal
    /// here.
    pub fn san(&self, m: &ChessMove) -> (r: Option<Vec<char>>)
        ensures
            r matches Some(v) ==> spec_san(self@, move_text(*m)) == Some(v@),
            r is None ==> spec_san(self@, move_text(*m)) is None,
    {
        let t = m.text();
        san_of(self.fen.as_slice(), t.as_slice())
    }

    /// The legal move an engine's UCI text names here.
    pub fn engine_move(&self, text: &[char]) -> (r: Option<ChessMove>)
        ensures
            r == (match spec_engine_move(self@, text@) {
                Some(t) => parse_move_text(t),
                None => None,
            }),
    {
        match engine_move_of(self.fen.as_slice(), text) {
            Some(t) => ChessMove::from_text(t.as_slice()),
            None => None,
        }
    }

    /// The legal move a SAN token names here.
    pub fn san_move(&self, token: &[char]) -> (r: Option<ChessMove>)
        ensures
            r == (match spec_san_move(self@, token@) {
                Some(t) => parse_move_text(t),
                None => None,
            }),
    {
        match san_move_of(self.fen.as_slice(), token) {
            Some(t) => ChessMove::from_text(t.as_slice()),
            None => None,
        }
    }

    /// The Polyglot Zobrist key that identifies the position.
    pub fn key(&self) -> (k: u64)
        ensures
            k == spec_zobrist(self@),
    {
        zobrist_of(self.fen.as_slice())
    }

    pub fn is_checkmate(&self) -> (b: bool)
        ensures
            b == spec_is_checkmate(self@),
    {
        is_checkmate_of(self.fen.as_slice())
    }

    pub fn is_stalemate(&self) -> (b: bool)
        ensures
            b == spec_is_stalemate(self@),
    {
        is_stalemate_of(self.fen.as_slice())
    }

    pub fn is_game_over(&self) -> (b: bool)
        ensures
            b == spec_is_game_over(self@),
            spec_is_checkmate(self@) ==> b,
            spec_is_stalemate(self@) ==> b,
    {
        is_game_over_of(self.fen.as_slice())
    }

    pub fn is_check(&self) -> (b: bool)
        ensures
            b == spec_is_check(self@),
    {
        is_check_of(self.fen.as_slice())
    }
}

// ---------------------------------------------------------------------------
// The rules, from shakmaty
// ---------------------------------------------------------------------------

/// The legal moves of the position written in `fen`, each in UCI notation
/// with castling written king-to-rook, in shakmaty's order; none when shakmaty
/// cannot read the position.
pub uninterp spec fn spec_legal_moves(fen: Seq<char>) -> Seq<Seq<char>>;

/// The FEN after playing the UCI move `uci` in `fen`; `None` when the move is
/// not legal there or either text does not read.
pub uninterp spec fn spec_play(fen: Seq<char>, uci: Seq<char>) -> Option<Seq<char>>;

/// The SAN of the UCI move `uci` in `fen`, with its check or mate suffix.
pub uninterp spec fn spec_san(fen: Seq<char>, uci: Seq<char>) -> Option<Seq<char>>;

/// The legal move that the engine's UCI text names in `fen`, in this
/// library's UCI form; `None` when it names none.
pub uninterp spec fn spec_engine_move(fen: Seq<char>, text: Seq<char>) -> Option<Seq<char>>;

/// The legal move that a SAN token names in `fen`, in this library's UCI
/// form; `None` when it names none.
pub uninterp spec fn spec_san_move(fen: Seq<char>, san: Seq<char>) -> Option<Seq<char>>;

/// The Polyglot Zobrist hash of the position, en passant counted only when a
/// capture is legal; 0 when shakmaty cannot read the position.
pub uninterp spec fn spec_zobrist(fen: Seq<char>) -> u64;

/// shakmaty's own writing of the position a FEN text describes.
pub uninterp spec fn spec_normalized_fen(text: Seq<char>) -> Option<Seq<char>>;

pub uninterp spec fn spec_is_checkmate(fen: Seq<char>) -> bool;

pub uninterp spec fn spec_is_stalemate(fen: Seq<char>) -> bool;

pub uninterp spec fn spec_is_game_over(fen: Seq<char>) -> bool;

pub uninterp spec fn spec_is_check(fen: Seq<char>) -> bool;

/// `Position::legal_moves` of shakmaty's `Chess`, each move written by
/// `Move::to_uci` in Chess960 mode.
#[verifier::external_body]
pub(crate) fn legal_moves_of(fen: &[char]) -> (r: Vec<Vec<char>>)
    ensures
        texts(r@) == spec_legal_moves(fen@),
{
    let text: String = fen.iter().collect();
    let Ok(parsed) = text.parse::<Fen>() else { return Vec::new() };
    let Ok(pos) = parsed.into_position::<Chess>(CastlingMode::Standard) else { return Vec::new() };
    let mut out = Vec::new();
    for m in pos.legal_moves() {
        out.push(m.to_uci(CastlingMode::Chess960).to_string().chars().collect());
    }
    out
}

/// `Position::play` of shakmaty's `Chess` on the move `UciMove::to_move`
/// resolves, the result written by `Fen::from_position` (legal en passant).
#[verifier::external_body]
pub(crate) fn play_of(fen: &[char], uci: &[char]) -> (r: Option<Vec<char>>)
    ensures
        r matches Some(v) ==> spec_play(fen@, uci@) == Some(v@),
        r is None ==> spec_play(fen@, uci@) is None,
{
    let pos: Chess = fen.iter().collect::<String>().parse::<Fen>().ok()?.into_position(CastlingMode::Standard).ok()?;
    let m = uci.iter().collect::<String>().parse::<UciMove>().ok()?.to_move(&pos).ok()?;
    let next = pos.play(m).ok()?;
    Some(Fen::from_position(&next, EnPassantMode::Legal).to_string().chars().collect())
}

/// `SanPlus::from_move` of shakmaty, for the move `UciMove::to_move` resolves.
#[verifier::external_body]
pub(crate) fn san_of(fen: &[char], uci: &[char]) -> (r: Option<Vec<char>>)
    ensures
        r matches Some(v) ==> spec_san(fen@, uci@) == Some(v@),
        r is None ==> spec_san(fen@, uci@) is None,
{
    let pos: Chess = fen.iter().collect::<String>().parse::<Fen>().ok()?.into_position(CastlingMode::Standard).ok()?;
    let m = uci.iter().collect::<String>().parse::<UciMove>().ok()?.to_move(&pos).ok()?;
    Some(SanPlus::from_move(pos, m).to_string().chars().collect())
}

/// `UciMove::to_move` of shakmaty, on an engine's move text; the move it
/// resolves to is written back by `Move::to_uci` in Chess960 mode.
#[verifier::external_body]
pub(crate) fn engine_move_of(fen: &[char], text: &[char]) -> (r: Option<Vec<char>>)
    ensures
        r matches Some(v) ==> spec_engine_move(fen@, text@) == Some(v@),
        r is None ==> spec_engine_move(fen@, text@) is None,
{
    let pos: Chess = fen.iter().collect::<String>().parse::<Fen>().ok()?.into_position(CastlingMode::Standard).ok()?;
    let m = text.iter().collect::<String>().parse::<UciMove>().ok()?.to_move(&pos).ok()?;
    Some(m.to_uci(CastlingMode::Chess960).to_string().chars().collect())
}

/// `San::to_move` of shakmaty, on a SAN token read by `SanPlus`'s parser;
/// the move is written back by `Move::to_uci` in Chess960 mode.
#[verifier::external_body]
pub(crate) fn san_move_of(fen: &[char], san: &[char]) -> (r: Option<Vec<char>>)
    ensures
        r matches Some(v) ==> spec_san_move(fen@, san@) == Some(v@),
        r is None ==> spec_san_move(fen@, san@) is None,
{
    let pos: Chess = fen.iter().collect::<String>().parse::<Fen>().ok()?.into_position(CastlingMode::Standard).ok()?;
    let m = san.iter().collect::<String>().parse::<SanPlus>().ok()?.san.to_move(&pos).ok()?;
    Some(m.to_uci(CastlingMode::Chess960).to_string().chars().collect())
}

/// `ZobristHash::zobrist_hash::<Zobrist64>` of shakmaty, en passant mode
/// `Legal`.
#[verifier::external_body]
pub(crate) fn zobrist_of(fen: &[char]) -> (r: u64)
    ensures
        r == spec_zobrist(fen@),
{
    let Ok(parsed) = fen.iter().collect::<String>().parse::<Fen>() else { return 0 };
    let Ok(pos) = parsed.into_position::<Chess>(CastlingMode::Standard) else { return 0 };
    pos.zobrist_hash::<Zobrist64>(EnPassantMode::Legal).0
}

/// `Fen::into_position` of shakmaty, written back by `Fen::from_position`.
#[verifier::external_body]
pub(crate) fn normalized_fen(text: &[char]) -> (r: Option<Vec<char>>)
    ensures
        r matches Some(v) ==> spec_normalized_fen(text@) == Some(v@),
        r is None ==> spec_normalized_fen(text@) is None,
{
    let pos: Chess = text.iter().collect::<String>().parse::<Fen>().ok()?.into_position(CastlingMode::Standard).ok()?;
    Some(Fen::from_position(&pos, EnPassantMode::Legal).to_string().chars().collect())
}

/// `Position::is_checkmate` of shakmaty's `Chess`; false when the position
/// does not read.
#[verifier::external_body]
pub(crate) fn is_checkmate_of(fen: &[char]) -> (r: bool)
    ensures
        r == spec_is_checkmate(fen@),
{
    let Ok(parsed) = fen.iter().collect::<String>().parse::<Fen>() else { return false };
    let Ok(pos) = parsed.into_position::<Chess>(CastlingMode::Standard) else { return false };
    pos.is_checkmate()
}

/// `Position::is_stalemate` of shakmaty's `Chess`; false when the position
/// does not read.
#[verifier::external_body]
pub(crate) fn is_stalemate_of(fen: &[char]) -> (r: bool)
    ensures
        r == spec_is_stalemate(fen@),
{
    let Ok(parsed) = fen.iter().collect::<String>().parse::<Fen>() else { return false };
    let Ok(pos) = parsed.into_position::<Chess>(CastlingMode::Standard) else { return false };
    pos.is_stalemate()
}

/// `Position::is_game_over` of shakmaty's `Chess`; false when the position
/// does not read. Its source ends the game whenever no legal move is left,
/// so checkmate and stalemate are both game over.
#[verifier::external_body]
pub(crate) fn is_game_over_of(fen: &[char]) -> (r: bool)
    ensures
        r == spec_is_game_over(fen@),
        spec_is_checkmate(fen@) ==> r,
        spec_is_stalemate(fen@) ==> r,
{
    let Ok(parsed) = fen.iter().collect::<String>().parse::<Fen>() else { return false };
    let Ok(pos) = parsed.into_position::<Chess>(CastlingMode::Standard) else { return false };
    pos.is_game_over()
}

/// `Position::is_check` of shakmaty's `Chess`; false when the position does
/// not read.
#[verifier::external_body]
pub(crate) fn is_check_of(fen: &[char]) -> (r: bool)
    ensures
        r == spec_is_check(fen@),
{
    let Ok(parsed) = fen.iter().collect::<String>().parse::<Fen>() else { return false };
    let Ok(pos) = parsed.into_position::<Chess>(CastlingMode::Standard) else { return false };
    pos.is_check()
}

} // verus!
