//! Forsyth-Edwards Notation: the text of a position, field by field.

use vstd::prelude::*;
use crate::square::{Square, on_board, index_of, clamp_i8, notation_square};
use crate::encoding::{board_wf, rook_unmoved};
use crate::position::GameView;
use crate::piece::{Piece, PieceType, PieceColor, ChessResult, direction};
use crate::rules::piece_at;
use crate::text::{is_whitespace, is_space, push_char};

verus! {

/// The whitespace-separated words of `s` from index `i` on, `cur` being the part of a
/// word read so far.
pub open spec fn words_from(s: Seq<char>, i: int, cur: Seq<char>) -> Seq<Seq<char>>
    decreases s.len() - i,
{
    if i >= s.len() || i < 0 {
        if cur.len() > 0 { seq![cur] } else { seq![] }
    } else if is_whitespace(s[i]) {
        (if cur.len() > 0 { seq![cur] } else { seq![] }) + words_from(s, i + 1, Seq::empty())
    } else {
        words_from(s, i + 1, cur.push(s[i]))
    }
}

/// The whitespace-separated fields of `s`.
pub open spec fn fen_fields(s: Seq<char>) -> Seq<Seq<char>> {
    words_from(s, 0, Seq::empty())
}

/// Splits `s` into its whitespace-separated fields.
pub fn split_fields(s: &str) -> (r: Vec<Vec<char>>)
    ensures
        r@.len() == fen_fields(s@).len(),
        forall|k: int| 0 <= k < r@.len() ==> (#[trigger] r@[k])@ == fen_fields(s@)[k],
{
    let n = s.unicode_len();
    let mut out: Vec<Vec<char>> = Vec::new();
    let mut cur: Vec<char> = Vec::new();
    let mut i: usize = 0;
    let ghost mut done: Seq<Seq<char>> = Seq::empty();
    while i < n
        invariant
            n == s@.len(),
            i <= n,
            out@.len() == done.len(),
            forall|k: int| 0 <= k < out@.len() ==> (#[trigger] out@[k])@ == done[k],
            done + words_from(s@, i as int, cur@) == fen_fields(s@),
        decreases n - i,
    {
        let c = s.get_char(i);
        if is_space(c) {
            if cur.len() > 0 {
                proof {
                    assert(done + words_from(s@, i as int, cur@) == done.push(cur@) + words_from(s@, i + 1, Seq::empty()));
                    done = done.push(cur@);
                }
                out.push(cur);
                cur = Vec::new();
            } else {
                proof {
                    assert(words_from(s@, i as int, cur@) =~= words_from(s@, i + 1, Seq::empty()));
                }
                cur = Vec::new();
            }
        } else {
            cur.push(c);
        }
        i = i + 1;
    }
    if cur.len() > 0 {
        proof {
            assert(done + words_from(s@, i as int, cur@) == done.push(cur@));
            done = done.push(cur@);
        }
        out.push(cur);
    } else {
        proof {
            assert(done + words_from(s@, i as int, cur@) =~= done);
        }
    }
    out
}

/// The decimal digits of `n`.
pub open spec fn decimal(n: nat) -> Seq<char>
    decreases n,
{
    if n < 10 {
        seq![digit_char(n as int)]
    } else {
        decimal(n / 10).push(digit_char((n % 10) as int))
    }
}

/// The decimal digit of `d`, for `d` from 0 to 9.
pub open spec fn digit_char(d: int) -> char {
    if d == 0 {
        '0'
    } else if d == 1 {
        '1'
    } else if d == 2 {
        '2'
    } else if d == 3 {
        '3'
    } else if d == 4 {
        '4'
    } else if d == 5 {
        '5'
    } else if d == 6 {
        '6'
    } else if d == 7 {
        '7'
    } else if d == 8 {
        '8'
    } else {
        '9'
    }
}

fn digit(d: u32) -> (r: char)
    ensures
        r == digit_char(d as int),
{
    if d == 0 {
        '0'
    } else if d == 1 {
        '1'
    } else if d == 2 {
        '2'
    } else if d == 3 {
        '3'
    } else if d == 4 {
        '4'
    } else if d == 5 {
        '5'
    } else if d == 6 {
        '6'
    } else if d == 7 {
        '7'
    } else if d == 8 {
        '8'
    } else {
        '9'
    }
}

/// Appends the decimal digits of `n`.
pub fn push_decimal(s: &mut String, n: u32)
    ensures
        final(s)@ == old(s)@ + decimal(n as nat),
{
    let mut digits: Vec<char> = Vec::new();
    let mut m: u32 = n;
    loop
        invariant_except_break
            decimal(n as nat) == decimal(m as nat) + digits@,
        ensures
            decimal(n as nat) == digits@,
        decreases m,
    {
        let d = digit(m % 10);
        digits.insert(0, d);
        if m < 10 {
            assert(decimal(n as nat) =~= digits@);
            break;
        }
        proof {
            assert(decimal(m as nat) == decimal((m / 10) as nat).push(digit_char((m % 10) as int)));
            assert(decimal(n as nat) =~= decimal((m / 10) as nat) + digits@);
        }
        m = m / 10;
    }
    let mut k: usize = 0;
    let ghost s0 = s@;
    while k < digits.len()
        invariant
            k <= digits@.len(),
            s@ == s0 + digits@.subrange(0, k as int),
            decimal(n as nat) == digits@,
            s0 == old(s)@,
        decreases digits@.len() - k,
    {
        push_char(s, digits[k]);
        assert(digits@.subrange(0, k + 1) =~= digits@.subrange(0, k as int).push(digits@[k as int]));
        k = k + 1;
    }
    assert(digits@.subrange(0, digits@.len() as int) =~= digits@);
}

pub open spec fn is_digit(c: char) -> bool {
    '0' <= c <= '9'
}

/// The value of a string of decimal digits.
pub open spec fn digits_value(s: Seq<char>) -> int
    decreases s.len(),
{
    if s.len() == 0 {
        0
    } else {
        digits_value(s.drop_last()) * 10 + (s.last() as int - '0' as int)
    }
}

pub open spec fn all_digits(t: Seq<char>) -> bool {
    forall|i: int| 0 <= i < t.len() ==> is_digit(#[trigger] t[i])
}

pub open spec fn unsigned_part(s: Seq<char>) -> Seq<char> {
    if s.len() > 0 && s[0] == '+' { s.drop_first() } else { s }
}

/// A non-negative decimal number that fits in `u32`, with an optional leading `+`.
pub open spec fn parse_u32(s: Seq<char>) -> Option<u32> {
    let t = unsigned_part(s);
    if t.len() > 0 && all_digits(t) && digits_value(t) <= u32::MAX {
        Some(digits_value(t) as u32)
    } else {
        None
    }
}

proof fn lemma_digits_value_nonneg(s: Seq<char>)
    requires
        forall|i: int| 0 <= i < s.len() ==> is_digit(#[trigger] s[i]),
    ensures
        digits_value(s) >= 0,
    decreases s.len(),
{
    if s.len() > 0 {
        lemma_digits_value_nonneg(s.drop_last());
    }
}

/// Reads a number as `str::parse::<u32>` does.
pub fn parse_number(s: &Vec<char>) -> (r: Option<u32>)
    ensures
        r == parse_u32(s@),
{
    let n = s.len();
    let start: usize = if n > 0 && s[0] == '+' { 1 } else { 0 };
    let ghost t = unsigned_part(s@);
    assert(t =~= s@.subrange(start as int, n as int));
    if start >= n {
        return None;
    }
    let mut v: u64 = 0;
    let mut i: usize = start;
    while i < n
        invariant
            start <= i <= n,
            n == s@.len(),
            t =~= s@.subrange(start as int, n as int),
            t == unsigned_part(s@),
            forall|j: int| start <= j < i ==> is_digit(#[trigger] s@[j]),
            v == digits_value(s@.subrange(start as int, i as int)),
            v <= u32::MAX,
        decreases n - i,
    {
        let c = s[i];
        if !('0' <= c && c <= '9') {
            assert(!is_digit(t[i - start]));
            assert(!all_digits(t));
            return None;
        }
        let d: u64 = (c as u32 - '0' as u32) as u64;
        proof {
            let p = s@.subrange(start as int, i + 1);
            assert(p.drop_last() =~= s@.subrange(start as int, i as int));
            assert(digits_value(p) == v * 10 + d);
        }
        if v * 10 + d > u32::MAX as u64 {
            proof {
                lemma_value_grows(s@, start as int, (i + 1) as int, n as int);
                if all_digits(t) {
                    assert forall|k: int| start <= k < n implies is_digit(#[trigger] s@[k]) by {
                        assert(t[k - start] == s@[k]);
                    }
                }
            }
            return None;
        }
        v = v * 10 + d;
        i = i + 1;
    }
    proof {
        lemma_digits_value_nonneg(t);
        assert(t =~= s@.subrange(start as int, i as int));
    }
    Some(v as u32)
}

/// Once a prefix of digits exceeds `u32::MAX`, so do the longer ones.
proof fn lemma_value_grows(s: Seq<char>, start: int, i: int, n: int)
    requires
        0 <= start < i <= n <= s.len(),
        forall|k: int| start <= k < i ==> is_digit(#[trigger] s[k]),
        digits_value(s.subrange(start, i)) > u32::MAX,
    ensures
        !(forall|k: int| start <= k < n ==> is_digit(#[trigger] s[k])) || digits_value(s.subrange(start, n)) > u32::MAX,
    decreases n - i,
{
    if i < n && is_digit(s[i]) {
        let p = s.subrange(start, i + 1);
        assert(p.drop_last() =~= s.subrange(start, i));
        lemma_value_grows(s, start, i + 1, n);
    }
}

/// The kind that a piece letter names, in either case; any other character reads as a
/// pawn.
pub open spec fn fen_kind(c: char) -> PieceType {
    if c == 'K' || c == 'k' {
        PieceType::King
    } else if c == 'Q' || c == 'q' {
        PieceType::Queen
    } else if c == 'B' || c == 'b' {
        PieceType::Bishop
    } else if c == 'N' || c == 'n' {
        PieceType::Knight
    } else if c == 'R' || c == 'r' {
        PieceType::Rook
    } else {
        PieceType::Pawn
    }
}

/// Upper case is white, anything else black.
pub open spec fn fen_color(c: char) -> PieceColor {
    if 'A' <= c <= 'Z' {
        PieceColor::White
    } else {
        PieceColor::Black
    }
}

/// A piece read on file `x`, rank `y`: kings and pawns on their starting rank count as
/// unmoved, all else as moved.
pub open spec fn fen_piece(c: char, x: int, y: int) -> Piece {
    let kind = fen_kind(c);
    let color = fen_color(c);
    let start_rank = if color == PieceColor::White { 1int } else { 6int };
    Piece {
        piece_type: kind,
        color,
        pos: Square { x: x as i8, y: y as i8 },
        has_moved: !(kind == PieceType::King || (kind == PieceType::Pawn && y == start_rank)),
    }
}

pub open spec fn empty_board() -> Seq<Option<Piece>> {
    Seq::new(64, |i: int| None::<Piece>)
}

/// The board read from the placement field from index `i` on, at file `x` and rank
/// `y`: `/` starts the next rank down, a digit skips that many files, any other
/// character places a piece and moves one file on. Pieces off the board are dropped.
pub open spec fn placement_from(f: Seq<char>, i: int, x: int, y: int, board: Seq<Option<Piece>>) -> Seq<Option<Piece>>
    decreases f.len() - i,
{
    if i < 0 || i >= f.len() {
        board
    } else {
        let c = f[i];
        if c == '/' {
            placement_from(f, i + 1, 0, clamp_i8(y - 1), board)
        } else if is_digit(c) {
            placement_from(f, i + 1, clamp_i8(x + (c as int - '0' as int)), y, board)
        } else {
            let b = if on_board(x, y) { board.update(index_of(x, y), Some(fen_piece(c, x, y))) } else { board };
            placement_from(f, i + 1, clamp_i8(x + 1), y, b)
        }
    }
}

pub open spec fn placement(f: Seq<char>) -> Seq<Option<Piece>> {
    placement_from(f, 0, 0, 7, empty_board())
}

fn clamp_add(a: i8, b: i8) -> (r: i8)
    ensures
        r == clamp_i8(a + b),
{
    let s: i16 = a as i16 + b as i16;
    if s < -128 {
        -128
    } else if s > 127 {
        127
    } else {
        s as i8
    }
}

fn read_piece(c: char, x: i8, y: i8) -> (r: Piece)
    ensures
        r == fen_piece(c, x as int, y as int),
{
    let kind = if c == 'K' || c == 'k' {
        PieceType::King
    } else if c == 'Q' || c == 'q' {
        PieceType::Queen
    } else if c == 'B' || c == 'b' {
        PieceType::Bishop
    } else if c == 'N' || c == 'n' {
        PieceType::Knight
    } else if c == 'R' || c == 'r' {
        PieceType::Rook
    } else {
        PieceType::Pawn
    };
    let color = if 'A' <= c && c <= 'Z' { PieceColor::White } else { PieceColor::Black };
    let start_rank: i8 = if color == PieceColor::White { 1 } else { 6 };
    let unmoved = kind == PieceType::King || (kind == PieceType::Pawn && y == start_rank);
    Piece { piece_type: kind, color, pos: Square { x, y }, has_moved: !unmoved }
}

/// Reads the placement field.
pub fn parse_placement(f: &Vec<char>) -> (r: Vec<Option<Piece>>)
    ensures
        r@ == placement(f@),
        board_wf(r@),
{
    let mut board: Vec<Option<Piece>> = Vec::new();
    let mut k: usize = 0;
    while k < 64
        invariant
            k <= 64,
            board@.len() == k,
            forall|j: int| 0 <= j < k ==> board@[j] is None,
        decreases 64 - k,
    {
        board.push(None);
        k = k + 1;
    }
    assert(board@ =~= empty_board());
    let mut x: i8 = 0;
    let mut y: i8 = 7;
    let mut i: usize = 0;
    while i < f.len()
        invariant
            i <= f@.len(),
            board_wf(board@),
            placement_from(f@, i as int, x as int, y as int, board@) == placement(f@),
        decreases f@.len() - i,
    {
        let c = f[i];
        if c == '/' {
            y = clamp_add(y, -1);
            x = 0;
        } else if '0' <= c && c <= '9' {
            let d: i8 = (c as u32 - '0' as u32) as i8;
            x = clamp_add(x, d);
        } else {
            if 0 <= x && x < 8 && 0 <= y && y < 8 {
                let idx: usize = (y * 8 + x) as usize;
                board.set(idx, Some(read_piece(c, x, y)));
            }
            x = clamp_add(x, 1);
        }
        i = i + 1;
    }
    board
}

pub open spec fn contains_char(f: Seq<char>, c: char) -> bool {
    exists|i: int| 0 <= i < f.len() && f[i] == c
}

pub fn has_char(f: &Vec<char>, c: char) -> (r: bool)
    ensures
        r == contains_char(f@, c),
{
    let mut i: usize = 0;
    while i < f.len()
        invariant
            i <= f@.len(),
            forall|j: int| 0 <= j < i ==> f@[j] != c,
        decreases f@.len() - i,
    {
        if f[i] == c {
            return true;
        }
        i = i + 1;
    }
    false
}

/// The piece on file `x`, rank `y`, if any, marked as unmoved.
pub open spec fn unmark(board: Seq<Option<Piece>>, x: int, y: int) -> Seq<Option<Piece>> {
    let i = index_of(x, y);
    if board[i] is Some {
        board.update(i, Some(Piece { has_moved: false, ..board[i]->0 }))
    } else {
        board
    }
}

/// The board with the castling field applied: each of `Q`, `K`, `q`, `k` marks the
/// piece on a1, h1, a8, h8 as unmoved.
pub open spec fn with_castling(board: Seq<Option<Piece>>, f: Seq<char>) -> Seq<Option<Piece>> {
    let b1 = if contains_char(f, 'Q') { unmark(board, 0, 0) } else { board };
    let b2 = if contains_char(f, 'K') { unmark(b1, 7, 0) } else { b1 };
    let b3 = if contains_char(f, 'q') { unmark(b2, 0, 7) } else { b2 };
    if contains_char(f, 'k') { unmark(b3, 7, 7) } else { b3 }
}

fn unmark_at(board: &mut Vec<Option<Piece>>, x: i8, y: i8)
    requires
        board_wf(old(board)@),
        on_board(x as int, y as int),
    ensures
        final(board)@ == unmark(old(board)@, x as int, y as int),
        board_wf(final(board)@),
{
    let i: usize = (y * 8 + x) as usize;
    match board[i] {
        Some(p) => board.set(i, Some(Piece { has_moved: false, ..p })),
        None => {},
    }
}

/// Applies the castling field to a board.
pub fn apply_castling(board: &mut Vec<Option<Piece>>, f: &Vec<char>)
    requires
        board_wf(old(board)@),
    ensures
        final(board)@ == with_castling(old(board)@, f@),
        board_wf(final(board)@),
{
    if has_char(f, 'Q') {
        unmark_at(board, 0, 0);
    }
    if has_char(f, 'K') {
        unmark_at(board, 7, 0);
    }
    if has_char(f, 'q') {
        unmark_at(board, 0, 7);
    }
    if has_char(f, 'k') {
        unmark_at(board, 7, 7);
    }
}

/// The letter of a piece: upper case for white, lower case for black.
pub open spec fn piece_char(p: Piece) -> char {
    let white = p.color == PieceColor::White;
    match p.piece_type {
        PieceType::King => if white { 'K' } else { 'k' },
        PieceType::Queen => if white { 'Q' } else { 'q' },
        PieceType::Bishop => if white { 'B' } else { 'b' },
        PieceType::Knight => if white { 'N' } else { 'n' },
        PieceType::Rook => if white { 'R' } else { 'r' },
        PieceType::Pawn => if white { 'P' } else { 'p' },
    }
}

fn letter(p: Piece) -> (r: char)
    ensures
        r == piece_char(p),
{
    let white = p.color == PieceColor::White;
    match p.piece_type {
        PieceType::King => if white { 'K' } else { 'k' },
        PieceType::Queen => if white { 'Q' } else { 'q' },
        PieceType::Bishop => if white { 'B' } else { 'b' },
        PieceType::Knight => if white { 'N' } else { 'n' },
        PieceType::Rook => if white { 'R' } else { 'r' },
        PieceType::Pawn => if white { 'P' } else { 'p' },
    }
}

pub open spec fn run(empty: int) -> Seq<char> {
    if empty > 0 { seq![digit_char(empty)] } else { seq![] }
}

/// Rank `y` from file `x` on, `empty` empty squares being pending: each piece as its
/// letter, each run of empty squares as its length.
pub open spec fn rank_from(board: Seq<Option<Piece>>, y: int, x: int, empty: int) -> Seq<char>
    decreases 8 - x,
{
    if x >= 8 {
        run(empty)
    } else if board[index_of(x, y)] is Some {
        run(empty) + seq![piece_char(board[index_of(x, y)]->0)] + rank_from(board, y, x + 1, 0)
    } else {
        rank_from(board, y, x + 1, empty + 1)
    }
}

/// Ranks `y` down to 1, separated by `/`.
pub open spec fn ranks_from(board: Seq<Option<Piece>>, y: int) -> Seq<char>
    decreases y,
{
    if y <= 0 {
        rank_from(board, 0, 0, 0)
    } else {
        rank_from(board, y, 0, 0) + seq!['/'] + ranks_from(board, y - 1)
    }
}

fn push_rank(s: &mut String, board: &Vec<Option<Piece>>, y: i8)
    requires
        board@.len() == 64,
        0 <= y < 8,
    ensures
        final(s)@ == old(s)@ + rank_from(board@, y as int, 0, 0),
{
    let ghost whole = old(s)@ + rank_from(board@, y as int, 0, 0);
    let mut empty: u8 = 0;
    let mut x: i8 = 0;
    while x < 8
        invariant
            0 <= x <= 8,
            empty <= x,
            board@.len() == 64,
            0 <= y < 8,
            s@ + rank_from(board@, y as int, x as int, empty as int) == whole,
        decreases 8 - x,
    {
        let i: usize = (y * 8 + x) as usize;
        match board[i] {
            Some(p) => {
                let ghost before = s@;
                if empty > 0 {
                    push_char(s, digit(empty as u32));
                }
                push_char(s, letter(p));
                assert(s@ =~= before + run(empty as int) + seq![piece_char(p)]);
                assert(s@ + rank_from(board@, y as int, x + 1, 0) =~= before + rank_from(board@, y as int, x as int, empty as int));
                empty = 0;
            },
            None => {
                empty = empty + 1;
            },
        }
        x = x + 1;
    }
    let ghost before = s@;
    if empty > 0 {
        push_char(s, digit(empty as u32));
    }
    assert(s@ =~= before + run(empty as int));
}

/// Appends the placement field of `board`.
pub fn push_placement(s: &mut String, board: &Vec<Option<Piece>>)
    requires
        board@.len() == 64,
    ensures
        final(s)@ == old(s)@ + ranks_from(board@, 7),
{
    let ghost whole = old(s)@ + ranks_from(board@, 7);
    let mut y: i8 = 7;
    loop
        invariant_except_break
            0 <= y < 8,
            board@.len() == 64,
            s@ + ranks_from(board@, y as int) == whole,
        ensures
            s@ == whole,
        decreases y,
    {
        let ghost before = s@;
        push_rank(s, board, y);
        if y == 0 {
            break;
        }
        push_char(s, '/');
        assert(s@ + ranks_from(board@, y - 1) =~= before + ranks_from(board@, y as int));
        y = y - 1;
    }
}

/// Field `k`, or `d` when there are fewer fields.
pub open spec fn field_or(f: Seq<Seq<char>>, k: int, d: Seq<char>) -> Seq<char> {
    if k < f.len() {
        f[k]
    } else {
        d
    }
}

/// The side that moved last: the side to move is black on `b`, white otherwise.
pub open spec fn fen_mover(f: Seq<Seq<char>>) -> PieceColor {
    if field_or(f, 1, seq!['w']) == seq!['b'] {
        PieceColor::White
    } else {
        PieceColor::Black
    }
}

/// The game that the fields describe, before its bookkeeping runs (which hands the move
/// to the other side). Missing fields take the values of the opening position; a number
/// that does not read keeps that value too. An en-passant target square stands for a
/// two-square pawn advance across it by the side that moved last.
pub open spec fn fen_setup(f: Seq<Seq<char>>) -> GameView {
    let mover = fen_mover(f);
    let d = direction(mover);
    let ep = field_or(f, 3, seq!['-']);
    let target = notation_square(ep);
    let has_ep = ep != seq!['-'];
    let none = Square { x: -1i8, y: -1i8 };
    let full = match parse_u32(field_or(f, 5, seq!['1'])) {
        Some(n) => n,
        None => 1u32,
    };
    GameView {
        board: with_castling(placement(f[0]), field_or(f, 2, seq!['K', 'Q', 'k', 'q'])),
        halfmoves: match parse_u32(field_or(f, 4, seq!['0'])) {
            Some(n) => n,
            None => 0u32,
        },
        history: Seq::empty(),
        turn: mover,
        result: ChessResult::Ongoing,
        last_from: if has_ep { target.offset(0, -d) } else { none },
        last_to: if has_ep { target.offset(0, d) } else { none },
        capture: false,
        check: false,
        promotion: false,
        white_captured: Seq::empty(),
        black_captured: Seq::empty(),
        fullmoves: if mover == PieceColor::Black && full > 0 { (full - 1) as u32 } else { full },
    }
}

/// File `x`, rank `y` holds an unmoved king of colour `c`.
pub open spec fn king_unmoved(board: Seq<Option<Piece>>, x: int, y: int, c: PieceColor) -> bool {
    let s = Square { x: x as i8, y: y as i8 };
    &&& piece_at(board, s) is Some
    &&& piece_at(board, s)->0.piece_type == PieceType::King
    &&& piece_at(board, s)->0.color == c
    &&& !piece_at(board, s)->0.has_moved
}

/// The castling field: `K`, `Q`, `k`, `q` for each king on its home square that is
/// unmoved, with an unmoved rook of its colour on the corner, or `-` when none.
pub open spec fn castling_text(board: Seq<Option<Piece>>) -> Seq<char> {
    let wk = king_unmoved(board, 4, 0, PieceColor::White);
    let bk = king_unmoved(board, 4, 7, PieceColor::Black);
    let t = (if wk && rook_unmoved(board, 7, 0, PieceColor::White) { seq!['K'] } else { seq![] })
        + (if wk && rook_unmoved(board, 0, 0, PieceColor::White) { seq!['Q'] } else { seq![] })
        + (if bk && rook_unmoved(board, 7, 7, PieceColor::Black) { seq!['k'] } else { seq![] })
        + (if bk && rook_unmoved(board, 0, 7, PieceColor::Black) { seq!['q'] } else { seq![] });
    if t.len() == 0 {
        seq!['-']
    } else {
        t
    }
}

/// The square that a pawn that has just advanced two squares passed over, if any.
pub open spec fn en_passant_target(v: GameView) -> Option<Square> {
    let p = piece_at(v.board, v.last_to);
    if p is Some && p->0.piece_type == PieceType::Pawn
        && v.last_from.offset(0, 2 * direction(p->0.color)) == v.last_to
        && v.last_to.offset(0, -direction(p->0.color)).on_board() {
        Some(v.last_to.offset(0, -direction(p->0.color)))
    } else {
        None
    }
}

/// The en-passant field: the square passed over, in lower case, or `-`.
pub open spec fn en_passant_text(v: GameView) -> Seq<char> {
    match en_passant_target(v) {
        Some(t) => seq![(('a' as int) + t.x) as char, (('1' as int) + t.y) as char],
        None => seq!['-'],
    }
}

/// The six fields of a game's FEN.
pub open spec fn fen_text(v: GameView) -> Seq<char> {
    ranks_from(v.board, 7) + seq![' ', if v.turn == PieceColor::White { 'w' } else { 'b' }, ' ']
        + castling_text(v.board) + seq![' '] + en_passant_text(v) + seq![' '] + decimal(v.halfmoves as nat)
        + seq![' '] + decimal(v.fullmoves as nat)
}

fn king_unmoved_at(board: &Vec<Option<Piece>>, x: i8, y: i8, c: PieceColor) -> (r: bool)
    requires
        board@.len() == 64,
    ensures
        r == king_unmoved(board@, x as int, y as int, c),
{
    match crate::movegen::piece_on(board, Square { x, y }) {
        Some(k) => k.piece_type == PieceType::King && k.color == c && !k.has_moved,
        None => false,
    }
}

fn rook_unmoved_at(board: &Vec<Option<Piece>>, x: i8, y: i8, c: PieceColor) -> (r: bool)
    requires
        board@.len() == 64,
    ensures
        r == rook_unmoved(board@, x as int, y as int, c),
{
    match crate::movegen::piece_on(board, Square { x, y }) {
        Some(k) => k.piece_type == PieceType::Rook && k.color == c && !k.has_moved,
        None => false,
    }
}

/// Appends the castling field.
pub fn push_castling(s: &mut String, board: &Vec<Option<Piece>>)
    requires
        board@.len() == 64,
    ensures
        final(s)@ == old(s)@ + castling_text(board@),
{
    let ghost s0 = s@;
    let wk = king_unmoved_at(board, 4, 0, PieceColor::White);
    let bk = king_unmoved_at(board, 4, 7, PieceColor::Black);
    let a = wk && rook_unmoved_at(board, 7, 0, PieceColor::White);
    let b = wk && rook_unmoved_at(board, 0, 0, PieceColor::White);
    let c = bk && rook_unmoved_at(board, 7, 7, PieceColor::Black);
    let d = bk && rook_unmoved_at(board, 0, 7, PieceColor::Black);
    if a {
        push_char(s, 'K');
    }
    if b {
        push_char(s, 'Q');
    }
    if c {
        push_char(s, 'k');
    }
    if d {
        push_char(s, 'q');
    }
    if !(a || b || c || d) {
        push_char(s, '-');
    }
    assert(s@ =~= s0 + castling_text(board@));
}

/// Reads a square in algebraic notation from a field.
pub fn field_square(f: &Vec<char>) -> (r: Square)
    ensures
        r == notation_square(f@),
{
    let n = f.len();
    let mut i: usize = 0;
    while i < n && is_space(f[i])
        invariant
            i <= n,
            n == f@.len(),
            crate::text::skip_whitespace(f@, 0) == crate::text::skip_whitespace(f@, i as nat),
        decreases n - i,
    {
        i = i + 1;
    }
    assert(crate::text::skip_whitespace(f@, i as nat) == i);
    let x: i8 = if i < n { file_value(f[i]) } else { -1 };
    let y: i8 = if i < n && i + 1 < n { rank_value(f[i + 1]) } else { -1 };
    Square { x, y }
}

fn file_value(c: char) -> (r: i8)
    ensures
        r == crate::square::file_of(c),
{
    if 'A' <= c && c <= 'H' {
        (c as u32 - 'A' as u32) as i8
    } else if 'a' <= c && c <= 'h' {
        (c as u32 - 'a' as u32) as i8
    } else {
        -1
    }
}

fn rank_value(c: char) -> (r: i8)
    ensures
        r == crate::square::rank_of(c),
{
    if '1' <= c && c <= '8' {
        (c as u32 - '1' as u32) as i8
    } else {
        -1
    }
}

} // verus!
