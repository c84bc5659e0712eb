//! The FEN text that a game prints reads back as the same text.

use vstd::prelude::*;
use crate::square::{Square, on_board, index_of, clamp_i8};
use crate::piece::{Piece, PieceType, PieceColor};
use crate::fen::{
    decimal, digit_char, digits_value, all_digits, unsigned_part, parse_u32, is_digit, placement_from,
    placement, empty_board, fen_piece, fen_kind, fen_color, piece_char, rank_from, ranks_from, run,
    words_from, fen_fields, fen_text, fen_setup, fen_mover, field_or, castling_text, en_passant_text,
    en_passant_target, with_castling, unmark, contains_char, king_unmoved,
};
use crate::encoding::{board_wf, rook_unmoved};
use crate::position::{GameView, finish_move};
use crate::piece::{opponent, direction};
use crate::rules::piece_at;
use crate::square::notation_square;
use crate::game::fen_game;
use crate::text::is_whitespace;

verus! {

proof fn lemma_decimal_digits(n: nat)
    ensures
        all_digits(decimal(n)),
        digits_value(decimal(n)) == n,
        decimal(n).len() >= 1,
        decimal(n)[0] != '+',
    decreases n,
{
    if n >= 10 {
        lemma_decimal_digits(n / 10);
        let s = decimal(n / 10).push(digit_char((n % 10) as int));
        assert(s.drop_last() =~= decimal(n / 10));
        assert(n == (n / 10) * 10 + n % 10) by (nonlinear_arith);
        assert(s.last() as int - '0' as int == n % 10);
        assert(digits_value(s) == digits_value(s.drop_last()) * 10 + (s.last() as int - '0' as int));
    } else {
        assert(decimal(n).drop_last() =~= Seq::<char>::empty());
        assert(decimal(n).last() as int - '0' as int == n);
        assert(digits_value(decimal(n)) == digits_value(decimal(n).drop_last()) * 10 + (decimal(n).last() as int - '0' as int));
    }
}

/// A number printed in decimal reads back as itself.
pub proof fn lemma_decimal_parses(n: u32)
    ensures
        parse_u32(decimal(n as nat)) == Some(n),
{
    lemma_decimal_digits(n as nat);
    assert(unsigned_part(decimal(n as nat)) == decimal(n as nat));
}

/// The state of the placement reader after the characters of `f`, from file `x`,
/// rank `y`, on `board`.
pub open spec fn place_run(f: Seq<char>, x: int, y: int, board: Seq<Option<Piece>>) -> (int, int, Seq<Option<Piece>>)
    decreases f.len(),
{
    if f.len() == 0 {
        (x, y, board)
    } else {
        let c = f[0];
        if c == '/' {
            place_run(f.drop_first(), 0, clamp_i8(y - 1), board)
        } else if is_digit(c) {
            place_run(f.drop_first(), clamp_i8(x + (c as int - '0' as int)), y, board)
        } else {
            let b = if on_board(x, y) { board.update(index_of(x, y), Some(fen_piece(c, x, y))) } else { board };
            place_run(f.drop_first(), clamp_i8(x + 1), y, b)
        }
    }
}

proof fn lemma_place_run_index(f: Seq<char>, i: int, x: int, y: int, board: Seq<Option<Piece>>)
    requires
        0 <= i <= f.len(),
    ensures
        placement_from(f, i, x, y, board) == place_run(f.subrange(i, f.len() as int), x, y, board).2,
    decreases f.len() - i,
{
    let g = f.subrange(i, f.len() as int);
    if i < f.len() {
        assert(g.drop_first() =~= f.subrange(i + 1, f.len() as int));
        assert(g[0] == f[i]);
        let c = f[i];
        if c == '/' {
            lemma_place_run_index(f, i + 1, 0, clamp_i8(y - 1), board);
        } else if is_digit(c) {
            lemma_place_run_index(f, i + 1, clamp_i8(x + (c as int - '0' as int)), y, board);
        } else {
            let b = if on_board(x, y) { board.update(index_of(x, y), Some(fen_piece(c, x, y))) } else { board };
            lemma_place_run_index(f, i + 1, clamp_i8(x + 1), y, b);
        }
    }
}

proof fn lemma_place_run_concat(f: Seq<char>, g: Seq<char>, x: int, y: int, board: Seq<Option<Piece>>)
    ensures
        place_run(f + g, x, y, board) == ({
            let r = place_run(f, x, y, board);
            place_run(g, r.0, r.1, r.2)
        }),
    decreases f.len(),
{
    if f.len() > 0 {
        assert((f + g).drop_first() =~= f.drop_first() + g);
        assert((f + g)[0] == f[0]);
        let c = f[0];
        if c == '/' {
            lemma_place_run_concat(f.drop_first(), g, 0, clamp_i8(y - 1), board);
        } else if is_digit(c) {
            lemma_place_run_concat(f.drop_first(), g, clamp_i8(x + (c as int - '0' as int)), y, board);
        } else {
            let b = if on_board(x, y) { board.update(index_of(x, y), Some(fen_piece(c, x, y))) } else { board };
            lemma_place_run_concat(f.drop_first(), g, clamp_i8(x + 1), y, b);
        }
    } else {
        assert(f + g =~= g);
    }
}

/// A piece's letter reads back as its kind and colour.
proof fn lemma_letter_reads(p: Piece)
    ensures
        fen_kind(piece_char(p)) == p.piece_type,
        fen_color(piece_char(p)) == p.color,
        piece_char(p) != '/',
        !is_digit(piece_char(p)),
{
}

/// What the reader puts on file `f`, rank `y` for the piece that `b` holds there.
pub open spec fn read_back(b: Seq<Option<Piece>>, f: int, y: int) -> Option<Piece> {
    if b[index_of(f, y)] is Some {
        Some(fen_piece(piece_char(b[index_of(f, y)]->0), f, y))
    } else {
        None
    }
}

proof fn lemma_digit_reads(e: int)
    requires
        1 <= e <= 9,
    ensures
        is_digit(digit_char(e)),
        digit_char(e) as int - '0' as int == e,
        digit_char(e) != '/',
{
}

/// Reading a printed rank from file `x - e` puts each piece of the rank back on its
/// square and leaves the rest as it was.
proof fn lemma_rank_reads(b: Seq<Option<Piece>>, y: int, x: int, e: int, board: Seq<Option<Piece>>)
    requires
        b.len() == 64,
        board.len() == 64,
        0 <= y < 8,
        0 <= e <= x <= 8,
        forall|f: int| x - e <= f < 8 ==> (#[trigger] board[index_of(f, y)]) is None,
        forall|f: int| x - e <= f < x ==> (#[trigger] b[index_of(f, y)]) is None,
    ensures
        ({
            let r = place_run(rank_from(b, y, x, e), x - e, y, board);
            &&& r.0 == 8
            &&& r.1 == y
            &&& r.2.len() == 64
            &&& forall|f: int, yy: int| 0 <= f < 8 && 0 <= yy < 8 ==> #[trigger] r.2[index_of(f, yy)] == if yy == y && f >= x - e {
                read_back(b, f, y)
            } else {
                board[index_of(f, yy)]
            }
        }),
    decreases 8 - x,
{
    if x >= 8 {
        if e > 0 {
            lemma_digit_reads(e);
            assert(run(e).drop_first() =~= Seq::<char>::empty());
            assert(place_run(Seq::<char>::empty(), 8, y, board) == (8int, y, board));
        }
        assert(place_run(rank_from(b, y, x, e), x - e, y, board) == (8int, y, board));
    } else if b[index_of(x, y)] is Some {
        let p = b[index_of(x, y)]->0;
        let pc = piece_char(p);
        lemma_letter_reads(p);
        let first = run(e);
        let rest = rank_from(b, y, x + 1, 0);
        assert(rank_from(b, y, x, e) == first + seq![pc] + rest);
        lemma_place_run_concat(first + seq![pc], rest, x - e, y, board);
        lemma_place_run_concat(first, seq![pc], x - e, y, board);
        if e > 0 {
            lemma_digit_reads(e);
            assert(first.drop_first() =~= Seq::<char>::empty());
            assert(place_run(Seq::<char>::empty(), x, y, board) == (x, y, board));
        }
        assert(place_run(first, x - e, y, board) == (x, y, board));
        let b1 = board.update(index_of(x, y), Some(fen_piece(pc, x, y)));
        assert(seq![pc].drop_first() =~= Seq::<char>::empty());
        assert(place_run(Seq::<char>::empty(), x + 1, y, b1) == (x + 1, y, b1));
        assert(place_run(seq![pc], x, y, board) == (x + 1, y, b1));
        lemma_rank_reads(b, y, x + 1, 0, b1);
    } else {
        lemma_rank_reads(b, y, x + 1, e + 1, board);
    }
}

/// Reading printed ranks `y` down to 1 puts each of their pieces back on its square.
proof fn lemma_ranks_read(b: Seq<Option<Piece>>, y: int, board: Seq<Option<Piece>>)
    requires
        b.len() == 64,
        board.len() == 64,
        0 <= y < 8,
        forall|f: int, yy: int| 0 <= f < 8 && 0 <= yy <= y ==> (#[trigger] board[index_of(f, yy)]) is None,
    ensures
        ({
            let r = place_run(ranks_from(b, y), 0, y, board);
            &&& r.2.len() == 64
            &&& forall|f: int, yy: int| 0 <= f < 8 && 0 <= yy < 8 ==> #[trigger] r.2[index_of(f, yy)] == if yy <= y {
                read_back(b, f, yy)
            } else {
                board[index_of(f, yy)]
            }
        }),
    decreases y,
{
    lemma_rank_reads(b, y, 0, 0, board);
    if y > 0 {
        let first = rank_from(b, y, 0, 0);
        let rest = ranks_from(b, y - 1);
        assert(ranks_from(b, y) == first + seq!['/'] + rest);
        lemma_place_run_concat(first + seq!['/'], rest, 0, y, board);
        lemma_place_run_concat(first, seq!['/'], 0, y, board);
        let b1 = place_run(first, 0, y, board).2;
        assert(seq!['/'].drop_first() =~= Seq::<char>::empty());
        assert(place_run(Seq::<char>::empty(), 0, y - 1, b1) == (0int, y - 1, b1));
        assert(place_run(seq!['/'], 8, y, b1) == (0int, y - 1, b1));
        lemma_ranks_read(b, y - 1, b1);
    }
}

/// The placement field printed from a board reads back as a board with the same pieces,
/// by kind and colour, on the same squares.
pub proof fn lemma_placement_reads(b: Seq<Option<Piece>>)
    requires
        b.len() == 64,
    ensures
        placement(ranks_from(b, 7)).len() == 64,
        forall|f: int, y: int| 0 <= f < 8 && 0 <= y < 8 ==> #[trigger] placement(ranks_from(b, 7))[index_of(f, y)] == read_back(b, f, y),
{
    let text = ranks_from(b, 7);
    lemma_place_run_index(text, 0, 0, 7, empty_board());
    assert(text.subrange(0, text.len() as int) =~= text);
    lemma_ranks_read(b, 7, empty_board());
}

/// Two boards with the same letters on the same squares.
pub open spec fn same_letters(b1: Seq<Option<Piece>>, b2: Seq<Option<Piece>>) -> bool {
    forall|f: int, y: int| 0 <= f < 8 && 0 <= y < 8 ==> {
        &&& (#[trigger] b1[index_of(f, y)]) is Some == b2[index_of(f, y)] is Some
        &&& b1[index_of(f, y)] is Some ==> piece_char(b1[index_of(f, y)]->0) == piece_char(b2[index_of(f, y)]->0)
    }
}

proof fn lemma_rank_same(b1: Seq<Option<Piece>>, b2: Seq<Option<Piece>>, y: int, x: int, e: int)
    requires
        same_letters(b1, b2),
        0 <= y < 8,
        0 <= x <= 8,
    ensures
        rank_from(b1, y, x, e) == rank_from(b2, y, x, e),
    decreases 8 - x,
{
    if x < 8 {
        assert(b1[index_of(x, y)] is Some == b2[index_of(x, y)] is Some);
        lemma_rank_same(b1, b2, y, x + 1, 0);
        lemma_rank_same(b1, b2, y, x + 1, e + 1);
    }
}

/// Boards with the same letters on the same squares print the same placement.
pub proof fn lemma_ranks_same(b1: Seq<Option<Piece>>, b2: Seq<Option<Piece>>, y: int)
    requires
        same_letters(b1, b2),
        0 <= y < 8,
    ensures
        ranks_from(b1, y) == ranks_from(b2, y),
    decreases y,
{
    lemma_rank_same(b1, b2, y, 0, 0);
    if y > 0 {
        lemma_ranks_same(b1, b2, y - 1);
    }
}

/// No character of `w` is whitespace.
pub open spec fn no_space(w: Seq<char>) -> bool {
    forall|k: int| 0 <= k < w.len() ==> !is_whitespace(#[trigger] w[k])
}

proof fn lemma_word_chars(s: Seq<char>, i: int, j: int, cur: Seq<char>)
    requires
        0 <= i <= j <= s.len(),
        forall|k: int| i <= k < j ==> !is_whitespace(#[trigger] s[k]),
    ensures
        words_from(s, i, cur) == words_from(s, j, cur + s.subrange(i, j)),
    decreases j - i,
{
    if i == j {
        assert(cur + s.subrange(i, j) =~= cur);
    } else {
        lemma_word_chars(s, i + 1, j, cur.push(s[i]));
        assert(cur.push(s[i]) + s.subrange(i + 1, j) =~= cur + s.subrange(i, j));
    }
}

proof fn lemma_words_shift(s: Seq<char>, i: int, s2: Seq<char>, i2: int, cur: Seq<char>)
    requires
        0 <= i <= s.len(),
        0 <= i2 <= s2.len(),
        s.subrange(i, s.len() as int) == s2.subrange(i2, s2.len() as int),
    ensures
        words_from(s, i, cur) == words_from(s2, i2, cur),
    decreases s.len() - i,
{
    let t1 = s.subrange(i, s.len() as int);
    let t2 = s2.subrange(i2, s2.len() as int);
    assert(t1.len() == s.len() - i);
    assert(t2.len() == s2.len() - i2);
    if i < s.len() {
        assert(s[i] == s.subrange(i, s.len() as int)[0]);
        assert(s2[i2] == s2.subrange(i2, s2.len() as int)[0]);
        assert(s.subrange(i + 1, s.len() as int) =~= s.subrange(i, s.len() as int).drop_first());
        assert(s2.subrange(i2 + 1, s2.len() as int) =~= s2.subrange(i2, s2.len() as int).drop_first());
        lemma_words_shift(s, i + 1, s2, i2 + 1, Seq::empty());
        lemma_words_shift(s, i + 1, s2, i2 + 1, cur.push(s[i]));
    }
}

/// A word and a space in front of more text split off as the first field.
proof fn lemma_first_word(w: Seq<char>, r: Seq<char>)
    requires
        w.len() > 0,
        no_space(w),
    ensures
        words_from(w + seq![' '] + r, 0, Seq::empty()) == seq![w] + words_from(r, 0, Seq::empty()),
{
    let s = w + seq![' '] + r;
    assert forall|k: int| 0 <= k < w.len() implies !is_whitespace(#[trigger] s[k]) by {
        assert(s[k] == w[k]);
    }
    lemma_word_chars(s, 0, w.len() as int, Seq::empty());
    assert(Seq::<char>::empty() + s.subrange(0, w.len() as int) =~= w);
    assert(s[w.len() as int] == ' ');
    assert(s.subrange(w.len() + 1int, s.len() as int) =~= r.subrange(0, r.len() as int));
    lemma_words_shift(s, w.len() + 1int, r, 0, Seq::empty());
}

/// A word alone is a single field.
proof fn lemma_last_word(w: Seq<char>)
    requires
        w.len() > 0,
        no_space(w),
    ensures
        words_from(w, 0, Seq::empty()) == seq![w],
{
    lemma_word_chars(w, 0, w.len() as int, Seq::empty());
    assert(Seq::<char>::empty() + w.subrange(0, w.len() as int) =~= w);
}

/// Six words joined by single spaces split back into those six fields.
pub proof fn lemma_six_fields(a: Seq<char>, b: Seq<char>, c: Seq<char>, d: Seq<char>, e: Seq<char>, f: Seq<char>)
    requires
        a.len() > 0 && no_space(a),
        b.len() > 0 && no_space(b),
        c.len() > 0 && no_space(c),
        d.len() > 0 && no_space(d),
        e.len() > 0 && no_space(e),
        f.len() > 0 && no_space(f),
    ensures
        fen_fields(a + seq![' '] + b + seq![' '] + c + seq![' '] + d + seq![' '] + e + seq![' '] + f) == seq![a, b, c, d, e, f],
{
    let r5 = e + seq![' '] + f;
    let r4 = d + seq![' '] + r5;
    let r3 = c + seq![' '] + r4;
    let r2 = b + seq![' '] + r3;
    lemma_last_word(f);
    lemma_first_word(e, f);
    lemma_first_word(d, r5);
    lemma_first_word(c, r4);
    lemma_first_word(b, r3);
    lemma_first_word(a, r2);
    assert(a + seq![' '] + b + seq![' '] + c + seq![' '] + d + seq![' '] + e + seq![' '] + f =~= a + seq![' '] + r2);
    assert(seq![a] + (seq![b] + (seq![c] + (seq![d] + (seq![e] + seq![f])))) =~= seq![a, b, c, d, e, f]);
}

proof fn lemma_no_space_concat(a: Seq<char>, b: Seq<char>)
    requires
        no_space(a),
        no_space(b),
    ensures
        no_space(a + b),
{
    assert forall|k: int| 0 <= k < (a + b).len() implies !is_whitespace(#[trigger] (a + b)[k]) by {
        if k < a.len() {
            assert((a + b)[k] == a[k]);
        } else {
            assert((a + b)[k] == b[k - a.len()]);
        }
    }
}

proof fn lemma_rank_no_space(b: Seq<Option<Piece>>, y: int, x: int, e: int)
    requires
        0 <= x <= 8,
    ensures
        no_space(rank_from(b, y, x, e)),
    decreases 8 - x,
{
    if x < 8 {
        lemma_rank_no_space(b, y, x + 1, 0);
        lemma_rank_no_space(b, y, x + 1, e + 1);
        if b[index_of(x, y)] is Some {
            lemma_no_space_concat(run(e), seq![piece_char(b[index_of(x, y)]->0)]);
            lemma_no_space_concat(run(e) + seq![piece_char(b[index_of(x, y)]->0)], rank_from(b, y, x + 1, 0));
        }
    }
}

proof fn lemma_ranks_no_space(b: Seq<Option<Piece>>, y: int)
    requires
        b.len() == 64,
        0 <= y < 8,
    ensures
        no_space(ranks_from(b, y)),
        ranks_from(b, y).len() > 0,
    decreases y,
{
    lemma_rank_no_space(b, y, 0, 0);
    if y > 0 {
        lemma_ranks_no_space(b, y - 1);
        lemma_no_space_concat(rank_from(b, y, 0, 0), seq!['/']);
        lemma_no_space_concat(rank_from(b, y, 0, 0) + seq!['/'], ranks_from(b, y - 1));
    } else {
        lemma_rank_no_space(b, 0, 0, 0);
        lemma_rank_nonempty(b, 0, 0, 0);
    }
}

proof fn lemma_rank_nonempty(b: Seq<Option<Piece>>, y: int, x: int, e: int)
    requires
        b.len() == 64,
        0 <= y < 8,
        0 <= x <= 8,
        e >= 0,
        x < 8 || e > 0,
    ensures
        rank_from(b, y, x, e).len() > 0,
    decreases 8 - x,
{
    if x < 8 {
        if b[index_of(x, y)] is Some {
            let t = run(e) + seq![piece_char(b[index_of(x, y)]->0)] + rank_from(b, y, x + 1, 0);
            assert(t.len() >= 1);
        } else {
            lemma_rank_nonempty(b, y, x + 1, e + 1);
        }
    }
}

proof fn lemma_contains_concat(a: Seq<char>, b: Seq<char>, c: char)
    ensures
        contains_char(a + b, c) == (contains_char(a, c) || contains_char(b, c)),
{
    if contains_char(a, c) {
        let i = choose|i: int| 0 <= i < a.len() && a[i] == c;
        assert((a + b)[i] == c);
    }
    if contains_char(b, c) {
        let i = choose|i: int| 0 <= i < b.len() && b[i] == c;
        assert((a + b)[a.len() + i] == c);
    }
    if contains_char(a + b, c) {
        let i = choose|i: int| 0 <= i < (a + b).len() && (a + b)[i] == c;
        if i < a.len() {
            assert(a[i] == c);
        } else {
            assert(b[i - a.len()] == c);
        }
    }
}

proof fn lemma_contains_one(x: char, c: char)
    ensures
        contains_char(seq![x], c) == (x == c),
        !contains_char(Seq::<char>::empty(), c),
{
    if x == c {
        assert(seq![x][0] == c);
    }
}

pub open spec fn opt_letter(b: bool, c: char) -> Seq<char> {
    if b { seq![c] } else { seq![] }
}

/// The letters of a castling field made of the flags `a`, `b`, `c`, `d` in order.
proof fn lemma_castling_letters(a: bool, b: bool, c: bool, d: bool)
    ensures
        ({
            let t = opt_letter(a, 'K') + opt_letter(b, 'Q') + opt_letter(c, 'k') + opt_letter(d, 'q');
            let f = if t.len() == 0 { seq!['-'] } else { t };
            &&& contains_char(f, 'K') == a
            &&& contains_char(f, 'Q') == b
            &&& contains_char(f, 'k') == c
            &&& contains_char(f, 'q') == d
            &&& no_space(f)
            &&& f.len() > 0
        }),
{
    let t1 = opt_letter(a, 'K');
    let t2 = opt_letter(b, 'Q');
    let t3 = opt_letter(c, 'k');
    let t4 = opt_letter(d, 'q');
    let t = t1 + t2 + t3 + t4;
    let f = if t.len() == 0 { seq!['-'] } else { t };
    for_each_letter(t1, t2, t3, t4, 'K');
    for_each_letter(t1, t2, t3, t4, 'Q');
    for_each_letter(t1, t2, t3, t4, 'k');
    for_each_letter(t1, t2, t3, t4, 'q');
    lemma_contains_one('-', 'K');
    lemma_contains_one('-', 'Q');
    lemma_contains_one('-', 'k');
    lemma_contains_one('-', 'q');
    lemma_contains_one('K', 'K');
    lemma_contains_one('Q', 'K');
    lemma_contains_one('k', 'K');
    lemma_contains_one('q', 'K');
    lemma_contains_one('K', 'Q');
    lemma_contains_one('Q', 'Q');
    lemma_contains_one('k', 'Q');
    lemma_contains_one('q', 'Q');
    lemma_contains_one('K', 'k');
    lemma_contains_one('Q', 'k');
    lemma_contains_one('k', 'k');
    lemma_contains_one('q', 'k');
    lemma_contains_one('K', 'q');
    lemma_contains_one('Q', 'q');
    lemma_contains_one('k', 'q');
    lemma_contains_one('q', 'q');
    lemma_no_space_concat(t1, t2);
    lemma_no_space_concat(t1 + t2, t3);
    lemma_no_space_concat(t1 + t2 + t3, t4);
}

proof fn for_each_letter(t1: Seq<char>, t2: Seq<char>, t3: Seq<char>, t4: Seq<char>, c: char)
    ensures
        contains_char(t1 + t2 + t3 + t4, c) == (contains_char(t1, c) || contains_char(t2, c) || contains_char(t3, c)
            || contains_char(t4, c)),
{
    lemma_contains_concat(t1, t2, c);
    lemma_contains_concat(t1 + t2, t3, c);
    lemma_contains_concat(t1 + t2 + t3, t4, c);
}

/// The board read back from a printed placement, with the printed castling field applied.
pub open spec fn reread_board(b: Seq<Option<Piece>>) -> Seq<Option<Piece>> {
    with_castling(placement(ranks_from(b, 7)), castling_text(b))
}

proof fn lemma_reread_squares(b: Seq<Option<Piece>>)
    requires
        b.len() == 64,
    ensures
        reread_board(b).len() == 64,
        forall|f: int, y: int| 0 <= f < 8 && 0 <= y < 8 ==> {
            let r = #[trigger] reread_board(b)[index_of(f, y)];
            &&& r is Some == b[index_of(f, y)] is Some
            &&& r is Some ==> r->0.piece_type == b[index_of(f, y)]->0.piece_type
                && r->0.color == b[index_of(f, y)]->0.color
                && r->0.pos == Square { x: f as i8, y: y as i8 }
            &&& r is Some && !(index_of(f, y) == 0 || index_of(f, y) == 7 || index_of(f, y) == 56 || index_of(f, y) == 63)
                ==> r->0.has_moved == !(r->0.piece_type == PieceType::King || (r->0.piece_type == PieceType::Pawn
                && y == (if r->0.color == PieceColor::White { 1int } else { 6int })))
        },
{
    lemma_placement_reads(b);
    let rb = placement(ranks_from(b, 7));
    assert forall|f: int, y: int| 0 <= f < 8 && 0 <= y < 8 implies {
        let r = #[trigger] reread_board(b)[index_of(f, y)];
        &&& r is Some == b[index_of(f, y)] is Some
        &&& r is Some ==> r->0.piece_type == b[index_of(f, y)]->0.piece_type
            && r->0.color == b[index_of(f, y)]->0.color
            && r->0.pos == Square { x: f as i8, y: y as i8 }
        &&& r is Some && !(index_of(f, y) == 0 || index_of(f, y) == 7 || index_of(f, y) == 56 || index_of(f, y) == 63)
            ==> r->0.has_moved == !(r->0.piece_type == PieceType::King || (r->0.piece_type == PieceType::Pawn
            && y == (if r->0.color == PieceColor::White { 1int } else { 6int })))
    } by {
        assert(rb[index_of(f, y)] == read_back(b, f, y));
        if b[index_of(f, y)] is Some {
            lemma_letter_reads(b[index_of(f, y)]->0);
        }
    }
}

/// The castling field reads back: printed from the re-read board it is the same.
proof fn lemma_castling_reads(b: Seq<Option<Piece>>)
    requires
        b.len() == 64,
    ensures
        castling_text(reread_board(b)) == castling_text(b),
        same_letters(reread_board(b), b),
{
    let r = reread_board(b);
    let rb = placement(ranks_from(b, 7));
    let ct = castling_text(b);
    lemma_placement_reads(b);
    lemma_reread_squares(b);
    let wk = king_unmoved(b, 4, 0, PieceColor::White);
    let bk = king_unmoved(b, 4, 7, PieceColor::Black);
    let a1 = wk && rook_unmoved(b, 7, 0, PieceColor::White);
    let a2 = wk && rook_unmoved(b, 0, 0, PieceColor::White);
    let a3 = bk && rook_unmoved(b, 7, 7, PieceColor::Black);
    let a4 = bk && rook_unmoved(b, 0, 7, PieceColor::Black);
    lemma_castling_letters(a1, a2, a3, a4);
    assert(ct == {
        let t = opt_letter(a1, 'K') + opt_letter(a2, 'Q') + opt_letter(a3, 'k') + opt_letter(a4, 'q');
        if t.len() == 0 { seq!['-'] } else { t }
    });
    assert(index_of(4, 0) == 4 && index_of(7, 0) == 7 && index_of(0, 0) == 0);
    assert(index_of(4, 7) == 60 && index_of(7, 7) == 63 && index_of(0, 7) == 56);
    assert(r[4] == rb[4] && r[60] == rb[60]);
    assert(r[7] == unmark(rb, 7, 0)[7] || r[7] == rb[7]);
    assert(contains_char(ct, 'K') ==> r[7] == unmark(rb, 7, 0)[7]);
    assert(!contains_char(ct, 'K') ==> r[7] == rb[7]);
    assert(contains_char(ct, 'Q') ==> r[0] == unmark(rb, 0, 0)[0]);
    assert(!contains_char(ct, 'Q') ==> r[0] == rb[0]);
    assert(contains_char(ct, 'k') ==> r[63] == unmark(rb, 7, 7)[63]);
    assert(!contains_char(ct, 'k') ==> r[63] == rb[63]);
    assert(contains_char(ct, 'q') ==> r[56] == unmark(rb, 0, 7)[56]);
    assert(!contains_char(ct, 'q') ==> r[56] == rb[56]);
    assert(rb[4] == read_back(b, 4, 0) && rb[7] == read_back(b, 7, 0) && rb[0] == read_back(b, 0, 0));
    assert(rb[60] == read_back(b, 4, 7) && rb[63] == read_back(b, 7, 7) && rb[56] == read_back(b, 0, 7));
    if b[4] is Some { lemma_letter_reads(b[4]->0); }
    if b[7] is Some { lemma_letter_reads(b[7]->0); }
    if b[0] is Some { lemma_letter_reads(b[0]->0); }
    if b[60] is Some { lemma_letter_reads(b[60]->0); }
    if b[63] is Some { lemma_letter_reads(b[63]->0); }
    if b[56] is Some { lemma_letter_reads(b[56]->0); }
    assert((king_unmoved(r, 4, 0, PieceColor::White) && rook_unmoved(r, 7, 0, PieceColor::White)) == a1);
    assert((king_unmoved(r, 4, 0, PieceColor::White) && rook_unmoved(r, 0, 0, PieceColor::White)) == a2);
    assert((king_unmoved(r, 4, 7, PieceColor::Black) && rook_unmoved(r, 7, 7, PieceColor::Black)) == a3);
    assert((king_unmoved(r, 4, 7, PieceColor::Black) && rook_unmoved(r, 0, 7, PieceColor::Black)) == a4);
    assert forall|f: int, y: int| 0 <= f < 8 && 0 <= y < 8 implies {
        &&& (#[trigger] r[index_of(f, y)]) is Some == b[index_of(f, y)] is Some
        &&& r[index_of(f, y)] is Some ==> piece_char(r[index_of(f, y)]->0) == piece_char(b[index_of(f, y)]->0)
    } by {
        assert(r[index_of(f, y)] == r[index_of(f, y)]);
    }
}

proof fn lemma_en_passant_text_shape(v: GameView)
    ensures
        no_space(en_passant_text(v)),
        en_passant_text(v).len() > 0,
        (en_passant_text(v) == seq!['-']) == (en_passant_target(v) is None),
        en_passant_target(v) matches Some(t) ==> notation_square(en_passant_text(v)) == t,
{
    if let Some(t) = en_passant_target(v) {
        let e = en_passant_text(v);
        assert(e[0] != '-');
        assert(crate::text::skip_whitespace(e, 0) == 0);
    }
}

/// The en-passant field reads back, when the pawn that has just advanced two squares
/// belongs to the side that moved last.
proof fn lemma_en_passant_reads(v: GameView, w: GameView)
    requires
        board_wf(v.board),
        same_letters(w.board, v.board),
        w.board.len() == 64,
        en_passant_target(v) is Some ==> piece_at(v.board, v.last_to)->0.color == opponent(v.turn),
        ({
            let e = en_passant_text(v);
            let d = direction(opponent(v.turn));
            let t = notation_square(e);
            &&& w.last_from == if e != seq!['-'] { t.offset(0, -d) } else { Square { x: -1i8, y: -1i8 } }
            &&& w.last_to == if e != seq!['-'] { t.offset(0, d) } else { Square { x: -1i8, y: -1i8 } }
        }),
    ensures
        en_passant_text(w) == en_passant_text(v),
{
    lemma_en_passant_text_shape(v);
    if let Some(t) = en_passant_target(v) {
        let lt = v.last_to;
        let p = piece_at(v.board, lt)->0;
        assert(lt.on_board());
        assert(w.last_to == lt);
        assert(w.board[lt.index()] is Some);
        assert(piece_char(w.board[lt.index()]->0) == piece_char(p));
        assert(piece_at(w.board, lt)->0.piece_type == PieceType::Pawn);
        assert(piece_at(w.board, lt)->0.color == p.color);
    }
}

pub open spec fn fen_field_list(v: GameView) -> Seq<Seq<char>> {
    seq![
        ranks_from(v.board, 7),
        seq![if v.turn == PieceColor::White { 'w' } else { 'b' }],
        castling_text(v.board),
        en_passant_text(v),
        decimal(v.halfmoves as nat),
        decimal(v.fullmoves as nat),
    ]
}

proof fn lemma_text_fields(v: GameView)
    requires
        board_wf(v.board),
    ensures
        fen_fields(fen_text(v)) == fen_field_list(v),
{
    let b = v.board;
    let pf = ranks_from(b, 7);
    let tf = seq![if v.turn == PieceColor::White { 'w' } else { 'b' }];
    let cf = castling_text(b);
    let ef = en_passant_text(v);
    let hf = decimal(v.halfmoves as nat);
    let ff = decimal(v.fullmoves as nat);
    lemma_ranks_no_space(b, 7);
    lemma_castling_letters(
        king_unmoved(b, 4, 0, PieceColor::White) && rook_unmoved(b, 7, 0, PieceColor::White),
        king_unmoved(b, 4, 0, PieceColor::White) && rook_unmoved(b, 0, 0, PieceColor::White),
        king_unmoved(b, 4, 7, PieceColor::Black) && rook_unmoved(b, 7, 7, PieceColor::Black),
        king_unmoved(b, 4, 7, PieceColor::Black) && rook_unmoved(b, 0, 7, PieceColor::Black),
    );
    lemma_en_passant_text_shape(v);
    lemma_decimal_digits(v.halfmoves as nat);
    lemma_decimal_digits(v.fullmoves as nat);
    assert(no_space(tf));
    assert(no_space(hf));
    assert(no_space(ff));
    assert(fen_text(v) =~= pf + seq![' '] + tf + seq![' '] + cf + seq![' '] + ef + seq![' '] + hf + seq![' '] + ff);
    lemma_six_fields(pf, tf, cf, ef, hf, ff);
}

proof fn lemma_text_game(v: GameView)
    requires
        board_wf(v.board),
        v.fullmoves >= 1,
    ensures
        ({
            let w = fen_game(fen_text(v));
            let e = en_passant_text(v);
            let d = direction(opponent(v.turn));
            let t = notation_square(e);
            &&& w.board == reread_board(v.board)
            &&& w.turn == v.turn
            &&& w.halfmoves == v.halfmoves
            &&& w.fullmoves == v.fullmoves
            &&& w.last_from == if e != seq!['-'] { t.offset(0, -d) } else { Square { x: -1i8, y: -1i8 } }
            &&& w.last_to == if e != seq!['-'] { t.offset(0, d) } else { Square { x: -1i8, y: -1i8 } }
        }),
{
    lemma_text_fields(v);
    lemma_decimal_parses(v.halfmoves);
    lemma_decimal_parses(v.fullmoves);
    let f = fen_field_list(v);
    assert(seq!['w'] != seq!['b']) by {
        assert(seq!['w'][0] != seq!['b'][0]);
    }
    assert(fen_mover(f) == opponent(v.turn));
    assert(field_or(f, 3, seq!['-']) == en_passant_text(v));
    assert(field_or(f, 2, seq!['K', 'Q', 'k', 'q']) == castling_text(v.board));
}

/// The FEN of a game reads back as itself: printing the game that it describes gives
/// the same text. This holds when the game's full-move number is at least 1 and a pawn
/// that has just advanced two squares belongs to the side that moved last.
pub proof fn lemma_fen_round_trip(v: GameView)
    requires
        board_wf(v.board),
        v.fullmoves >= 1,
        en_passant_target(v) is Some ==> piece_at(v.board, v.last_to)->0.color == opponent(v.turn),
    ensures
        fen_text(fen_game(fen_text(v))) == fen_text(v),
{
    let b = v.board;
    let w = fen_game(fen_text(v));
    lemma_text_game(v);
    lemma_castling_reads(b);
    lemma_reread_squares(b);
    lemma_ranks_same(w.board, b, 7);
    lemma_en_passant_reads(v, w);
    assert(fen_text(w) =~= fen_text(v));
}

} // verus!
