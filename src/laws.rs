//! Laws of the game that hold of every position, proved from the specifications that
//! the game's operations meet.

use vstd::prelude::*;
use crate::bitboard::{bit, single};
use crate::square::{Square, index_of, on_board};
use crate::piece::{Piece, PieceType, PieceColor, ChessResult, opponent, direction};
use crate::rules::{en_passant_open, piece_at, step_index, ray_reaches, pseudo_reaches};
use crate::encoding::{board_wf, encoding, lemma_color_mask_bits, lemma_type_mask_bits, has_color};
use crate::position::{
    GameView, finish_move, apply_move, move_done, record, occurrences, insufficient_material,
    has_legal_move, winner, sat_inc, legal_reaches, castle_open, exposes_king, first_king,
    candidate, kept, occupancy, relocate, take_step, castle_step, bookkept, gives_check, checking_piece, own_after, other_after, king_after, attacker, castle_rook,
    square_of
};

verus! {

/// A position that occurs for the third time since the last capture ends an ongoing game
/// in a draw, unless the move that reached it mates.
pub proof fn lemma_threefold_repetition(v: GameView)
    requires
        v.result == ChessResult::Ongoing,
        occurrences(record(v.history, encoding(v.board, v.last_from, v.last_to)), encoding(v.board, v.last_from, v.last_to)) >= 3,
    ensures
        finish_move(v).result == ChessResult::Draw || (finish_move(v).result == winner(v.turn) && bookkept(v).check
            && !has_legal_move(bookkept(v), opponent(v.turn))),
{
}

/// One hundred half-moves without a pawn move or capture end an ongoing game in a draw,
/// unless the move that reached them mates.
pub proof fn lemma_fifty_move_rule(v: GameView)
    requires
        v.result == ChessResult::Ongoing,
        v.halfmoves >= 100,
    ensures
        finish_move(v).result == ChessResult::Draw || (finish_move(v).result == winner(v.turn) && bookkept(v).check
            && !has_legal_move(bookkept(v), opponent(v.turn))),
{
}

/// A move that is neither a capture nor a pawn move advances the half-move clock by one;
/// any other resets it.
pub proof fn lemma_halfmove_clock(v: GameView, p: Piece, to: Square)
    ensures
        piece_at(v.board, to) is None && p.piece_type != PieceType::Pawn ==> apply_move(v, p, to).halfmoves == sat_inc(v.halfmoves),
        piece_at(v.board, to) is Some || p.piece_type == PieceType::Pawn ==> apply_move(v, p, to).halfmoves == 0,
        move_done(v, p, to).halfmoves == apply_move(v, p, to).halfmoves,
{
}

/// A position of at most three pieces, all kings, bishops and knights, ends an ongoing
/// game in a draw, unless the move that reached it mates.
pub proof fn lemma_insufficient_material(v: GameView)
    requires
        v.result == ChessResult::Ongoing,
        insufficient_material(v.board),
    ensures
        finish_move(v).result == ChessResult::Draw || (finish_move(v).result == winner(v.turn) && bookkept(v).check
            && !has_legal_move(bookkept(v), opponent(v.turn))),
{
}

/// After any move, a pawn may capture en passant only the piece that has just moved, and
/// only when that piece is a pawn that advanced two ranks: an earlier two-square advance
/// can no longer be taken.
pub proof fn lemma_en_passant_window(v: GameView, p: Piece, to: Square, q: Piece)
    requires
        board_wf(v.board),
        p.pos.on_board(),
        to.on_board(),
        en_passant_open(move_done(v, p, to).board, move_done(v, p, to).last_from, move_done(v, p, to).last_to, q),
    ensures
        move_done(v, p, to).last_to == to,
        p.piece_type == PieceType::Pawn,
        p.pos.y == to.y + 2 * direction(q.color),
{
    let w = apply_move(v, p, to);
    let v3 = castle_step(take_step(v, p, to), p, to);
    assert(w.board == relocate(v3.board, p, to));
    assert(w.board[to.index()] == Some(Piece { pos: to, has_moved: true, ..p }));
}

proof fn lemma_king_found(board: Seq<Option<Piece>>, c: PieceColor, i: int, k: int)
    requires
        0 <= i <= k < 64,
        board[k] is Some,
        board[k]->0.piece_type == PieceType::King,
        board[k]->0.color == c,
    ensures
        first_king(board, c, i) is Some,
    decreases k - i,
{
    if i < k {
        lemma_king_found(board, c, i + 1, k);
    }
}

/// Castling queen-side is a legal move of a king exactly when king and rook are unmoved,
/// the squares between them are empty, the king is not in check, and neither the square
/// it passes nor the square it lands on is attacked.
pub proof fn lemma_castling_queen_side(v: GameView, p: Piece)
    requires
        board_wf(v.board),
        p.pos.on_board(),
        p.pos.x >= 2,
        v.board[p.pos.index()] == Some(p),
        p.piece_type == PieceType::King,
    ensures
        legal_reaches(v, p, step_index(p.pos, -2, 0)) == (castle_open(v, p, 0)
            && !exposes_king(v, p, step_index(p.pos, -1, 0)) && !exposes_king(v, p, step_index(p.pos, -2, 0))),
{
    lemma_king_found(v.board, p.color, 0, p.pos.index());
    let own = occupancy(v.board, p.color);
    let other = occupancy(v.board, opponent(p.color));
    if castle_open(v, p, 0) {
        assert(ray_reaches(p.pos.x as int, p.pos.y as int, -1, 0, own, other, index_of(1, p.pos.y as int)));
        assert(!bit(own, step_index(p.pos, -1, 0)));
        assert(candidate(v, p, step_index(p.pos, -1, 0)));
    }
}

/// Castling king-side is a legal move of a king exactly when king and rook are unmoved,
/// the squares between them are empty, the king is not in check, and neither the square
/// it passes nor the square it lands on is attacked.
pub proof fn lemma_castling_king_side(v: GameView, p: Piece)
    requires
        board_wf(v.board),
        p.pos.on_board(),
        p.pos.x <= 5,
        v.board[p.pos.index()] == Some(p),
        p.piece_type == PieceType::King,
    ensures
        legal_reaches(v, p, step_index(p.pos, 2, 0)) == (castle_open(v, p, 7)
            && !exposes_king(v, p, step_index(p.pos, 1, 0)) && !exposes_king(v, p, step_index(p.pos, 2, 0))),
{
    lemma_king_found(v.board, p.color, 0, p.pos.index());
    let own = occupancy(v.board, p.color);
    let other = occupancy(v.board, opponent(p.color));
    if castle_open(v, p, 7) {
        assert(ray_reaches(p.pos.x as int, p.pos.y as int, 1, 0, own, other, index_of(6, p.pos.y as int)));
        assert(!bit(own, step_index(p.pos, 1, 0)));
        assert(candidate(v, p, step_index(p.pos, 1, 0)));
    }
}

/// The encoding's bitboards agree: the squares marked by some kind, those marked by
/// some colour, and the occupied squares are the same.
pub proof fn lemma_encoding_consistent(board: Seq<Option<Piece>>, last_from: Square, last_to: Square)
    requires
        board.len() == 64,
    ensures
        ({
            let e = encoding(board, last_from, last_to);
            forall|t: int| 0 <= t < 64 ==> {
                &&& #[trigger] bit(e.white_bitmap | e.black_bitmap, t) == board[t] is Some
                &&& bit(e.king_bitmap | e.queen_bitmap | e.bishop_bitmap | e.knight_bitmap | e.rook_bitmap
                    | e.pawn_bitmap, t) == board[t] is Some
            }
        }),
{
    broadcast use crate::bitboard::group_bits;
    lemma_color_mask_bits(board, PieceColor::White, 64);
    lemma_color_mask_bits(board, PieceColor::Black, 64);
    lemma_type_mask_bits(board, PieceType::King, 64);
    lemma_type_mask_bits(board, PieceType::Queen, 64);
    lemma_type_mask_bits(board, PieceType::Bishop, 64);
    lemma_type_mask_bits(board, PieceType::Knight, 64);
    lemma_type_mask_bits(board, PieceType::Rook, 64);
    lemma_type_mask_bits(board, PieceType::Pawn, 64);
}

proof fn lemma_single_king(board: Seq<Option<Piece>>, c: PieceColor, k: int, i: int)
    requires
        0 <= i <= k < 64,
        board[k] is Some,
        board[k]->0.piece_type == PieceType::King,
        board[k]->0.color == c,
        forall|j: int| 0 <= j < 64 && #[trigger] board[j] is Some && board[j]->0.piece_type == PieceType::King
            && board[j]->0.color == c ==> j == k,
    ensures
        first_king(board, c, i) == Some(k),
    decreases k - i,
{
    if i < k {
        lemma_single_king(board, c, k, i + 1);
    }
}

/// The mover's preconditions for the no-self-check law.
pub open spec fn plain_legal_move(v: GameView, p: Piece, to: Square, k: int) -> bool {
    &&& board_wf(v.board)
    &&& p.pos.on_board()
    &&& v.board[p.pos.index()] == Some(p)
    &&& to.on_board()
    &&& legal_reaches(v, p, to.index())
    &&& !(p.piece_type == PieceType::King && !p.has_moved && (to == p.pos.offset(-2, 0) || to == p.pos.offset(2, 0)))
    &&& 0 <= k < 64
    &&& v.board[k] is Some
    &&& v.board[k]->0.piece_type == PieceType::King
    &&& v.board[k]->0.color == p.color
    &&& forall|j: int| 0 <= j < 64 && #[trigger] v.board[j] is Some && v.board[j]->0.piece_type == PieceType::King
            && v.board[j]->0.color == p.color ==> j == k
    &&& en_passant_open(v.board, v.last_from, v.last_to, p) ==> piece_at(v.board, v.last_to)->0.color != p.color
            && piece_at(v.board, v.last_to.offset(0, direction(p.color))) is None
}

/// The move is an en-passant capture.
pub open spec fn takes_en_passant(v: GameView, p: Piece, to: Square) -> bool {
    p.piece_type == PieceType::Pawn && p.pos.x != to.x && piece_at(v.board, to) is None
}

proof fn lemma_target_free(v: GameView, p: Piece, to: Square, k: int)
    requires
        plain_legal_move(v, p, to, k),
    ensures
        kept(v, p, to.index()),
        !bit(occupancy(v.board, p.color), to.index()),
        first_king(v.board, p.color, 0) == Some(k),
{
    let c = p.color;
    let o = opponent(c);
    let t = to.index();
    let own = occupancy(v.board, c);
    let other = occupancy(v.board, o);
    lemma_color_mask_bits(v.board, c, 64);
    lemma_color_mask_bits(v.board, o, 64);
    lemma_single_king(v.board, c, k, 0);
    assert(!bit(own, t)) by {
        if bit(own, t) {
            let d = direction(c);
            if p.piece_type == PieceType::Pawn && en_passant_open(v.board, v.last_from, v.last_to, p) && t == step_index(v.last_to, 0, d) {
                assert(v.last_to.offset(0, d).index() == t);
                assert(piece_at(v.board, v.last_to.offset(0, d)) is None);
            }
            let (x, y) = (p.pos.x as int, p.pos.y as int);
            crate::rules::lemma_ray_not_own(x, y, 1, 0, own, other, t);
            crate::rules::lemma_ray_not_own(x, y, 0, 1, own, other, t);
            crate::rules::lemma_ray_not_own(x, y, -1, 0, own, other, t);
            crate::rules::lemma_ray_not_own(x, y, 0, -1, own, other, t);
            crate::rules::lemma_ray_not_own(x, y, 1, 1, own, other, t);
            crate::rules::lemma_ray_not_own(x, y, -1, 1, own, other, t);
            crate::rules::lemma_ray_not_own(x, y, -1, -1, own, other, t);
            crate::rules::lemma_ray_not_own(x, y, 1, -1, own, other, t);
            if castle_open(v, p, 0) && t == step_index(p.pos, -2, 0) {
                assert(to == p.pos.offset(-2, 0));
            }
            if castle_open(v, p, 7) && t == step_index(p.pos, 2, 0) {
                assert(to == p.pos.offset(2, 0));
            }
            assert(!candidate(v, p, t));
        }
    }
}

proof fn lemma_target_en_passant(v: GameView, p: Piece, to: Square, k: int)
    requires
        plain_legal_move(v, p, to, k),
        takes_en_passant(v, p, to),
    ensures
        to.offset(0, -direction(p.color)) == v.last_to,
        has_color(v.board[v.last_to.index()], opponent(p.color)),
        v.last_to.on_board(),
{
    let c = p.color;
    let o = opponent(c);
    let t = to.index();
    let other = occupancy(v.board, o);
    lemma_target_free(v, p, to, k);
    lemma_color_mask_bits(v.board, o, 64);
    assert(!bit(other, t));
    assert(crate::rules::pawn_reaches(v.board, v.last_from, v.last_to, p, occupancy(v.board, c), other, t));
    assert(t == step_index(v.last_to, 0, direction(c)) && en_passant_open(v.board, v.last_from, v.last_to, p));
}

proof fn lemma_target_double_step(v: GameView, p: Piece, to: Square, k: int)
    requires
        plain_legal_move(v, p, to, k),
        p.piece_type == PieceType::Pawn,
        to.y == p.pos.y + 2 * direction(p.color),
    ensures
        to.x == p.pos.x,
        !bit(occupancy(v.board, p.color), step_index(p.pos, 0, direction(p.color))),
        !bit(occupancy(v.board, opponent(p.color)), step_index(p.pos, 0, direction(p.color))),
        0 <= step_index(p.pos, 0, direction(p.color)) < 64,
{
    let c = p.color;
    let t = to.index();
    lemma_target_free(v, p, to, k);
    assert(crate::rules::pawn_reaches(v.board, v.last_from, v.last_to, p, occupancy(v.board, c), occupancy(v.board, opponent(c)), t));
}

proof fn lemma_target(v: GameView, p: Piece, to: Square, k: int)
    requires
        plain_legal_move(v, p, to, k),
    ensures
        kept(v, p, to.index()),
        !bit(occupancy(v.board, p.color), to.index()),
        bit(occupancy(v.board, p.color), p.pos.index()),
        !bit(occupancy(v.board, opponent(p.color)), p.pos.index()),
        first_king(v.board, p.color, 0) == Some(k),
        takes_en_passant(v, p, to) ==> to.offset(0, -direction(p.color)) == v.last_to
            && has_color(v.board[v.last_to.index()], opponent(p.color)) && v.last_to.on_board(),
        p.piece_type == PieceType::Pawn && to.y == p.pos.y + 2 * direction(p.color) ==> to.x == p.pos.x
            && !bit(occupancy(v.board, p.color), step_index(p.pos, 0, direction(p.color)))
            && !bit(occupancy(v.board, opponent(p.color)), step_index(p.pos, 0, direction(p.color)))
            && 0 <= step_index(p.pos, 0, direction(p.color)) < 64,
{
    lemma_target_free(v, p, to, k);
    lemma_color_mask_bits(v.board, p.color, 64);
    lemma_color_mask_bits(v.board, opponent(p.color), 64);
    if takes_en_passant(v, p, to) {
        lemma_target_en_passant(v, p, to, k);
    }
    if p.piece_type == PieceType::Pawn && to.y == p.pos.y + 2 * direction(p.color) {
        lemma_target_double_step(v, p, to, k);
    }
}

proof fn lemma_board_after(v: GameView, p: Piece, to: Square, k: int)
    requires
        plain_legal_move(v, p, to, k),
    ensures
        forall|i: int| 0 <= i < 64 ==> #[trigger] apply_move(v, p, to).board[i] == (if i == to.index() {
            Some(Piece { pos: to, has_moved: true, ..p })
        } else if i == p.pos.index() {
            None
        } else if takes_en_passant(v, p, to) && i == v.last_to.index() {
            None
        } else {
            v.board[i]
        }),
{
    lemma_target(v, p, to, k);
    assert(castle_rook(take_step(v, p, to), p, to) is None);
}

proof fn lemma_own_after(v: GameView, p: Piece, to: Square, k: int)
    requires
        plain_legal_move(v, p, to, k),
    ensures
        occupancy(apply_move(v, p, to).board, p.color) == own_after(v, p, to.index()),
{
    broadcast use crate::bitboard::group_bits;
    let c = p.color;
    let t = to.index();
    let w = apply_move(v, p, to);
    lemma_target(v, p, to, k);
    lemma_board_after(v, p, to, k);
    lemma_color_mask_bits(v.board, c, 64);
    lemma_color_mask_bits(w.board, c, 64);
    assert forall|i: int| bit(own_after(v, p, t), i) == bit(occupancy(w.board, c), i) by {
        if 0 <= i < 64 {
            assert(w.board[i] == w.board[i]);
        }
    }
    crate::bitboard::lemma_bits_ext(own_after(v, p, t), occupancy(w.board, c));
}

proof fn lemma_other_after(v: GameView, p: Piece, to: Square, k: int)
    requires
        plain_legal_move(v, p, to, k),
    ensures
        occupancy(apply_move(v, p, to).board, opponent(p.color)) == other_after(v, p, to.index()),
{
    broadcast use crate::bitboard::group_bits;
    let c = p.color;
    let o = opponent(c);
    let t = to.index();
    let w = apply_move(v, p, to);
    lemma_target(v, p, to, k);
    lemma_board_after(v, p, to, k);
    lemma_color_mask_bits(v.board, o, 64);
    lemma_color_mask_bits(w.board, o, 64);
    assert(square_of(t) == to);
    assert forall|i: int| bit(other_after(v, p, t), i) == bit(occupancy(w.board, o), i) by {
        if 0 <= i < 64 {
            assert(w.board[i] == w.board[i]);
        }
    }
    crate::bitboard::lemma_bits_ext(other_after(v, p, t), occupancy(w.board, o));
}

/// A piece's pseudo-legal destinations depend on the board and the last move only
/// through a pawn's capture en passant.
proof fn lemma_pseudo_context(
    b1: Seq<Option<Piece>>,
    lf1: Square,
    lt1: Square,
    b2: Seq<Option<Piece>>,
    lf2: Square,
    lt2: Square,
    q: Piece,
    own: u64,
    other: u64,
    t: int,
)
    requires
        pseudo_reaches(b1, lf1, lt1, q, own, other, t),
        !(q.piece_type == PieceType::Pawn && en_passant_open(b1, lf1, lt1, q) && t == step_index(lt1, 0, direction(q.color))),
    ensures
        pseudo_reaches(b2, lf2, lt2, q, own, other, t),
{
}

proof fn lemma_king_after(v: GameView, p: Piece, to: Square, k: int)
    requires
        plain_legal_move(v, p, to, k),
    ensures
        first_king(apply_move(v, p, to).board, p.color, 0) == Some(king_after(v, p, to.index())),
        bit(own_after(v, p, to.index()), king_after(v, p, to.index())),
{
    broadcast use crate::bitboard::group_bits;
    let c = p.color;
    let t = to.index();
    let w = apply_move(v, p, to);
    lemma_target(v, p, to, k);
    lemma_board_after(v, p, to, k);
    lemma_color_mask_bits(v.board, c, 64);
    if p.piece_type == PieceType::King {
        assert(k == p.pos.index());
        lemma_single_king(w.board, c, t, 0);
    } else {
        assert(k != p.pos.index() && k != t);
        lemma_single_king(w.board, c, k, 0);
    }
}

/// A move that the legality filter keeps, other than castling, leaves no piece of the
/// other side attacking the mover's king, when the mover has a single king (on `k`)
/// and an en-passant capture open to the mover takes a pawn of the other side and lands
/// on an empty square.
pub proof fn lemma_no_self_check(v: GameView, p: Piece, to: Square, k: int)
    requires
        plain_legal_move(v, p, to, k),
    ensures
        !gives_check(apply_move(v, p, to), opponent(p.color)),
        !gives_check(move_done(v, p, to), opponent(p.color)),
{
    broadcast use crate::bitboard::group_bits;
    let c = p.color;
    let o = opponent(c);
    let t = to.index();
    let w = apply_move(v, p, to);
    lemma_target(v, p, to, k);
    lemma_board_after(v, p, to, k);
    lemma_own_after(v, p, to, k);
    lemma_other_after(v, p, to, k);
    lemma_king_after(v, p, to, k);
    let kk = king_after(v, p, t);
    let own_a = own_after(v, p, t);
    if gives_check(w, o) {
        let j = choose|j: int| checking_piece(w, o, j);
        let q = w.board[j]->0;
        assert(v.board[j] == Some(q));
        if q.piece_type == PieceType::Pawn {
            let dq = direction(q.color);
            if en_passant_open(w.board, w.last_from, w.last_to, q) && kk == step_index(w.last_to, 0, dq) {
                assert(w.board[t] == Some(Piece { pos: to, has_moved: true, ..p }));
                assert(p.piece_type == PieceType::Pawn);
                assert(to.y == p.pos.y + 2 * direction(c));
                assert(kk == step_index(p.pos, 0, direction(c)));
                assert(false);
            }
        }
        lemma_color_mask_bits(w.board, o, 64);
        assert(bit(other_after(v, p, t), j));
        lemma_pseudo_context(w.board, w.last_from, w.last_to, v.board, v.last_from, v.last_to, q, other_after(v, p, t), own_a, kk);
        assert(attacker(v, p, t, j));
    }
    let m = move_done(v, p, to);
    assert(m.board == w.board && m.last_from == w.last_from && m.last_to == w.last_to);
    assert forall|j: int| !checking_piece(m, o, j) by {
        assert(checking_piece(m, o, j) == checking_piece(w, o, j));
    }
}

/// A ray that reaches `t` with blockers `b2` reaches it with blockers `b1` too, when `b1`
/// adds to `b2` at most one square `e` that no ray passes through (a corner).
proof fn lemma_ray_corner_blocker(x: int, y: int, dx: int, dy: int, a: u64, b1: u64, b2: u64, t: int, ex: int, ey: int)
    requires
        on_board(x, y),
        ray_reaches(x, y, dx, dy, a, b2, t),
        forall|i: int| #[trigger] bit(b1, i) && i != index_of(ex, ey) ==> bit(b2, i),
        !(on_board(ex - dx, ey - dy) && on_board(ex + dx, ey + dy)),
        on_board(ex, ey),
    ensures
        ray_reaches(x, y, dx, dy, a, b1, t),
    decreases crate::rules::ray_measure(x, y, dx, dy),
{
    let nx = x + dx;
    let ny = y + dy;
    if index_of(nx, ny) != t {
        assert(ray_reaches(nx, ny, dx, dy, a, b2, t));
        assert(on_board(nx + dx, ny + dy));
        if nx == ex && ny == ey {
            assert(false);
        }
        assert(index_of(nx, ny) != index_of(ex, ey));
        lemma_ray_corner_blocker(nx, ny, dx, dy, a, b1, b2, t, ex, ey);
    }
}

/// The king's square, a corner rook and the squares between them, for castling of a king
/// on file E of the first or last rank towards `to`.
proof fn lemma_castle_facts(v: GameView, p: Piece, to: Square)
    requires
        board_wf(v.board),
        p.pos.on_board(),
        v.board[p.pos.index()] == Some(p),
        p.piece_type == PieceType::King,
        p.pos.x == 4,
        p.pos.y == 0 || p.pos.y == 7,
        to == p.pos.offset(-2, 0) || to == p.pos.offset(2, 0),
        legal_reaches(v, p, to.index()),
    ensures
        ({
            let cx: int = if to == p.pos.offset(-2, 0) { 0 } else { 7 };
            let dest = if cx == 0 { to.offset(1, 0) } else { to.offset(-1, 0) };
            let corner = Square { x: cx as i8, y: p.pos.y };
            &&& castle_open(v, p, cx)
            &&& kept(v, p, to.index())
            &&& v.board[to.index()] is None
            &&& v.board[dest.index()] is None
            &&& dest.on_board()
            &&& v.board[corner.index()] is Some
            &&& v.board[corner.index()]->0.piece_type == PieceType::Rook
            &&& v.board[corner.index()]->0.color == p.color
            &&& castle_rook(take_step(v, p, to), p, to) == Some((v.board[corner.index()]->0, dest))
            &&& take_step(v, p, to).board == v.board
        }),
{
    let c = p.color;
    let o = opponent(c);
    let own = occupancy(v.board, c);
    let other = occupancy(v.board, o);
    let y = p.pos.y as int;
    let t = to.index();
    lemma_color_mask_bits(v.board, c, 64);
    lemma_color_mask_bits(v.board, o, 64);
    lemma_king_found(v.board, c, 0, p.pos.index());
    assert(kept(v, p, t));
    if to == p.pos.offset(-2, 0) {
        assert(t == step_index(p.pos, -2, 0));
        assert(castle_open(v, p, 0));
        assert(ray_reaches(4, y, -1, 0, own, other, index_of(1, y)));
        assert(ray_reaches(3, y, -1, 0, own, other, index_of(1, y)));
        assert(ray_reaches(2, y, -1, 0, own, other, index_of(1, y)));
    } else {
        assert(t == step_index(p.pos, 2, 0));
        assert(castle_open(v, p, 7));
        assert(ray_reaches(4, y, 1, 0, own, other, index_of(6, y)));
        assert(ray_reaches(5, y, 1, 0, own, other, index_of(6, y)));
    }
}

/// The preconditions of the castling law.
pub open spec fn plain_castling(v: GameView, p: Piece, to: Square) -> bool {
    &&& board_wf(v.board)
    &&& p.pos.on_board()
    &&& v.board[p.pos.index()] == Some(p)
    &&& p.piece_type == PieceType::King
    &&& p.pos.x == 4
    &&& (p.pos.y == 0 || p.pos.y == 7)
    &&& (to == p.pos.offset(-2, 0) || to == p.pos.offset(2, 0))
    &&& legal_reaches(v, p, to.index())
    &&& forall|j: int| 0 <= j < 64 && #[trigger] v.board[j] is Some && v.board[j]->0.piece_type == PieceType::King
            && v.board[j]->0.color == p.color ==> j == p.pos.index()
}

pub open spec fn castle_corner(p: Piece, to: Square) -> Square {
    Square { x: if to == p.pos.offset(-2, 0) { 0 } else { 7 }, y: p.pos.y }
}

proof fn lemma_castle_masks(v: GameView, p: Piece, to: Square)
    requires
        plain_castling(v, p, to),
    ensures
        occupancy(apply_move(v, p, to).board, opponent(p.color)) == other_after(v, p, to.index()),
        forall|i: int| #[trigger] bit(own_after(v, p, to.index()), i) && i != castle_corner(p, to).index()
            ==> bit(occupancy(apply_move(v, p, to).board, p.color), i),
        first_king(apply_move(v, p, to).board, p.color, 0) == Some(to.index()),
        king_after(v, p, to.index()) == to.index(),
        bit(occupancy(apply_move(v, p, to).board, p.color), to.index()),
        forall|j: int| 0 <= j < 64 && #[trigger] has_color(apply_move(v, p, to).board[j], opponent(p.color))
            ==> apply_move(v, p, to).board[j] == v.board[j],
        kept(v, p, to.index()),
        castle_corner(p, to).on_board(),
{
    broadcast use crate::bitboard::group_bits;
    let c = p.color;
    let o = opponent(c);
    let t = to.index();
    let pos = p.pos.index();
    let own = occupancy(v.board, c);
    let other = occupancy(v.board, o);
    let cx: int = if to == p.pos.offset(-2, 0) { 0 } else { 7 };
    let dest = if cx == 0 { to.offset(1, 0) } else { to.offset(-1, 0) };
    let corner = castle_corner(p, to);
    lemma_castle_facts(v, p, to);
    let rook = v.board[corner.index()]->0;
    let w = apply_move(v, p, to);
    let king = Piece { pos: to, has_moved: true, ..p };
    let moved_rook = Piece { pos: dest, has_moved: true, ..rook };
    assert(rook.pos == corner);
    assert forall|i: int| 0 <= i < 64 implies #[trigger] w.board[i] == (if i == t { Some(king) } else if i == pos {
        None
    } else if i == dest.index() {
        Some(moved_rook)
    } else if i == corner.index() {
        None
    } else {
        v.board[i]
    }) by {}
    lemma_color_mask_bits(v.board, c, 64);
    lemma_color_mask_bits(v.board, o, 64);
    lemma_color_mask_bits(w.board, c, 64);
    lemma_color_mask_bits(w.board, o, 64);
    assert(square_of(t) == to);
    assert(other_after(v, p, t) == other & !single(t));
    assert forall|i: int| bit(other & !single(t), i) == bit(occupancy(w.board, o), i) by {
        if 0 <= i < 64 {
            assert(w.board[i] == w.board[i]);
        }
    }
    crate::bitboard::lemma_bits_ext(other & !single(t), occupancy(w.board, o));
    assert forall|i: int| #[trigger] bit(own_after(v, p, t), i) && i != corner.index() implies bit(occupancy(w.board, c), i) by {
        assert(w.board[i] == w.board[i]);
    }
    lemma_single_king(w.board, c, t, 0);
}

/// Castling that the legality filter keeps, by a single king from file E of the first or
/// last rank, leaves no piece of the other side attacking it.
pub proof fn lemma_castling_no_self_check(v: GameView, p: Piece, to: Square)
    requires
        plain_castling(v, p, to),
    ensures
        !gives_check(apply_move(v, p, to), opponent(p.color)),
        !gives_check(move_done(v, p, to), opponent(p.color)),
{
    broadcast use crate::bitboard::group_bits;
    let c = p.color;
    let o = opponent(c);
    let t = to.index();
    let w = apply_move(v, p, to);
    let corner = castle_corner(p, to);
    lemma_castle_masks(v, p, to);
    let own_a = own_after(v, p, t);
    let own_w = occupancy(w.board, c);
    if gives_check(w, o) {
        let j = choose|j: int| checking_piece(w, o, j);
        let q = w.board[j]->0;
        lemma_color_mask_bits(w.board, o, 64);
        assert(has_color(w.board[j], o));
        assert(v.board[j] == Some(q));
        let a = other_after(v, p, t);
        assert(pseudo_reaches(w.board, w.last_from, w.last_to, q, a, own_w, t));
        let (qx, qy) = (q.pos.x as int, q.pos.y as int);
        let (ex, ey) = (corner.x as int, corner.y as int);
        if ray_reaches(qx, qy, 1, 0, a, own_w, t) { lemma_ray_corner_blocker(qx, qy, 1, 0, a, own_a, own_w, t, ex, ey); }
        if ray_reaches(qx, qy, 0, 1, a, own_w, t) { lemma_ray_corner_blocker(qx, qy, 0, 1, a, own_a, own_w, t, ex, ey); }
        if ray_reaches(qx, qy, -1, 0, a, own_w, t) { lemma_ray_corner_blocker(qx, qy, -1, 0, a, own_a, own_w, t, ex, ey); }
        if ray_reaches(qx, qy, 0, -1, a, own_w, t) { lemma_ray_corner_blocker(qx, qy, 0, -1, a, own_a, own_w, t, ex, ey); }
        if ray_reaches(qx, qy, 1, 1, a, own_w, t) { lemma_ray_corner_blocker(qx, qy, 1, 1, a, own_a, own_w, t, ex, ey); }
        if ray_reaches(qx, qy, -1, 1, a, own_w, t) { lemma_ray_corner_blocker(qx, qy, -1, 1, a, own_a, own_w, t, ex, ey); }
        if ray_reaches(qx, qy, -1, -1, a, own_w, t) { lemma_ray_corner_blocker(qx, qy, -1, -1, a, own_a, own_w, t, ex, ey); }
        if ray_reaches(qx, qy, 1, -1, a, own_w, t) { lemma_ray_corner_blocker(qx, qy, 1, -1, a, own_a, own_w, t, ex, ey); }
        assert(pseudo_reaches(v.board, v.last_from, v.last_to, q, a, own_a, t));
        assert(attacker(v, p, t, j));
    }
    let m = move_done(v, p, to);
    assert(m.board == w.board && m.last_from == w.last_from && m.last_to == w.last_to);
    assert forall|j: int| !checking_piece(m, o, j) by {
        assert(checking_piece(m, o, j) == checking_piece(w, o, j));
    }
}

} // verus!
