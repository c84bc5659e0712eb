//! The movement rules of chess as specification: which squares each piece reaches
//! on a board, given the squares held by its own side and by the opponent.

use vstd::prelude::*;
use crate::bitboard::bit;
use crate::square::{Square, on_board, index_of};
use crate::piece::{Piece, PieceType, direction};

verus! {

/// The index of the square `(dx, dy)` away from `s`, or -1 when that is off the board.
pub open spec fn step_index(s: Square, dx: int, dy: int) -> int {
    if on_board(s.x + dx, s.y + dy) {
        index_of(s.x + dx, s.y + dy)
    } else {
        -1
    }
}

/// `t` is one of the eight squares next to `s`.
pub open spec fn king_step(s: Square, t: int) -> bool {
    ||| t == step_index(s, 1, 0)
    ||| t == step_index(s, 1, 1)
    ||| t == step_index(s, 0, 1)
    ||| t == step_index(s, -1, 1)
    ||| t == step_index(s, -1, 0)
    ||| t == step_index(s, -1, -1)
    ||| t == step_index(s, 0, -1)
    ||| t == step_index(s, 1, -1)
}

/// `t` is one of the eight squares a knight's jump away from `s`.
pub open spec fn knight_jump(s: Square, t: int) -> bool {
    ||| t == step_index(s, 2, 1)
    ||| t == step_index(s, 1, 2)
    ||| t == step_index(s, -1, 2)
    ||| t == step_index(s, -2, 1)
    ||| t == step_index(s, -2, -1)
    ||| t == step_index(s, -1, -2)
    ||| t == step_index(s, 1, -2)
    ||| t == step_index(s, 2, -1)
}

pub open spec fn unit_direction(dx: int, dy: int) -> bool {
    -1 <= dx <= 1 && -1 <= dy <= 1 && (dx != 0 || dy != 0)
}

pub open spec fn ray_measure(x: int, y: int, dx: int, dy: int) -> int {
    (if dx == 1 {
        8 - x
    } else if dx == -1 {
        x + 1
    } else {
        0
    }) + (if dy == 1 {
        8 - y
    } else if dy == -1 {
        y + 1
    } else {
        0
    })
}

/// A ray stepped from `(x, y)` (not itself included) in direction `(dx, dy)` reaches `t`.
/// A step off the board or onto one of `own` ends the ray without that square; a step
/// onto one of `other` is included and ends the ray; any other step is included and the
/// ray goes on.
pub open spec fn ray_reaches(x: int, y: int, dx: int, dy: int, own: u64, other: u64, t: int) -> bool
    decreases ray_measure(x, y, dx, dy),
{
    if !unit_direction(dx, dy) {
        false
    } else {
        let nx = x + dx;
        let ny = y + dy;
        if !on_board(nx, ny) || bit(own, index_of(nx, ny)) {
            false
        } else if index_of(nx, ny) == t {
            true
        } else if bit(other, index_of(nx, ny)) {
            false
        } else {
            ray_reaches(nx, ny, dx, dy, own, other, t)
        }
    }
}

pub open spec fn rook_reaches(s: Square, own: u64, other: u64, t: int) -> bool {
    ||| ray_reaches(s.x as int, s.y as int, 1, 0, own, other, t)
    ||| ray_reaches(s.x as int, s.y as int, 0, 1, own, other, t)
    ||| ray_reaches(s.x as int, s.y as int, -1, 0, own, other, t)
    ||| ray_reaches(s.x as int, s.y as int, 0, -1, own, other, t)
}

pub open spec fn bishop_reaches(s: Square, own: u64, other: u64, t: int) -> bool {
    ||| ray_reaches(s.x as int, s.y as int, 1, 1, own, other, t)
    ||| ray_reaches(s.x as int, s.y as int, -1, 1, own, other, t)
    ||| ray_reaches(s.x as int, s.y as int, -1, -1, own, other, t)
    ||| ray_reaches(s.x as int, s.y as int, 1, -1, own, other, t)
}

/// The piece that stands on `s`, if `s` is on the board.
pub open spec fn piece_at(board: Seq<Option<Piece>>, s: Square) -> Option<Piece> {
    if s.on_board() {
        board[s.index()]
    } else {
        None
    }
}

/// The last move was a pawn's two-square advance to a square beside the pawn `p`, so
/// `p` may capture it en passant.
pub open spec fn en_passant_open(
    board: Seq<Option<Piece>>,
    last_from: Square,
    last_to: Square,
    p: Piece,
) -> bool {
    &&& piece_at(board, last_to) is Some
    &&& piece_at(board, last_to)->0.piece_type == PieceType::Pawn
    &&& last_to.y + 2 * direction(p.color) == last_from.y
    &&& last_to.y == p.pos.y
    &&& (last_to.x == p.pos.x - 1 || last_to.x == p.pos.x + 1)
}

pub open spec fn pawn_reaches(
    board: Seq<Option<Piece>>,
    last_from: Square,
    last_to: Square,
    p: Piece,
    own: u64,
    other: u64,
    t: int,
) -> bool {
    let d = direction(p.color);
    let one = step_index(p.pos, 0, d);
    let two = step_index(p.pos, 0, 2 * d);
    let free = |i: int| 0 <= i < 64 && !bit(own, i) && !bit(other, i);
    ||| t == one && free(one)
    ||| !p.has_moved && free(one) && t == two && free(two)
    ||| (t == step_index(p.pos, 1, d) || t == step_index(p.pos, -1, d)) && bit(other, t)
    ||| en_passant_open(board, last_from, last_to, p) && t == step_index(last_to, 0, d)
}

/// `t` is a pseudo-legal destination of `p`: one that its movement rules allow, whether
/// or not its own king is left attacked. Castling is not among them.
pub open spec fn pseudo_reaches(
    board: Seq<Option<Piece>>,
    last_from: Square,
    last_to: Square,
    p: Piece,
    own: u64,
    other: u64,
    t: int,
) -> bool {
    0 <= t < 64 && match p.piece_type {
        PieceType::King => king_step(p.pos, t) && !bit(own, t),
        PieceType::Knight => knight_jump(p.pos, t) && !bit(own, t),
        PieceType::Rook => rook_reaches(p.pos, own, other, t),
        PieceType::Bishop => bishop_reaches(p.pos, own, other, t),
        PieceType::Queen => rook_reaches(p.pos, own, other, t) || bishop_reaches(
            p.pos,
            own,
            other,
            t,
        ),
        PieceType::Pawn => pawn_reaches(board, last_from, last_to, p, own, other, t),
    }
}

/// A ray never includes a square of its own side.
pub proof fn lemma_ray_not_own(x: int, y: int, dx: int, dy: int, own: u64, other: u64, t: int)
    requires
        bit(own, t),
    ensures
        !ray_reaches(x, y, dx, dy, own, other, t),
    decreases ray_measure(x, y, dx, dy),
{
    if unit_direction(dx, dy) {
        let nx = x + dx;
        let ny = y + dy;
        if on_board(nx, ny) && !bit(own, index_of(nx, ny)) && index_of(nx, ny) != t && !bit(other, index_of(nx, ny)) {
            lemma_ray_not_own(nx, ny, dx, dy, own, other, t);
        }
    }
}

} // verus!
