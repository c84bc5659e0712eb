//! Pseudo-legal move generation over bitboards.

use vstd::prelude::*;
use crate::bitboard::{bit, group_bits};
use crate::square::{Square, on_board, index_of};
use crate::piece::{Piece, PieceType, direction};
use crate::rules::{
    unit_direction, ray_measure, ray_reaches, step_index, king_step, knight_jump, rook_reaches,
    bishop_reaches, pawn_reaches, pseudo_reaches, en_passant_open, piece_at,
};

verus! {

broadcast use group_bits;

/// The squares of a ray from `start` in direction `(dx, dy)`: it runs up to the edge of
/// the board or up to a square of `own` (left out), or onto a square of `other`.
pub fn bitmap_line(start: Square, dx: i8, dy: i8, own_color_bitmap: u64, other_color_bitmap: u64) -> (r: u64)
    requires
        unit_direction(dx as int, dy as int),
    ensures
        forall|t: int|
            #[trigger] bit(r, t) == ray_reaches(
                start.x as int,
                start.y as int,
                dx as int,
                dy as int,
                own_color_bitmap,
                other_color_bitmap,
                t,
            ),
{
    let ghost sx = start.x as int;
    let ghost sy = start.y as int;
    let mut square = start;
    let mut moves: u64 = 0;
    let ghost mut first = true;
    loop
        invariant
            unit_direction(dx as int, dy as int),
            sx == start.x,
            sy == start.y,
            first ==> square == start,
            !first ==> square.on_board(),
            forall|t: int|
                #[trigger] ray_reaches(sx, sy, dx as int, dy as int, own_color_bitmap, other_color_bitmap, t)
                    == (bit(moves, t) || ray_reaches(
                    square.x as int,
                    square.y as int,
                    dx as int,
                    dy as int,
                    own_color_bitmap,
                    other_color_bitmap,
                    t,
                )),
        decreases ray_measure(square.x as int, square.y as int, dx as int, dy as int) + (if first { 100int } else { 0int }),
    {
        let ghost prev = square;
        square = square.moved(dx, dy);
        let b = square.to_bitmap();
        let ghost nx = prev.x + dx;
        let ghost ny = prev.y + dy;
        assert(square.on_board() == on_board(nx, ny));
        assert(square.on_board() ==> square.index() == index_of(nx, ny));
        if b == 0 || b & own_color_bitmap != 0 {
            proof {
                if on_board(nx, ny) {
                    assert(bit(b, index_of(nx, ny)));
                    if !bit(own_color_bitmap, index_of(nx, ny)) {
                        crate::bitboard::lemma_nonzero_iff(b & own_color_bitmap);
                    }
                }
                assert forall|t: int| #[trigger] bit(moves, t) == ray_reaches(sx, sy, dx as int, dy as int, own_color_bitmap, other_color_bitmap, t) by {
                    assert(!ray_reaches(prev.x as int, prev.y as int, dx as int, dy as int, own_color_bitmap, other_color_bitmap, t));
                }
            }
            return moves;
        }
        assert(on_board(nx, ny) && !bit(own_color_bitmap, index_of(nx, ny))) by {
            if on_board(nx, ny) && bit(own_color_bitmap, index_of(nx, ny)) {
                assert(bit(b & own_color_bitmap, index_of(nx, ny)));
            }
        }
        let ghost old_moves = moves;
        moves = moves | b;
        if b & other_color_bitmap != 0 {
            proof {
                crate::bitboard::lemma_nonzero_iff(b & other_color_bitmap);
                let i = choose|i: int| bit(b & other_color_bitmap, i);
                assert(i == index_of(nx, ny));
                assert forall|t: int| #[trigger] bit(moves, t) == ray_reaches(sx, sy, dx as int, dy as int, own_color_bitmap, other_color_bitmap, t) by {
                    assert(ray_reaches(prev.x as int, prev.y as int, dx as int, dy as int, own_color_bitmap, other_color_bitmap, t) == (t == index_of(nx, ny)));
                }
            }
            return moves;
        }
        proof {
            if bit(other_color_bitmap, index_of(nx, ny)) {
                assert(bit(b & other_color_bitmap, index_of(nx, ny)));
            }
            assert forall|t: int| #[trigger] ray_reaches(sx, sy, dx as int, dy as int, own_color_bitmap, other_color_bitmap, t)
                == (bit(moves, t) || ray_reaches(square.x as int, square.y as int, dx as int, dy as int, own_color_bitmap, other_color_bitmap, t)) by {
                assert(ray_reaches(prev.x as int, prev.y as int, dx as int, dy as int, own_color_bitmap, other_color_bitmap, t) == (t == index_of(nx, ny) || ray_reaches(nx, ny, dx as int, dy as int, own_color_bitmap, other_color_bitmap, t)));
            }
            first = false;
        }
    }
}


/// The eight squares next to `pos`, less those of `own`. Castling is not included.
pub fn king_moves(pos: Square, own_color_bitmap: u64) -> (r: u64)
    requires
        pos.on_board(),
    ensures
        forall|t: int| #[trigger] bit(r, t) == (0 <= t < 64 && king_step(pos, t) && !bit(own_color_bitmap, t)),
{
    let moves: u64 = pos.moved(1, 0).to_bitmap() | pos.moved(1, 1).to_bitmap() | pos.moved(0, 1).to_bitmap()
        | pos.moved(-1, 1).to_bitmap() | pos.moved(-1, 0).to_bitmap() | pos.moved(-1, -1).to_bitmap()
        | pos.moved(0, -1).to_bitmap() | pos.moved(1, -1).to_bitmap();
    moves & !own_color_bitmap
}

/// The eight squares a knight's jump from `pos`, less those of `own`.
pub fn knight_moves(pos: Square, own_color_bitmap: u64) -> (r: u64)
    requires
        pos.on_board(),
    ensures
        forall|t: int| #[trigger] bit(r, t) == (0 <= t < 64 && knight_jump(pos, t) && !bit(own_color_bitmap, t)),
{
    let moves: u64 = pos.moved(2, 1).to_bitmap() | pos.moved(1, 2).to_bitmap() | pos.moved(-1, 2).to_bitmap()
        | pos.moved(-2, 1).to_bitmap() | pos.moved(-2, -1).to_bitmap() | pos.moved(-1, -2).to_bitmap()
        | pos.moved(1, -2).to_bitmap() | pos.moved(2, -1).to_bitmap();
    moves & !own_color_bitmap
}

pub fn rook_moves(pos: Square, own_color_bitmap: u64, other_color_bitmap: u64) -> (r: u64)
    ensures
        forall|t: int| #[trigger] bit(r, t) == rook_reaches(pos, own_color_bitmap, other_color_bitmap, t),
{
    bitmap_line(pos, 1, 0, own_color_bitmap, other_color_bitmap)
        | bitmap_line(pos, 0, 1, own_color_bitmap, other_color_bitmap)
        | bitmap_line(pos, -1, 0, own_color_bitmap, other_color_bitmap)
        | bitmap_line(pos, 0, -1, own_color_bitmap, other_color_bitmap)
}

pub fn bishop_moves(pos: Square, own_color_bitmap: u64, other_color_bitmap: u64) -> (r: u64)
    ensures
        forall|t: int| #[trigger] bit(r, t) == bishop_reaches(pos, own_color_bitmap, other_color_bitmap, t),
{
    bitmap_line(pos, 1, 1, own_color_bitmap, other_color_bitmap)
        | bitmap_line(pos, -1, 1, own_color_bitmap, other_color_bitmap)
        | bitmap_line(pos, -1, -1, own_color_bitmap, other_color_bitmap)
        | bitmap_line(pos, 1, -1, own_color_bitmap, other_color_bitmap)
}

pub fn queen_moves(pos: Square, own_color_bitmap: u64, other_color_bitmap: u64) -> (r: u64)
    ensures
        forall|t: int| #[trigger] bit(r, t) == (rook_reaches(pos, own_color_bitmap, other_color_bitmap, t)
            || bishop_reaches(pos, own_color_bitmap, other_color_bitmap, t)),
{
    rook_moves(pos, own_color_bitmap, other_color_bitmap) | bishop_moves(pos, own_color_bitmap, other_color_bitmap)
}

/// The piece on `s` of a board of 64 squares, if `s` is on it.
pub fn piece_on(board: &Vec<Option<Piece>>, s: Square) -> (r: Option<Piece>)
    requires
        board@.len() == 64,
    ensures
        r == piece_at(board@, s),
{
    if s.x < 0 || s.x >= 8 || s.y < 0 || s.y >= 8 {
        None
    } else {
        let i: usize = (s.y * 8 + s.x) as usize;
        board[i]
    }
}

/// A pawn's steps forward, its diagonal captures, and its capture en passant of a pawn
/// that has just advanced two squares from `last_from` to `last_to`.
pub fn pawn_moves(
    board: &Vec<Option<Piece>>,
    last_from: Square,
    last_to: Square,
    piece: &Piece,
    own_color_bitmap: u64,
    other_color_bitmap: u64,
) -> (r: u64)
    requires
        board@.len() == 64,
        piece.pos.on_board(),
    ensures
        forall|t: int| #[trigger] bit(r, t) == (0 <= t < 64 && pawn_reaches(board@, last_from, last_to, *piece, own_color_bitmap, other_color_bitmap, t)),
{
    let dir: i8 = piece.get_direction();
    let all_bitmap = own_color_bitmap | other_color_bitmap;
    let one = piece.pos.moved(0, dir).to_bitmap() & !all_bitmap;
    let mut moves: u64 = one;
    if !piece.has_moved && one != 0 {
        moves = moves | (piece.pos.moved(0, dir * 2).to_bitmap() & !all_bitmap);
    }
    moves = moves | ((piece.pos.moved(1, dir).to_bitmap() | piece.pos.moved(-1, dir).to_bitmap()) & other_color_bitmap);
    let mut ep = false;
    match piece_on(board, last_to) {
        Some(last) => {
            if last.piece_type == PieceType::Pawn && last_to.y as i16 + dir as i16 * 2 == last_from.y as i16
                && last_to.y == piece.pos.y && (last_to.x as i16 == piece.pos.x as i16 - 1 || last_to.x as i16 == piece.pos.x as i16 + 1) {
                moves = moves | last_to.moved(0, dir).to_bitmap();
                ep = true;
            }
        },
        None => {},
    }
    proof {
        let d = direction(piece.color);
        let o = step_index(piece.pos, 0, d);
        crate::bitboard::lemma_nonzero_iff(one);
        if 0 <= o < 64 && !bit(own_color_bitmap, o) && !bit(other_color_bitmap, o) {
            assert(bit(one, o));
        }
        assert(ep == en_passant_open(board@, last_from, last_to, *piece));
    }
    moves
}

/// The pseudo-legal destinations of `piece`.
pub fn pseudo_moves(
    board: &Vec<Option<Piece>>,
    last_from: Square,
    last_to: Square,
    piece: &Piece,
    own_color_bitmap: u64,
    other_color_bitmap: u64,
) -> (r: u64)
    requires
        board@.len() == 64,
        piece.pos.on_board(),
    ensures
        forall|t: int| #[trigger] bit(r, t) == pseudo_reaches(board@, last_from, last_to, *piece, own_color_bitmap, other_color_bitmap, t),
{
    match piece.piece_type {
        PieceType::King => king_moves(piece.pos, own_color_bitmap),
        PieceType::Queen => queen_moves(piece.pos, own_color_bitmap, other_color_bitmap),
        PieceType::Bishop => bishop_moves(piece.pos, own_color_bitmap, other_color_bitmap),
        PieceType::Knight => knight_moves(piece.pos, own_color_bitmap),
        PieceType::Rook => rook_moves(piece.pos, own_color_bitmap, other_color_bitmap),
        PieceType::Pawn => pawn_moves(board, last_from, last_to, piece, own_color_bitmap, other_color_bitmap),
    }
}

} // verus!
