//! The canonical position encoding: the key under which repeated positions are counted.

use vstd::prelude::*;
use crate::bitboard::{bit, single, group_bits};
use crate::square::Square;
use crate::piece::{Piece, PieceType, PieceColor, direction};
use crate::rules::piece_at;

verus! {

broadcast use group_bits;

/// Placement by colour and by kind, with a flag field: bit 0 en passant available,
/// bit 1 queen-side castling, bit 2 king-side castling, for white; the same four bits
/// higher for black.
#[derive(Clone, Copy, PartialEq, Eq, Structural, Debug, Hash)]
pub struct BoardValue {
    pub white_bitmap: u64,
    pub black_bitmap: u64,
    pub king_bitmap: u64,
    pub queen_bitmap: u64,
    pub bishop_bitmap: u64,
    pub knight_bitmap: u64,
    pub rook_bitmap: u64,
    pub pawn_bitmap: u64,
    pub data: u8,
}

/// Each square of a board of 64 holds nothing or a piece that stands on it.
pub open spec fn board_wf(board: Seq<Option<Piece>>) -> bool {
    &&& board.len() == 64
    &&& forall|i: int|
        0 <= i < 64 && #[trigger] board[i] is Some ==> board[i]->0.pos.on_board()
            && board[i]->0.pos.index() == i
}

pub open spec fn has_color(o: Option<Piece>, c: PieceColor) -> bool {
    o is Some && o->0.color == c
}

pub open spec fn has_type(o: Option<Piece>, t: PieceType) -> bool {
    o is Some && o->0.piece_type == t
}

/// The squares below `n` that hold a piece of colour `c`.
pub open spec fn color_mask(board: Seq<Option<Piece>>, c: PieceColor, n: int) -> u64
    decreases n,
{
    if n <= 0 {
        0
    } else {
        color_mask(board, c, n - 1) | (if has_color(board[n - 1], c) {
            single(n - 1)
        } else {
            0
        })
    }
}

/// The squares below `n` that hold a piece of kind `t`.
pub open spec fn type_mask(board: Seq<Option<Piece>>, t: PieceType, n: int) -> u64
    decreases n,
{
    if n <= 0 {
        0
    } else {
        type_mask(board, t, n - 1) | (if has_type(board[n - 1], t) {
            single(n - 1)
        } else {
            0
        })
    }
}

pub proof fn lemma_color_mask_bits(board: Seq<Option<Piece>>, c: PieceColor, n: int)
    requires
        0 <= n <= 64,
        board.len() == 64,
    ensures
        forall|t: int| #[trigger] bit(color_mask(board, c, n), t) == (0 <= t < n && has_color(board[t], c)),
    decreases n,
{
    if n > 0 {
        lemma_color_mask_bits(board, c, n - 1);
        let add: u64 = if has_color(board[n - 1], c) {
            single(n - 1)
        } else {
            0
        };
        assert(color_mask(board, c, n) == color_mask(board, c, n - 1) | add);
        assert forall|t: int| #[trigger] bit(color_mask(board, c, n), t) == (0 <= t < n && has_color(board[t], c)) by {
            assert(bit(color_mask(board, c, n - 1) | add, t) == (bit(color_mask(board, c, n - 1), t) || bit(add, t)));
        }
    }
}

pub proof fn lemma_type_mask_bits(board: Seq<Option<Piece>>, ty: PieceType, n: int)
    requires
        0 <= n <= 64,
        board.len() == 64,
    ensures
        forall|t: int| #[trigger] bit(type_mask(board, ty, n), t) == (0 <= t < n && has_type(board[t], ty)),
    decreases n,
{
    if n > 0 {
        lemma_type_mask_bits(board, ty, n - 1);
        let add: u64 = if has_type(board[n - 1], ty) {
            single(n - 1)
        } else {
            0
        };
        assert(type_mask(board, ty, n) == type_mask(board, ty, n - 1) | add);
        assert forall|t: int| #[trigger] bit(type_mask(board, ty, n), t) == (0 <= t < n && has_type(board[t], ty)) by {
            assert(bit(type_mask(board, ty, n - 1) | add, t) == (bit(type_mask(board, ty, n - 1), t) || bit(add, t)));
        }
    }
}

/// The file of a pawn that has just advanced two squares, or -8 when there is none.
pub open spec fn en_passant_file(board: Seq<Option<Piece>>, last_from: Square, last_to: Square) -> int {
    if piece_at(board, last_to) is Some && piece_at(board, last_to)->0.piece_type == PieceType::Pawn
        && last_from.y + 2 * direction(piece_at(board, last_to)->0.color) == last_to.y {
        last_to.x as int
    } else {
        -8
    }
}

/// The rank from which a pawn of colour `c` captures en passant.
pub open spec fn en_passant_rank(c: PieceColor) -> int {
    match c {
        PieceColor::White => 4,
        PieceColor::Black => 3,
    }
}

/// Square `i` holds a pawn of colour `c` that may capture en passant.
pub open spec fn en_passant_pawn(board: Seq<Option<Piece>>, last_from: Square, last_to: Square, c: PieceColor, i: int) -> bool {
    let f = en_passant_file(board, last_from, last_to);
    &&& has_color(board[i], c)
    &&& has_type(board[i], PieceType::Pawn)
    &&& board[i]->0.pos.y == en_passant_rank(c)
    &&& (f == board[i]->0.pos.x - 1 || f == board[i]->0.pos.x + 1)
}

/// File `x` of rank `y` holds an unmoved rook of colour `c`.
pub open spec fn rook_unmoved(board: Seq<Option<Piece>>, x: int, y: int, c: PieceColor) -> bool {
    let s = Square { x: x as i8, y: y as i8 };
    &&& piece_at(board, s) is Some
    &&& piece_at(board, s)->0.piece_type == PieceType::Rook
    &&& piece_at(board, s)->0.color == c
    &&& !piece_at(board, s)->0.has_moved
}

/// Square `i` holds an unmoved king of colour `c` with an unmoved rook on file `rook_x`
/// of its rank.
pub open spec fn castle_right(board: Seq<Option<Piece>>, c: PieceColor, rook_x: int, i: int) -> bool {
    &&& has_color(board[i], c)
    &&& has_type(board[i], PieceType::King)
    &&& !board[i]->0.has_moved
    &&& rook_unmoved(board, rook_x, board[i]->0.pos.y as int, c)
}

pub open spec fn flag(b: bool, v: int) -> int {
    if b {
        v
    } else {
        0
    }
}

/// The flag field of the encoding.
pub open spec fn flags(board: Seq<Option<Piece>>, last_from: Square, last_to: Square) -> u8 {
    (flag(exists|i: int| 0 <= i < 64 && en_passant_pawn(board, last_from, last_to, PieceColor::White, i), 1)
        + flag(exists|i: int| 0 <= i < 64 && castle_right(board, PieceColor::White, 0, i), 2)
        + flag(exists|i: int| 0 <= i < 64 && castle_right(board, PieceColor::White, 7, i), 4)
        + flag(exists|i: int| 0 <= i < 64 && en_passant_pawn(board, last_from, last_to, PieceColor::Black, i), 16)
        + flag(exists|i: int| 0 <= i < 64 && castle_right(board, PieceColor::Black, 0, i), 32)
        + flag(exists|i: int| 0 <= i < 64 && castle_right(board, PieceColor::Black, 7, i), 64)) as u8
}

/// The encoding of a position.
pub open spec fn encoding(board: Seq<Option<Piece>>, last_from: Square, last_to: Square) -> BoardValue {
    BoardValue {
        white_bitmap: color_mask(board, PieceColor::White, 64),
        black_bitmap: color_mask(board, PieceColor::Black, 64),
        king_bitmap: type_mask(board, PieceType::King, 64),
        queen_bitmap: type_mask(board, PieceType::Queen, 64),
        bishop_bitmap: type_mask(board, PieceType::Bishop, 64),
        knight_bitmap: type_mask(board, PieceType::Knight, 64),
        rook_bitmap: type_mask(board, PieceType::Rook, 64),
        pawn_bitmap: type_mask(board, PieceType::Pawn, 64),
        data: flags(board, last_from, last_to),
    }
}

fn rook_unmoved_at(board: &Vec<Option<Piece>>, x: i8, y: i8, c: PieceColor) -> (r: bool)
    requires
        board@.len() == 64,
    ensures
        r == rook_unmoved(board@, x as int, y as int, c),
{
    match crate::movegen::piece_on(board, Square { x, y }) {
        Some(rook) => rook.piece_type == PieceType::Rook && rook.color == c && !rook.has_moved,
        None => false,
    }
}

fn bit_value(b: bool, v: u8) -> (r: u8)
    ensures
        r == flag(b, v as int),
{
    if b {
        v
    } else {
        0
    }
}

/// The bitboard of the squares below 64 that hold a piece of colour `c`.
pub fn make_color_bitmap(board: &Vec<Option<Piece>>, c: PieceColor) -> (r: u64)
    requires
        board@.len() == 64,
    ensures
        r == color_mask(board@, c, 64),
{
    let mut m: u64 = 0;
    let mut i: usize = 0;
    while i < 64
        invariant
            board@.len() == 64,
            i <= 64,
            m == color_mask(board@, c, i as int),
        decreases 64 - i,
    {
        let add: u64 = match board[i] {
            Some(p) => if p.color == c { 1u64 << (i as u64) } else { 0 },
            None => 0,
        };
        m = m | add;
        i = i + 1;
    }
    m
}

impl BoardValue {
    /// The encoding of a board with the last move from `last_from` to `last_to`.
    pub fn encode(board: &Vec<Option<Piece>>, last_from: Square, last_to: Square) -> (r: BoardValue)
        requires
            board_wf(board@),
        ensures
            r == encoding(board@, last_from, last_to),
    {
        let ep_x: i8 = match crate::movegen::piece_on(board, last_to) {
            Some(pawn) => {
                if pawn.piece_type == PieceType::Pawn && last_from.y as i16 + 2 * pawn.get_direction() as i16 == last_to.y as i16 {
                    last_to.x
                } else {
                    -8
                }
            },
            None => -8,
        };
        let mut white: u64 = 0;
        let mut black: u64 = 0;
        let mut king: u64 = 0;
        let mut queen: u64 = 0;
        let mut bishop: u64 = 0;
        let mut knight: u64 = 0;
        let mut rook: u64 = 0;
        let mut pawn: u64 = 0;
        let mut ep_w = false;
        let mut ep_b = false;
        let mut long_w = false;
        let mut long_b = false;
        let mut short_w = false;
        let mut short_b = false;
        let mut i: usize = 0;
        while i < 64
            invariant
                board_wf(board@),
                i <= 64,
                ep_x == en_passant_file(board@, last_from, last_to),
                white == color_mask(board@, PieceColor::White, i as int),
                black == color_mask(board@, PieceColor::Black, i as int),
                king == type_mask(board@, PieceType::King, i as int),
                queen == type_mask(board@, PieceType::Queen, i as int),
                bishop == type_mask(board@, PieceType::Bishop, i as int),
                knight == type_mask(board@, PieceType::Knight, i as int),
                rook == type_mask(board@, PieceType::Rook, i as int),
                pawn == type_mask(board@, PieceType::Pawn, i as int),
                ep_w == exists|j: int| 0 <= j < i && en_passant_pawn(board@, last_from, last_to, PieceColor::White, j),
                ep_b == exists|j: int| 0 <= j < i && en_passant_pawn(board@, last_from, last_to, PieceColor::Black, j),
                long_w == exists|j: int| 0 <= j < i && castle_right(board@, PieceColor::White, 0, j),
                long_b == exists|j: int| 0 <= j < i && castle_right(board@, PieceColor::Black, 0, j),
                short_w == exists|j: int| 0 <= j < i && castle_right(board@, PieceColor::White, 7, j),
                short_b == exists|j: int| 0 <= j < i && castle_right(board@, PieceColor::Black, 7, j),
            decreases 64 - i,
        {
            let b: u64 = 1u64 << (i as u64);
            match board[i] {
                Some(p) => {
                    match p.color {
                        PieceColor::White => white = white | b,
                        PieceColor::Black => black = black | b,
                    }
                    match p.piece_type {
                        PieceType::King => king = king | b,
                        PieceType::Queen => queen = queen | b,
                        PieceType::Bishop => bishop = bishop | b,
                        PieceType::Knight => knight = knight | b,
                        PieceType::Rook => rook = rook | b,
                        PieceType::Pawn => pawn = pawn | b,
                    }
                    if p.piece_type == PieceType::King && !p.has_moved {
                        let long = rook_unmoved_at(board, 0, p.pos.y, p.color);
                        let short = rook_unmoved_at(board, 7, p.pos.y, p.color);
                        match p.color {
                            PieceColor::White => {
                                long_w = long_w || long;
                                short_w = short_w || short;
                            },
                            PieceColor::Black => {
                                long_b = long_b || long;
                                short_b = short_b || short;
                            },
                        }
                    } else if p.piece_type == PieceType::Pawn {
                        let rank: i8 = match p.color {
                            PieceColor::White => 4,
                            PieceColor::Black => 3,
                        };
                        if p.pos.y == rank && (ep_x as i16 == p.pos.x as i16 - 1 || ep_x as i16 == p.pos.x as i16 + 1) {
                            match p.color {
                                PieceColor::White => ep_w = true,
                                PieceColor::Black => ep_b = true,
                            }
                        }
                    }
                },
                None => {},
            }
            proof {
                let ii = i as int;
                if castle_right(board@, PieceColor::White, 0, ii) { assert(long_w); }
                if castle_right(board@, PieceColor::White, 7, ii) { assert(short_w); }
                if castle_right(board@, PieceColor::Black, 0, ii) { assert(long_b); }
                if castle_right(board@, PieceColor::Black, 7, ii) { assert(short_b); }
                if en_passant_pawn(board@, last_from, last_to, PieceColor::White, ii) { assert(ep_w); }
                if en_passant_pawn(board@, last_from, last_to, PieceColor::Black, ii) { assert(ep_b); }
            }
            i = i + 1;
        }
        let data: u8 = bit_value(ep_w, 1) + bit_value(long_w, 2) + bit_value(short_w, 4)
            + bit_value(ep_b, 16) + bit_value(long_b, 32) + bit_value(short_b, 64);
        BoardValue {
            white_bitmap: white,
            black_bitmap: black,
            king_bitmap: king,
            queen_bitmap: queen,
            bishop_bitmap: bishop,
            knight_bitmap: knight,
            rook_bitmap: rook,
            pawn_bitmap: pawn,
            data,
        }
    }
}

} // verus!
