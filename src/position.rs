//! The game as a mathematical value, the legality filter and the state transitions of a
//! move, all as specification.

use vstd::prelude::*;
use crate::bitboard::{bit, single};
use crate::square::{Square, index_of};
use crate::piece::{Piece, PieceType, PieceColor, ChessResult, opponent, direction};
use crate::rules::{piece_at, pseudo_reaches, ray_reaches, step_index};
use crate::encoding::{BoardValue, color_mask, encoding, rook_unmoved};

verus! {

/// The whole state of a game.
pub struct GameView {
    pub board: Seq<Option<Piece>>,
    pub halfmoves: u32,
    pub history: Seq<(BoardValue, u32)>,
    pub turn: PieceColor,
    pub result: ChessResult,
    pub last_from: Square,
    pub last_to: Square,
    pub capture: bool,
    pub check: bool,
    pub promotion: bool,
    pub white_captured: Seq<PieceType>,
    pub black_captured: Seq<PieceType>,
    pub fullmoves: u32,
}

pub open spec fn sat_inc(x: u32) -> u32 {
    if x == u32::MAX {
        x
    } else {
        (x + 1) as u32
    }
}

/// The squares held by colour `c`.
pub open spec fn occupancy(board: Seq<Option<Piece>>, c: PieceColor) -> u64 {
    color_mask(board, c, 64)
}

/// The square of index `i`.
pub open spec fn square_of(i: int) -> Square {
    Square { x: (i % 8) as i8, y: (i / 8) as i8 }
}

/// The bitboard of `s`; empty when `s` is off the board.
pub open spec fn square_mask(s: Square) -> u64 {
    if s.on_board() {
        single(s.index())
    } else {
        0
    }
}

/// The first square at or after `i` that holds a king of colour `c`.
pub open spec fn first_king(board: Seq<Option<Piece>>, c: PieceColor, i: int) -> Option<int>
    decreases 64 - i,
{
    if i < 0 || i >= 64 {
        None
    } else if board[i] is Some && board[i]->0.piece_type == PieceType::King && board[i]->0.color == c {
        Some(i)
    } else {
        first_king(board, c, i + 1)
    }
}

/// Castling towards the rook on file `rook_x` (0 or 7) is a candidate for the king `p`:
/// king and rook are unmoved, the king is not in check, and the squares between them are
/// empty.
pub open spec fn castle_open(v: GameView, p: Piece, rook_x: int) -> bool {
    let own = occupancy(v.board, p.color);
    let other = occupancy(v.board, opponent(p.color));
    let dx: int = if rook_x == 0 { -1 } else { 1 };
    let next = index_of(rook_x - dx, p.pos.y as int);
    &&& p.piece_type == PieceType::King
    &&& !p.has_moved
    &&& !v.check
    &&& rook_unmoved(v.board, rook_x, p.pos.y as int, p.color)
    &&& ray_reaches(p.pos.x as int, p.pos.y as int, dx, 0, own, other, next)
    &&& !bit(other, next)
}

/// `t` is a destination of `p` before the legality filter: pseudo-legal, or castling.
pub open spec fn candidate(v: GameView, p: Piece, t: int) -> bool {
    let own = occupancy(v.board, p.color);
    let other = occupancy(v.board, opponent(p.color));
    0 <= t < 64 && (pseudo_reaches(v.board, v.last_from, v.last_to, p, own, other, t)
        || (castle_open(v, p, 0) && t == step_index(p.pos, -2, 0))
        || (castle_open(v, p, 7) && t == step_index(p.pos, 2, 0)))
}

/// The squares of `p`'s side once `p` has moved to `t`.
pub open spec fn own_after(v: GameView, p: Piece, t: int) -> u64 {
    (occupancy(v.board, p.color) & !single(p.pos.index())) | single(t)
}

/// The squares of the other side once `p` has moved to `t`: less `t`, or less the pawn
/// taken en passant when a pawn moves aslant onto an empty square.
pub open spec fn other_after(v: GameView, p: Piece, t: int) -> u64 {
    let other = occupancy(v.board, opponent(p.color));
    let s = square_of(t);
    if p.piece_type == PieceType::Pawn && p.pos.x != s.x && !bit(other, t) {
        other & !square_mask(s.offset(0, -direction(p.color)))
    } else {
        other & !single(t)
    }
}

/// Where the king of `p`'s side stands once `p` has moved to `t`.
pub open spec fn king_after(v: GameView, p: Piece, t: int) -> int {
    if p.piece_type == PieceType::King {
        t
    } else {
        first_king(v.board, p.color, 0)->0
    }
}

/// The piece on square `j` would attack the king once `p` has moved to `t`.
pub open spec fn attacker(v: GameView, p: Piece, t: int, j: int) -> bool {
    let q = v.board[j]->0;
    &&& 0 <= j < 64
    &&& v.board[j] is Some
    &&& q.color != p.color
    &&& bit(other_after(v, p, t), j)
    &&& pseudo_reaches(v.board, v.last_from, v.last_to, q, other_after(v, p, t), own_after(v, p, t), king_after(v, p, t))
}

/// Moving `p` to `t` would leave its king attacked.
pub open spec fn exposes_king(v: GameView, p: Piece, t: int) -> bool {
    exists|j: int| attacker(v, p, t, j)
}

pub open spec fn kept(v: GameView, p: Piece, t: int) -> bool {
    candidate(v, p, t) && !exposes_king(v, p, t)
}

/// `t` is a legal destination of `p`: a candidate that leaves its king unattacked; a
/// castling also needs the square that the king passes to be such a destination.
pub open spec fn legal_reaches(v: GameView, p: Piece, t: int) -> bool {
    if first_king(v.board, p.color, 0) is None {
        candidate(v, p, t)
    } else if p.piece_type == PieceType::King && t == step_index(p.pos, -2, 0) && !kept(v, p, step_index(p.pos, -1, 0)) {
        false
    } else if p.piece_type == PieceType::King && t == step_index(p.pos, 2, 0) && !kept(v, p, step_index(p.pos, 1, 0)) {
        false
    } else {
        kept(v, p, t)
    }
}

/// `from` holds a piece of the side to move, and `t` is one of its legal destinations.
pub open spec fn legal_from(v: GameView, from: Square, t: int) -> bool {
    &&& piece_at(v.board, from) is Some
    &&& piece_at(v.board, from)->0.color == v.turn
    &&& legal_reaches(v, piece_at(v.board, from)->0, t)
}

/// Square `j` holds a piece of colour `c` with at least one legal destination.
pub open spec fn can_move(v: GameView, c: PieceColor, j: int) -> bool {
    &&& 0 <= j < 64
    &&& v.board[j] is Some
    &&& v.board[j]->0.color == c
    &&& exists|t: int| legal_reaches(v, v.board[j]->0, t)
}

/// Some piece of `c` has a legal move.
pub open spec fn has_legal_move(v: GameView, c: PieceColor) -> bool {
    exists|j: int| can_move(v, c, j)
}

/// The piece on square `j`, of colour `c`, attacks the king of the other side.
pub open spec fn checking_piece(v: GameView, c: PieceColor, j: int) -> bool {
    let q = v.board[j]->0;
    &&& 0 <= j < 64
    &&& v.board[j] is Some
    &&& q.color == c
    &&& first_king(v.board, opponent(c), 0) is Some
    &&& pseudo_reaches(v.board, v.last_from, v.last_to, q, occupancy(v.board, c), occupancy(v.board, opponent(c)), first_king(v.board, opponent(c), 0)->0)
}

/// Colour `c` gives check.
pub open spec fn gives_check(v: GameView, c: PieceColor) -> bool {
    exists|j: int| checking_piece(v, c, j)
}

/// The number of pieces on squares below `n`.
pub open spec fn piece_count(board: Seq<Option<Piece>>, n: int) -> int
    decreases n,
{
    if n <= 0 {
        0
    } else {
        piece_count(board, n - 1) + if board[n - 1] is Some { 1int } else { 0int }
    }
}

pub open spec fn minor_or_king(t: PieceType) -> bool {
    t == PieceType::King || t == PieceType::Bishop || t == PieceType::Knight
}

/// At most three pieces remain, each a king, bishop or knight.
pub open spec fn insufficient_material(board: Seq<Option<Piece>>) -> bool {
    &&& piece_count(board, 64) <= 3
    &&& forall|i: int| 0 <= i < 64 && #[trigger] board[i] is Some ==> minor_or_king(board[i]->0.piece_type)
}

/// The history's keys are distinct.
pub open spec fn history_wf(h: Seq<(BoardValue, u32)>) -> bool {
    forall|i: int, j: int| 0 <= i < h.len() && 0 <= j < h.len() && i != j ==> h[i].0 != h[j].0
}

pub open spec fn recorded(h: Seq<(BoardValue, u32)>, key: BoardValue) -> bool {
    exists|i: int| 0 <= i < h.len() && h[i].0 == key
}

/// How often `key` has occurred.
pub open spec fn occurrences(h: Seq<(BoardValue, u32)>, key: BoardValue) -> u32 {
    if recorded(h, key) {
        h[choose|i: int| 0 <= i < h.len() && h[i].0 == key].1
    } else {
        0
    }
}

/// The history with one more occurrence of `key`.
pub open spec fn record(h: Seq<(BoardValue, u32)>, key: BoardValue) -> Seq<(BoardValue, u32)> {
    if recorded(h, key) {
        let i = choose|i: int| 0 <= i < h.len() && h[i].0 == key;
        h.update(i, (key, sat_inc(h[i].1)))
    } else {
        h.push((key, 1))
    }
}

pub open spec fn winner(c: PieceColor) -> ChessResult {
    match c {
        PieceColor::White => ChessResult::WhiteWon,
        PieceColor::Black => ChessResult::BlackWon,
    }
}

/// The bookkeeping of a move by `v.turn` but its result: check, the repetition history,
/// the move counter and the turn.
pub open spec fn bookkept(v: GameView) -> GameView {
    GameView {
        check: gives_check(v, v.turn),
        history: record(v.history, encoding(v.board, v.last_from, v.last_to)),
        fullmoves: if v.turn == PieceColor::Black { sat_inc(v.fullmoves) } else { v.fullmoves },
        turn: opponent(v.turn),
        ..v
    }
}

/// One of the draw rules applies after a move: one hundred half-moves without a pawn
/// move or capture, a third occurrence of the position, or insufficient material.
pub open spec fn drawn(v: GameView) -> bool {
    let key = encoding(v.board, v.last_from, v.last_to);
    v.halfmoves >= 100 || occurrences(record(v.history, key), key) >= 3 || insufficient_material(v.board)
}

/// The bookkeeping that completes a move by `v.turn`: check, the draw rules, the move
/// counter, the turn, and mate or stalemate, which take precedence over the draw rules.
/// A finished game keeps its result.
pub open spec fn finish_move(v: GameView) -> GameView {
    let next = bookkept(v);
    let outcome = if !has_legal_move(next, next.turn) {
        if next.check { winner(v.turn) } else { ChessResult::Draw }
    } else if drawn(v) {
        ChessResult::Draw
    } else {
        ChessResult::Ongoing
    };
    GameView {
        result: if v.result == ChessResult::Ongoing { outcome } else { v.result },
        ..next
    }
}

/// `s` with its piece, if any, taken off the board and listed as captured.
pub open spec fn capture_at(v: GameView, s: Square) -> GameView {
    match piece_at(v.board, s) {
        Some(q) => GameView {
            board: v.board.update(s.index(), None),
            white_captured: if q.color == PieceColor::White { v.white_captured.push(q.piece_type) } else { v.white_captured },
            black_captured: if q.color == PieceColor::Black { v.black_captured.push(q.piece_type) } else { v.black_captured },
            history: Seq::empty(),
            ..v
        },
        None => v,
    }
}

/// The piece `p` moved from its square to the empty square `to`, and marked as moved.
pub open spec fn relocate(board: Seq<Option<Piece>>, p: Piece, to: Square) -> Seq<Option<Piece>> {
    board.update(p.pos.index(), None).update(to.index(), Some(Piece { pos: to, has_moved: true, ..p }))
}

/// The rank on which a pawn of colour `c` promotes.
pub open spec fn last_rank(c: PieceColor) -> int {
    match c {
        PieceColor::White => 7,
        PieceColor::Black => 0,
    }
}

/// The rook that castling of the king `p` to `to` relocates, and where it goes: from
/// file A or H of the king's rank to the square next to the king's new square.
pub open spec fn castle_rook(v: GameView, p: Piece, to: Square) -> Option<(Piece, Square)> {
    let corner_x: int = if to == p.pos.offset(-2, 0) { 0 } else { 7 };
    let corner = Square { x: corner_x as i8, y: p.pos.y };
    let dest = if corner_x == 0 { to.offset(1, 0) } else { to.offset(-1, 0) };
    if p.piece_type == PieceType::King && !p.has_moved && (to == p.pos.offset(-2, 0) || to == p.pos.offset(2, 0))
        && piece_at(v.board, corner) is Some && piece_at(v.board, corner)->0.piece_type == PieceType::Rook
        && piece_at(v.board, corner)->0.color == p.color && dest.on_board() && piece_at(v.board, dest) is None {
        Some((piece_at(v.board, corner)->0, dest))
    } else {
        None
    }
}

/// The first part of a move of `p` to `to`: the half-move clock, and what is captured,
/// on `to` or en passant.
pub open spec fn take_step(v: GameView, p: Piece, to: Square) -> GameView {
    let occupied = piece_at(v.board, to) is Some;
    let v1 = GameView {
        halfmoves: if occupied || p.piece_type == PieceType::Pawn { 0 } else { sat_inc(v.halfmoves) },
        capture: occupied,
        ..capture_at(v, to)
    };
    let en_passant = p.piece_type == PieceType::Pawn && p.pos.x != to.x && !occupied;
    if en_passant {
        GameView { capture: true, ..capture_at(v1, to.offset(0, -direction(p.color))) }
    } else {
        v1
    }
}

/// Castling's rook, if `p` castles to `to`, moved next to the king's new square.
pub open spec fn castle_step(v: GameView, p: Piece, to: Square) -> GameView {
    match castle_rook(v, p, to) {
        Some((rook, dest)) => GameView { board: relocate(v.board, rook, dest), ..v },
        None => v,
    }
}

/// The position once `p` has been moved to `to`, before the bookkeeping.
pub open spec fn apply_move(v: GameView, p: Piece, to: Square) -> GameView {
    let v3 = castle_step(take_step(v, p, to), p, to);
    GameView {
        board: relocate(v3.board, p, to),
        promotion: p.piece_type == PieceType::Pawn && to.y == last_rank(p.color),
        last_from: p.pos,
        last_to: to,
        ..v3
    }
}

/// The pawn on the square of the last move turned into a piece of kind `class`.
pub open spec fn promote(v: GameView, class: PieceType) -> GameView {
    GameView {
        board: v.board.update(v.last_to.index(), Some(Piece { piece_type: class, ..piece_at(v.board, v.last_to)->0 })),
        promotion: false,
        ..v
    }
}

/// A move of `p` to `to`, with its bookkeeping unless a promotion is pending.
pub open spec fn move_done(v: GameView, p: Piece, to: Square) -> GameView {
    let a = apply_move(v, p, to);
    if a.promotion { a } else { finish_move(a) }
}

} // verus!
