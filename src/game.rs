//! The game: a position with its history, legal moves, moves and their bookkeeping.

use vstd::prelude::*;
use crate::bitboard::{bit, single, group_bits, lemma_and_single, lemma_nonzero_iff};
use crate::square::{Square, index_of, on_board};
use crate::piece::{Piece, PieceType, PieceColor, ChessResult, opponent, direction};
use crate::rules::{piece_at, step_index};
use crate::encoding::{BoardValue, board_wf, encoding, make_color_bitmap, lemma_color_mask_bits, has_color};
use crate::movegen::{pseudo_moves, bitmap_line, piece_on};
use crate::fen::{
    fen_fields, fen_setup, fen_text, split_fields, parse_placement, apply_castling, parse_number,
    parse_u32, field_square, push_placement, push_castling, push_decimal, field_or,
    placement, ranks_from, castling_text, en_passant_text, decimal,
};
use crate::text::push_char;
use crate::position::{
    GameView, occupancy, square_of, first_king, castle_open, candidate, own_after, other_after,
    king_after, attacker, exposes_king, kept, legal_reaches, legal_from, history_wf, capture_at,
    relocate, record, recorded, occurrences, piece_count, minor_or_king, insufficient_material,
    checking_piece, gives_check, can_move, has_legal_move, finish_move, winner, apply_move, move_done,
    promote, take_step, castle_step,
};

verus! {

broadcast use group_bits;

pub struct Game {
    /// The 64 squares, by index; each holds nothing or the piece standing on it.
    live_pieces: Vec<Option<Piece>>,
    /// Half-moves since the last pawn move or capture.
    fifty_move_rule: u32,
    /// Each position encoding seen since the last capture, with its count.
    previous_states: Vec<(BoardValue, u32)>,
    white_bitmap: u64,
    black_bitmap: u64,
    /// The side to move.
    pub turn: PieceColor,
    pub result: ChessResult,
    /// The squares of the last move; both (-1, -1) before the first.
    pub last_moved_from: Square,
    pub last_moved_to: Square,
    /// The last move captured.
    pub capture: bool,
    /// The side to move is in check.
    pub check: bool,
    /// A pawn has reached the last rank and waits for `pawn_promotion`.
    pub promotion: bool,
    /// Kinds of the white pieces captured.
    pub white_captured_pieces: Vec<PieceType>,
    /// Kinds of the black pieces captured.
    pub black_captured_pieces: Vec<PieceType>,
    /// Starts at 1 and counts black's moves.
    pub fullmoves: u32,
}

/// The piece of the standard opening layout on square `i`.
pub open spec fn start_piece(i: int) -> Option<Piece> {
    let x = i % 8;
    let y = i / 8;
    let color = if y < 4 { PieceColor::White } else { PieceColor::Black };
    let back = if x == 0 || x == 7 {
        PieceType::Rook
    } else if x == 1 || x == 6 {
        PieceType::Knight
    } else if x == 2 || x == 5 {
        PieceType::Bishop
    } else if x == 3 {
        PieceType::Queen
    } else {
        PieceType::King
    };
    let pos = Square { x: x as i8, y: y as i8 };
    if y == 0 || y == 7 {
        Some(Piece { piece_type: back, color, pos, has_moved: false })
    } else if y == 1 || y == 6 {
        Some(Piece { piece_type: PieceType::Pawn, color, pos, has_moved: false })
    } else {
        None
    }
}

pub open spec fn start_board() -> Seq<Option<Piece>> {
    Seq::new(64, |i: int| start_piece(i))
}

pub open spec fn no_square() -> Square {
    Square { x: -1i8, y: -1i8 }
}

/// The game at the standard opening position.
pub open spec fn start_view() -> GameView {
    GameView {
        board: start_board(),
        halfmoves: 0,
        history: seq![(encoding(start_board(), no_square(), no_square()), 1u32)],
        turn: PieceColor::White,
        result: ChessResult::Ongoing,
        last_from: no_square(),
        last_to: no_square(),
        capture: false,
        check: false,
        promotion: false,
        white_captured: Seq::empty(),
        black_captured: Seq::empty(),
        fullmoves: 1,
    }
}

/// The game that a FEN text describes: the opening position when the text has no
/// field, else the fields' game once its bookkeeping has run.
pub open spec fn fen_game(s: Seq<char>) -> GameView {
    if fen_fields(s).len() == 0 {
        start_view()
    } else {
        finish_move(fen_setup(fen_fields(s)))
    }
}

impl View for Game {
    type V = GameView;

    closed spec fn view(&self) -> GameView {
        GameView {
            board: self.board(),
            halfmoves: self.halfmoves(),
            history: self.history(),
            turn: self.turn,
            result: self.result,
            last_from: self.last_moved_from,
            last_to: self.last_moved_to,
            capture: self.capture,
            check: self.check,
            promotion: self.promotion,
            white_captured: self.white_captured_pieces@,
            black_captured: self.black_captured_pieces@,
            fullmoves: self.fullmoves,
        }
    }
}

fn start_piece_at(i: usize) -> (r: Option<Piece>)
    requires
        i < 64,
    ensures
        r == start_piece(i as int),
{
    let x: i8 = (i % 8) as i8;
    let y: i8 = (i / 8) as i8;
    let color = if y < 4 { PieceColor::White } else { PieceColor::Black };
    let back = if x == 0 || x == 7 {
        PieceType::Rook
    } else if x == 1 || x == 6 {
        PieceType::Knight
    } else if x == 2 || x == 5 {
        PieceType::Bishop
    } else if x == 3 {
        PieceType::Queen
    } else {
        PieceType::King
    };
    let pos = Square { x, y };
    if y == 0 || y == 7 {
        Some(Piece { piece_type: back, color, pos, has_moved: false })
    } else if y == 1 || y == 6 {
        Some(Piece { piece_type: PieceType::Pawn, color, pos, has_moved: false })
    } else {
        None
    }
}

proof fn lemma_first_king(board: Seq<Option<Piece>>, c: PieceColor, i: int)
    requires
        0 <= i,
    ensures
        first_king(board, c, i) matches Some(k) ==> i <= k < 64 && board[k] is Some
            && board[k]->0.piece_type == PieceType::King && board[k]->0.color == c,
    decreases 64 - i,
{
    if 0 <= i < 64 {
        lemma_first_king(board, c, i + 1);
    }
}

/// A bitboard that marks exactly the squares of colour `c` is the colour's occupancy.
proof fn lemma_occupancy_ext(board: Seq<Option<Piece>>, c: PieceColor, m: u64)
    requires
        board.len() == 64,
        forall|t: int| 0 <= t < 64 ==> #[trigger] bit(m, t) == has_color(board[t], c),
    ensures
        m == occupancy(board, c),
{
    lemma_color_mask_bits(board, c, 64);
    assert forall|t: int| bit(m, t) == bit(occupancy(board, c), t) by {
        if 0 <= t < 64 {
            assert(bit(m, t) == has_color(board[t], c));
        }
    }
    crate::bitboard::lemma_bits_ext(m, occupancy(board, c));
}

/// A piece's own square is never among its legal destinations.
proof fn lemma_own_square_not_legal(v: GameView, p: Piece)
    requires
        board_wf(v.board),
        p.pos.on_board(),
        v.board[p.pos.index()] == Some(p),
    ensures
        !legal_reaches(v, p, p.pos.index()),
{
    let own = occupancy(v.board, p.color);
    let other = occupancy(v.board, opponent(p.color));
    let t = p.pos.index();
    lemma_color_mask_bits(v.board, p.color, 64);
    lemma_color_mask_bits(v.board, opponent(p.color), 64);
    assert(bit(own, t));
    assert(!bit(other, t));
    let (x, y) = (p.pos.x as int, p.pos.y as int);
    crate::rules::lemma_ray_not_own(x, y, 1, 0, own, other, t);
    crate::rules::lemma_ray_not_own(x, y, 0, 1, own, other, t);
    crate::rules::lemma_ray_not_own(x, y, -1, 0, own, other, t);
    crate::rules::lemma_ray_not_own(x, y, 0, -1, own, other, t);
    crate::rules::lemma_ray_not_own(x, y, 1, 1, own, other, t);
    crate::rules::lemma_ray_not_own(x, y, -1, 1, own, other, t);
    crate::rules::lemma_ray_not_own(x, y, -1, -1, own, other, t);
    crate::rules::lemma_ray_not_own(x, y, 1, -1, own, other, t);
    assert(!candidate(v, p, t));
}

proof fn lemma_parse_small(s: Seq<char>, v: u32)
    requires
        s.len() == 1,
        s[0] as int == ('0' as int) + v,
        v < 10,
    ensures
        parse_u32(s) == Some(v),
{
    assert(s.drop_last() =~= Seq::<char>::empty());
    assert(crate::fen::unsigned_part(s) == s);
    assert(crate::fen::all_digits(s));
    assert(crate::fen::digits_value(s.drop_last()) == 0);
    assert(s.last() == s[0]);
    assert(crate::fen::digits_value(s) == crate::fen::digits_value(s.drop_last()) * 10 + (s.last() as int - '0' as int));
    assert(crate::fen::digits_value(s) == v);
}

fn mover_direction(c: PieceColor) -> (r: i8)
    ensures
        r == direction(c),
{
    match c {
        PieceColor::White => 1,
        PieceColor::Black => -1,
    }
}

/// The index of the first square that holds a king of colour `c`.
fn find_king(board: &Vec<Option<Piece>>, c: PieceColor) -> (r: Option<usize>)
    requires
        board@.len() == 64,
    ensures
        r matches Some(k) ==> first_king(board@, c, 0) == Some(k as int),
        r is None ==> first_king(board@, c, 0) is None,
{
    let mut i: usize = 0;
    while i < 64
        invariant
            board@.len() == 64,
            i <= 64,
            first_king(board@, c, 0) == first_king(board@, c, i as int),
        decreases 64 - i,
    {
        match board[i] {
            Some(p) => {
                if p.piece_type == PieceType::King && p.color == c {
                    return Some(i);
                }
            },
            None => {},
        }
        i = i + 1;
    }
    None
}

impl Game {
    pub closed spec fn board(&self) -> Seq<Option<Piece>> {
        self.live_pieces@
    }

    /// The bitboards of the squares that each colour holds, as the game keeps them.
    pub closed spec fn color_bitmaps(&self) -> (u64, u64) {
        (self.white_bitmap, self.black_bitmap)
    }

    /// In every game the placement is consistent: each square holds nothing or a piece
    /// that stands on it, and the colour bitboards that the game keeps mark exactly the
    /// squares of each colour, so together exactly the occupied squares.
    pub proof fn lemma_placement_consistent(&self)
        requires
            self.wf(),
        ensures
            board_wf(self@.board),
            self.color_bitmaps().0 == occupancy(self@.board, PieceColor::White),
            self.color_bitmaps().1 == occupancy(self@.board, PieceColor::Black),
            forall|t: int| 0 <= t < 64 ==> #[trigger] bit(self.color_bitmaps().0 | self.color_bitmaps().1, t)
                == self@.board[t] is Some,
    {
        lemma_color_mask_bits(self@.board, PieceColor::White, 64);
        lemma_color_mask_bits(self@.board, PieceColor::Black, 64);
    }

    pub closed spec fn halfmoves(&self) -> u32 {
        self.fifty_move_rule
    }

    pub closed spec fn history(&self) -> Seq<(BoardValue, u32)> {
        self.previous_states@
    }

    /// The invariant of a game: each piece stands on its own square, the colour
    /// bitboards mark exactly the squares of each colour, and the history's keys are
    /// distinct.
    pub closed spec fn wf(&self) -> bool {
        &&& board_wf(self.live_pieces@)
        &&& self.white_bitmap == occupancy(self.live_pieces@, PieceColor::White)
        &&& self.black_bitmap == occupancy(self.live_pieces@, PieceColor::Black)
        &&& history_wf(self.previous_states@)
    }

    /// A new game at the standard opening position.
    pub fn new() -> (r: Game)
        ensures
            r.wf(),
            r@ == start_view(),
    {
        let mut live_pieces: Vec<Option<Piece>> = Vec::new();
        let mut i: usize = 0;
        while i < 64
            invariant
                i <= 64,
                live_pieces@.len() == i,
                forall|j: int| 0 <= j < i ==> live_pieces@[j] == start_piece(j),
            decreases 64 - i,
        {
            live_pieces.push(start_piece_at(i));
            i = i + 1;
        }
        assert(live_pieces@ == start_board());
        let white_bitmap = make_color_bitmap(&live_pieces, PieceColor::White);
        let black_bitmap = make_color_bitmap(&live_pieces, PieceColor::Black);
        let start = BoardValue::encode(&live_pieces, Square { x: -1, y: -1 }, Square { x: -1, y: -1 });
        let mut previous_states: Vec<(BoardValue, u32)> = Vec::new();
        previous_states.push((start, 1));
        let game = Game {
            live_pieces,
            fifty_move_rule: 0,
            previous_states,
            white_bitmap,
            black_bitmap,
            turn: PieceColor::White,
            result: ChessResult::Ongoing,
            last_moved_from: Square { x: -1, y: -1 },
            last_moved_to: Square { x: -1, y: -1 },
            capture: false,
            check: false,
            promotion: false,
            white_captured_pieces: Vec::new(),
            black_captured_pieces: Vec::new(),
            fullmoves: 1,
        };
        assert(game@.history == start_view().history);
        game
    }

    /// The bitboards of `c`'s side and of the other side.
    fn masks(&self, c: PieceColor) -> (r: (u64, u64))
        requires
            self.wf(),
        ensures
            r.0 == occupancy(self@.board, c),
            r.1 == occupancy(self@.board, opponent(c)),
    {
        match c {
            PieceColor::White => (self.white_bitmap, self.black_bitmap),
            PieceColor::Black => (self.black_bitmap, self.white_bitmap),
        }
    }

    /// Castling of the king `piece` towards the rook on file `rook_x` is a candidate.
    fn castle_candidate(&self, piece: &Piece, rook_x: i8, own: u64, other: u64) -> (r: bool)
        requires
            self.wf(),
            piece.pos.on_board(),
            rook_x == 0 || rook_x == 7,
            own == occupancy(self@.board, piece.color),
            other == occupancy(self@.board, opponent(piece.color)),
        ensures
            r == castle_open(self@, *piece, rook_x as int),
    {
        if piece.piece_type != PieceType::King || piece.has_moved || self.check {
            return false;
        }
        match piece_on(&self.live_pieces, Square { x: rook_x, y: piece.pos.y }) {
            Some(rook) => {
                if rook.piece_type != PieceType::Rook || rook.color != piece.color || rook.has_moved {
                    return false;
                }
                let dx: i8 = if rook_x == 0 { -1 } else { 1 };
                let next = Square { x: rook_x - dx, y: piece.pos.y }.to_bitmap();
                let line = bitmap_line(piece.pos, dx, 0, own, other);
                proof {
                    let n = index_of(rook_x - dx, piece.pos.y as int);
                    lemma_and_single(line, n);
                    lemma_and_single(other, n);
                }
                line & next != 0 && other & next == 0
            },
            None => false,
        }
    }

    /// The destinations of `piece` before the legality filter.
    fn candidate_moves(&self, piece: &Piece, own: u64, other: u64) -> (r: u64)
        requires
            self.wf(),
            piece.pos.on_board(),
            own == occupancy(self@.board, piece.color),
            other == occupancy(self@.board, opponent(piece.color)),
        ensures
            forall|t: int| #[trigger] bit(r, t) == candidate(self@, *piece, t),
    {
        let mut moves = pseudo_moves(&self.live_pieces, self.last_moved_from, self.last_moved_to, piece, own, other);
        if self.castle_candidate(piece, 0, own, other) {
            moves = moves | piece.pos.moved(-2, 0).to_bitmap();
        }
        if self.castle_candidate(piece, 7, own, other) {
            moves = moves | piece.pos.moved(2, 0).to_bitmap();
        }
        moves
    }

    /// Moving `piece` to square `t` would leave its king, on square `king`, attacked.
    fn exposes(&self, piece: &Piece, t: usize, king: usize, own: u64, other: u64) -> (r: bool)
        requires
            self.wf(),
            piece.pos.on_board(),
            t < 64,
            first_king(self@.board, piece.color, 0) == Some(king as int),
            own == occupancy(self@.board, piece.color),
            other == occupancy(self@.board, opponent(piece.color)),
        ensures
            r == exposes_king(self@, *piece, t as int),
    {
        let ghost v = self@;
        let ghost ti = t as int;
        let possible_move = Square::from(t as i8);
        let move_bitmap = possible_move.to_bitmap();
        assert(possible_move == square_of(ti));
        assert(possible_move.on_board() && possible_move.index() == ti);
        let new_own = (own & !piece.pos.to_bitmap()) | move_bitmap;
        let new_other = if piece.piece_type == PieceType::Pawn && piece.pos.x != possible_move.x
            && other & move_bitmap == 0 {
            other & !possible_move.moved(0, -piece.get_direction()).to_bitmap()
        } else {
            other & !move_bitmap
        };
        proof {
            lemma_and_single(other, ti);
        }
        assert(new_own == own_after(v, *piece, ti));
        assert(new_other == other_after(v, *piece, ti));
        proof {
            lemma_first_king(self@.board, piece.color, 0);
        }
        let king_bitmap: u64 = if piece.piece_type == PieceType::King { move_bitmap } else { 1u64 << (king as u64) };
        let ghost ks = king_after(v, *piece, ti);
        assert(0 <= ks < 64 && king_bitmap == single(ks));
        let mut j: usize = 0;
        while j < 64
            invariant
                self.wf(),
                v == self@,
                ti == t as int,
                j <= 64,
                0 <= ks < 64,
                king_bitmap == single(ks),
                new_own == own_after(v, *piece, ti),
                new_other == other_after(v, *piece, ti),
                ks == king_after(v, *piece, ti),
                forall|k: int| 0 <= k < j ==> !attacker(v, *piece, ti, k),
            decreases 64 - j,
        {
            match self.live_pieces[j] {
                Some(q) => {
                    if q.color != piece.color && new_other & q.pos.to_bitmap() != 0 {
                        let attacks = pseudo_moves(&self.live_pieces, self.last_moved_from, self.last_moved_to, &q, new_other, new_own);
                        proof {
                            lemma_and_single(new_other, j as int);
                            lemma_and_single(attacks, ks);
                        }
                        if attacks & king_bitmap != 0 {
                            assert(attacker(v, *piece, ti, j as int));
                            assert(exposes_king(v, *piece, ti));
                            return true;
                        }
                    } else {
                        proof {
                            lemma_and_single(new_other, j as int);
                        }
                    }
                },
                None => {},
            }
            j = j + 1;
        }
        false
    }

    /// The legal destinations of `piece`, castling included.
    fn legal_moves(&self, piece: &Piece) -> (r: u64)
        requires
            self.wf(),
            piece.pos.on_board(),
        ensures
            forall|t: int| #[trigger] bit(r, t) == legal_reaches(self@, *piece, t),
    {
        let ghost v = self@;
        let (own, other) = self.masks(piece.color);
        let mut moves = self.candidate_moves(piece, own, other);
        let king = match find_king(&self.live_pieces, piece.color) {
            Some(k) => k,
            None => {
                return moves;
            },
        };
        let mut i: usize = 0;
        while i < 64
            invariant
                self.wf(),
                v == self@,
                piece.pos.on_board(),
                i <= 64,
                own == occupancy(v.board, piece.color),
                other == occupancy(v.board, opponent(piece.color)),
                first_king(v.board, piece.color, 0) == Some(king as int),
                forall|t: int| #[trigger] bit(moves, t) == if t < i { kept(v, *piece, t) } else { candidate(v, *piece, t) },
            decreases 64 - i,
        {
            let b: u64 = 1u64 << (i as u64);
            proof {
                lemma_and_single(moves, i as int);
            }
            if moves & b != 0 {
                if self.exposes(piece, i, king, own, other) {
                    moves = moves & !b;
                }
            }
            i = i + 1;
        }
        if piece.piece_type == PieceType::King {
            let left = piece.pos.moved(-1, 0).to_bitmap();
            let right = piece.pos.moved(1, 0).to_bitmap();
            proof {
                if piece.pos.x >= 1 {
                    lemma_and_single(moves, step_index(piece.pos, -1, 0));
                } else {
                    lemma_nonzero_iff(moves & left);
                }
            }
            if moves & left == 0 {
                moves = moves & !piece.pos.moved(-2, 0).to_bitmap();
            }
            proof {
                if piece.pos.x <= 6 {
                    lemma_and_single(moves, step_index(piece.pos, 1, 0));
                } else {
                    lemma_nonzero_iff(moves & right);
                }
            }
            if moves & right == 0 {
                moves = moves & !piece.pos.moved(2, 0).to_bitmap();
            }
        }
        moves
    }

    /// The legal destinations of the piece on `from` as a bitboard; empty when `from`
    /// holds no piece of the side to move.
    pub fn get_moves_bitmap(&self, from: &Square) -> (r: u64)
        requires
            self.wf(),
        ensures
            forall|t: int| #[trigger] bit(r, t) == legal_from(self@, *from, t),
    {
        match piece_on(&self.live_pieces, *from) {
            Some(piece) => {
                if piece.color == self.turn {
                    self.legal_moves(&piece)
                } else {
                    0
                }
            },
            None => 0,
        }
    }

    /// The legal destinations of the piece on `from`, in increasing order of index;
    /// empty when `from` holds no piece of the side to move.
    pub fn get_moves_list(&self, from: &Square) -> (r: Vec<Square>)
        requires
            self.wf(),
        ensures
            forall|k: int| 0 <= k < r@.len() ==> (#[trigger] r@[k]).on_board() && legal_from(self@, *from, r@[k].index()),
            forall|k1: int, k2: int| 0 <= k1 < k2 < r@.len() ==> r@[k1].index() < r@[k2].index(),
            forall|t: int| legal_from(self@, *from, t) ==> exists|k: int| 0 <= k < r@.len() && #[trigger] r@[k].index() == t,
    {
        let moves = self.get_moves_bitmap(from);
        let mut list: Vec<Square> = Vec::new();
        let mut i: usize = 0;
        while i < 64
            invariant
                i <= 64,
                forall|t: int| #[trigger] bit(moves, t) == legal_from(self@, *from, t),
                forall|k: int| 0 <= k < list@.len() ==> (#[trigger] list@[k]).on_board() && bit(moves, list@[k].index()) && list@[k].index() < i,
                forall|k1: int, k2: int| 0 <= k1 < k2 < list@.len() ==> list@[k1].index() < list@[k2].index(),
                forall|t: int| 0 <= t < i && bit(moves, t) ==> exists|k: int| 0 <= k < list@.len() && #[trigger] list@[k].index() == t,
            decreases 64 - i,
        {
            proof {
                lemma_and_single(moves, i as int);
            }
            let ghost before = list@;
            if moves & (1u64 << (i as u64)) != 0 {
                let s = Square::from(i as i8);
                assert(s.on_board() && s.index() == i);
                list.push(s);
                proof {
                    assert(list@ == before.push(s));
                    assert forall|k1: int, k2: int| 0 <= k1 < k2 < list@.len() implies list@[k1].index() < list@[k2].index() by {
                        if k2 == before.len() {
                            assert(list@[k1] == before[k1]);
                        } else {
                            assert(list@[k1] == before[k1]);
                            assert(list@[k2] == before[k2]);
                        }
                    }
                    assert forall|t: int| 0 <= t < i + 1 && bit(moves, t) implies exists|k: int| 0 <= k < list@.len() && #[trigger] list@[k].index() == t by {
                        if t < i {
                            let k = choose|k: int| 0 <= k < before.len() && #[trigger] before[k].index() == t;
                            assert(list@[k] == before[k]);
                        } else {
                            assert(list@[before.len() as int].index() == t);
                        }
                    }
                }
            }
            i = i + 1;
        }
        proof {
            assert forall|t: int| legal_from(self@, *from, t) implies exists|k: int| 0 <= k < list@.len() && #[trigger] list@[k].index() == t by {
                assert(bit(moves, t));
            }
            assert forall|k: int| 0 <= k < list@.len() implies (#[trigger] list@[k]).on_board() && legal_from(self@, *from, list@[k].index()) by {
                assert(bit(moves, list@[k].index()));
            }
        }
        list
    }

    /// Takes any piece off `square`, listing it as captured; a capture clears the
    /// repetition history, since no earlier position can recur.
    fn capture(&mut self, square: Square)
        requires
            old(self).wf(),
        ensures
            final(self).wf(),
            final(self)@ == capture_at(old(self)@, square),
    {
        let ghost board0 = self.live_pieces@;
        match piece_on(&self.live_pieces, square) {
            Some(piece) => {
                let i: usize = (square.y * 8 + square.x) as usize;
                self.live_pieces.set(i, None);
                match piece.color {
                    PieceColor::White => self.white_captured_pieces.push(piece.piece_type),
                    PieceColor::Black => self.black_captured_pieces.push(piece.piece_type),
                }
                self.previous_states = Vec::new();
            },
            None => {},
        }
        let b = square.to_bitmap();
        self.white_bitmap = self.white_bitmap & !b;
        self.black_bitmap = self.black_bitmap & !b;
        proof {
            let board1 = self.live_pieces@;
            lemma_color_mask_bits(board0, PieceColor::White, 64);
            lemma_color_mask_bits(board0, PieceColor::Black, 64);
            assert forall|t: int| 0 <= t < 64 implies #[trigger] board1[t] == if square.on_board() && t == square.index() { None } else { board0[t] } by {}
            lemma_occupancy_ext(board1, PieceColor::White, self.white_bitmap);
            lemma_occupancy_ext(board1, PieceColor::Black, self.black_bitmap);
        }
    }

    /// Moves `piece` from its square to the empty square `to`, marking it as moved.
    fn relocate(&mut self, piece: Piece, to: Square)
        requires
            old(self).wf(),
            piece.pos.on_board(),
            old(self)@.board[piece.pos.index()] == Some(piece),
            to.on_board(),
            old(self)@.board[to.index()] is None,
        ensures
            final(self).wf(),
            final(self)@ == (GameView { board: relocate(old(self)@.board, piece, to), ..old(self)@ }),
    {
        let ghost board0 = self.live_pieces@;
        let from_i: usize = (piece.pos.y * 8 + piece.pos.x) as usize;
        let to_i: usize = (to.y * 8 + to.x) as usize;
        self.live_pieces.set(from_i, None);
        self.live_pieces.set(to_i, Some(Piece { pos: to, has_moved: true, ..piece }));
        let from_b = piece.pos.to_bitmap();
        let to_b = to.to_bitmap();
        match piece.color {
            PieceColor::White => self.white_bitmap = (self.white_bitmap & !from_b) | to_b,
            PieceColor::Black => self.black_bitmap = (self.black_bitmap & !from_b) | to_b,
        }
        proof {
            let board1 = self.live_pieces@;
            assert(board1 == relocate(board0, piece, to));
            lemma_color_mask_bits(board0, PieceColor::White, 64);
            lemma_color_mask_bits(board0, PieceColor::Black, 64);
            lemma_occupancy_ext(board1, PieceColor::White, self.white_bitmap);
            lemma_occupancy_ext(board1, PieceColor::Black, self.black_bitmap);
        }
    }

    /// The pieces of colour `c` attack the king of the other side.
    fn gives_check_now(&self, c: PieceColor) -> (r: bool)
        requires
            self.wf(),
        ensures
            r == gives_check(self@, c),
    {
        let ghost v = self@;
        let (own, other) = self.masks(c);
        let king = match find_king(&self.live_pieces, c.opposite()) {
            Some(k) => k,
            None => {
                return false;
            },
        };
        proof {
            lemma_first_king(v.board, opponent(c), 0);
        }
        let king_bitmap: u64 = 1u64 << (king as u64);
        let mut j: usize = 0;
        while j < 64
            invariant
                self.wf(),
                v == self@,
                j <= 64,
                own == occupancy(v.board, c),
                other == occupancy(v.board, opponent(c)),
                first_king(v.board, opponent(c), 0) == Some(king as int),
                king < 64,
                king_bitmap == single(king as int),
                forall|k: int| 0 <= k < j ==> !checking_piece(v, c, k),
            decreases 64 - j,
        {
            match self.live_pieces[j] {
                Some(q) => {
                    if q.color == c {
                        let attacks = pseudo_moves(&self.live_pieces, self.last_moved_from, self.last_moved_to, &q, own, other);
                        proof {
                            lemma_and_single(attacks, king as int);
                        }
                        if attacks & king_bitmap != 0 {
                            assert(checking_piece(v, c, j as int));
                            return true;
                        }
                    }
                },
                None => {},
            }
            j = j + 1;
        }
        false
    }

    /// Some piece of colour `c` has a legal move.
    fn any_legal_move(&self, c: PieceColor) -> (r: bool)
        requires
            self.wf(),
        ensures
            r == has_legal_move(self@, c),
    {
        let ghost v = self@;
        let mut j: usize = 0;
        while j < 64
            invariant
                self.wf(),
                v == self@,
                j <= 64,
                forall|k: int| 0 <= k < j ==> !can_move(v, c, k),
            decreases 64 - j,
        {
            match self.live_pieces[j] {
                Some(q) => {
                    if q.color == c {
                        let m = self.legal_moves(&q);
                        proof {
                            lemma_nonzero_iff(m);
                            if exists|t: int| legal_reaches(v, q, t) {
                                let t = choose|t: int| legal_reaches(v, q, t);
                                assert(bit(m, t));
                            }
                        }
                        if m != 0 {
                            assert(can_move(v, c, j as int));
                            return true;
                        }
                    }
                },
                None => {},
            }
            j = j + 1;
        }
        false
    }

    /// At most three pieces remain, each a king, bishop or knight.
    fn material_insufficient(&self) -> (r: bool)
        requires
            self.wf(),
        ensures
            r == insufficient_material(self@.board),
    {
        let ghost board = self@.board;
        let mut count: usize = 0;
        let mut minor = true;
        let mut i: usize = 0;
        while i < 64
            invariant
                self.wf(),
                board == self@.board,
                i <= 64,
                count == piece_count(board, i as int),
                count <= i,
                minor == forall|j: int| 0 <= j < i && #[trigger] board[j] is Some ==> minor_or_king(board[j]->0.piece_type),
            decreases 64 - i,
        {
            match self.live_pieces[i] {
                Some(p) => {
                    count = count + 1;
                    if !(p.piece_type == PieceType::King || p.piece_type == PieceType::Bishop || p.piece_type == PieceType::Knight) {
                        minor = false;
                    }
                },
                None => {},
            }
            i = i + 1;
        }
        count <= 3 && minor
    }

    /// Counts one more occurrence of `key` and returns its count.
    fn record_position(&mut self, key: BoardValue) -> (r: u32)
        requires
            old(self).wf(),
        ensures
            final(self).wf(),
            final(self)@ == (GameView { history: record(old(self)@.history, key), ..old(self)@ }),
            r == occurrences(record(old(self)@.history, key), key),
    {
        let ghost h = self.previous_states@;
        let n = self.previous_states.len();
        let mut i: usize = 0;
        while i < n
            invariant
                self.wf(),
                self@ == old(self)@,
                h == self.previous_states@,
                n == h.len(),
                i <= n,
                forall|j: int| 0 <= j < i ==> h[j].0 != key,
            decreases n - i,
        {
            let entry = self.previous_states[i];
            if entry.0 == key {
                let c = entry.1.saturating_add(1);
                self.previous_states.set(i, (key, c));
                proof {
                    let k = choose|k: int| 0 <= k < h.len() && h[k].0 == key;
                    assert(k == i);
                    let h2 = self.previous_states@;
                    assert(h2 == record(h, key));
                    assert(h2[i as int].0 == key);
                    assert(recorded(h2, key));
                    let k2 = choose|k: int| 0 <= k < h2.len() && h2[k].0 == key;
                    assert(k2 == i);
                }
                return c;
            }
            i = i + 1;
        }
        self.previous_states.push((key, 1));
        proof {
            let h2 = self.previous_states@;
            assert(!recorded(h, key));
            assert(h2 == record(h, key));
            assert(h2[h.len() as int].0 == key);
            let k2 = choose|k: int| 0 <= k < h2.len() && h2[k].0 == key;
            assert(k2 == h.len());
        }
        1
    }

    /// Completes a move by the side to move: check, the draw rules, the move counter,
    /// the turn, then mate or stalemate. A finished game keeps its result.
    fn post_move(&mut self)
        requires
            old(self).wf(),
        ensures
            final(self).wf(),
            final(self)@ == finish_move(old(self)@),
    {
        let ghost v = self@;
        let check = self.gives_check_now(self.turn);
        let mut drawn = self.fifty_move_rule >= 100;
        let key = BoardValue::encode(&self.live_pieces, self.last_moved_from, self.last_moved_to);
        let count = self.record_position(key);
        if count >= 3 {
            drawn = true;
        }
        if self.material_insufficient() {
            drawn = true;
        }
        self.check = check;
        if self.turn == PieceColor::Black {
            self.fullmoves = self.fullmoves.saturating_add(1);
        }
        let mover = self.turn;
        self.turn = mover.opposite();
        let outcome = if !self.any_legal_move(self.turn) {
            if check {
                match mover {
                    PieceColor::White => ChessResult::WhiteWon,
                    PieceColor::Black => ChessResult::BlackWon,
                }
            } else {
                ChessResult::Draw
            }
        } else if drawn {
            ChessResult::Draw
        } else {
            ChessResult::Ongoing
        };
        if self.result == ChessResult::Ongoing {
            self.result = outcome;
        }
    }

    /// The half-move clock and the captures of a move of `piece` to `to`.
    fn take(&mut self, piece: Piece, to: Square)
        requires
            old(self).wf(),
            piece.pos.on_board(),
            old(self)@.board[piece.pos.index()] == Some(piece),
            to.on_board(),
            to != piece.pos,
        ensures
            final(self).wf(),
            final(self)@ == take_step(old(self)@, piece, to),
            final(self)@.board[piece.pos.index()] == Some(piece),
            final(self)@.board[to.index()] is None,
    {
        let ghost v0 = self@;
        let pos_bitmap = to.to_bitmap();
        self.fifty_move_rule = self.fifty_move_rule.saturating_add(1);
        self.capture = false;
        proof {
            lemma_color_mask_bits(v0.board, PieceColor::White, 64);
            lemma_color_mask_bits(v0.board, PieceColor::Black, 64);
            lemma_and_single(self.black_bitmap | self.white_bitmap, to.index());
        }
        if (self.black_bitmap | self.white_bitmap) & pos_bitmap != 0 {
            self.capture(to);
            self.fifty_move_rule = 0;
            self.capture = true;
        }
        if piece.piece_type == PieceType::Pawn {
            self.fifty_move_rule = 0;
            if piece.pos.x != to.x && !self.capture {
                let direction = piece.get_direction();
                self.capture(to.moved(0, -direction));
                self.capture = true;
            }
        }
    }

    /// Moves castling's rook when the king `piece` castles to `to`.
    fn castle(&mut self, piece: Piece, to: Square)
        requires
            old(self).wf(),
            piece.pos.on_board(),
            old(self)@.board[piece.pos.index()] == Some(piece),
            to.on_board(),
            to != piece.pos,
            old(self)@.board[to.index()] is None,
        ensures
            final(self).wf(),
            final(self)@ == castle_step(old(self)@, piece, to),
            final(self)@.board[piece.pos.index()] == Some(piece),
            final(self)@.board[to.index()] is None,
    {
        if piece.piece_type == PieceType::King && !piece.has_moved {
            let long = to == piece.pos.moved(-2, 0);
            let short = to == piece.pos.moved(2, 0);
            if long || short {
                let corner = Square { x: if long { 0 } else { 7 }, y: piece.pos.y };
                let dest = if long { to.moved(1, 0) } else { to.moved(-1, 0) };
                match piece_on(&self.live_pieces, corner) {
                    Some(rook) => {
                        if rook.piece_type == PieceType::Rook && rook.color == piece.color && dest.x >= 0
                            && dest.x < 8 && piece_on(&self.live_pieces, dest).is_none() {
                            self.relocate(rook, dest);
                        }
                    },
                    None => {},
                }
            }
        }
    }

    /// Moves `piece` to `to` with whatever the move entails (a capture, en passant,
    /// castling's rook, a pending promotion) and, unless a promotion is pending, its
    /// bookkeeping. Legality is not checked. Fails when `to` is off the board or a
    /// promotion is pending.
    fn force_move(&mut self, piece: Piece, to: Square) -> (r: bool)
        requires
            old(self).wf(),
            piece.pos.on_board(),
            old(self)@.board[piece.pos.index()] == Some(piece),
            to != piece.pos,
        ensures
            final(self).wf(),
            r == (to.on_board() && !old(self)@.promotion),
            r ==> final(self)@ == move_done(old(self)@, piece, to),
            !r ==> final(self)@ == old(self)@,
    {
        if to.x < 0 || to.x > 7 || to.y < 0 || to.y > 7 || self.promotion {
            return false;
        }
        let ghost v0 = self@;
        self.take(piece, to);
        self.castle(piece, to);
        if piece.piece_type == PieceType::Pawn && to.y == match piece.color {
            PieceColor::White => 7,
            PieceColor::Black => 0,
        } {
            self.promotion = true;
        }
        self.relocate(piece, to);
        self.last_moved_from = piece.pos;
        self.last_moved_to = to;
        assert(self@ == apply_move(v0, piece, to));
        if !self.promotion {
            self.post_move();
        }
        true
    }

    /// Makes the move from `from` to `to` if it is legal for the side to move and no
    /// promotion is pending; reports whether it was made.
    pub fn do_move(&mut self, from: &Square, to: &Square) -> (r: bool)
        requires
            old(self).wf(),
        ensures
            final(self).wf(),
            r == (!old(self)@.promotion && to.on_board() && legal_from(old(self)@, *from, to.index())),
            r ==> final(self)@ == move_done(old(self)@, piece_at(old(self)@.board, *from)->0, *to),
            !r ==> final(self)@ == old(self)@,
    {
        let piece = match piece_on(&self.live_pieces, *from) {
            Some(p) => p,
            None => {
                return false;
            },
        };
        if piece.color != self.turn {
            return false;
        }
        if self.promotion {
            return false;
        }
        let moves = self.legal_moves(&piece);
        let to_bitmap = to.to_bitmap();
        proof {
            if to.on_board() {
                lemma_and_single(moves, to.index());
            } else {
                lemma_nonzero_iff(moves & to_bitmap);
            }
        }
        if moves & to_bitmap != 0 {
            proof {
                lemma_own_square_not_legal(self@, piece);
            }
            self.force_move(piece, *to)
        } else {
            false
        }
    }

    /// Turns the pawn that reached the last rank into a piece of kind `class` and
    /// completes its move; fails when no promotion is pending or `class` is a king or a
    /// pawn.
    pub fn pawn_promotion(&mut self, class: PieceType) -> (r: bool)
        requires
            old(self).wf(),
        ensures
            final(self).wf(),
            r == (class != PieceType::King && class != PieceType::Pawn && old(self)@.promotion
                && piece_at(old(self)@.board, old(self)@.last_to) is Some),
            r ==> final(self)@ == finish_move(promote(old(self)@, class)),
            !r ==> final(self)@ == old(self)@,
    {
        if class == PieceType::King || class == PieceType::Pawn || !self.promotion {
            return false;
        }
        match piece_on(&self.live_pieces, self.last_moved_to) {
            Some(piece) => {
                let ghost board0 = self.live_pieces@;
                let i: usize = (self.last_moved_to.y * 8 + self.last_moved_to.x) as usize;
                self.live_pieces.set(i, Some(Piece { piece_type: class, ..piece }));
                self.promotion = false;
                proof {
                    let board1 = self.live_pieces@;
                    lemma_color_mask_bits(board0, PieceColor::White, 64);
                    lemma_color_mask_bits(board0, PieceColor::Black, 64);
                    lemma_occupancy_ext(board1, PieceColor::White, self.white_bitmap);
                    lemma_occupancy_ext(board1, PieceColor::Black, self.black_bitmap);
                }
                self.post_move();
                true
            },
            None => false,
        }
    }

    /// Ends an ongoing game in a draw.
    pub fn declare_draw(&mut self)
        requires
            old(self).wf(),
        ensures
            final(self).wf(),
            final(self)@ == (GameView {
                result: if old(self)@.result == ChessResult::Ongoing { ChessResult::Draw } else { old(self)@.result },
                ..old(self)@
            }),
    {
        if self.result == ChessResult::Ongoing {
            self.result = ChessResult::Draw;
        }
    }

    /// Ends an ongoing game with `color` as the winner.
    pub fn declare_win(&mut self, color: PieceColor)
        requires
            old(self).wf(),
        ensures
            final(self).wf(),
            final(self)@ == (GameView {
                result: if old(self)@.result == ChessResult::Ongoing { winner(color) } else { old(self)@.result },
                ..old(self)@
            }),
    {
        if self.result == ChessResult::Ongoing {
            self.result = match color {
                PieceColor::White => ChessResult::WhiteWon,
                PieceColor::Black => ChessResult::BlackWon,
            };
        }
    }

    /// The game that a FEN text describes; see `fen_game`.
    pub fn from_fen(fen: &String) -> (r: Game)
        ensures
            r.wf(),
            r@ == fen_game(fen@),
    {
        let fields = split_fields(fen.as_str());
        if fields.len() < 1 {
            return Game::new();
        }
        let ghost f = fen_fields(fen@);
        let mut board = parse_placement(&fields[0]);
        let black_to_move = fields.len() > 1 && fields[1].len() == 1 && fields[1][0] == 'b';
        assert(black_to_move == (field_or(f, 1, seq!['w']) == seq!['b'])) by {
            if fields.len() > 1 && fields[1].len() == 1 {
                assert(fields@[1]@ =~= seq![fields@[1]@[0]]);
            }
            if fields.len() <= 1 {
                assert(seq!['w'] != seq!['b']) by {
                    assert(seq!['w'][0] != seq!['b'][0]);
                }
            }
        }
        let mover = if black_to_move { PieceColor::White } else { PieceColor::Black };
        if fields.len() > 2 {
            apply_castling(&mut board, &fields[2]);
        } else {
            let all = vec!['K', 'Q', 'k', 'q'];
            assert(all@ =~= seq!['K', 'Q', 'k', 'q']);
            apply_castling(&mut board, &all);
        }
        let none = Square { x: -1, y: -1 };
        let has_ep = fields.len() > 3 && !(fields[3].len() == 1 && fields[3][0] == '-');
        assert(has_ep == (field_or(f, 3, seq!['-']) != seq!['-'])) by {
            if fields.len() > 3 && fields[3].len() == 1 {
                assert(fields@[3]@ =~= seq![fields@[3]@[0]]);
            }
        }
        let (last_from, last_to) = if has_ep {
            let target = field_square(&fields[3]);
            let d = mover_direction(mover);
            (target.moved(0, -d), target.moved(0, d))
        } else {
            (none, none)
        };
        let halfmoves: u32 = if fields.len() > 4 {
            match parse_number(&fields[4]) {
                Some(n) => n,
                None => 0,
            }
        } else {
            proof {
                lemma_parse_small(seq!['0'], 0);
            }
            0
        };
        let mut fullmoves: u32 = if fields.len() > 5 {
            match parse_number(&fields[5]) {
                Some(n) => n,
                None => 1,
            }
        } else {
            proof {
                lemma_parse_small(seq!['1'], 1);
            }
            1
        };
        if mover == PieceColor::Black && fullmoves > 0 {
            fullmoves = fullmoves - 1;
        }
        let white_bitmap = make_color_bitmap(&board, PieceColor::White);
        let black_bitmap = make_color_bitmap(&board, PieceColor::Black);
        let mut game = Game {
            live_pieces: board,
            fifty_move_rule: halfmoves,
            previous_states: Vec::new(),
            white_bitmap,
            black_bitmap,
            turn: mover,
            result: ChessResult::Ongoing,
            last_moved_from: last_from,
            last_moved_to: last_to,
            capture: false,
            check: false,
            promotion: false,
            white_captured_pieces: Vec::new(),
            black_captured_pieces: Vec::new(),
            fullmoves,
        };
        assert(game@ == fen_setup(f));
        game.post_move();
        game
    }

    /// Appends the en-passant field.
    fn push_en_passant(&self, s: &mut String)
        requires
            self.wf(),
        ensures
            final(s)@ == old(s)@ + en_passant_text(self@),
    {
        let mut pushed = false;
        match piece_on(&self.live_pieces, self.last_moved_to) {
            Some(pawn) => {
                let d = pawn.get_direction();
                if pawn.piece_type == PieceType::Pawn && self.last_moved_from.moved(0, 2 * d) == self.last_moved_to {
                    let t = self.last_moved_to.moved(0, -d);
                    if 0 <= t.x && t.x < 8 && 0 <= t.y && t.y < 8 {
                        push_char(s, ('a' as u8 + t.x as u8) as char);
                        push_char(s, ('1' as u8 + t.y as u8) as char);
                        pushed = true;
                    }
                }
            },
            None => {},
        }
        if !pushed {
            push_char(s, '-');
        }
        assert(s@ =~= old(s)@ + en_passant_text(self@));
    }

    /// The FEN text of the game; see `fen_text`.
    pub fn to_fen(&self) -> (r: String)
        requires
            self.wf(),
        ensures
            r@ == fen_text(self@),
    {
        let ghost v = self@;
        let mut s = String::new();
        push_placement(&mut s, &self.live_pieces);
        push_char(&mut s, ' ');
        push_char(&mut s, if self.turn == PieceColor::White { 'w' } else { 'b' });
        push_char(&mut s, ' ');
        let ghost a = s@;
        assert(a =~= ranks_from(v.board, 7) + seq![' ', if v.turn == PieceColor::White { 'w' } else { 'b' }, ' ']);
        push_castling(&mut s, &self.live_pieces);
        push_char(&mut s, ' ');
        let ghost b = s@;
        assert(b =~= a + castling_text(v.board) + seq![' ']);
        self.push_en_passant(&mut s);
        push_char(&mut s, ' ');
        let ghost c = s@;
        assert(c =~= b + en_passant_text(v) + seq![' ']);
        push_decimal(&mut s, self.fifty_move_rule);
        push_char(&mut s, ' ');
        let ghost d = s@;
        assert(d =~= c + decimal(v.halfmoves as nat) + seq![' ']);
        push_decimal(&mut s, self.fullmoves);
        assert(s@ =~= d + decimal(v.fullmoves as nat));
        assert(s@ =~= fen_text(v));
        s
    }

    /// The 64 squares of the board by index (`rank * 8 + file`), each with the piece on
    /// it, if any.
    pub fn get_board_state(&self) -> (r: &Vec<Option<Piece>>)
        ensures
            r@ == self@.board,
    {
        &self.live_pieces
    }
}

} // verus!
