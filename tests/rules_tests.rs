use chess::{ChessResult, Game, PieceColor, PieceType, Square};

const START: &str = "rnbqkbnr/pppppppp/8/8/8/8/PPPPPPPP/RNBQKBNR w KQkq - 0 1";

fn sq(s: &str) -> Square {
    Square::from(s)
}

fn fen(s: &str) -> Game {
    Game::from_fen(&s.to_string())
}

#[test]
fn start_position_fen() {
    assert_eq!(Game::new().to_fen(), START);
}

#[test]
fn fen_round_trips() {
    for f in [
        START,
        "rnbqkbnr/pppppppp/8/8/4P3/8/PPPP1PPP/RNBQKBNR b KQkq e3 0 1",
        "rnbqkbnr/ppp1pppp/8/3pP3/8/8/PPPP1PPP/RNBQKBNR w KQkq d6 0 3",
        "r3k2r/8/8/8/8/8/8/R3K2R b Kq - 12 40",
        "4k3/8/8/8/8/8/8/R3K3 w - - 99 60",
    ] {
        assert_eq!(fen(f).to_fen(), f);
    }
}

#[test]
fn fen_missing_fields_take_defaults() {
    let g = fen("rnbqkbnr/pppppppp/8/8/8/8/PPPPPPPP/RNBQKBNR");
    assert_eq!(g.to_fen(), START);
    assert!(g.turn == PieceColor::White);
}

#[test]
fn fen_empty_text_is_start() {
    assert_eq!(fen("   ").to_fen(), START);
}

#[test]
fn fen_bad_numbers_keep_defaults() {
    let g = fen("4k3/8/8/8/8/8/8/R3K3 b - - x y");
    assert_eq!(g.to_fen(), "4k3/8/8/8/8/8/8/R3K3 b - - 0 1");
}

#[test]
fn fullmove_counter_counts_black_moves() {
    let mut g = Game::new();
    assert_eq!(g.fullmoves, 1);
    assert!(g.do_move(&sq("E2"), &sq("E4")));
    assert_eq!(g.fullmoves, 1);
    assert!(g.do_move(&sq("E7"), &sq("E5")));
    assert_eq!(g.fullmoves, 2);
    assert_eq!(g.to_fen(), "rnbqkbnr/pppp1ppp/8/4p3/4P3/8/PPPP1PPP/RNBQKBNR w KQkq e6 0 2");
}

#[test]
fn square_notation_forms() {
    let s = Square::from("  e4");
    assert_eq!((s.x, s.y), (4, 3));
    let s = Square::from("h8");
    assert_eq!(s.to_notation(), "H8");
    let s = Square::from("z9");
    assert_eq!((s.x, s.y), (-1, -1));
    let s = Square::from("");
    assert_eq!((s.x, s.y), (-1, -1));
    let s = Square::from(-9);
    assert_eq!((s.x, s.y), (-1, -1));
}

#[test]
fn off_board_squares_have_empty_bitmap() {
    assert_eq!(Square { x: 8, y: 0 }.to_bitmap(), 0);
    assert_eq!(Square { x: 0, y: -1 }.to_bitmap(), 0);
    assert_eq!(Square { x: 7, y: 7 }.to_bitmap(), 1u64 << 63);
    let far = Square { x: 120, y: 0 }.moved(100, 0);
    assert_eq!(far.to_bitmap(), 0);
}

#[test]
fn moves_of_opening_knight() {
    let g = Game::new();
    let list = g.get_moves_list(&sq("G1"));
    let names: Vec<String> = list.iter().map(|s| s.to_notation()).collect();
    assert_eq!(names, vec!["F3".to_string(), "H3".to_string()]);
    assert_eq!(g.get_moves_bitmap(&sq("G1")), (1u64 << 21) | (1u64 << 23));
    // a piece of the side not to move, and an empty square
    assert_eq!(g.get_moves_bitmap(&sq("G8")), 0);
    assert_eq!(g.get_moves_bitmap(&sq("E4")), 0);
    assert!(g.get_moves_list(&sq("E4")).is_empty());
}

#[test]
fn pinned_piece_cannot_move() {
    // the white rook on e2 is pinned by the black rook on e8
    let g = fen("4r1k1/8/8/8/8/8/4R3/4K3 w - - 0 1");
    let m = g.get_moves_bitmap(&sq("E2"));
    assert_eq!(m, (1u64 << 20) | (1u64 << 28) | (1u64 << 36) | (1u64 << 44) | (1u64 << 52) | (1u64 << 60));
}

#[test]
fn castling_both_sides_when_free() {
    let g = fen("r3k2r/8/8/8/8/8/8/R3K2R w KQkq - 0 1");
    let m = g.get_moves_bitmap(&sq("E1"));
    assert!(m & sq("G1").to_bitmap() != 0);
    assert!(m & sq("C1").to_bitmap() != 0);
}

#[test]
fn castling_moves_the_rook() {
    let mut g = fen("r3k2r/8/8/8/8/8/8/R3K2R w KQkq - 0 1");
    assert!(g.do_move(&sq("E1"), &sq("G1")));
    assert_eq!(g.to_fen(), "r3k2r/8/8/8/8/8/8/R4RK1 b kq - 1 1");
    assert!(g.do_move(&sq("E8"), &sq("C8")));
    assert_eq!(g.to_fen(), "2kr3r/8/8/8/8/8/8/R4RK1 w - - 2 2");
}

#[test]
fn castling_refused_without_rights() {
    let g = fen("r3k2r/8/8/8/8/8/8/R3K2R w - - 0 1");
    let m = g.get_moves_bitmap(&sq("E1"));
    assert_eq!(m & (sq("G1").to_bitmap() | sq("C1").to_bitmap()), 0);
}

#[test]
fn castling_refused_when_blocked() {
    let g = fen("r3k2r/8/8/8/8/8/8/RN2K1NR w KQkq - 0 1");
    let m = g.get_moves_bitmap(&sq("E1"));
    assert_eq!(m & (sq("G1").to_bitmap() | sq("C1").to_bitmap()), 0);
}

#[test]
fn castling_refused_in_check() {
    let g = fen("r3k2r/8/8/8/8/8/4r3/R3K2R w KQkq - 0 1");
    assert!(g.check);
    let m = g.get_moves_bitmap(&sq("E1"));
    assert_eq!(m & (sq("G1").to_bitmap() | sq("C1").to_bitmap()), 0);
}

#[test]
fn castling_refused_through_attacked_square() {
    // f1 is attacked by the rook on f8; d1 and c1 are free
    let g = fen("r3kr2/8/8/8/8/8/8/R3K2R w KQq - 0 1");
    let m = g.get_moves_bitmap(&sq("E1"));
    assert_eq!(m & sq("G1").to_bitmap(), 0);
    assert!(m & sq("C1").to_bitmap() != 0);
}

#[test]
fn castling_refused_onto_attacked_square() {
    // g1 is attacked by the rook on g8
    let g = fen("r3k1r1/8/8/8/8/8/8/R3K2R w KQq - 0 1");
    let m = g.get_moves_bitmap(&sq("E1"));
    assert_eq!(m & sq("G1").to_bitmap(), 0);
}

#[test]
fn en_passant_only_right_after_the_advance() {
    let mut g = fen("4k3/8/8/8/1p6/8/P6P/4K3 w - - 0 1");
    assert!(g.do_move(&sq("A2"), &sq("A4")));
    assert!(g.get_moves_bitmap(&sq("B4")) & sq("A3").to_bitmap() != 0);
    // black lets the chance pass
    assert!(g.do_move(&sq("E8"), &sq("E7")));
    assert!(g.do_move(&sq("H2"), &sq("H3")));
    assert_eq!(g.get_moves_bitmap(&sq("B4")) & sq("A3").to_bitmap(), 0);
    assert!(!g.do_move(&sq("B4"), &sq("A3")));
}

#[test]
fn en_passant_from_fen_target() {
    let mut g = fen("4k3/8/8/8/Pp6/8/8/4K3 b - a3 0 1");
    assert!(g.do_move(&sq("B4"), &sq("A3")));
    assert!(g.capture);
    assert_eq!(g.to_fen(), "4k3/8/8/8/8/p7/8/4K3 w - - 0 2");
    assert_eq!(g.white_captured_pieces, vec![PieceType::Pawn]);
}

#[test]
fn promotion_waits_for_a_kind() {
    let mut g = fen("8/P7/8/8/8/8/7k/4K3 w - - 0 1");
    assert!(g.do_move(&sq("A7"), &sq("A8")));
    assert!(g.promotion);
    assert!(g.turn == PieceColor::White);
    assert!(!g.do_move(&sq("H2"), &sq("H1")));
    assert!(!g.pawn_promotion(PieceType::King));
    assert!(!g.pawn_promotion(PieceType::Pawn));
    assert!(g.pawn_promotion(PieceType::Queen));
    assert!(!g.promotion);
    assert!(g.turn == PieceColor::Black);
    assert_eq!(g.to_fen(), "Q7/8/8/8/8/8/7k/4K3 b - - 0 1");
    assert!(!g.pawn_promotion(PieceType::Rook));
}

#[test]
fn fifty_move_rule_draws() {
    let mut g = fen("4k3/8/8/8/8/8/8/R3K3 w - - 99 60");
    assert!(g.result == ChessResult::Ongoing);
    assert!(g.do_move(&sq("A1"), &sq("A2")));
    assert!(g.result == ChessResult::Draw);
}

#[test]
fn pawn_move_resets_the_clock() {
    let mut g = fen("4k3/8/8/8/8/8/P7/R3K3 w - - 99 60");
    assert!(g.do_move(&sq("A2"), &sq("A3")));
    assert!(g.result == ChessResult::Ongoing);
    assert_eq!(g.to_fen(), "4k3/8/8/8/8/P7/8/R3K3 b - - 0 60");
}

#[test]
fn threefold_repetition_draws() {
    let mut g = Game::new();
    for _ in 0..2 {
        assert!(g.result == ChessResult::Ongoing);
        assert!(g.do_move(&sq("G1"), &sq("F3")));
        assert!(g.do_move(&sq("G8"), &sq("F6")));
        assert!(g.do_move(&sq("F3"), &sq("G1")));
        assert!(g.do_move(&sq("F6"), &sq("G8")));
    }
    assert!(g.result == ChessResult::Draw);
}

#[test]
fn insufficient_material_draws() {
    let mut g = fen("4k3/8/8/8/8/8/3r4/4KB2 w - - 0 1");
    assert!(g.result == ChessResult::Ongoing);
    assert!(g.do_move(&sq("E1"), &sq("D2")));
    assert!(g.capture);
    assert!(g.result == ChessResult::Draw);
    assert_eq!(g.black_captured_pieces, vec![PieceType::Rook]);
}

#[test]
fn stalemate_draws() {
    let mut g = fen("7k/8/8/6Q1/8/8/8/4K3 w - - 0 1");
    assert!(g.do_move(&sq("G5"), &sq("G6")));
    assert!(g.result == ChessResult::Draw);
    assert!(!g.check);
}

#[test]
fn checkmate_wins() {
    let mut g = fen("7k/8/6K1/8/8/8/8/Q7 w - - 0 1");
    assert!(g.do_move(&sq("A1"), &sq("A8")));
    assert!(g.check);
    assert!(g.result == ChessResult::WhiteWon);
}

#[test]
fn result_is_kept_once_decided() {
    let mut g = Game::new();
    g.declare_draw();
    assert!(g.result == ChessResult::Draw);
    g.declare_win(PieceColor::White);
    assert!(g.result == ChessResult::Draw);
    let mut h = Game::new();
    h.declare_win(PieceColor::Black);
    assert!(h.result == ChessResult::BlackWon);
    h.declare_draw();
    assert!(h.result == ChessResult::BlackWon);
}

#[test]
fn wrong_side_and_illegal_moves_fail() {
    let mut g = Game::new();
    assert!(!g.do_move(&sq("E7"), &sq("E5")));
    assert!(!g.do_move(&sq("E2"), &sq("E5")));
    assert!(!g.do_move(&sq("E3"), &sq("E4")));
    assert!(!g.do_move(&sq("E2"), &Square { x: 4, y: 9 }));
    assert_eq!(g.to_fen(), START);
}

#[test]
fn board_state_lists_pieces_by_index() {
    let g = Game::new();
    let board = g.get_board_state();
    assert_eq!(board.len(), 64);
    let king = board[4].unwrap();
    assert!(king.piece_type == PieceType::King && king.color == PieceColor::White);
    assert!(board[20].is_none());
    assert_eq!(board.iter().filter(|p| p.is_some()).count(), 32);
}

#[test]
fn king_cannot_step_into_check() {
    let g = fen("4k3/8/8/8/8/8/8/r3K3 w - - 0 1");
    assert!(g.check);
    let m = g.get_moves_bitmap(&sq("E1"));
    assert_eq!(m, sq("D2").to_bitmap() | sq("E2").to_bitmap() | sq("F2").to_bitmap());
}

#[test]
fn every_piece_stands_on_its_own_square() {
    let mut g = Game::new();
    for (f, t) in [("E2", "E4"), ("D7", "D5"), ("E4", "D5"), ("D8", "D5"), ("G1", "F3"), ("D5", "E4")] {
        assert!(g.do_move(&sq(f), &sq(t)));
    }
    let board = g.get_board_state();
    let mut count = 0;
    for (i, p) in board.iter().enumerate() {
        if let Some(p) = p {
            assert_eq!(p.pos.to_index() as usize, i);
            count += 1;
        }
    }
    assert_eq!(count, 30);
    assert!(g.check);
}

#[test]
fn two_bishops_are_not_insufficient_material() {
    let mut g = fen("4k3/8/8/8/8/8/8/2B1KB2 w - - 0 1");
    assert!(g.do_move(&sq("C1"), &sq("D2")));
    assert!(g.result == ChessResult::Ongoing);
}

#[test]
fn en_passant_square_in_fen_after_double_step() {
    let mut g = Game::new();
    assert!(g.do_move(&sq("E2"), &sq("E4")));
    assert_eq!(g.to_fen(), "rnbqkbnr/pppppppp/8/8/4P3/8/PPPP1PPP/RNBQKBNR b KQkq e3 0 1");
    assert!(g.do_move(&sq("G8"), &sq("F6")));
    assert_eq!(g.to_fen(), "rnbqkb1r/pppppppp/5n2/8/4P3/8/PPPP1PPP/RNBQKBNR w KQkq - 1 2");
}
