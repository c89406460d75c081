use viridithas::board::Board;
use viridithas::chessmove::{Move, MoveFlags};
use viridithas::outcome::{DrawType, GameOutcome};
use viridithas::squareset::SquareSet;
use viridithas::types::{Piece, PieceType, Square};
use viridithas::zobrist::{hash_ep, hash_piece, hash_side};

#[test]
fn read_fen_validity() {
    let mut board_1 = Board::new();
    board_1.set_from_fen(Board::STARTING_FEN).expect("setfen failed.");
    assert!(board_1.check_validity());

    let board_2 = Board::from_fen(Board::STARTING_FEN).expect("setfen failed.");
    assert!(board_2.check_validity());

    assert_eq!(board_1, board_2);
}

#[test]
fn game_end_states() {
    let mut fiftymove_draw =
        Board::from_fen("rnbqkb1r/pppppppp/5n2/8/3N4/8/PPPPPPPP/RNBQKB1R b KQkq - 100 2").unwrap();
    assert_eq!(fiftymove_draw.outcome(), GameOutcome::Draw(DrawType::FiftyMoves));
    let mut draw_repetition = Board::default();
    assert_eq!(draw_repetition.outcome(), GameOutcome::Ongoing);
    draw_repetition.make_move_simple(Move::new(Square::G1, Square::F3));
    draw_repetition.make_move_simple(Move::new(Square::B8, Square::C6));
    assert_eq!(draw_repetition.outcome(), GameOutcome::Ongoing);
    draw_repetition.make_move_simple(Move::new(Square::F3, Square::G1));
    draw_repetition.make_move_simple(Move::new(Square::C6, Square::B8));
    assert_eq!(draw_repetition.outcome(), GameOutcome::Ongoing);
    draw_repetition.make_move_simple(Move::new(Square::G1, Square::F3));
    draw_repetition.make_move_simple(Move::new(Square::B8, Square::C6));
    assert_eq!(draw_repetition.outcome(), GameOutcome::Ongoing);
    draw_repetition.make_move_simple(Move::new(Square::F3, Square::G1));
    draw_repetition.make_move_simple(Move::new(Square::C6, Square::B8));
    assert_eq!(draw_repetition.outcome(), GameOutcome::Draw(DrawType::Repetition));
    let mut stalemate = Board::from_fen("7k/8/6Q1/8/8/8/8/K7 b - - 0 1").unwrap();
    assert_eq!(stalemate.outcome(), GameOutcome::Draw(DrawType::Stalemate));
    let mut insufficient_material_bare_kings =
        Board::from_fen("8/8/5k2/8/8/2K5/8/8 b - - 0 1").unwrap();
    assert_eq!(
        insufficient_material_bare_kings.outcome(),
        GameOutcome::Draw(DrawType::InsufficientMaterial)
    );
    let mut insufficient_material_knights =
        Board::from_fen("8/8/5k2/8/2N5/2K2N2/8/8 b - - 0 1").unwrap();
    assert_eq!(insufficient_material_knights.outcome(), GameOutcome::Ongoing);
}

#[test]
fn fen_round_trip() {
    let fens = [
        "rnbqkbnr/pppppppp/8/8/8/8/PPPPPPPP/RNBQKBNR w KQkq - 0 1",
        "r3k2r/p1ppqpb1/bn2pnp1/3PN3/1p2P3/2N2Q1p/PPPBBPPP/R3K2R w KQkq - 0 1",
        "4k3/8/8/8/8/8/8/4K2R w K - 0 1",
        "4k3/8/8/8/8/8/8/R3K3 w Q - 0 1",
        "4k2r/8/8/8/8/8/8/4K3 w k - 0 1",
        "r3k3/8/8/8/8/8/8/4K3 w q - 0 1",
        "4k3/8/8/8/8/8/8/R3K2R w KQ - 0 1",
        "r3k2r/8/8/8/8/8/8/4K3 w kq - 0 1",
        "8/8/8/8/8/8/6k1/4K2R w K - 0 1",
        "8/8/8/8/8/8/1k6/R3K3 w Q - 0 1",
        "4k2r/6K1/8/8/8/8/8/8 w k - 0 1",
        "r3k3/1K6/8/8/8/8/8/8 w q - 0 1",
        "r3k2r/8/8/8/8/8/8/R3K2R w KQkq - 0 1",
        "r3k2r/8/8/8/8/8/8/1R2K2R w Kkq - 0 1",
        "r3k2r/8/8/8/8/8/8/2R1K2R w Kkq - 0 1",
        "r3k2r/8/8/8/8/8/8/R3K1R1 w Qkq - 0 1",
        "1r2k2r/8/8/8/8/8/8/R3K2R w KQk - 0 1",
        "2r1k2r/8/8/8/8/8/8/R3K2R w KQk - 0 1",
        "r3k1r1/8/8/8/8/8/8/R3K2R w KQq - 0 1",
        "4k3/8/8/8/8/8/8/4K2R b K - 0 1",
        "r3k2r/8/8/8/8/8/8/R3K2R b KQkq - 0 1",
        "8/1n4N1/2k5/8/8/5K2/1N4n1/8 w - - 0 1",
        "8/1k6/8/5N2/8/4n3/8/2K5 w - - 0 1",
        "8/8/4k3/3Nn3/3nN3/4K3/8/8 w - - 0 1",
        "K7/8/2n5/1n6/8/8/8/k6N w - - 0 1",
        "k7/8/2N5/1N6/8/8/8/K6n w - - 0 1",
        "B6b/8/8/8/2K5/4k3/8/b6B w - - 0 1",
        "8/8/1B6/7b/7k/8/2B1b3/7K w - - 0 1",
        "k7/B7/1B6/1B6/8/8/8/K6b w - - 0 1",
        "K7/b7/1b6/1b6/8/8/8/k6B w - - 0 1",
        "7k/RR6/8/8/8/8/rr6/7K w - - 0 1",
        "R6r/8/8/2K5/5k2/8/8/r6R w - - 0 1",
        "6kq/8/8/8/8/8/8/7K w - - 0 1",
        "K7/8/8/3Q4/4q3/8/8/7k w - - 0 1",
        "6qk/8/8/8/8/8/8/7K b - - 0 1",
        "8/8/8/8/8/K7/P7/k7 w - - 0 1",
        "8/8/8/8/8/7K/7P/7k w - - 0 1",
        "K7/p7/k7/8/8/8/8/8 w - - 0 1",
        "7K/7p/7k/8/8/8/8/8 w - - 0 1",
        "8/2k1p3/3pP3/3P2K1/8/8/8/8 w - - 0 1",
        "8/8/8/8/8/4k3/4P3/4K3 w - - 0 1",
        "4k3/4p3/4K3/8/8/8/8/8 b - - 0 1",
        "8/8/7k/7p/7P/7K/8/8 w - - 0 1",
        "8/8/k7/p7/P7/K7/8/8 w - - 0 1",
        "8/8/3k4/3p4/3P4/3K4/8/8 w - - 0 1",
        "8/3k4/3p4/8/3P4/3K4/8/8 w - - 0 1",
        "8/8/3k4/3p4/8/3P4/3K4/8 w - - 0 1",
        "k7/8/3p4/8/3P4/8/8/7K w - - 0 1",
        "7k/3p4/8/8/3P4/8/8/K7 w - - 0 1",
        "7k/8/8/3p4/8/8/3P4/K7 w - - 0 1",
        "k7/8/8/7p/6P1/8/8/K7 w - - 0 1",
        "k7/8/7p/8/8/6P1/8/K7 w - - 0 1",
        "k7/8/8/6p1/7P/8/8/K7 w - - 0 1",
        "k7/8/6p1/8/8/7P/8/K7 w - - 0 1",
        "k7/8/8/3p4/4p3/8/8/7K w - - 0 1",
        "k7/8/3p4/8/8/4P3/8/7K w - - 0 1",
        "7k/3p4/8/8/3P4/8/8/K7 b - - 0 1",
        "k7/6p1/8/8/8/8/7P/K7 w - - 0 1",
        "k7/7p/8/8/8/8/6P1/K7 w - - 0 1",
        "3k4/3pp3/8/8/8/8/3PP3/3K4 w - - 0 1",
        "8/Pk6/8/8/8/8/6Kp/8 w - - 0 1",
        "n1n5/1Pk5/8/8/8/8/5Kp1/5N1N w - - 0 1",
        "8/PPPk4/8/8/8/8/4Kppp/8 w - - 0 1",
        "n1n5/PPPk4/8/8/8/8/4Kppp/5N1N w - - 0 1",
        "8/Pk6/8/8/8/8/6Kp/8 b - - 0 1",
        "n1n5/PPPk4/8/8/8/8/4Kppp/5N1N b - - 0 1",
        "rnbqkbnr/ppp1p1pp/8/3pPp2/8/8/PPPP1PPP/RNBQKBNR w KQkq f6 0 3",
        "rnbqkbnr/pppppppp/8/8/4P3/8/PPPP1PPP/RNBQKBNR b KQkq e3 0 1",
        "8/2p5/3p4/KP5r/1R3p1k/8/4P1P1/8 w - - 10 45",
        "r4rk1/1pp1qppp/p1np1n2/2b1p1B1/2B1P1b1/P1NP1N2/1PP1QPPP/R4RK1 w - - 99 120",
    ];
    let mut board = Board::new();
    for fen in fens {
        board.set_from_fen(fen).expect("setfen failed.");
        let fen_2 = board.fen();
        assert_eq!(fen, fen_2);
    }
}

#[test]
fn scharnagl_backrank_works() {
    let normal_chess_arrangement = Board::get_scharnagl_backrank(518);
    assert_eq!(
        normal_chess_arrangement,
        [
            PieceType::Rook,
            PieceType::Knight,
            PieceType::Bishop,
            PieceType::Queen,
            PieceType::King,
            PieceType::Bishop,
            PieceType::Knight,
            PieceType::Rook
        ]
    );
}

#[test]
fn scharnagl_full_works() {
    let normal = Board::from_fen(Board::STARTING_FEN).unwrap();
    let frc = Board::from_frc_idx(518);
    let dfrc = Board::from_dfrc_idx(518 * 960 + 518);
    assert_eq!(normal, frc);
    assert_eq!(normal, dfrc);
}

#[test]
fn castling_pseudolegality() {
    let board =
        Board::from_fen("1r2k2r/2pb1pp1/2pp4/p1n5/2P4p/PP2P2P/1qB2PP1/R2QKN1R w KQk - 0 20")
            .unwrap();
    let kingside_castle = Move::new_with_flags(Square::E1, Square::H1, MoveFlags::Castle);
    assert!(!board.is_pseudo_legal(kingside_castle));
}

#[test]
fn threat_generation_white() {
    let board = Board::from_fen("3k4/8/8/5N2/8/1P6/8/K1Q1RB2 b - - 0 1").unwrap();
    assert_eq!(board.threats().all, SquareSet::from_inner(0x1454_9d56_bddd_5f3f));
}

#[test]
fn threat_generation_black() {
    let board = Board::from_fen("2br1q1k/8/6p1/8/2n5/8/8/4K3 w - - 0 1").unwrap();
    assert_eq!(board.threats().all, SquareSet::from_inner(0xfcfa_bbbd_6ab9_2a28));
}

#[test]
fn key_after_works_for_simple_moves() {
    let mut board = Board::default();
    let mv = Move::new(Square::E2, Square::E3);
    let key = board.key_after(mv);
    board.make_move_simple(mv);
    assert_eq!(board.zobrist_key(), key);
}

#[test]
fn key_after_works_for_captures() {
    let mut board =
        Board::from_fen("r1bqkb1r/ppp2ppp/2n5/3np1N1/2B5/8/PPPP1PPP/RNBQK2R w KQkq - 0 6").unwrap();
    // Nxf7!!
    let mv = Move::new(Square::G5, Square::F7);
    let key = board.key_after(mv);
    board.make_move_simple(mv);
    assert_eq!(board.zobrist_key(), key);
}

#[test]
fn key_after_works_for_nullmove() {
    let mut board = Board::default();
    let key = board.key_after_null_move();
    board.make_nullmove();
    assert_eq!(board.zobrist_key(), key);
}

#[test]
fn ep_square_edge_case() {
    let mut not_ep_capturable =
        Board::from_fen("rnbqkbnr/ppppp1pp/8/5p2/4P3/5N2/PPPP1PPP/RNBQKB1R b KQkq - 1 2").unwrap();
    let mut ep_capturable =
        Board::from_fen("rnbqkbnr/ppppp1pp/8/4Pp2/8/8/PPPP1PPP/RNBQKBNR b KQkq - 0 2").unwrap();
    let d5 = Move::new(Square::D7, Square::D5);
    let mut not_ep_capturable_key = not_ep_capturable.zobrist_key();
    let mut ep_capturable_key = ep_capturable.zobrist_key();
    hash_side(&mut not_ep_capturable_key);
    hash_side(&mut ep_capturable_key);
    hash_piece(&mut not_ep_capturable_key, Piece::BP, Square::D7);
    hash_piece(&mut ep_capturable_key, Piece::BP, Square::D7);
    hash_piece(&mut not_ep_capturable_key, Piece::BP, Square::D5);
    hash_piece(&mut ep_capturable_key, Piece::BP, Square::D5);

    hash_ep(&mut ep_capturable_key, Square::D6);

    assert!(not_ep_capturable.make_move_simple(d5));
    assert!(ep_capturable.make_move_simple(d5));

    assert_eq!(not_ep_capturable.ep_sq(), None);
    assert_eq!(ep_capturable.ep_sq(), Some(Square::D6));

    assert_eq!(not_ep_capturable.zobrist_key(), not_ep_capturable_key);
    assert_eq!(ep_capturable.zobrist_key(), ep_capturable_key);
}

#[test]
fn other_ep_edge_case() {
    let mut board =
        Board::from_fen("rnbqkbnr/1ppppppp/p7/P7/8/8/1PPPPPPP/RNBQKBNR b KQkq - 0 2").unwrap();
    assert!(board.make_move_simple(Move::new(Square::B7, Square::B5)));
    assert_eq!(board.ep_sq(), Some(Square::B6));
}
