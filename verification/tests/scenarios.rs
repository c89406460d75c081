use viridithas::board::Board;
use viridithas::chessmove::{Move, MoveFlags};
use viridithas::perft::synced_perft;
use viridithas::types::{Colour, Piece, PieceType, Square};

#[test]
fn startpos_perft_five() {
    let mut pos = Board::default();
    assert_eq!(synced_perft(&mut pos, 5), 4_865_609);
}

#[test]
fn kiwipete_perft_four() {
    let mut pos =
        Board::from_fen("r3k2r/p1ppqpb1/bn2pnp1/3PN3/1p2P3/2N2Q1p/PPPBBPPP/R3K2R w KQkq - 0 1")
            .unwrap();
    assert_eq!(synced_perft(&mut pos, 4), 4_085_603);
}

#[test]
fn no_ep_square_without_neighbour() {
    let mut pos = Board::default();
    let m = pos.parse_uci("e2e4").unwrap();
    assert!(pos.make_move_simple(m));
    assert_eq!(pos.ep_sq(), None);
    assert_eq!(pos.fen(), "rnbqkbnr/pppppppp/8/8/4P3/8/PPPP1PPP/RNBQKBNR b KQkq - 0 1");
}

#[test]
fn en_passant_capture_is_made() {
    let mut pos =
        Board::from_fen("rnbqkbnr/ppp1p1pp/8/3pPp2/8/8/PPPP1PPP/RNBQKBNR w KQkq f6 0 3").unwrap();
    let m = pos.parse_uci("e5f6").unwrap();
    assert!(m.is_ep());
    assert_eq!(m, Move::new_with_flags(Square::E5, Square::F6, MoveFlags::EnPassant));
    assert!(pos.make_move_simple(m));
    assert_eq!(pos.piece_at(Square::F5), None);
    assert_eq!(pos.piece_at(Square::F6), Some(Piece::WP));
    assert_eq!(pos.fifty_move_counter(), 0);
    assert!(pos.check_validity());
}

#[test]
fn orthodox_castling_is_read_as_king_takes_rook() {
    let pos = Board::from_fen("4k3/8/8/8/8/8/8/R3K2R w KQ - 0 1").unwrap();
    let short = pos.parse_uci("e1g1").unwrap();
    assert_eq!(short, Move::new_with_flags(Square::E1, Square::H1, MoveFlags::Castle));
    let long = pos.parse_uci("e1c1").unwrap();
    assert_eq!(long, Move::new_with_flags(Square::E1, Square::A1, MoveFlags::Castle));
}

#[test]
fn castling_moves_king_and_rook() {
    let mut pos = Board::from_fen("r3k2r/8/8/8/8/8/8/R3K2R w KQkq - 0 1").unwrap();
    let short = pos.parse_uci("e1g1").unwrap();
    assert!(pos.make_move_simple(short));
    assert_eq!(pos.piece_at(Square::G1), Some(Piece::WK));
    assert_eq!(pos.piece_at(Square::F1), Some(Piece::WR));
    assert_eq!(pos.piece_at(Square::E1), None);
    assert_eq!(pos.piece_at(Square::H1), None);
    assert_eq!(pos.fen(), "r3k2r/8/8/8/8/8/8/R4RK1 b kq - 1 1");
    let long = pos.parse_uci("e8c8").unwrap();
    assert!(pos.make_move_simple(long));
    assert_eq!(pos.fen(), "2kr3r/8/8/8/8/8/8/R4RK1 w - - 2 2");
    assert!(pos.check_validity());
    assert_eq!(short.history_to_square(), Square::G1);
    assert_eq!(long.history_to_square(), Square::C8);
}

#[test]
fn make_then_unmake_restores_everything() {
    let fens = [
        "r3k2r/p1ppqpb1/bn2pnp1/3PN3/1p2P3/2N2Q1p/PPPBBPPP/R3K2R w KQkq - 0 1",
        "rnbqkbnr/ppp1p1pp/8/3pPp2/8/8/PPPP1PPP/RNBQKBNR w KQkq f6 0 3",
        "n1n5/PPPk4/8/8/8/8/4Kppp/5N1N b - - 0 1",
    ];
    for fen in fens {
        let mut pos = Board::from_fen(fen).unwrap();
        let before = pos.clone();
        for m in pos.legal_moves() {
            assert!(pos.make_move_simple(m));
            assert!(pos.check_validity());
            assert_eq!(pos.all_keys().0, pos.generate_pos_keys().zobrist);
            assert_eq!(*pos.threats(), pos.generate_threats(pos.turn().flip()));
            pos.unmake_move_base();
            assert_eq!(pos, before);
        }
    }
}

#[test]
fn illegal_move_leaves_board_unchanged() {
    // the knight on e2 is pinned by the rook on e8.
    let mut pos = Board::from_fen("4r2k/8/8/8/8/8/4N3/4K3 w - - 0 1").unwrap();
    let before = pos.clone();
    let m = Move::new(Square::E2, Square::C3);
    assert!(pos.is_pseudo_legal(m));
    assert!(!pos.make_move_simple(m));
    assert_eq!(pos, before);
    // a move from an empty square cannot be carried out.
    assert!(!pos.make_move_simple(Move::new(Square::A1, Square::A2)));
    assert_eq!(pos, before);
    // a king cannot be captured.
    let mut odd = Board::from_fen("4k3/8/8/8/8/8/8/4K2R w K - 0 1").unwrap();
    let odd_before = odd.clone();
    assert!(!odd.make_move_simple(Move::new(Square::E1, Square::E8)));
    assert_eq!(odd, odd_before);
}

#[test]
fn null_move_round_trip() {
    let mut pos =
        Board::from_fen("rnbqkbnr/ppp1p1pp/8/3pPp2/8/8/PPPP1PPP/RNBQKBNR w KQkq f6 0 3").unwrap();
    let before = pos.clone();
    pos.make_nullmove();
    assert_eq!(pos.turn(), Colour::Black);
    assert_eq!(pos.ep_sq(), None);
    assert!(pos.last_move_was_nullmove());
    assert!(pos.check_validity());
    pos.unmake_nullmove();
    assert_eq!(pos, before);
    assert!(!pos.last_move_was_nullmove());
}

#[test]
fn castling_rights_follow_the_rules() {
    let mut pos = Board::from_fen("r3k2r/8/8/8/8/8/8/R3K2R w KQkq - 0 1").unwrap();
    // a rook that leaves its square loses its right.
    assert!(pos.make_move_simple(Move::new(Square::H1, Square::H2)));
    assert_eq!(pos.castling_rights().wk, None);
    assert_eq!(pos.castling_rights().wq, Some(Square::A1));
    // a king that moves loses both.
    assert!(pos.make_move_simple(Move::new(Square::E8, Square::E7)));
    assert_eq!(pos.castling_rights().bk, None);
    assert_eq!(pos.castling_rights().bq, None);
    // a piece that lands on the square of a rook takes the right away.
    let mut cap = Board::from_fen("r3k2r/8/8/8/8/6n1/8/R3K2R b KQkq - 0 1").unwrap();
    assert!(cap.make_move_simple(Move::new(Square::G3, Square::H1)));
    assert_eq!(cap.castling_rights().wk, None);
    assert_eq!(cap.castling_rights().wq, Some(Square::A1));
    assert_eq!(cap.castling_rights().bk, Some(Square::H8));
    let mut cap3 = Board::from_fen("r3k2r/8/8/8/8/8/8/R3K2R w KQkq - 0 1").unwrap();
    assert!(cap3.make_move_simple(Move::new(Square::A1, Square::A8)));
    assert_eq!(cap3.castling_rights().wq, None);
    assert_eq!(cap3.castling_rights().bq, None);
    assert_eq!(cap3.castling_rights().bk, Some(Square::H8));
}

#[test]
fn promotion_replaces_the_pawn() {
    let mut pos = Board::from_fen("n1n5/PPPk4/8/8/8/8/4Kppp/5N1N w - - 0 1").unwrap();
    let m = pos.parse_uci("b7a8q").unwrap();
    assert_eq!(m.promotion_type(), Some(PieceType::Queen));
    assert!(pos.is_capture(m));
    assert!(pos.make_move_simple(m));
    assert_eq!(pos.piece_at(Square::A8), Some(Piece::WQ));
    assert_eq!(pos.piece_at(Square::B7), None);
    assert_eq!(pos.n_men(), 11);
    assert!(pos.check_validity());
}

#[test]
fn insufficient_material_cases() {
    assert!(Board::from_fen("8/8/5k2/8/8/2K5/8/8 w - - 0 1").unwrap().is_insufficient_material());
    assert!(Board::from_fen("8/8/5k2/8/8/2K2N2/8/8 w - - 0 1").unwrap().is_insufficient_material());
    // bishops on squares of one colour.
    assert!(Board::from_fen("8/8/3b1k2/8/8/2K5/3B4/8 w - - 0 1").unwrap().is_insufficient_material());
    // bishops on squares of both colours.
    assert!(!Board::from_fen("8/8/4bk2/8/8/2K5/3B4/8 w - - 0 1").unwrap().is_insufficient_material());
    assert!(!Board::from_fen("8/8/5k2/8/2N5/2K2N2/8/8 w - - 0 1").unwrap().is_insufficient_material());
    assert!(!Board::from_fen("8/8/5k2/8/8/2K2P2/8/8 w - - 0 1").unwrap().is_insufficient_material());
}

#[test]
fn repetition_within_the_search_counts_at_once() {
    let mut pos = Board::default();
    let knights = [
        Move::new(Square::G1, Square::F3),
        Move::new(Square::B8, Square::C6),
        Move::new(Square::F3, Square::G1),
        Move::new(Square::C6, Square::B8),
    ];
    for m in knights {
        assert!(!pos.is_draw());
        assert!(pos.make_move_simple(m));
    }
    // the starting position has come back, four half moves into the search.
    assert!(pos.is_repetition());
    assert!(pos.is_draw());
    // at the root one earlier occurrence is not enough.
    pos.zero_height();
    assert!(!pos.is_repetition());
    assert!(!pos.is_draw());
    for m in knights {
        assert!(pos.make_move_simple(m));
    }
    pos.zero_height();
    assert!(pos.is_repetition());
    // at the root nothing counts as drawn.
    assert!(!pos.is_draw());
}
