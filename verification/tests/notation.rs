use viridithas::board::Board;
use viridithas::chessmove::{Move, MoveFlags};
use viridithas::outcome::CheckState;
use viridithas::types::{PieceType, Square};

fn san_of(fen: &str, uci: &str) -> String {
    let mut board = Board::from_fen(fen).unwrap();
    let before = board.clone();
    let m = board.parse_uci(uci).unwrap();
    let text = board.san(m).unwrap();
    assert_eq!(board, before);
    text
}

#[test]
fn san_of_plain_moves() {
    assert_eq!(san_of(Board::STARTING_FEN, "e2e4"), "e4");
    assert_eq!(san_of(Board::STARTING_FEN, "g1f3"), "Nf3");
    let kiwipete = "r3k2r/p1ppqpb1/bn2pnp1/3PN3/1p2P3/2N2Q1p/PPPBBPPP/R3K2R w KQkq - 0 1";
    assert_eq!(san_of(kiwipete, "e1g1"), "O-O");
    assert_eq!(san_of(kiwipete, "e1c1"), "O-O-O");
    assert_eq!(san_of(kiwipete, "d5e6"), "dxe6");
    assert_eq!(san_of(kiwipete, "e5f7"), "Nxf7");
    assert_eq!(san_of(kiwipete, "f3f6"), "Qxf6");
    assert_eq!(san_of(kiwipete, "e2a6"), "Bxa6");
}

#[test]
fn san_tells_pieces_apart() {
    assert_eq!(san_of("4k3/8/8/8/8/8/8/1N2KN2 w - - 0 1", "b1d2"), "Nbd2");
    assert_eq!(san_of("4k3/8/8/8/8/8/8/1N2KN2 w - - 0 1", "f1d2"), "Nfd2");
    assert_eq!(san_of("4k3/8/8/R7/8/8/8/R3K3 w - - 0 1", "a1a3"), "R1a3");
    assert_eq!(san_of("4k3/8/8/R7/8/8/8/R3K3 w - - 0 1", "a5a3"), "R5a3");
    // three queens: neither file nor rank alone tells the one on h4 apart.
    assert_eq!(san_of("1k6/8/8/8/4Q2Q/8/8/K6Q w - - 0 1", "h4e1"), "Qh4e1");
    assert_eq!(san_of("1k6/8/8/8/4Q2Q/8/8/K6Q w - - 0 1", "e4e1"), "Qee1");
}

#[test]
fn san_marks_special_moves() {
    assert_eq!(
        san_of("rnbqkbnr/ppp1p1pp/8/3pPp2/8/8/PPPP1PPP/RNBQKBNR w KQkq f6 0 3", "e5f6"),
        "exf6"
    );
    assert_eq!(san_of("8/P3k3/8/8/8/8/8/4K3 w - - 0 1", "a7a8q"), "a8=Q");
    assert_eq!(san_of("8/P3k3/8/8/8/8/8/4K3 w - - 0 1", "a7a8n"), "a8=N");
    assert_eq!(san_of("1n2k3/P7/8/8/8/8/8/4K3 w - - 0 1", "a7b8r"), "axb8=R+");
    assert_eq!(
        san_of("rnbqkbnr/pppp1ppp/8/4p3/6P1/5P2/PPPPP2P/RNBQKBNR b KQkq g3 0 2", "d8h4"),
        "Qh4#"
    );
    assert_eq!(san_of("4k3/8/8/8/8/8/8/R3K3 w Q - 0 1", "a1a8"), "Ra8+");
}

#[test]
fn san_of_an_empty_square_is_nothing() {
    let mut board = Board::default();
    assert_eq!(board.san(Move::new(Square::E4, Square::E5)), None);
    // castling is written whatever stands on the squares.
    let castle = Move::new_with_flags(Square::E1, Square::H1, MoveFlags::Castle);
    assert_eq!(board.san(castle), Some("O-O".to_string()));
}

#[test]
fn gives_tells_check_from_mate() {
    let mut board =
        Board::from_fen("rnbqkbnr/pppp1ppp/8/4p3/6P1/5P2/PPPPP2P/RNBQKBNR b KQkq g3 0 2").unwrap();
    let before = board.clone();
    assert_eq!(board.gives(Move::new(Square::D8, Square::H4)), CheckState::Checkmate);
    assert_eq!(board.gives(Move::new(Square::D8, Square::G5)), CheckState::Nothing);
    // a move that cannot be made gives nothing.
    assert_eq!(board.gives(Move::new(Square::E8, Square::E7)), CheckState::Nothing);
    assert_eq!(board.gives(Move::new(Square::E4, Square::E5)), CheckState::Nothing);
    assert_eq!(board, before);
    let mut rook = Board::from_fen("4k3/8/8/8/8/8/8/R3K3 w Q - 0 1").unwrap();
    assert_eq!(rook.gives(Move::new(Square::A1, Square::A8)), CheckState::Check);
}

#[test]
fn pv_is_written_move_by_move() {
    let mut board = Board::default();
    let before = board.clone();
    let pv = [
        Move::new(Square::E2, Square::E4),
        Move::new(Square::E7, Square::E5),
        Move::new(Square::G1, Square::F3),
        Move::new(Square::B8, Square::C6),
        Move::new(Square::F1, Square::B5),
    ];
    assert_eq!(board.pv_san(&pv), "e4 e5 Nf3 Nc6 Bb5 ");
    assert_eq!(board, before);
    // a move from an empty square has no text and is not made.
    let odd = [Move::new(Square::E4, Square::E5), Move::new(Square::E2, Square::E4)];
    assert_eq!(board.pv_san(&odd), "??? e4 ");
    assert_eq!(board, before);
}

#[test]
fn move_encoding_round_trips() {
    let m = Move::new(Square::G1, Square::F3);
    assert_eq!(m.from(), Square::G1);
    assert_eq!(m.to(), Square::F3);
    assert!(!m.is_promo() && !m.is_ep() && !m.is_castle());
    assert_eq!(m.promotion_type(), None);
    assert!(m.is_valid());
    for kind in [PieceType::Knight, PieceType::Bishop, PieceType::Rook, PieceType::Queen] {
        let p = Move::new_with_promo(Square::A7, Square::B8, kind);
        assert_eq!(p.from(), Square::A7);
        assert_eq!(p.to(), Square::B8);
        assert!(p.is_promo());
        assert_eq!(p.promotion_type(), Some(kind));
    }
    let c = Move::new_with_flags(Square::E8, Square::A8, MoveFlags::Castle);
    assert!(c.is_castle());
    assert_eq!(c.to(), Square::A8);
    assert_eq!(c.history_to_square(), Square::C8);
    let k = Move::new_with_flags(Square::E1, Square::H1, MoveFlags::Castle);
    assert_eq!(k.history_to_square(), Square::G1);
    assert!(Move::null().is_null());
    assert!(!Move::null().is_valid());
}
