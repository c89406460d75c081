use viridithas::board::Board;
use viridithas::chessmove::{Move, MoveFlags};
use viridithas::movegen::{MainSearch, QSearch};
use viridithas::movelist::{MoveList, MoveListEntry};
use viridithas::perft::synced_perft;
use viridithas::types::PieceType::{Bishop, King, Knight, Queen, Rook};
use viridithas::types::{Piece, PieceType, Square};

fn frc(fen: &str) -> Board {
    let mut board = Board::new();
    board.set_chess960(true);
    board.set_from_fen(fen).expect("position string refused");
    board
}

#[test]
fn frc_perft() {
    let mut a = frc("bqnb1rkr/pp3ppp/3ppn2/2p5/5P2/P2P4/NPP1P1PP/BQ1BNRKR w HFhf - 2 9");
    assert_eq!(synced_perft(&mut a, 1), 21);
    assert_eq!(synced_perft(&mut a, 2), 528);
    assert_eq!(synced_perft(&mut a, 3), 12_189);
    let mut b = frc("2nnrbkr/p1qppppp/8/1ppb4/6PP/3PP3/PPP2P2/BQNNRBKR w HEhe - 1 9");
    assert_eq!(synced_perft(&mut b, 1), 21);
    assert_eq!(synced_perft(&mut b, 2), 807);
    assert_eq!(synced_perft(&mut b, 3), 18_002);
}

#[test]
fn frc_castling_with_king_beside_rook() {
    // the king on f1 castles with the rook on g1: the king goes to g1, the rook to f1.
    let mut board = frc("r4k2/8/8/8/8/8/8/5KR1 w Ga - 0 1");
    assert_eq!(board.castling_rights().wk, Some(Square::G1));
    assert_eq!(board.castling_rights().bq, Some(Square::A8));
    let castle = Move::new_with_flags(Square::F1, Square::G1, MoveFlags::Castle);
    assert!(board.is_pseudo_legal(castle));
    assert_eq!(board.parse_uci("f1g1"), Ok(castle));
    assert!(board.make_move_simple(castle));
    assert_eq!(board.piece_at(Square::G1), Some(Piece::WK));
    assert_eq!(board.piece_at(Square::F1), Some(Piece::WR));
    assert!(board.check_validity());
    assert_eq!(board.castling_rights().wk, None);
    board.unmake_move_base();
    assert_eq!(board.piece_at(Square::F1), Some(Piece::WK));
    assert_eq!(board.piece_at(Square::G1), Some(Piece::WR));
}

#[test]
fn frc_queenside_castling_across_own_square() {
    // king b1, rook a1: the king ends on c1 and the rook on d1.
    let mut board = frc("rk6/8/8/8/8/8/8/RK6 w Aa - 0 1");
    assert_eq!(board.castling_rights().wq, Some(Square::A1));
    let castle = Move::new_with_flags(Square::B1, Square::A1, MoveFlags::Castle);
    let mut list = MoveList::new();
    board.generate_moves(&mut list);
    assert!(list.iter_moves().contains(&castle));
    assert!(board.make_move_simple(castle));
    assert_eq!(board.piece_at(Square::C1), Some(Piece::WK));
    assert_eq!(board.piece_at(Square::D1), Some(Piece::WR));
    assert_eq!(board.piece_at(Square::A1), None);
    assert_eq!(board.piece_at(Square::B1), None);
}

fn files_of(rank: &[PieceType; 8], kind: PieceType) -> Vec<usize> {
    (0..8).filter(|i| rank[*i] == kind).collect()
}

#[test]
fn scharnagl_ranks() {
    assert_eq!(
        Board::get_scharnagl_backrank(0),
        [Bishop, Bishop, Queen, Knight, Knight, Rook, King, Rook]
    );
    assert_eq!(
        Board::get_scharnagl_backrank(959),
        [Rook, King, Rook, Knight, Knight, Queen, Bishop, Bishop]
    );
    for n in 0..960 {
        let rank = Board::get_scharnagl_backrank(n);
        let kings = files_of(&rank, King);
        let rooks = files_of(&rank, Rook);
        let bishops = files_of(&rank, Bishop);
        assert_eq!(kings.len(), 1);
        assert_eq!(rooks.len(), 2);
        assert!(rooks[0] < kings[0] && kings[0] < rooks[1]);
        assert_eq!(bishops.len(), 2);
        assert_ne!(bishops[0] % 2, bishops[1] % 2);
        assert_eq!(files_of(&rank, Queen).len(), 1);
        assert_eq!(files_of(&rank, Knight).len(), 2);
    }
}

#[test]
fn double_frc_positions() {
    let board = Board::from_dfrc_idx(959 * 960);
    assert_eq!(board.fen(), "rkrnnqbb/pppppppp/8/8/8/8/PPPPPPPP/BBQNNRKR w KQkq - 0 1");
    assert_eq!(board.castling_rights().wk, Some(Square::H1));
    assert_eq!(board.castling_rights().wq, Some(Square::F1));
    assert_eq!(board.castling_rights().bk, Some(Square::C8));
    assert_eq!(board.castling_rights().bq, Some(Square::A8));
    assert!(board.check_validity());
    let same = Board::from_frc_idx(0);
    assert_eq!(same.fen(), "bbqnnrkr/pppppppp/8/8/8/8/PPPPPPPP/BBQNNRKR w KQkq - 0 1");
}

#[test]
fn quiescence_mode_promotes_to_queens_only() {
    let board = Board::from_fen("n1n5/PPPk4/8/8/8/8/4Kppp/5N1N w - - 0 1").unwrap();
    let mut all = MoveList::new();
    board.generate_captures::<MainSearch>(&mut all);
    let mut queens = MoveList::new();
    board.generate_captures::<QSearch>(&mut queens);
    let promos = |l: &MoveList| l.iter_moves().into_iter().filter(|m| m.is_promo()).count();
    assert_eq!(promos(&all), 4 * promos(&queens));
    assert!(queens
        .iter_moves()
        .into_iter()
        .all(|m| !m.is_promo() || m.promotion_type() == Some(PieceType::Queen)));
    assert!(all.to_vec().iter().all(|e| e.score == MoveListEntry::TACTICAL_SENTINEL));
    let mut quiets = MoveList::new();
    board.generate_quiets(&mut quiets);
    assert!(quiets.to_vec().iter().all(|e| e.score == MoveListEntry::QUIET_SENTINEL));
}

#[test]
fn move_list_keeps_at_most_its_capacity() {
    // the position with the most moves known has exactly as many as a list holds.
    let most = Board::from_fen("R6R/3Q4/1Q4Q1/4Q3/2Q4Q/Q4Q2/pp1Q4/kBNN1KB1 w - - 0 1").unwrap();
    let mut list = MoveList::new();
    most.generate_moves(&mut list);
    assert_eq!(list.len(), 218);
    // with one more queen there are more moves than a list holds.
    let board = Board::from_fen("R5QR/3Q4/1Q4Q1/4Q3/2Q4Q/Q4Q2/pp1Q4/kBNN1KB1 w - - 0 1").unwrap();
    board.generate_moves(&mut list);
    assert_eq!(list.len(), 218);
    let mut staged = MoveList::new();
    board.generate_captures::<MainSearch>(&mut staged);
    let captures = staged.len();
    board.generate_quiets(&mut staged);
    assert!(captures < 218);
    assert_eq!(staged.len(), 218);
    list.set_score(3, 12);
    assert_eq!(list.get(3).score, 12);
    list.clear();
    assert_eq!(list.len(), 0);
}

#[test]
fn rights_by_file_come_back() {
    for fen in [
        "bqnb1rkr/pp3ppp/3ppn2/2p5/5P2/P2P4/NPP1P1PP/BQ1BNRKR w HFhf - 2 9",
        "r4k2/8/8/8/8/8/8/5KR1 w Ga - 0 1",
        "rk6/8/8/8/8/8/8/RK6 b Aa - 3 7",
        "rnbqkbnr/pppppppp/8/8/8/8/PPPPPPPP/RNBQKBNR w HAha - 0 1",
        "4k3/8/8/8/8/8/8/4K3 w - - 0 1",
    ] {
        let board = frc(fen);
        assert_eq!(board.fen(), fen);
    }
    // under the orthodox rules the same rights are written with K and Q.
    let mut plain = frc("rnbqkbnr/pppppppp/8/8/8/8/PPPPPPPP/RNBQKBNR w HAha - 0 1");
    plain.set_chess960(false);
    assert_eq!(plain.fen(), Board::STARTING_FEN);
}

#[test]
fn written_strings_are_read_back() {
    // what a board writes sets up a board with the same pieces, side, rights,
    // en-passant square and counters, which writes the same string.
    let mut board = Board::default();
    for uci in ["e2e4", "c7c5", "g1f3", "d7d6", "f1b5", "b8c6", "e1g1", "a7a6", "b5c6", "b7c6", "e4e5", "f7f5"] {
        let m = board.parse_uci(uci).unwrap();
        assert!(board.make_move_simple(m));
        let text = board.fen();
        let read = Board::from_fen(&text).unwrap();
        assert_eq!(read.fen(), text);
        assert_eq!(read.castling_rights(), board.castling_rights());
        assert_eq!(read.ep_sq(), board.ep_sq());
        assert_eq!(read.fifty_move_counter(), board.fifty_move_counter());
        assert_eq!(read.turn(), board.turn());
        assert_eq!(read.full_move_number(), board.full_move_number());
        assert_eq!(read.zobrist_key(), board.zobrist_key());
    }
    assert_eq!(board.fen(), "r1bqkbnr/4p1pp/p1pp4/2p1Pp2/8/5N2/PPPP1PPP/RNBQ1RK1 w kq f6 0 7");
    let mut shuffled = frc("bqnb1rkr/pp3ppp/3ppn2/2p5/5P2/P2P4/NPP1P1PP/BQ1BNRKR w HFhf - 2 9");
    let text = shuffled.fen();
    assert_eq!(text, "bqnb1rkr/pp3ppp/3ppn2/2p5/5P2/P2P4/NPP1P1PP/BQ1BNRKR w HFhf - 2 9");
    let m = shuffled.parse_uci("e1f3").unwrap();
    assert!(shuffled.make_move_simple(m));
    let again = frc(&shuffled.fen());
    assert_eq!(again.fen(), shuffled.fen());
    assert_eq!(again.castling_rights(), shuffled.castling_rights());
}
