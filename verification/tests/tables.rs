use viridithas::board::{Board, ContHistIndex};
use viridithas::chessmove::Move;
use viridithas::cuckoo::CuckooTable;
use viridithas::history::{
    caphist_piece_type, Config, CorrectionHistoryTable, HistoryParams, StackEntry, ThreadData,
};
use viridithas::historytable::{
    history_bonus, update_history, DoubleHistoryTable, HistoryTable, MoveTable, MAX_HISTORY,
};
use viridithas::types::{Colour, Piece, PieceType, Square};

fn params(quad: i32, lin: i32, cap: i32) -> HistoryParams {
    HistoryParams { quad, lin, cap }
}

fn config() -> Config {
    Config {
        main_history_bonus: params(0, 300, 2500),
        main_history_malus: params(0, 200, 1500),
        tactical_history_bonus: params(1, 10, 2000),
        tactical_history_malus: params(1, 5, 1000),
        cont_history_bonus: params(0, 150, 3000),
        cont_history_malus: params(0, 100, 2000),
        pawn_corrhist_weight: 1024,
        major_corrhist_weight: 512,
        minor_corrhist_weight: 512,
        nonpawn_corrhist_weight: 256,
    }
}

#[test]
fn gravity_update_values() {
    let mut v = 0;
    update_history(&mut v, 100);
    assert_eq!(v, 100);
    let mut full = MAX_HISTORY;
    update_history(&mut full, MAX_HISTORY);
    assert_eq!(full, MAX_HISTORY);
    let mut low = -MAX_HISTORY;
    update_history(&mut low, -MAX_HISTORY);
    assert_eq!(low, -MAX_HISTORY);
    let mut w = 10000;
    update_history(&mut w, 8192);
    assert_eq!(w, 15692);
    let mut x = 10000;
    update_history(&mut x, -8192);
    assert_eq!(x, -692);
    let mut y = -7;
    update_history(&mut y, 5000);
    assert_eq!(y, 4994);
    let mut z = 100;
    update_history(&mut z, 1000);
    assert_eq!(z, 1097);
    let mut big = 30000;
    update_history(&mut big, 20000);
    assert_eq!(big, 50000 - 30000 * 20000 / 32767);
    assert_eq!(MAX_HISTORY, 32767);
    assert_eq!(history_bonus(7), 56);
}

#[test]
fn depth_dependent_amounts() {
    assert_eq!(params(2, 3, 1000).at_depth(5), 65);
    assert_eq!(params(2, 3, 1000).at_depth(30), 1000);
    assert_eq!(params(0, 0, 1000).at_depth(30), 0);
}

#[test]
fn piece_square_tables() {
    let mut t = HistoryTable::new();
    assert_eq!(t.get(Piece::BQ, Square::D8), 0);
    *t.get_mut(Piece::BQ, Square::D8) = 41;
    *t.get_mut(Piece::WP, Square::A1) = -9;
    assert_eq!(t.get(Piece::BQ, Square::D8), 41);
    assert_eq!(t.get(Piece::WQ, Square::D8), 0);
    t.age_entries();
    assert_eq!(t.get(Piece::BQ, Square::D8), 10);
    assert_eq!(t.get(Piece::WP, Square::A1), -2);
    t.clear();
    assert_eq!(t.get(Piece::BQ, Square::D8), 0);

    let mut d = DoubleHistoryTable::new();
    d.clear();
    *d.get_mut(Piece::WN, Square::F3, Piece::BK, Square::H8) = 77;
    // every pair of an earlier move and a move has a place of its own.
    *d.get_mut(Piece::WP, Square::A1, Piece::WN, Square::A1) = 5;
    assert_eq!(d.get(Piece::WP, Square::E2, Piece::WP, Square::A1), 0);
    *d.get_mut(Piece::WP, Square::A1, Piece::WN, Square::A1) = 0;
    assert_eq!(d.get(Piece::WN, Square::F3, Piece::BK, Square::H8), 77);
    assert_eq!(d.get(Piece::BK, Square::H8, Piece::WN, Square::F3), 0);
    d.age_entries();
    assert_eq!(d.get(Piece::WN, Square::F3, Piece::BK, Square::H8), 19);

    let mut m = MoveTable::new();
    m.clear();
    assert!(m.get(Piece::WR, Square::A1).is_null());
    m.add(Piece::WR, Square::A1, Move::new(Square::A1, Square::A8));
    assert_eq!(m.get(Piece::WR, Square::A1), Move::new(Square::A1, Square::A8));
}

#[test]
fn main_history_is_keyed_by_threats() {
    let pos = Board::default();
    let conf = config();
    let mut t = ThreadData::new();
    let e4 = Move::new(Square::E2, Square::E4);
    let d4 = Move::new(Square::D2, Square::D4);
    let nf3 = Move::new(Square::G1, Square::F3);
    t.update_history(&conf, &pos, &[e4, d4, nf3], d4, 5);
    assert_eq!(t.get_history_score(&pos, d4), 1500);
    assert_eq!(t.get_history_score(&pos, e4), -1000);
    assert_eq!(t.get_history_score(&pos, nf3), -1000);
    assert_eq!(t.get_history_score(&pos, Move::new(Square::A2, Square::A3)), 0);
    t.update_history(&conf, &pos, &[d4], d4, 5);
    assert_eq!(t.get_history_score(&pos, d4), 1500 + 1500 - 1500 * 1500 / 32767);
    let threats = pos.threats().all;
    t.update_history_single(Square::E2, Square::E4, Piece::WP, threats, 1000);
    assert_eq!(t.get_history_score(&pos, e4), -1000 + 1000 + 1000 * 1000 / 32767);
}

#[test]
fn tactical_history_is_keyed_by_the_captured_piece() {
    let pos =
        Board::from_fen("r3k2r/p1ppqpb1/bn2pnp1/3PN3/1p2P3/2N2Q1p/PPPBBPPP/R3K2R w KQkq - 0 1")
            .unwrap();
    let conf = config();
    let mut t = ThreadData::new();
    let bxa6 = Move::new(Square::E2, Square::A6);
    let qxf6 = Move::new(Square::F3, Square::F6);
    assert_eq!(caphist_piece_type(&pos, bxa6), PieceType::Bishop);
    assert_eq!(caphist_piece_type(&pos, qxf6), PieceType::Knight);
    let promo = Move::new_with_promo(Square::A7, Square::A8, PieceType::Queen);
    assert_eq!(caphist_piece_type(&pos, promo), PieceType::Pawn);
    t.update_tactical_history(&conf, &pos, &[bxa6, qxf6], qxf6, 4);
    assert_eq!(t.get_tactical_history_score(&pos, qxf6), 56);
    assert_eq!(t.get_tactical_history_score(&pos, bxa6), -36);
}

#[test]
fn continuation_history_needs_an_earlier_move() {
    let mut pos = Board::default();
    let conf = config();
    let mut t = ThreadData::new();
    let e5 = Move::new(Square::E7, Square::E5);
    // at the root the line reaches no move back: nothing changes.
    t.update_continuation_history(&conf, &pos, &[Move::new(Square::E2, Square::E4)], e5, 3, 0);
    assert_eq!(t.get_continuation_history_score(&pos, Move::new(Square::E2, Square::E4), 0), 0);
    assert!(pos.make_move_simple(Move::new(Square::E2, Square::E4)));
    t.ss.push(StackEntry { conthist_index: ContHistIndex { piece: Piece::WP, square: Square::E4 } });
    t.update_continuation_history(&conf, &pos, &[e5], e5, 3, 0);
    assert_eq!(t.get_continuation_history_score(&pos, e5, 0), 450);
    assert_eq!(t.get_continuation_history_score(&pos, e5, 1), 0);
    assert_eq!(
        t.continuation_history.get(Piece::WP, Square::E4, Piece::BP, Square::E5),
        450
    );
    t.update_continuation_history_single(&pos, Square::E5, Piece::BP, -450, 0);
    assert_eq!(t.get_continuation_history_score(&pos, e5, 0), 450 - 450 - 450 * 450 / 32767);
    t.update_continuation_history_single(&pos, Square::E5, Piece::BP, -450, 1);
    assert_eq!(t.get_continuation_history_score(&pos, e5, 0), -6);
}

#[test]
fn continuation_history_out_of_reach_asks_nothing() {
    // at the root no earlier move is in reach: the score is 0 and an update changes
    // nothing, whatever the move, the depth and the settings are.
    let pos = Board::default();
    let mut t = ThreadData::new();
    let odd = Move::new(Square::E4, Square::E5);
    assert_eq!(t.get_continuation_history_score(&pos, odd, 0), 0);
    let mut conf = config();
    conf.cont_history_bonus = params(-1, -1, -1);
    t.update_continuation_history(&conf, &pos, &[odd], odd, -5, 3);
    t.update_continuation_history_single(&pos, Square::E5, Piece::BP, 1_000_000, 0);
    assert!(t.continuation_history.table.iter().all(|x| *x == 0));
}

#[test]
fn killers_are_kept_by_height() {
    let mut pos = Board::default();
    let mut t = ThreadData::new();
    let m = Move::new(Square::G8, Square::F6);
    assert!(pos.make_move_simple(Move::new(Square::E2, Square::E4)));
    t.insert_killer(&pos, m);
    assert_eq!(t.killer_move_table[1], Some(m));
    assert_eq!(t.killer_move_table[0], None);
}

#[test]
fn correction_history_moves_towards_the_difference() {
    let mut c = CorrectionHistoryTable::new();
    c.update(Colour::White, 5, 16, 2560);
    assert_eq!(c.get(Colour::White, 5), 160);
    assert_eq!(c.get(Colour::White, 5 + 16384), 160);
    assert_eq!(c.get(Colour::Black, 5), 0);
    c.update(Colour::White, 5, 16, 2560);
    assert_eq!(c.get(Colour::White, 5), (160 * 240 + 2560 * 16) / 256);
    c.update(Colour::Black, 7, 16, 8388608);
    assert_eq!(c.get(Colour::Black, 7), 8192);
    c.update(Colour::Black, 9, 1, -8388608);
    assert_eq!(c.get(Colour::Black, 9), -8192);

    let pos = Board::default();
    let conf = config();
    let mut t = ThreadData::new();
    assert_eq!(t.correction(&conf, &pos), 0);
    t.update_correction_history(&pos, 20, 100);
    // each of the five entries is now 100 * 256 * 16 / 256 = 1600.
    let sum: i64 = 1600 * 1024 + 1600 * 512 + 1600 * 512 + 3200 * 256;
    assert_eq!(t.correction(&conf, &pos), ((sum / 1024) as i32) / 256);
    assert_eq!(t.correction(&conf, &pos), 15);
    t.update_correction_history(&pos, 0, -100);
    let entry = (1600 * 255 - 25600) / 256;
    let sum2: i64 = entry * 1024 + entry * 512 + entry * 512 + 2 * entry * 256;
    assert_eq!(t.correction(&conf, &pos), ((sum2 / 1024) as i32) / 256);
}

#[test]
fn cuckoo_table_holds_every_reversible_move() {
    let table = CuckooTable::new();
    assert!(table.overflow.is_empty());
    assert_eq!(table.count, 3668);
    assert_eq!(table.moves.iter().filter(|m| m.is_some()).count(), 3668);
}

#[test]
fn upcoming_repetition_is_seen() {
    let table = CuckooTable::new();
    let mut pos = Board::default();
    assert!(!pos.has_game_cycle(1, &table));
    assert!(pos.make_move_simple(Move::new(Square::G1, Square::F3)));
    assert!(pos.make_move_simple(Move::new(Square::B8, Square::C6)));
    assert!(!pos.has_game_cycle(3, &table));
    assert!(pos.make_move_simple(Move::new(Square::F3, Square::G1)));
    // black can go back with the knight and repeat the starting position.
    assert!(pos.has_game_cycle(4, &table));
    assert!(pos.has_game_cycle(1, &table));
    // after a pawn move nothing can come back.
    let mut other = Board::default();
    assert!(other.make_move_simple(Move::new(Square::G1, Square::F3)));
    assert!(other.make_move_simple(Move::new(Square::B8, Square::C6)));
    assert!(other.make_move_simple(Move::new(Square::E2, Square::E4)));
    assert!(!other.has_game_cycle(4, &table));
}

#[test]
fn every_reversible_move_is_found() {
    let table = CuckooTable::new();
    let kinds = [
        PieceType::Knight,
        PieceType::Bishop,
        PieceType::Rook,
        PieceType::Queen,
        PieceType::King,
    ];
    let empty = viridithas::squareset::SquareSet::empty();
    let mut found = 0;
    for colour in [Colour::White, Colour::Black] {
        for kind in kinds {
            let piece = Piece::new(colour, kind);
            for a in 0..64u8 {
                for b in (a + 1)..64u8 {
                    let s1 = Square::from_index(a).unwrap();
                    let s2 = Square::from_index(b).unwrap();
                    if viridithas::attacks::attacks_by_type(kind, s1, empty).contains_square(s2) {
                        let mut key = 0;
                        viridithas::zobrist::hash_piece(&mut key, piece, s1);
                        viridithas::zobrist::hash_piece(&mut key, piece, s2);
                        viridithas::zobrist::hash_side(&mut key);
                        assert_eq!(table.lookup(key), Some(Move::new(s1, s2)));
                        found += 1;
                    }
                }
            }
        }
    }
    assert_eq!(found, 3668);
    assert_eq!(table.lookup(12345), None);
}

#[test]
fn batches_of_moves_are_scored() {
    let pos = Board::default();
    let conf = config();
    let mut t = ThreadData::new();
    let d4 = Move::new(Square::D2, Square::D4);
    let e4 = Move::new(Square::E2, Square::E4);
    t.update_history(&conf, &pos, &[e4, d4], d4, 5);
    let mut list = viridithas::movelist::MoveList::new();
    list.push(d4, false);
    list.push(e4, false);
    list.push(Move::new(Square::G1, Square::F3), false);
    for i in 0..3 {
        list.set_score(i, 7);
    }
    t.get_history_scores(&pos, &mut list);
    assert_eq!(list.get(0).score, 1507);
    assert_eq!(list.get(1).score, -993);
    assert_eq!(list.get(2).score, 7);
    assert_eq!(list.get(0).mov, d4);
    // without an earlier move in the line, the continuation history changes nothing.
    t.get_continuation_history_scores(&pos, &mut list, 0);
    assert_eq!(list.get(0).score, 1507);
    let kiwipete =
        Board::from_fen("r3k2r/p1ppqpb1/bn2pnp1/3PN3/1p2P3/2N2Q1p/PPPBBPPP/R3K2R w KQkq - 0 1")
            .unwrap();
    let qxf6 = Move::new(Square::F3, Square::F6);
    t.update_tactical_history(&conf, &kiwipete, &[qxf6], qxf6, 4);
    let mut caps = viridithas::movelist::MoveList::new();
    caps.push(qxf6, true);
    caps.set_score(0, 100);
    t.get_tactical_history_scores(&kiwipete, &mut caps);
    assert_eq!(caps.get(0).score, 156);
}
