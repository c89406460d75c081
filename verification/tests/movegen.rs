use viridithas::board::Board;
use viridithas::movegen::MainSearch;
use viridithas::movelist::{MoveList, MoveListEntry};
use viridithas::perft::synced_perft;

const BENCH_POSITIONS: [&str; 12] = [
    "rnbqkbnr/pppppppp/8/8/8/8/PPPPPPPP/RNBQKBNR w KQkq - 0 1",
    "r3k2r/p1ppqpb1/bn2pnp1/3PN3/1p2P3/2N2Q1p/PPPBBPPP/R3K2R w KQkq - 0 1",
    "8/2p5/3p4/KP5r/1R3p1k/8/4P1P1/8 w - - 0 1",
    "r3k2r/Pppp1ppp/1b3nbN/nP6/BBP1P3/q4N2/Pp1P2PP/R2Q1RK1 w kq - 0 1",
    "rnbq1k1r/pp1Pbppp/2p5/8/2B5/8/PPP1NnPP/RNBQK2R w KQ - 1 8",
    "r4rk1/1pp1qppp/p1np1n2/2b1p1B1/2B1P1b1/P1NP1N2/1PP1QPPP/R4RK1 w - - 0 10",
    "rnbqkbnr/ppp1p1pp/8/3pPp2/8/8/PPPP1PPP/RNBQKBNR w KQkq f6 0 3",
    "n1n5/PPPk4/8/8/8/8/4Kppp/5N1N b - - 0 1",
    "4k3/8/8/8/8/8/8/R3K2R w KQ - 0 1",
    "r3k2r/8/8/8/8/8/8/R3K2R b KQkq - 0 1",
    "8/8/8/2k5/2pP4/8/B7/4K3 b - d3 0 3",
    "3k4/8/8/8/8/8/3q1n2/4K3 w - - 0 1",
];

fn sorted(list: &MoveList) -> Vec<MoveListEntry> {
    let mut v = list.to_vec();
    v.sort_unstable_by_key(|m| m.mov.data);
    v
}

fn staged_agrees(pos: &mut Board, depth: usize) {
    let mut ml = MoveList::new();
    pos.generate_moves(&mut ml);
    let mut ml_staged = MoveList::new();
    pos.generate_captures::<MainSearch>(&mut ml_staged);
    pos.generate_quiets(&mut ml_staged);
    assert_eq!(sorted(&ml), sorted(&ml_staged), "full and staged move lists differ in {}", pos.fen());
    if depth == 0 {
        return;
    }
    for m in ml.iter_moves() {
        if pos.make_move_simple(m) {
            staged_agrees(pos, depth - 1);
            pos.unmake_move_base();
        }
    }
}

#[test]
fn staged_matches_full() {
    let mut pos = Board::default();

    for fen in BENCH_POSITIONS {
        pos.set_from_fen(fen).unwrap();
        synced_perft(&mut pos, 2);
        staged_agrees(&mut pos, 2);
    }
}

fn all_pseudo_legal(pos: &mut Board, depth: usize) {
    let mut ml = MoveList::new();
    pos.generate_moves(&mut ml);
    for m in ml.iter_moves() {
        if !m.is_castle() && !m.is_ep() {
            assert!(pos.is_pseudo_legal(m), "{} in {}", m.display(false), pos.fen());
        }
        if depth > 0 && pos.make_move_simple(m) {
            all_pseudo_legal(pos, depth - 1);
            pos.unmake_move_base();
        }
    }
}

#[test]
fn generated_moves_are_pseudo_legal() {
    let mut pos = Board::default();
    for fen in BENCH_POSITIONS {
        pos.set_from_fen(fen).unwrap();
        all_pseudo_legal(&mut pos, 2);
        // in these positions castling and en-passant captures pass the test too.
        let mut ml = MoveList::new();
        pos.generate_moves(&mut ml);
        assert!(ml.iter_moves().into_iter().all(|m| pos.is_pseudo_legal(m)));
    }
}

#[test]
fn threats_are_the_attacked_squares() {
    let mut pos = Board::default();
    for fen in BENCH_POSITIONS {
        pos.set_from_fen(fen).unwrap();
        for i in 0..64u8 {
            let sq = viridithas::types::Square::from_index(i).unwrap();
            let them = pos.turn().flip();
            // read from the threats kept, and worked out from the pieces.
            let kept = pos.sq_attacked(sq, them);
            assert_eq!(kept, pos.threats().all.contains_square(sq));
            pos.make_nullmove();
            assert_eq!(pos.sq_attacked(sq, them), kept, "{sq:?} in {fen}");
            pos.unmake_nullmove();
        }
    }
}

#[test]
fn staged_list_holds_tactical_moves_first() {
    let mut pos = Board::default();
    for fen in BENCH_POSITIONS {
        pos.set_from_fen(fen).unwrap();
        let mut full = MoveList::new();
        pos.generate_moves(&mut full);
        let mut tactical = MoveList::new();
        pos.generate_captures::<MainSearch>(&mut tactical);
        let mut quiet = MoveList::new();
        quiet.clear();
        pos.generate_quiets(&mut quiet);
        let mut staged = MoveList::new();
        pos.generate_captures::<MainSearch>(&mut staged);
        pos.generate_quiets(&mut staged);
        let mut joined = tactical.to_vec();
        joined.extend(quiet.to_vec());
        assert_eq!(staged.to_vec(), joined, "{fen}");
        assert_eq!(staged.len(), full.len(), "{fen}");
        let keys = sorted(&full);
        for pair in keys.windows(2) {
            assert_ne!(pair[0].mov, pair[1].mov, "{fen}");
        }
    }
}

#[test]
fn pseudo_legal_moves_are_made_when_the_king_is_safe() {
    let mut pos = Board::default();
    pos.set_from_fen("r3k2r/p1ppqpb1/bn2pnp1/3PN3/1p2P3/2N2Q1p/PPPBBPPP/R3K2R w KQkq - 0 1").unwrap();
    let mut full = MoveList::new();
    pos.generate_moves(&mut full);
    let mut made = 0;
    for m in full.iter_moves() {
        assert!(pos.is_pseudo_legal(m));
        if pos.make_move_simple(m) {
            let mover = pos.turn().flip();
            assert!(!pos.sq_attacked(pos.king_sq(mover), pos.turn()));
            made += 1;
            pos.unmake_move_base();
        }
    }
    assert_eq!(made, 48);
    pos.set_from_fen("8/2p5/3p4/KP5r/1R3p1k/8/4P1P1/8 w - - 0 1").unwrap();
    pos.generate_moves(&mut full);
    let mut made = 0;
    let mut refused = 0;
    for m in full.iter_moves() {
        assert!(pos.is_pseudo_legal(m));
        if pos.make_move_simple(m) {
            made += 1;
            pos.unmake_move_base();
        } else {
            refused += 1;
        }
    }
    assert_eq!(made, 14);
    assert!(refused > 0);
}
