use viridithas::board::Board;
use viridithas::history::ThreadData;
use viridithas::movelist::MoveList;

#[test]
fn random_move_is_one_of_the_moves() {
    let mut rng = rand::thread_rng();
    let mut seen = std::collections::HashSet::new();
    for _ in 0..200 {
        let mut board = Board::default();
        let mut t = ThreadData::new();
        let mut list = MoveList::new();
        board.generate_moves(&mut list);
        let m = board.make_random_move(&mut rng, &mut t).expect("there are moves");
        assert!(list.iter_moves().contains(&m));
        // every move of the starting position is legal, so it was made.
        assert_eq!(board.ply(), 1);
        assert_eq!(t.nnue.current_acc, 1);
        assert_eq!(t.nnue.accumulators[0].mv.from, m.from());
        assert_eq!(t.nnue.accumulators[0].update_buffer.adds().len(), 1);
        board.unmake_move(&mut t);
        assert_eq!(board, Board::default());
        assert_eq!(t.nnue.current_acc, 0);
        seen.insert(m);
    }
    // the choice is not always the same.
    assert!(seen.len() > 1);
}

#[test]
fn moves_are_kept_for_the_evaluation() {
    let mut board =
        Board::from_fen("r3k2r/p1ppqpb1/bn2pnp1/3PN3/1p2P3/2N2Q1p/PPPBBPPP/R3K2R w KQkq - 0 1")
            .unwrap();
    let mut t = ThreadData::new();
    let castle = board.parse_uci("e1g1").unwrap();
    assert!(board.make_move(castle, &mut t));
    let acc = &t.nnue.accumulators[0];
    assert_eq!(acc.update_buffer.adds().len(), 2);
    assert_eq!(acc.update_buffer.subs().len(), 2);
    assert_eq!(t.nnue.accumulators[1].correct, [false, false]);
    let capture = board.parse_uci("a6e2").unwrap();
    assert!(board.make_move_nnue(capture, &mut t));
    let acc = &t.nnue.accumulators[1];
    assert_eq!(acc.update_buffer.adds().len(), 1);
    assert_eq!(acc.update_buffer.subs().len(), 2);
    assert_eq!(t.nnue.current_acc, 2);
    board.unmake_move_nnue(&mut t);
    board.unmake_move(&mut t);
    assert_eq!(t.nnue.current_acc, 0);
}
