use viridithas::board::Board;
use viridithas::perft::synced_perft;

fn perft(fen: &str, depth: usize) -> u64 {
    let mut pos = Board::from_fen(fen).expect("position string refused");
    synced_perft(&mut pos, depth)
}

#[test]
fn perft_startpos_shallow() {
    assert_eq!(perft(Board::STARTING_FEN, 1), 20);
    assert_eq!(perft(Board::STARTING_FEN, 2), 400);
    assert_eq!(perft(Board::STARTING_FEN, 3), 8902);
    assert_eq!(perft(Board::STARTING_FEN, 4), 197_281);
}

#[test]
fn perft_kiwipete_shallow() {
    let fen = "r3k2r/p1ppqpb1/bn2pnp1/3PN3/1p2P3/2N2Q1p/PPPBBPPP/R3K2R w KQkq - 0 1";
    assert_eq!(perft(fen, 1), 48);
    assert_eq!(perft(fen, 2), 2039);
    assert_eq!(perft(fen, 3), 97_862);
}

#[test]
fn perft_position_three() {
    let fen = "8/2p5/3p4/KP5r/1R3p1k/8/4P1P1/8 w - - 0 1";
    assert_eq!(perft(fen, 1), 14);
    assert_eq!(perft(fen, 2), 191);
    assert_eq!(perft(fen, 3), 2812);
    assert_eq!(perft(fen, 4), 43_238);
}

#[test]
fn perft_position_four() {
    let fen = "r3k2r/Pppp1ppp/1b3nbN/nP6/BBP1P3/q4N2/Pp1P2PP/R2Q1RK1 w kq - 0 1";
    assert_eq!(perft(fen, 1), 6);
    assert_eq!(perft(fen, 2), 264);
    assert_eq!(perft(fen, 3), 9467);
}

#[test]
fn perft_position_five() {
    let fen = "rnbq1k1r/pp1Pbppp/2p5/8/2B5/8/PPP1NnPP/RNBQK2R w KQ - 1 8";
    assert_eq!(perft(fen, 1), 44);
    assert_eq!(perft(fen, 2), 1486);
    assert_eq!(perft(fen, 3), 62_379);
}

#[test]
fn perft_position_six() {
    let fen = "r4rk1/1pp1qppp/p1np1n2/2b1p1B1/2B1P1b1/P1NP1N2/1PP1QPPP/R4RK1 w - - 0 10";
    assert_eq!(perft(fen, 1), 46);
    assert_eq!(perft(fen, 2), 2079);
    assert_eq!(perft(fen, 3), 89_890);
}

#[test]
fn fen_round_trip_start() {
    let board = Board::from_fen(Board::STARTING_FEN).unwrap();
    assert_eq!(board.fen(), Board::STARTING_FEN);
}
