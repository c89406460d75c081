use viridithas::sftables::{construct_sf_pst, S};

#[test]
fn psts_are_mirrored_properly() {
    let psts = construct_sf_pst();
    for white_piece in 1..7 {
        let white_pst = &psts[white_piece];
        let black_pst = &psts[white_piece + 6];
        for sq in 0..64usize {
            assert_eq!(
                white_pst[sq],
                black_pst[sq ^ 56].neg(),
                "pst mirroring failed on square {} for piece {}",
                sq,
                white_piece
            );
        }
    }
}

#[test]
fn pst_known_values() {
    let psts = construct_sf_pst();
    // a white knight on a1 has the last row of the knight's bonus, a black knight on a8
    // the same row turned round.
    assert_eq!(psts[2][0], S(-201, -100));
    assert_eq!(psts[8][56], S(201, 100));
    assert_eq!(psts[8][0], S(175, 96));
    // a white pawn on e4, a white king on g1.
    assert_eq!(psts[1][28], S(11, -5));
    assert_eq!(psts[6][6], S(89, 59));
    assert_eq!(psts[0][17], S(0, 0));
}
