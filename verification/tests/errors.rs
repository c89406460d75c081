use viridithas::board::Board;
use viridithas::fen::FenError;
use viridithas::notation::MoveParseError;

fn refused(fen: &str) -> FenError {
    let mut board = Board::default();
    let e = board.set_from_fen(fen).unwrap_err();
    // a refused string leaves the board without pieces.
    assert_eq!(board.n_men(), 0);
    assert_eq!(board, Board::new());
    e
}

fn refused_960(fen: &str) -> FenError {
    let mut board = Board::new();
    board.set_chess960(true);
    board.set_from_fen(fen).unwrap_err()
}

#[test]
fn fen_faults_in_the_placement() {
    assert_eq!(refused("4k3/8/8/8/8/8/8/4K3é w - - 0 1"), FenError::NotAscii);
    assert_eq!(refused("4k3/8/8/8/8/8/8/4K3"), FenError::MissingSpace);
    assert_eq!(refused("4k3/8/8/8/8/8/8/4K2x w - - 0 1"), FenError::UnexpectedCharacter(b'x'));
    assert_eq!(refused("4k3/8/8/8/8/8/9/4K3 w - - 0 1"), FenError::UnexpectedCharacter(b'9'));
    assert_eq!(refused("4k3/8/8/8/8/8/8/4K3/8 w - - 0 1"), FenError::TooManyRanks);
    assert_eq!(refused("4k3/8/8/8/8/8/8/4K4 w - - 0 1"), FenError::RankTooLong);
    assert_eq!(refused("4k3/8/8/8/8/8/8/PPPPKPPPP w - - 0 1"), FenError::RankTooLong);
    assert_eq!(refused("8/8/8/8/8/8/8/8 w - - 0 1"), FenError::KingCount);
    assert_eq!(refused("4k3/8/8/8/8/8/8/3KK3 w - - 0 1"), FenError::KingCount);
    assert_eq!(refused("8/8/8/8/8/8/8/4K3 w - - 0 1"), FenError::KingCount);
}

#[test]
fn fen_faults_in_the_fields() {
    assert_eq!(refused("4k3/8/8/8/8/8/8/4K3 x - - 0 1"), FenError::InvalidSide);
    assert_eq!(refused("4k3/8/8/8/8/8/8/4K3 "), FenError::InvalidSide);
    assert_eq!(refused("4k3/8/8/8/8/8/8/4K3 w"), FenError::MissingCastling);
    assert_eq!(refused("4k3/8/8/8/8/8/8/4K3 w KX - 0 1"), FenError::InvalidCastling);
    assert_eq!(refused("4k3/8/8/8/8/8/8/4K3 w -"), FenError::MissingEnPassant);
    assert_eq!(refused("4k3/8/8/8/8/8/8/4K3 w - e9 0 1"), FenError::InvalidEnPassant);
    assert_eq!(refused("4k3/8/8/8/8/8/8/4K3 w - e33 0 1"), FenError::InvalidEnPassant);
    assert_eq!(refused("4k3/8/8/8/8/8/8/4K3 w - -"), FenError::MissingHalfmove);
    assert_eq!(refused("4k3/8/8/8/8/8/8/4K3 w - - x 1"), FenError::InvalidHalfmove);
    assert_eq!(refused("4k3/8/8/8/8/8/8/4K3 w - - 101 1"), FenError::InvalidHalfmove);
    assert_eq!(refused("4k3/8/8/8/8/8/8/4K3 w - - 0"), FenError::MissingFullmove);
    assert_eq!(refused("4k3/8/8/8/8/8/8/4K3 w - - 0 0"), FenError::InvalidFullmove);
    assert_eq!(refused("4k3/8/8/8/8/8/8/4K3 w - - 0 one"), FenError::InvalidFullmove);
    assert_eq!(
        refused("4k3/8/8/8/8/8/8/4K3 w - - 0 99999999999999999999999999"),
        FenError::InvalidFullmove
    );
}

#[test]
fn fen_faults_in_rights_by_file() {
    assert_eq!(refused_960("4k3/8/8/8/8/8/4K3/R6R w HA - 0 1"), FenError::KingNotOnBackRank);
    assert_eq!(refused_960("r6r/4k3/8/8/8/8/8/R3K2R w ha - 0 1"), FenError::KingNotOnBackRank);
    assert_eq!(refused_960("4k3/8/8/8/8/8/8/R3K2R w E - 0 1"), FenError::CastlingOnKingFile);
    assert_eq!(refused_960("r3k2r/8/8/8/8/8/8/4K3 w e - 0 1"), FenError::CastlingOnKingFile);
    assert_eq!(refused_960("4k3/8/8/8/8/8/8/R3K2R w KQ - 0 1"), FenError::InvalidCastling);
    assert_eq!(refused_960("4k3/8/8/8/8/8/8/R3K2R w H1 - 0 1"), FenError::InvalidCastling);
}

#[test]
fn fen_counters_are_read() {
    let board = Board::from_fen("4k3/8/8/8/8/8/8/4K3 b - - 37 52").unwrap();
    assert_eq!(board.fifty_move_counter(), 37);
    assert_eq!(board.ply(), 103);
    assert_eq!(board.full_move_number(), 52);
    let white = Board::from_fen("4k3/8/8/8/8/8/8/4K3 w - - 100 52").unwrap();
    assert_eq!(white.fifty_move_counter(), 100);
    assert_eq!(white.ply(), 102);
    assert_eq!(white.height(), 0);
    // what follows the six fields is not read.
    let more = Board::from_fen("4k3/8/8/8/8/8/8/4K3 w - - 0 1 ;D1 5").unwrap();
    assert_eq!(more.fen(), "4k3/8/8/8/8/8/8/4K3 w - - 0 1");
}

#[test]
fn uci_faults() {
    let board = Board::default();
    assert_eq!(board.parse_uci("e2e"), Err(MoveParseError::InvalidLength(3)));
    assert_eq!(board.parse_uci("e2e4e5"), Err(MoveParseError::InvalidLength(6)));
    assert_eq!(board.parse_uci("i2e4"), Err(MoveParseError::InvalidFromSquareFile(b'i')));
    assert_eq!(board.parse_uci("e9e4"), Err(MoveParseError::InvalidFromSquareRank(b'9')));
    assert_eq!(board.parse_uci("e2i4"), Err(MoveParseError::InvalidToSquareFile(b'i')));
    assert_eq!(board.parse_uci("e2e0"), Err(MoveParseError::InvalidToSquareRank(b'0')));
    assert_eq!(board.parse_uci("e7e8x"), Err(MoveParseError::InvalidPromotionPiece(b'x')));
    assert_eq!(board.parse_uci("e2e5"), Err(MoveParseError::IllegalMove));
    // a move that does not promote is not written with a piece.
    assert_eq!(board.parse_uci("e2e4q"), Err(MoveParseError::IllegalMove));
    assert_eq!(board.parse_uci("e7e8k"), Err(MoveParseError::IllegalMove));
}
