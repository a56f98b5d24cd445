use aster::bitboard::Bitboard as FirstBitboard;
use aster::square::Square as FirstSquare;
use aster::types::bitboard::Bitboard;
use aster::types::square::Square;

#[test]
fn bitboard_test_directional_circle() {
    let mut bb: Bitboard = Square::D4().bb();

    bb = bb.nort_one();
    assert_eq!(bb, Square::D5().bb());
    bb = bb.east_one();
    assert_eq!(bb, Square::E5().bb());
    bb = bb.sout_one();
    assert_eq!(bb, Square::E4().bb());
    bb = bb.west_one();
    assert_eq!(bb, Square::D4().bb());
}

#[test]
fn bitboard_test_directional_overflow() {
    assert_eq!(Square::B8().bb().nort_one(), Bitboard::EMPTY());
    assert_eq!(Square::H5().bb().east_one(), Bitboard::EMPTY());
    assert_eq!(Square::D1().bb().sout_one(), Bitboard::EMPTY());
    assert_eq!(Square::A2().bb().west_one(), Bitboard::EMPTY());
}

#[test]
fn test_directional_circle() {
    let mut bb: FirstBitboard = FirstSquare::D4().bb();

    bb = bb.nort_one();
    assert_eq!(bb, FirstSquare::D5().bb());
    bb = bb.east_one();
    assert_eq!(bb, FirstSquare::E5().bb());
    bb = bb.sout_one();
    assert_eq!(bb, FirstSquare::E4().bb());
    bb = bb.west_one();
    assert_eq!(bb, FirstSquare::D4().bb());
}

#[test]
fn test_directional_overflow() {
    assert_eq!(FirstSquare::B8().bb().nort_one(), FirstBitboard::EMPTY());
    assert_eq!(FirstSquare::H5().bb().east_one(), FirstBitboard::EMPTY());
    assert_eq!(FirstSquare::D1().bb().sout_one(), FirstBitboard::EMPTY());
    assert_eq!(FirstSquare::A2().bb().west_one(), FirstBitboard::EMPTY());
}
