use aster::bitboard::Bitboard;
use aster::legal_moves::king_move_gen;
use aster::square::Square;

#[test]
fn test_king_move_gen() {
    let output = king_move_gen(Square::E2().bb());
    let expected_output = Bitboard::new(0x3828380000000000);

    assert_eq!(output, expected_output);
}

#[test]
fn test_king_move_gen_edge() {
    let output = king_move_gen(Square::A4().bb());
    let expected_output = Bitboard::new(0x00030203000000);

    assert_eq!(output, expected_output);
}

#[test]
fn test_king_move_gen_corner() {
    let output = king_move_gen(Square::H8().bb());
    let expected_output = Bitboard::new(0x0000000000c040);

    assert_eq!(output, expected_output);
}

#[test]
fn first_layout_directions_circle() {
    let mut bb = Square::D4().bb();
    bb = bb.nort_one();
    assert_eq!(bb, Square::D5().bb());
    bb = bb.east_one();
    assert_eq!(bb, Square::E5().bb());
    bb = bb.sout_one();
    assert_eq!(bb, Square::E4().bb());
    bb = bb.west_one();
    assert_eq!(bb, Square::D4().bb());
    assert_eq!(Square::B8().bb().nort_one(), Bitboard::EMPTY());
    assert_eq!(Square::D1().bb().sout_one(), Bitboard::EMPTY());
}
