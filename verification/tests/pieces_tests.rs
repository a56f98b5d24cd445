use aster::pieces::{n_moves, k_moves, r_moves, b_moves, q_moves};
use aster::board::move_gen::{r_move_gen, b_move_gen, n_move_gen};
use aster::types::bitboard::Bitboard;
use aster::types::square::Square;

#[test]
fn test_n_moves() {
    let output = n_moves(Square::E4());
    let expected_output = Bitboard::new(0x0000284400442800);

    assert_eq!(output, expected_output);
}

#[test]
fn test_n_moves_edge_close() {
    let output = n_moves(Square::A4());
    let expected_output = Bitboard::new(0x0000020400040200);

    assert_eq!(output, expected_output);
}

#[test]
fn test_n_moves_edge_far() {
    let output = n_moves(Square::G5());
    let expected_output = Bitboard::new(0x00a0100010a00000);

    assert_eq!(output, expected_output);
}

#[test]
fn test_n_moves_corner() {
    let output = n_moves(Square::A1());
    let expected_output = Bitboard::new(0x0000000000020400);

    assert_eq!(output, expected_output);
}

#[test]
fn test_k_moves() {
    let output = k_moves(Square::E2());
    let expected_output = Bitboard::new(0x0000000000382838);

    assert_eq!(output, expected_output);
}

#[test]
fn test_k_moves_edge() {
    let output = k_moves(Square::A4());
    let expected_output = Bitboard::new(0x0000000302030000);

    assert_eq!(output, expected_output);
}

#[test]
fn test_k_moves_corner() {
    let output = k_moves(Square::H8());
    let expected_output = Bitboard::new(0x40c0000000000000);

    assert_eq!(output, expected_output);
}

#[test]
fn sliders_agree_with_move_gen() {
    let blockers = [Bitboard::new(0), Bitboard::new(0x3104a4008820e094), Bitboard::new(0x2c02740609802491)];
    for b in blockers {
        for i in 0..64u8 {
            let sq = aster::types::square::Square::new(i).unwrap();
            assert_eq!(r_moves(sq, b), r_move_gen(sq, b));
            assert_eq!(b_moves(sq, b), b_move_gen(sq, b));
            assert_eq!(q_moves(sq, b), r_move_gen(sq, b).bitor(b_move_gen(sq, b)));
            assert_eq!(n_moves(sq), n_move_gen(sq));
        }
    }
}
