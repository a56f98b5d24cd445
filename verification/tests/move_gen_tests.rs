use aster::board::move_gen::{n_move_gen, k_move_gen, b_move_gen, r_move_gen, q_move_gen, p_move_gen};
use aster::types::bitboard::Bitboard;
use aster::types::square::Square;

#[test]
fn test_n_move_gen() {
    let output = n_move_gen(Square::E4());
    let expected_output = Bitboard::new(0x0000284400442800);

    assert_eq!(output, expected_output);
}

#[test]
fn test_n_move_gen_edge_close() {
    let output = n_move_gen(Square::A4());
    let expected_output = Bitboard::new(0x0000020400040200);

    assert_eq!(output, expected_output);
}

#[test]
fn test_n_move_gen_edge_far() {
    let output = n_move_gen(Square::G5());
    let expected_output = Bitboard::new(0x00a0100010a00000);

    assert_eq!(output, expected_output);
}

#[test]
fn test_n_move_gen_corner() {
    let output = n_move_gen(Square::A1());
    let expected_output = Bitboard::new(0x0000000000020400);

    assert_eq!(output, expected_output);
}

#[test]
fn test_k_move_gen() {
    let output = k_move_gen(Square::E2());
    let expected_output = Bitboard::new(0x0000000000382838);

    assert_eq!(output, expected_output);
}

#[test]
fn test_k_move_gen_edge() {
    let output = k_move_gen(Square::A4());
    let expected_output = Bitboard::new(0x0000000302030000);

    assert_eq!(output, expected_output);
}

#[test]
fn test_k_move_gen_corner() {
    let output = k_move_gen(Square::H8());
    let expected_output = Bitboard::new(0x40c0000000000000);

    assert_eq!(output, expected_output);
}

#[test]
fn rook_on_empty_corner_sees_its_rank_and_file() {
    assert_eq!(r_move_gen(Square::A1(), Bitboard::EMPTY()), Bitboard::new(0x01010101010101fe));
}

#[test]
fn rook_stops_on_blockers() {
    // blockers on a3 and c1: the rook reaches them and nothing beyond
    let blockers = Bitboard::new(0x0000000000010004);
    assert_eq!(r_move_gen(Square::A1(), blockers), Bitboard::new(0x0000000000010106));
}

#[test]
fn bishop_on_empty_center() {
    assert_eq!(b_move_gen(Square::D4(), Bitboard::EMPTY()), Bitboard::new(0x8041221400142241));
}

#[test]
fn queen_is_rook_and_bishop() {
    let blockers = Bitboard::new(0x2c02740609802491);
    let q = q_move_gen(Square::E4(), blockers);
    let rb = r_move_gen(Square::E4(), blockers).bitor(b_move_gen(Square::E4(), blockers));
    assert_eq!(q, rb);
}

#[test]
fn white_pawn_on_second_rank_pushes_one_or_two() {
    let p = p_move_gen(Square::E2().bb(), true, Square::E2().bb(), Bitboard::EMPTY(), Bitboard::EMPTY());
    assert_eq!(p, Square::E3().bb().bitor(Square::E4().bb()));
}

#[test]
fn black_pawn_captures_and_takes_en_passant() {
    // black pawn on d4, white pieces on c3, en passant square e3
    let p = p_move_gen(Square::D4().bb(), false, Square::D4().bb(), Square::C3().bb(), Square::E3().bb());
    assert_eq!(p, Square::C3().bb().bitor(Square::E3().bb()).bitor(Square::D3().bb()));
}

#[test]
fn blocked_pawn_does_not_push() {
    let p = p_move_gen(Square::E2().bb(), true, Square::E2().bb(), Square::E3().bb(), Bitboard::EMPTY());
    assert_eq!(p, Bitboard::EMPTY());
}
