use aster::board::Board;

fn check_nodes(pos: &Board, expected_nodes: &[u128]) {
    for (i, expected) in expected_nodes.iter().enumerate() {
        let mut duplicate = pos.clone();
        let output = duplicate.perft(i as u32 + 1);
        assert_eq!(duplicate, *pos);
        assert_eq!(output.0, *expected);
    }
}

#[test]
fn perft_pos_2_to_depth_3() {
    let pos = Board::from_fen("r3k2r/p1ppqpb1/bn2pnp1/3PN3/1p2P3/2N2Q1p/PPPBBPPP/R3K2R w KQkq -").unwrap();
    check_nodes(&pos, &[48, 2039, 97862]);
}

#[test]
fn perft_pos_2_depth_4() {
    let pos = Board::from_fen("r3k2r/p1ppqpb1/bn2pnp1/3PN3/1p2P3/2N2Q1p/PPPBBPPP/R3K2R w KQkq -").unwrap();
    let mut duplicate = pos.clone();
    assert_eq!(duplicate.perft(4), (4085603, 757163, 1929, 128013, 15172));
    assert_eq!(duplicate, pos);
}

#[test]
fn perft_pos_2_kind_counts_to_depth_3() {
    let pos = Board::from_fen("r3k2r/p1ppqpb1/bn2pnp1/3PN3/1p2P3/2N2Q1p/PPPBBPPP/R3K2R w KQkq -").unwrap();
    let expected = [(48, 8, 0, 2, 0), (2039, 351, 1, 91, 0), (97862, 17102, 45, 3162, 0)];
    for (i, e) in expected.iter().enumerate() {
        let mut duplicate = pos.clone();
        assert_eq!(duplicate.perft(i as u32 + 1), *e);
    }
}

#[test]
fn perft_pos_3_kind_counts_to_depth_4() {
    let pos = Board::from_fen("8/2p5/3p4/KP5r/1R3p1k/8/4P1P1/8 w - -").unwrap();
    let expected = [(14, 1, 0, 0, 0), (191, 14, 0, 0, 0), (2812, 209, 2, 0, 0), (43238, 3348, 123, 0, 0)];
    for (i, e) in expected.iter().enumerate() {
        let mut duplicate = pos.clone();
        assert_eq!(duplicate.perft(i as u32 + 1), *e);
    }
}

#[test]
fn perft_start_kind_counts_depth_3_and_4() {
    let mut board = Board::STARTING_POSITION();
    assert_eq!(board.perft(3), (8902, 34, 0, 0, 0));
    assert_eq!(board.perft(4), (197281, 1576, 0, 0, 0));
    assert_eq!(board, Board::STARTING_POSITION());
}

#[test]
fn perft_pos_4_to_depth_4() {
    let pos = Board::from_fen("r3k2r/Pppp1ppp/1b3nbN/nP6/BBP1P3/q4N2/Pp1P2PP/R2Q1RK1 w kq - 0 1").unwrap();
    check_nodes(&pos, &[6, 264, 9467, 422333]);
}

#[test]
fn perft_start_counts_depth_1_and_2() {
    let mut board = Board::STARTING_POSITION();
    assert_eq!(board.perft(1), (20, 0, 0, 0, 0));
    assert_eq!(board.perft(2), (400, 0, 0, 0, 0));
    assert_eq!(board.perft(0), (1, 0, 0, 0, 0));
}

#[test]
fn perft_divide_start_depth_2() {
    let mut board = Board::STARTING_POSITION();
    let divided = board.perft_divide(2);
    assert_eq!(divided.len(), 20);
    let total: u128 = divided.iter().map(|entry| entry.1).sum();
    assert_eq!(total, 400);
    for entry in divided.iter() {
        assert_eq!(entry.1, 20);
    }
    assert!(board.perft_divide(0).is_empty());
    assert_eq!(board, Board::STARTING_POSITION());
}
