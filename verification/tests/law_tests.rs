use aster::board::Board;
use aster::types::movement::{Flag, Move};
use aster::types::square::Square;

#[test]
fn legal_moves_leave_the_position() {
    let before = Board::from_fen("r3k2r/Pppp1ppp/1b3nbN/nP6/BBP1P3/q4N2/Pp1P2PP/R2Q1RK1 w kq - 0 1").unwrap();
    let mut board = before.clone();
    let legal = board.legal_moves();
    assert_eq!(legal.len(), 6);
    assert_eq!(board, before);
}

#[test]
fn make_then_unmake_gives_back_the_position() {
    let before = Board::from_fen("4k3/8/8/3pP3/8/8/8/R3K2R w KQ d6 0 2").unwrap();
    for m in [
        Move::new(Square::E5(), Square::D6(), Flag::EnPassant),
        Move::new(Square::E1(), Square::G1(), Flag::ShortCastle),
        Move::new(Square::A1(), Square::A8(), Flag::Quiet),
    ] {
        let mut board = before.clone();
        board.make_move(&m);
        assert!(board != before);
        board.unmake_move(&m);
        assert_eq!(board, before);
    }
}

#[test]
fn check_and_castling_rights() {
    let mut board = Board::from_fen("r3k2r/8/2B5/8/8/8/8/2K5 b kq - 1 1").unwrap();
    assert!(board.in_check());
    assert!(!board.can_castle_short());
    assert!(!board.can_castle_long());
    let mut start = Board::STARTING_POSITION();
    assert!(!start.in_check());
    assert_eq!(start.moves().len(), 20);
    assert_eq!(start.legal_moves().len(), 20);
}

#[test]
fn attacks_of_the_start() {
    let board = Board::STARTING_POSITION();
    // pawn pushes and knight moves: ranks 3 and 4
    assert_eq!(board.attacks().val(), 0x0000_0000_ffff_0000);
}

#[test]
fn castling_rights_cleared_and_never_regained() {
    let mut board = Board::from_fen("r3k2r/8/8/8/8/8/8/R3K2R w KQkq - 0 1").unwrap();
    let rook_move = board.get_move_from_algebraic("h1h2").unwrap();
    board.make_move(&rook_move);
    let flags = board.curr_flags();
    assert!(!flags.can_castle_wk());
    assert!(flags.can_castle_wq());
    assert!(!board.is_white_to_move());
    let king_move = board.get_move_from_algebraic("e8d8").unwrap();
    board.make_move(&king_move);
    let flags = board.curr_flags();
    assert!(!flags.can_castle_bk() && !flags.can_castle_bq());
    assert!(!flags.can_castle_wk() && flags.can_castle_wq());
    let back = board.get_move_from_algebraic("h2h1").unwrap();
    board.make_move(&back);
    assert!(!board.curr_flags().can_castle_wk());
}

#[test]
fn four_field_fen_reads_as_clock_zero_move_one() {
    let four = "r3k2r/p1ppqpb1/bn2pnp1/3PN3/1p2P3/2N2Q1p/PPPBBPPP/R3K2R w KQkq -";
    let six = format!("{} 0 1", four);
    assert_eq!(Board::from_fen(four).unwrap(), Board::from_fen(&six).unwrap());
    assert_eq!(Board::from_fen(four).unwrap().curr_flags().half_moves(), 0);
}

#[test]
fn every_legal_move_is_undone_and_lands() {
    let before = Board::from_fen("r3k2r/p1ppqpb1/bn2pnp1/3PN3/1p2P3/2N2Q1p/PPPBBPPP/R3K2R w KQkq -").unwrap();
    let legal = before.clone().legal_moves();
    for m in legal.iter() {
        let mut board = before.clone();
        board.make_move(m);
        if !m.is_castle() {
            assert!(!(board.enemy().bitand(m.targ().bb())).is_empty());
            assert!((board.friend().bitor(board.enemy())).bitand(m.orig().bb()).is_empty());
        }
        board.unmake_move(m);
        assert_eq!(board, before);
    }
}

#[test]
fn captures_flagged_exactly_onto_enemies() {
    let mut board = Board::from_fen("r3k2r/p1ppqpb1/bn2pnp1/3PN3/1p2P3/2N2Q1p/PPPBBPPP/R3K2R w KQkq -").unwrap();
    let enemy = board.enemy();
    let friend = board.friend();
    for m in board.moves().iter() {
        if m.is_castle() {
            continue;
        }
        assert!(!friend.bitand(m.orig().bb()).is_empty());
        assert!(friend.bitand(m.targ().bb()).is_empty());
        let capture_flag = matches!(m.flag(), Flag::Capture | Flag::PromoteCaptureN | Flag::PromoteCaptureB
            | Flag::PromoteCaptureR | Flag::PromoteCaptureQ);
        assert_eq!(capture_flag, !enemy.bitand(m.targ().bb()).is_empty());
    }
}
