use aster::board::Board;
use aster::types::movement::Flag;
use aster::types::square::Square;

#[test]
fn moves_read_from_text() {
    let board = Board::STARTING_POSITION();
    let m = board.get_move_from_algebraic("e2e4").unwrap();
    assert_eq!(m.orig(), Square::E2());
    assert_eq!(m.targ(), Square::E4());
    assert_eq!(m.flag(), Flag::DoublePush);
    // a one-rank pawn step is a quiet move, not a double push
    assert_eq!(board.get_move_from_algebraic("e2e3").unwrap().flag(), Flag::Quiet);
    assert_eq!(board.get_move_from_algebraic("g1f3").unwrap().flag(), Flag::Quiet);
    assert_eq!(board.get_move_from_algebraic("z1f3").unwrap_err(), "Invalid algebraic square.");
    assert!(board.read_move("e2e").is_none());
    assert!(board.read_move("e7e8x").is_none());
}

#[test]
fn one_square_step_after_e4_is_quiet() {
    let board = Board::from_fen("rnbqkbnr/pppppppp/8/8/4P3/8/PPPP1PPP/RNBQKBNR b KQkq e3 0 1").unwrap();
    let m = board.get_move_from_algebraic("c7c6").unwrap();
    assert_eq!(m.orig(), Square::C7());
    assert_eq!(m.targ(), Square::C6());
    assert_eq!(m.flag(), Flag::Quiet);
    assert_eq!(board.get_move_from_algebraic("c7c5").unwrap().flag(), Flag::DoublePush);
}

#[test]
fn texts_measured_in_bytes() {
    let board = Board::STARTING_POSITION();
    // a two-byte first character: the origin is no square
    assert_eq!(board.get_move_from_algebraic("\u{e9}2e4").unwrap_err(), "Invalid algebraic square.");
    // a two-byte character where the target starts: the target is no square
    assert_eq!(board.get_move_from_algebraic("e2\u{e9}").unwrap_err(), "Invalid algebraic square.");
    // byte two falls inside a character
    assert!(board.read_move("e\u{e9}24").is_none());
    // six bytes
    assert!(board.read_move("e2e4\u{e9}").is_none());
}

#[test]
fn castling_and_promotion_read_from_text() {
    let board = Board::from_fen("r3k2r/1P6/8/8/8/8/8/R3K2R w KQkq - 0 1").unwrap();
    assert_eq!(board.get_move_from_algebraic("e1g1").unwrap().flag(), Flag::ShortCastle);
    assert_eq!(board.get_move_from_algebraic("e1c1").unwrap().flag(), Flag::LongCastle);
    assert_eq!(board.get_move_from_algebraic("b7b8q").unwrap().flag(), Flag::PromoteQ);
    assert_eq!(board.get_move_from_algebraic("b7a8n").unwrap().flag(), Flag::PromoteCaptureN);
    assert_eq!(board.get_move_from_algebraic("a1a8").unwrap().flag(), Flag::Capture);
}

#[test]
fn en_passant_read_from_text() {
    let board = Board::from_fen("4k3/8/8/3pP3/8/8/8/4K3 w - d6 0 2").unwrap();
    assert_eq!(board.get_move_from_algebraic("e5d6").unwrap().flag(), Flag::EnPassant);
}

#[test]
fn board_display_start() {
    let board = Board::STARTING_POSITION();
    let text = board.display();
    assert!(text.starts_with("\n 8 \u{2656} \u{2658} \u{2657} \u{2655} \u{2654} \u{2657} \u{2658} \u{2656}\n 7 "));
    assert!(text.contains("   a b c d e f g h\n\n"));
    assert!(text.contains("   White to move   \n"));
    assert!(text.contains("       0 ply       \n"));
    assert!(text.contains("     ep_targ --    \n"));
    assert!(text.contains("      NoPiece      \n"));
    assert!(text.ends_with("\nCastle legality\n     w    b\nk    \u{2713}    \u{2713}\nq    \u{2713}    \u{2713}\n"));
}
