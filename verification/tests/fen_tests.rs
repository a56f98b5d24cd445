use aster::board::fen::{parse_number, split_whitespace};
use aster::board::Board;
use aster::types::square::Square;

fn chars(s: &str) -> Vec<char> {
    s.chars().collect()
}

#[test]
fn fen_refuses_wrong_field_count() {
    assert_eq!(Board::from_fen("8/8/8 w").unwrap_err(), "Invalid FEN length.");
    assert_eq!(Board::from_fen("").unwrap_err(), "Invalid FEN length.");
    assert_eq!(Board::from_fen("startpos").unwrap_err(), "Invalid FEN length.");
}

#[test]
fn fen_refuses_bad_piece() {
    assert_eq!(Board::from_fen("rnbqkbnx/8/8/8/8/8/8/8 w - - 0 1").unwrap_err(), "Invalid piece character.");
    assert_eq!(Board::from_fen("9/8/8/8/8/8/8/8 w - - 0 1").unwrap_err(), "Invalid piece character.");
}

#[test]
fn fen_refuses_bad_side_castling_ep_clock() {
    assert_eq!(Board::from_fen("8/8/8/8/8/8/8/8 x - - 0 1").unwrap_err(), "Invalid side to move.");
    assert_eq!(Board::from_fen("8/8/8/8/8/8/8/8 w KX - 0 1").unwrap_err(), "Invalid castling validity.");
    assert_eq!(Board::from_fen("8/8/8/8/8/8/8/8 w - z9 0 1").unwrap_err(), "Invalid en passant target.");
    assert_eq!(Board::from_fen("8/8/8/8/8/8/8/8 w - - x 1").unwrap_err(), "Invalid half move.");
}

#[test]
fn fen_without_answer() {
    // a square off the board, a move number of 0, and one that is no u16
    assert!(Board::read_fen("8p/8/8/8/8/8/8/8 w - - 0 1").is_none());
    assert!(Board::read_fen("8/8/8/8/8/8/8/8 w - - 0 0").is_none());
    assert!(Board::read_fen("8/8/8/8/8/8/8/8 w - - 0 x").is_none());
    assert!(Board::read_fen("8/8/8/8/8/8/8/8/p w - - 0 1").is_none());
    assert!(Board::read_fen("8/8/8/8/8/8/8/8 w - - 0 1").unwrap().is_ok());
}

#[test]
fn fen_four_fields_and_black_to_move() {
    let board = Board::from_fen("4k3/8/8/8/8/8/8/4K3 b - e3").unwrap();
    assert!(!board.is_white_to_move());
    assert_eq!(board.ep_target(), Some(Square::E3()));
    assert_eq!(board.curr_flags().half_moves(), 0);
    let white = board.colors()[0].val();
    let black = board.colors()[1].val();
    assert_eq!(white, 0x10);
    assert_eq!(black, 0x1000_0000_0000_0000);
}

#[test]
fn fen_clock_with_plus_sign() {
    let board = Board::from_fen("4k3/8/8/8/8/8/8/4K3 w - - +7 2").unwrap();
    assert_eq!(board.curr_flags().half_moves(), 7);
    assert_eq!(Board::from_fen("4k3/8/8/8/8/8/8/4K3 w - - + 2").unwrap_err(), "Invalid half move.");
}

#[test]
fn split_and_numbers() {
    let toks = split_whitespace(&chars("  a bc\t d\u{3000}e  "));
    assert_eq!(toks, vec![chars("a"), chars("bc"), chars("d"), chars("e")]);
    assert_eq!(parse_number(&chars("123"), 1000), Some(123));
    assert_eq!(parse_number(&chars("+42"), 1000), Some(42));
    assert_eq!(parse_number(&chars("1001"), 1000), None);
    assert_eq!(parse_number(&chars("-1"), 1000), None);
    assert_eq!(parse_number(&chars(""), 1000), None);
    assert_eq!(parse_number(&chars("18446744073709551615"), u64::MAX), Some(u64::MAX));
    assert_eq!(parse_number(&chars("18446744073709551616"), u64::MAX), None);
}
