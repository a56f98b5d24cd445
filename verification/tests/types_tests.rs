use aster::movement::Move as FirstMove;
use aster::square::Square as FirstSquare;
use aster::types::bitboard::Bitboard;
use aster::types::movement::{Flag, Move};
use aster::types::piece::Piece;
use aster::types::square::Square;
use aster::types::state_metadata::BoardStateFlags;

#[test]
fn flags_read_back() {
    let f = BoardStateFlags::new(true, false, true, false, Some(Square::C6()), Piece::Knight, Square::F3(), 99);
    assert!(f.has_data());
    assert!(f.can_castle_wk() && !f.can_castle_wq() && f.can_castle_bk() && !f.can_castle_bq());
    assert!(f.has_ep_target());
    assert_eq!(f.ep_target(), Some(Square::C6()));
    assert_eq!(f.ep_target_unchecked(), Square::C6());
    assert_eq!(f.captured_piece(), Piece::Knight);
    assert_eq!(f.captured_piece_sq(), Square::F3());
    assert_eq!(f.half_moves(), 99);
    assert!(!f.fifty_move_rule());
    let g = BoardStateFlags::new(false, false, false, false, None, Piece::NoPiece, Square::A1(), 100);
    assert!(g.fifty_move_rule());
    assert_eq!(g.ep_target(), None);
}

#[test]
fn flags_after_a_move() {
    let f = BoardStateFlags::STARTING();
    let g = f.next_move(false, true, true, false, false, Some(Square::E3()), Piece::NoPiece, Square::E4());
    assert!(!g.can_castle_wk() && !g.can_castle_wq() && g.can_castle_bk() && g.can_castle_bq());
    assert_eq!(g.ep_target(), Some(Square::E3()));
    assert_eq!(g.half_moves(), 1);
    let h = g.next_move(true, false, false, false, false, None, Piece::Pawn, Square::D5());
    assert_eq!(h.half_moves(), 0);
    assert_eq!(h.captured_piece(), Piece::Pawn);
    assert_eq!(h.captured_piece_sq(), Square::D5());
    assert_eq!(h.ep_target(), None);
}

#[test]
fn flags_display() {
    let f = BoardStateFlags::new(false, true, false, false, Some(Square::G3()), Piece::Rook, Square::H8(), 12);
    let text = f.display();
    assert_eq!(
        text,
        "     ep_targ g3    \n      prev_cap     \n     Rook on h8    \n    hm_clock 12    \n\nCastle legality\n     w    b\nk    \u{10102}    \u{10102}\nq    \u{2713}    \u{10102}\n"
    );
}

#[test]
fn moves_pack_and_unpack() {
    let m = Move::new(Square::E7(), Square::E8(), Flag::PromoteCaptureQ);
    assert_eq!(m.orig(), Square::E7());
    assert_eq!(m.targ(), Square::E8());
    assert_eq!(m.flag(), Flag::PromoteCaptureQ);
    assert!(m.is_capture() && m.is_promotion() && !m.is_castle() && !m.is_en_passant());
    assert_eq!(m.promotion_piece(), Piece::Queen);
    assert_eq!(m.display(), "e7e8q PromoteCaptureQ");
    let push = Move::new(Square::D7(), Square::D5(), Flag::DoublePush);
    assert_eq!(push.ep_square(), Some(Square::D6()));
    assert_eq!(Move::new(Square::D7(), Square::D6(), Flag::Quiet).ep_square(), None);
    assert!(Move::SHORT_CASTLE().is_castle());
    assert_eq!(Flag::new(0b0110), Err("Invalid move flag range."));
    assert_eq!(Flag::new(0b0101), Ok(Flag::EnPassant));
    assert_eq!(Flag::EnPassant.val(), 0b0101);
}

#[test]
fn pieces_and_squares() {
    assert_eq!(Piece::new(7), Err("Invalid piece creation range."));
    assert_eq!(Piece::new(3), Ok(Piece::Bishop));
    assert_eq!(Piece::Queen.index(), 4);
    assert!(!Piece::NoPiece.is_piece());
    assert_eq!(Piece::King.name(), "King");
    assert_eq!(Square::new(64), Err("Invalid square index."));
    assert_eq!(Square::from_coord(3, 4), Ok(Square::E4()));
    assert_eq!(Square::from_algebraic("e4"), Ok(Square::E4()));
    assert_eq!(Square::from_algebraic("i9"), Err("Invalid algebraic square."));
    assert_eq!(Square::E4().algebraic(), "e4");
    assert_eq!(Square::from_bb(Square::C3().bb()), Ok(Square::C3()));
    assert!(Square::from_bb(Bitboard::new(3)).is_err());
    assert_eq!(Square::H8().try_offset(1, 0), None);
    assert_eq!(Square::A1().try_offset(1, 2), Some(Square::C2()));
}

#[test]
fn bitboard_set_operations() {
    let mut b = Bitboard::new(0b1011);
    assert_eq!(b.index(), 0);
    assert_eq!(b.pop_lsb(), Square::A1());
    assert_eq!(b.val(), 0b1010);
    b.bitand_assign(Bitboard::new(0b0010));
    assert_eq!(b.val(), 0b0010);
    b.bitor_assign(Bitboard::new(0b0100));
    assert_eq!(b.val(), 0b0110);
    assert!(!b.is_one());
    assert!(Bitboard::new(0b0100).is_one());
    assert_eq!(Bitboard::new(0x8000).rank(), 1);
    assert_eq!(Bitboard::new(0x8000).file(), 7);
    assert_eq!(Bitboard::EMPTY().index(), 64);
    assert_eq!(b.bitxor(Bitboard::UNIVERSE()).val(), !0b0110u64);
}

#[test]
fn first_layout_moves_print() {
    let m = FirstMove::new(FirstSquare::A1(), FirstSquare::A3(), Flag::Quiet);
    assert_eq!(m.display(), "Move(a1 to a3, Quiet)");
    // the target is printed from the byte above the flag, which also holds two bits of the origin
    let push = FirstMove::new(FirstSquare::E2(), FirstSquare::E4(), Flag::DoublePush);
    assert_eq!(push.display(), "Move(e2 to a1, DoublePush)");
    let m2 = FirstMove::new(FirstSquare::E1(), FirstSquare::G1(), Flag::ShortCastle);
    assert_eq!(m2.display(), "Move(e1 to g1, ShortCastle)");
}

#[test]
fn bitboard_squares_in_order() {
    let mut b = Bitboard::new(0x8000_0000_0000_0011);
    assert_eq!(b.next_square(), Some(Square::A1()));
    assert_eq!(b.next_square(), Some(Square::E1()));
    assert_eq!(b.next_square(), Some(Square::H8()));
    assert_eq!(b.next_square(), None);
    assert_eq!(b.val(), 0);
}

#[test]
fn construction_errors() {
    assert_eq!(Square::new(64).unwrap_err(), "Invalid square index.");
    assert_eq!(Piece::new(7).unwrap_err(), "Invalid piece creation range.");
    assert_eq!(Flag::new(6).unwrap_err(), "Invalid move flag range.");
    assert_eq!(Flag::new(16).unwrap_err(), "Invalid move flag range.");
    assert_eq!(Square::from_coord(8, 0).unwrap_err(), "Invalid square coordinates.");
}

#[test]
fn debug_texts() {
    let mut grid = String::from("\n");
    for _ in 0..7 {
        grid.push_str("0 0 0 0 0 0 0 0 \n");
    }
    grid.push_str("1 0 0 0 0 0 0 0 \n");
    assert_eq!(Bitboard::new(1).debug_text(), format!("{}\nHex:\n0000000000000001", grid));

    let mut first = String::from("\n1 0 0 0 0 0 0 0 \n");
    for _ in 0..7 {
        first.push_str("0 0 0 0 0 0 0 0 \n");
    }
    assert_eq!(aster::bitboard::Bitboard::new(1).debug_text(), first);

    let m = Move::new(Square::E2(), Square::E4(), Flag::DoublePush);
    assert_eq!(m.debug_text(), "0011000111000001");
    assert_eq!(FirstSquare::new(5).unwrap().debug_text(), "000101");
    let fm = FirstMove::new(FirstSquare::new(1).unwrap(), FirstSquare::new(3).unwrap(), Flag::Quiet);
    assert_eq!(fm.debug_text(), "0000010000110000");
    assert_eq!(BoardStateFlags::STARTING().debug_text(), "1 1111 0 00000000 NoPiece a1 0");
    assert_eq!(
        aster::board::Board::STARTING_POSITION().debug_text(),
        "    color_bb\n0x000000000000ffff\n0xffff000000000000\n    piece_bb\n0x00ff00000000ff00\n0x4200000000000042\n\
         0x2400000000000024\n0x8100000000000081\n0x0800000000000008\n0x1000000000000010\n1 1111 0 00000000 NoPiece a1 0\n"
    );
}
