//! The part of a position that the pieces do not show, packed into 32 bits:
//!
//! | bits   | field                                      |
//! |--------|--------------------------------------------|
//! | 31     | the word holds data                        |
//! | 30..27 | castling rights: white king/queen side, black king/queen side |
//! | 26     | an en passant target exists                |
//! | 25..20 | the en passant target square               |
//! | 19..17 | the piece the last move captured           |
//! | 16..11 | the square of that capture                 |
//! | 10..0  | the half-move clock                        |
use vstd::prelude::*;
use crate::types::piece::{Piece, piece_of_code};
use crate::types::square::{Square, opt_index, algebraic_name};
use crate::types::piece::piece_name;
use crate::text::{center, decimal, push_text, push_centered, push_decimal, string_of};

verus! {

pub const HAS_DATA_MASK: u32 = 0x8000_0000;
pub const CASTLE_WK_MASK: u32 = 0x4000_0000;
pub const CASTLE_WQ_MASK: u32 = 0x2000_0000;
pub const CASTLE_BK_MASK: u32 = 0x1000_0000;
pub const CASTLE_BQ_MASK: u32 = 0x0800_0000;
pub const EP_TARG_EXIST_MASK: u32 = 0x0400_0000;
pub const EP_TARG_MASK: u32 = 0x03f0_0000;
pub const EP_MASK: u32 = 0x07f0_0000;
pub const CAPTURED_PIECE_MASK: u32 = 0x000e_0000;
pub const PREV_SQUARE_MASK: u32 = 0x0001_f800;
pub const CAPTURED_MASK: u32 = 0x000f_f800;
pub const HALF_MOVE_MASK: u32 = 0x0000_07ff;

pub const EP_TARG_PAD: u32 = 20;
pub const CAPTURED_PIECE_PAD: u32 = 17;
pub const PREV_SQUARE_PAD: u32 = 11;

pub open spec fn has_data(v: u32) -> bool {
    v & HAS_DATA_MASK != 0
}

pub open spec fn castle_wk(v: u32) -> bool {
    v & CASTLE_WK_MASK != 0
}

pub open spec fn castle_wq(v: u32) -> bool {
    v & CASTLE_WQ_MASK != 0
}

pub open spec fn castle_bk(v: u32) -> bool {
    v & CASTLE_BK_MASK != 0
}

pub open spec fn castle_bq(v: u32) -> bool {
    v & CASTLE_BQ_MASK != 0
}

pub open spec fn ep_exists(v: u32) -> bool {
    v & EP_TARG_EXIST_MASK != 0
}

pub open spec fn ep_index(v: u32) -> u32 {
    (v & EP_TARG_MASK) >> EP_TARG_PAD
}

/// The en passant target the word records, if any.
pub open spec fn ep_target_of(v: u32) -> Option<int> {
    if ep_exists(v) {
        Some(ep_index(v) as int)
    } else {
        None
    }
}

pub open spec fn captured_code(v: u32) -> u32 {
    (v & CAPTURED_PIECE_MASK) >> CAPTURED_PIECE_PAD
}

pub open spec fn captured_sq(v: u32) -> u32 {
    (v & PREV_SQUARE_MASK) >> PREV_SQUARE_PAD
}

pub open spec fn half_moves_of(v: u32) -> u32 {
    v & HALF_MOVE_MASK
}

/// The word `new` builds before it adds the half-move clock.
pub open spec fn pack_fields(
    wk: bool,
    wq: bool,
    bk: bool,
    bq: bool,
    ep: Option<int>,
    captured: Piece,
    captured_square: int,
) -> u32 {
    let castles = (if wk { CASTLE_WK_MASK } else { 0u32 }) | (if wq { CASTLE_WQ_MASK } else { 0u32 })
        | (if bk { CASTLE_BK_MASK } else { 0u32 }) | (if bq { CASTLE_BQ_MASK } else { 0u32 });
    let ep_bits = match ep {
        Some(e) => EP_TARG_EXIST_MASK | ((e as u32) << EP_TARG_PAD),
        None => 0u32,
    };
    let cap_bits = if captured != Piece::NoPiece {
        ((captured.code() as u32) << CAPTURED_PIECE_PAD) | ((captured_square as u32) << PREV_SQUARE_PAD)
    } else {
        0u32
    };
    HAS_DATA_MASK | castles | ep_bits | cap_bits
}

/// The word `next_move` builds from `v`.
pub open spec fn next_word(
    v: u32,
    reset_clock: bool,
    disable_wk: bool,
    disable_wq: bool,
    disable_bk: bool,
    disable_bq: bool,
    ep: Option<int>,
    captured: Piece,
    captured_square: int,
) -> u32 {
    let clocked = if reset_clock { v & !HALF_MOVE_MASK } else { (v + 1) as u32 };
    let disabled = (if disable_wk { CASTLE_WK_MASK } else { 0u32 }) | (if disable_wq { CASTLE_WQ_MASK } else { 0u32 })
        | (if disable_bk { CASTLE_BK_MASK } else { 0u32 }) | (if disable_bq { CASTLE_BQ_MASK } else { 0u32 });
    let ep_bits = match ep {
        Some(e) => EP_TARG_EXIST_MASK | ((e as u32) << EP_TARG_PAD),
        None => 0u32,
    };
    let cap_bits = if captured != Piece::NoPiece {
        ((captured.code() as u32) << CAPTURED_PIECE_PAD) | ((captured_square as u32) << PREV_SQUARE_PAD)
    } else {
        0u32
    };
    (clocked & !disabled & !EP_MASK & !CAPTURED_MASK) | ep_bits | cap_bits
}


/// What `new` writes reads back: every field holds the value it was given,
/// provided the clock fits its eleven bits.
pub proof fn lemma_pack_fields_read_back(
    wk: bool,
    wq: bool,
    bk: bool,
    bq: bool,
    ep: Option<int>,
    captured: Piece,
    captured_square: int,
    half: u32,
)
    requires
        ep matches Some(e) ==> 0 <= e < 64,
        0 <= captured_square < 64,
        half < 2048,
    ensures
        ({
            let v = (pack_fields(wk, wq, bk, bq, ep, captured, captured_square) + half) as u32;
            &&& has_data(v)
            &&& castle_wk(v) == wk
            &&& castle_wq(v) == wq
            &&& castle_bk(v) == bk
            &&& castle_bq(v) == bq
            &&& ep_target_of(v) == ep
            &&& captured_code(v) == (if captured != Piece::NoPiece { captured.code() } else { 0 })
            &&& captured_sq(v) == (if captured != Piece::NoPiece { captured_square } else { 0 })
            &&& half_moves_of(v) == half
        }),
{
    let x = match ep { Some(e) => e as u32, None => 0u32 };
    let ex = ep is Some;
    let is_p = captured != Piece::NoPiece;
    let c = captured.code() as u32;
    let sq = captured_square as u32;
    let castles = (if wk { CASTLE_WK_MASK } else { 0u32 }) | (if wq { CASTLE_WQ_MASK } else { 0u32 })
        | (if bk { CASTLE_BK_MASK } else { 0u32 }) | (if bq { CASTLE_BQ_MASK } else { 0u32 });
    let ep_bits = if ex { EP_TARG_EXIST_MASK | (x << EP_TARG_PAD) } else { 0u32 };
    let cap_bits = if is_p { (c << CAPTURED_PIECE_PAD) | (sq << PREV_SQUARE_PAD) } else { 0u32 };
    assert(pack_fields(wk, wq, bk, bq, ep, captured, captured_square) == HAS_DATA_MASK | castles | ep_bits | cap_bits);
    let v = ((HAS_DATA_MASK | castles | ep_bits | cap_bits) + half) as u32;
    assert({
        &&& v & 0x8000_0000u32 != 0
        &&& (v & 0x4000_0000u32 != 0) == wk
        &&& (v & 0x2000_0000u32 != 0) == wq
        &&& (v & 0x1000_0000u32 != 0) == bk
        &&& (v & 0x0800_0000u32 != 0) == bq
        &&& (v & 0x0400_0000u32 != 0) == ex
        &&& (ex ==> (v & 0x03f0_0000u32) >> 20u32 == x)
        &&& (v & 0x000e_0000u32) >> 17u32 == (if is_p { c } else { 0u32 })
        &&& (v & 0x0001_f800u32) >> 11u32 == (if is_p { sq } else { 0u32 })
        &&& v & 0x0000_07ffu32 == half
    }) by (bit_vector)
        requires
            x < 64,
            c < 8,
            sq < 64,
            half < 2048,
            castles == (if wk { 0x4000_0000u32 } else { 0u32 }) | (if wq { 0x2000_0000u32 } else { 0u32 }) | (if bk { 0x1000_0000u32 } else { 0u32 }) | (if bq { 0x0800_0000u32 } else { 0u32 }),
            ep_bits == (if ex { 0x0400_0000u32 | (x << 20u32) } else { 0u32 }),
            cap_bits == (if is_p { (c << 17u32) | (sq << 11u32) } else { 0u32 }),
            v == ((0x8000_0000u32 | castles | ep_bits | cap_bits) + half) as u32,
    ;
}

/// What `next_move` writes: the clock reset or advanced (modulo its eleven
/// bits), castling rights cleared where asked, the en passant target and the
/// capture replaced, and the data bit kept. The previous capture field must hold
/// a piece code, which is what keeps a carry out of the clock inside it.
pub proof fn lemma_next_word_fields(
    v: u32,
    reset_clock: bool,
    dwk: bool,
    dwq: bool,
    dbk: bool,
    dbq: bool,
    ep: Option<int>,
    captured: Piece,
    captured_square: int,
)
    requires
        captured_code(v) != 7,
        ep matches Some(e) ==> 0 <= e < 64,
        0 <= captured_square < 64,
    ensures
        ({
            let w = next_word(v, reset_clock, dwk, dwq, dbk, dbq, ep, captured, captured_square);
            &&& has_data(w) == has_data(v)
            &&& castle_wk(w) == (castle_wk(v) && !dwk)
            &&& castle_wq(w) == (castle_wq(v) && !dwq)
            &&& castle_bk(w) == (castle_bk(v) && !dbk)
            &&& castle_bq(w) == (castle_bq(v) && !dbq)
            &&& ep_target_of(w) == ep
            &&& captured_code(w) == (if captured != Piece::NoPiece { captured.code() } else { 0 })
            &&& captured_sq(w) == (if captured != Piece::NoPiece { captured_square } else { 0 })
            &&& half_moves_of(w) == (if reset_clock { 0 } else { (half_moves_of(v) + 1) % 2048 })
            &&& captured_code(w) != 7
        }),
{
    let x = match ep { Some(e) => e as u32, None => 0u32 };
    let ex = ep is Some;
    let is_p = captured != Piece::NoPiece;
    let c = captured.code() as u32;
    let sq = captured_square as u32;
    let disabled = (if dwk { CASTLE_WK_MASK } else { 0u32 }) | (if dwq { CASTLE_WQ_MASK } else { 0u32 })
        | (if dbk { CASTLE_BK_MASK } else { 0u32 }) | (if dbq { CASTLE_BQ_MASK } else { 0u32 });
    let ep_bits = if ex { EP_TARG_EXIST_MASK | (x << EP_TARG_PAD) } else { 0u32 };
    let cap_bits = if is_p { (c << CAPTURED_PIECE_PAD) | (sq << PREV_SQUARE_PAD) } else { 0u32 };
    let clocked = if reset_clock { v & !HALF_MOVE_MASK } else { (v + 1) as u32 };
    let w = (clocked & !disabled & !EP_MASK & !CAPTURED_MASK) | ep_bits | cap_bits;
    assert(w == next_word(v, reset_clock, dwk, dwq, dbk, dbq, ep, captured, captured_square));
    let r = reset_clock;
    assert({
        &&& (w & 0x8000_0000u32 != 0) == (v & 0x8000_0000u32 != 0)
        &&& (w & 0x4000_0000u32 != 0) == (v & 0x4000_0000u32 != 0 && !dwk)
        &&& (w & 0x2000_0000u32 != 0) == (v & 0x2000_0000u32 != 0 && !dwq)
        &&& (w & 0x1000_0000u32 != 0) == (v & 0x1000_0000u32 != 0 && !dbk)
        &&& (w & 0x0800_0000u32 != 0) == (v & 0x0800_0000u32 != 0 && !dbq)
        &&& (w & 0x0400_0000u32 != 0) == ex
        &&& (ex ==> (w & 0x03f0_0000u32) >> 20u32 == x)
        &&& (w & 0x000e_0000u32) >> 17u32 == (if is_p { c } else { 0u32 })
        &&& (w & 0x0001_f800u32) >> 11u32 == (if is_p { sq } else { 0u32 })
        &&& w & 0x0000_07ffu32 == (if r { 0int } else { ((v & 0x0000_07ffu32) + 1) % 2048 })
    }) by (bit_vector)
        requires
            (v & 0x000e_0000u32) >> 17u32 != 7,
            x < 64,
            c < 7,
            sq < 64,
            disabled == (if dwk { 0x4000_0000u32 } else { 0u32 }) | (if dwq { 0x2000_0000u32 } else { 0u32 }) | (if dbk { 0x1000_0000u32 } else { 0u32 }) | (if dbq { 0x0800_0000u32 } else { 0u32 }),
            ep_bits == (if ex { 0x0400_0000u32 | (x << 20u32) } else { 0u32 }),
            cap_bits == (if is_p { (c << 17u32) | (sq << 11u32) } else { 0u32 }),
            clocked == (if r { v & !0x0000_07ffu32 } else { (v + 1) as u32 }),
            w == (clocked & !disabled & !0x07f0_0000u32 & !0x000f_f800u32) | ep_bits | cap_bits,
    ;
}


/// The capture fields `next_move` writes, whatever the word it starts from.
pub proof fn lemma_next_word_capture(
    v: u32,
    reset_clock: bool,
    dwk: bool,
    dwq: bool,
    dbk: bool,
    dbq: bool,
    ep: Option<int>,
    captured: Piece,
    captured_square: int,
)
    requires
        ep matches Some(e) ==> 0 <= e < 64,
        0 <= captured_square < 64,
    ensures
        ({
            let w = next_word(v, reset_clock, dwk, dwq, dbk, dbq, ep, captured, captured_square);
            &&& captured_code(w) == (if captured != Piece::NoPiece { captured.code() } else { 0 })
            &&& captured_sq(w) == (if captured != Piece::NoPiece { captured_square } else { 0 })
            &&& ep_target_of(w) == ep
        }),
{
    let x = match ep { Some(e) => e as u32, None => 0u32 };
    let ex = ep is Some;
    let is_p = captured != Piece::NoPiece;
    let c = captured.code() as u32;
    let sq = captured_square as u32;
    let disabled = (if dwk { CASTLE_WK_MASK } else { 0u32 }) | (if dwq { CASTLE_WQ_MASK } else { 0u32 })
        | (if dbk { CASTLE_BK_MASK } else { 0u32 }) | (if dbq { CASTLE_BQ_MASK } else { 0u32 });
    let ep_bits = if ex { EP_TARG_EXIST_MASK | (x << EP_TARG_PAD) } else { 0u32 };
    let cap_bits = if is_p { (c << CAPTURED_PIECE_PAD) | (sq << PREV_SQUARE_PAD) } else { 0u32 };
    let clocked = if reset_clock { v & !HALF_MOVE_MASK } else { (v + 1) as u32 };
    let w = (clocked & !disabled & !EP_MASK & !CAPTURED_MASK) | ep_bits | cap_bits;
    assert(w == next_word(v, reset_clock, dwk, dwq, dbk, dbq, ep, captured, captured_square));
    assert({
        &&& (w & 0x0400_0000u32 != 0) == ex
        &&& (ex ==> (w & 0x03f0_0000u32) >> 20u32 == x)
        &&& (w & 0x000e_0000u32) >> 17u32 == (if is_p { c } else { 0u32 })
        &&& (w & 0x0001_f800u32) >> 11u32 == (if is_p { sq } else { 0u32 })
    }) by (bit_vector)
        requires
            x < 64,
            c < 7,
            sq < 64,
            ep_bits == (if ex { 0x0400_0000u32 | (x << 20u32) } else { 0u32 }),
            cap_bits == (if is_p { (c << 17u32) | (sq << 11u32) } else { 0u32 }),
            w == (clocked & !disabled & !0x07f0_0000u32 & !0x000f_f800u32) | ep_bits | cap_bits,
    ;
}

/// The ranges of the square and piece fields.
/// The square and piece fields of a word are in range.
pub proof fn lemma_field_ranges(x: u32)
    by (bit_vector)
    ensures
        (x & 0x03f0_0000u32) >> 20u32 < 64,
        (x & 0x000e_0000u32) >> 17u32 < 8,
        (x & 0x0001_f800u32) >> 11u32 < 64,
{
}

#[derive(Copy, Clone, Debug, PartialEq, Eq, Structural)]
pub struct BoardStateFlags(u32);

impl View for BoardStateFlags {
    type V = u32;

    closed spec fn view(&self) -> u32 {
        self.0
    }
}

/// Flags are equal exactly when their words are.
pub broadcast proof fn lemma_flags_view_eq(a: BoardStateFlags, b: BoardStateFlags)
    ensures
        #![trigger a@, b@]
        (a@ == b@) <==> a == b,
{
}

#[allow(non_snake_case)]
impl BoardStateFlags {
    /// The flags of the starting position: all four castling rights, nothing else.
    pub fn STARTING() -> (f: BoardStateFlags)
        ensures
            f@ == 0xf800_0000u32,
    {
        BoardStateFlags(0xf800_0000)
    }

    /// An empty slot of the history.
    pub fn NO_DATA() -> (f: BoardStateFlags)
        ensures
            f@ == 0u32,
    {
        BoardStateFlags(0)
    }
}

impl BoardStateFlags {
    pub fn new(
        can_castle_wk: bool,
        can_castle_wq: bool,
        can_castle_bk: bool,
        can_castle_bq: bool,
        en_passant_target: Option<Square>,
        captured_piece: Piece,
        captured_square: Square,
        half_move_clock: u32,
    ) -> (f: BoardStateFlags)
        requires
            pack_fields(can_castle_wk, can_castle_wq, can_castle_bk, can_castle_bq,
                opt_index(en_passant_target), captured_piece, captured_square@)
                + half_move_clock <= u32::MAX,
        ensures
            f@ == pack_fields(can_castle_wk, can_castle_wq, can_castle_bk, can_castle_bq,
                opt_index(en_passant_target), captured_piece, captured_square@) + half_move_clock,
    {
        let castles = (if can_castle_wk { CASTLE_WK_MASK } else { 0u32 }) | (if can_castle_wq {
            CASTLE_WQ_MASK
        } else {
            0u32
        }) | (if can_castle_bk { CASTLE_BK_MASK } else { 0u32 }) | (if can_castle_bq {
            CASTLE_BQ_MASK
        } else {
            0u32
        });
        let ep_bits = match en_passant_target {
            Some(sq) => EP_TARG_EXIST_MASK | ((sq.val() as u32) << EP_TARG_PAD),
            None => 0u32,
        };
        let cap_bits = if captured_piece.is_piece() {
            ((captured_piece.val() as u32) << CAPTURED_PIECE_PAD) | ((captured_square.val() as u32) << PREV_SQUARE_PAD)
        } else {
            0u32
        };
        let mut val = HAS_DATA_MASK | castles | ep_bits | cap_bits;
        val += half_move_clock;
        BoardStateFlags(val)
    }

    /// The flags after a move: the clock reset or advanced, the disabled castling
    /// rights cleared, and the en passant target and capture replaced.
    pub fn next_move(
        &self,
        reset_clock: bool,
        disable_wk: bool,
        disable_wq: bool,
        disable_bk: bool,
        disable_bq: bool,
        ep_target: Option<Square>,
        captured_piece: Piece,
        captured_square: Square,
    ) -> (f: BoardStateFlags)
        requires
            !reset_clock ==> self@ < u32::MAX,
        ensures
            f@ == next_word(self@, reset_clock, disable_wk, disable_wq, disable_bk, disable_bq,
                opt_index(ep_target), captured_piece, captured_square@),
    {
        let clocked = if reset_clock {
            self.0 & !HALF_MOVE_MASK
        } else {
            self.0 + 1
        };
        let disabled = (if disable_wk { CASTLE_WK_MASK } else { 0u32 }) | (if disable_wq {
            CASTLE_WQ_MASK
        } else {
            0u32
        }) | (if disable_bk { CASTLE_BK_MASK } else { 0u32 }) | (if disable_bq { CASTLE_BQ_MASK } else { 0u32 });
        let ep_bits = match ep_target {
            Some(sq) => EP_TARG_EXIST_MASK | ((sq.val() as u32) << EP_TARG_PAD),
            None => 0u32,
        };
        let cap_bits = if captured_piece.is_piece() {
            ((captured_piece.val() as u32) << CAPTURED_PIECE_PAD) | ((captured_square.val() as u32) << PREV_SQUARE_PAD)
        } else {
            0u32
        };
        BoardStateFlags((clocked & !disabled & !EP_MASK & !CAPTURED_MASK) | ep_bits | cap_bits)
    }

    /// The packed word.
    pub(crate) fn word(&self) -> (r: u32)
        ensures
            r == self@,
    {
        self.0
    }

    pub fn has_data(&self) -> (r: bool)
        ensures
            r == has_data(self@),
    {
        self.0 & HAS_DATA_MASK != 0
    }

    pub fn can_castle_wk(&self) -> (r: bool)
        ensures
            r == castle_wk(self@),
    {
        self.0 & CASTLE_WK_MASK != 0
    }

    pub fn can_castle_wq(&self) -> (r: bool)
        ensures
            r == castle_wq(self@),
    {
        self.0 & CASTLE_WQ_MASK != 0
    }

    pub fn can_castle_bk(&self) -> (r: bool)
        ensures
            r == castle_bk(self@),
    {
        self.0 & CASTLE_BK_MASK != 0
    }

    pub fn can_castle_bq(&self) -> (r: bool)
        ensures
            r == castle_bq(self@),
    {
        self.0 & CASTLE_BQ_MASK != 0
    }

    pub fn has_ep_target(&self) -> (r: bool)
        ensures
            r == ep_exists(self@),
    {
        self.0 & EP_TARG_EXIST_MASK != 0
    }

    /// The square in the en passant field, whether or not a target exists.
    pub fn ep_target_unchecked(&self) -> (s: Square)
        ensures
            s@ == ep_index(self@),
    {
        let v = (self.0 & EP_TARG_MASK) >> EP_TARG_PAD;
        proof {
            lemma_field_ranges(self.0);
        }
        Square::new_unchecked(v as u8)
    }

    pub fn ep_target(&self) -> (r: Option<Square>)
        ensures
            opt_index(r) == ep_target_of(self@),
    {
        if self.has_ep_target() {
            Some(self.ep_target_unchecked())
        } else {
            None
        }
    }

    /// The piece the last move captured; the field must hold a piece code.
    pub fn captured_piece(&self) -> (p: Piece)
        requires
            captured_code(self@) != 7,
        ensures
            piece_of_code(captured_code(self@) as int) == Some(p),
            p.code() == captured_code(self@),
    {
        let v = (self.0 & CAPTURED_PIECE_MASK) >> CAPTURED_PIECE_PAD;
        proof {
            lemma_field_ranges(self.0);
        }
        match Piece::new(v as u8) {
            Ok(p) => p,
            Err(_) => Piece::NoPiece,
        }
    }

    pub fn captured_piece_sq(&self) -> (s: Square)
        ensures
            s@ == captured_sq(self@),
    {
        let v = (self.0 & PREV_SQUARE_MASK) >> PREV_SQUARE_PAD;
        proof {
            lemma_field_ranges(self.0);
        }
        Square::new_unchecked(v as u8)
    }

    pub fn half_moves(&self) -> (r: u32)
        ensures
            r == half_moves_of(self@),
    {
        self.0 & HALF_MOVE_MASK
    }

    /// A hundred half-moves have passed without a capture or pawn move.
    pub fn fifty_move_rule(&self) -> (r: bool)
        ensures
            r == (half_moves_of(self@) >= 100),
    {
        self.half_moves() >= 100
    }
}

/// A tick for a castling right that is kept, a cross for one that is lost.
pub open spec fn right_mark(b: bool) -> Seq<char> {
    if b { "\u{2713}"@ } else { "\u{10102}"@ }
}

/// How the flags are printed: the en passant target, the last capture and the
/// half-move clock, each centred in 18 columns, then a table of the castling rights.
pub open spec fn flags_text(v: u32) -> Seq<char> {
    let ep = match ep_target_of(v) {
        Some(e) => algebraic_name(e),
        None => "--"@,
    };
    let piece = piece_of_code(captured_code(v) as int).unwrap();
    let prev_cap = if piece != Piece::NoPiece {
        piece_name(piece) + " on "@ + algebraic_name(captured_sq(v) as int)
    } else {
        piece_name(piece)
    };
    " "@ + center("ep_targ "@ + ep, 18) + "\n"@
        + " "@ + center("prev_cap"@, 18) + "\n"@
        + " "@ + center(prev_cap, 18) + "\n"@
        + " "@ + center("hm_clock "@ + decimal(half_moves_of(v) as nat), 18) + "\n"@
        + "\nCastle legality\n     w    b\nk    "@ + right_mark(castle_wk(v)) + "    "@ + right_mark(castle_bk(v))
        + "\nq    "@ + right_mark(castle_wq(v)) + "    "@ + right_mark(castle_bq(v)) + "\n"@
}

impl BoardStateFlags {
    /// The flags as they are printed (see `flags_text`); the capture field must hold a piece code.
    pub fn display(&self) -> (s: String)
        requires
            captured_code(self@) != 7,
        ensures
            s@ == flags_text(self@),
    {
        let mut out: Vec<char> = Vec::new();
        let mut field: Vec<char> = Vec::new();
        push_text(&mut field, "ep_targ ");
        match self.ep_target() {
            Some(val) => {
                let name = val.algebraic();
                push_text(&mut field, name.as_str());
            },
            None => push_text(&mut field, "--"),
        }
        push_text(&mut out, " ");
        push_centered(&mut out, &field, 18);
        push_text(&mut out, "\n");
        let mut field: Vec<char> = Vec::new();
        push_text(&mut field, "prev_cap");
        push_text(&mut out, " ");
        push_centered(&mut out, &field, 18);
        push_text(&mut out, "\n");
        let captured_piece = self.captured_piece();
        let mut field: Vec<char> = Vec::new();
        push_text(&mut field, captured_piece.name());
        if captured_piece.is_piece() {
            push_text(&mut field, " on ");
            let name = self.captured_piece_sq().algebraic();
            push_text(&mut field, name.as_str());
        }
        push_text(&mut out, " ");
        push_centered(&mut out, &field, 18);
        push_text(&mut out, "\n");
        let mut field: Vec<char> = Vec::new();
        push_text(&mut field, "hm_clock ");
        push_decimal(&mut field, self.half_moves());
        push_text(&mut out, " ");
        push_centered(&mut out, &field, 18);
        push_text(&mut out, "\n");
        push_text(&mut out, "\nCastle legality\n     w    b\nk    ");
        push_text(&mut out, if self.can_castle_wk() { "\u{2713}" } else { "\u{10102}" });
        push_text(&mut out, "    ");
        push_text(&mut out, if self.can_castle_bk() { "\u{2713}" } else { "\u{10102}" });
        push_text(&mut out, "\nq    ");
        push_text(&mut out, if self.can_castle_wq() { "\u{2713}" } else { "\u{10102}" });
        push_text(&mut out, "    ");
        push_text(&mut out, if self.can_castle_bq() { "\u{2713}" } else { "\u{10102}" });
        push_text(&mut out, "\n");
        proof {
            let v = self@;
            assert(piece_of_code(captured_code(v) as int) == Some(captured_piece));
            assert(out@ =~= flags_text(v));
        }
        string_of(&out)
    }
}


/// The flags as their debugging text prints them, fields separated by spaces: the data
/// bit, the four castling bits (white kingside first), the en passant bit and square in
/// binary (eight digits), the captured piece's name, the capture square and the clock.
pub open spec fn flags_debug_text(v: u32) -> Seq<char> {
    crate::text::binary_digits((v >> 31u32) as u64, 1) + " "@ + crate::text::binary_digits((v >> 27u32) as u64, 4)
        + " "@ + crate::text::binary_digits((v >> 26u32) as u64, 1) + " "@
        + crate::text::binary_digits(((v >> 20u32) & 0x3fu32) as u64, 8) + " "@
        + piece_name(piece_of_code(captured_code(v) as int).unwrap()) + " "@ + algebraic_name(captured_sq(v) as int)
        + " "@ + decimal(half_moves_of(v) as nat)
}

impl BoardStateFlags {
    /// The debugging text of the flags (see `flags_debug_text`); the capture field must
    /// hold a piece code.
    pub fn debug_text(&self) -> (s: String)
        requires
            captured_code(self@) != 7,
        ensures
            s@ == flags_debug_text(self@),
    {
        let w = self.word();
        let mut out: Vec<char> = Vec::new();
        crate::text::push_binary(&mut out, (w >> 31u32) as u64, 1);
        push_text(&mut out, " ");
        crate::text::push_binary(&mut out, (w >> 27u32) as u64, 4);
        push_text(&mut out, " ");
        crate::text::push_binary(&mut out, (w >> 26u32) as u64, 1);
        push_text(&mut out, " ");
        crate::text::push_binary(&mut out, ((w >> 20u32) & 0x3fu32) as u64, 8);
        push_text(&mut out, " ");
        let piece = self.captured_piece();
        push_text(&mut out, piece.name());
        push_text(&mut out, " ");
        let name = self.captured_piece_sq().algebraic();
        push_text(&mut out, name.as_str());
        push_text(&mut out, " ");
        push_decimal(&mut out, self.half_moves());
        proof {
            assert(piece_of_code(captured_code(self@) as int) == Some(piece));
            assert(out@ =~= flags_debug_text(self@));
        }
        string_of(&out)
    }
}

} // verus!
