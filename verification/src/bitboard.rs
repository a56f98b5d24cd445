//! The first board layout of the engine: bit `8 * (7 - rank) + file`, so a8 is
//! bit 0 and h1 bit 63, and "north" (towards rank 8) is a right shift.
use vstd::prelude::*;
use crate::bits::{bit, group_bits, lemma_bit_shl8, lemma_bit_shr8, lemma_bit_east, lemma_bit_west, A_FILE_BITS, H_FILE_BITS};

verus! {

broadcast use group_bits;

#[derive(Copy, Clone, PartialEq, Eq, Structural, Debug)]
pub struct Bitboard(u64);

impl View for Bitboard {
    type V = u64;

    closed spec fn view(&self) -> u64 {
        self.0
    }
}

/// Bit `i` of the set is set.
pub open spec fn has_bit(b: Bitboard, i: int) -> bool {
    0 <= i < 64 && bit(b@, i as u64)
}

impl Bitboard {
    pub fn new(val: u64) -> (b: Bitboard)
        ensures
            b@ == val,
    {
        Self(val)
    }

    pub fn val(&self) -> (r: u64)
        ensures
            r == self@,
    {
        self.0
    }

    pub fn is_empty(&self) -> (r: bool)
        ensures
            r == (self@ == 0),
    {
        self.0 == 0
    }

    /// Every bit moved one rank towards rank 8 (eight bits down).
    pub fn nort_one(&self) -> (b: Bitboard)
        ensures
            b@ == self@ >> 8u64,
            forall|i: int| #[trigger] has_bit(b, i) == (0 <= i < 56 && has_bit(*self, i + 8)),
    {
        let b = Self(self.0 >> 8);
        proof {
            assert forall|i: int| #[trigger] has_bit(b, i) == (0 <= i < 56 && has_bit(*self, i + 8)) by {
                if 0 <= i < 64 {
                    lemma_bit_shr8(self.0, i as u64);
                }
            }
        }
        b
    }

    /// Every bit moved one file towards the h-file.
    pub fn east_one(&self) -> (b: Bitboard)
        ensures
            b@ == (self@ << 1u64) & !A_FILE_BITS,
            forall|i: int| #[trigger] has_bit(b, i) == (0 <= i < 64 && i % 8 != 0 && has_bit(*self, i - 1)),
    {
        let b = Self((self.0 << 1) & !A_FILE_BITS);
        proof {
            assert forall|i: int| #[trigger] has_bit(b, i) == (0 <= i < 64 && i % 8 != 0 && has_bit(*self, i - 1)) by {
                if 0 <= i < 64 {
                    lemma_bit_east(self.0, i as u64);
                }
            }
        }
        b
    }

    /// Every bit moved one rank towards rank 1 (eight bits up).
    pub fn sout_one(&self) -> (b: Bitboard)
        ensures
            b@ == self@ << 8u64,
            forall|i: int| #[trigger] has_bit(b, i) == (8 <= i < 64 && has_bit(*self, i - 8)),
    {
        let b = Self(self.0 << 8);
        proof {
            assert forall|i: int| #[trigger] has_bit(b, i) == (8 <= i < 64 && has_bit(*self, i - 8)) by {
                if 0 <= i < 64 {
                    lemma_bit_shl8(self.0, i as u64);
                }
            }
        }
        b
    }

    /// Every bit moved one file towards the a-file.
    pub fn west_one(&self) -> (b: Bitboard)
        ensures
            b@ == (self@ >> 1u64) & !H_FILE_BITS,
            forall|i: int| #[trigger] has_bit(b, i) == (0 <= i < 64 && i % 8 != 7 && has_bit(*self, i + 1)),
    {
        let b = Self((self.0 >> 1) & !H_FILE_BITS);
        proof {
            assert forall|i: int| #[trigger] has_bit(b, i) == (0 <= i < 64 && i % 8 != 7 && has_bit(*self, i + 1)) by {
                if 0 <= i < 64 {
                    lemma_bit_west(self.0, i as u64);
                }
            }
        }
        b
    }

    pub fn bitand(self, rhs: Bitboard) -> (b: Bitboard)
        ensures
            b@ == self@ & rhs@,
    {
        Self(self.0 & rhs.0)
    }

    pub fn bitor(self, rhs: Bitboard) -> (b: Bitboard)
        ensures
            b@ == self@ | rhs@,
    {
        Self(self.0 | rhs.0)
    }

    pub fn bitxor(self, rhs: Bitboard) -> (b: Bitboard)
        ensures
            b@ == self@ ^ rhs@,
    {
        Self(self.0 ^ rhs.0)
    }

    pub fn not(self) -> (b: Bitboard)
        ensures
            b@ == !self@,
    {
        Self(!self.0)
    }
}

#[allow(non_snake_case)]
impl Bitboard {
    pub fn EMPTY() -> (b: Bitboard)
        ensures
            b@ == 0x0000000000000000u64,
    {
        Bitboard(0x0000000000000000)
    }

    pub fn UNIVERSE() -> (b: Bitboard)
        ensures
            b@ == 0xffffffffffffffffu64,
    {
        Bitboard(0xffffffffffffffff)
    }

    pub fn A_FILE() -> (b: Bitboard)
        ensures
            b@ == 0x0101010101010101u64,
    {
        Bitboard(0x0101010101010101)
    }

    pub fn H_FILE() -> (b: Bitboard)
        ensures
            b@ == 0x8080808080808080u64,
    {
        Bitboard(0x8080808080808080)
    }

    pub fn STARTING_WHITE() -> (b: Bitboard)
        ensures
            b@ == 0x000000000000ffffu64,
    {
        Bitboard(0x000000000000ffff)
    }

    pub fn STARTING_BLACK() -> (b: Bitboard)
        ensures
            b@ == 0xffff000000000000u64,
    {
        Bitboard(0xffff000000000000)
    }

    pub fn STARTING_PAWNS() -> (b: Bitboard)
        ensures
            b@ == 0x00ff00000000ff00u64,
    {
        Bitboard(0x00ff00000000ff00)
    }

    pub fn STARTING_KNIGHTS() -> (b: Bitboard)
        ensures
            b@ == 0x4200000000000042u64,
    {
        Bitboard(0x4200000000000042)
    }

    pub fn STARTING_BISHOPS() -> (b: Bitboard)
        ensures
            b@ == 0x2400000000000024u64,
    {
        Bitboard(0x2400000000000024)
    }

    pub fn STARTING_ROOKS() -> (b: Bitboard)
        ensures
            b@ == 0x8100000000000081u64,
    {
        Bitboard(0x8100000000000081)
    }

    pub fn STARTING_QUEENS() -> (b: Bitboard)
        ensures
            b@ == 0x0800000000000008u64,
    {
        Bitboard(0x0800000000000008)
    }

    pub fn STARTING_KINGS() -> (b: Bitboard)
        ensures
            b@ == 0x1000000000000010u64,
    {
        Bitboard(0x1000000000000010)
    }
}


impl Bitboard {
    /// The debugging text of the set: a line break, then the grid of its bits with bit 0
    /// first.
    pub fn debug_text(&self) -> (s: String)
        ensures
            s@ == seq!['\n'] + crate::text::bit_grid_text(self@, false, 64),
    {
        let mut out: Vec<char> = Vec::new();
        out.push('\n');
        crate::text::push_bit_grid(&mut out, self.0, false);
        crate::text::string_of(&out)
    }
}

} // verus!
