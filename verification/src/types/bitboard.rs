//! A set of squares packed into one 64-bit word: bit `8 * rank + file` is the
//! square on that rank and file, so a1 is bit 0, h1 bit 7 and h8 bit 63.
use vstd::prelude::*;
use crate::bits::{bit, single, group_bits, lemma_zero_iff_no_bit, lemma_bit_single, lemma_bit_shl8, lemma_bit_shr8, lemma_bit_east, lemma_bit_west, A_FILE_BITS, H_FILE_BITS};
use crate::types::square::Square;

verus! {

broadcast use group_bits;

/// The lowest set bit of a non-zero word.
pub open spec fn lowest_bit(x: u64) -> int {
    vstd::std_specs::bits::u64_trailing_zeros(x) as int
}

/// The highest set bit of a non-zero word.
pub open spec fn highest_bit(x: u64) -> int {
    63 - vstd::std_specs::bits::u64_leading_zeros(x)
}

/// Exactly one bit of `x` is set.
pub open spec fn is_single(x: u64) -> bool {
    exists|i: int| 0 <= i < 64 && x == single(i)
}

#[derive(Copy, Clone, PartialEq, Eq, Structural, Debug)]
pub struct Bitboard(pub u64);

impl View for Bitboard {
    type V = Set<int>;

    /// The squares in the set.
    open spec fn view(&self) -> Set<int> {
        Set::new(|i: int| self.has(i))
    }
}

/// The facts about the lowest set bit of a non-zero word: it is set, every bit
/// below it is clear, and clearing it with `x & (x - 1)` leaves the other bits.
pub proof fn lemma_lowest_bit(x: u64)
    requires
        x != 0,
    ensures
        0 <= lowest_bit(x) < 64,
        bit(x, lowest_bit(x) as u64),
        forall|j: u64| j < lowest_bit(x) ==> !bit(x, j),
        forall|i: u64| i < 64 ==> bit(x & (x - 1) as u64, i) == (bit(x, i) && i != lowest_bit(x)),
        x & ((x - 1) as u64) < x,
{
    vstd::std_specs::bits::axiom_u64_trailing_zeros(x);
    let t = vstd::std_specs::bits::u64_trailing_zeros(x) as u64;
    assert forall|i: u64| i < 64 implies bit(x & (x - 1) as u64, i) == (bit(x, i) && i != t) by {
        lemma_clear_lowest(x, t, i);
    }
    lemma_clear_lowest(x, t, 0);
}

proof fn lemma_clear_lowest(x: u64, t: u64, i: u64)
    by (bit_vector)
    requires
        x != 0,
        t < 64,
        (x >> t) & 1u64 == 1u64,
        x << ((64 - t) as u64) == 0,
        i < 64,
    ensures
        ((x & ((x - 1) as u64)) >> i) & 1u64 == 1u64 <==> ((x >> i) & 1u64 == 1u64 && i != t),
        x & ((x - 1) as u64) < x,
{
}

/// The facts about the highest set bit of a non-zero word.
pub proof fn lemma_highest_bit(x: u64)
    requires
        x != 0,
    ensures
        0 <= highest_bit(x) < 64,
        bit(x, highest_bit(x) as u64),
        forall|j: u64| highest_bit(x) < j < 64 ==> !bit(x, j),
{
    vstd::std_specs::bits::axiom_u64_leading_zeros(x);
    let h = (63 - vstd::std_specs::bits::u64_leading_zeros(x)) as u64;
    assert((x >> h) & 1u64 == 1u64) by (bit_vector)
        requires
            (x >> h) & 1u64 != 0u64,
    ;
}

/// A word with exactly one set bit is the single bit at its lowest (and highest) set bit.
pub proof fn lemma_single_bits(s: int)
    requires
        0 <= s < 64,
    ensures
        single(s) != 0,
        lowest_bit(single(s)) == s,
        highest_bit(single(s)) == s,
        single(s) & (single(s) - 1) as u64 == 0,
        forall|i: u64| i < 64 ==> bit(single(s), i) == (i == s),
{
    let x = single(s);
    let su = s as u64;
    assert(x != 0 && x & (x - 1) as u64 == 0) by (bit_vector)
        requires
            x == 1u64 << su,
            su < 64,
    ;
    lemma_lowest_bit(x);
    lemma_highest_bit(x);
    assert forall|i: u64| i < 64 implies bit(x, i) == (i == s) by {
        lemma_bit_single(su, i);
    }
}

impl Bitboard {
    /// Square `i` is in the set.
    pub open spec fn has(self, i: int) -> bool {
        0 <= i < 64 && bit(self.0, i as u64)
    }

    pub fn new(val: u64) -> (b: Bitboard)
        ensures
            b.0 == val,
    {
        Self(val)
    }

    pub fn val(&self) -> (r: u64)
        ensures
            r == self.0,
    {
        self.0
    }

    pub fn is_empty(&self) -> (r: bool)
        ensures
            r == (self.0 == 0),
            r == (self@ =~= Set::<int>::empty()),
    {
        proof {
            lemma_zero_iff_no_bit(self.0);
            if self.0 != 0 {
                let i = choose|i: u64| i < 64 && bit(self.0, i);
                assert(self@.contains(i as int));
            }
        }
        self.0 == 0
    }

    /// Exactly one square is in the set.
    pub fn is_one(&self) -> (r: bool)
        ensures
            r == is_single(self.0),
    {
        let r = self.0 != 0 && self.0 & (self.0 - 1) == 0;
        proof {
            if r {
                lemma_lowest_bit(self.0);
                let t = lowest_bit(self.0);
                let x = self.0;
                let tu = t as u64;
                assert(x == 1u64 << tu) by (bit_vector)
                    requires
                        x != 0,
                        x & (x - 1) as u64 == 0,
                        tu < 64,
                        (x >> tu) & 1u64 == 1u64,
                ;
                assert(x == single(t));
            }
            if is_single(self.0) {
                let i = choose|i: int| 0 <= i < 64 && self.0 == single(i);
                lemma_single_bits(i);
            }
        }
        r
    }

    /// Every square moved one rank up; squares on rank 8 drop out.
    pub fn nort_one(&self) -> (b: Bitboard)
        ensures
            b.0 == self.0 << 8u64,
            forall|i: int| #[trigger] b.has(i) == (8 <= i < 64 && self.has(i - 8)),
    {
        proof {
            assert forall|i: int| #[trigger] Bitboard(self.0 << 8u64).has(i) == (8 <= i < 64 && self.has(i - 8)) by {
                if 0 <= i < 64 {
                    lemma_bit_shl8(self.0, i as u64);
                }
            }
        }
        Self(self.0 << 8)
    }

    /// Every square moved one file towards the h-file; squares on the h-file drop out.
    pub fn east_one(&self) -> (b: Bitboard)
        ensures
            b.0 == (self.0 << 1u64) & !A_FILE_BITS,
            forall|i: int| #[trigger] b.has(i) == (0 <= i < 64 && i % 8 != 0 && self.has(i - 1)),
    {
        proof {
            assert forall|i: int| #[trigger] Bitboard((self.0 << 1u64) & !A_FILE_BITS).has(i) == (0 <= i < 64 && i % 8 != 0 && self.has(i - 1)) by {
                if 0 <= i < 64 {
                    lemma_bit_east(self.0, i as u64);
                }
            }
        }
        Self((self.0 << 1) & !A_FILE_BITS)
    }

    /// Every square moved one rank down; squares on rank 1 drop out.
    pub fn sout_one(&self) -> (b: Bitboard)
        ensures
            b.0 == self.0 >> 8u64,
            forall|i: int| #[trigger] b.has(i) == (0 <= i < 56 && self.has(i + 8)),
    {
        proof {
            assert forall|i: int| #[trigger] Bitboard(self.0 >> 8u64).has(i) == (0 <= i < 56 && self.has(i + 8)) by {
                if 0 <= i < 64 {
                    lemma_bit_shr8(self.0, i as u64);
                }
            }
        }
        Self(self.0 >> 8)
    }

    /// Every square moved one file towards the a-file; squares on the a-file drop out.
    pub fn west_one(&self) -> (b: Bitboard)
        ensures
            b.0 == (self.0 >> 1u64) & !H_FILE_BITS,
            forall|i: int| #[trigger] b.has(i) == (0 <= i < 64 && i % 8 != 7 && self.has(i + 1)),
    {
        proof {
            assert forall|i: int| #[trigger] Bitboard((self.0 >> 1u64) & !H_FILE_BITS).has(i) == (0 <= i < 64 && i % 8 != 7 && self.has(i + 1)) by {
                if 0 <= i < 64 {
                    lemma_bit_west(self.0, i as u64);
                }
            }
        }
        Self((self.0 >> 1) & !H_FILE_BITS)
    }

    /// The lowest square of the set (64 for the empty set).
    pub fn index(&self) -> (r: usize)
        ensures
            r == lowest_bit(self.0),
            self.0 == 0 <==> r == 64,
            self.0 != 0 ==> self.has(r as int) && forall|j: int| 0 <= j < r ==> !self.has(j),
    {
        proof {
            vstd::std_specs::bits::axiom_u64_trailing_zeros(self.0);
            if self.0 != 0 {
                lemma_lowest_bit(self.0);
            }
        }
        self.0.trailing_zeros() as usize
    }

    /// The rank of the highest square of a non-empty set.
    pub fn rank(&self) -> (r: u64)
        requires
            self.0 != 0,
        ensures
            r == highest_bit(self.0) / 8,
    {
        proof {
            lemma_highest_bit(self.0);
        }
        ((63 - self.0.leading_zeros()) / 8) as u64
    }

    /// The file of the highest square of a non-empty set.
    pub fn file(&self) -> (r: u64)
        requires
            self.0 != 0,
        ensures
            r == highest_bit(self.0) % 8,
    {
        proof {
            lemma_highest_bit(self.0);
        }
        ((63 - self.0.leading_zeros()) % 8) as u64
    }

    /// Removes the lowest square of a non-empty set and returns it.
    pub fn pop_lsb(&mut self) -> (sq: Square)
        requires
            old(self).0 != 0,
        ensures
            sq@ == lowest_bit(old(self).0),
            old(self).has(sq@),
            forall|j: int| 0 <= j < sq@ ==> !old(self).has(j),
            final(self).0 == old(self).0 & (old(self).0 - 1) as u64,
            final(self).0 < old(self).0,
            forall|i: int| #[trigger] final(self).has(i) == (old(self).has(i) && i != sq@),
    {
        proof {
            lemma_lowest_bit(self.0);
        }
        let val = self.0.trailing_zeros() as u8;
        self.0 = self.0 & (self.0 - 1);
        Square::new_unchecked(val)
    }

    /// The next square of the set, lowest first, taken out of it; `None` once the set is empty.
    pub fn next_square(&mut self) -> (r: Option<Square>)
        ensures
            r is None <==> old(self).0 == 0,
            r is None ==> final(self).0 == old(self).0,
            r matches Some(s) ==> s@ == lowest_bit(old(self).0)
                && final(self).0 == old(self).0 & (old(self).0 - 1) as u64,
    {
        if self.0 == 0 {
            return None;
        }
        Some(self.pop_lsb())
    }

    /// The squares in both sets.
    pub fn bitand(self, rhs: Bitboard) -> (b: Bitboard)
        ensures
            b.0 == self.0 & rhs.0,
            forall|i: int| #[trigger] b.has(i) == (self.has(i) && rhs.has(i)),
    {
        Self(self.0 & rhs.0)
    }

    /// The squares in either set.
    pub fn bitor(self, rhs: Bitboard) -> (b: Bitboard)
        ensures
            b.0 == self.0 | rhs.0,
            forall|i: int| #[trigger] b.has(i) == (self.has(i) || rhs.has(i)),
    {
        Self(self.0 | rhs.0)
    }

    /// The squares in exactly one of the sets.
    pub fn bitxor(self, rhs: Bitboard) -> (b: Bitboard)
        ensures
            b.0 == self.0 ^ rhs.0,
            forall|i: int| #[trigger] b.has(i) == (self.has(i) != rhs.has(i)),
    {
        Self(self.0 ^ rhs.0)
    }

    /// The squares not in the set.
    pub fn not(self) -> (b: Bitboard)
        ensures
            b.0 == !self.0,
            forall|i: int| #[trigger] b.has(i) == (0 <= i < 64 && !self.has(i)),
    {
        Self(!self.0)
    }

    pub fn bitand_assign(&mut self, rhs: Bitboard)
        ensures
            final(self).0 == old(self).0 & rhs.0,
            forall|i: int| #[trigger] final(self).has(i) == (old(self).has(i) && rhs.has(i)),
    {
        self.0 = self.0 & rhs.0;
    }

    pub fn bitor_assign(&mut self, rhs: Bitboard)
        ensures
            final(self).0 == old(self).0 | rhs.0,
            forall|i: int| #[trigger] final(self).has(i) == (old(self).has(i) || rhs.has(i)),
    {
        self.0 = self.0 | rhs.0;
    }
}

#[allow(non_snake_case)]
impl Bitboard {
    pub fn EMPTY() -> (b: Bitboard)
        ensures
            b.0 == 0x0000000000000000u64,
    {
        Bitboard(0x0000000000000000)
    }

    pub fn UNIVERSE() -> (b: Bitboard)
        ensures
            b.0 == 0xffffffffffffffffu64,
    {
        Bitboard(0xffffffffffffffff)
    }

    pub fn A_FILE() -> (b: Bitboard)
        ensures
            b.0 == 0x0101010101010101u64,
    {
        Bitboard(0x0101010101010101)
    }

    pub fn H_FILE() -> (b: Bitboard)
        ensures
            b.0 == 0x8080808080808080u64,
    {
        Bitboard(0x8080808080808080)
    }

    pub fn RANK_1() -> (b: Bitboard)
        ensures
            b.0 == 0x00000000000000ffu64,
    {
        Bitboard(0x00000000000000ff)
    }

    pub fn RANK_2() -> (b: Bitboard)
        ensures
            b.0 == 0x000000000000ff00u64,
    {
        Bitboard(0x000000000000ff00)
    }

    pub fn RANK_3() -> (b: Bitboard)
        ensures
            b.0 == 0x0000000000ff0000u64,
    {
        Bitboard(0x0000000000ff0000)
    }

    pub fn RANK_4() -> (b: Bitboard)
        ensures
            b.0 == 0x00000000ff000000u64,
    {
        Bitboard(0x00000000ff000000)
    }

    pub fn RANK_5() -> (b: Bitboard)
        ensures
            b.0 == 0x000000ff00000000u64,
    {
        Bitboard(0x000000ff00000000)
    }

    pub fn RANK_6() -> (b: Bitboard)
        ensures
            b.0 == 0x0000ff0000000000u64,
    {
        Bitboard(0x0000ff0000000000)
    }

    pub fn RANK_7() -> (b: Bitboard)
        ensures
            b.0 == 0x00ff000000000000u64,
    {
        Bitboard(0x00ff000000000000)
    }

    pub fn RANK_8() -> (b: Bitboard)
        ensures
            b.0 == 0xff00000000000000u64,
    {
        Bitboard(0xff00000000000000)
    }

    pub fn STARTING_WHITE() -> (b: Bitboard)
        ensures
            b.0 == 0x000000000000ffffu64,
    {
        Bitboard(0x000000000000ffff)
    }

    pub fn STARTING_BLACK() -> (b: Bitboard)
        ensures
            b.0 == 0xffff000000000000u64,
    {
        Bitboard(0xffff000000000000)
    }

    pub fn STARTING_PAWNS() -> (b: Bitboard)
        ensures
            b.0 == 0x00ff00000000ff00u64,
    {
        Bitboard(0x00ff00000000ff00)
    }

    pub fn STARTING_KNIGHTS() -> (b: Bitboard)
        ensures
            b.0 == 0x4200000000000042u64,
    {
        Bitboard(0x4200000000000042)
    }

    pub fn STARTING_BISHOPS() -> (b: Bitboard)
        ensures
            b.0 == 0x2400000000000024u64,
    {
        Bitboard(0x2400000000000024)
    }

    pub fn STARTING_ROOKS() -> (b: Bitboard)
        ensures
            b.0 == 0x8100000000000081u64,
    {
        Bitboard(0x8100000000000081)
    }

    pub fn STARTING_QUEENS() -> (b: Bitboard)
        ensures
            b.0 == 0x0800000000000008u64,
    {
        Bitboard(0x0800000000000008)
    }

    pub fn STARTING_KINGS() -> (b: Bitboard)
        ensures
            b.0 == 0x1000000000000010u64,
    {
        Bitboard(0x1000000000000010)
    }

    pub fn WK_MASK() -> (b: Bitboard)
        ensures
            b.0 == 0x0000000000000060u64,
    {
        Bitboard(0x0000000000000060)
    }

    pub fn WQ_MASK() -> (b: Bitboard)
        ensures
            b.0 == 0x000000000000000eu64,
    {
        Bitboard(0x000000000000000e)
    }

    pub fn BK_MASK() -> (b: Bitboard)
        ensures
            b.0 == 0x6000000000000000u64,
    {
        Bitboard(0x6000000000000000)
    }

    pub fn BQ_MASK() -> (b: Bitboard)
        ensures
            b.0 == 0x0e00000000000000u64,
    {
        Bitboard(0x0e00000000000000)
    }

    pub fn WQ_MASK_SLIDE() -> (b: Bitboard)
        ensures
            b.0 == 0x000000000000000cu64,
    {
        Bitboard(0x000000000000000c)
    }

    pub fn BQ_MASK_SLIDE() -> (b: Bitboard)
        ensures
            b.0 == 0x0c00000000000000u64,
    {
        Bitboard(0x0c00000000000000)
    }

    pub fn WK_ROOK() -> (b: Bitboard)
        ensures
            b.0 == 0x0000000000000080u64,
    {
        Bitboard(0x0000000000000080)
    }

    pub fn WQ_ROOK() -> (b: Bitboard)
        ensures
            b.0 == 0x0000000000000001u64,
    {
        Bitboard(0x0000000000000001)
    }

    pub fn BK_ROOK() -> (b: Bitboard)
        ensures
            b.0 == 0x8000000000000000u64,
    {
        Bitboard(0x8000000000000000)
    }

    pub fn BQ_ROOK() -> (b: Bitboard)
        ensures
            b.0 == 0x0100000000000000u64,
    {
        Bitboard(0x0100000000000000)
    }

    pub fn W_KING() -> (b: Bitboard)
        ensures
            b.0 == 0x0000000000000010u64,
    {
        Bitboard(0x0000000000000010)
    }

    pub fn B_KING() -> (b: Bitboard)
        ensures
            b.0 == 0x1000000000000000u64,
    {
        Bitboard(0x1000000000000000)
    }

    pub fn WK_ROOK_DEST() -> (b: Bitboard)
        ensures
            b.0 == 0x0000000000000020u64,
    {
        Bitboard(0x0000000000000020)
    }

    pub fn WQ_ROOK_DEST() -> (b: Bitboard)
        ensures
            b.0 == 0x0000000000000008u64,
    {
        Bitboard(0x0000000000000008)
    }

    pub fn BK_ROOK_DEST() -> (b: Bitboard)
        ensures
            b.0 == 0x2000000000000000u64,
    {
        Bitboard(0x2000000000000000)
    }

    pub fn BQ_ROOK_DEST() -> (b: Bitboard)
        ensures
            b.0 == 0x0800000000000000u64,
    {
        Bitboard(0x0800000000000000)
    }

    pub fn WK_KING_DEST() -> (b: Bitboard)
        ensures
            b.0 == 0x0000000000000040u64,
    {
        Bitboard(0x0000000000000040)
    }

    pub fn WQ_KING_DEST() -> (b: Bitboard)
        ensures
            b.0 == 0x0000000000000004u64,
    {
        Bitboard(0x0000000000000004)
    }

    pub fn BK_KING_DEST() -> (b: Bitboard)
        ensures
            b.0 == 0x4000000000000000u64,
    {
        Bitboard(0x4000000000000000)
    }

    pub fn BQ_KING_DEST() -> (b: Bitboard)
        ensures
            b.0 == 0x0400000000000000u64,
    {
        Bitboard(0x0400000000000000)
    }
}


/// The set as its debugging text prints it: a line break, the grid of its bits with the
/// highest byte on the first row, then `Hex:` and its 16 hexadecimal digits.
pub open spec fn bitboard_debug_text(x: u64) -> Seq<char> {
    seq!['\n'] + crate::text::bit_grid_text(x, true, 64) + "\nHex:\n"@ + crate::text::hex_digits(x)
}

impl Bitboard {
    /// The debugging text of the set (see `bitboard_debug_text`).
    pub fn debug_text(&self) -> (s: String)
        ensures
            s@ == bitboard_debug_text(self.0),
    {
        let mut out: Vec<char> = Vec::new();
        out.push('\n');
        crate::text::push_bit_grid(&mut out, self.0, true);
        crate::text::push_text(&mut out, "\nHex:\n");
        crate::text::push_hex(&mut out, self.0);
        proof {
            assert(out@ =~= bitboard_debug_text(self.0));
        }
        crate::text::string_of(&out)
    }
}

} // verus!
