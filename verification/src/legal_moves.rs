//! King moves on the first board layout (see `crate::bitboard`).
use vstd::prelude::*;
use crate::bits::{bit, single};
use crate::bitboard::{Bitboard, has_bit};
use crate::geometry::king_attack;

verus! {

/// The squares next to the squares of `bb`; for one square, the squares a king there attacks.
pub fn king_move_gen(bb: Bitboard) -> (b: Bitboard)
    ensures
        forall|s: int| 0 <= s < 64 && bb@ == single(s) ==> forall|t: int| #[trigger] has_bit(b, t) == king_attack(s, t),
{
    let output = bb.nort_one().bitor(bb.sout_one());
    let b = output.bitor(output.west_one()).bitor(output.east_one()).bitor(bb.west_one()).bitor(bb.east_one());
    proof {
        assert forall|s: int| 0 <= s < 64 && bb@ == single(s) implies forall|t: int| #[trigger] has_bit(b, t) == king_attack(s, t) by {
            assert forall|t: int| #[trigger] has_bit(b, t) == king_attack(s, t) by {
                if 0 <= t < 64 {
                    let (su, tu) = (s as u64, t as u64);
                    let o = bb@;
                    assert({
                        let a = (o >> 8u64) | (o << 8u64);
                        let r = a | ((a >> 1u64) & !0x8080808080808080u64) | ((a << 1u64) & !0x0101010101010101u64)
                            | ((o >> 1u64) & !0x8080808080808080u64) | ((o << 1u64) & !0x0101010101010101u64);
                        ((r >> tu) & 1u64 == 1u64) == ({
                            &&& (su / 8 == tu / 8 || su / 8 + 1 == tu / 8 || tu / 8 + 1 == su / 8)
                            &&& (su % 8 == tu % 8 || su % 8 + 1 == tu % 8 || tu % 8 + 1 == su % 8)
                            &&& su != tu
                        })
                    }) by (bit_vector)
                        requires
                            su < 64,
                            tu < 64,
                            o == 1u64 << su,
                    ;
                }
            }
        }
    }
    b
}

} // verus!
