//! Attack sets computed square by square with `Square::try_offset`.
use vstd::prelude::*;
use crate::bits::{bit, group_bits};
use crate::geometry::{knight_attack, king_attack, ray, slide, rook_attacks, bishop_attacks, queen_attacks, lemma_offset_step};
use crate::types::bitboard::Bitboard;
use crate::types::square::{Square, offset};

pub use crate::types::piece::Piece;

verus! {

broadcast use group_bits;

/// The squares `orig + delta` for the deltas, as far as they are on the board.
fn offsets(orig: Square, deltas: &[(i8, i8)]) -> (b: Bitboard)
    ensures
        forall|t: int| #[trigger] b.has(t) == exists|j: int|
            0 <= j < deltas@.len() && offset(orig@, deltas@[j].0 as int, deltas@[j].1 as int) == Some(t),
{
    let mut bb = Bitboard::EMPTY();
    let mut idx: usize = 0;
    while idx < deltas.len()
        invariant
            idx <= deltas@.len(),
            forall|t: int| #[trigger] bb.has(t) == exists|j: int|
                0 <= j < idx && offset(orig@, deltas@[j].0 as int, deltas@[j].1 as int) == Some(t),
        decreases deltas.len() - idx,
    {
        let (rank, file) = deltas[idx];
        let before = bb;
        match orig.try_offset(rank, file) {
            Some(sq) => {
                bb.bitor_assign(sq.bb());
            },
            None => {},
        }
        proof {
            assert forall|t: int| #[trigger] bb.has(t) == exists|j: int|
                0 <= j < idx + 1 && offset(orig@, deltas@[j].0 as int, deltas@[j].1 as int) == Some(t) by {
                if bb.has(t) && !before.has(t) {
                    assert(offset(orig@, deltas@[idx as int].0 as int, deltas@[idx as int].1 as int) == Some(t));
                }
                if exists|j: int| 0 <= j < idx + 1 && offset(orig@, deltas@[j].0 as int, deltas@[j].1 as int) == Some(t) {
                    let j = choose|j: int| 0 <= j < idx + 1 && offset(orig@, deltas@[j].0 as int, deltas@[j].1 as int) == Some(t);
                    if j < idx {
                        assert(before.has(t));
                    }
                }
            }
        }
        idx += 1;
    }
    bb
}

/// The squares a knight on `orig` attacks.
pub fn n_moves(orig: Square) -> (b: Bitboard)
    ensures
        forall|t: int| #[trigger] b.has(t) == knight_attack(orig@, t),
{
    let deltas: [(i8, i8); 8] = [(-1, 2), (1, 2), (2, 1), (2, -1), (1, -2), (-1, -2), (-2, -1), (-2, 1)];
    let b = offsets(orig, deltas.as_slice());
    proof {
        let d = deltas@;
        let s = orig@;
        assert forall|t: int| #[trigger] b.has(t) == knight_attack(s, t) by {
            if knight_attack(s, t) {
                let (dr, df) = (t / 8 - s / 8, t % 8 - s % 8);
                let j = if dr == -1 && df == 2 { 0int } else if dr == 1 && df == 2 { 1 } else if dr == 2 && df == 1 { 2 }
                    else if dr == 2 && df == -1 { 3 } else if dr == 1 && df == -2 { 4 } else if dr == -1 && df == -2 { 5 }
                    else if dr == -2 && df == -1 { 6 } else { 7 };
                assert(offset(s, d[j].0 as int, d[j].1 as int) == Some(t));
            }
        }
    }
    b
}

/// The squares a king on `orig` attacks.
pub fn k_moves(orig: Square) -> (b: Bitboard)
    ensures
        forall|t: int| #[trigger] b.has(t) == king_attack(orig@, t),
{
    let deltas: [(i8, i8); 8] = [(-1, -1), (-1, 0), (-1, 1), (0, -1), (0, 1), (1, -1), (1, 0), (1, 1)];
    let b = offsets(orig, deltas.as_slice());
    proof {
        let d = deltas@;
        let s = orig@;
        assert forall|t: int| #[trigger] b.has(t) == king_attack(s, t) by {
            if king_attack(s, t) {
                let (dr, df) = (t / 8 - s / 8, t % 8 - s % 8);
                let j = if dr == -1 { df + 1 } else if dr == 0 { if df == -1 { 3int } else { 4 } } else { df + 6 };
                assert(offset(s, d[j].0 as int, d[j].1 as int) == Some(t));
            }
        }
    }
    b
}


/// The squares a slider on `orig` reaches stepping `(dr, df)` at a time.
fn ray_walk(orig: Square, dr: i8, df: i8, blockers: Bitboard) -> (b: Bitboard)
    requires
        -1 <= dr <= 1,
        -1 <= df <= 1,
        dr != 0 || df != 0,
    ensures
        b@ == slide(orig@, dr as int, df as int, blockers.0),
{
    let ghost (s, r, f, blk) = (orig@, dr as int, df as int, blockers.0);
    let mut attacks = Bitboard::EMPTY();
    let mut curr_sq = orig;
    let ghost mut k: int = 0;
    let _ = orig.val();
    proof {
        assert(offset(s, 0, 0) == Some(s));
        assert(attacks@.union(ray(s, r, f, blk, 8)) =~= slide(s, r, f, blk));
    }
    loop
        invariant_except_break
            0 <= k <= 7,
            0 <= s < 64,
            (r, f, blk) == (dr as int, df as int, blockers.0),
            -1 <= r <= 1,
            -1 <= f <= 1,
            r != 0 || f != 0,
            offset(s, k * r, k * f) == Some(curr_sq@),
            attacks@.union(ray(curr_sq@, r, f, blk, (8 - k) as nat)) == slide(s, r, f, blk),
        ensures
            attacks@ == slide(s, r, f, blk),
        decreases 7 - k,
    {
        let before = attacks;
        let ghost c = curr_sq@;
        match curr_sq.try_offset(dr, df) {
            Some(v) => {
                proof {
                    if k == 0 {
                        assert(offset(s, 1 * r, 1 * f) == offset(c, r, f));
                    } else {
                        lemma_offset_step(s, k, r, f);
                    }
                    lemma_offset_step(s, k + 1, r, f);
                }
                let dest = v.bb();
                attacks.bitor_assign(dest);
                proof {
                    assert(attacks@ =~= before@.insert(v@));
                }
                let hit = dest.bitand(blockers);
                if hit.is_empty() {
                    curr_sq = v;
                    proof {
                        assert(!bit(blk, v@ as u64)) by {
                            assert(!hit.has(v@));
                        }
                        k = k + 1;
                        assert(attacks@.union(ray(curr_sq@, r, f, blk, (8 - k) as nat)) =~= before@.union(
                            ray(c, r, f, blk, (8 - k + 1) as nat),
                        ));
                    }
                } else {
                    proof {
                        crate::bits::lemma_zero_iff_no_bit(hit.0);
                        let i = choose|i: u64| i < 64 && bit(hit.0, i);
                        assert(hit.has(i as int));
                        assert(bit(blk, v@ as u64));
                        assert(ray(c, r, f, blk, (8 - k) as nat) =~= set![v@]);
                        assert(attacks@ =~= before@.union(ray(c, r, f, blk, (8 - k) as nat)));
                    }
                    break;
                }
            },
            None => {
                proof {
                    assert(ray(c, r, f, blk, (8 - k) as nat) =~= Set::<int>::empty());
                    assert(attacks@.union(ray(c, r, f, blk, (8 - k) as nat)) =~= attacks@);
                }
                break;
            },
        }
    }
    attacks
}

/// The squares a rook on `orig` attacks, given the occupied squares `blockers`.
pub fn r_moves(orig: Square, blockers: Bitboard) -> (b: Bitboard)
    ensures
        b@ == rook_attacks(orig@, blockers.0),
{
    let mut attacks = Bitboard::EMPTY();
    attacks.bitor_assign(ray_walk(orig, 0, 1, blockers));
    attacks.bitor_assign(ray_walk(orig, 1, 0, blockers));
    attacks.bitor_assign(ray_walk(orig, 0, -1, blockers));
    attacks.bitor_assign(ray_walk(orig, -1, 0, blockers));
    proof {
        assert(attacks@ =~= rook_attacks(orig@, blockers.0));
    }
    attacks
}

/// The squares a bishop on `orig` attacks, given the occupied squares `blockers`.
pub fn b_moves(orig: Square, blockers: Bitboard) -> (b: Bitboard)
    ensures
        b@ == bishop_attacks(orig@, blockers.0),
{
    let mut attacks = Bitboard::EMPTY();
    attacks.bitor_assign(ray_walk(orig, 1, 1, blockers));
    attacks.bitor_assign(ray_walk(orig, 1, -1, blockers));
    attacks.bitor_assign(ray_walk(orig, -1, 1, blockers));
    attacks.bitor_assign(ray_walk(orig, -1, -1, blockers));
    proof {
        assert(attacks@ =~= bishop_attacks(orig@, blockers.0));
    }
    attacks
}

/// The squares a queen on `orig` attacks, given the occupied squares `blockers`.
pub fn q_moves(orig: Square, blockers: Bitboard) -> (b: Bitboard)
    ensures
        b@ == queen_attacks(orig@, blockers.0),
{
    let b = b_moves(orig, blockers).bitor(r_moves(orig, blockers));
    proof {
        assert(b@ =~= queen_attacks(orig@, blockers.0));
    }
    b
}

} // verus!
