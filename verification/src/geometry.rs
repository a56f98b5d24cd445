//! How the pieces reach squares, stated on square indices (`8 * rank + file`).
use vstd::prelude::*;
use crate::bits::bit;
use crate::types::square::offset;

verus! {

pub open spec fn rank_of(i: int) -> int {
    i / 8
}

pub open spec fn file_of(i: int) -> int {
    i % 8
}

pub open spec fn on_board(i: int) -> bool {
    0 <= i < 64
}

pub open spec fn abs_diff(a: int, b: int) -> int {
    if a >= b {
        a - b
    } else {
        b - a
    }
}

/// A knight on `s` attacks `t`: two squares one way and one square the other.
pub open spec fn knight_attack(s: int, t: int) -> bool {
    let (dr, df) = (abs_diff(rank_of(s), rank_of(t)), abs_diff(file_of(s), file_of(t)));
    on_board(t) && ((dr == 1 && df == 2) || (dr == 2 && df == 1))
}

/// A king on `s` attacks `t`: a neighbouring square.
pub open spec fn king_attack(s: int, t: int) -> bool {
    let (dr, df) = (abs_diff(rank_of(s), rank_of(t)), abs_diff(file_of(s), file_of(t)));
    on_board(t) && dr <= 1 && df <= 1 && (dr == 1 || df == 1)
}

/// The squares a slider on `s` reaches going `(dr, df)` at a time, stopping on
/// the first square of `blockers` (which it reaches) or at the edge; `fuel`
/// bounds the number of steps.
pub open spec fn ray(s: int, dr: int, df: int, blockers: u64, fuel: nat) -> Set<int>
    decreases fuel,
{
    if fuel == 0 {
        Set::empty()
    } else {
        match offset(s, dr, df) {
            None => Set::empty(),
            Some(n) => if bit(blockers, n as u64) {
                set![n]
            } else {
                set![n].union(ray(n, dr, df, blockers, (fuel - 1) as nat))
            },
        }
    }
}

/// The squares a slider on `s` reaches in direction `(dr, df)`.
pub open spec fn slide(s: int, dr: int, df: int, blockers: u64) -> Set<int> {
    ray(s, dr, df, blockers, 8)
}

pub open spec fn rook_attacks(s: int, blockers: u64) -> Set<int> {
    slide(s, 1, 0, blockers).union(slide(s, 0, 1, blockers)).union(slide(s, -1, 0, blockers)).union(
        slide(s, 0, -1, blockers),
    )
}

pub open spec fn bishop_attacks(s: int, blockers: u64) -> Set<int> {
    slide(s, 1, 1, blockers).union(slide(s, -1, 1, blockers)).union(slide(s, -1, -1, blockers)).union(
        slide(s, 1, -1, blockers),
    )
}

pub open spec fn queen_attacks(s: int, blockers: u64) -> Set<int> {
    bishop_attacks(s, blockers).union(rook_attacks(s, blockers))
}

/// A pawn of the given colour on `p` can go to `t`: diagonally forward onto an
/// enemy or en passant square, one square forward onto an empty square, or two
/// squares forward from its starting rank over an empty square onto an empty square.
pub open spec fn pawn_reach(p: int, white: bool, friend: u64, enemy: u64, en_passant: u64, t: int) -> bool {
    let dir = if white { 1int } else { -1int };
    let blocked = |x: int| bit(friend, x as u64) || bit(enemy, x as u64);
    on_board(t) && {
        ||| rank_of(t) == rank_of(p) + dir && abs_diff(file_of(t), file_of(p)) == 1 && (bit(enemy, t as u64)
            || bit(en_passant, t as u64))
        ||| t == p + 8 * dir && !blocked(t)
        ||| ((white && rank_of(p) == 1) || (!white && rank_of(p) == 6)) && t == p + 16 * dir && !blocked(
            p + 8 * dir,
        ) && !blocked(t)
    }
}

/// Stepping from the `k`-th square of a ray: the ray has at most seven squares,
/// and one more step is the `(k + 1)`-th square.
pub proof fn lemma_offset_step(s: int, k: int, dr: int, df: int)
    requires
        0 <= s < 64,
        1 <= k,
        -1 <= dr <= 1,
        -1 <= df <= 1,
        dr != 0 || df != 0,
        offset(s, k * dr, k * df) is Some,
    ensures
        k <= 7,
        0 <= offset(s, k * dr, k * df).unwrap() < 64,
        offset(offset(s, k * dr, k * df).unwrap(), dr, df) == offset(s, (k + 1) * dr, (k + 1) * df),
{
    assert((k + 1) * dr == k * dr + dr) by (nonlinear_arith);
    assert((k + 1) * df == k * df + df) by (nonlinear_arith);
    assert(k * dr == (if dr == 1 { k } else if dr == -1 { -k } else { 0 })) by (nonlinear_arith)
        requires
            -1 <= dr <= 1,
    ;
    assert(k * df == (if df == 1 { k } else if df == -1 { -k } else { 0 })) by (nonlinear_arith)
        requires
            -1 <= df <= 1,
    ;
    let r = s / 8 + k * dr;
    let f = s % 8 + k * df;
    let c = r * 8 + f;
    assert(c / 8 == r && c % 8 == f);
}

} // verus!
