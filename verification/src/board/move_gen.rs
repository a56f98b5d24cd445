//! The squares each kind of piece attacks or moves to, computed with shifts.
use vstd::prelude::*;
use crate::bits::{bit, single, group_bits};
use crate::geometry::{pawn_reach, knight_attack, king_attack, ray, slide, rook_attacks, bishop_attacks, queen_attacks};
use crate::types::square::offset;
use crate::geometry::lemma_offset_step;
use crate::types::bitboard::{Bitboard, highest_bit, lemma_single_bits};
use crate::types::square::Square;

verus! {

broadcast use group_bits;

proof fn lemma_knight_word(s: u64, t: u64)
    requires
        s < 64,
        t < 64,
    ensures
        ({
            let o = 1u64 << s;
            let h = (((((o << 1u64) & !0x0101010101010101u64) << 1u64) & !0x0101010101010101u64)) | (((((o >> 1u64) & !0x8080808080808080u64) >> 1u64) & !0x8080808080808080u64));
            let h2 = (h << 8u64) | (h >> 8u64);
            let v = ((o << 8u64) << 8u64) | ((o >> 8u64) >> 8u64);
            let v2 = ((v << 1u64) & !0x0101010101010101u64) | ((v >> 1u64) & !0x8080808080808080u64);
            bit(h2 | v2, t) == knight_attack(s as int, t as int)
        }),
{
    let (sr, sf, tr, tf) = (s / 8, s % 8, t / 8, t % 8);
    assert({
        let o = 1u64 << s;
        let h = (((((o << 1u64) & !0x0101010101010101u64) << 1u64) & !0x0101010101010101u64)) | (((((o >> 1u64) & !0x8080808080808080u64) >> 1u64) & !0x8080808080808080u64));
        let h2 = (h << 8u64) | (h >> 8u64);
        let v = ((o << 8u64) << 8u64) | ((o >> 8u64) >> 8u64);
        let v2 = ((v << 1u64) & !0x0101010101010101u64) | ((v >> 1u64) & !0x8080808080808080u64);
        (((h2 | v2) >> t) & 1u64 == 1u64) == ({
            ||| s / 8 + 1 == t / 8 && s % 8 + 2 == t % 8
            ||| s / 8 + 1 == t / 8 && t % 8 + 2 == s % 8
            ||| t / 8 + 1 == s / 8 && s % 8 + 2 == t % 8
            ||| t / 8 + 1 == s / 8 && t % 8 + 2 == s % 8
            ||| s / 8 + 2 == t / 8 && s % 8 + 1 == t % 8
            ||| s / 8 + 2 == t / 8 && t % 8 + 1 == s % 8
            ||| t / 8 + 2 == s / 8 && s % 8 + 1 == t % 8
            ||| t / 8 + 2 == s / 8 && t % 8 + 1 == s % 8
        })
    }) by (bit_vector)
        requires
            s < 64,
            t < 64,
    ;
}

proof fn lemma_king_word(s: u64, t: u64)
    requires
        s < 64,
        t < 64,
    ensures
        ({
            let o = 1u64 << s;
            let a = (o << 8u64) | (o >> 8u64);
            let r = a | ((a >> 1u64) & !0x8080808080808080u64) | ((a << 1u64) & !0x0101010101010101u64)
                | ((o >> 1u64) & !0x8080808080808080u64) | ((o << 1u64) & !0x0101010101010101u64);
            bit(r, t) == king_attack(s as int, t as int)
        }),
{
    assert({
        let o = 1u64 << s;
        let a = (o << 8u64) | (o >> 8u64);
        let r = a | ((a >> 1u64) & !0x8080808080808080u64) | ((a << 1u64) & !0x0101010101010101u64)
            | ((o >> 1u64) & !0x8080808080808080u64) | ((o << 1u64) & !0x0101010101010101u64);
        ((r >> t) & 1u64 == 1u64) == ({
            &&& (s / 8 == t / 8 || s / 8 + 1 == t / 8 || t / 8 + 1 == s / 8)
            &&& (s % 8 == t % 8 || s % 8 + 1 == t % 8 || t % 8 + 1 == s % 8)
            &&& s != t
        })
    }) by (bit_vector)
        requires
            s < 64,
            t < 64,
    ;
}

/// The squares a knight on `orig` attacks.
pub fn n_move_gen(orig: Square) -> (b: Bitboard)
    ensures
        forall|t: int| #[trigger] b.has(t) == knight_attack(orig@, t),
{
    let o = orig.bb();
    let mut horizontal = o.east_one().east_one();
    horizontal.bitor_assign(o.west_one().west_one());
    horizontal = horizontal.nort_one().bitor(horizontal.sout_one());

    let mut vertical = o.nort_one().nort_one();
    vertical.bitor_assign(o.sout_one().sout_one());
    vertical = vertical.east_one().bitor(vertical.west_one());

    let b = horizontal.bitor(vertical);
    proof {
        assert forall|t: int| #[trigger] b.has(t) == knight_attack(orig@, t) by {
            if 0 <= t < 64 {
                lemma_knight_word(orig@ as u64, t as u64);
            }
        }
    }
    b
}


/// The squares a king on `orig` attacks.
pub fn k_move_gen(orig: Square) -> (b: Bitboard)
    ensures
        forall|t: int| #[trigger] b.has(t) == king_attack(orig@, t),
{
    let o = orig.bb();
    let attacks = o.nort_one().bitor(o.sout_one());
    let b = attacks.bitor(attacks.west_one()).bitor(attacks.east_one()).bitor(o.west_one()).bitor(o.east_one());
    proof {
        assert forall|t: int| #[trigger] b.has(t) == king_attack(orig@, t) by {
            if 0 <= t < 64 {
                lemma_king_word(orig@ as u64, t as u64);
            }
        }
    }
    b
}

/// One of the eight directions a slider moves in.
#[derive(Copy, Clone)]
enum Dir {
    Nort,
    NortEast,
    East,
    SoutEast,
    Sout,
    SoutWest,
    West,
    NortWest,
}

spec fn dir_dr(d: Dir) -> int {
    match d {
        Dir::Nort | Dir::NortEast | Dir::NortWest => 1,
        Dir::Sout | Dir::SoutEast | Dir::SoutWest => -1,
        _ => 0,
    }
}

spec fn dir_df(d: Dir) -> int {
    match d {
        Dir::East | Dir::NortEast | Dir::SoutEast => 1,
        Dir::West | Dir::NortWest | Dir::SoutWest => -1,
        _ => 0,
    }
}

/// The one-square set `{c}` moved one step in direction `d`: the next square, or nothing at the edge.
fn step(bb: Bitboard, d: Dir, Ghost(c): Ghost<int>) -> (r: Bitboard)
    requires
        0 <= c < 64,
        forall|i: int| #[trigger] bb.has(i) == (i == c),
    ensures
        forall|i: int| #[trigger] r.has(i) == (offset(c, dir_dr(d), dir_df(d)) == Some(i)),
{
    let r = match d {
        Dir::Nort => bb.nort_one(),
        Dir::NortEast => bb.nort_one().east_one(),
        Dir::East => bb.east_one(),
        Dir::SoutEast => bb.sout_one().east_one(),
        Dir::Sout => bb.sout_one(),
        Dir::SoutWest => bb.sout_one().west_one(),
        Dir::West => bb.west_one(),
        Dir::NortWest => bb.nort_one().west_one(),
    };
    r
}

/// What is left of a ray from `cur` on: `cur` itself and, unless it is blocked, the squares beyond.
spec fn rest(cur: Option<int>, dr: int, df: int, blockers: u64, fuel: nat) -> Set<int> {
    match cur {
        None => Set::empty(),
        Some(c) => if bit(blockers, c as u64) {
            set![c]
        } else {
            set![c].union(ray(c, dr, df, blockers, fuel))
        },
    }
}

/// The squares a slider on `orig` reaches in direction `d`.
fn ray_gen(orig: Square, d: Dir, blockers: Bitboard) -> (b: Bitboard)
    ensures
        b@ == slide(orig@, dir_dr(d), dir_df(d), blockers.0),
{
    let ghost (s, dr, df) = (orig@, dir_dr(d), dir_df(d));
    let o = orig.bb();
    let mut attacks = Bitboard::EMPTY();
    let mut idx = step(o, d, Ghost(orig@));
    let ghost mut cur: Option<int> = offset(s, dr, df);
    let ghost mut k: int = 1;
    proof {
        assert(attacks@ =~= Set::<int>::empty());
        assert(slide(s, dr, df, blockers.0) == rest(cur, dr, df, blockers.0, 7));
        assert(attacks@.union(rest(cur, dr, df, blockers.0, 7)) =~= rest(cur, dr, df, blockers.0, 7));
    }
    loop
        invariant_except_break
            0 <= s < 64,
            (dr, df) == (dir_dr(d), dir_df(d)),
            1 <= k <= 8,
            cur == offset(s, k * dr, k * df),
            forall|i: int| #[trigger] idx.has(i) == (cur == Some(i)),
            attacks@.union(rest(cur, dr, df, blockers.0, (8 - k) as nat)) == slide(s, dr, df, blockers.0),
            cur is None ==> attacks@ == slide(s, dr, df, blockers.0),
            cur matches Some(c) ==> 0 <= c < 64,
        ensures
            attacks@ == slide(s, dr, df, blockers.0),
        decreases 8 - k,
    {
        if idx.is_empty() {
            proof {
                if cur is Some {
                    assert(idx.has(cur.unwrap()));
                }
                assert(attacks@.union(rest(cur, dr, df, blockers.0, (8 - k) as nat)) =~= attacks@);
            }
            break;
        }
        let ghost c = cur.unwrap();
        proof {
            lemma_offset_step(s, k, dr, df);
        }
        let ghost before = attacks;
        attacks.bitor_assign(idx);
        proof {
            assert(attacks@ =~= before@.insert(c));
        }
        if !idx.bitand(blockers).is_empty() {
            proof {
                assert(bit(blockers.0, c as u64));
                assert(rest(cur, dr, df, blockers.0, (8 - k) as nat) =~= set![c]);
                assert(attacks@ =~= before@.union(rest(cur, dr, df, blockers.0, (8 - k) as nat)));
            }
            break;
        }
        idx = step(idx, d, Ghost(c));
        proof {
            assert(!bit(blockers.0, c as u64));
            let f = (8 - k) as nat;
            assert(ray(c, dr, df, blockers.0, f) == rest(offset(c, dr, df), dr, df, blockers.0, (f - 1) as nat));
            cur = offset(c, dr, df);
            k = k + 1;
            assert(attacks@.union(rest(cur, dr, df, blockers.0, (8 - k) as nat)) =~= before@.union(
                set![c].union(ray(c, dr, df, blockers.0, f)),
            ));
            if cur is None {
                assert(attacks@.union(rest(cur, dr, df, blockers.0, (8 - k) as nat)) =~= attacks@);
            }
        }
    }
    attacks
}



/// The squares a bishop on `orig` attacks, given the occupied squares `blockers`.
pub fn b_move_gen(orig: Square, blockers: Bitboard) -> (b: Bitboard)
    ensures
        b@ == bishop_attacks(orig@, blockers.0),
{
    let ne = ray_gen(orig, Dir::NortEast, blockers);
    let se = ray_gen(orig, Dir::SoutEast, blockers);
    let sw = ray_gen(orig, Dir::SoutWest, blockers);
    let nw = ray_gen(orig, Dir::NortWest, blockers);
    let b = ne.bitor(se).bitor(sw).bitor(nw);
    proof {
        assert(b@ =~= bishop_attacks(orig@, blockers.0));
    }
    b
}

/// The squares a rook on `orig` attacks, given the occupied squares `blockers`.
pub fn r_move_gen(orig: Square, blockers: Bitboard) -> (b: Bitboard)
    ensures
        b@ == rook_attacks(orig@, blockers.0),
{
    let n = ray_gen(orig, Dir::Nort, blockers);
    let e = ray_gen(orig, Dir::East, blockers);
    let s = ray_gen(orig, Dir::Sout, blockers);
    let w = ray_gen(orig, Dir::West, blockers);
    let b = n.bitor(e).bitor(s).bitor(w);
    proof {
        assert(b@ =~= rook_attacks(orig@, blockers.0));
    }
    b
}

/// The squares a queen on `orig` attacks, given the occupied squares `blockers`.
pub fn q_move_gen(orig: Square, blockers: Bitboard) -> (b: Bitboard)
    ensures
        b@ == queen_attacks(orig@, blockers.0),
{
    let b = b_move_gen(orig, blockers).bitor(r_move_gen(orig, blockers));
    proof {
        assert(b@ =~= queen_attacks(orig@, blockers.0));
    }
    b
}


/// The word `p_move_gen` computes from a set of pawns `o` (whose highest square
/// decides whether a double push is looked at).
pub open spec fn pawn_word(o: u64, white: bool, friend: u64, enemy: u64, en_passant: u64) -> u64 {
    let forward = if white { o << 8u64 } else { o >> 8u64 };
    let blocks = friend | enemy;
    let attacks = (((forward << 1u64) & !0x0101010101010101u64) | ((forward >> 1u64) & !0x8080808080808080u64))
        & (enemy | en_passant);
    let step = forward & !blocks;
    let movement = if white && highest_bit(o) / 8 == 1 {
        step | ((step << 8u64) & !blocks)
    } else if highest_bit(o) / 8 == 6 {
        step | ((step >> 8u64) & !blocks)
    } else {
        step
    };
    attacks | movement
}

/// The squares the pawns `orig` of the given colour can go to: diagonally
/// forward onto `enemy` or `en_passant`, forward onto empty squares, and two
/// squares forward from the starting rank.
pub fn p_move_gen(orig: Bitboard, is_white: bool, friend: Bitboard, enemy: Bitboard, en_passant: Bitboard) -> (b: Bitboard)
    requires
        orig.0 != 0,
    ensures
        b.0 == pawn_word(orig.0, is_white, friend.0, enemy.0, en_passant.0),
{
    let forward = if is_white {
        orig.nort_one()
    } else {
        orig.sout_one()
    };
    let blocks = friend.bitor(enemy);
    let attacks = forward.east_one().bitor(forward.west_one()).bitand(enemy.bitor(en_passant));
    let movement = if is_white && orig.rank() == 1 {
        let step = forward.bitand(blocks.not());
        step.bitor(step.nort_one().bitand(blocks.not()))
    } else if orig.rank() == 6 {
        let step = forward.bitand(blocks.not());
        step.bitor(step.sout_one().bitand(blocks.not()))
    } else {
        forward.bitand(blocks.not())
    };
    attacks.bitor(movement)
}

/// For a single pawn of the side `friend`, `p_move_gen` gives exactly the squares the pawn can reach.
pub proof fn lemma_pawn_word_single(p: int, white: bool, friend: u64, enemy: u64, en_passant: u64)
    requires
        0 <= p < 64,
        bit(friend, p as u64),
    ensures
        forall|t: int| 0 <= t < 64 ==> #[trigger] bit(pawn_word(single(p), white, friend, enemy, en_passant), t as u64)
            == pawn_reach(p, white, friend, enemy, en_passant, t),
{
    lemma_single_bits(p);
    let pu = p as u64;
    let o = single(p);
    assert forall|t: int| 0 <= t < 64 implies #[trigger] bit(pawn_word(single(p), white, friend, enemy, en_passant), t as u64)
        == pawn_reach(p, white, friend, enemy, en_passant, t) by {
        let tu = t as u64;
        let (f, e, ep) = (friend, enemy, en_passant);
        if white {
            assert({
                let forward = o << 8u64;
                let blocks = f | e;
                let attacks = (((forward << 1u64) & !0x0101010101010101u64) | ((forward >> 1u64) & !0x8080808080808080u64)) & (e | ep);
                let step = forward & !blocks;
                let movement = if pu / 8 == 1 { step | ((step << 8u64) & !blocks) } else if pu / 8 == 6 { step | ((step >> 8u64) & !blocks) } else { step };
                (((attacks | movement) >> tu) & 1u64 == 1u64) == ({
                    ||| tu / 8 == pu / 8 + 1 && (tu % 8 == pu % 8 + 1 || pu % 8 == tu % 8 + 1) && ((e >> tu) & 1u64 == 1u64 || (ep >> tu) & 1u64 == 1u64)
                    ||| tu == pu + 8 && !((f >> tu) & 1u64 == 1u64 || (e >> tu) & 1u64 == 1u64)
                    ||| pu / 8 == 1 && tu == pu + 16 && !((f >> ((pu + 8) as u64)) & 1u64 == 1u64 || (e >> ((pu + 8) as u64)) & 1u64 == 1u64)
                        && !((f >> tu) & 1u64 == 1u64 || (e >> tu) & 1u64 == 1u64)
                })
            }) by (bit_vector)
                requires
                    pu < 64,
                    tu < 64,
                    o == 1u64 << pu,
                    (f >> pu) & 1u64 == 1u64,
            ;
        } else {
            assert({
                let forward = o >> 8u64;
                let blocks = f | e;
                let attacks = (((forward << 1u64) & !0x0101010101010101u64) | ((forward >> 1u64) & !0x8080808080808080u64)) & (e | ep);
                let step = forward & !blocks;
                let movement = if pu / 8 == 6 { step | ((step >> 8u64) & !blocks) } else { step };
                (((attacks | movement) >> tu) & 1u64 == 1u64) == ({
                    ||| tu / 8 + 1 == pu / 8 && (tu % 8 == pu % 8 + 1 || pu % 8 == tu % 8 + 1) && ((e >> tu) & 1u64 == 1u64 || (ep >> tu) & 1u64 == 1u64)
                    ||| tu + 8 == pu && !((f >> tu) & 1u64 == 1u64 || (e >> tu) & 1u64 == 1u64)
                    ||| pu / 8 == 6 && tu + 16 == pu && !((f >> ((pu - 8) as u64)) & 1u64 == 1u64 || (e >> ((pu - 8) as u64)) & 1u64 == 1u64)
                        && !((f >> tu) & 1u64 == 1u64 || (e >> tu) & 1u64 == 1u64)
                })
            }) by (bit_vector)
                requires
                    pu < 64,
                    tu < 64,
                    o == 1u64 << pu,
            ;
        }
    }
}

} // verus!
