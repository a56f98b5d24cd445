//! Making a listed move keeps a board consistent.
use vstd::prelude::*;
use crate::bits::{bit, single, group_bits};
use crate::board::model::{BoardView, MAX_NUM_MOVES, PAWN_IDX, KING_IDX, ROOK_IDX, WHITE_IDX, BLACK_IDX, find_piece_spec,
    ep_victim, ep_after, promotion_index, castle_squares};
use crate::types::movement::{Flag, MoveView, double_push_target};
use crate::types::piece::Piece;
use crate::types::state_metadata::{ep_target_of, lemma_next_word_capture};

verus! {

broadcast use group_bits;

/// The square-by-square facts that make a board consistent.
pub open spec fn sane_bits(w: BoardView) -> bool {
    &&& forall|x: u64| x < 64 ==> !(#[trigger] bit(w.colors[0], x) && bit(w.colors[1], x))
    &&& forall|x: u64, i: int, j: int| x < 64 && 0 <= i < j < 6 ==> !(#[trigger] bit(w.pieces[i], x) && #[trigger] bit(w.pieces[j], x))
    &&& forall|x: u64| x < 64 ==> #[trigger] bit(w.pieces_union(), x) == (bit(w.colors[0], x) || bit(w.colors[1], x))
}

/// The en passant part of consistency.
pub open spec fn ep_sane(w: BoardView) -> bool {
    match ep_target_of(w.flags()) {
        Some(e) => {
            let victim = ep_victim(w.white_to_move, e);
            &&& !bit(w.occupied(), e as u64)
            &&& victim & w.enemy() == victim
            &&& victim & w.pieces[PAWN_IDX as int] == victim
        },
        None => true,
    }
}

/// Consistency is the square-by-square facts and the en passant condition.
pub proof fn lemma_sane_iff_bits(w: BoardView)
    requires
        w.well_sized(),
    ensures
        w.sane() <==> (sane_bits(w) && ep_sane(w)),
{
    let (c0, c1) = (w.colors[0], w.colors[1]);
    crate::bits::lemma_zero_iff_no_bit(c0 & c1);
    if sane_bits(w) {
        assert forall|i: int, j: int| 0 <= i < j < 6 implies #[trigger] (w.pieces[i] & w.pieces[j]) == 0 by {
            crate::bits::lemma_zero_iff_no_bit(w.pieces[i] & w.pieces[j]);
            assert forall|x: u64| x < 64 implies !bit(w.pieces[i] & w.pieces[j], x) by {
                assert(!(bit(w.pieces[i], x) && bit(w.pieces[j], x)));
            }
        }
        crate::bits::lemma_bit_ext(w.pieces_union(), c0 | c1);
    }
    if w.sane() {
        assert forall|x: u64, i: int, j: int| x < 64 && 0 <= i < j < 6 implies !(#[trigger] bit(w.pieces[i], x)
            && #[trigger] bit(w.pieces[j], x)) by {
            assert(w.pieces[i] & w.pieces[j] == 0);
            assert(!bit(w.pieces[i] & w.pieces[j], x));
        }
        assert forall|x: u64| x < 64 implies !(#[trigger] bit(w.colors[0], x) && bit(w.colors[1], x)) by {
            assert(!bit(c0 & c1, x));
        }
    }
}

/// The set a consistent board holds a square in, when it holds it in set `k`.
proof fn lemma_only_set(v: BoardView, x: int, k: int)
    requires
        v.well_sized(),
        sane_bits(v),
        0 <= x < 64,
        0 <= k < 6,
        bit(v.pieces[k], x as u64),
    ensures
        forall|i: int| 0 <= i < 6 && i != k ==> !bit(v.pieces[i], x as u64),
        find_piece_spec(v.pieces, single(x)) != Piece::NoPiece,
        find_piece_spec(v.pieces, single(x)).code() - 1 == k,
{
    assert forall|i: int| 0 <= i < 6 && i != k implies !bit(v.pieces[i], x as u64) by {
        if i < k {
            assert(!(bit(v.pieces[i], x as u64) && bit(v.pieces[k], x as u64)));
        } else {
            assert(!(bit(v.pieces[k], x as u64) && bit(v.pieces[i], x as u64)));
        }
    }
    crate::board::model::lemma_find_piece(v.pieces, x);
}

/// A square is held by some piece set exactly when it is occupied.
proof fn lemma_union_bit(v: BoardView, x: u64)
    requires
        v.well_sized(),
        x < 64,
    ensures
        bit(v.pieces_union(), x) == (bit(v.pieces[0], x) || bit(v.pieces[1], x) || bit(v.pieces[2], x)
            || bit(v.pieces[3], x) || bit(v.pieces[4], x) || bit(v.pieces[5], x)),
{
}

/// Making a move that is neither a castling nor en passant, from a friendly piece of set
/// `kind` to a square no friend holds, keeps a board consistent; a double push must pass
/// over an empty square onto an empty one.
pub proof fn lemma_normal_make_sane(v: BoardView, m: MoveView, kind: int)
    requires
        v.sane(),
        v.ply + 1 < MAX_NUM_MOVES,
        0 <= kind < 6,
        0 <= m.orig < 64 && 0 <= m.targ < 64,
        bit(v.friend() & v.pieces[kind], m.orig as u64),
        !bit(v.friend(), m.targ as u64),
        !m.flag.spec_is_castle(),
        m.flag != Flag::EnPassant,
        m.flag.spec_is_promotion() ==> kind == PAWN_IDX,
        m.flag == Flag::DoublePush ==> {
            &&& kind == PAWN_IDX
            &&& if v.white_to_move { m.orig / 8 == 1 && m.targ == m.orig + 16 } else { m.orig / 8 == 6 && m.targ + 16 == m.orig }
            &&& !bit(v.occupied(), m.targ as u64)
            &&& !bit(v.occupied(), (if v.white_to_move { m.orig + 8 } else { m.orig - 8 }) as u64)
        },
    ensures
        v.make(m).sane(),
{
    lemma_sane_iff_bits(v);
    let w = v.make(m);
    let (o, t) = (m.orig, m.targ);
    let (ou, tu) = (o as u64, t as u64);
    let me = v.side();
    let other = 1 - me;
    let pcs = v.pieces;
    lemma_only_set(v, o, kind);
    assert(!bit(v.enemy(), ou)) by {
        assert(!(bit(v.colors[0], ou) && bit(v.colors[1], ou)));
    }
    let from = find_piece_spec(pcs, single(o)).code() - 1;
    let p1 = pcs.update(from, pcs[from] & !single(o));
    let to = if m.flag.spec_is_promotion() { promotion_index(m.flag) } else { from };
    let cap = find_piece_spec(p1, single(t));
    crate::board::model::lemma_find_piece(p1, t);
    let p2 = if cap != Piece::NoPiece { p1.update(cap.code() - 1, p1[cap.code() - 1] & !single(t)) } else { p1 };
    let p3 = p2.update(to, p2[to] | single(t));
    assert(w.pieces == p3);
    crate::types::bitboard::lemma_single_bits(o);
    crate::types::bitboard::lemma_single_bits(t);
    assert(o != t);
    // the bits of the new piece sets
    assert forall|i: int, x: u64| 0 <= i < 6 && x < 64 implies #[trigger] bit(p3[i], x) == (if x == tu { i == to } else {
        bit(pcs[i], x) && !(x == ou)
    }) by {
        if x == tu {
            if cap != Piece::NoPiece {
                let c = cap.code() - 1;
                assert(bit(p1[c], tu));
                if i != c && i != to {
                    assert(!(bit(p1[i], tu) && bit(p1[c], tu)) || i == c) by {
                        if i < c {
                            assert(!(bit(pcs[i], tu) && bit(pcs[c], tu)));
                        } else {
                            assert(!(bit(pcs[c], tu) && bit(pcs[i], tu)));
                        }
                    }
                }
            } else {
                assert(!bit(p1[i], tu));
            }
        } else if x == ou {
            assert(i == from || !bit(pcs[i], ou));
        }
    }
    // the bits of the new colours
    assert forall|x: u64| x < 64 implies #[trigger] bit(w.colors[me], x) == ((bit(v.colors[me], x) && x != ou) || x == tu)
        && bit(w.colors[other], x) == (bit(v.colors[other], x) && x != tu) by {}
    // consistency square by square
    assert forall|x: u64| x < 64 implies !(#[trigger] bit(w.colors[0], x) && bit(w.colors[1], x)) by {
        assert(!(bit(v.colors[0], x) && bit(v.colors[1], x)));
    }
    assert forall|x: u64, i: int, j: int| x < 64 && 0 <= i < j < 6 implies !(#[trigger] bit(w.pieces[i], x)
        && #[trigger] bit(w.pieces[j], x)) by {
        assert(bit(p3[i], x) == (if x == tu { i == to } else { bit(pcs[i], x) && !(x == ou) }));
        assert(bit(p3[j], x) == (if x == tu { j == to } else { bit(pcs[j], x) && !(x == ou) }));
        assert(!(bit(pcs[i], x) && bit(pcs[j], x)));
    }
    assert forall|x: u64| x < 64 implies #[trigger] bit(w.pieces_union(), x) == (bit(w.colors[0], x) || bit(w.colors[1], x)) by {
        lemma_union_bit(v, x);
        lemma_union_bit(w, x);
        assert(bit(v.pieces_union(), x) == (bit(v.colors[0], x) || bit(v.colors[1], x)));
        assert(bit(p3[0], x) == (if x == tu { 0 == to } else { bit(pcs[0], x) && !(x == ou) }));
        assert(bit(p3[1], x) == (if x == tu { 1 == to } else { bit(pcs[1], x) && !(x == ou) }));
        assert(bit(p3[2], x) == (if x == tu { 2 == to } else { bit(pcs[2], x) && !(x == ou) }));
        assert(bit(p3[3], x) == (if x == tu { 3 == to } else { bit(pcs[3], x) && !(x == ou) }));
        assert(bit(p3[4], x) == (if x == tu { 4 == to } else { bit(pcs[4], x) && !(x == ou) }));
        assert(bit(p3[5], x) == (if x == tu { 5 == to } else { bit(pcs[5], x) && !(x == ou) }));
        assert(0 <= to < 6);
        assert(bit(w.colors[me], x) == ((bit(v.colors[me], x) && x != ou) || x == tu));
        assert(bit(w.colors[other], x) == (bit(v.colors[other], x) && x != tu));
        if x == ou {
            assert(bit(v.colors[me], ou));
        }
    }
    // the en passant target
    let (dwk, dwq, dbk, dbq) = v.disabled_rights(m);
    let is_pawn_move = v.pieces[PAWN_IDX as int] & single(o) != 0;
    lemma_next_word_capture(v.flags(), m.flag.spec_is_capture() && is_pawn_move, dwk, dwq, dbk, dbq, ep_after(m), cap, t);
    assert(ep_target_of(w.flags()) == ep_after(m));
    if m.flag == Flag::DoublePush {
        let e = double_push_target(m);
        let pass = if v.white_to_move { o + 8 } else { o - 8 };
        assert(e == pass);
        crate::types::bitboard::lemma_single_bits(e);
        let victim = ep_victim(w.white_to_move, e);
        lemma_victim(w.white_to_move, e);
        assert(victim == single(t));
        assert(!bit(v.occupied(), e as u64));
        assert(bit(w.colors[me], tu));
        assert(w.enemy() == w.colors[me]);
        assert(bit(p3[PAWN_IDX as int], tu));
        crate::bits::lemma_and_single(w.enemy(), t);
        crate::bits::lemma_and_single(p3[PAWN_IDX as int], t);
        lemma_and_single_eq(w.enemy(), t);
        lemma_and_single_eq(p3[PAWN_IDX as int], t);
        assert(!bit(w.occupied(), e as u64)) by {
            assert(bit(w.colors[me], e as u64) == ((bit(v.colors[me], e as u64) && e != o) || e == t));
            assert(bit(w.colors[other], e as u64) == (bit(v.colors[other], e as u64) && e != t));
        }
    }
    assert(w.well_sized());
    lemma_sane_iff_bits(w);
}

/// Capturing en passant, from a friendly pawn onto the empty en passant target
/// diagonally in front of it, keeps a board consistent.
pub proof fn lemma_ep_make_sane(v: BoardView, m: MoveView)
    requires
        v.sane(),
        v.ply + 1 < MAX_NUM_MOVES,
        m.flag == Flag::EnPassant,
        0 <= m.orig < 64 && 0 <= m.targ < 64,
        bit(v.friend() & v.pieces[PAWN_IDX as int], m.orig as u64),
        ep_target_of(v.flags()) == Some(m.targ),
        m.targ / 8 == m.orig / 8 + (if v.white_to_move { 1int } else { -1int }),
        m.targ % 8 == m.orig % 8 + 1 || m.orig % 8 == m.targ % 8 + 1,
    ensures
        v.make(m).sane(),
{
    lemma_sane_iff_bits(v);
    let w = v.make(m);
    let (o, t) = (m.orig, m.targ);
    let (ou, tu) = (o as u64, t as u64);
    let me = v.side();
    let other = 1 - me;
    let pcs = v.pieces;
    let vsq = if v.white_to_move { t - 8 } else { t + 8 };
    let vu = vsq as u64;
    lemma_victim(v.white_to_move, t);
    let victim = ep_victim(v.white_to_move, t);
    assert(victim == single(vsq));
    crate::types::bitboard::lemma_single_bits(o);
    crate::types::bitboard::lemma_single_bits(t);
    crate::types::bitboard::lemma_single_bits(vsq);
    assert(vsq != o && vsq != t && o != t);
    // the victim is an enemy pawn, the target is empty
    assert(bit(victim & v.enemy(), vu));
    assert(bit(v.enemy(), vu));
    assert(bit(victim & pcs[PAWN_IDX as int], vu));
    assert(bit(pcs[PAWN_IDX as int], vu));
    lemma_only_set(v, vsq, PAWN_IDX as int);
    lemma_only_set(v, o, PAWN_IDX as int);
    assert(!bit(v.occupied(), tu));
    lemma_union_bit(v, tu);
    assert(!bit(v.pieces_union(), tu));
    assert(!bit(v.enemy(), ou)) by {
        assert(!(bit(v.colors[0], ou) && bit(v.colors[1], ou)));
    }
    assert(!bit(v.friend(), vu)) by {
        assert(!(bit(v.colors[0], vu) && bit(v.colors[1], vu)));
    }
    let p = w.pieces;
    assert forall|i: int, x: u64| 0 <= i < 6 && x < 64 implies #[trigger] bit(p[i], x) == (if i == PAWN_IDX {
        (bit(pcs[i], x) && x != ou && x != vu) || x == tu
    } else {
        bit(pcs[i], x)
    }) by {}
    assert forall|x: u64| x < 64 implies #[trigger] bit(w.colors[me], x) == ((bit(v.colors[me], x) && x != ou) || x == tu)
        && bit(w.colors[other], x) == (bit(v.colors[other], x) && x != vu) by {}
    assert forall|x: u64| x < 64 implies !(#[trigger] bit(w.colors[0], x) && bit(w.colors[1], x)) by {
        assert(!(bit(v.colors[0], x) && bit(v.colors[1], x)));
    }
    assert forall|x: u64, i: int, j: int| x < 64 && 0 <= i < j < 6 implies !(#[trigger] bit(w.pieces[i], x)
        && #[trigger] bit(w.pieces[j], x)) by {
        assert(!(bit(pcs[i], x) && bit(pcs[j], x)));
        if x == tu {
            assert(!bit(pcs[i], tu) && !bit(pcs[j], tu));
        }
    }
    assert forall|x: u64| x < 64 implies #[trigger] bit(w.pieces_union(), x) == (bit(w.colors[0], x) || bit(w.colors[1], x)) by {
        lemma_union_bit(v, x);
        lemma_union_bit(w, x);
        assert(bit(v.pieces_union(), x) == (bit(v.colors[0], x) || bit(v.colors[1], x)));
        assert(bit(w.colors[me], x) == ((bit(v.colors[me], x) && x != ou) || x == tu));
        assert(bit(w.colors[other], x) == (bit(v.colors[other], x) && x != vu));
        assert(bit(p[0], x) == ((bit(pcs[0], x) && x != ou && x != vu) || x == tu));
        assert(bit(p[1], x) == bit(pcs[1], x));
        assert(bit(p[2], x) == bit(pcs[2], x));
        assert(bit(p[3], x) == bit(pcs[3], x));
        assert(bit(p[4], x) == bit(pcs[4], x));
        assert(bit(p[5], x) == bit(pcs[5], x));
        if x == ou {
            assert(bit(v.colors[me], ou));
        }
        if x == vu {
            assert(bit(v.colors[other], vu));
        }
    }
    let (dwk, dwq, dbk, dbq) = v.disabled_rights(m);
    let is_pawn_move = v.pieces[PAWN_IDX as int] & single(o) != 0;
    lemma_next_word_capture(v.flags(), m.flag.spec_is_capture() && is_pawn_move, dwk, dwq, dbk, dbq, ep_after(m), Piece::Pawn, t);
    assert(ep_target_of(w.flags()) is None);
    assert(w.well_sized());
    lemma_sane_iff_bits(w);
}

/// Castling, with the king and rook at home and the squares they land on empty,
/// keeps a board consistent.
pub proof fn lemma_castle_make_sane(v: BoardView, m: MoveView)
    requires
        v.sane(),
        v.ply + 1 < MAX_NUM_MOVES,
        m.flag.spec_is_castle(),
        0 <= m.targ < 64,
        ({
            let (orook, drook, oking, dking) = castle_squares(v.white_to_move, m.flag == Flag::ShortCastle);
            &&& bit(v.friend() & v.pieces[KING_IDX as int], oking as u64)
            &&& bit(v.friend() & v.pieces[ROOK_IDX as int], orook as u64)
            &&& !bit(v.occupied(), dking as u64)
            &&& !bit(v.occupied(), drook as u64)
        }),
    ensures
        v.make(m).sane(),
{
    lemma_sane_iff_bits(v);
    let w = v.make(m);
    let me = v.side();
    let other = 1 - me;
    let pcs = v.pieces;
    let (orook, drook, oking, dking) = castle_squares(v.white_to_move, m.flag == Flag::ShortCastle);
    let (ork, drk, okg, dkg) = (orook as u64, drook as u64, oking as u64, dking as u64);
    crate::types::bitboard::lemma_single_bits(orook);
    crate::types::bitboard::lemma_single_bits(drook);
    crate::types::bitboard::lemma_single_bits(oking);
    crate::types::bitboard::lemma_single_bits(dking);
    lemma_only_set(v, oking, KING_IDX as int);
    lemma_only_set(v, orook, ROOK_IDX as int);
    lemma_union_bit(v, dkg);
    lemma_union_bit(v, drk);
    assert(!bit(v.pieces_union(), dkg));
    assert(!bit(v.pieces_union(), drk));
    assert(!bit(v.enemy(), okg) && !bit(v.enemy(), ork)) by {
        assert(!(bit(v.colors[0], okg) && bit(v.colors[1], okg)));
        assert(!(bit(v.colors[0], ork) && bit(v.colors[1], ork)));
    }
    let p = w.pieces;
    assert forall|i: int, x: u64| 0 <= i < 6 && x < 64 implies #[trigger] bit(p[i], x) == (if i == KING_IDX {
        (bit(pcs[i], x) && x != okg) || x == dkg
    } else if i == ROOK_IDX {
        (bit(pcs[i], x) && x != ork) || x == drk
    } else {
        bit(pcs[i], x)
    }) by {}
    assert forall|x: u64| x < 64 implies #[trigger] bit(w.colors[me], x) == ((bit(v.colors[me], x) && x != okg && x != ork)
        || x == dkg || x == drk) && bit(w.colors[other], x) == bit(v.colors[other], x) by {}
    assert forall|x: u64| x < 64 implies !(#[trigger] bit(w.colors[0], x) && bit(w.colors[1], x)) by {
        assert(!(bit(v.colors[0], x) && bit(v.colors[1], x)));
    }
    assert forall|x: u64, i: int, j: int| x < 64 && 0 <= i < j < 6 implies !(#[trigger] bit(w.pieces[i], x)
        && #[trigger] bit(w.pieces[j], x)) by {
        assert(!(bit(pcs[i], x) && bit(pcs[j], x)));
        if x == dkg || x == drk {
            assert(!bit(pcs[i], x) && !bit(pcs[j], x));
        }
    }
    assert forall|x: u64| x < 64 implies #[trigger] bit(w.pieces_union(), x) == (bit(w.colors[0], x) || bit(w.colors[1], x)) by {
        lemma_union_bit(v, x);
        lemma_union_bit(w, x);
        assert(bit(v.pieces_union(), x) == (bit(v.colors[0], x) || bit(v.colors[1], x)));
        assert(bit(w.colors[me], x) == ((bit(v.colors[me], x) && x != okg && x != ork) || x == dkg || x == drk));
        assert(bit(w.colors[other], x) == bit(v.colors[other], x));
        assert(bit(p[0], x) == bit(pcs[0], x));
        assert(bit(p[1], x) == bit(pcs[1], x));
        assert(bit(p[2], x) == bit(pcs[2], x));
        assert(bit(p[3], x) == ((bit(pcs[3], x) && x != ork) || x == drk));
        assert(bit(p[4], x) == bit(pcs[4], x));
        assert(bit(p[5], x) == ((bit(pcs[5], x) && x != okg) || x == dkg));
        if x == okg || x == ork {
            assert(bit(v.colors[me], x));
        }
    }
    let (dwk, dwq, dbk, dbq) = v.disabled_rights(m);
    let is_pawn_move = v.pieces[PAWN_IDX as int] & single(m.orig) != 0;
    lemma_next_word_capture(v.flags(), m.flag.spec_is_capture() && is_pawn_move, dwk, dwq, dbk, dbq, ep_after(m), Piece::NoPiece, m.targ);
    assert(ep_target_of(w.flags()) is None);
    assert(w.well_sized());
    lemma_sane_iff_bits(w);
}

/// The square behind an en passant target, seen from the side to move.
proof fn lemma_victim(white: bool, e: int)
    requires
        if white { 8 <= e < 64 } else { 0 <= e < 56 },
    ensures
        ep_victim(white, e) == single(if white { e - 8 } else { e + 8 }),
{
    let eu = e as u64;
    if white {
        assert((1u64 << eu) >> 8u64 == 1u64 << ((eu - 8) as u64)) by (bit_vector)
            requires
                8 <= eu < 64,
        ;
    } else {
        assert((1u64 << eu) << 8u64 == 1u64 << ((eu + 8) as u64)) by (bit_vector)
            requires
                eu < 56,
        ;
    }
}

/// A word holding a square keeps that square's set whole under `&`.
proof fn lemma_and_single_eq(w: u64, t: int)
    requires
        0 <= t < 64,
        bit(w, t as u64),
    ensures
        single(t) & w == single(t),
{
    let tu = t as u64;
    assert((1u64 << tu) & w == (1u64 << tu)) by (bit_vector)
        requires
            tu < 64,
            (w >> tu) & 1u64 == 1u64,
    ;
}

} // verus!
