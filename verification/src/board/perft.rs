//! Counting the positions reachable in a given number of moves (perft), move kinds included.
use vstd::prelude::*;
use crate::bits::single;
use crate::board::Board;
use crate::board::model::{BoardView, find_piece_spec, view_moves};
use crate::types::movement::{Flag, Move, MoveView};
use crate::types::piece::Piece;
use crate::types::state_metadata::captured_code;

verus! {

/// What a perft search counts: the leaf positions, and among the moves that lead to them
/// (the moves made at the last ply) the captures, the en passant captures, the castlings
/// and the promotions.
pub struct Tally {
    pub nodes: nat,
    pub captures: nat,
    pub en_passants: nat,
    pub castles: nat,
    pub promotions: nat,
}

pub open spec fn tally_zero() -> Tally {
    Tally { nodes: 0, captures: 0, en_passants: 0, castles: 0, promotions: 0 }
}

pub open spec fn tally_add(a: Tally, b: Tally) -> Tally {
    Tally {
        nodes: a.nodes + b.nodes,
        captures: a.captures + b.captures,
        en_passants: a.en_passants + b.en_passants,
        castles: a.castles + b.castles,
        promotions: a.promotions + b.promotions,
    }
}

/// What one move adds to the counts of its kinds.
pub open spec fn move_tally(m: MoveView) -> Tally {
    Tally {
        nodes: 0,
        captures: if m.flag.spec_is_capture() { 1 } else { 0 },
        en_passants: if m.flag == Flag::EnPassant { 1 } else { 0 },
        castles: if m.flag.spec_is_castle() { 1 } else { 0 },
        promotions: if m.flag.spec_is_promotion() { 1 } else { 0 },
    }
}

/// `a` is nowhere larger than `b`.
pub open spec fn tally_le(a: Tally, b: Tally) -> bool {
    &&& a.nodes <= b.nodes
    &&& a.captures <= b.captures
    &&& a.en_passants <= b.en_passants
    &&& a.castles <= b.castles
    &&& a.promotions <= b.promotions
}

/// A move just made on the board `v` can be taken back: the ply is at least one, and a
/// move other than castling or en passant has a piece on its target and a piece code
/// in the capture field.
pub open spec fn unmakeable(v: BoardView, m: MoveView) -> bool {
    &&& v.ply >= 1
    &&& !m.flag.spec_is_castle() && m.flag != Flag::EnPassant ==> {
        &&& find_piece_spec(v.pieces, single(m.targ)) != Piece::NoPiece
        &&& captured_code(v.flags()) != 7
    }
}

/// A perft search of depth `d` from `v`: its counts, the board it leaves, and whether
/// every move it makes can be made and taken back. At depth 0 the board is one leaf;
/// otherwise each legal move is made, searched one level less deep, and taken back.
pub open spec fn perft_run(v: BoardView, d: nat) -> (Tally, BoardView, bool)
    decreases 2 * d, 0int,
{
    if d == 0 {
        (Tally { nodes: 1, captures: 0, en_passants: 0, castles: 0, promotions: 0 }, v, true)
    } else {
        let r = perft_fold(v.after_scan(), v.legal_list(), v.legal_list().len() as int, (d - 1) as nat);
        (r.0, r.1, v.scan_ok(v.pseudo_moves()) && r.2)
    }
}

/// The first `k` moves of `ms` searched one after the other from `u0`, each to depth `c`.
/// The kinds of a move are counted when it is made at the last ply (`c == 0`).
pub open spec fn perft_fold(u0: BoardView, ms: Seq<MoveView>, k: int, c: nat) -> (Tally, BoardView, bool)
    decreases 2 * c + 1, k,
{
    if k <= 0 {
        (tally_zero(), u0, true)
    } else {
        let prev = perft_fold(u0, ms, k - 1, c);
        let m = ms[k - 1];
        let u = prev.1;
        let sub = perft_run(u.make(m), c);
        (
            tally_add(tally_add(prev.0, if c == 0 { move_tally(m) } else { tally_zero() }), sub.0),
            sub.1.unmake(m),
            prev.2 && u.makeable(m) && unmakeable(sub.1, m) && sub.2,
        )
    }
}

/// The node count of `perft_divide_helper` at depth `d` from `v`, the board it leaves,
/// and whether each move it makes can be made and taken back. It lists the legal moves
/// once, answers 1 at depth 0 and their number at depth 1, and otherwise lists them again
/// and searches each one level less deep.
pub open spec fn divide_run(v: BoardView, d: nat) -> (nat, BoardView, bool)
    decreases 2 * d, 0int,
{
    let u1 = v.after_scan();
    let ok1 = v.scan_ok(v.pseudo_moves());
    if d == 0 {
        (1, u1, ok1)
    } else if d == 1 {
        (v.legal_list().len(), u1, ok1)
    } else {
        let r = divide_fold(u1.after_scan(), u1.legal_list(), u1.legal_list().len() as int, (d - 1) as nat);
        (r.0, r.1, ok1 && u1.scan_ok(u1.pseudo_moves()) && r.2)
    }
}

pub open spec fn divide_fold(u0: BoardView, ms: Seq<MoveView>, k: int, c: nat) -> (nat, BoardView, bool)
    decreases 2 * c + 1, k,
{
    if k <= 0 {
        (0, u0, true)
    } else {
        let prev = divide_fold(u0, ms, k - 1, c);
        let m = ms[k - 1];
        let u = prev.1;
        let sub = divide_run(u.make(m), c);
        (prev.0 + sub.0, sub.1.unmake(m), prev.2 && u.makeable(m) && unmakeable(sub.1, m) && sub.2)
    }
}

/// The first `k` legal moves of `ms` from `u0`, each with the count `perft_divide_helper`
/// gives one level less deep.
pub open spec fn divide_entries(u0: BoardView, ms: Seq<MoveView>, k: int, c: nat) -> (Seq<(MoveView, nat)>, BoardView, bool)
    decreases k,
{
    if k <= 0 {
        (Seq::empty(), u0, true)
    } else {
        let prev = divide_entries(u0, ms, k - 1, c);
        let m = ms[k - 1];
        let u = prev.1;
        let sub = divide_run(u.make(m), c);
        (prev.0.push((m, sub.0)), sub.1.unmake(m), prev.2 && u.makeable(m) && unmakeable(sub.1, m) && sub.2)
    }
}

/// The moves of `perft_divide` at depth `d`, each with its count, the board it leaves,
/// and whether every move can be made and taken back.
pub open spec fn perft_divide_spec(v: BoardView, d: nat) -> (Seq<(MoveView, nat)>, BoardView, bool) {
    if d == 0 {
        (Seq::empty(), v, true)
    } else {
        let r = divide_entries(v.after_scan(), v.legal_list(), v.legal_list().len() as int, (d - 1) as nat);
        (r.0, r.1, v.scan_ok(v.pseudo_moves()) && r.2)
    }
}

/// Searching more moves never lowers the counts, and a search that can be carried
/// out to the end can be carried out to any point before it.
pub proof fn lemma_perft_fold_prefix(u0: BoardView, ms: Seq<MoveView>, k: int, j: int, c: nat)
    requires
        0 <= k <= j,
    ensures
        perft_fold(u0, ms, j, c).2 ==> perft_fold(u0, ms, k, c).2,
        tally_le(perft_fold(u0, ms, k, c).0, perft_fold(u0, ms, j, c).0),
    decreases j - k,
{
    if k < j {
        lemma_perft_fold_prefix(u0, ms, k, j - 1, c);
    }
}

pub proof fn lemma_divide_fold_prefix(u0: BoardView, ms: Seq<MoveView>, k: int, j: int, c: nat)
    requires
        0 <= k <= j,
    ensures
        divide_fold(u0, ms, j, c).2 ==> divide_fold(u0, ms, k, c).2,
        divide_fold(u0, ms, k, c).0 <= divide_fold(u0, ms, j, c).0,
    decreases j - k,
{
    if k < j {
        lemma_divide_fold_prefix(u0, ms, k, j - 1, c);
    }
}

pub proof fn lemma_divide_entries_prefix(u0: BoardView, ms: Seq<MoveView>, k: int, j: int, c: nat)
    requires
        0 <= k <= j,
    ensures
        divide_entries(u0, ms, j, c).2 ==> divide_entries(u0, ms, k, c).2,
    decreases j - k,
{
    if k < j {
        lemma_divide_entries_prefix(u0, ms, k, j - 1, c);
    }
}

impl Board {
    /// The perft counts at depth `depth`: leaf positions, and the captures, en passant
    /// captures, castlings and promotions among the moves made at the last ply.
    pub fn perft(&mut self, depth: u32) -> (r: (u128, u128, u128, u128, u128))
        requires
            perft_run(old(self)@, depth as nat).2,
            perft_run(old(self)@, depth as nat).0.nodes <= u128::MAX,
            perft_run(old(self)@, depth as nat).0.captures <= u128::MAX,
            perft_run(old(self)@, depth as nat).0.en_passants <= u128::MAX,
            perft_run(old(self)@, depth as nat).0.castles <= u128::MAX,
            perft_run(old(self)@, depth as nat).0.promotions <= u128::MAX,
        ensures
            ({
                let t = perft_run(old(self)@, depth as nat).0;
                r == (t.nodes as u128, t.captures as u128, t.en_passants as u128, t.castles as u128, t.promotions as u128)
            }),
            final(self)@ == perft_run(old(self)@, depth as nat).1,
    {
        let mut captures: u128 = 0;
        let mut en_passants: u128 = 0;
        let mut castles: u128 = 0;
        let mut promotions: u128 = 0;
        let nodes = self.perft_helper(depth, &mut captures, &mut en_passants, &mut castles, &mut promotions);
        (nodes, captures, en_passants, castles, promotions)
    }

    /// Adds to the four counters the captures, en passant captures, castlings and
    /// promotions of a perft search of depth `depth`, and returns its leaf count.
    fn perft_helper(
        &mut self,
        depth: u32,
        captures: &mut u128,
        en_passants: &mut u128,
        castles: &mut u128,
        promotions: &mut u128,
    ) -> (nodes: u128)
        requires
            perft_run(old(self)@, depth as nat).2,
            perft_run(old(self)@, depth as nat).0.nodes <= u128::MAX,
            *old(captures) + perft_run(old(self)@, depth as nat).0.captures <= u128::MAX,
            *old(en_passants) + perft_run(old(self)@, depth as nat).0.en_passants <= u128::MAX,
            *old(castles) + perft_run(old(self)@, depth as nat).0.castles <= u128::MAX,
            *old(promotions) + perft_run(old(self)@, depth as nat).0.promotions <= u128::MAX,
        ensures
            nodes == perft_run(old(self)@, depth as nat).0.nodes,
            *final(captures) == *old(captures) + perft_run(old(self)@, depth as nat).0.captures,
            *final(en_passants) == *old(en_passants) + perft_run(old(self)@, depth as nat).0.en_passants,
            *final(castles) == *old(castles) + perft_run(old(self)@, depth as nat).0.castles,
            *final(promotions) == *old(promotions) + perft_run(old(self)@, depth as nat).0.promotions,
            final(self)@ == perft_run(old(self)@, depth as nat).1,
        decreases depth,
    {
        if depth == 0 {
            return 1;
        }
        let ghost v = self@;
        let ghost c = (depth - 1) as nat;
        let ghost (c0, e0, k0, p0) = (*captures, *en_passants, *castles, *promotions);
        let moves = self.legal_moves();
        let ghost ms = v.legal_list();
        let ghost u0 = v.after_scan();
        let ghost total = perft_fold(u0, ms, ms.len() as int, c);
        let mut nodes: u128 = 0;
        let mut k: usize = 0;
        while k < moves.len()
            invariant
                k <= moves.len(),
                depth >= 1,
                c == depth - 1,
                view_moves(moves@) == ms,
                total == perft_fold(u0, ms, ms.len() as int, c),
                total.2,
                total.0.nodes <= u128::MAX,
                c0 + total.0.captures <= u128::MAX,
                e0 + total.0.en_passants <= u128::MAX,
                k0 + total.0.castles <= u128::MAX,
                p0 + total.0.promotions <= u128::MAX,
                self@ == perft_fold(u0, ms, k as int, c).1,
                nodes == perft_fold(u0, ms, k as int, c).0.nodes,
                *captures == c0 + perft_fold(u0, ms, k as int, c).0.captures,
                *en_passants == e0 + perft_fold(u0, ms, k as int, c).0.en_passants,
                *castles == k0 + perft_fold(u0, ms, k as int, c).0.castles,
                *promotions == p0 + perft_fold(u0, ms, k as int, c).0.promotions,
            decreases moves.len() - k,
        {
            let action = moves[k];
            proof {
                assert(ms[k as int] == action@);
                lemma_perft_fold_prefix(u0, ms, k + 1, ms.len() as int, c);
            }
            self.make_move(&action);
            if depth == 1 {
                if action.is_capture() {
                    *captures += 1;
                }
                if action.is_en_passant() {
                    *en_passants += 1;
                }
                if action.is_castle() {
                    *castles += 1;
                }
                if action.is_promotion() {
                    *promotions += 1;
                }
            }
            let sub = self.perft_helper(depth - 1, captures, en_passants, castles, promotions);
            nodes += sub;
            self.unmake_move(&action);
            k += 1;
        }
        nodes
    }

    /// The legal moves, each with the number of leaf positions `depth - 1` moves after it.
    pub fn perft_divide(&mut self, depth: u32) -> (perfts: Vec<(Move, u128)>)
        requires
            perft_divide_spec(old(self)@, depth as nat).2,
            forall|i: int| 0 <= i < perft_divide_spec(old(self)@, depth as nat).0.len()
                ==> #[trigger] perft_divide_spec(old(self)@, depth as nat).0[i].1 <= u128::MAX,
        ensures
            perfts@.len() == perft_divide_spec(old(self)@, depth as nat).0.len(),
            forall|i: int| 0 <= i < perfts@.len() ==> (#[trigger] perfts@[i]).0@ == perft_divide_spec(old(self)@, depth as nat).0[i].0
                && perfts@[i].1 == perft_divide_spec(old(self)@, depth as nat).0[i].1,
            final(self)@ == perft_divide_spec(old(self)@, depth as nat).1,
    {
        let mut perfts: Vec<(Move, u128)> = Vec::new();
        if depth == 0 {
            return perfts;
        }
        let ghost v = self@;
        let ghost c = (depth - 1) as nat;
        let moves = self.legal_moves();
        let ghost ms = v.legal_list();
        let ghost u0 = v.after_scan();
        let ghost total = divide_entries(u0, ms, ms.len() as int, c);
        let mut k: usize = 0;
        while k < moves.len()
            invariant
                k <= moves.len(),
                c == depth - 1,
                view_moves(moves@) == ms,
                total == divide_entries(u0, ms, ms.len() as int, c),
                total.2,
                total.0 == perft_divide_spec(v, depth as nat).0,
                forall|i: int| 0 <= i < total.0.len() ==> #[trigger] total.0[i].1 <= u128::MAX,
                self@ == divide_entries(u0, ms, k as int, c).1,
                perfts@.len() == k,
                forall|i: int| 0 <= i < k ==> (#[trigger] perfts@[i]).0@ == divide_entries(u0, ms, k as int, c).0[i].0
                    && perfts@[i].1 == divide_entries(u0, ms, k as int, c).0[i].1,
            decreases moves.len() - k,
        {
            let action = moves[k];
            proof {
                assert(ms[k as int] == action@);
                lemma_divide_entries_prefix(u0, ms, k + 1, ms.len() as int, c);
                lemma_divide_entries_len(u0, ms, k + 1, ms.len() as int, c);
                lemma_divide_entries_len(u0, ms, k as int, k + 1, c);
                lemma_divide_entries_len(u0, ms, ms.len() as int, ms.len() as int, c);
                assert(view_moves(moves@).len() == moves@.len());
                assert(divide_entries(u0, ms, k + 1, c).0[k as int] == total.0[k as int]);
                assert(total.0[k as int].1 <= u128::MAX);
            }
            self.make_move(&action);
            let count = self.perft_divide_helper(depth - 1);
            perfts.push((action, count));
            self.unmake_move(&action);
            k += 1;
        }
        proof {
            lemma_divide_entries_len(u0, ms, ms.len() as int, ms.len() as int, c);
            assert(view_moves(moves@).len() == moves@.len());
        }
        perfts
    }

    /// The number of leaf positions `depth` moves ahead, found as `divide_run` describes.
    #[verifier::rlimit(50)]
    fn perft_divide_helper(&mut self, depth: u32) -> (nodes: u128)
        requires
            divide_run(old(self)@, depth as nat).2,
            divide_run(old(self)@, depth as nat).0 <= u128::MAX,
        ensures
            nodes == divide_run(old(self)@, depth as nat).0,
            final(self)@ == divide_run(old(self)@, depth as nat).1,
        decreases depth,
    {
        let ghost v = self@;
        let moves = self.legal_moves();
        let n = moves.len() as u128;
        proof {
            assert(view_moves(moves@).len() == moves@.len());
        }
        let mut nodes: u128 = 0;
        if depth == 0 {
            return 1;
        }
        if depth == 1 {
            return n;
        }
        let ghost c = (depth - 1) as nat;
        let ghost u1 = self@;
        proof {
            assert(u1 == v.after_scan());
            assert(divide_run(v, depth as nat) == (
                divide_fold(u1.after_scan(), u1.legal_list(), u1.legal_list().len() as int, c).0,
                divide_fold(u1.after_scan(), u1.legal_list(), u1.legal_list().len() as int, c).1,
                v.scan_ok(v.pseudo_moves()) && u1.scan_ok(u1.pseudo_moves()) && divide_fold(u1.after_scan(), u1.legal_list(), u1.legal_list().len() as int, c).2,
            ));
        }
        let moves = self.legal_moves();
        let ghost ms = u1.legal_list();
        let ghost u0 = u1.after_scan();
        let ghost total = divide_fold(u0, ms, ms.len() as int, c);
        let mut k: usize = 0;
        while k < moves.len()
            invariant
                k <= moves.len(),
                depth >= 2,
                c == depth - 1,
                view_moves(moves@) == ms,
                total == divide_fold(u0, ms, ms.len() as int, c),
                total.2,
                total.0 <= u128::MAX,
                self@ == divide_fold(u0, ms, k as int, c).1,
                nodes == divide_fold(u0, ms, k as int, c).0,
            decreases moves.len() - k,
        {
            let action = moves[k];
            proof {
                assert(ms[k as int] == action@);
                lemma_divide_fold_prefix(u0, ms, k + 1, ms.len() as int, c);
            }
            self.make_move(&action);
            let sub = self.perft_divide_helper(depth - 1);
            nodes += sub;
            self.unmake_move(&action);
            k += 1;
        }
        nodes
    }
}

/// The entries grow by one with each move.
pub proof fn lemma_divide_entries_len(u0: BoardView, ms: Seq<MoveView>, k: int, j: int, c: nat)
    requires
        0 <= k <= j,
    ensures
        divide_entries(u0, ms, k, c).0.len() == k,
        forall|i: int| 0 <= i < k ==> #[trigger] divide_entries(u0, ms, k, c).0[i] == divide_entries(u0, ms, j, c).0[i],
    decreases j - k,
{
    lemma_divide_entries_len_at(u0, ms, k, c);
    if k < j {
        lemma_divide_entries_len(u0, ms, k, j - 1, c);
        lemma_divide_entries_len_at(u0, ms, j, c);
    }
}

proof fn lemma_divide_entries_len_at(u0: BoardView, ms: Seq<MoveView>, k: int, c: nat)
    requires
        0 <= k,
    ensures
        divide_entries(u0, ms, k, c).0.len() == k,
    decreases k,
{
    if k > 0 {
        lemma_divide_entries_len_at(u0, ms, k - 1, c);
    }
}

} // verus!
