//! The moves of each kind of piece, in the order the board lists them.
use vstd::prelude::*;
use crate::bits::{bit, single, group_bits};
use crate::board::Board;
use crate::board::model::{BoardView, KNIGHT_IDX, BISHOP_IDX, ROOK_IDX, QUEEN_IDX, KING_IDX, PAWN_IDX, piece_attacks,
    squares_from, squares_of, concat_map, view_moves, lemma_squares_pop, lemma_squares_ext, lemma_concat_map_cons};
use crate::board::move_gen::{n_move_gen, k_move_gen, b_move_gen, r_move_gen, q_move_gen, p_move_gen, pawn_word,
    lemma_pawn_word_single};
use crate::geometry::pawn_reach;
use crate::board::laws::{pawn_hit, piece_hit};
use crate::types::bitboard::Bitboard;
use crate::types::movement::{Flag, Move, MoveView};
use crate::types::square::Square;

verus! {

broadcast use group_bits;

/// A word's squares, read from a set whose membership is `p`.
proof fn lemma_squares_of_pred(w: u64, p: spec_fn(int) -> bool)
    requires
        forall|t: int| 0 <= t < 64 ==> #[trigger] p(t) == bit(w, t as u64),
    ensures
        squares_of(w) == squares_from(p, 0),
{
    lemma_squares_ext(|i: int| bit(w, i as u64), p, 0);
}

/// Appends the moves from `orig` to each square of `targets`, in increasing order,
/// each a capture when `enemy` holds its target.
fn push_targets(moves: &mut Vec<Move>, orig: Square, targets: Bitboard, enemy: Bitboard)
    ensures
        view_moves(final(moves)@) == view_moves(old(moves)@) + squares_of(targets.0).map_values(
            |t: int| MoveView { orig: orig@, targ: t, flag: if bit(enemy.0, t as u64) { Flag::Capture } else { Flag::Quiet } },
        ),
{
    let ghost g = |t: int| MoveView { orig: orig@, targ: t, flag: if bit(enemy.0, t as u64) { Flag::Capture } else { Flag::Quiet } };
    let ghost start = view_moves(moves@);
    let mut rest = targets;
    while !rest.is_empty()
        invariant
            view_moves(moves@) + squares_of(rest.0).map_values(g) == start + squares_of(targets.0).map_values(g),
            forall|t: int| #[trigger] g(t) == (MoveView { orig: orig@, targ: t, flag: if bit(enemy.0, t as u64) { Flag::Capture } else { Flag::Quiet } }),
        decreases rest.0,
    {
        let ghost before = rest.0;
        let ghost mv = view_moves(moves@);
        proof {
            lemma_squares_pop(rest.0);
        }
        let targ = rest.pop_lsb();
        let targ_bb = targ.bb();
        let hit = targ_bb.bitand(enemy);
        proof {
            assert(hit.has(targ@) == bit(enemy.0, targ@ as u64));
            crate::bits::lemma_zero_iff_no_bit(hit.0);
            if !bit(enemy.0, targ@ as u64) {
                assert forall|i: u64| i < 64 implies !bit(hit.0, i) by {
                    assert(hit.has(i as int) == (targ_bb.has(i as int) && enemy.has(i as int)));
                }
            }
        }
        let flag = if hit.is_empty() {
            Flag::Quiet
        } else {
            Flag::Capture
        };
        moves.push(Move::new(orig, targ, flag));
        proof {
            assert(flag == g(targ@).flag);
            let tail = squares_of(rest.0);
            assert((seq![targ@] + tail).map_values(g) =~= seq![g(targ@)] + tail.map_values(g));
            assert(view_moves(moves@) =~= mv.push(g(targ@)));
            assert(view_moves(moves@) + tail.map_values(g) =~= mv + squares_of(before).map_values(g));
        }
    }
    proof {
        assert(squares_of(targets.0).map_values(g) =~= squares_of(targets.0).map_values(
            |t: int| MoveView { orig: orig@, targ: t, flag: if bit(enemy.0, t as u64) { Flag::Capture } else { Flag::Quiet } },
        ));
        assert(squares_of(rest.0) =~= Seq::<int>::empty()) by {
            crate::bits::lemma_zero_iff_no_bit(rest.0);
            crate::board::model::lemma_squares_skip(|i: int| bit(rest.0, i as u64), 0, 64);
        }
        assert(view_moves(moves@) =~= view_moves(moves@) + squares_of(rest.0).map_values(g));
    }
}


impl Board {
    /// The flags of a pawn move from `pawn` to `targ`.
    fn pawn_flags(&self, pawn: Square, targ: Square, enemy: Bitboard) -> (flags: Vec<Flag>)
        requires
            enemy.0 == self@.enemy(),
        ensures
            flags@ == self@.pawn_flags(pawn@, targ@),
    {
        let tr = targ.rank();
        let pr = pawn.rank();
        let targ_bb = targ.bb();
        let hit = targ_bb.bitand(enemy);
        proof {
            crate::bits::lemma_zero_iff_no_bit(hit.0);
            assert(hit.has(targ@) == bit(enemy.0, targ@ as u64));
            if !bit(enemy.0, targ@ as u64) {
                assert forall|i: u64| i < 64 implies !bit(hit.0, i) by {
                    assert(hit.has(i as int) == (targ_bb.has(i as int) && enemy.has(i as int)));
                }
            }
        }
        let is_capture = !hit.is_empty();
        let mut flags: Vec<Flag> = Vec::new();
        if tr == 0 || tr == 7 {
            if is_capture {
                flags.push(Flag::PromoteCaptureN);
                flags.push(Flag::PromoteCaptureB);
                flags.push(Flag::PromoteCaptureR);
                flags.push(Flag::PromoteCaptureQ);
            } else {
                flags.push(Flag::PromoteN);
                flags.push(Flag::PromoteB);
                flags.push(Flag::PromoteR);
                flags.push(Flag::PromoteQ);
            }
        } else if (self.white_to_move && tr == 3 && pr == 1) || (tr == 4 && pr == 6) {
            flags.push(Flag::DoublePush);
        } else if is_capture {
            flags.push(Flag::Capture);
        } else if pawn.file() != targ.file() {
            flags.push(Flag::EnPassant);
        } else {
            flags.push(Flag::Quiet);
        }
        proof {
            assert(flags@ =~= self@.pawn_flags(pawn@, targ@));
        }
        flags
    }

    /// Appends the moves of the pawn on `pawn` to each square of `reach`, in increasing order.
    fn push_pawn_targets(&self, moves: &mut Vec<Move>, pawn: Square, reach: Bitboard, enemy: Bitboard)
        requires
            enemy.0 == self@.enemy(),
        ensures
            view_moves(final(moves)@) == view_moves(old(moves)@) + concat_map(squares_of(reach.0),
                |t: int| self@.pawn_flags(pawn@, t).map_values(|f: Flag| MoveView { orig: pawn@, targ: t, flag: f })),
    {
        let ghost v = self@;
        let ghost g = |t: int| v.pawn_flags(pawn@, t).map_values(|f: Flag| MoveView { orig: pawn@, targ: t, flag: f });
        let ghost start = view_moves(moves@);
        let mut rest = reach;
        while !rest.is_empty()
            invariant
                v == self@,
                enemy.0 == v.enemy(),
                view_moves(moves@) + concat_map(squares_of(rest.0), g) == start + concat_map(squares_of(reach.0), g),
                forall|t: int| #[trigger] g(t) == v.pawn_flags(pawn@, t).map_values(|f: Flag| MoveView { orig: pawn@, targ: t, flag: f }),
            decreases rest.0,
        {
            let ghost before = rest.0;
            let ghost mv = view_moves(moves@);
            proof {
                lemma_squares_pop(rest.0);
                lemma_concat_map_cons(crate::types::bitboard::lowest_bit(rest.0), squares_of((rest.0 & ((rest.0 - 1) as u64)) as u64), g);
            }
            let targ = rest.pop_lsb();
            let flags = self.pawn_flags(pawn, targ, enemy);
            let mut k: usize = 0;
            while k < flags.len()
                invariant
                    k <= flags.len(),
                    flags@ == v.pawn_flags(pawn@, targ@),
                    view_moves(moves@) == mv + flags@.take(k as int).map_values(|f: Flag| MoveView { orig: pawn@, targ: targ@, flag: f }),
                decreases flags.len() - k,
            {
                let ghost pre = moves@;
                let mm = Move::new(pawn, targ, flags[k]);
                moves.push(mm);
                k += 1;
                proof {
                    assert(view_moves(moves@) =~= view_moves(pre).push(mm@));
                    assert(flags@.take(k as int) =~= flags@.take(k - 1).push(flags@[k - 1]));
                    assert(view_moves(moves@) =~= mv + flags@.take(k as int).map_values(|f: Flag| MoveView { orig: pawn@, targ: targ@, flag: f }));
                }
            }
            proof {
                assert(flags@.take(flags.len() as int) =~= flags@);
                assert(view_moves(moves@) + concat_map(squares_of(rest.0), g) =~= mv + concat_map(squares_of(before), g));
            }
        }
        proof {
            assert(squares_of(rest.0) =~= Seq::<int>::empty()) by {
                crate::bits::lemma_zero_iff_no_bit(rest.0);
                crate::board::model::lemma_squares_skip(|i: int| bit(rest.0, i as u64), 0, 64);
            }
            assert(view_moves(moves@) =~= view_moves(moves@) + concat_map(squares_of(rest.0), g));
            assert(concat_map(squares_of(reach.0), g) =~= concat_map(squares_of(reach.0),
                |t: int| self@.pawn_flags(pawn@, t).map_values(|f: Flag| MoveView { orig: pawn@, targ: t, flag: f })));
        }
    }

    /// The moves of the friendly pawns, pawn by pawn.
    fn pawn_moves(&self) -> (moves: Vec<Move>)
        ensures
            view_moves(moves@) == self@.pawn_moves(),
    {
        let ghost v = self@;
        let ghost f = |p: int| v.pawn_moves_from(p);
        let mut moves: Vec<Move> = Vec::new();
        let friend = self.friend();
        let enemy = self.enemy();
        let pieces = self.pieces();
        let en_passant_bb = match self.curr_flags().ep_target() {
            Some(val) => val.bb(),
            None => Bitboard::EMPTY(),
        };
        self.check_sizes();
        proof {
            assert(pieces[PAWN_IDX as int].0 == v.pieces[PAWN_IDX as int]);
            assert(en_passant_bb.0 == v.ep_word());
        }
        let start = friend.bitand(pieces[PAWN_IDX]);
        let mut rest = start;
        while !rest.is_empty()
            invariant
                v == self@,
                v.well_sized(),
                friend.0 == v.friend(),
                enemy.0 == v.enemy(),
                en_passant_bb.0 == v.ep_word(),
                forall|p: int| #[trigger] f(p) == v.pawn_moves_from(p),
                forall|i: int| #[trigger] rest.has(i) ==> friend.has(i),
                view_moves(moves@) + concat_map(squares_of(rest.0), f) == concat_map(squares_of(start.0), f),
            decreases rest.0,
        {
            let ghost before = rest.0;
            let ghost mv = view_moves(moves@);
            proof {
                lemma_squares_pop(rest.0);
                lemma_concat_map_cons(crate::types::bitboard::lowest_bit(rest.0), squares_of((rest.0 & ((rest.0 - 1) as u64)) as u64), f);
            }
            let pawn_sq = rest.pop_lsb();
            let pawn_bb = pawn_sq.bb();
            proof {
                assert(pawn_bb.has(pawn_sq@));
            }
            let reach = p_move_gen(pawn_bb, self.white_to_move, friend, enemy, en_passant_bb);
            self.push_pawn_targets(&mut moves, pawn_sq, reach, enemy);
            proof {
                let p = pawn_sq@;
                assert(friend.has(p));
                lemma_pawn_word_single(p, v.white_to_move, friend.0, enemy.0, en_passant_bb.0);
                let pred = |t: int| pawn_reach(p, v.white_to_move, v.friend(), v.enemy(), v.ep_word(), t);
                assert forall|t: int| 0 <= t < 64 implies #[trigger] pred(t) == bit(reach.0, t as u64) by {
                    assert(bit(pawn_word(single(p), v.white_to_move, friend.0, enemy.0, en_passant_bb.0), t as u64)
                        == pawn_reach(p, v.white_to_move, friend.0, enemy.0, en_passant_bb.0, t));
                }
                lemma_squares_of_pred(reach.0, pred);
                let g = |t: int| v.pawn_flags(p, t).map_values(|fl: Flag| MoveView { orig: p, targ: t, flag: fl });
                assert(concat_map(squares_of(reach.0), g) =~= f(p));
                assert(view_moves(moves@) + concat_map(squares_of(rest.0), f) =~= mv + concat_map(squares_of(before), f));
            }
        }
        proof {
            assert(squares_of(rest.0) =~= Seq::<int>::empty()) by {
                crate::bits::lemma_zero_iff_no_bit(rest.0);
                crate::board::model::lemma_squares_skip(|i: int| bit(rest.0, i as u64), 0, 64);
            }
            assert(view_moves(moves@) =~= view_moves(moves@) + concat_map(squares_of(rest.0), f));
            assert(start.0 == v.friend() & v.pieces[PAWN_IDX as int]);
        }
        moves
    }

    /// The moves of the friendly pieces of kind `kind` (knights to king), origin by origin.
    fn piece_moves(&self, kind: usize) -> (moves: Vec<Move>)
        requires
            kind == KNIGHT_IDX || kind == BISHOP_IDX || kind == ROOK_IDX || kind == QUEEN_IDX || kind == KING_IDX,
        ensures
            view_moves(moves@) == self@.piece_moves(kind as int),
    {
        let ghost v = self@;
        let ghost f = |o: int| v.piece_moves_from(kind as int, o);
        let mut moves: Vec<Move> = Vec::new();
        let friend = self.friend();
        let enemy = self.enemy();
        let pieces = self.pieces();
        let start = friend.bitand(pieces[kind]);
        let mut rest = start;
        self.check_sizes();
        proof {
            assert(pieces[kind as int].0 == v.pieces[kind as int]);
        }
        while !rest.is_empty()
            invariant
                v == self@,
                v.well_sized(),
                kind == KNIGHT_IDX || kind == BISHOP_IDX || kind == ROOK_IDX || kind == QUEEN_IDX || kind == KING_IDX,
                friend.0 == v.friend(),
                enemy.0 == v.enemy(),
                forall|o: int| #[trigger] f(o) == v.piece_moves_from(kind as int, o),
                view_moves(moves@) + concat_map(squares_of(rest.0), f) == concat_map(squares_of(start.0), f),
            decreases rest.0,
        {
            let ghost before = rest.0;
            let ghost mv = view_moves(moves@);
            proof {
                lemma_squares_pop(rest.0);
                lemma_concat_map_cons(crate::types::bitboard::lowest_bit(rest.0), squares_of((rest.0 & ((rest.0 - 1) as u64)) as u64), f);
            }
            let sq = rest.pop_lsb();
            let occupied = friend.bitor(enemy);
            let attacks = if kind == KNIGHT_IDX {
                n_move_gen(sq)
            } else if kind == BISHOP_IDX {
                b_move_gen(sq, occupied)
            } else if kind == ROOK_IDX {
                r_move_gen(sq, occupied)
            } else if kind == QUEEN_IDX {
                q_move_gen(sq, occupied)
            } else {
                k_move_gen(sq)
            };
            let targets = attacks.bitand(friend.not());
            push_targets(&mut moves, sq, targets, enemy);
            proof {
                let o = sq@;
                let pred = |t: int| piece_attacks(kind as int, o, v.occupied(), t) && !bit(v.friend(), t as u64);
                assert forall|t: int| 0 <= t < 64 implies #[trigger] pred(t) == bit(targets.0, t as u64) by {
                    assert(targets.has(t) == (attacks.has(t) && !friend.has(t)));
                    if kind == BISHOP_IDX || kind == ROOK_IDX || kind == QUEEN_IDX {
                        assert(attacks@.contains(t) == attacks.has(t));
                    }
                }
                lemma_squares_of_pred(targets.0, pred);
                let g = |t: int| MoveView { orig: o, targ: t, flag: if bit(enemy.0, t as u64) { Flag::Capture } else { Flag::Quiet } };
                assert(squares_of(targets.0).map_values(g) =~= f(o));
                assert(view_moves(moves@) + concat_map(squares_of(rest.0), f) =~= mv + concat_map(squares_of(before), f));
            }
        }
        proof {
            assert(squares_of(rest.0) =~= Seq::<int>::empty()) by {
                crate::bits::lemma_zero_iff_no_bit(rest.0);
                crate::board::model::lemma_squares_skip(|i: int| bit(rest.0, i as u64), 0, 64);
            }
            assert(view_moves(moves@) =~= view_moves(moves@) + concat_map(squares_of(rest.0), f));
            assert(start.0 == v.friend() & v.pieces[kind as int]);
        }
        moves
    }

    fn knight_moves(&self) -> (moves: Vec<Move>)
        ensures
            view_moves(moves@) == self@.piece_moves(KNIGHT_IDX as int),
    {
        self.piece_moves(KNIGHT_IDX)
    }

    fn bishop_moves(&self) -> (moves: Vec<Move>)
        ensures
            view_moves(moves@) == self@.piece_moves(BISHOP_IDX as int),
    {
        self.piece_moves(BISHOP_IDX)
    }

    fn rook_moves(&self) -> (moves: Vec<Move>)
        ensures
            view_moves(moves@) == self@.piece_moves(ROOK_IDX as int),
    {
        self.piece_moves(ROOK_IDX)
    }

    fn queen_moves(&self) -> (moves: Vec<Move>)
        ensures
            view_moves(moves@) == self@.piece_moves(QUEEN_IDX as int),
    {
        self.piece_moves(QUEEN_IDX)
    }

    fn king_moves(&self) -> (moves: Vec<Move>)
        ensures
            view_moves(moves@) == self@.piece_moves(KING_IDX as int),
    {
        self.piece_moves(KING_IDX)
    }
}

impl Board {
    /// The moves of all pieces, castlings aside: pawns, knights, bishops, rooks, queens, king.
    fn piece_moves_all(&self) -> (moves: Vec<Move>)
        ensures
            view_moves(moves@) == self@.piece_moves_all(),
    {
        let mut moves = self.pawn_moves();
        let mut more = self.knight_moves();
        moves.append(&mut more);
        let mut more = self.bishop_moves();
        moves.append(&mut more);
        let mut more = self.rook_moves();
        moves.append(&mut more);
        let mut more = self.queen_moves();
        moves.append(&mut more);
        let mut more = self.king_moves();
        moves.append(&mut more);
        proof {
            broadcast use crate::board::model::lemma_view_moves_add;
        }
        moves
    }

    /// The squares the friendly pawns reach.
    fn pawn_attacks(&self) -> (b: Bitboard)
        ensures
            forall|t: int| #[trigger] b.has(t) == (0 <= t < 64 && pawn_hit(self@, t)),
    {
        let ghost v = self@;
        let friend = self.friend();
        let enemy = self.enemy();
        let pieces = self.pieces();
        let en_passant_bb = match self.curr_flags().ep_target() {
            Some(val) => val.bb(),
            None => Bitboard::EMPTY(),
        };
        self.check_sizes();
        proof {
            assert(pieces[PAWN_IDX as int].0 == v.pieces[PAWN_IDX as int]);
            assert(en_passant_bb.0 == v.ep_word());
        }
        let start = friend.bitand(pieces[PAWN_IDX]);
        let mut rest = start;
        let mut attacks = Bitboard::EMPTY();
        while !rest.is_empty()
            invariant
                v == self@,
                friend.0 == v.friend(),
                enemy.0 == v.enemy(),
                en_passant_bb.0 == v.ep_word(),
                start.0 == v.friend() & v.pieces[PAWN_IDX as int],
                forall|x: int| #[trigger] rest.has(x) ==> start.has(x),
                forall|t: int| #[trigger] attacks.has(t) <==> (0 <= t < 64 && exists|o: int| 0 <= o < 64 && #[trigger] start.has(o)
                    && !rest.has(o) && pawn_reach(o, v.white_to_move, v.friend(), v.enemy(), v.ep_word(), t)),
            decreases rest.0,
        {
            let ghost old_rest = rest;
            let ghost old_attacks = attacks;
            let sq = rest.pop_lsb();
            let sq_bb = sq.bb();
            proof {
                assert(sq_bb.has(sq@));
            }
            let reach = p_move_gen(sq_bb, self.white_to_move, friend, enemy, en_passant_bb);
            attacks = attacks.bitor(reach);
            proof {
                let o = sq@;
                assert(friend.has(o));
                lemma_pawn_word_single(o, v.white_to_move, friend.0, enemy.0, en_passant_bb.0);
                assert forall|t: int| #[trigger] attacks.has(t) <==> (0 <= t < 64 && exists|o2: int| 0 <= o2 < 64
                    && #[trigger] start.has(o2) && !rest.has(o2) && pawn_reach(o2, v.white_to_move, v.friend(), v.enemy(), v.ep_word(), t)) by {
                    if 0 <= t < 64 {
                        assert(reach.has(t) == pawn_reach(o, v.white_to_move, v.friend(), v.enemy(), v.ep_word(), t));
                    }
                    if attacks.has(t) && !old_attacks.has(t) {
                        assert(start.has(o) && !rest.has(o));
                    }
                    if 0 <= t < 64 && exists|o2: int| 0 <= o2 < 64 && #[trigger] start.has(o2) && !rest.has(o2)
                        && pawn_reach(o2, v.white_to_move, v.friend(), v.enemy(), v.ep_word(), t) {
                        let o2 = choose|o2: int| 0 <= o2 < 64 && #[trigger] start.has(o2) && !rest.has(o2)
                            && pawn_reach(o2, v.white_to_move, v.friend(), v.enemy(), v.ep_word(), t);
                        if o2 != o {
                            assert(!old_rest.has(o2));
                            assert(old_attacks.has(t));
                        }
                    }
                }
            }
        }
        proof {
            crate::bits::lemma_zero_iff_no_bit(rest.0);
            assert forall|t: int| #[trigger] attacks.has(t) == (0 <= t < 64 && pawn_hit(v, t)) by {
                if 0 <= t < 64 && pawn_hit(v, t) {
                    let o = choose|o: int| 0 <= o < 64 && #[trigger] bit(v.friend() & v.pieces[PAWN_IDX as int], o as u64)
                        && pawn_reach(o, v.white_to_move, v.friend(), v.enemy(), v.ep_word(), t);
                    assert(start.has(o) && !rest.has(o));
                }
            }
        }
        attacks
    }

    /// The squares the friendly pieces of set `kind` (knights to king) attack that no friend holds.
    fn kind_attacks(&self, kind: usize) -> (b: Bitboard)
        requires
            kind == KNIGHT_IDX || kind == BISHOP_IDX || kind == ROOK_IDX || kind == QUEEN_IDX || kind == KING_IDX,
        ensures
            forall|t: int| #[trigger] b.has(t) == (0 <= t < 64 && piece_hit(self@, kind as int, t)),
    {
        let ghost v = self@;
        let friend = self.friend();
        let enemy = self.enemy();
        let pieces = self.pieces();
        self.check_sizes();
        proof {
            assert(pieces[kind as int].0 == v.pieces[kind as int]);
        }
        let occupied = friend.bitor(enemy);
        let not_friend = friend.not();
        let start = friend.bitand(pieces[kind]);
        let mut rest = start;
        let mut attacks = Bitboard::EMPTY();
        while !rest.is_empty()
            invariant
                v == self@,
                kind == KNIGHT_IDX || kind == BISHOP_IDX || kind == ROOK_IDX || kind == QUEEN_IDX || kind == KING_IDX,
                friend.0 == v.friend(),
                occupied.0 == v.occupied(),
                forall|x: int| #[trigger] not_friend.has(x) == (0 <= x < 64 && !bit(v.friend(), x as u64)),
                start.0 == v.friend() & v.pieces[kind as int],
                forall|x: int| #[trigger] rest.has(x) ==> start.has(x),
                forall|t: int| #[trigger] attacks.has(t) <==> (0 <= t < 64 && exists|o: int| 0 <= o < 64 && #[trigger] start.has(o)
                    && !rest.has(o) && piece_attacks(kind as int, o, v.occupied(), t) && !bit(v.friend(), t as u64)),
            decreases rest.0,
        {
            let ghost old_rest = rest;
            let ghost old_attacks = attacks;
            let sq = rest.pop_lsb();
            let gen = if kind == KNIGHT_IDX {
                n_move_gen(sq)
            } else if kind == BISHOP_IDX {
                b_move_gen(sq, occupied)
            } else if kind == ROOK_IDX {
                r_move_gen(sq, occupied)
            } else if kind == QUEEN_IDX {
                q_move_gen(sq, occupied)
            } else {
                k_move_gen(sq)
            };
            let targets = gen.bitand(not_friend);
            attacks = attacks.bitor(targets);
            proof {
                let o = sq@;
                assert forall|t: int| #[trigger] attacks.has(t) <==> (0 <= t < 64 && exists|o2: int| 0 <= o2 < 64
                    && #[trigger] start.has(o2) && !rest.has(o2) && piece_attacks(kind as int, o2, v.occupied(), t)
                    && !bit(v.friend(), t as u64)) by {
                    if 0 <= t < 64 {
                        assert(targets.has(t) == (gen.has(t) && not_friend.has(t)));
                        if kind == BISHOP_IDX || kind == ROOK_IDX || kind == QUEEN_IDX {
                            assert(gen@.contains(t) == gen.has(t));
                        }
                        assert(targets.has(t) == (piece_attacks(kind as int, o, v.occupied(), t) && !bit(v.friend(), t as u64)));
                    }
                    if attacks.has(t) && !old_attacks.has(t) {
                        assert(start.has(o) && !rest.has(o));
                    }
                    if 0 <= t < 64 && exists|o2: int| 0 <= o2 < 64 && #[trigger] start.has(o2) && !rest.has(o2)
                        && piece_attacks(kind as int, o2, v.occupied(), t) && !bit(v.friend(), t as u64) {
                        let o2 = choose|o2: int| 0 <= o2 < 64 && #[trigger] start.has(o2) && !rest.has(o2)
                            && piece_attacks(kind as int, o2, v.occupied(), t) && !bit(v.friend(), t as u64);
                        if o2 != o {
                            assert(!old_rest.has(o2));
                            assert(old_attacks.has(t));
                        }
                    }
                }
            }
        }
        proof {
            crate::bits::lemma_zero_iff_no_bit(rest.0);
            assert forall|t: int| #[trigger] attacks.has(t) == (0 <= t < 64 && piece_hit(v, kind as int, t)) by {
                if 0 <= t < 64 && piece_hit(v, kind as int, t) {
                    let o = choose|o: int| 0 <= o < 64 && #[trigger] bit(v.friend() & v.pieces[kind as int], o as u64)
                        && piece_attacks(kind as int, o, v.occupied(), t) && !bit(v.friend(), t as u64);
                    assert(start.has(o) && !rest.has(o));
                }
            }
        }
        attacks
    }

    /// The squares the side to move attacks: the targets of all its moves but the castlings.
    pub fn attacks(&self) -> (b: Bitboard)
        ensures
            b@ == self@.attack_targets(),
    {
        let ghost v = self@;
        let b = self.pawn_attacks().bitor(self.kind_attacks(KNIGHT_IDX)).bitor(self.kind_attacks(BISHOP_IDX)).bitor(
            self.kind_attacks(ROOK_IDX),
        ).bitor(self.kind_attacks(QUEEN_IDX)).bitor(self.kind_attacks(KING_IDX));
        proof {
            assert forall|t: int| b@.contains(t) == v.attack_targets().contains(t) by {
                crate::board::laws::lemma_attack_targets_char(v, t);
            }
            assert(b@ =~= v.attack_targets());
        }
        b
    }

    /// The king of the side to move is attacked by the other side.
    pub fn in_check(&mut self) -> (r: bool)
        ensures
            final(self)@ == old(self)@,
            r == old(self)@.checked(),
    {
        proof {
            use_type_invariant(&*self);
        }
        let ghost v = self@;
        self.white_to_move = !self.white_to_move;
        proof {
            assert(self@ =~= v.flipped());
        }
        let attacks = self.attacks();
        self.white_to_move = !self.white_to_move;
        proof {
            assert(self@ =~= v);
        }
        let pieces = self.pieces();
        let kings = pieces[KING_IDX];
        self.check_sizes();
        proof {
            assert(kings.0 == v.pieces[KING_IDX as int]);
        }
        let hit = attacks.bitand(kings).bitand(self.friend());
        proof {
            crate::bits::lemma_zero_iff_no_bit(hit.0);
            if hit.0 != 0 {
                let i = choose|i: u64| i < 64 && bit(hit.0, i);
                assert(attacks.has(i as int));
                assert(v.flipped().attack_targets().contains(i as int));
            }
            if v.checked() {
                let t = choose|t: int| #[trigger] v.flipped().attack_targets().contains(t) && bit(v.pieces[KING_IDX as int] & v.friend(), t as u64);
                assert(attacks.has(t));
                assert(bit(hit.0, t as u64));
            }
        }
        let r = !hit.is_empty();
        r
    }

    /// The side to move may castle on the given side.
    fn can_castle(&mut self, short: bool) -> (r: bool)
        ensures
            final(self)@ == old(self)@,
            r == old(self)@.castle_ok(short),
    {
        let ghost v = self@;
        let flags = self.curr_flags();
        let (flag, mask, rook_home, king_home) = if self.white_to_move {
            if short {
                (flags.can_castle_wk(), Bitboard::WK_MASK(), Bitboard::WK_ROOK(), Bitboard::W_KING())
            } else {
                (flags.can_castle_wq(), Bitboard::WQ_MASK(), Bitboard::WQ_ROOK(), Bitboard::W_KING())
            }
        } else {
            if short {
                (flags.can_castle_bk(), Bitboard::BK_MASK(), Bitboard::BK_ROOK(), Bitboard::B_KING())
            } else {
                (flags.can_castle_bq(), Bitboard::BQ_MASK(), Bitboard::BQ_ROOK(), Bitboard::B_KING())
            }
        };
        let friend = self.friend();
        let enemy = self.enemy();
        let pieces = self.pieces();
        self.check_sizes();
        proof {
            assert(pieces[KING_IDX as int].0 == v.pieces[KING_IDX as int]);
            assert(pieces[ROOK_IDX as int].0 == v.pieces[ROOK_IDX as int]);
        }
        let none_in_mask = friend.bitor(enemy).bitand(mask).is_empty();
        let king_is_home = !king_home.bitand(friend).bitand(pieces[KING_IDX]).is_empty();
        let rook_is_home = !rook_home.bitand(friend).bitand(pieces[ROOK_IDX]).is_empty();
        if flag && none_in_mask && king_is_home && rook_is_home {
            let checked = self.in_check();
            !checked
        } else {
            false
        }
    }

    /// The side to move may castle kingside.
    pub fn can_castle_short(&mut self) -> (r: bool)
        ensures
            final(self)@ == old(self)@,
            r == old(self)@.castle_ok(true),
    {
        self.can_castle(true)
    }

    /// The side to move may castle queenside.
    pub fn can_castle_long(&mut self) -> (r: bool)
        ensures
            final(self)@ == old(self)@,
            r == old(self)@.castle_ok(false),
    {
        self.can_castle(false)
    }

    /// The moves of the side to move, whether or not they leave its king in check:
    /// the pieces' moves, then kingside and queenside castling where allowed.
    pub fn moves(&mut self) -> (moves: Vec<Move>)
        ensures
            final(self)@ == old(self)@,
            view_moves(moves@) == old(self)@.pseudo_moves(),
    {
        let ghost v = self@;
        let mut moves = self.piece_moves_all();
        let ghost base = view_moves(moves@);
        if self.can_castle_short() {
            moves.push(Move::SHORT_CASTLE());
        }
        let ghost mid = moves@;
        if self.can_castle_long() {
            moves.push(Move::LONG_CASTLE());
        }
        proof {
            reveal(BoardView::pseudo_moves);
            let short = if v.castle_ok(true) { seq![MoveView { orig: 0, targ: 0, flag: Flag::ShortCastle }] } else { Seq::empty() };
            let long = if v.castle_ok(false) { seq![MoveView { orig: 0, targ: 0, flag: Flag::LongCastle }] } else { Seq::empty() };
            assert(view_moves(mid) =~= base + short);
            assert(view_moves(moves@) =~= base + short + long);
        }
        moves
    }
}

impl Board {
    /// The legal moves of the side to move, in the order `moves` lists them: each move
    /// is made, kept if the other side then attacks none of the mover's king zone, and
    /// taken back.
    pub fn legal_moves(&mut self) -> (legal: Vec<Move>)
        requires
            old(self)@.scan_ok(old(self)@.pseudo_moves()),
        ensures
            view_moves(legal@) == old(self)@.legal_list(),
            final(self)@ == old(self)@.after_scan(),
    {
        proof {
            use_type_invariant(&*self);
        }
        let ghost v = self@;
        let moves = self.moves();
        let ghost ps = v.pseudo_moves();
        let mut legal: Vec<Move> = Vec::new();
        let mut k: usize = 0;
        while k < moves.len()
            invariant
                k <= moves.len(),
                view_moves(moves@) == ps,
                ps == v.pseudo_moves(),
                v.scan_ok(ps),
                self@ == v.scan_state(ps, k as int),
                view_moves(legal@) == v.scan_legal(ps, k as int),
            decreases moves.len() - k,
        {
            let action = moves[k];
            let ghost u = self@;
            self.check_sizes();
            proof {
                reveal(BoardView::scan_ok);
                assert(ps[k as int] == action@);
                assert(v.scan_state(ps, k as int).makeable(ps[k as int]));
                action.lemma_squares_in_range();
                crate::board::model::lemma_make_unmakeable(u, action@);
            }
            self.make_move(&action);
            let pieces = self.pieces();
            let enemy = self.enemy();
            self.check_sizes();
            proof {
                assert(pieces[KING_IDX as int].0 == self@.pieces[KING_IDX as int]);
            }
            let mask = match (self.white_to_move, action.flag()) {
                (true, Flag::ShortCastle) => Bitboard::BK_MASK(),
                (true, Flag::LongCastle) => Bitboard::BQ_MASK_SLIDE(),
                (false, Flag::ShortCastle) => Bitboard::WK_MASK(),
                (false, Flag::LongCastle) => Bitboard::WQ_MASK_SLIDE(),
                _ => Bitboard::EMPTY(),
            };
            let king_bb = pieces[KING_IDX].bitand(enemy).bitor(mask);
            let attacked = self.attacks();
            let hit = attacked.bitand(king_bb);
            let is_legal = hit.is_empty();
            proof {
                assert(king_bb.0 == u.king_zone(action@));
                crate::bits::lemma_zero_iff_no_bit(hit.0);
                if is_legal {
                    assert forall|t: int| #[trigger] u.make(action@).attack_targets().contains(t) implies !bit(u.king_zone(action@), t as u64) by {
                        assert(attacked.has(t));
                        assert(bit(hit.0, t as u64) == (bit(attacked.0, t as u64) && bit(king_bb.0, t as u64)));
                    }
                } else {
                    let i = choose|i: u64| i < 64 && bit(hit.0, i);
                    assert(u.make(action@).attack_targets().contains(i as int));
                }
                assert(is_legal == u.is_legal(action@));
            }
            self.unmake_move(&action);
            if is_legal {
                legal.push(action);
            }
            proof {
                assert(view_moves(legal@) =~= v.scan_legal(ps, k + 1));
            }
            k += 1;
        }
        proof {
            reveal(BoardView::legal_list);
            reveal(BoardView::after_scan);
        }
        legal
    }
}

impl Board {
    /// The side to move is in check and has no legal move.
    #[allow(dead_code)]
    fn in_checkmate(&mut self) -> (r: bool)
        requires
            old(self)@.checked() ==> old(self)@.scan_ok(old(self)@.pseudo_moves()),
        ensures
            r == (old(self)@.checked() && old(self)@.legal_list().len() == 0),
            final(self)@ == if old(self)@.checked() { old(self)@.after_scan() } else { old(self)@ },
    {
        if self.in_check() {
            let legal = self.legal_moves();
            proof {
                assert(view_moves(legal@).len() == legal@.len());
            }
            legal.len() == 0
        } else {
            false
        }
    }

    /// The side not to move is in check.
    #[allow(dead_code)]
    fn enemy_in_check(&mut self) -> (r: bool)
        ensures
            r == old(self)@.flipped().checked(),
            final(self)@ == old(self)@,
    {
        proof {
            use_type_invariant(&*self);
        }
        let ghost v = self@;
        self.white_to_move = !self.white_to_move;
        proof {
            assert(self@ =~= v.flipped());
        }
        let in_check = self.in_check();
        self.white_to_move = !self.white_to_move;
        proof {
            assert(self@ =~= v);
        }
        in_check
    }

    /// The side not to move is checkmated.
    #[allow(dead_code)]
    fn enemy_in_checkmate(&mut self) -> (r: bool)
        requires
            old(self)@.flipped().checked() ==> old(self)@.flipped().scan_ok(old(self)@.flipped().pseudo_moves()),
        ensures
            r == (old(self)@.flipped().checked() && old(self)@.flipped().legal_list().len() == 0),
            final(self)@ == if old(self)@.flipped().checked() { old(self)@.flipped().after_scan().flipped() } else { old(self)@ },
    {
        proof {
            use_type_invariant(&*self);
        }
        let ghost v = self@;
        self.white_to_move = !self.white_to_move;
        proof {
            assert(self@ =~= v.flipped());
        }
        let in_checkmate = self.in_checkmate();
        proof {
            use_type_invariant(&*self);
        }
        let ghost w = self@;
        self.white_to_move = !self.white_to_move;
        proof {
            assert(self@ =~= w.flipped());
            if !v.flipped().checked() {
                assert(self@ =~= v);
            }
        }
        in_checkmate
    }
}

impl Board {
    /// `legal_moves` can run on this board: each move it tries can be made on the board it
    /// is tried on. The scan is run on a copy.
    pub fn legal_moves_ready(&self) -> (r: bool)
        ensures
            r == self@.scan_ok(self@.pseudo_moves()),
    {
        let ghost v = self@;
        let mut copy = self.clone();
        let moves = copy.moves();
        let ghost ps = v.pseudo_moves();
        let mut k: usize = 0;
        while k < moves.len()
            invariant
                k <= moves.len(),
                v == self@,
                ps == v.pseudo_moves(),
                view_moves(moves@) == ps,
                copy@ == v.scan_state(ps, k as int),
                forall|j: int| 0 <= j < k ==> #[trigger] v.scan_state(ps, j).makeable(ps[j]),
            decreases moves.len() - k,
        {
            let action = moves[k];
            proof {
                assert(ps[k as int] == action@);
            }
            if !copy.can_make(&action) {
                proof {
                    reveal(BoardView::scan_ok);
                    assert(!v.scan_state(ps, k as int).makeable(ps[k as int]));
                }
                return false;
            }
            let ghost u = copy@;
            copy.check_sizes();
            proof {
                action.lemma_squares_in_range();
                crate::board::model::lemma_make_unmakeable(u, action@);
            }
            copy.make_move(&action);
            copy.unmake_move(&action);
            k += 1;
        }
        proof {
            reveal(BoardView::scan_ok);
            assert(view_moves(moves@).len() == moves@.len());
        }
        true
    }
}

} // verus!
