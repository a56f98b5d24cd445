//! What holds of the board's operations together: the moves depend on the position
//! alone, and on a consistent board trying the moves gives the position back.
use vstd::prelude::*;
use crate::bits::{bit, single, group_bits};
use crate::board::model::{BoardView, MAX_NUM_MOVES, PAWN_IDX, KNIGHT_IDX, BISHOP_IDX, ROOK_IDX, QUEEN_IDX, KING_IDX,
    squares_from, squares_of, concat_map};
use crate::types::movement::{Flag, MoveView};
use crate::board::perft::{perft_run, perft_fold, unmakeable, divide_run, divide_fold, divide_entries, perft_divide_spec};
use crate::types::piece::Piece;
use crate::board::model::{find_piece_spec, ep_victim};
use crate::types::state_metadata::{ep_target_of, captured_code, castle_wk, castle_wq, castle_bk, castle_bq,
    lemma_next_word_fields};

verus! {

/// Two boards with the same position list the same moves of their pieces.
proof fn lemma_same_piece_moves(a: BoardView, b: BoardView, kind: int)
    requires
        a.same_position(b),
    ensures
        a.piece_moves(kind) == b.piece_moves(kind),
{
    assert forall|o: int| #[trigger] a.piece_moves_from(kind, o) == b.piece_moves_from(kind, o) by {
        let pa = |t: int| crate::board::model::piece_attacks(kind, o, a.occupied(), t) && !bit(a.friend(), t as u64);
        let pb = |t: int| crate::board::model::piece_attacks(kind, o, b.occupied(), t) && !bit(b.friend(), t as u64);
        assert(pa =~= pb);
        let ga = |t: int| a.quiet_or_capture(o, t);
        let gb = |t: int| b.quiet_or_capture(o, t);
        assert(ga =~= gb);
    }
    let fa = |o: int| a.piece_moves_from(kind, o);
    let fb = |o: int| b.piece_moves_from(kind, o);
    assert(fa =~= fb);
}

proof fn lemma_same_pawn_moves(a: BoardView, b: BoardView)
    requires
        a.same_position(b),
    ensures
        a.pawn_moves() == b.pawn_moves(),
{
    assert forall|p: int| #[trigger] a.pawn_moves_from(p) == b.pawn_moves_from(p) by {
        let ra = |t: int| crate::geometry::pawn_reach(p, a.white_to_move, a.friend(), a.enemy(), a.ep_word(), t);
        let rb = |t: int| crate::geometry::pawn_reach(p, b.white_to_move, b.friend(), b.enemy(), b.ep_word(), t);
        assert(ra =~= rb);
        let ga = |t: int| a.pawn_flags(p, t).map_values(|f: Flag| MoveView { orig: p, targ: t, flag: f });
        let gb = |t: int| b.pawn_flags(p, t).map_values(|f: Flag| MoveView { orig: p, targ: t, flag: f });
        assert(ga =~= gb);
    }
    let fa = |p: int| a.pawn_moves_from(p);
    let fb = |p: int| b.pawn_moves_from(p);
    assert(fa =~= fb);
}

/// The moves of the pieces, and so the squares they attack, depend on the position alone.
pub proof fn lemma_same_position_moves(a: BoardView, b: BoardView)
    requires
        a.same_position(b),
    ensures
        a.piece_moves_all() == b.piece_moves_all(),
        a.attack_targets() == b.attack_targets(),
{
    lemma_same_pawn_moves(a, b);
    lemma_same_piece_moves(a, b, KNIGHT_IDX as int);
    lemma_same_piece_moves(a, b, BISHOP_IDX as int);
    lemma_same_piece_moves(a, b, ROOK_IDX as int);
    lemma_same_piece_moves(a, b, QUEEN_IDX as int);
    lemma_same_piece_moves(a, b, KING_IDX as int);
    assert(a.attack_targets() =~= b.attack_targets());
}

/// Making a move on two boards with the same position gives two boards with the same
/// position, and the move is legal on both or on neither.
pub proof fn lemma_same_position_legal(a: BoardView, b: BoardView, m: MoveView)
    requires
        a.same_position(b),
        a.well_sized(),
        b.well_sized(),
        a.ply + 1 < MAX_NUM_MOVES,
    ensures
        a.make(m).same_position(b.make(m)),
        a.is_legal(m) == b.is_legal(m),
{
    lemma_same_position_moves(a.make(m), b.make(m));
    assert(a.king_zone(m) == b.king_zone(m));
}

/// Where an entry of `concat_map(os, f)` comes from: entry `j` of `f(os[k])`.
proof fn lemma_concat_map_member(os: Seq<int>, f: spec_fn(int) -> Seq<MoveView>, i: int) -> (r: (int, int))
    requires
        0 <= i < concat_map(os, f).len(),
    ensures
        0 <= r.0 < os.len(),
        0 <= r.1 < f(os[r.0]).len(),
        concat_map(os, f)[i] == f(os[r.0])[r.1],
    decreases os.len(),
{
    let head = f(os[0]);
    let tail = concat_map(os.drop_first(), f);
    if i < head.len() {
        (0, i)
    } else {
        let (k, j) = lemma_concat_map_member(os.drop_first(), f, i - head.len());
        assert(os.drop_first()[k] == os[k + 1]);
        (k + 1, j)
    }
}

/// A square of a word's list of squares is on the board and in the word.
proof fn lemma_square_of(w: u64, k: int)
    requires
        0 <= k < squares_of(w).len(),
    ensures
        0 <= squares_of(w)[k] < 64,
        bit(w, squares_of(w)[k] as u64),
{
    crate::board::model::lemma_squares_members(|i: int| bit(w, i as u64), 0);
}

/// What every move of a piece (knight to king) is: from a friendly piece of that kind to
/// a square it attacks that no friend holds, a capture exactly when an enemy holds it.
pub proof fn lemma_piece_move_facts(v: BoardView, kind: int, i: int)
    requires
        0 <= i < v.piece_moves(kind).len(),
    ensures
        ({
            let m = v.piece_moves(kind)[i];
            &&& 0 <= m.orig < 64 && 0 <= m.targ < 64
            &&& bit(v.friend() & v.pieces[kind], m.orig as u64)
            &&& !bit(v.friend(), m.targ as u64)
            &&& crate::board::model::piece_attacks(kind, m.orig, v.occupied(), m.targ)
            &&& m.flag == (if bit(v.enemy(), m.targ as u64) { Flag::Capture } else { Flag::Quiet })
        }),
{
    let os = squares_of(v.friend() & v.pieces[kind]);
    let f = |o: int| v.piece_moves_from(kind, o);
    let (k, j) = lemma_concat_map_member(os, f, i);
    let o = os[k];
    lemma_square_of(v.friend() & v.pieces[kind], k);
    let p = |t: int| crate::board::model::piece_attacks(kind, o, v.occupied(), t) && !bit(v.friend(), t as u64);
    crate::board::model::lemma_squares_members(p, 0);
    let t = squares_from(p, 0)[j];
    assert(v.piece_moves_from(kind, o)[j] == v.quiet_or_capture(o, t));
}

/// What every pawn move is: from a friendly pawn to a square it reaches, with one of the
/// flags `pawn_flags` gives for that square.
pub proof fn lemma_pawn_move_facts(v: BoardView, i: int) -> (r: (int, int, int))
    requires
        0 <= i < v.pawn_moves().len(),
    ensures
        ({
            let m = v.pawn_moves()[i];
            &&& m.orig == r.0 && m.targ == r.1
            &&& 0 <= m.orig < 64 && 0 <= m.targ < 64
            &&& bit(v.friend() & v.pieces[PAWN_IDX as int], m.orig as u64)
            &&& crate::geometry::pawn_reach(m.orig, v.white_to_move, v.friend(), v.enemy(), v.ep_word(), m.targ)
            &&& 0 <= r.2 < v.pawn_flags(m.orig, m.targ).len()
            &&& m.flag == v.pawn_flags(m.orig, m.targ)[r.2]
        }),
{
    let os = squares_of(v.friend() & v.pieces[PAWN_IDX as int]);
    let f = |p: int| v.pawn_moves_from(p);
    let (k, j) = lemma_concat_map_member(os, f, i);
    let p = os[k];
    lemma_square_of(v.friend() & v.pieces[PAWN_IDX as int], k);
    let reach = |t: int| crate::geometry::pawn_reach(p, v.white_to_move, v.friend(), v.enemy(), v.ep_word(), t);
    let g = |t: int| v.pawn_flags(p, t).map_values(|fl: Flag| MoveView { orig: p, targ: t, flag: fl });
    let (k2, j2) = lemma_concat_map_member(squares_from(reach, 0), g, j);
    crate::board::model::lemma_squares_members(reach, 0);
    let t = squares_from(reach, 0)[k2];
    (p, t, j2)
}

/// What `legal_moves` needs of a move to make it and take it back on a board with the
/// position of `v`: it is restorable, starts on a piece unless it castles or captures en
/// passant, and a double push starts on the second or seventh rank.
pub open spec fn move_ok(v: BoardView, m: MoveView) -> bool {
    &&& 0 <= m.orig < 64
    &&& 0 <= m.targ < 64
    &&& v.restorable(m)
    &&& !m.flag.spec_is_castle() && m.flag != Flag::EnPassant ==> find_piece_spec(v.pieces, single(m.orig)) != Piece::NoPiece
    &&& m.flag == Flag::DoublePush ==> (m.orig / 8 == 1 || m.orig / 8 == 6)
}

/// The facts of a consistent board at one square.
proof fn lemma_sane_at(v: BoardView, x: int)
    requires
        v.sane(),
        0 <= x < 64,
    ensures
        !(bit(v.friend(), x as u64) && bit(v.enemy(), x as u64)),
        forall|i: int, j: int| 0 <= i < j < 6 ==> !(bit(v.pieces[i], x as u64) && bit(v.pieces[j], x as u64)),
        (exists|j: int| 0 <= j < 6 && bit(v.pieces[j], x as u64)) <==> (bit(v.friend(), x as u64) || bit(v.enemy(), x as u64)),
{
    broadcast use group_bits;

    let xu = x as u64;
    assert(!bit(v.colors[0] & v.colors[1], xu));
    assert forall|i: int, j: int| 0 <= i < j < 6 implies !(bit(v.pieces[i], xu) && bit(v.pieces[j], xu)) by {
        assert(v.pieces[i] & v.pieces[j] == 0);
        assert(!bit(v.pieces[i] & v.pieces[j], xu));
    }
    assert(bit(v.pieces_union(), xu) == (bit(v.colors[0], xu) || bit(v.colors[1], xu)));
    if bit(v.pieces_union(), xu) {
        if bit(v.pieces[0], xu) { assert(0 <= 0int < 6 && bit(v.pieces[0], xu)); }
        else if bit(v.pieces[1], xu) { assert(0 <= 1int < 6 && bit(v.pieces[1], xu)); }
        else if bit(v.pieces[2], xu) { assert(0 <= 2int < 6 && bit(v.pieces[2], xu)); }
        else if bit(v.pieces[3], xu) { assert(0 <= 3int < 6 && bit(v.pieces[3], xu)); }
        else if bit(v.pieces[4], xu) { assert(0 <= 4int < 6 && bit(v.pieces[4], xu)); }
        else { assert(0 <= 5int < 6 && bit(v.pieces[5], xu)); }
    }
    if exists|j: int| 0 <= j < 6 && bit(v.pieces[j], xu) {
        let j = choose|j: int| 0 <= j < 6 && bit(v.pieces[j], xu);
        assert(bit(v.pieces_union(), xu));
    }
}

/// On a consistent board, a move that leaves a friendly piece of set `kind` for a square
/// no friend holds, a capture exactly when an enemy holds it, can be made and taken back.
proof fn lemma_normal_move_ok(v: BoardView, kind: int, m: MoveView)
    requires
        v.sane(),
        0 <= kind < 6,
        0 <= m.orig < 64 && 0 <= m.targ < 64,
        bit(v.friend() & v.pieces[kind], m.orig as u64),
        !bit(v.friend(), m.targ as u64),
        !m.flag.spec_is_castle(),
        m.flag != Flag::EnPassant,
        m.flag.spec_is_promotion() ==> kind == PAWN_IDX,
        m.flag == Flag::DoublePush ==> (m.orig / 8 == 1 || m.orig / 8 == 6),
    ensures
        move_ok(v, m),
{
    broadcast use group_bits;

    let (o, t) = (m.orig, m.targ);
    lemma_sane_at(v, o);
    lemma_sane_at(v, t);
    assert(bit(v.pieces[kind], o as u64));
    crate::board::model::lemma_find_piece(v.pieces, o);
    crate::board::model::lemma_find_piece(v.pieces, t);
    if m.flag.spec_is_promotion() {
        let c = find_piece_spec(v.pieces, single(o)).code() - 1;
        assert(c == 0);
        find_piece_spec(v.pieces, single(o)).lemma_code_roundtrip();
    }
    if find_piece_spec(v.pieces, single(t)) == Piece::NoPiece {
        assert(!(exists|j: int| 0 <= j < 6 && bit(v.pieces[j], t as u64)));
    } else {
        let c = find_piece_spec(v.pieces, single(t)).code() - 1;
        assert(0 <= c < 6 && bit(v.pieces[c], t as u64));
    }
}

/// Every move of a piece other than a pawn can be made and taken back on a consistent board.
proof fn lemma_piece_moves_ok(v: BoardView, kind: int)
    requires
        v.sane(),
        1 <= kind < 6,
    ensures
        forall|i: int| 0 <= i < v.piece_moves(kind).len() ==> move_ok(v, #[trigger] v.piece_moves(kind)[i]),
{
    assert forall|i: int| 0 <= i < v.piece_moves(kind).len() implies move_ok(v, #[trigger] v.piece_moves(kind)[i]) by {
        lemma_piece_move_facts(v, kind, i);
        lemma_normal_move_ok(v, kind, v.piece_moves(kind)[i]);
    }
}

/// Every pawn move can be made and taken back on a consistent board.
proof fn lemma_pawn_moves_ok(v: BoardView)
    requires
        v.sane(),
    ensures
        forall|i: int| 0 <= i < v.pawn_moves().len() ==> move_ok(v, #[trigger] v.pawn_moves()[i]),
{
    broadcast use group_bits;

    assert forall|i: int| 0 <= i < v.pawn_moves().len() implies move_ok(v, #[trigger] v.pawn_moves()[i]) by {
        let (o, t, j) = lemma_pawn_move_facts(v, i);
        let m = v.pawn_moves()[i];
        let flags = v.pawn_flags(o, t);
        lemma_sane_at(v, o);
        lemma_sane_at(v, t);
        let ep = ep_target_of(v.flags());
        if ep is Some {
            crate::types::state_metadata::lemma_field_ranges(v.flags());
            crate::types::bitboard::lemma_single_bits(ep.unwrap());
            lemma_sane_at(v, ep.unwrap());
        }
        assert(v.ep_word() == 0 ==> !bit(v.ep_word(), t as u64));
        // the target holds no friend: a diagonal reaches an enemy or the (empty) en passant target
        assert(!bit(v.friend(), t as u64));
        if m.flag == Flag::EnPassant {
            // a file change without an enemy on the target is the en passant capture
            assert(!bit(v.enemy(), t as u64));
            assert(o % 8 != t % 8);
            assert(bit(v.ep_word(), t as u64));
            assert(ep == Some(t));
            let victim = ep_victim(v.white_to_move, t);
            assert(bit(v.pieces[PAWN_IDX as int], o as u64));
            assert(!(exists|jj: int| 0 <= jj < 6 && bit(v.pieces[jj], t as u64)));
            assert(!bit(v.pieces[PAWN_IDX as int], t as u64));
            assert(v.restorable(m));
        } else {
            lemma_normal_move_ok(v, PAWN_IDX as int, m);
        }
    }
}

/// The castlings a board lists can be made and taken back when the board is consistent.
proof fn lemma_castles_ok(v: BoardView, short: bool)
    requires
        v.sane(),
        v.castle_ok(short),
    ensures
        move_ok(v, MoveView { orig: 0, targ: 0, flag: if short { Flag::ShortCastle } else { Flag::LongCastle } }),
{
    broadcast use group_bits;

    let m = MoveView { orig: 0, targ: 0, flag: if short { Flag::ShortCastle } else { Flag::LongCastle } };
    let (orook, drook, oking, dking) = crate::board::model::castle_squares(v.white_to_move, short);
    let (mask, rook, king) = crate::board::model::castle_masks(v.white_to_move, short);
    lemma_castle_mask_bits(v.white_to_move, short);
    let kings = v.pieces[KING_IDX as int];
    let rooks = v.pieces[ROOK_IDX as int];
    crate::bits::lemma_zero_iff_no_bit(king & v.friend() & kings);
    crate::bits::lemma_zero_iff_no_bit(rook & v.friend() & rooks);
    crate::bits::lemma_zero_iff_no_bit(v.occupied() & mask);
    let a = choose|a: u64| a < 64 && bit(king & v.friend() & kings, a);
    let b = choose|b: u64| b < 64 && bit(rook & v.friend() & rooks, b);
    assert(a == oking as u64);
    assert(b == orook as u64);
    assert(!bit(v.occupied() & mask, dking as u64));
    assert(!bit(v.occupied() & mask, drook as u64));
    lemma_sane_at(v, dking);
    lemma_sane_at(v, drook);
    if bit(kings, dking as u64) {
        assert(0 <= KING_IDX < 6 && bit(v.pieces[KING_IDX as int], dking as u64));
    }
    if bit(rooks, drook as u64) {
        assert(0 <= ROOK_IDX < 6 && bit(v.pieces[ROOK_IDX as int], drook as u64));
    }
    assert(v.restorable(m));
}

/// The castling masks: the rook's and king's homes, and the two squares the rook and
/// king land on, which lie inside the mask of squares that must be empty.
proof fn lemma_castle_mask_bits(white: bool, short: bool)
    ensures
        ({
            let (orook, drook, oking, dking) = crate::board::model::castle_squares(white, short);
            let (mask, rook, king) = crate::board::model::castle_masks(white, short);
            &&& forall|x: u64| x < 64 ==> #[trigger] bit(king, x) == (x == oking as u64)
            &&& forall|x: u64| x < 64 ==> #[trigger] bit(rook, x) == (x == orook as u64)
            &&& bit(mask, dking as u64)
            &&& bit(mask, drook as u64)
        }),
{
    assert forall|x: u64| x < 64 implies
        ((0x10u64 >> x) & 1u64 == 1u64) == (x == 4u64)
        && ((0x80u64 >> x) & 1u64 == 1u64) == (x == 7u64)
        && ((0x01u64 >> x) & 1u64 == 1u64) == (x == 0u64)
        && ((0x1000_0000_0000_0000u64 >> x) & 1u64 == 1u64) == (x == 60u64)
        && ((0x8000_0000_0000_0000u64 >> x) & 1u64 == 1u64) == (x == 63u64)
        && ((0x0100_0000_0000_0000u64 >> x) & 1u64 == 1u64) == (x == 56u64) by {
        assert(((0x10u64 >> x) & 1u64 == 1u64) == (x == 4u64)
            && ((0x80u64 >> x) & 1u64 == 1u64) == (x == 7u64)
            && ((0x01u64 >> x) & 1u64 == 1u64) == (x == 0u64)
            && ((0x1000_0000_0000_0000u64 >> x) & 1u64 == 1u64) == (x == 60u64)
            && ((0x8000_0000_0000_0000u64 >> x) & 1u64 == 1u64) == (x == 63u64)
            && ((0x0100_0000_0000_0000u64 >> x) & 1u64 == 1u64) == (x == 56u64)) by (bit_vector)
            requires
                x < 64,
        ;
    }
    assert(((0x60u64 >> 5u64) & 1u64 == 1u64) && ((0x60u64 >> 6u64) & 1u64 == 1u64)
        && ((0x0eu64 >> 3u64) & 1u64 == 1u64) && ((0x0eu64 >> 2u64) & 1u64 == 1u64)
        && ((0x6000_0000_0000_0000u64 >> 61u64) & 1u64 == 1u64) && ((0x6000_0000_0000_0000u64 >> 62u64) & 1u64 == 1u64)
        && ((0x0e00_0000_0000_0000u64 >> 59u64) & 1u64 == 1u64) && ((0x0e00_0000_0000_0000u64 >> 58u64) & 1u64 == 1u64))
        by (bit_vector);
}

/// Every move a consistent board lists can be made and taken back.
pub proof fn lemma_pseudo_moves_ok(v: BoardView)
    requires
        v.sane(),
    ensures
        forall|i: int| 0 <= i < v.pseudo_moves().len() ==> move_ok(v, #[trigger] v.pseudo_moves()[i]),
{
    reveal(BoardView::pseudo_moves);
    lemma_pawn_moves_ok(v);
    lemma_piece_moves_ok(v, KNIGHT_IDX as int);
    lemma_piece_moves_ok(v, BISHOP_IDX as int);
    lemma_piece_moves_ok(v, ROOK_IDX as int);
    lemma_piece_moves_ok(v, QUEEN_IDX as int);
    lemma_piece_moves_ok(v, KING_IDX as int);
    let p = v.pawn_moves();
    let n = v.piece_moves(KNIGHT_IDX as int);
    let b = v.piece_moves(BISHOP_IDX as int);
    let r = v.piece_moves(ROOK_IDX as int);
    let q = v.piece_moves(QUEEN_IDX as int);
    let k = v.piece_moves(KING_IDX as int);
    let all = v.piece_moves_all();
    assert forall|i: int| 0 <= i < all.len() implies move_ok(v, #[trigger] all[i]) by {
        if i < p.len() {
            assert(all[i] == p[i]);
        } else if i < p.len() + n.len() {
            assert(all[i] == n[i - p.len()]);
        } else if i < p.len() + n.len() + b.len() {
            assert(all[i] == b[i - p.len() - n.len()]);
        } else if i < p.len() + n.len() + b.len() + r.len() {
            assert(all[i] == r[i - p.len() - n.len() - b.len()]);
        } else if i < p.len() + n.len() + b.len() + r.len() + q.len() {
            assert(all[i] == q[i - p.len() - n.len() - b.len() - r.len()]);
        } else {
            assert(all[i] == k[i - p.len() - n.len() - b.len() - r.len() - q.len()]);
        }
    }
    if v.castle_ok(true) {
        lemma_castles_ok(v, true);
    }
    if v.castle_ok(false) {
        lemma_castles_ok(v, false);
    }
}

/// On a consistent board whose history has room for one more move and whose clock can
/// advance, `legal_moves` can try every move; it gives back the same position, and the
/// moves it keeps are the listed moves that are legal on the board itself.
pub proof fn lemma_legal_moves_sane(v: BoardView)
    requires
        v.sane(),
        v.ply + 1 < MAX_NUM_MOVES,
        v.flags() < u32::MAX,
    ensures
        v.scan_ok(v.pseudo_moves()),
        v.after_scan().same_position(v),
        v.legal_list() == v.pseudo_moves().filter(|m: MoveView| v.is_legal(m)),
{
    reveal(BoardView::scan_ok);
    reveal(BoardView::after_scan);
    reveal(BoardView::legal_list);
    let ps = v.pseudo_moves();
    lemma_pseudo_moves_ok(v);
    lemma_scan_prefix(v, ps, ps.len() as int);
    assert(ps.take(ps.len() as int) =~= ps);
}

/// The first `k` steps of the scan on a consistent board: each board met has the
/// position of `v`, each move can be made there, and the moves kept are those of the
/// first `k` that are legal on `v`.
proof fn lemma_scan_prefix(v: BoardView, ps: Seq<MoveView>, k: int)
    requires
        v.sane(),
        v.ply + 1 < MAX_NUM_MOVES,
        v.flags() < u32::MAX,
        0 <= k <= ps.len(),
        forall|i: int| 0 <= i < ps.len() ==> move_ok(v, #[trigger] ps[i]),
    ensures
        v.scan_state(ps, k).same_position(v),
        v.scan_state(ps, k).well_sized(),
        forall|i: int| 0 <= i < k ==> #[trigger] v.scan_state(ps, i).makeable(ps[i]),
        v.scan_legal(ps, k) == ps.take(k).filter(|m: MoveView| v.is_legal(m)),
    decreases k,
{
    if k == 0 {
        assert(ps.take(0) =~= Seq::<MoveView>::empty());
    } else {
        lemma_scan_prefix(v, ps, k - 1);
        lemma_scan_step(v, ps, k - 1);
        lemma_filter_step(ps, k, |mm: MoveView| v.is_legal(mm));
    }
}

/// One step of the scan on a consistent board keeps the position, and the move is
/// tried on a board where it can be made and is legal exactly when it is on `v`.
proof fn lemma_scan_step(v: BoardView, ps: Seq<MoveView>, k: int)
    requires
        v.sane(),
        v.ply + 1 < MAX_NUM_MOVES,
        v.flags() < u32::MAX,
        0 <= k < ps.len(),
        move_ok(v, ps[k]),
        v.scan_state(ps, k).same_position(v),
        v.scan_state(ps, k).well_sized(),
    ensures
        v.scan_state(ps, k + 1).same_position(v),
        v.scan_state(ps, k + 1).well_sized(),
        v.scan_state(ps, k).makeable(ps[k]),
        v.scan_state(ps, k).is_legal(ps[k]) == v.is_legal(ps[k]),
{
    let u = v.scan_state(ps, k);
    let m = ps[k];
    assert(u.restorable(m));
    assert(u.makeable(m));
    crate::board::model::lemma_make_unmakeable(u, m);
    crate::board::model::lemma_unmake_undoes_make(u, m);
    lemma_same_position_legal(u, v, m);
}

/// Filtering one more element of a sequence.
proof fn lemma_filter_step(s: Seq<MoveView>, k: int, pred: spec_fn(MoveView) -> bool)
    requires
        0 < k <= s.len(),
    ensures
        s.take(k).filter(pred) == (if pred(s[k - 1]) { s.take(k - 1).filter(pred).push(s[k - 1]) } else {
            s.take(k - 1).filter(pred)
        }),
{
    reveal(Seq::filter);
    assert(s.take(k).drop_last() =~= s.take(k - 1));
    assert(s.take(k).last() == s[k - 1]);
}

/// Making a pawn move a consistent board lists keeps it consistent.
proof fn lemma_pawn_make_sane(v: BoardView, i: int)
    requires
        v.sane(),
        v.ply + 1 < MAX_NUM_MOVES,
        0 <= i < v.pawn_moves().len(),
    ensures
        v.make(v.pawn_moves()[i]).sane(),
{
    broadcast use group_bits;

    let (o, t, j) = lemma_pawn_move_facts(v, i);
    let m = v.pawn_moves()[i];
    lemma_sane_at(v, o);
    lemma_sane_at(v, t);
    let ep = ep_target_of(v.flags());
    if ep is Some {
        crate::types::state_metadata::lemma_field_ranges(v.flags());
        crate::types::bitboard::lemma_single_bits(ep.unwrap());
        lemma_sane_at(v, ep.unwrap());
    }
    assert(v.ep_word() == 0 ==> !bit(v.ep_word(), t as u64));
    assert(!bit(v.friend(), t as u64));
    if m.flag == Flag::EnPassant {
        assert(!bit(v.enemy(), t as u64));
        assert(bit(v.ep_word(), t as u64));
        assert(ep == Some(t));
        crate::board::sanity::lemma_ep_make_sane(v, m);
    } else {
        crate::board::sanity::lemma_normal_make_sane(v, m, PAWN_IDX as int);
    }
}

/// Making a move a consistent board lists keeps it consistent.
pub proof fn lemma_pseudo_make_sane(v: BoardView, i: int)
    requires
        v.sane(),
        v.ply + 1 < MAX_NUM_MOVES,
        0 <= i < v.pseudo_moves().len(),
    ensures
        v.make(v.pseudo_moves()[i]).sane(),
{
    broadcast use group_bits;

    reveal(BoardView::pseudo_moves);
    let p = v.pawn_moves();
    let n = v.piece_moves(KNIGHT_IDX as int);
    let b = v.piece_moves(BISHOP_IDX as int);
    let r = v.piece_moves(ROOK_IDX as int);
    let q = v.piece_moves(QUEEN_IDX as int);
    let k = v.piece_moves(KING_IDX as int);
    let all = v.piece_moves_all();
    let m = v.pseudo_moves()[i];
    if i < all.len() {
        assert(m == all[i]);
        let (kind, idx) = if i < p.len() {
            (PAWN_IDX as int, i)
        } else if i < p.len() + n.len() {
            (KNIGHT_IDX as int, i - p.len())
        } else if i < p.len() + n.len() + b.len() {
            (BISHOP_IDX as int, i - p.len() - n.len())
        } else if i < p.len() + n.len() + b.len() + r.len() {
            (ROOK_IDX as int, i - p.len() - n.len() - b.len())
        } else if i < p.len() + n.len() + b.len() + r.len() + q.len() {
            (QUEEN_IDX as int, i - p.len() - n.len() - b.len() - r.len())
        } else {
            (KING_IDX as int, i - p.len() - n.len() - b.len() - r.len() - q.len())
        };
        if kind == PAWN_IDX {
            assert(all[i] == p[i]);
            lemma_pawn_make_sane(v, i);
        } else {
            assert(all[i] == v.piece_moves(kind)[idx]);
            lemma_piece_move_facts(v, kind, idx);
            crate::board::sanity::lemma_normal_make_sane(v, m, kind);
        }
    } else {
        let short = m.flag == Flag::ShortCastle;
        assert(v.castle_ok(short));
        let (orook, drook, oking, dking) = crate::board::model::castle_squares(v.white_to_move, short);
        let (mask, rook, king) = crate::board::model::castle_masks(v.white_to_move, short);
        lemma_castle_mask_bits(v.white_to_move, short);
        let kings = v.pieces[KING_IDX as int];
        let rooks = v.pieces[ROOK_IDX as int];
        crate::bits::lemma_zero_iff_no_bit(king & v.friend() & kings);
        crate::bits::lemma_zero_iff_no_bit(rook & v.friend() & rooks);
        crate::bits::lemma_zero_iff_no_bit(v.occupied() & mask);
        let a = choose|a: u64| a < 64 && bit(king & v.friend() & kings, a);
        let c = choose|c: u64| c < 64 && bit(rook & v.friend() & rooks, c);
        assert(a == oking as u64);
        assert(c == orook as u64);
        assert(!bit(v.occupied() & mask, dking as u64));
        assert(!bit(v.occupied() & mask, drook as u64));
        crate::board::sanity::lemma_castle_make_sane(v, m);
    }
}

/// Two boards agree: they hold the same position and the same history up to the current ply.
pub open spec fn agrees(a: BoardView, b: BoardView) -> bool {
    &&& a.same_position(b)
    &&& a.stack.len() == b.stack.len()
    &&& forall|i: int| 0 <= i <= a.ply ==> #[trigger] a.stack[i] == b.stack[i]
}

/// Making a move on agreeing boards gives agreeing boards, and so does taking one back.
proof fn lemma_agrees_make_unmake(a: BoardView, b: BoardView, m: MoveView)
    requires
        agrees(a, b),
        a.well_sized(),
    ensures
        a.ply + 1 < MAX_NUM_MOVES ==> agrees(a.make(m), b.make(m)),
        a.ply >= 1 ==> agrees(a.unmake(m), b.unmake(m)),
{
    assert(a.colors == b.colors && a.pieces == b.pieces && a.flags() == b.flags());
    if a.ply + 1 < MAX_NUM_MOVES {
        let (x, y) = (a.make(m), b.make(m));
        assert(x.colors == y.colors && x.pieces == y.pieces);
        assert forall|i: int| 0 <= i <= x.ply implies #[trigger] x.stack[i] == y.stack[i] by {
            if i <= a.ply {
                assert(a.stack[i] == b.stack[i]);
            }
        }
    }
    if a.ply >= 1 {
        let (x, y) = (a.unmake(m), b.unmake(m));
        assert(a.stack[a.ply - 1] == b.stack[a.ply - 1]);
        assert(x.colors == y.colors && x.pieces == y.pieces);
    }
}

/// Agreeing with a consistent board makes a board consistent.
proof fn lemma_agrees_sane(a: BoardView, b: BoardView)
    requires
        agrees(a, b),
        b.sane(),
    ensures
        a.sane(),
{
    assert(a.colors == b.colors && a.pieces == b.pieces && a.flags() == b.flags());
}

/// Making a move and taking it back leaves the history up to the current ply as it was.
proof fn lemma_make_unmake_history(u: BoardView, m: MoveView)
    requires
        u.well_sized(),
        u.ply + 1 < MAX_NUM_MOVES,
    ensures
        u.make(m).unmake(m).stack.len() == u.stack.len(),
        forall|i: int| 0 <= i <= u.ply ==> #[trigger] u.make(m).unmake(m).stack[i] == u.stack[i],
{
}

/// Trying moves leaves the ply and the history up to it as they were.
proof fn lemma_scan_history(v: BoardView, ps: Seq<MoveView>, k: int)
    requires
        v.well_sized(),
        v.ply + 1 < MAX_NUM_MOVES,
        0 <= k,
    ensures
        v.scan_state(ps, k).ply == v.ply,
        v.scan_state(ps, k).stack.len() == v.stack.len(),
        forall|i: int| 0 <= i <= v.ply ==> #[trigger] v.scan_state(ps, k).stack[i] == v.stack[i],
    decreases k,
{
    if k > 0 {
        lemma_scan_history(v, ps, k - 1);
        let u = v.scan_state(ps, k - 1);
        assert forall|i: int| 0 <= i <= v.ply implies #[trigger] v.scan_state(ps, k).stack[i] == v.stack[i] by {
            assert(u.stack[i] == v.stack[i]);
        }
    }
}

/// An element of a filtered sequence is an element of the sequence.
proof fn lemma_filter_member(s: Seq<MoveView>, pred: spec_fn(MoveView) -> bool, i: int) -> (j: int)
    requires
        0 <= i < s.filter(pred).len(),
    ensures
        0 <= j < s.len(),
        s[j] == s.filter(pred)[i],
    decreases s.len(),
{
    reveal(Seq::filter);
    let sub = s.drop_last().filter(pred);
    if pred(s.last()) && i == sub.len() {
        (s.len() - 1) as int
    } else {
        let j = lemma_filter_member(s.drop_last(), pred, i);
        j
    }
}

/// A capture field that holds a piece code marks a word other than all ones.
proof fn lemma_code_not_max(x: u32)
    requires
        captured_code(x) != 7,
    ensures
        x < u32::MAX,
{
    assert(x != 0xffff_ffffu32) by (bit_vector)
        requires
            (x & 0x000e_0000u32) >> 17u32 != 7,
    ;
}

/// A perft search on a consistent board whose history has room for it can make and take
/// back every move it tries, and gives back the board it started from: the same position
/// and the same history up to the current ply.
pub proof fn lemma_perft_keeps_board(v: BoardView, d: nat)
    requires
        v.sane(),
        v.ply + d < MAX_NUM_MOVES,
        captured_code(v.flags()) != 7,
    ensures
        perft_run(v, d).2,
        agrees(perft_run(v, d).1, v),
    decreases 2 * d, 0int,
{
    if d > 0 {
        lemma_code_not_max(v.flags());
        lemma_legal_moves_sane(v);
        reveal(BoardView::legal_list);
        lemma_perft_fold_keeps_board(v, v.legal_list().len() as int, (d - 1) as nat);
    }
}

/// The first `k` legal moves of a consistent board, each searched to depth `c`: every
/// move can be made and taken back, and the board agrees with the one scanned from.
proof fn lemma_perft_fold_keeps_board(v: BoardView, k: int, c: nat)
    requires
        v.sane(),
        v.ply + 1 + c < MAX_NUM_MOVES,
        captured_code(v.flags()) != 7,
        0 <= k <= v.legal_list().len(),
    ensures
        perft_fold(v.after_scan(), v.legal_list(), k, c).2,
        agrees(perft_fold(v.after_scan(), v.legal_list(), k, c).1, v),
    decreases 2 * c + 1, k,
{
    lemma_code_not_max(v.flags());
    lemma_legal_moves_sane(v);
    reveal(BoardView::after_scan);
    let ps = v.pseudo_moves();
    lemma_scan_history(v, ps, ps.len() as int);
    if k > 0 {
        lemma_perft_fold_keeps_board(v, k - 1, c);
        let prev = perft_fold(v.after_scan(), v.legal_list(), k - 1, c);
        let u = prev.1;
        let m = v.legal_list()[k - 1];
        let j = lemma_filter_member(ps, |mm: MoveView| v.is_legal(mm), k - 1);
        assert(ps[j] == m);
        lemma_pseudo_moves_ok(v);
        assert(move_ok(v, m));
        lemma_pseudo_make_sane(v, j);
        // the move can be made on `u`, and after it the board agrees with `v.make(m)`
        assert(u.restorable(m));
        assert(u.makeable(m));
        crate::board::model::lemma_make_unmakeable(u, m);
        lemma_agrees_make_unmake(u, v, m);
        let w = u.make(m);
        lemma_agrees_sane(w, v.make(m));
        lemma_perft_keeps_board(w, c);
        let sub = perft_run(w, c);
        assert(unmakeable(sub.1, m));
        // taking the move back gives a board that agrees with `u`
        lemma_agrees_make_unmake(sub.1, w, m);
        crate::board::model::lemma_unmake_undoes_make(u, m);
        lemma_make_unmake_history(u, m);
        assert(agrees(w.unmake(m), u));
        assert(agrees(sub.1.unmake(m), v));
    } else {
        assert(agrees(v.after_scan(), v));
    }
}

/// Entry `j` of `f(os[k])` is an entry of `concat_map(os, f)`.
proof fn lemma_concat_map_index(os: Seq<int>, f: spec_fn(int) -> Seq<MoveView>, k: int, j: int) -> (i: int)
    requires
        0 <= k < os.len(),
        0 <= j < f(os[k]).len(),
    ensures
        0 <= i < concat_map(os, f).len(),
        concat_map(os, f)[i] == f(os[k])[j],
    decreases os.len(),
{
    if k == 0 {
        j
    } else {
        assert(os.drop_first()[k - 1] == os[k]);
        let i = lemma_concat_map_index(os.drop_first(), f, k - 1, j);
        f(os[0]).len() + i
    }
}

/// Some friendly pawn reaches `t`.
pub open spec fn pawn_hit(v: BoardView, t: int) -> bool {
    exists|p: int| 0 <= p < 64 && #[trigger] bit(v.friend() & v.pieces[PAWN_IDX as int], p as u64)
        && crate::geometry::pawn_reach(p, v.white_to_move, v.friend(), v.enemy(), v.ep_word(), t)
}

/// Some friendly piece of set `kind` attacks `t`, which no friend holds.
pub open spec fn piece_hit(v: BoardView, kind: int, t: int) -> bool {
    exists|o: int| 0 <= o < 64 && #[trigger] bit(v.friend() & v.pieces[kind], o as u64)
        && crate::board::model::piece_attacks(kind, o, v.occupied(), t) && !bit(v.friend(), t as u64)
}

/// The squares the side to move attacks, piece by piece: those a pawn reaches, and those
/// another piece attacks that no friend holds.
pub proof fn lemma_attack_targets_char(v: BoardView, t: int)
    ensures
        v.attack_targets().contains(t) <==> 0 <= t < 64 && (pawn_hit(v, t) || piece_hit(v, KNIGHT_IDX as int, t)
            || piece_hit(v, BISHOP_IDX as int, t) || piece_hit(v, ROOK_IDX as int, t) || piece_hit(v, QUEEN_IDX as int, t)
            || piece_hit(v, KING_IDX as int, t)),
{
    let p = v.pawn_moves();
    let n = v.piece_moves(KNIGHT_IDX as int);
    let b = v.piece_moves(BISHOP_IDX as int);
    let r = v.piece_moves(ROOK_IDX as int);
    let q = v.piece_moves(QUEEN_IDX as int);
    let k = v.piece_moves(KING_IDX as int);
    let all = v.piece_moves_all();
    let pl = p.len();
    let nl = pl + n.len();
    let bl = nl + b.len();
    let rl = bl + r.len();
    let ql = rl + q.len();
    if v.attack_targets().contains(t) {
        let i = choose|i: int| 0 <= i < all.len() && #[trigger] all[i].targ == t;
        if i < pl {
            assert(all[i] == p[i]);
            let (o, tt, j) = lemma_pawn_move_facts(v, i);
        } else {
            let (kind, idx) = if i < nl {
                (KNIGHT_IDX as int, i - pl)
            } else if i < bl {
                (BISHOP_IDX as int, i - nl)
            } else if i < rl {
                (ROOK_IDX as int, i - bl)
            } else if i < ql {
                (QUEEN_IDX as int, i - rl)
            } else {
                (KING_IDX as int, i - ql)
            };
            assert(all[i] == v.piece_moves(kind)[idx]);
            lemma_piece_move_facts(v, kind, idx);
        }
    }
    if 0 <= t < 64 && pawn_hit(v, t) {
        let pp = choose|pp: int| 0 <= pp < 64 && #[trigger] bit(v.friend() & v.pieces[PAWN_IDX as int], pp as u64)
            && crate::geometry::pawn_reach(pp, v.white_to_move, v.friend(), v.enemy(), v.ep_word(), t);
        let w = v.friend() & v.pieces[PAWN_IDX as int];
        let sq = |x: int| bit(w, x as u64);
        crate::board::model::lemma_squares_members(sq, 0);
        let os = squares_of(w);
        assert(sq(pp));
        assert(os.contains(pp));
        let kk = choose|kk: int| 0 <= kk < os.len() && os[kk] == pp;
        let reach = |x: int| crate::geometry::pawn_reach(pp, v.white_to_move, v.friend(), v.enemy(), v.ep_word(), x);
        crate::board::model::lemma_squares_members(reach, 0);
        let ts = squares_from(reach, 0);
        assert(reach(t));
        assert(ts.contains(t));
        let k2 = choose|k2: int| 0 <= k2 < ts.len() && ts[k2] == t;
        let g = |x: int| v.pawn_flags(pp, x).map_values(|fl: Flag| MoveView { orig: pp, targ: x, flag: fl });
        assert(v.pawn_flags(pp, t).len() >= 1);
        let i2 = lemma_concat_map_index(ts, g, k2, 0);
        let i1 = lemma_concat_map_index(os, |x: int| v.pawn_moves_from(x), kk, i2);
        assert(all[i1] == p[i1]);
        assert(all[i1].targ == t);
    }
    assert forall|kind: int| (kind == KNIGHT_IDX || kind == BISHOP_IDX || kind == ROOK_IDX || kind == QUEEN_IDX
        || kind == KING_IDX) && 0 <= t < 64 && #[trigger] piece_hit(v, kind, t) implies v.attack_targets().contains(t) by {
        let o = choose|o: int| 0 <= o < 64 && #[trigger] bit(v.friend() & v.pieces[kind], o as u64)
            && crate::board::model::piece_attacks(kind, o, v.occupied(), t) && !bit(v.friend(), t as u64);
        let w = v.friend() & v.pieces[kind];
        let sq = |x: int| bit(w, x as u64);
        crate::board::model::lemma_squares_members(sq, 0);
        let os = squares_of(w);
        assert(sq(o));
        assert(os.contains(o));
        let kk = choose|kk: int| 0 <= kk < os.len() && os[kk] == o;
        let pred = |x: int| crate::board::model::piece_attacks(kind, o, v.occupied(), x) && !bit(v.friend(), x as u64);
        crate::board::model::lemma_squares_members(pred, 0);
        let ts = squares_from(pred, 0);
        assert(pred(t));
        assert(ts.contains(t));
        let k2 = choose|k2: int| 0 <= k2 < ts.len() && ts[k2] == t;
        let i1 = lemma_concat_map_index(os, |x: int| v.piece_moves_from(kind, x), kk, k2);
        let off = if kind == KNIGHT_IDX { pl } else if kind == BISHOP_IDX { nl } else if kind == ROOK_IDX { bl }
            else if kind == QUEEN_IDX { rl } else { ql };
        assert(v.piece_moves(kind)[i1].targ == t);
        assert(all[off + i1] == v.piece_moves(kind)[i1]);
    }
}

/// Boards with the same position list the same moves.
proof fn lemma_same_position_pseudo(a: BoardView, b: BoardView)
    requires
        a.same_position(b),
    ensures
        a.pseudo_moves() == b.pseudo_moves(),
{
    reveal(BoardView::pseudo_moves);
    lemma_same_position_moves(a, b);
    lemma_same_position_moves(a.flipped(), b.flipped());
    assert(a.checked() == b.checked());
    assert(a.castle_ok(true) == b.castle_ok(true));
    assert(a.castle_ok(false) == b.castle_ok(false));
}

/// Consistent boards with the same position have the same legal moves.
proof fn lemma_agree_legal_list(a: BoardView, b: BoardView)
    requires
        agrees(a, b),
        b.sane(),
        b.ply + 1 < MAX_NUM_MOVES,
        captured_code(b.flags()) != 7,
    ensures
        a.legal_list() == b.legal_list(),
{
    lemma_agrees_sane(a, b);
    lemma_code_not_max(b.flags());
    lemma_legal_moves_sane(a);
    lemma_legal_moves_sane(b);
    lemma_same_position_pseudo(a, b);
    let pa = |m: MoveView| a.is_legal(m);
    let pb = |m: MoveView| b.is_legal(m);
    assert forall|m: MoveView| #[trigger] pa(m) == pb(m) by {
        lemma_same_position_legal(a, b, m);
    }
    assert(pa =~= pb);
}

/// Agreement is symmetric and transitive.
proof fn lemma_agrees_trans(a: BoardView, b: BoardView, c: BoardView)
    requires
        agrees(a, b),
        agrees(b, c),
    ensures
        agrees(a, c),
        agrees(b, a),
{
    assert forall|i: int| 0 <= i <= a.ply implies #[trigger] a.stack[i] == c.stack[i] by {
        assert(a.stack[i] == b.stack[i]);
        assert(b.stack[i] == c.stack[i]);
    }
    assert forall|i: int| 0 <= i <= b.ply implies #[trigger] b.stack[i] == a.stack[i] by {
        assert(a.stack[i] == b.stack[i]);
    }
}

/// Searching legal moves one level deep counts one leaf for each.
proof fn lemma_perft_fold_leaves(u0: BoardView, ms: Seq<MoveView>, k: int)
    requires
        0 <= k,
    ensures
        perft_fold(u0, ms, k, 0).0.nodes == k,
    decreases k,
{
    if k > 0 {
        lemma_perft_fold_leaves(u0, ms, k - 1);
        let prev = perft_fold(u0, ms, k - 1, 0);
        let w = prev.1.make(ms[k - 1]);
        assert(perft_run(w, 0).0.nodes == 1);
    }
}

/// The count `perft_divide_helper` finds on a consistent board is the node count of a
/// perft search of the same depth on any board that agrees with it; its moves can be
/// made and taken back, and it gives the board back.
pub proof fn lemma_divide_matches_perft(a: BoardView, b: BoardView, d: nat)
    requires
        agrees(a, b),
        b.sane(),
        b.ply + 1 + d < MAX_NUM_MOVES,
        captured_code(b.flags()) != 7,
    ensures
        divide_run(a, d).2,
        agrees(divide_run(a, d).1, a),
        divide_run(a, d).0 == perft_run(b, d).0.nodes,
    decreases 2 * d, 0int,
{
    lemma_agrees_sane(a, b);
    lemma_code_not_max(b.flags());
    lemma_legal_moves_sane(a);
    reveal(BoardView::after_scan);
    let pa = a.pseudo_moves();
    lemma_scan_history(a, pa, pa.len() as int);
    let a1 = a.after_scan();
    assert(agrees(a1, a));
    lemma_agree_legal_list(a, b);
    if d == 1 {
        reveal(BoardView::legal_list);
        lemma_perft_fold_leaves(b.after_scan(), b.legal_list(), b.legal_list().len() as int);
    } else if d >= 2 {
        lemma_agrees_trans(a1, a, b);
        lemma_agrees_sane(a1, b);
        lemma_legal_moves_sane(a1);
        let p1 = a1.pseudo_moves();
        lemma_scan_history(a1, p1, p1.len() as int);
        let a2 = a1.after_scan();
        assert(agrees(a2, a1));
        lemma_agrees_trans(a2, a1, b);
        lemma_agree_legal_list(a1, b);
        let pb = b.pseudo_moves();
        lemma_legal_moves_sane(b);
        lemma_scan_history(b, pb, pb.len() as int);
        assert(agrees(b.after_scan(), b));
        lemma_divide_fold_matches(b, a2, b.after_scan(), b.legal_list().len() as int, (d - 1) as nat);
        lemma_agrees_trans(a2, a1, a);
        lemma_agrees_trans(divide_fold(a2, b.legal_list(), b.legal_list().len() as int, (d - 1) as nat).1, b, a);
    }
}

/// The first `k` legal moves of `v` searched by `perft_divide_helper` from `ua` and by
/// perft from `ub`, both agreeing with `v`: the same counts, every move can be made and
/// taken back, and the board it ends on agrees with `v`.
#[verifier::rlimit(50)]
proof fn lemma_divide_fold_matches(v: BoardView, ua: BoardView, ub: BoardView, k: int, c: nat)
    requires
        v.sane(),
        v.ply + 2 + c < MAX_NUM_MOVES,
        captured_code(v.flags()) != 7,
        agrees(ua, v),
        agrees(ub, v),
        ub == v.after_scan(),
        0 <= k <= v.legal_list().len(),
    ensures
        divide_fold(ua, v.legal_list(), k, c).2,
        agrees(divide_fold(ua, v.legal_list(), k, c).1, v),
        divide_fold(ua, v.legal_list(), k, c).0 == perft_fold(ub, v.legal_list(), k, c).0.nodes,
    decreases 2 * c + 1, k,
{
    lemma_code_not_max(v.flags());
    lemma_legal_moves_sane(v);
    reveal(BoardView::legal_list);
    if k > 0 {
        lemma_divide_fold_matches(v, ua, ub, k - 1, c);
        lemma_perft_fold_keeps_board(v, k - 1, c);
        let ms = v.legal_list();
        let prev = divide_fold(ua, ms, k - 1, c);
        let prev_b = perft_fold(ub, ms, k - 1, c);
        let u = prev.1;
        let ubk = prev_b.1;
        let m = ms[k - 1];
        let ps = v.pseudo_moves();
        let j = lemma_filter_member(ps, |mm: MoveView| v.is_legal(mm), k - 1);
        assert(ps[j] == m);
        lemma_pseudo_moves_ok(v);
        assert(move_ok(v, m));
        lemma_pseudo_make_sane(v, j);
        assert(u.restorable(m));
        assert(u.makeable(m));
        crate::board::model::lemma_make_unmakeable(u, m);
        crate::board::model::lemma_make_unmakeable(ubk, m);
        lemma_agrees_make_unmake(u, v, m);
        lemma_agrees_make_unmake(ubk, v, m);
        let w = u.make(m);
        let wb = ubk.make(m);
        lemma_agrees_trans(wb, v.make(m), w);
        lemma_agrees_sane(w, v.make(m));
        lemma_agrees_sane(wb, v.make(m));
        lemma_divide_matches_perft(w, wb, c);
        let sub = divide_run(w, c);
        assert(unmakeable(sub.1, m));
        lemma_agrees_make_unmake(sub.1, w, m);
        crate::board::model::lemma_unmake_undoes_make(u, m);
        lemma_make_unmake_history(u, m);
        assert(agrees(w.unmake(m), u));
        lemma_agrees_trans(sub.1.unmake(m), w.unmake(m), u);
        lemma_agrees_trans(sub.1.unmake(m), u, v);
    }
}

/// The counts of a list of moves with counts, added up.
pub open spec fn entries_total(es: Seq<(MoveView, nat)>) -> nat
    decreases es.len(),
{
    if es.len() == 0 {
        0
    } else {
        entries_total(es.drop_last()) + es.last().1
    }
}

/// Listing the moves with their counts runs as counting them does.
proof fn lemma_entries_as_fold(u0: BoardView, ms: Seq<MoveView>, k: int, c: nat)
    requires
        0 <= k,
    ensures
        divide_entries(u0, ms, k, c).1 == divide_fold(u0, ms, k, c).1,
        divide_entries(u0, ms, k, c).2 == divide_fold(u0, ms, k, c).2,
        entries_total(divide_entries(u0, ms, k, c).0) == divide_fold(u0, ms, k, c).0,
    decreases k,
{
    if k > 0 {
        lemma_entries_as_fold(u0, ms, k - 1, c);
        let e = divide_entries(u0, ms, k, c).0;
        assert(e.drop_last() =~= divide_entries(u0, ms, k - 1, c).0);
    }
}

/// On a consistent board, the counts `perft_divide` gives its legal moves add up to the
/// node count of perft at the same depth, and it gives the board back.
pub proof fn lemma_perft_divide_sums(v: BoardView, d: nat)
    requires
        v.sane(),
        v.ply + 1 + d < MAX_NUM_MOVES,
        captured_code(v.flags()) != 7,
        d >= 1,
    ensures
        perft_divide_spec(v, d).2,
        agrees(perft_divide_spec(v, d).1, v),
        entries_total(perft_divide_spec(v, d).0) == perft_run(v, d).0.nodes,
{
    lemma_code_not_max(v.flags());
    lemma_legal_moves_sane(v);
    reveal(BoardView::after_scan);
    let ps = v.pseudo_moves();
    lemma_scan_history(v, ps, ps.len() as int);
    let u0 = v.after_scan();
    assert(agrees(u0, v));
    let n = v.legal_list().len() as int;
    lemma_divide_fold_matches(v, u0, u0, n, (d - 1) as nat);
    lemma_entries_as_fold(u0, v.legal_list(), n, (d - 1) as nat);
}

/// Making a move hands the turn to the other side and advances the ply by one. No
/// castling right is ever regained; moving the king, or castling, clears both of the
/// mover's rights, and moving from a rook's home square clears the right on that side.
pub proof fn lemma_make_rights(v: BoardView, m: MoveView)
    requires
        v.well_sized(),
        v.makeable(m),
        0 <= m.orig < 64,
        0 <= m.targ < 64,
        captured_code(v.flags()) != 7,
    ensures
        ({
            let (f0, f1) = (v.flags(), v.make(m).flags());
            &&& v.make(m).white_to_move == !v.white_to_move
            &&& v.make(m).ply == v.ply + 1
            &&& castle_wk(f1) ==> castle_wk(f0)
            &&& castle_wq(f1) ==> castle_wq(f0)
            &&& castle_bk(f1) ==> castle_bk(f0)
            &&& castle_bq(f1) ==> castle_bq(f0)
            &&& v.white_to_move ==> {
                &&& (m.orig == 4 || m.flag.spec_is_castle()) ==> !castle_wk(f1) && !castle_wq(f1)
                &&& m.orig == 7 ==> !castle_wk(f1)
                &&& m.orig == 0 ==> !castle_wq(f1)
            }
            &&& !v.white_to_move ==> {
                &&& (m.orig == 60 || m.flag.spec_is_castle()) ==> !castle_bk(f1) && !castle_bq(f1)
                &&& m.orig == 63 ==> !castle_bk(f1)
                &&& m.orig == 56 ==> !castle_bq(f1)
            }
        }),
{
    let (dwk, dwq, dbk, dbq) = v.disabled_rights(m);
    let is_pawn_move = v.pieces[PAWN_IDX as int] & single(m.orig) != 0;
    let captured = if m.flag.spec_is_castle() {
        Piece::NoPiece
    } else if m.flag == Flag::EnPassant {
        Piece::Pawn
    } else {
        let from = find_piece_spec(v.pieces, single(m.orig)).code() - 1;
        let p = v.pieces.update(from, v.pieces[from] & !single(m.orig));
        find_piece_spec(p, single(m.targ))
    };
    if m.flag == Flag::DoublePush {
        assert(0 <= crate::types::movement::double_push_target(m) < 64);
    }
    lemma_next_word_fields(v.flags(), m.flag.spec_is_capture() && is_pawn_move, dwk, dwq, dbk, dbq,
        crate::board::model::ep_after(m), captured, m.targ);
    assert(v.make(m).flags() == crate::types::state_metadata::next_word(v.flags(), m.flag.spec_is_capture()
        && is_pawn_move, dwk, dwq, dbk, dbq, crate::board::model::ep_after(m), captured, m.targ));
}

/// On a consistent board whose history has room for one more move and whose clock can
/// advance, listing the legal moves gives the position back, and taking back any legal
/// move right after making it gives the position back too.
pub proof fn lemma_legal_move_undone(v: BoardView, m: MoveView)
    requires
        v.sane(),
        v.ply + 1 < MAX_NUM_MOVES,
        v.flags() < u32::MAX,
        v.legal_list().contains(m),
    ensures
        v.after_scan().same_position(v),
        v.make(m).unmake(m).same_position(v),
{
    lemma_legal_moves_sane(v);
    lemma_pseudo_moves_ok(v);
    let ps = v.pseudo_moves();
    let pred = |x: MoveView| v.is_legal(x);
    assert(ps.filter(pred).contains(m));
    ps.lemma_filter_contains_rev(pred, m);
    assert(ps.contains(m));
    let i = choose|i: int| 0 <= i < ps.len() && ps[i] == m;
    assert(move_ok(v, ps[i]));
    crate::board::model::lemma_unmake_undoes_make(v, m);
}

/// A move of a piece is no castling, starts on a friendly piece, ends on a square no
/// friend holds, and is flagged a capture (plain or with a promotion) exactly when an
/// enemy holds its target.
pub open spec fn move_shape(v: BoardView, m: MoveView) -> bool {
    &&& !m.flag.spec_is_castle()
    &&& 0 <= m.orig < 64
    &&& 0 <= m.targ < 64
    &&& bit(v.friend(), m.orig as u64)
    &&& !bit(v.friend(), m.targ as u64)
    &&& (m.flag == Flag::Capture || m.flag == Flag::PromoteCaptureN || m.flag == Flag::PromoteCaptureB
        || m.flag == Flag::PromoteCaptureR || m.flag == Flag::PromoteCaptureQ) <==> bit(v.enemy(), m.targ as u64)
}

/// On a consistent board every move the pieces have (all listed moves but the castlings,
/// which `pseudo_moves` lists after them) has the shape of `move_shape`.
pub proof fn lemma_piece_moves_shape(v: BoardView)
    requires
        v.sane(),
    ensures
        forall|i: int| 0 <= i < v.piece_moves_all().len() ==> move_shape(v, #[trigger] v.piece_moves_all()[i]),
{
    broadcast use group_bits;

    assert forall|i: int| 0 <= i < v.pawn_moves().len() implies move_shape(v, #[trigger] v.pawn_moves()[i]) by {
        let (o, t, j) = lemma_pawn_move_facts(v, i);
        lemma_sane_at(v, o);
        lemma_sane_at(v, t);
        let ep = ep_target_of(v.flags());
        if ep is Some {
            crate::types::state_metadata::lemma_field_ranges(v.flags());
            crate::types::bitboard::lemma_single_bits(ep.unwrap());
            lemma_sane_at(v, ep.unwrap());
        }
        assert(v.ep_word() == 0 ==> !bit(v.ep_word(), t as u64));
        assert(!bit(v.friend(), t as u64));
    }
    assert forall|kind: int, i: int| 1 <= kind < 6 && 0 <= i < v.piece_moves(kind).len()
        implies move_shape(v, #[trigger] v.piece_moves(kind)[i]) by {
        lemma_piece_move_facts(v, kind, i);
    }
    let a = v.pawn_moves();
    let b = v.piece_moves(KNIGHT_IDX as int);
    let c = v.piece_moves(BISHOP_IDX as int);
    let d = v.piece_moves(ROOK_IDX as int);
    let e = v.piece_moves(QUEEN_IDX as int);
    let f = v.piece_moves(KING_IDX as int);
    assert forall|i: int| 0 <= i < v.piece_moves_all().len() implies move_shape(v, #[trigger] v.piece_moves_all()[i]) by {
        let all = v.piece_moves_all();
        assert(all == a + b + c + d + e + f);
        let (la, lb, lc, ld, le) = (a.len() as int, b.len() as int, c.len() as int, d.len() as int, e.len() as int);
        if i < la {
            assert(all[i] == a[i]);
        } else if i < la + lb {
            assert(all[i] == b[i - la]);
        } else if i < la + lb + lc {
            assert(all[i] == c[i - la - lb]);
        } else if i < la + lb + lc + ld {
            assert(all[i] == d[i - la - lb - lc]);
        } else if i < la + lb + lc + ld + le {
            assert(all[i] == e[i - la - lb - lc - ld]);
        } else {
            assert(all[i] == f[i - la - lb - lc - ld - le]);
        }
    }
}

/// On a consistent board, making a move of a piece leaves its origin empty and one of
/// the mover's pieces on its target (the mover's pieces are the other side's once the
/// turn has passed).
pub proof fn lemma_piece_move_lands(v: BoardView, i: int)
    requires
        v.sane(),
        0 <= i < v.piece_moves_all().len(),
    ensures
        ({
            let m = v.piece_moves_all()[i];
            let w = v.make(m);
            &&& bit(w.enemy(), m.targ as u64)
            &&& !bit(w.occupied(), m.orig as u64)
        }),
{
    broadcast use group_bits;

    lemma_piece_moves_shape(v);
    let m = v.piece_moves_all()[i];
    assert(move_shape(v, m));
    lemma_sane_at(v, m.orig);
    lemma_sane_at(v, m.targ);
}

/// After a move is made, the en passant target is the square a double push passed over
/// (on the target's file, on the third rank from a second-rank start and on the sixth
/// otherwise), and there is none after any other move.
pub proof fn lemma_make_ep_target(v: BoardView, m: MoveView)
    requires
        v.well_sized(),
        v.makeable(m),
        0 <= m.orig < 64,
        0 <= m.targ < 64,
        captured_code(v.flags()) != 7,
    ensures
        ep_target_of(v.make(m).flags()) == if m.flag == Flag::DoublePush {
            Some((if m.orig / 8 == 1 { 2int } else { 5int }) * 8 + m.targ % 8)
        } else {
            None::<int>
        },
{
    let (dwk, dwq, dbk, dbq) = v.disabled_rights(m);
    let is_pawn_move = v.pieces[PAWN_IDX as int] & single(m.orig) != 0;
    let captured = if m.flag.spec_is_castle() {
        Piece::NoPiece
    } else if m.flag == Flag::EnPassant {
        Piece::Pawn
    } else {
        let from = find_piece_spec(v.pieces, single(m.orig)).code() - 1;
        let p = v.pieces.update(from, v.pieces[from] & !single(m.orig));
        find_piece_spec(p, single(m.targ))
    };
    if m.flag == Flag::DoublePush {
        assert(0 <= crate::types::movement::double_push_target(m) < 64);
    }
    lemma_next_word_fields(v.flags(), m.flag.spec_is_capture() && is_pawn_move, dwk, dwq, dbk, dbq,
        crate::board::model::ep_after(m), captured, m.targ);
    assert(v.make(m).flags() == crate::types::state_metadata::next_word(v.flags(), m.flag.spec_is_capture()
        && is_pawn_move, dwk, dwq, dbk, dbq, crate::board::model::ep_after(m), captured, m.targ));
}

/// The first `k` entries `perft_divide` lists from the board `v.after_scan()`: each is a
/// legal move of `v` with the perft node count, `c` levels deep, of `v` after that move;
/// and the board left agrees with `v`.
proof fn lemma_divide_entries_children(v: BoardView, k: int, c: nat)
    requires
        v.sane(),
        v.ply + 2 + c < MAX_NUM_MOVES,
        captured_code(v.flags()) != 7,
        agrees(v.after_scan(), v),
        0 <= k <= v.legal_list().len(),
    ensures
        divide_entries(v.after_scan(), v.legal_list(), k, c).0.len() == k,
        forall|i: int| 0 <= i < k ==> #[trigger] divide_entries(v.after_scan(), v.legal_list(), k, c).0[i] == (
            v.legal_list()[i], perft_run(v.make(v.legal_list()[i]), c).0.nodes),
    decreases k,
{
    let u0 = v.after_scan();
    let ms = v.legal_list();
    if k > 0 {
        lemma_divide_entries_children(v, k - 1, c);
        lemma_entries_as_fold(u0, ms, k - 1, c);
        lemma_divide_fold_matches(v, u0, u0, k - 1, c);
        lemma_code_not_max(v.flags());
        lemma_legal_moves_sane(v);
        reveal(BoardView::legal_list);
        let u = divide_entries(u0, ms, k - 1, c).1;
        assert(agrees(u, v));
        let m = ms[k - 1];
        let ps = v.pseudo_moves();
        let j = lemma_filter_member(ps, |mm: MoveView| v.is_legal(mm), k - 1);
        assert(ps[j] == m);
        lemma_pseudo_moves_ok(v);
        assert(move_ok(v, m));
        lemma_pseudo_make_sane(v, j);
        assert(u.restorable(m));
        assert(u.makeable(m));
        assert(v.makeable(m));
        crate::board::model::lemma_make_unmakeable(v, m);
        crate::board::model::lemma_make_unmakeable(u, m);
        lemma_agrees_make_unmake(u, v, m);
        let w = u.make(m);
        lemma_divide_matches_perft(w, v.make(m), c);
        let e = divide_entries(u0, ms, k, c).0;
        assert(e == divide_entries(u0, ms, k - 1, c).0.push((m, divide_run(w, c).0)));
    }
}

/// The perft node counts of the boards after each of the moves `ms`, made on `v`, at depth `c`, added up.
pub open spec fn children_nodes(v: BoardView, ms: Seq<MoveView>, c: nat) -> nat
    decreases ms.len(),
{
    if ms.len() == 0 {
        0
    } else {
        children_nodes(v, ms.drop_last(), c) + perft_run(v.make(ms.last()), c).0.nodes
    }
}

proof fn lemma_entries_children_total(v: BoardView, es: Seq<(MoveView, nat)>, ms: Seq<MoveView>, c: nat)
    requires
        es.len() == ms.len(),
        forall|i: int| 0 <= i < es.len() ==> #[trigger] es[i] == (ms[i], perft_run(v.make(ms[i]), c).0.nodes),
    ensures
        entries_total(es) == children_nodes(v, ms, c),
    decreases es.len(),
{
    if es.len() > 0 {
        let (e2, m2) = (es.drop_last(), ms.drop_last());
        assert forall|i: int| 0 <= i < e2.len() implies #[trigger] e2[i] == (m2[i], perft_run(v.make(m2[i]), c).0.nodes) by {
            assert(es[i] == e2[i] && ms[i] == m2[i]);
        }
        lemma_entries_children_total(v, e2, m2, c);
        assert(es[es.len() - 1] == es.last());
    }
}

/// On a consistent board whose history has room for the search, `perft_divide` lists
/// the legal moves in order, each with the perft node count, one level less deep, of the
/// board after that move; and perft's node count is the sum of those counts.
pub proof fn lemma_perft_children(v: BoardView, d: nat)
    requires
        v.sane(),
        v.ply + 1 + d < MAX_NUM_MOVES,
        captured_code(v.flags()) != 7,
        d >= 1,
    ensures
        perft_divide_spec(v, d).0.len() == v.legal_list().len(),
        forall|i: int| 0 <= i < v.legal_list().len() ==> #[trigger] perft_divide_spec(v, d).0[i] == (
            v.legal_list()[i], perft_run(v.make(v.legal_list()[i]), (d - 1) as nat).0.nodes),
        perft_run(v, d).0.nodes == children_nodes(v, v.legal_list(), (d - 1) as nat),
{
    lemma_code_not_max(v.flags());
    lemma_legal_moves_sane(v);
    reveal(BoardView::after_scan);
    let ps = v.pseudo_moves();
    lemma_scan_history(v, ps, ps.len() as int);
    assert(agrees(v.after_scan(), v));
    let n = v.legal_list().len() as int;
    let c = (d - 1) as nat;
    lemma_divide_entries_children(v, n, c);
    lemma_perft_divide_sums(v, d);
    lemma_entries_children_total(v, perft_divide_spec(v, d).0, v.legal_list(), c);
}

/// `squares_from(p, i)` lists at most `64 - i` squares.
proof fn lemma_squares_from_len(p: spec_fn(int) -> bool, i: int)
    requires
        0 <= i <= 64,
    ensures
        squares_from(p, i).len() <= 64 - i,
    decreases 64 - i,
{
    if i < 64 {
        lemma_squares_from_len(p, i + 1);
    }
}

/// Concatenating at most `b` moves for each square of `os` gives at most `os.len() * b` moves.
proof fn lemma_concat_map_len(os: Seq<int>, f: spec_fn(int) -> Seq<MoveView>, b: nat)
    requires
        forall|k: int| 0 <= k < os.len() ==> (#[trigger] f(os[k])).len() <= b,
    ensures
        concat_map(os, f).len() <= os.len() * b,
    decreases os.len(),
{
    if os.len() > 0 {
        let rest = os.drop_first();
        assert forall|k: int| 0 <= k < rest.len() implies (#[trigger] f(rest[k])).len() <= b by {
            assert(rest[k] == os[k + 1]);
        }
        lemma_concat_map_len(rest, f, b);
        assert(f(os[0]).len() <= b);
        assert(concat_map(os, f).len() <= b + rest.len() * b);
        assert(b + rest.len() * b == os.len() * b) by (nonlinear_arith)
            requires
                rest.len() + 1 == os.len(),
        ;
    }
}

/// A board lists fewer than 65536 moves.
proof fn lemma_pseudo_moves_len(v: BoardView)
    ensures
        v.pseudo_moves().len() < 65536,
{
    reveal(BoardView::pseudo_moves);
    assert forall|kind: int| #[trigger] v.piece_moves(kind).len() <= 4096 by {
        let os = squares_of(v.friend() & v.pieces[kind]);
        let f = |o: int| v.piece_moves_from(kind, o);
        lemma_squares_from_len(|i: int| bit(v.friend() & v.pieces[kind], i as u64), 0);
        assert forall|k: int| 0 <= k < os.len() implies (#[trigger] f(os[k])).len() <= 64 by {
            lemma_squares_from_len(|t: int| crate::board::model::piece_attacks(kind, os[k], v.occupied(), t)
                && !bit(v.friend(), t as u64), 0);
        }
        lemma_concat_map_len(os, f, 64);
        assert(os.len() * 64 <= 4096) by (nonlinear_arith)
            requires
                os.len() <= 64,
        ;
    }
    let pawns = squares_of(v.friend() & v.pieces[PAWN_IDX as int]);
    let fp = |p: int| v.pawn_moves_from(p);
    lemma_squares_from_len(|i: int| bit(v.friend() & v.pieces[PAWN_IDX as int], i as u64), 0);
    assert forall|k: int| 0 <= k < pawns.len() implies (#[trigger] fp(pawns[k])).len() <= 256 by {
        let p = pawns[k];
        let reach = |t: int| crate::geometry::pawn_reach(p, v.white_to_move, v.friend(), v.enemy(), v.ep_word(), t);
        let g = |t: int| v.pawn_flags(p, t).map_values(|fl: Flag| MoveView { orig: p, targ: t, flag: fl });
        let ts = squares_from(reach, 0);
        lemma_squares_from_len(reach, 0);
        assert forall|j: int| 0 <= j < ts.len() implies (#[trigger] g(ts[j])).len() <= 4 by {
            assert(v.pawn_flags(p, ts[j]).len() <= 4);
        }
        lemma_concat_map_len(ts, g, 4);
        assert(ts.len() * 4 <= 256) by (nonlinear_arith)
            requires
                ts.len() <= 64,
        ;
    }
    lemma_concat_map_len(pawns, fp, 256);
    assert(pawns.len() * 256 <= 16384) by (nonlinear_arith)
        requires
            pawns.len() <= 64,
    ;
}

/// The legal moves a board finds are no more than the moves it tries.
proof fn lemma_scan_legal_len(v: BoardView, ms: Seq<MoveView>, k: int)
    requires
        0 <= k,
    ensures
        v.scan_legal(ms, k).len() <= k,
    decreases k,
{
    if k > 0 {
        lemma_scan_legal_len(v, ms, k - 1);
    }
}

/// `65536` to the power `d`.
pub open spec fn pow16(d: nat) -> nat
    decreases d,
{
    if d == 0 {
        1
    } else {
        65536 * pow16((d - 1) as nat)
    }
}

/// Each count of a perft search of depth `d` is at most `65536` to the power `d`, and
/// each count of a move kind is at most the node count.
proof fn lemma_perft_bound(v: BoardView, d: nat)
    ensures
        perft_run(v, d).0.nodes <= pow16(d),
        perft_run(v, d).0.captures <= perft_run(v, d).0.nodes,
        perft_run(v, d).0.en_passants <= perft_run(v, d).0.nodes,
        perft_run(v, d).0.castles <= perft_run(v, d).0.nodes,
        perft_run(v, d).0.promotions <= perft_run(v, d).0.nodes,
    decreases 2 * d, 0int,
{
    if d > 0 {
        let n = v.legal_list().len() as int;
        let c = (d - 1) as nat;
        lemma_perft_fold_bound(v.after_scan(), v.legal_list(), n, c);
        reveal(BoardView::legal_list);
        lemma_scan_legal_len(v, v.pseudo_moves(), v.pseudo_moves().len() as int);
        lemma_pseudo_moves_len(v);
        assert(n * pow16(c) <= 65536 * pow16(c)) by (nonlinear_arith)
            requires
                n <= 65536,
        ;
    }
}

proof fn lemma_perft_fold_bound(u0: BoardView, ms: Seq<MoveView>, k: int, c: nat)
    requires
        0 <= k,
    ensures
        perft_fold(u0, ms, k, c).0.nodes <= k * pow16(c),
        perft_fold(u0, ms, k, c).0.captures <= perft_fold(u0, ms, k, c).0.nodes,
        perft_fold(u0, ms, k, c).0.en_passants <= perft_fold(u0, ms, k, c).0.nodes,
        perft_fold(u0, ms, k, c).0.castles <= perft_fold(u0, ms, k, c).0.nodes,
        perft_fold(u0, ms, k, c).0.promotions <= perft_fold(u0, ms, k, c).0.nodes,
    decreases 2 * c + 1, k,
{
    if k > 0 {
        lemma_perft_fold_bound(u0, ms, k - 1, c);
        let prev = perft_fold(u0, ms, k - 1, c);
        let m = ms[k - 1];
        lemma_perft_bound(prev.1.make(m), c);
        if c == 0 {
            assert(perft_run(prev.1.make(m), c).0.nodes == 1);
        }
        assert((k - 1) * pow16(c) + pow16(c) == k * pow16(c)) by (nonlinear_arith);
    }
}

/// The counts of a perft search of depth at most 7 fit in a `u128`, from any board.
pub proof fn lemma_perft_counts_fit(v: BoardView, d: nat)
    requires
        d <= 7,
    ensures
        perft_run(v, d).0.nodes <= u128::MAX,
        perft_run(v, d).0.captures <= u128::MAX,
        perft_run(v, d).0.en_passants <= u128::MAX,
        perft_run(v, d).0.castles <= u128::MAX,
        perft_run(v, d).0.promotions <= u128::MAX,
{
    lemma_perft_bound(v, d);
    assert(pow16(d) <= pow16(7)) by {
        reveal_with_fuel(pow16, 8);
    }
    assert(pow16(7) < u128::MAX) by {
        reveal_with_fuel(pow16, 8);
    }
}

/// On a consistent board whose history has room for the search, the preconditions of
/// `perft` hold up to depth 7, and those of `perft_divide` up to depth 8.
pub proof fn lemma_perft_callable(v: BoardView, d: nat)
    requires
        v.sane(),
        v.ply + 1 + d < MAX_NUM_MOVES,
        captured_code(v.flags()) != 7,
    ensures
        perft_run(v, d).2,
        d <= 7 ==> perft_run(v, d).0.nodes <= u128::MAX && perft_run(v, d).0.captures <= u128::MAX
            && perft_run(v, d).0.en_passants <= u128::MAX && perft_run(v, d).0.castles <= u128::MAX
            && perft_run(v, d).0.promotions <= u128::MAX,
        perft_divide_spec(v, d).2,
        d <= 8 ==> forall|i: int| 0 <= i < perft_divide_spec(v, d).0.len()
            ==> #[trigger] perft_divide_spec(v, d).0[i].1 <= u128::MAX,
{
    lemma_perft_keeps_board(v, d);
    if d <= 7 {
        lemma_perft_counts_fit(v, d);
    }
    if d >= 1 {
        lemma_perft_divide_sums(v, d);
        lemma_perft_children(v, d);
        if d <= 8 {
            assert forall|i: int| 0 <= i < perft_divide_spec(v, d).0.len()
                implies #[trigger] perft_divide_spec(v, d).0[i].1 <= u128::MAX by {
                lemma_perft_counts_fit(v.make(v.legal_list()[i]), (d - 1) as nat);
            }
        }
    }
}


/// A five-character move text that reads as a promotion promotes to the piece its fifth
/// character names: `n` a knight, `b` a bishop, `r` a rook, `q` a queen.
pub proof fn lemma_promotion_letter(v: BoardView, s: Seq<char>)
    requires
        s.len() == 5,
        v.text_move(s) is Some,
        v.text_move(s).unwrap().flag.spec_is_promotion(),
    ensures
        ({
            let p = v.text_move(s).unwrap().flag.spec_promotion_piece();
            &&& (s[4] == 'n') <==> p == Piece::Knight
            &&& (s[4] == 'b') <==> p == Piece::Bishop
            &&& (s[4] == 'r') <==> p == Piece::Rook
            &&& (s[4] == 'q') <==> p == Piece::Queen
        }),
{
}

/// Making a promotion puts the piece the flag names on the target square, in the
/// mover's colour: a knight for `PromoteN`, a bishop for `PromoteB`, a rook for
/// `PromoteR`, a queen for `PromoteQ`, and the same for the capturing promotions.
pub proof fn lemma_promotion_lands(v: BoardView, m: MoveView)
    requires
        v.well_sized(),
        v.makeable(m),
        0 <= m.orig < 64,
        0 <= m.targ < 64,
        m.flag.spec_is_promotion(),
    ensures
        ({
            let w = v.make(m);
            let t = m.targ as u64;
            &&& bit(w.colors[v.side()], t)
            &&& bit(w.pieces[m.flag.spec_promotion_piece().code() - 1], t)
            &&& (m.flag == Flag::PromoteN || m.flag == Flag::PromoteCaptureN) ==> bit(w.pieces[1], t)
            &&& (m.flag == Flag::PromoteB || m.flag == Flag::PromoteCaptureB) ==> bit(w.pieces[2], t)
            &&& (m.flag == Flag::PromoteR || m.flag == Flag::PromoteCaptureR) ==> bit(w.pieces[3], t)
            &&& (m.flag == Flag::PromoteQ || m.flag == Flag::PromoteCaptureQ) ==> bit(w.pieces[4], t)
        }),
{
    broadcast use group_bits;

    crate::board::model::lemma_find_piece(v.pieces, m.orig);
    let from = find_piece_spec(v.pieces, single(m.orig)).code() - 1;
    let p1 = v.pieces.update(from, v.pieces[from] & !single(m.orig));
    let cap = find_piece_spec(p1, single(m.targ));
    let p2 = if cap != Piece::NoPiece { p1.update(cap.code() - 1, p1[cap.code() - 1] & !single(m.targ)) } else { p1 };
    let to = crate::board::model::promotion_index(m.flag);
    let p3 = p2.update(to, p2[to] | single(m.targ));
    assert(v.make(m).pieces == p3);
    assert(bit(p3[to], m.targ as u64));
}

} // verus!
