//! The abstract state of a board and what each operation does to it.
use vstd::prelude::*;
use crate::bits::{bit, single, lemma_and_single, group_bits, lemma_bit_ext, lemma_move_bit_back, lemma_move_two_back,
    lemma_clear_back, lemma_ep_pawns_back, lemma_castle_words};
use crate::types::movement::{Flag, Move, MoveView, double_push_target};
use crate::types::bitboard::{lowest_bit, lemma_lowest_bit};
use crate::types::piece::{Piece, piece_of_code};
use crate::types::state_metadata::{next_word, captured_code, captured_sq, lemma_next_word_capture, ep_target_of,
    castle_wk, castle_wq, castle_bk, castle_bq};
use crate::types::square::algebraic_index;
use crate::geometry::{knight_attack, king_attack, bishop_attacks, rook_attacks, queen_attacks, pawn_reach};

verus! {

/// The number of slots in the history of flags: the length of the longest possible game.
pub const MAX_NUM_MOVES: usize = 17_697;

pub const WHITE_IDX: usize = 0;
pub const BLACK_IDX: usize = 1;

pub const PAWN_IDX: usize = 0;
pub const KNIGHT_IDX: usize = 1;
pub const BISHOP_IDX: usize = 2;
pub const ROOK_IDX: usize = 3;
pub const QUEEN_IDX: usize = 4;
pub const KING_IDX: usize = 5;

/// A board as the contracts see it.
#[verifier::ext_equal]
pub struct BoardView {
    /// The squares of white (index 0) and of black (index 1).
    pub colors: Seq<u64>,
    /// The squares of the pawns, knights, bishops, rooks, queens and kings.
    pub pieces: Seq<u64>,
    pub white_to_move: bool,
    /// The flags of each ply of the game so far; the current ones at `ply`.
    pub stack: Seq<u32>,
    pub ply: int,
}

/// `w` with the square `o` removed and the square `t` added.
pub open spec fn move_bit(w: u64, o: int, t: int) -> u64 {
    (w & !single(o)) | single(t)
}

/// The squares of a castling: (rook origin, rook target, king origin, king target).
pub open spec fn castle_squares(white: bool, short: bool) -> (int, int, int, int) {
    if white {
        if short { (7, 5, 4, 6) } else { (0, 3, 4, 2) }
    } else {
        if short { (63, 61, 60, 62) } else { (56, 59, 60, 58) }
    }
}

/// The first of `pieces[i..]` that holds a square of `loc`, as a piece.
pub open spec fn find_piece_from(pieces: Seq<u64>, loc: u64, i: int) -> Piece
    decreases 6 - i,
{
    if i >= 6 {
        Piece::NoPiece
    } else if pieces[i] & loc != 0 {
        piece_of_code(i + 1).unwrap()
    } else {
        find_piece_from(pieces, loc, i + 1)
    }
}

pub open spec fn find_piece_spec(pieces: Seq<u64>, loc: u64) -> Piece {
    find_piece_from(pieces, loc, 0)
}

/// The squares that must be empty between king and rook, the rook's home and the king's home.
pub open spec fn castle_masks(white: bool, short: bool) -> (u64, u64, u64) {
    if white {
        if short { (0x60u64, 0x80u64, 0x10u64) } else { (0x0eu64, 0x01u64, 0x10u64) }
    } else {
        if short {
            (0x6000_0000_0000_0000u64, 0x8000_0000_0000_0000u64, 0x1000_0000_0000_0000u64)
        } else {
            (0x0e00_0000_0000_0000u64, 0x0100_0000_0000_0000u64, 0x1000_0000_0000_0000u64)
        }
    }
}

/// The promotion a letter of a move's fifth character names, a capture or not.
pub open spec fn promotion_flag(c: char, capture: bool) -> Option<Flag> {
    if c == 'n' {
        Some(if capture { Flag::PromoteCaptureN } else { Flag::PromoteN })
    } else if c == 'b' {
        Some(if capture { Flag::PromoteCaptureB } else { Flag::PromoteB })
    } else if c == 'r' {
        Some(if capture { Flag::PromoteCaptureR } else { Flag::PromoteR })
    } else if c == 'q' {
        Some(if capture { Flag::PromoteCaptureQ } else { Flag::PromoteQ })
    } else {
        None
    }
}

/// The number of bytes UTF-8 takes to write `c`.
pub open spec fn utf8_len(c: char) -> int {
    if (c as int) < 0x80 {
        1
    } else if (c as int) < 0x800 {
        2
    } else if (c as int) < 0x10000 {
        3
    } else {
        4
    }
}

/// The number of bytes UTF-8 takes to write `s`.
pub open spec fn byte_len(s: Seq<char>) -> int
    decreases s.len(),
{
    if s.len() == 0 {
        0
    } else {
        byte_len(s.drop_last()) + utf8_len(s.last())
    }
}

/// Two bytes after the start of character `i` of `s` a character starts (or the text
/// ends): character `i` takes two bytes, or it and the next one take one byte each.
pub open spec fn two_bytes_on(s: Seq<char>, i: int) -> bool {
    ||| (0 <= i < s.len() && utf8_len(s[i]) == 2)
    ||| (0 <= i && i + 1 < s.len() && utf8_len(s[i]) == 1 && utf8_len(s[i + 1]) == 1)
}

/// The square the two characters of `s` from `i` on name, if there are two and they name one.
pub open spec fn square_named(s: Seq<char>, i: int) -> Option<int> {
    if 0 <= i && i + 2 <= s.len() {
        algebraic_index(s.subrange(i, i + 2))
    } else {
        None
    }
}

/// The set of the piece a promotion flag promotes to.
pub open spec fn promotion_index(f: Flag) -> int {
    match f {
        Flag::PromoteCaptureN | Flag::PromoteN => KNIGHT_IDX as int,
        Flag::PromoteCaptureB | Flag::PromoteB => BISHOP_IDX as int,
        Flag::PromoteCaptureR | Flag::PromoteR => ROOK_IDX as int,
        _ => QUEEN_IDX as int,
    }
}

/// The en passant target a move leaves.
pub open spec fn ep_after(m: MoveView) -> Option<int> {
    if m.flag == Flag::DoublePush {
        Some(double_push_target(m))
    } else {
        None
    }
}

/// The square of the pawn an en passant capture takes, as a set (empty off the board).
pub open spec fn ep_victim(white: bool, t: int) -> u64 {
    if white {
        single(t) >> 8u64
    } else {
        single(t) << 8u64
    }
}


/// What `find_piece` finds on one square: no piece when no set holds the square,
/// and otherwise the first set that holds it.
pub proof fn lemma_find_piece(pieces: Seq<u64>, t: int)
    requires
        pieces.len() == 6,
        0 <= t < 64,
    ensures
        (find_piece_spec(pieces, single(t)) == Piece::NoPiece) <==> (forall|i: int| 0 <= i < 6 ==> !bit(pieces[i], t as u64)),
        find_piece_spec(pieces, single(t)) != Piece::NoPiece ==> {
            let c = find_piece_spec(pieces, single(t)).code() - 1;
            &&& 0 <= c < 6
            &&& bit(pieces[c], t as u64)
            &&& forall|i: int| 0 <= i < c ==> !bit(pieces[i], t as u64)
        },
{
    lemma_find_piece_from(pieces, t, 0);
}

proof fn lemma_find_piece_from(pieces: Seq<u64>, t: int, i: int)
    requires
        pieces.len() == 6,
        0 <= t < 64,
        0 <= i <= 6,
    ensures
        (find_piece_from(pieces, single(t), i) == Piece::NoPiece) <==> (forall|j: int| i <= j < 6 ==> !bit(pieces[j], t as u64)),
        find_piece_from(pieces, single(t), i) != Piece::NoPiece ==> {
            let c = find_piece_from(pieces, single(t), i).code() - 1;
            &&& i <= c < 6
            &&& bit(pieces[c], t as u64)
            &&& forall|j: int| i <= j < c ==> !bit(pieces[j], t as u64)
        },
    decreases 6 - i,
{
    if i < 6 {
        lemma_and_single(pieces[i], t);
        lemma_find_piece_from(pieces, t, i + 1);
    }
}


/// After a move is made it can be taken back: a normal move leaves a piece on its
/// target, and the capture field holds a piece code. Making and taking back keeps the
/// ply and the current flags.
pub proof fn lemma_make_unmakeable(v: BoardView, m: MoveView)
    requires
        v.well_sized(),
        v.makeable(m),
        0 <= m.orig < 64,
        0 <= m.targ < 64,
    ensures
        v.make(m).well_sized(),
        v.make(m).ply == v.ply + 1,
        !m.flag.spec_is_castle() && m.flag != Flag::EnPassant ==> find_piece_spec(v.make(m).pieces, single(m.targ)) != Piece::NoPiece,
        captured_code(v.make(m).flags()) != 7,
        v.make(m).unmake(m).well_sized(),
        v.make(m).unmake(m).ply == v.ply,
        v.make(m).unmake(m).flags() == v.flags(),
        v.make(m).unmake(m).white_to_move == v.white_to_move,
{
    broadcast use group_bits;

    let w = v.make(m);
    let (o, t) = (m.orig, m.targ);
    let (dwk, dwq, dbk, dbq) = v.disabled_rights(m);
    let is_pawn_move = v.pieces[PAWN_IDX as int] & single(o) != 0;
    if !m.flag.spec_is_castle() && m.flag != Flag::EnPassant {
        let pcs = v.pieces;
        lemma_find_piece(pcs, o);
        let from = find_piece_spec(pcs, single(o)).code() - 1;
        let p1 = pcs.update(from, pcs[from] & !single(o));
        let to = if m.flag.spec_is_promotion() { promotion_index(m.flag) } else { from };
        let cap = find_piece_spec(p1, single(t));
        let p2 = if cap != Piece::NoPiece { p1.update(cap.code() - 1, p1[cap.code() - 1] & !single(t)) } else { p1 };
        let p3 = p2.update(to, p2[to] | single(t));
        assert(w.pieces == p3);
        assert(bit(p3[to], t as u64));
        lemma_find_piece(p3, t);
        let cap_piece = find_piece_spec(p1, single(t));
        lemma_next_word_capture(v.flags(), m.flag.spec_is_capture() && is_pawn_move, dwk, dwq, dbk, dbq, ep_after(m), cap_piece, t);
        if cap_piece != Piece::NoPiece {
            cap_piece.lemma_code_roundtrip();
        }
    } else if m.flag == Flag::EnPassant {
        lemma_next_word_capture(v.flags(), m.flag.spec_is_capture() && is_pawn_move, dwk, dwq, dbk, dbq, ep_after(m), Piece::Pawn, t);
    } else {
        lemma_next_word_capture(v.flags(), m.flag.spec_is_capture() && is_pawn_move, dwk, dwq, dbk, dbq, ep_after(m), Piece::NoPiece, t);
    }
}

/// Taking back a move right after making it gives back the same position:
/// the same pieces, side to move, ply and current flags.
pub proof fn lemma_unmake_undoes_make(v: BoardView, m: MoveView)
    requires
        v.well_sized(),
        v.ply + 1 < MAX_NUM_MOVES,
        0 <= m.targ < 64,
        v.restorable(m),
    ensures
        v.make(m).unmake(m).same_position(v),
{
    broadcast use group_bits;

    let w = v.make(m);
    let u = w.unmake(m);
    let me = v.side();
    let other = 1 - me;
    let (o, t) = (m.orig, m.targ);
    assert(w.side() == other);
    assert(u.flags() == v.flags());
    if m.flag.spec_is_castle() {
        let (orook, drook, oking, dking) = castle_squares(v.white_to_move, m.flag == Flag::ShortCastle);
        lemma_move_two_back(v.colors[me], oking, orook, dking, drook);
        lemma_move_bit_back(v.pieces[ROOK_IDX as int], orook, drook);
        lemma_move_bit_back(v.pieces[KING_IDX as int], oking, dking);
        assert(u.colors =~= v.colors);
        assert(u.pieces =~= v.pieces);
    } else if m.flag == Flag::EnPassant {
        let victim = ep_victim(v.white_to_move, t);
        lemma_move_bit_back(v.colors[me], o, t);
        lemma_clear_back(v.colors[other], victim);
        lemma_ep_pawns_back(v.pieces[PAWN_IDX as int], o, t, victim);
        assert(u.colors =~= v.colors);
        assert(u.pieces =~= v.pieces);
    } else {
        lemma_normal_back(v, m);
    }
}

proof fn lemma_same_find(a: Seq<u64>, b: Seq<u64>, t: int)
    requires
        a.len() == 6,
        b.len() == 6,
        0 <= t < 64,
        forall|i: int| 0 <= i < 6 ==> bit(a[i], t as u64) == bit(b[i], t as u64),
    ensures
        find_piece_spec(a, single(t)) == find_piece_spec(b, single(t)),
{
    lemma_find_piece(a, t);
    lemma_find_piece(b, t);
    let (pa, pb) = (find_piece_spec(a, single(t)), find_piece_spec(b, single(t)));
    if pa != Piece::NoPiece && pb != Piece::NoPiece {
        let (ca, cb) = (pa.code() - 1, pb.code() - 1);
        assert(ca == cb);
        pa.lemma_code_roundtrip();
        pb.lemma_code_roundtrip();
    }
}

proof fn lemma_normal_back(v: BoardView, m: MoveView)
    requires
        v.well_sized(),
        v.ply + 1 < MAX_NUM_MOVES,
        v.restorable(m),
        !m.flag.spec_is_castle(),
        m.flag != Flag::EnPassant,
    ensures
        v.make(m).unmake(m).same_position(v),
{
    broadcast use group_bits;

    let w = v.make(m);
    let u = w.unmake(m);
    let me = v.side();
    let other = 1 - me;
    let (o, t) = (m.orig, m.targ);
    let (ou, tu) = (o as u64, t as u64);
    let pcs = v.pieces;
    lemma_find_piece(pcs, o);
    let from = find_piece_spec(pcs, single(o)).code() - 1;
    let p1 = pcs.update(from, pcs[from] & !single(o));
    let to = if m.flag.spec_is_promotion() { promotion_index(m.flag) } else { from };
    assert forall|i: int| 0 <= i < 6 implies bit(p1[i], tu) == bit(pcs[i], tu) by {}
    lemma_same_find(p1, pcs, t);
    let cap = find_piece_spec(p1, single(t));
    lemma_find_piece(pcs, t);
    let p2 = if cap != Piece::NoPiece { p1.update(cap.code() - 1, p1[cap.code() - 1] & !single(t)) } else { p1 };
    let p3 = p2.update(to, p2[to] | single(t));
    assert(w.pieces == p3);
    // the target is now in the set `to` only
    assert forall|i: int| 0 <= i < 6 implies bit(p3[i], tu) == (i == to) by {
        if cap != Piece::NoPiece {
            let c = cap.code() - 1;
            if i != c && i != to {
                assert(!(bit(pcs[c], tu) && bit(pcs[i], tu)) || c == i);
                if i < c {
                    assert(!bit(pcs[i], tu));
                } else if c < i {
                    assert(!(bit(pcs[c], tu) && bit(pcs[i], tu)));
                }
            }
        }
    }
    lemma_find_piece(p3, t);
    assert(bit(p3[to], tu));
    let at = find_piece_spec(p3, single(t)).code() - 1;
    assert(bit(p3[at], tu));
    assert(at == to);
    // the flags record the capture
    let (dwk, dwq, dbk, dbq) = v.disabled_rights(m);
    let is_pawn_move = v.pieces[PAWN_IDX as int] & single(o) != 0;
    lemma_next_word_capture(v.flags(), m.flag.spec_is_capture() && is_pawn_move, dwk, dwq, dbk, dbq, ep_after(m), cap, t);
    assert(w.flags() == next_word(v.flags(), m.flag.spec_is_capture() && is_pawn_move, dwk, dwq, dbk, dbq, ep_after(m), cap, t));
    // colours
    lemma_move_bit_back(v.colors[me], o, t);
    assert forall|i: u64| i < 64 implies bit(u.colors[other], i) == bit(v.colors[other], i) by {}
    lemma_bit_ext(u.colors[other], v.colors[other]);
    assert(u.colors =~= v.colors);
    // pieces
    assert forall|k: int| 0 <= k < 6 implies u.pieces[k] == pcs[k] by {
        assert forall|i: u64| i < 64 implies bit(u.pieces[k], i) == bit(pcs[k], i) by {
            if i == tu {
                if cap != Piece::NoPiece {
                    let c = cap.code() - 1;
                    if k != c {
                        assert(!(bit(pcs[c], tu) && bit(pcs[k], tu)) || c == k);
                        if k < c {
                            assert(!bit(pcs[k], tu));
                        }
                    }
                }
            }
        }
        lemma_bit_ext(u.pieces[k], pcs[k]);
    }
    assert(u.pieces =~= pcs);
}


/// A piece of kind `kind` (an index of the piece sets) on `o` attacks `t`, given the occupied squares `occ`.
pub open spec fn piece_attacks(kind: int, o: int, occ: u64, t: int) -> bool {
    if kind == KNIGHT_IDX {
        knight_attack(o, t)
    } else if kind == BISHOP_IDX {
        bishop_attacks(o, occ).contains(t)
    } else if kind == ROOK_IDX {
        rook_attacks(o, occ).contains(t)
    } else if kind == QUEEN_IDX {
        queen_attacks(o, occ).contains(t)
    } else {
        king_attack(o, t)
    }
}

/// The squares `i..64` for which `p` holds, in increasing order.
pub open spec fn squares_from(p: spec_fn(int) -> bool, i: int) -> Seq<int>
    decreases 64 - i,
{
    if i >= 64 {
        Seq::empty()
    } else if p(i) {
        seq![i] + squares_from(p, i + 1)
    } else {
        squares_from(p, i + 1)
    }
}

/// The squares of a word, in increasing order.
pub open spec fn squares_of(w: u64) -> Seq<int> {
    squares_from(|i: int| bit(w, i as u64), 0)
}

/// The moves `f` gives for each square of `os`, one square after the other.
pub open spec fn concat_map(os: Seq<int>, f: spec_fn(int) -> Seq<MoveView>) -> Seq<MoveView>
    decreases os.len(),
{
    if os.len() == 0 {
        Seq::empty()
    } else {
        f(os[0]) + concat_map(os.drop_first(), f)
    }
}

/// What a list of moves holds.
pub open spec fn view_moves(ms: Seq<Move>) -> Seq<MoveView> {
    ms.map_values(|m: Move| m@)
}

pub proof fn lemma_squares_skip(p: spec_fn(int) -> bool, i: int, j: int)
    requires
        0 <= i <= j <= 64,
        forall|k: int| i <= k < j ==> !#[trigger] p(k),
    ensures
        squares_from(p, i) == squares_from(p, j),
    decreases j - i,
{
    if i < j {
        lemma_squares_skip(p, i + 1, j);
    }
}

pub proof fn lemma_squares_ext(p: spec_fn(int) -> bool, q: spec_fn(int) -> bool, i: int)
    requires
        0 <= i <= 64,
        forall|k: int| i <= k < 64 ==> #[trigger] p(k) == q(k),
    ensures
        squares_from(p, i) == squares_from(q, i),
    decreases 64 - i,
{
    if i < 64 {
        lemma_squares_ext(p, q, i + 1);
    }
}

/// Every square of `squares_from(p, i)` is at least `i`, below 64 and satisfies `p`; they increase.
pub proof fn lemma_squares_members(p: spec_fn(int) -> bool, i: int)
    requires
        0 <= i <= 64,
    ensures
        forall|k: int| 0 <= k < squares_from(p, i).len() ==> i <= #[trigger] squares_from(p, i)[k] < 64
            && p(squares_from(p, i)[k]),
        forall|t: int| i <= t < 64 && #[trigger] p(t) ==> squares_from(p, i).contains(t),
    decreases 64 - i,
{
    if i < 64 {
        lemma_squares_members(p, i + 1);
        let r = squares_from(p, i + 1);
        if p(i) {
            assert forall|t: int| i <= t < 64 && #[trigger] p(t) implies squares_from(p, i).contains(t) by {
                if t == i {
                    assert(squares_from(p, i)[0] == i);
                } else {
                    let k = choose|k: int| 0 <= k < r.len() && r[k] == t;
                    assert(squares_from(p, i)[k + 1] == t);
                }
            }
        }
    }
}

/// The squares `squares_from` lists increase.
proof fn lemma_squares_increasing(p: spec_fn(int) -> bool, i: int)
    requires
        0 <= i <= 64,
    ensures
        forall|k: int, j: int| 0 <= k < j < squares_from(p, i).len() ==> #[trigger] squares_from(p, i)[k]
            < #[trigger] squares_from(p, i)[j],
    decreases 64 - i,
{
    if i < 64 {
        lemma_squares_increasing(p, i + 1);
        lemma_squares_members(p, i + 1);
        let r = squares_from(p, i + 1);
        if p(i) {
            let s = squares_from(p, i);
            assert(s == seq![i] + r);
            assert forall|k: int, j: int| 0 <= k < j < s.len() implies #[trigger] s[k] < #[trigger] s[j] by {
                if k == 0 {
                    assert(s[j] == r[j - 1]);
                } else {
                    assert(s[k] == r[k - 1] && s[j] == r[j - 1]);
                }
            }
        }
    }
}

/// Taking the squares out of a word lowest first, as `Bitboard::next_square` does until
/// it answers `None`, gives each set bit once, in increasing order: an empty word has no
/// squares; otherwise the first is the lowest set bit and the rest are those of the word
/// with that bit cleared.
pub proof fn lemma_squares_run(w: u64)
    ensures
        (w == 0) <==> squares_of(w).len() == 0,
        w != 0 ==> squares_of(w) == seq![lowest_bit(w)] + squares_of(w & ((w - 1) as u64)),
        forall|k: int, j: int| 0 <= k < j < squares_of(w).len() ==> #[trigger] squares_of(w)[k]
            < #[trigger] squares_of(w)[j],
        forall|t: int| 0 <= t < 64 ==> (squares_of(w).contains(t) <==> bit(w, t as u64)),
{
    let p = |i: int| bit(w, i as u64);
    lemma_squares_members(p, 0);
    lemma_squares_increasing(p, 0);
    crate::bits::lemma_zero_iff_no_bit(w);
    assert forall|t: int| 0 <= t < 64 implies (squares_of(w).contains(t) <==> bit(w, t as u64)) by {
        if squares_of(w).contains(t) {
            let k = choose|k: int| 0 <= k < squares_of(w).len() && squares_of(w)[k] == t;
            assert(p(squares_of(w)[k]));
        }
        if bit(w, t as u64) {
            assert(p(t));
        }
    }
    if w != 0 {
        lemma_squares_pop(w);
        lemma_lowest_bit(w);
    } else if squares_of(w).len() > 0 {
        assert(p(squares_of(w)[0]));
        assert(!bit(w, squares_of(w)[0] as u64));
    }
}

/// Taking the lowest square off a non-empty word: its squares are that square, then the rest.
pub proof fn lemma_squares_pop(w: u64)
    requires
        w != 0,
    ensures
        squares_of(w) == seq![lowest_bit(w)] + squares_of(w & ((w - 1) as u64)),
{
    lemma_lowest_bit(w);
    let low = lowest_bit(w);
    let r = w & ((w - 1) as u64);
    let pw = |i: int| bit(w, i as u64);
    let pr = |i: int| bit(r, i as u64);
    lemma_squares_skip(pw, 0, low);
    assert forall|k: int| 0 <= k < low + 1 implies !#[trigger] pr(k) by {
        assert(bit(r, k as u64) == (bit(w, k as u64) && k != low));
    }
    lemma_squares_skip(pr, 0, low + 1);
    assert forall|k: int| low + 1 <= k < 64 implies #[trigger] pr(k) == pw(k) by {
        assert(bit(r, k as u64) == (bit(w, k as u64) && k != low));
    }
    lemma_squares_ext(pr, pw, low + 1);
}

pub proof fn lemma_concat_map_cons(o: int, rest: Seq<int>, f: spec_fn(int) -> Seq<MoveView>)
    ensures
        concat_map(seq![o] + rest, f) == f(o) + concat_map(rest, f),
{
    assert((seq![o] + rest).drop_first() =~= rest);
}

/// The moves of two lists, one after the other.
pub broadcast proof fn lemma_view_moves_add(a: Seq<Move>, b: Seq<Move>)
    ensures
        #[trigger] view_moves(a + b) == view_moves(a) + view_moves(b),
{
    assert(view_moves(a + b) =~= view_moves(a) + view_moves(b));
}


impl BoardView {
    /// The index of the side to move among the colours.
    pub open spec fn side(self) -> int {
        if self.white_to_move { WHITE_IDX as int } else { BLACK_IDX as int }
    }

    pub open spec fn friend(self) -> u64 {
        self.colors[self.side()]
    }

    pub open spec fn enemy(self) -> u64 {
        self.colors[1 - self.side()]
    }

    /// The current flags.
    pub open spec fn flags(self) -> u32 {
        self.stack[self.ply]
    }

    pub open spec fn well_sized(self) -> bool {
        &&& self.colors.len() == 2
        &&& self.pieces.len() == 6
        &&& self.stack.len() == MAX_NUM_MOVES
        &&& 0 <= self.ply < MAX_NUM_MOVES
    }

    /// The same position: pieces, side to move, ply and current flags (what `==` compares).
    pub open spec fn same_position(self, other: BoardView) -> bool {
        &&& self.colors == other.colors
        &&& self.pieces == other.pieces
        &&& self.white_to_move == other.white_to_move
        &&& self.ply == other.ply
        &&& self.flags() == other.flags()
    }

    /// The castling rights `make` clears: all of the mover's for a king move or a
    /// castling, one of them for a move from a rook's home square.
    pub open spec fn disabled_rights(self, m: MoveView) -> (bool, bool, bool, bool) {
        let (short_rook, long_rook, king_home) = if self.white_to_move { (7int, 0int, 4int) } else { (63int, 56int, 60int) };
        let all = m.orig == king_home || m.flag.spec_is_castle();
        let kingside = m.orig == short_rook || all;
        let queenside = m.orig == long_rook || all;
        if self.white_to_move { (kingside, queenside, false, false) } else { (false, false, kingside, queenside) }
    }

    /// The board after making move `m`.
    pub open spec fn make(self, m: MoveView) -> BoardView {
        let me = self.side();
        let other = 1 - me;
        let (o, t) = (m.orig, m.targ);
        let is_pawn_move = self.pieces[PAWN_IDX as int] & single(o) != 0;
        let (colors, pieces, captured) = if m.flag.spec_is_castle() {
            let (orook, drook, oking, dking) = castle_squares(self.white_to_move, m.flag == Flag::ShortCastle);
            let c = self.colors.update(me, (self.colors[me] & !(single(oking) | single(orook))) | (single(dking) | single(drook)));
            let p = self.pieces.update(ROOK_IDX as int, move_bit(self.pieces[ROOK_IDX as int], orook, drook));
            let p = p.update(KING_IDX as int, move_bit(p[KING_IDX as int], oking, dking));
            (c, p, Piece::NoPiece)
        } else if m.flag == Flag::EnPassant {
            let victim = ep_victim(self.white_to_move, t);
            let c = self.colors.update(me, move_bit(self.colors[me], o, t));
            let c = c.update(other, c[other] & !victim);
            let p = self.pieces.update(PAWN_IDX as int, (self.pieces[PAWN_IDX as int] & !(single(o) | victim)) | single(t));
            (c, p, Piece::Pawn)
        } else {
            let c = self.colors.update(me, move_bit(self.colors[me], o, t));
            let c = c.update(other, c[other] & !single(t));
            let from = find_piece_spec(self.pieces, single(o)).code() - 1;
            let p = self.pieces.update(from, self.pieces[from] & !single(o));
            let to = if m.flag.spec_is_promotion() { promotion_index(m.flag) } else { from };
            let cap = find_piece_spec(p, single(t));
            let p = if cap != Piece::NoPiece { p.update(cap.code() - 1, p[cap.code() - 1] & !single(t)) } else { p };
            let p = p.update(to, p[to] | single(t));
            (c, p, cap)
        };
        let (dwk, dwq, dbk, dbq) = self.disabled_rights(m);
        let flags = next_word(self.flags(), m.flag.spec_is_capture() && is_pawn_move, dwk, dwq, dbk, dbq,
            ep_after(m), captured, t);
        BoardView {
            colors,
            pieces,
            white_to_move: !self.white_to_move,
            stack: self.stack.update(self.ply + 1, flags),
            ply: self.ply + 1,
        }
    }

    /// The board after taking back move `m`, which the side not to move made.
    pub open spec fn unmake(self, m: MoveView) -> BoardView {
        let me = 1 - self.side();
        let other = self.side();
        let (o, t) = (m.orig, m.targ);
        let (colors, pieces) = if m.flag.spec_is_castle() {
            let (orook, drook, oking, dking) = castle_squares(!self.white_to_move, m.flag == Flag::ShortCastle);
            let c = self.colors.update(me, (self.colors[me] & !(single(dking) | single(drook))) | (single(oking) | single(orook)));
            let p = self.pieces.update(ROOK_IDX as int, move_bit(self.pieces[ROOK_IDX as int], drook, orook));
            let p = p.update(KING_IDX as int, move_bit(p[KING_IDX as int], dking, oking));
            (c, p)
        } else if m.flag == Flag::EnPassant {
            let victim = ep_victim(!self.white_to_move, t);
            let c = self.colors.update(me, move_bit(self.colors[me], t, o));
            let c = c.update(other, c[other] | victim);
            let p = self.pieces.update(PAWN_IDX as int, (self.pieces[PAWN_IDX as int] | (single(o) | victim)) & !single(t));
            (c, p)
        } else {
            let c = self.colors.update(me, move_bit(self.colors[me], t, o));
            let c = c.update(other, c[other] & !single(o));
            let at = find_piece_spec(self.pieces, single(t)).code() - 1;
            let p = self.pieces.update(at, self.pieces[at] & !single(t));
            let back = if m.flag.spec_is_promotion() { PAWN_IDX as int } else { at };
            let p = p.update(back, p[back] | single(o));
            let f = self.flags();
            if captured_code(f) != 0 {
                let sq = single(captured_sq(f) as int);
                (c.update(other, c[other] | sq), p.update(captured_code(f) - 1, p[captured_code(f) - 1] | sq))
            } else {
                (c, p)
            }
        };
        BoardView {
            colors,
            pieces,
            white_to_move: !self.white_to_move,
            stack: self.stack,
            ply: self.ply - 1,
        }
    }

    /// Move `m` can be taken back: what `make` lifts and clears is what `unmake` puts back.
    /// For a castling the king and rook stand on their home squares and their targets are
    /// free of them; for en passant a friendly pawn goes from `orig` to a square free of
    /// pawns and friends, over an enemy pawn; otherwise a friendly piece goes from `orig`
    /// (a pawn if it promotes) to a square free of friends that at most one piece set
    /// holds, and that the enemy holds exactly when a piece set does.
    pub open spec fn restorable(self, m: MoveView) -> bool {
        let (o, t) = (m.orig, m.targ);
        let (f, e) = (self.friend(), self.enemy());
        let pawns = self.pieces[PAWN_IDX as int];
        if m.flag.spec_is_castle() {
            let (orook, drook, oking, dking) = castle_squares(self.white_to_move, m.flag == Flag::ShortCastle);
            &&& bit(f, oking as u64) && bit(f, orook as u64) && !bit(f, dking as u64) && !bit(f, drook as u64)
            &&& bit(self.pieces[KING_IDX as int], oking as u64) && !bit(self.pieces[KING_IDX as int], dking as u64)
            &&& bit(self.pieces[ROOK_IDX as int], orook as u64) && !bit(self.pieces[ROOK_IDX as int], drook as u64)
        } else if m.flag == Flag::EnPassant {
            let victim = ep_victim(self.white_to_move, t);
            &&& 0 <= o < 64 && 0 <= t < 64
            &&& bit(f, o as u64) && !bit(f, t as u64) && bit(pawns, o as u64) && !bit(pawns, t as u64)
            &&& victim & e == victim && victim & pawns == victim
        } else {
            &&& 0 <= o < 64 && 0 <= t < 64 && o != t
            &&& bit(f, o as u64) && !bit(f, t as u64) && !bit(e, o as u64)
            &&& find_piece_spec(self.pieces, single(o)) != Piece::NoPiece
            &&& m.flag.spec_is_promotion() ==> find_piece_spec(self.pieces, single(o)) == Piece::Pawn
            &&& forall|i: int, j: int| 0 <= i < j < 6 ==> !(bit(self.pieces[i], t as u64) && bit(self.pieces[j], t as u64))
            &&& (find_piece_spec(self.pieces, single(t)) != Piece::NoPiece) == bit(e, t as u64)
        }
    }

    /// The squares some piece set holds.
    pub open spec fn pieces_union(self) -> u64 {
        self.pieces[0] | self.pieces[1] | self.pieces[2] | self.pieces[3] | self.pieces[4] | self.pieces[5]
    }

    /// The board is consistent: the colours are disjoint, so are the piece sets, the
    /// piece sets together hold exactly the occupied squares, and an en passant target
    /// is empty with an enemy pawn on the square behind it.
    pub open spec fn sane(self) -> bool {
        &&& self.well_sized()
        &&& self.colors[WHITE_IDX as int] & self.colors[BLACK_IDX as int] == 0
        &&& forall|i: int, j: int| 0 <= i < j < 6 ==> #[trigger] (self.pieces[i] & self.pieces[j]) == 0
        &&& self.pieces_union() == self.colors[WHITE_IDX as int] | self.colors[BLACK_IDX as int]
        &&& match ep_target_of(self.flags()) {
            Some(e) => {
                let victim = ep_victim(self.white_to_move, e);
                &&& !bit(self.occupied(), e as u64)
                &&& victim & self.enemy() == victim
                &&& victim & self.pieces[PAWN_IDX as int] == victim
            },
            None => true,
        }
    }

    /// The squares of both sides.
    pub open spec fn occupied(self) -> u64 {
        self.friend() | self.enemy()
    }

    /// The move from `o` to `t`, a capture when the enemy holds `t`.
    pub open spec fn quiet_or_capture(self, o: int, t: int) -> MoveView {
        MoveView { orig: o, targ: t, flag: if bit(self.enemy(), t as u64) { Flag::Capture } else { Flag::Quiet } }
    }

    /// The moves of the piece of kind `kind` on `o`: to each square it attacks that no friend holds.
    pub open spec fn piece_moves_from(self, kind: int, o: int) -> Seq<MoveView> {
        squares_from(|t: int| piece_attacks(kind, o, self.occupied(), t) && !bit(self.friend(), t as u64), 0).map_values(
            |t: int| self.quiet_or_capture(o, t),
        )
    }

    /// The moves of all friendly pieces of kind `kind`, square by square.
    pub open spec fn piece_moves(self, kind: int) -> Seq<MoveView> {
        concat_map(squares_of(self.friend() & self.pieces[kind]), |o: int| self.piece_moves_from(kind, o))
    }

    /// The en passant target as a set.
    pub open spec fn ep_word(self) -> u64 {
        match ep_target_of(self.flags()) {
            Some(e) => single(e),
            None => 0,
        }
    }

    /// The flags of a pawn move from `p` to `t`: the four promotions on the last ranks,
    /// a double push from the second rank to the fourth (or seventh to fifth), a
    /// capture onto an enemy, en passant onto another file, and a quiet push otherwise.
    pub open spec fn pawn_flags(self, p: int, t: int) -> Seq<Flag> {
        if t / 8 == 0 || t / 8 == 7 {
            if bit(self.enemy(), t as u64) {
                seq![Flag::PromoteCaptureN, Flag::PromoteCaptureB, Flag::PromoteCaptureR, Flag::PromoteCaptureQ]
            } else {
                seq![Flag::PromoteN, Flag::PromoteB, Flag::PromoteR, Flag::PromoteQ]
            }
        } else if (self.white_to_move && t / 8 == 3 && p / 8 == 1) || (t / 8 == 4 && p / 8 == 6) {
            seq![Flag::DoublePush]
        } else if bit(self.enemy(), t as u64) {
            seq![Flag::Capture]
        } else if p % 8 != t % 8 {
            seq![Flag::EnPassant]
        } else {
            seq![Flag::Quiet]
        }
    }

    /// The moves of the pawn on `p`: each square it reaches, with each of its flags.
    pub open spec fn pawn_moves_from(self, p: int) -> Seq<MoveView> {
        concat_map(
            squares_from(|t: int| pawn_reach(p, self.white_to_move, self.friend(), self.enemy(), self.ep_word(), t), 0),
            |t: int| self.pawn_flags(p, t).map_values(|f: Flag| MoveView { orig: p, targ: t, flag: f }),
        )
    }

    pub open spec fn pawn_moves(self) -> Seq<MoveView> {
        concat_map(squares_of(self.friend() & self.pieces[PAWN_IDX as int]), |p: int| self.pawn_moves_from(p))
    }

    /// The same board with the other side to move.
    pub open spec fn flipped(self) -> BoardView {
        BoardView { colors: self.colors, pieces: self.pieces, white_to_move: !self.white_to_move, stack: self.stack, ply: self.ply }
    }

    /// The squares the pieces of the side to move attack or can go to: the targets of their moves.
    pub open spec fn attack_targets(self) -> Set<int> {
        Set::new(|t: int| 0 <= t < 64 && exists|i: int| 0 <= i < self.piece_moves_all().len() && #[trigger] self.piece_moves_all()[i].targ == t)
    }

    /// The king of the side to move stands on a square the other side attacks.
    pub open spec fn checked(self) -> bool {
        exists|t: int| #[trigger] self.flipped().attack_targets().contains(t) && bit(self.pieces[KING_IDX as int] & self.friend(), t as u64)
    }

    /// The side to move may castle on the given side: it keeps the right, the squares
    /// between king and rook are empty, king and rook stand at home, and it is not in check.
    pub open spec fn castle_ok(self, short: bool) -> bool {
        let f = self.flags();
        let right = if self.white_to_move {
            if short { castle_wk(f) } else { castle_wq(f) }
        } else {
            if short { castle_bk(f) } else { castle_bq(f) }
        };
        let (mask, rook, king) = castle_masks(self.white_to_move, short);
        &&& right
        &&& self.occupied() & mask == 0
        &&& king & self.friend() & self.pieces[KING_IDX as int] != 0
        &&& rook & self.friend() & self.pieces[ROOK_IDX as int] != 0
        &&& !self.checked()
    }

    /// The moves the board lists: those of the pieces, then the castlings it may make.
    #[verifier::opaque]
    pub open spec fn pseudo_moves(self) -> Seq<MoveView> {
        self.piece_moves_all() + (if self.castle_ok(true) {
            seq![MoveView { orig: 0, targ: 0, flag: Flag::ShortCastle }]
        } else {
            Seq::empty()
        }) + (if self.castle_ok(false) {
            seq![MoveView { orig: 0, targ: 0, flag: Flag::LongCastle }]
        } else {
            Seq::empty()
        })
    }

    /// Move `m` can be made on this board: the history has room for it, a move other than
    /// castling or en passant starts on a piece, a double push starts on the second or
    /// seventh rank, and the half-move clock can advance unless a pawn capture resets it.
    pub open spec fn makeable(self, m: MoveView) -> bool {
        &&& self.ply + 1 < MAX_NUM_MOVES
        &&& !m.flag.spec_is_castle() && m.flag != Flag::EnPassant ==> find_piece_spec(self.pieces, single(m.orig)) != Piece::NoPiece
        &&& m.flag == Flag::DoublePush ==> (m.orig / 8 == 1 || m.orig / 8 == 6)
        &&& self.flags() < u32::MAX || (m.flag.spec_is_capture() && self.pieces[PAWN_IDX as int] & single(m.orig) != 0)
    }

    /// The squares a move must leave unattacked: the mover's king, and for a castling
    /// the squares the king passes over.
    pub open spec fn king_zone(self, m: MoveView) -> u64 {
        let w = self.make(m);
        let mask = if m.flag == Flag::ShortCastle {
            if self.white_to_move { 0x60u64 } else { 0x6000_0000_0000_0000u64 }
        } else if m.flag == Flag::LongCastle {
            if self.white_to_move { 0x0cu64 } else { 0x0c00_0000_0000_0000u64 }
        } else {
            0u64
        };
        (w.pieces[KING_IDX as int] & w.enemy()) | mask
    }

    /// Move `m` is legal: after it, the other side attacks no square of its king zone.
    pub open spec fn is_legal(self, m: MoveView) -> bool {
        forall|t: int| #[trigger] self.make(m).attack_targets().contains(t) ==> !bit(self.king_zone(m), t as u64)
    }

    /// The board after trying the first `k` moves of `ms` one after the other: each made, then taken back.
    pub open spec fn scan_state(self, ms: Seq<MoveView>, k: int) -> BoardView
        decreases k,
    {
        if k <= 0 {
            self
        } else {
            let u = self.scan_state(ms, k - 1);
            u.make(ms[k - 1]).unmake(ms[k - 1])
        }
    }

    /// The moves among the first `k` of `ms` found legal, each on the board it was tried on.
    pub open spec fn scan_legal(self, ms: Seq<MoveView>, k: int) -> Seq<MoveView>
        decreases k,
    {
        if k <= 0 {
            Seq::empty()
        } else {
            let acc = self.scan_legal(ms, k - 1);
            if self.scan_state(ms, k - 1).is_legal(ms[k - 1]) {
                acc.push(ms[k - 1])
            } else {
                acc
            }
        }
    }

    /// Every move of `ms` can be made on the board it is tried on.
    #[verifier::opaque]
    pub open spec fn scan_ok(self, ms: Seq<MoveView>) -> bool {
        forall|k: int| 0 <= k < ms.len() ==> #[trigger] self.scan_state(ms, k).makeable(ms[k])
    }

    /// The legal moves, in the order the board lists its moves.
    #[verifier::opaque]
    pub open spec fn legal_list(self) -> Seq<MoveView> {
        self.scan_legal(self.pseudo_moves(), self.pseudo_moves().len() as int)
    }

    /// The board once all its moves have been tried.
    #[verifier::opaque]
    pub open spec fn after_scan(self) -> BoardView {
        self.scan_state(self.pseudo_moves(), self.pseudo_moves().len() as int)
    }

    /// The flag a move from `o` to `t` written as `s` gets: en passant for a pawn onto the
    /// en passant target; the promotion named by a fifth character; a double push for a
    /// pawn's two-rank step from the second or seventh rank; a castling for a king from the e-file to
    /// the g- or c-file; a capture onto the colour other than the origin's; a quiet move otherwise.
    pub open spec fn text_flag(self, s: Seq<char>, o: int, t: int) -> Option<Flag> {
        let orig_white = bit(self.colors[WHITE_IDX as int], o as u64);
        let is_capture = bit(self.colors[if orig_white { BLACK_IDX as int } else { WHITE_IDX as int }], t as u64);
        let piece = find_piece_spec(self.pieces, single(o));
        if piece == Piece::Pawn && ep_target_of(self.flags()) == Some(t) {
            Some(Flag::EnPassant)
        } else if s.len() == 5 {
            promotion_flag(s[4], is_capture)
        } else if piece == Piece::Pawn && ((o / 8 == 1 && t / 8 == 3) || (o / 8 == 6 && t / 8 == 4)) {
            Some(Flag::DoublePush)
        } else if piece == Piece::King && o % 8 == 4 && (t % 8 == 6 || t % 8 == 2) {
            Some(if t % 8 == 6 { Flag::ShortCastle } else { Flag::LongCastle })
        } else if is_capture {
            Some(Flag::Capture)
        } else {
            Some(Flag::Quiet)
        }
    }

    /// The move written as `s` (origin, target and an optional promotion letter), or
    /// `None` if either square name is not one.
    pub open spec fn text_move(self, s: Seq<char>) -> Option<MoveView> {
        let o = square_named(s, 0);
        let t = square_named(s, 2);
        if o is None || t is None {
            None
        } else {
            match self.text_flag(s, o.unwrap(), t.unwrap()) {
                Some(f) => Some(MoveView { orig: o.unwrap(), targ: t.unwrap(), flag: f }),
                None => None,
            }
        }
    }

    /// `get_move_from_algebraic` has no answer for `s`: its UTF-8 form is not four or five
    /// bytes long; or no character starts at byte two; or the first two characters name a
    /// square but no character starts at byte four; or both squares are named but a fifth
    /// character is no promotion letter.
    pub open spec fn text_unreadable(self, s: Seq<char>) -> bool {
        ||| !(byte_len(s) == 4 || byte_len(s) == 5)
        ||| !two_bytes_on(s, 0)
        ||| (square_named(s, 0) is Some && !two_bytes_on(s, 2))
        ||| (square_named(s, 0) is Some && square_named(s, 2) is Some && self.text_move(s) is None)
    }

    /// The moves of all pieces but the castlings: pawns, knights, bishops, rooks, queens, king.
    pub open spec fn piece_moves_all(self) -> Seq<MoveView> {
        self.pawn_moves() + self.piece_moves(KNIGHT_IDX as int) + self.piece_moves(BISHOP_IDX as int) + self.piece_moves(
            ROOK_IDX as int,
        ) + self.piece_moves(QUEEN_IDX as int) + self.piece_moves(KING_IDX as int)
    }
}

} // verus!
