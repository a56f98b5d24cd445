//! Reading a position in Forsyth-Edwards Notation.
use vstd::prelude::*;
use crate::bits::single;
use crate::board::Board;
use crate::board::model::MAX_NUM_MOVES;
use crate::text::{chars_of, string_of};
use crate::types::bitboard::Bitboard;
use crate::types::piece::Piece;
use crate::types::square::{Square, algebraic_index, opt_index};
use crate::types::state_metadata::{BoardStateFlags, pack_fields};

verus! {

/// A character Unicode counts as white space, which separates the fields of a FEN.
pub open spec fn is_ws(c: char) -> bool {
    ||| c == ' '
    ||| '\t' <= c <= '\r'
    ||| c == '\u{85}'
    ||| c == '\u{a0}'
    ||| c == '\u{1680}'
    ||| '\u{2000}' <= c <= '\u{200a}'
    ||| c == '\u{2028}'
    ||| c == '\u{2029}'
    ||| c == '\u{202f}'
    ||| c == '\u{205f}'
    ||| c == '\u{3000}'
}

/// The maximal runs of non-space characters of `s`, in order.
pub open spec fn split_ws(s: Seq<char>) -> Seq<Seq<char>>
    decreases s.len(),
{
    if s.len() == 0 {
        Seq::empty()
    } else {
        let init = split_ws(s.drop_last());
        let c = s.last();
        if is_ws(c) {
            init
        } else if s.len() >= 2 && !is_ws(s[s.len() - 2]) {
            init.drop_last().push(init.last().push(c))
        } else {
            init.push(seq![c])
        }
    }
}

/// The number the decimal digits `ds` write.
pub open spec fn digits_value(ds: Seq<char>) -> int
    decreases ds.len(),
{
    if ds.len() == 0 {
        0
    } else {
        digits_value(ds.drop_last()) * 10 + (ds.last() as int - 48)
    }
}

pub open spec fn all_digits(ds: Seq<char>) -> bool {
    forall|i: int| 0 <= i < ds.len() ==> '0' <= #[trigger] ds[i] <= '9'
}

/// An unsigned number of at most `max`, written as decimal digits after an optional `+`.
pub open spec fn parse_unsigned(s: Seq<char>, max: int) -> Option<int> {
    let ds = if s.len() > 0 && s[0] == '+' { s.drop_first() } else { s };
    if ds.len() == 0 || !all_digits(ds) || digits_value(ds) > max {
        None
    } else {
        Some(digits_value(ds))
    }
}

/// Splits `cs` at white space.
pub fn split_whitespace(cs: &Vec<char>) -> (toks: Vec<Vec<char>>)
    ensures
        toks@.map_values(|t: Vec<char>| t@) == split_ws(cs@),
        forall|i: int| 0 <= i < toks@.len() ==> #[trigger] toks@[i]@.len() > 0,
{
    let mut toks: Vec<Vec<char>> = Vec::new();
    let mut cur: Vec<char> = Vec::new();
    let mut i: usize = 0;
    while i < cs.len()
        invariant
            i <= cs.len(),
            split_ws(cs@.take(i as int)) == toks@.map_values(|t: Vec<char>| t@) + (if cur@.len() > 0 {
                seq![cur@]
            } else {
                Seq::empty()
            }),
            cur@.len() > 0 <==> (i > 0 && !is_ws(cs@[i - 1])),
            forall|k: int| 0 <= k < toks@.len() ==> #[trigger] toks@[k]@.len() > 0,
        decreases cs.len() - i,
    {
        let c = cs[i];
        let ghost pre_toks = toks@.map_values(|t: Vec<char>| t@);
        let ghost pre_cur = cur@;
        proof {
            assert(cs@.take(i + 1).drop_last() =~= cs@.take(i as int));
            assert(cs@.take(i + 1).last() == c);
            if i > 0 {
                assert(cs@.take(i + 1)[i - 1] == cs@[i - 1]);
            }
        }
        if is_space(c) {
            if cur.len() > 0 {
                let done = cur;
                cur = Vec::new();
                toks.push(done);
                proof {
                    assert(toks@.map_values(|t: Vec<char>| t@) =~= pre_toks.push(pre_cur));
                    assert(pre_toks + seq![pre_cur] =~= pre_toks.push(pre_cur));
                }
            }
        } else {
            cur.push(c);
            proof {
                if pre_cur.len() > 0 {
                    let init = pre_toks + seq![pre_cur];
                    assert(init.drop_last() =~= pre_toks);
                    assert(init.last() == pre_cur);
                } else {
                    assert(pre_toks + Seq::<Seq<char>>::empty() =~= pre_toks);
                    assert(pre_cur.push(c) =~= seq![c]);
                }
                assert(pre_toks.push(cur@) =~= pre_toks + seq![cur@]);
            }
        }
        i += 1;
        proof {
            assert(toks@.map_values(|t: Vec<char>| t@) + (if cur@.len() > 0 { seq![cur@] } else { Seq::empty() })
                =~= split_ws(cs@.take(i as int)));
        }
    }
    let ghost before = toks@.map_values(|t: Vec<char>| t@);
    let ghost last = cur@;
    if cur.len() > 0 {
        toks.push(cur);
        proof {
            assert(toks@.map_values(|t: Vec<char>| t@) =~= before + seq![last]);
        }
    } else {
        proof {
            assert(toks@.map_values(|t: Vec<char>| t@) =~= before + Seq::empty());
        }
    }
    proof {
        assert(cs@.take(cs@.len() as int) =~= cs@);
    }
    toks
}

/// `c` is white space.
pub fn is_space(c: char) -> (r: bool)
    ensures
        r == is_ws(c),
{
    c == ' ' || ('\t' <= c && c <= '\r') || c == '\u{85}' || c == '\u{a0}' || c == '\u{1680}' || ('\u{2000}' <= c && c
        <= '\u{200a}') || c == '\u{2028}' || c == '\u{2029}' || c == '\u{202f}' || c == '\u{205f}' || c == '\u{3000}'
}

/// Reads an unsigned number of at most `max`, as `str::parse` reads an unsigned integer type.
pub fn parse_number(cs: &Vec<char>, max: u64) -> (r: Option<u64>)
    ensures
        parse_unsigned(cs@, max as int) is None <==> r is None,
        r matches Some(v) ==> parse_unsigned(cs@, max as int) == Some(v as int),
{
    let start: usize = if cs.len() > 0 && cs[0] == '+' { 1 } else { 0 };
    let ghost ds = if cs@.len() > 0 && cs@[0] == '+' { cs@.drop_first() } else { cs@ };
    proof {
        assert(ds =~= cs@.skip(start as int));
    }
    if start == cs.len() {
        return None;
    }
    let mut acc: u128 = 0;
    let mut i: usize = start;
    while i < cs.len()
        invariant
            start <= i <= cs.len(),
            ds =~= cs@.skip(start as int),
            ds == (if cs@.len() > 0 && cs@[0] == '+' { cs@.drop_first() } else { cs@ }),
            all_digits(cs@.subrange(start as int, i as int)),
            acc as int == if digits_value(cs@.subrange(start as int, i as int)) > max { max + 1 } else {
                digits_value(cs@.subrange(start as int, i as int))
            },
        decreases cs.len() - i,
    {
        let c = cs[i];
        if c < '0' || c > '9' {
            proof {
                assert(ds[i - start] == c);
                assert(!all_digits(ds));
            }
            return None;
        }
        let d = (c as u32 - 48) as u128;
        let ghost prev = cs@.subrange(start as int, i as int);
        proof {
            let next = cs@.subrange(start as int, i + 1);
            assert(next.drop_last() =~= prev);
            assert(next.last() == c);
            assert(digits_value(next) == digits_value(prev) * 10 + d);
            assert(digits_value(prev) >= 0) by {
                lemma_digits_nonneg(prev);
            }
        }
        acc = acc * 10 + d;
        if acc > max as u128 + 1 {
            acc = max as u128 + 1;
        }
        i += 1;
    }
    proof {
        assert(cs@.subrange(start as int, cs@.len() as int) =~= ds);
    }
    if acc > max as u128 {
        None
    } else {
        Some(acc as u64)
    }
}

/// A number written in digits is never negative.
pub proof fn lemma_digits_nonneg(ds: Seq<char>)
    requires
        all_digits(ds),
    ensures
        digits_value(ds) >= 0,
    decreases ds.len(),
{
    if ds.len() > 0 {
        assert(all_digits(ds.drop_last())) by {
            assert forall|i: int| 0 <= i < ds.drop_last().len() implies '0' <= #[trigger] ds.drop_last()[i] <= '9' by {
                assert(ds.drop_last()[i] == ds[i]);
            }
        }
        lemma_digits_nonneg(ds.drop_last());
        assert('0' <= ds[ds.len() - 1]);
    }
}

/// What reading the piece placement has found so far.
pub struct PlaceView {
    /// The rows passed, counted from the eighth rank down.
    pub row: int,
    pub file: int,
    pub colors: Seq<u64>,
    pub pieces: Seq<u64>,
    /// 0 while reading, 1 after a character that names no piece, 2 at a square off the board.
    pub status: int,
}

/// The colour (0 for white) and piece set (pawns first) a FEN letter names.
pub open spec fn fen_piece(c: char) -> Option<(int, int)> {
    if c == 'P' { Some((0int, 0int)) }
    else if c == 'N' { Some((0int, 1int)) }
    else if c == 'B' { Some((0int, 2int)) }
    else if c == 'R' { Some((0int, 3int)) }
    else if c == 'Q' { Some((0int, 4int)) }
    else if c == 'K' { Some((0int, 5int)) }
    else if c == 'p' { Some((1int, 0int)) }
    else if c == 'n' { Some((1int, 1int)) }
    else if c == 'b' { Some((1int, 2int)) }
    else if c == 'r' { Some((1int, 3int)) }
    else if c == 'q' { Some((1int, 4int)) }
    else if c == 'k' { Some((1int, 5int)) }
    else { None }
}

pub open spec fn place_start() -> PlaceView {
    PlaceView { row: 0, file: 0, colors: seq![0u64, 0u64], pieces: seq![0u64, 0u64, 0u64, 0u64, 0u64, 0u64], status: 0 }
}

/// One character of the placement: `/` starts the next row; any other character
/// stands on the current square, which must be on the board (the row number taken
/// modulo 256); a digit skips that many files, a piece letter puts the piece there.
pub open spec fn place_step(st: PlaceView, c: char) -> PlaceView {
    if st.status != 0 {
        st
    } else if c == '/' {
        PlaceView { row: st.row + 1, file: 0, colors: st.colors, pieces: st.pieces, status: 0 }
    } else if st.row % 256 > 7 || st.file >= 8 {
        PlaceView { row: st.row, file: st.file, colors: st.colors, pieces: st.pieces, status: 2 }
    } else if '1' <= c <= '8' {
        PlaceView { row: st.row, file: st.file + (c as int - 48), colors: st.colors, pieces: st.pieces, status: 0 }
    } else {
        match fen_piece(c) {
            None => PlaceView { row: st.row, file: st.file, colors: st.colors, pieces: st.pieces, status: 1 },
            Some((color, kind)) => {
                let sq = single((7 - st.row % 256) * 8 + st.file);
                PlaceView {
                    row: st.row,
                    file: st.file + 1,
                    colors: st.colors.update(color, st.colors[color] | sq),
                    pieces: st.pieces.update(kind, st.pieces[kind] | sq),
                    status: 0,
                }
            },
        }
    }
}

pub open spec fn place_fold(cs: Seq<char>) -> PlaceView
    decreases cs.len(),
{
    if cs.len() == 0 {
        place_start()
    } else {
        place_step(place_fold(cs.drop_last()), cs.last())
    }
}

/// The castling field holds only `K`, `Q`, `k`, `q` and `-`.
pub open spec fn castling_chars_ok(cs: Seq<char>) -> bool {
    forall|i: int| 0 <= i < cs.len() ==> (#[trigger] cs[i] == 'K' || cs[i] == 'Q' || cs[i] == 'k' || cs[i] == 'q' || cs[i] == '-')
}

/// What a FEN describes: the piece sets, the side to move, the flags and the ply.
pub struct FenFields {
    pub colors: Seq<u64>,
    pub pieces: Seq<u64>,
    pub white: bool,
    pub flags: u32,
    pub ply: int,
}

/// What reading a FEN gives: a position, a refusal with its reason, or neither (the
/// reader has no answer for it: a square off the board, a move number that is no
/// `u16` or is 0, or a ply or half-move clock too large for the board to hold).
pub enum FenOutcome {
    Parsed(FenFields),
    Invalid(Seq<char>),
    Stuck,
}

/// Reading a FEN: six fields separated by white space (or four, the clocks then being
/// 0 and 1), checked in order: placement, side, castling, en passant target, half-move clock.
pub open spec fn fen_outcome(s: Seq<char>) -> FenOutcome {
    let toks = split_ws(s);
    if toks.len() != 4 && toks.len() != 6 {
        FenOutcome::Invalid("Invalid FEN length."@)
    } else {
        let half_tok = if toks.len() == 4 { seq!['0'] } else { toks[4] };
        let full_tok = if toks.len() == 4 { seq!['1'] } else { toks[5] };
        let place = place_fold(toks[0]);
        let side = toks[1][0];
        let castling = toks[2];
        let ep_tok = toks[3];
        let ep = if ep_tok == seq!['-'] { None } else { algebraic_index(ep_tok) };
        if place.status == 2 {
            FenOutcome::Stuck
        } else if place.status == 1 {
            FenOutcome::Invalid("Invalid piece character."@)
        } else if side != 'w' && side != 'b' {
            FenOutcome::Invalid("Invalid side to move."@)
        } else if !castling_chars_ok(castling) {
            FenOutcome::Invalid("Invalid castling validity."@)
        } else if ep_tok != seq!['-'] && ep is None {
            FenOutcome::Invalid("Invalid en passant target."@)
        } else if parse_unsigned(half_tok, u32::MAX as int) is None {
            FenOutcome::Invalid("Invalid half move."@)
        } else if parse_unsigned(full_tok, u16::MAX as int) is None {
            FenOutcome::Stuck
        } else {
            let half = parse_unsigned(half_tok, u32::MAX as int).unwrap();
            let full = parse_unsigned(full_tok, u16::MAX as int).unwrap();
            let white = side == 'w';
            let ply = (full - 1) * 2 + (if white { 0int } else { 1int });
            let base = pack_fields(castling.contains('K'), castling.contains('Q'), castling.contains('k'),
                castling.contains('q'), ep, Piece::NoPiece, 0);
            if full == 0 || (full - 1) * 2 > u16::MAX || ply >= MAX_NUM_MOVES || base + half > u32::MAX {
                FenOutcome::Stuck
            } else {
                FenOutcome::Parsed(FenFields { colors: place.colors, pieces: place.pieces, white, flags: (base + half) as u32, ply })
            }
        }
    }
}

/// A FEN of four fields reads as the same FEN with the half-move clock `0` and the
/// move number `1` written after it.
pub proof fn lemma_fen_four_fields(s: Seq<char>)
    requires
        split_ws(s).len() == 4,
    ensures
        fen_outcome(s) == fen_outcome(s + seq![' ', '0', ' ', '1']),
{
    let s1 = s.push(' ');
    let s2 = s1.push('0');
    let s3 = s2.push(' ');
    let s4 = s3.push('1');
    assert(s4 =~= s + seq![' ', '0', ' ', '1']);
    assert(s1.drop_last() =~= s);
    assert(s2.drop_last() =~= s1);
    assert(s3.drop_last() =~= s2);
    assert(s4.drop_last() =~= s3);
    assert(split_ws(s1) == split_ws(s));
    assert(split_ws(s2) == split_ws(s).push(seq!['0']));
    assert(split_ws(s3) == split_ws(s2));
    assert(split_ws(s4) == split_ws(s2).push(seq!['1']));
    let t4 = split_ws(s);
    let t6 = split_ws(s4);
    assert(t6.len() == 6);
    assert(t6[0] == t4[0] && t6[1] == t4[1] && t6[2] == t4[2] && t6[3] == t4[3]);
    assert(t6[4] == seq!['0'] && t6[5] == seq!['1']);
}

/// Reads the piece placement field: the colour and piece sets, and the status of `place_fold`.
fn read_placement(cs: &Vec<char>) -> (r: ([Bitboard; 2], [Bitboard; 6], u8))
    ensures
        r.2 as int == place_fold(cs@).status,
        r.0@.map_values(|b: Bitboard| b.0) == place_fold(cs@).colors,
        r.1@.map_values(|b: Bitboard| b.0) == place_fold(cs@).pieces,
{
    let mut colors = [Bitboard::EMPTY(), Bitboard::EMPTY()];
    let mut pieces = [Bitboard::EMPTY(), Bitboard::EMPTY(), Bitboard::EMPTY(), Bitboard::EMPTY(), Bitboard::EMPTY(), Bitboard::EMPTY()];
    let mut row: usize = 0;
    let mut file: u8 = 0;
    let mut i: usize = 0;
    proof {
        assert(colors@.map_values(|b: Bitboard| b.0) =~= place_start().colors);
        assert(pieces@.map_values(|b: Bitboard| b.0) =~= place_start().pieces);
        assert(cs@.take(0) =~= Seq::<char>::empty());
    }
    while i < cs.len()
        invariant
            i <= cs.len(),
            row <= i,
            file <= 15,
            place_fold(cs@.take(i as int)) == (PlaceView {
                row: row as int,
                file: file as int,
                colors: colors@.map_values(|b: Bitboard| b.0),
                pieces: pieces@.map_values(|b: Bitboard| b.0),
                status: 0,
            }),
        decreases cs.len() - i,
    {
        let c = cs[i];
        let ghost st = place_fold(cs@.take(i as int));
        proof {
            assert(cs@.take(i + 1).drop_last() =~= cs@.take(i as int));
            assert(cs@.take(i + 1).last() == c);
            assert(place_fold(cs@.take(i + 1)) == place_step(st, c));
        }
        if c == '/' {
            row = row + 1;
            file = 0;
        } else {
            let r8 = (row % 256) as u8;
            if r8 > 7 || file >= 8 {
                proof {
                    lemma_prefix_status(cs@, i as int + 1);
                }
                return (colors, pieces, 2);
            }
            if '1' <= c && c <= '8' {
                file = file + (c as u32 - 48) as u8;
            } else {
                let (color, kind): (usize, usize) = if c == 'P' { (0, 0) }
                    else if c == 'N' { (0, 1) }
                    else if c == 'B' { (0, 2) }
                    else if c == 'R' { (0, 3) }
                    else if c == 'Q' { (0, 4) }
                    else if c == 'K' { (0, 5) }
                    else if c == 'p' { (1, 0) }
                    else if c == 'n' { (1, 1) }
                    else if c == 'b' { (1, 2) }
                    else if c == 'r' { (1, 3) }
                    else if c == 'q' { (1, 4) }
                    else if c == 'k' { (1, 5) }
                    else {
                        proof {
                            lemma_prefix_status(cs@, i as int + 1);
                        }
                        return (colors, pieces, 1);
                    };
                let sq = Square::new_unchecked((7 - r8) * 8 + file);
                let sq_bb = sq.bb();
                colors[color] = colors[color].bitor(sq_bb);
                pieces[kind] = pieces[kind].bitor(sq_bb);
                file = file + 1;
                proof {
                    assert(colors@.map_values(|b: Bitboard| b.0) =~= st.colors.update(color as int, st.colors[color as int] | sq_bb.0));
                    assert(pieces@.map_values(|b: Bitboard| b.0) =~= st.pieces.update(kind as int, st.pieces[kind as int] | sq_bb.0));
                }
            }
        }
        i += 1;
    }
    proof {
        assert(cs@.take(cs@.len() as int) =~= cs@);
    }
    (colors, pieces, 0)
}

/// A single digit reads as its value.
proof fn lemma_one_digit(c: char)
    requires
        '0' <= c <= '9',
    ensures
        parse_unsigned(seq![c], u16::MAX as int) == Some(c as int - 48),
        parse_unsigned(seq![c], u32::MAX as int) == Some(c as int - 48),
{
    assert(seq![c].drop_last() =~= Seq::<char>::empty());
    assert(digits_value(Seq::<char>::empty()) == 0);
    assert(seq![c].last() == c);
    assert(digits_value(seq![c]) == c as int - 48);
    assert(all_digits(seq![c]));
}

/// Once reading the placement stops, the rest of the field changes nothing.
proof fn lemma_prefix_status(cs: Seq<char>, k: int)
    requires
        0 <= k <= cs.len(),
        place_fold(cs.take(k)).status != 0,
    ensures
        place_fold(cs) == place_fold(cs.take(k)),
    decreases cs.len() - k,
{
    if k < cs.len() {
        assert(cs.take(k + 1).drop_last() =~= cs.take(k));
        lemma_prefix_status(cs, k + 1);
    } else {
        assert(cs.take(k) =~= cs);
    }
}

/// Reads the castling field: which of `K`, `Q`, `k`, `q` it holds, or `None` if it
/// holds any other character than these and `-`.
fn read_castling(castling: &Vec<char>) -> (r: Option<(bool, bool, bool, bool)>)
    ensures
        r is Some <==> castling_chars_ok(castling@),
        r matches Some(rights) ==> rights == (castling@.contains('K'), castling@.contains('Q'), castling@.contains('k'),
            castling@.contains('q')),
{
    let mut can_castle_wk = false;
    let mut can_castle_wq = false;
    let mut can_castle_bk = false;
    let mut can_castle_bq = false;
    let mut k: usize = 0;
    while k < castling.len()
        invariant
            k <= castling.len(),
            castling_chars_ok(castling@.take(k as int)),
            can_castle_wk == castling@.take(k as int).contains('K'),
            can_castle_wq == castling@.take(k as int).contains('Q'),
            can_castle_bk == castling@.take(k as int).contains('k'),
            can_castle_bq == castling@.take(k as int).contains('q'),
        decreases castling.len() - k,
    {
        let c = castling[k];
        let ghost pre = castling@.take(k as int);
        proof {
            assert(castling@.take(k + 1) =~= pre.push(c));
        }
        if c == 'K' {
            can_castle_wk = true;
        } else if c == 'Q' {
            can_castle_wq = true;
        } else if c == 'k' {
            can_castle_bk = true;
        } else if c == 'q' {
            can_castle_bq = true;
        } else if c != '-' {
            proof {
                assert(castling@[k as int] == c);
                assert(!castling_chars_ok(castling@));
            }
            return None;
        }
        k += 1;
        proof {
            let now = castling@.take(k as int);
            assert(now.contains('K') == (pre.contains('K') || c == 'K')) by {
                if c == 'K' { assert(now[k - 1] == c); }
                if pre.contains('K') { let j = choose|j: int| 0 <= j < pre.len() && pre[j] == 'K'; assert(now[j] == 'K'); }
            }
            assert(now.contains('Q') == (pre.contains('Q') || c == 'Q')) by {
                if c == 'Q' { assert(now[k - 1] == c); }
                if pre.contains('Q') { let j = choose|j: int| 0 <= j < pre.len() && pre[j] == 'Q'; assert(now[j] == 'Q'); }
            }
            assert(now.contains('k') == (pre.contains('k') || c == 'k')) by {
                if c == 'k' { assert(now[k - 1] == c); }
                if pre.contains('k') { let j = choose|j: int| 0 <= j < pre.len() && pre[j] == 'k'; assert(now[j] == 'k'); }
            }
            assert(now.contains('q') == (pre.contains('q') || c == 'q')) by {
                if c == 'q' { assert(now[k - 1] == c); }
                if pre.contains('q') { let j = choose|j: int| 0 <= j < pre.len() && pre[j] == 'q'; assert(now[j] == 'q'); }
            }
        }
    }
    proof {
        assert(castling@.take(castling@.len() as int) =~= castling@);
    }
    Some((can_castle_wk, can_castle_wq, can_castle_bk, can_castle_bq))
}

impl Board {
    /// Reads a FEN as `fen_outcome` describes: `Some(Ok(..))` with the position,
    /// `Some(Err(..))` with the reason it is refused, or `None` where the reader has no answer.
    pub fn read_fen(fen: &str) -> (r: Option<Result<Board, &'static str>>)
        ensures
            match fen_outcome(fen@) {
                FenOutcome::Stuck => r is None,
                FenOutcome::Invalid(msg) => r matches Some(Err(e)) && e@ == msg,
                FenOutcome::Parsed(f) => r matches Some(Ok(b)) && {
                    &&& b@.colors == f.colors
                    &&& b@.pieces == f.pieces
                    &&& b@.white_to_move == f.white
                    &&& b@.ply == f.ply
                    &&& b@.stack == Seq::new(MAX_NUM_MOVES as nat, |i: int| if i == f.ply { f.flags } else { 0u32 })
                },
            },
    {
        let cs = chars_of(fen);
        let toks = split_whitespace(&cs);
        let ghost ts = toks@.map_values(|t: Vec<char>| t@);
        proof {
            assert(ts == split_ws(fen@));
        }
        if toks.len() != 4 && toks.len() != 6 {
            return Some(Err("Invalid FEN length."));
        }
        proof {
            assert(ts[0] == toks@[0]@);
            assert(ts[1] == toks@[1]@);
            assert(ts[2] == toks@[2]@);
            assert(ts[3] == toks@[3]@);
            assert(toks@[1]@.len() > 0);
        }
        let (colors, pieces, status) = read_placement(&toks[0]);
        if status == 2 {
            return None;
        }
        if status == 1 {
            return Some(Err("Invalid piece character."));
        }
        let side = toks[1][0];
        let white_to_move = if side == 'w' {
            true
        } else if side == 'b' {
            false
        } else {
            return Some(Err("Invalid side to move."));
        };
        let (can_castle_wk, can_castle_wq, can_castle_bk, can_castle_bq) = match read_castling(&toks[2]) {
            Some(rights) => rights,
            None => {
                return Some(Err("Invalid castling validity."));
            },
        };
        let target = &toks[3];
        let en_passant_target = if target.len() == 1 && target[0] == '-' {
            proof {
                assert(target@ =~= seq!['-']);
            }
            None
        } else {
            let name = string_of(target);
            match Square::from_algebraic(name.as_str()) {
                Ok(v) => Some(v),
                Err(_) => {
                    return Some(Err("Invalid en passant target."));
                },
            }
        };
        let half_move_clock = if toks.len() == 4 {
            proof {
                lemma_one_digit('0');
            }
            0u32
        } else {
            proof {
                assert(ts[4] == toks@[4]@);
            }
            match parse_number(&toks[4], u32::MAX as u64) {
                Some(v) => v as u32,
                None => {
                    return Some(Err("Invalid half move."));
                },
            }
        };
        let full_moves = if toks.len() == 4 {
            proof {
                lemma_one_digit('1');
            }
            1u32
        } else {
            proof {
                assert(ts[5] == toks@[5]@);
            }
            match parse_number(&toks[5], 65535) {
                Some(v) => v as u32,
                None => {
                    return None;
                },
            }
        };
        proof {
            let full_tok = if ts.len() == 4 { seq!['1'] } else { ts[5] };
            let half_tok = if ts.len() == 4 { seq!['0'] } else { ts[4] };
            assert('1' as int == 49);
            assert('0' as int == 48);
            assert(parse_unsigned(full_tok, u16::MAX as int) == Some(full_moves as int));
            assert(parse_unsigned(half_tok, u32::MAX as int) == Some(half_move_clock as int));
            assert(opt_index(en_passant_target) == (if ts[3] == seq!['-'] { None } else { algebraic_index(ts[3]) }));
        }
        if full_moves == 0 || full_moves - 1 > 32767 {
            return None;
        }
        let total_ply: u16 = if white_to_move {
            ((full_moves - 1) * 2) as u16
        } else {
            ((full_moves - 1) * 2 + 1) as u16
        };
        if total_ply as usize >= MAX_NUM_MOVES {
            return None;
        }
        let base = BoardStateFlags::new(can_castle_wk, can_castle_wq, can_castle_bk, can_castle_bq, en_passant_target,
            Piece::NoPiece, Square::A1(), 0);
        if base.word() > u32::MAX - half_move_clock {
            return None;
        }
        let flags = BoardStateFlags::new(can_castle_wk, can_castle_wq, can_castle_bk, can_castle_bq, en_passant_target,
            Piece::NoPiece, Square::A1(), half_move_clock);
        proof {
            assert(opt_index(en_passant_target) == (if ts[3] == seq!['-'] { None } else { algebraic_index(ts[3]) }));
        }
        Some(Ok(Board::new(colors, pieces, white_to_move, flags, total_ply)))
    }

    /// The position a FEN describes, or the reason it is refused.
    pub fn from_fen(fen: &str) -> (r: Result<Board, &'static str>)
        requires
            !(fen_outcome(fen@) is Stuck),
        ensures
            match fen_outcome(fen@) {
                FenOutcome::Invalid(msg) => r matches Err(e) && e@ == msg,
                FenOutcome::Parsed(f) => r matches Ok(b) && {
                    &&& b@.colors == f.colors
                    &&& b@.pieces == f.pieces
                    &&& b@.white_to_move == f.white
                    &&& b@.ply == f.ply
                    &&& b@.stack == Seq::new(MAX_NUM_MOVES as nat, |i: int| if i == f.ply { f.flags } else { 0u32 })
                },
                FenOutcome::Stuck => false,
            },
    {
        match Board::read_fen(fen) {
            Some(r) => r,
            None => Err("Invalid FEN length."),
        }
    }
}


/// The castling rights of a position read from a FEN are those its castling field
/// writes: white kingside exactly when the field holds `K`, white queenside for `Q`,
/// black kingside for `k`, black queenside for `q` (the half-move clock, when written,
/// below 2048, the size of its field in the flags).
pub proof fn lemma_fen_castling(s: Seq<char>)
    requires
        fen_outcome(s) is Parsed,
        split_ws(s).len() == 4 || (parse_unsigned(split_ws(s)[4], u32::MAX as int) matches Some(h) && h < 2048),
    ensures
        ({
            let flags = fen_outcome(s)->Parsed_0.flags;
            let field = split_ws(s)[2];
            &&& crate::types::state_metadata::castle_wk(flags) == field.contains('K')
            &&& crate::types::state_metadata::castle_wq(flags) == field.contains('Q')
            &&& crate::types::state_metadata::castle_bk(flags) == field.contains('k')
            &&& crate::types::state_metadata::castle_bq(flags) == field.contains('q')
        }),
{
    let toks = split_ws(s);
    let half_tok = if toks.len() == 4 { seq!['0'] } else { toks[4] };
    let ep_tok = toks[3];
    let ep = if ep_tok == seq!['-'] { None } else { algebraic_index(ep_tok) };
    if ep is Some {
        assert(0 <= ep.unwrap() < 64);
    }
    if toks.len() == 4 {
        let z = seq!['0'];
        assert(z.len() == 1 && z[0] == '0');
        assert(!(z[0] == '+'));
        assert(all_digits(z));
        assert(z.drop_last() =~= Seq::<char>::empty());
        assert(z.last() == '0');
        assert(('0' as int) == 48);
        assert(digits_value(Seq::<char>::empty()) == 0);
        assert(digits_value(z) == digits_value(z.drop_last()) * 10 + (z.last() as int - 48));
        assert(digits_value(z) == 0);
    }
    let ds = if half_tok.len() > 0 && half_tok[0] == '+' { half_tok.drop_first() } else { half_tok };
    lemma_digits_nonneg(ds);
    let half = parse_unsigned(half_tok, u32::MAX as int).unwrap();
    assert(0 <= half < 2048);
    let castling = toks[2];
    crate::types::state_metadata::lemma_pack_fields_read_back(castling.contains('K'), castling.contains('Q'),
        castling.contains('k'), castling.contains('q'), ep, Piece::NoPiece, 0, half as u32);
}

} // verus!
