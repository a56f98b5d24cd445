//! Bit-level facts about `u64` words used as sets of the 64 squares.
use vstd::prelude::*;

verus! {

/// Bit `i` of `x` is set.
pub open spec fn bit(x: u64, i: u64) -> bool {
    (x >> i) & 1u64 == 1u64
}

/// The word with only bit `s` set.
pub open spec fn single(s: int) -> u64 {
    1u64 << (s as u64)
}

pub broadcast proof fn lemma_bit_and(a: u64, b: u64, i: u64)
    requires
        i < 64,
    ensures
        #[trigger] bit(a & b, i) == (bit(a, i) && bit(b, i)),
{
    assert(((a & b) >> i) & 1u64 == 1u64 <==> ((a >> i) & 1u64 == 1u64 && (b >> i) & 1u64 == 1u64))
        by (bit_vector);
}

pub broadcast proof fn lemma_bit_or(a: u64, b: u64, i: u64)
    requires
        i < 64,
    ensures
        #[trigger] bit(a | b, i) == (bit(a, i) || bit(b, i)),
{
    assert(((a | b) >> i) & 1u64 == 1u64 <==> ((a >> i) & 1u64 == 1u64 || (b >> i) & 1u64 == 1u64))
        by (bit_vector);
}

pub broadcast proof fn lemma_bit_xor(a: u64, b: u64, i: u64)
    requires
        i < 64,
    ensures
        #[trigger] bit(a ^ b, i) == (bit(a, i) != bit(b, i)),
{
    assert(((a ^ b) >> i) & 1u64 == 1u64 <==> ((a >> i) & 1u64 == 1u64) != ((b >> i) & 1u64 == 1u64))
        by (bit_vector);
}

pub broadcast proof fn lemma_bit_not(a: u64, i: u64)
    requires
        i < 64,
    ensures
        #[trigger] bit(!a, i) == !bit(a, i),
{
    assert(((!a) >> i) & 1u64 == 1u64 <==> !((a >> i) & 1u64 == 1u64)) by (bit_vector)
        requires
            i < 64,
    ;
}

pub broadcast proof fn lemma_bit_zero(i: u64)
    ensures
        !#[trigger] bit(0u64, i),
{
    assert((0u64 >> i) & 1u64 != 1u64) by (bit_vector);
}

pub broadcast proof fn lemma_bit_single(s: u64, i: u64)
    requires
        s < 64,
        i < 64,
    ensures
        #[trigger] bit(1u64 << s, i) == (s == i),
{
    assert(((1u64 << s) >> i) & 1u64 == 1u64 <==> s == i) by (bit_vector)
        requires
            s < 64,
            i < 64,
    ;
}

pub broadcast group group_bits {
    lemma_bit_and,
    lemma_bit_or,
    lemma_bit_xor,
    lemma_bit_not,
    lemma_bit_zero,
    lemma_bit_single,
}

/// Two words with the same 64 bits are equal.
pub proof fn lemma_bit_ext(a: u64, b: u64)
    requires
        forall|i: u64| i < 64 ==> bit(a, i) == bit(b, i),
    ensures
        a == b,
{
    if a != b {
        let d = a ^ b;
        assert(d != 0) by (bit_vector)
            requires
                a != b,
                d == a ^ b,
        ;
        vstd::std_specs::bits::axiom_u64_trailing_zeros(d);
        let t = vstd::std_specs::bits::u64_trailing_zeros(d) as u64;
        assert(t < 64);
        assert((d >> t) & 1u64 == 1u64);
        assert(bit(a, t) == bit(b, t));
        assert(false) by (bit_vector)
            requires
                d == a ^ b,
                (d >> t) & 1u64 == 1u64,
                ((a >> t) & 1u64 == 1u64) == ((b >> t) & 1u64 == 1u64),
        ;
    }
}

/// A word is zero exactly when none of its 64 bits is set.
pub proof fn lemma_zero_iff_no_bit(a: u64)
    ensures
        a == 0 <==> forall|i: u64| i < 64 ==> !bit(a, i),
{
    broadcast use lemma_bit_zero;

    if forall|i: u64| i < 64 ==> !bit(a, i) {
        lemma_bit_ext(a, 0);
    }
}


pub const A_FILE_BITS: u64 = 0x0101010101010101u64;
pub const H_FILE_BITS: u64 = 0x8080808080808080u64;

/// Moving every square one rank up (towards rank 8).
pub broadcast proof fn lemma_bit_shl8(x: u64, i: u64)
    requires
        i < 64,
    ensures
        #[trigger] bit(x << 8u64, i) == (i >= 8 && bit(x, (i - 8) as u64)),
{
    assert(((x << 8u64) >> i) & 1u64 == 1u64 <==> (i >= 8 && (x >> ((i - 8) as u64)) & 1u64 == 1u64))
        by (bit_vector)
        requires
            i < 64,
    ;
}

/// Moving every square one rank down (towards rank 1).
pub broadcast proof fn lemma_bit_shr8(x: u64, i: u64)
    requires
        i < 64,
    ensures
        #[trigger] bit(x >> 8u64, i) == (i < 56 && bit(x, (i + 8) as u64)),
{
    assert(((x >> 8u64) >> i) & 1u64 == 1u64 <==> (i < 56 && (x >> ((i + 8) as u64)) & 1u64 == 1u64))
        by (bit_vector)
        requires
            i < 64,
    ;
}

/// Moving every square one file right (towards the h-file), dropping the h-file.
pub broadcast proof fn lemma_bit_east(x: u64, i: u64)
    requires
        i < 64,
    ensures
        #[trigger] bit((x << 1u64) & !A_FILE_BITS, i) == (i % 8 != 0 && bit(x, (i - 1) as u64)),
{
    assert((((x << 1u64) & !0x0101010101010101u64) >> i) & 1u64 == 1u64 <==> (i % 8 != 0 && (x >> ((i - 1) as u64)) & 1u64 == 1u64))
        by (bit_vector)
        requires
            i < 64,
    ;
}

/// Moving every square one file left (towards the a-file), dropping the a-file.
pub broadcast proof fn lemma_bit_west(x: u64, i: u64)
    requires
        i < 64,
    ensures
        #[trigger] bit((x >> 1u64) & !H_FILE_BITS, i) == (i % 8 != 7 && bit(x, (i + 1) as u64)),
{
    assert((((x >> 1u64) & !0x8080808080808080u64) >> i) & 1u64 == 1u64 <==> (i % 8 != 7 && (x >> ((i + 1) as u64)) & 1u64 == 1u64))
        by (bit_vector)
        requires
            i < 64,
    ;
}


/// The single-square words of the squares castling touches.
pub proof fn lemma_castle_words()
    ensures
        single(0) == 0x0000000000000001u64,
        single(2) == 0x0000000000000004u64,
        single(3) == 0x0000000000000008u64,
        single(4) == 0x0000000000000010u64,
        single(5) == 0x0000000000000020u64,
        single(6) == 0x0000000000000040u64,
        single(7) == 0x0000000000000080u64,
        single(56) == 0x0100000000000000u64,
        single(58) == 0x0400000000000000u64,
        single(59) == 0x0800000000000000u64,
        single(60) == 0x1000000000000000u64,
        single(61) == 0x2000000000000000u64,
        single(62) == 0x4000000000000000u64,
        single(63) == 0x8000000000000000u64,
{
    assert(1u64 << 0u64 == 0x0000000000000001u64 && 1u64 << 2u64 == 0x0000000000000004u64 && 1u64 << 3u64 == 0x0000000000000008u64 && 1u64 << 4u64 == 0x0000000000000010u64 && 1u64 << 5u64 == 0x0000000000000020u64 && 1u64 << 6u64 == 0x0000000000000040u64 && 1u64 << 7u64 == 0x0000000000000080u64 && 1u64 << 56u64 == 0x0100000000000000u64 && 1u64 << 58u64 == 0x0400000000000000u64 && 1u64 << 59u64 == 0x0800000000000000u64 && 1u64 << 60u64 == 0x1000000000000000u64 && 1u64 << 61u64 == 0x2000000000000000u64 && 1u64 << 62u64 == 0x4000000000000000u64 && 1u64 << 63u64 == 0x8000000000000000u64) by (bit_vector);
}


/// A word meets the single square `t` exactly when bit `t` is set.
pub broadcast proof fn lemma_and_single(x: u64, t: int)
    requires
        0 <= t < 64,
    ensures
        #[trigger] (x & single(t)) != 0 <==> bit(x, t as u64),
{
    let tu = t as u64;
    assert((x & (1u64 << tu)) != 0 <==> (x >> tu) & 1u64 == 1u64) by (bit_vector)
        requires
            tu < 64,
    ;
}


/// Moving a square from `o` to `t` and back leaves a word as it was, when `o`
/// was in it and `t` was not.
pub proof fn lemma_move_bit_back(c: u64, o: int, t: int)
    requires
        0 <= o < 64,
        0 <= t < 64,
        bit(c, o as u64),
        !bit(c, t as u64),
    ensures
        (((c & !single(o)) | single(t)) & !single(t)) | single(o) == c,
{
    let (ou, tu) = (o as u64, t as u64);
    assert((((c & !(1u64 << ou)) | (1u64 << tu)) & !(1u64 << tu)) | (1u64 << ou) == c) by (bit_vector)
        requires
            ou < 64,
            tu < 64,
            (c >> ou) & 1u64 == 1u64,
            (c >> tu) & 1u64 != 1u64,
    ;
}

/// Moving two squares `a`, `b` to `x`, `y` and back leaves a word as it was.
pub proof fn lemma_move_two_back(c: u64, a: int, b: int, x: int, y: int)
    requires
        0 <= a < 64,
        0 <= b < 64,
        0 <= x < 64,
        0 <= y < 64,
        bit(c, a as u64),
        bit(c, b as u64),
        !bit(c, x as u64),
        !bit(c, y as u64),
    ensures
        (((c & !(single(a) | single(b))) | (single(x) | single(y))) & !(single(x) | single(y))) | (single(a) | single(b)) == c,
{
    let (au, bu, xu, yu) = (a as u64, b as u64, x as u64, y as u64);
    assert((((c & !((1u64 << au) | (1u64 << bu))) | ((1u64 << xu) | (1u64 << yu))) & !((1u64 << xu) | (1u64 << yu)))
        | ((1u64 << au) | (1u64 << bu)) == c) by (bit_vector)
        requires
            au < 64,
            bu < 64,
            xu < 64,
            yu < 64,
            (c >> au) & 1u64 == 1u64,
            (c >> bu) & 1u64 == 1u64,
            (c >> xu) & 1u64 != 1u64,
            (c >> yu) & 1u64 != 1u64,
    ;
}

/// Clearing the squares of `w` and adding them back leaves a word that held them as it was.
pub proof fn lemma_clear_back(c: u64, w: u64)
    requires
        w & c == w,
    ensures
        (c & !w) | w == c,
{
    assert((c & !w) | w == c) by (bit_vector)
        requires
            w & c == w,
    ;
}

/// The en passant pawn update and its reverse leave the pawns as they were.
pub proof fn lemma_ep_pawns_back(p: u64, o: int, t: int, w: u64)
    requires
        0 <= o < 64,
        0 <= t < 64,
        bit(p, o as u64),
        !bit(p, t as u64),
        w & p == w,
    ensures
        (((p & !(single(o) | w)) | single(t)) | (single(o) | w)) & !single(t) == p,
{
    let (ou, tu) = (o as u64, t as u64);
    assert((((p & !((1u64 << ou) | w)) | (1u64 << tu)) | ((1u64 << ou) | w)) & !(1u64 << tu) == p) by (bit_vector)
        requires
            ou < 64,
            tu < 64,
            (p >> ou) & 1u64 == 1u64,
            (p >> tu) & 1u64 != 1u64,
            w & p == w,
    ;
}

} // verus!
