//! Character-level helpers for the text formats the engine reads and writes.
use vstd::prelude::*;

verus! {

/// The characters of `s`, in order.
pub fn chars_of(s: &str) -> (v: Vec<char>)
    ensures
        v@ == s@,
{
    let mut v: Vec<char> = Vec::new();
    for c in it: s.chars()
        invariant
            v@ == it.seq().take(it.index() as int),
            it.seq() == s@,
    {
        v.push(c);
    }
    v
}

/// `String::push`: appends one character.
#[verifier::external_body]
pub(crate) fn push_char(s: &mut String, c: char)
    ensures
        final(s)@ == old(s)@.push(c),
{
    s.push(c);
}

/// A `String` holding exactly the characters `cs`.
pub fn string_of(cs: &Vec<char>) -> (r: String)
    ensures
        r@ == cs@,
{
    let mut r = String::new();
    let mut i: usize = 0;
    while i < cs.len()
        invariant
            i <= cs.len(),
            r@ == cs@.take(i as int),
        decreases cs.len() - i,
    {
        push_char(&mut r, cs[i]);
        i += 1;
        assert(r@ =~= cs@.take(i as int));
    }
    assert(cs@.take(cs.len() as int) =~= cs@);
    r
}

/// Appends the characters of `s` to `out`.
pub fn push_text(out: &mut Vec<char>, s: &str)
    ensures
        final(out)@ == old(out)@ + s@,
{
    let cs = chars_of(s);
    let ghost start = out@;
    let mut i: usize = 0;
    while i < cs.len()
        invariant
            i <= cs.len(),
            cs@ == s@,
            out@ == start + cs@.take(i as int),
        decreases cs.len() - i,
    {
        out.push(cs[i]);
        i += 1;
        assert(out@ =~= start + cs@.take(i as int));
    }
    assert(cs@.take(cs@.len() as int) =~= cs@);
}

/// `n` spaces.
pub open spec fn spaces(n: int) -> Seq<char> {
    Seq::new(if n > 0 { n as nat } else { 0 }, |i: int| ' ')
}

/// `s` centred in a field of `w` characters, the odd space going to the right, as `{:^w}` writes it.
pub open spec fn center(s: Seq<char>, w: int) -> Seq<char> {
    if s.len() >= w {
        s
    } else {
        let pad = w - s.len();
        spaces(pad / 2) + s + spaces(pad - pad / 2)
    }
}

/// The decimal digits of `n`.
pub open spec fn decimal(n: nat) -> Seq<char>
    decreases n,
{
    if n < 10 {
        seq![(n + 48) as char]
    } else {
        decimal(n / 10).push(((n % 10) + 48) as char)
    }
}

/// Appends `n` spaces.
pub fn push_spaces(out: &mut Vec<char>, n: usize)
    ensures
        final(out)@ == old(out)@ + spaces(n as int),
{
    let ghost start = out@;
    let mut i: usize = 0;
    while i < n
        invariant
            i <= n,
            out@ == start + spaces(i as int),
        decreases n - i,
    {
        out.push(' ');
        i += 1;
        assert(out@ =~= start + spaces(i as int));
    }
}

/// Appends `s` centred in a field of `w` characters.
pub fn push_centered(out: &mut Vec<char>, s: &Vec<char>, w: usize)
    ensures
        final(out)@ == old(out)@ + center(s@, w as int),
{
    let ghost start = out@;
    if s.len() >= w {
        push_chars(out, s);
    } else {
        let pad = w - s.len();
        push_spaces(out, pad / 2);
        push_chars(out, s);
        push_spaces(out, pad - pad / 2);
        assert(out@ =~= start + center(s@, w as int));
    }
}

/// Appends the characters of `s`.
pub fn push_chars(out: &mut Vec<char>, s: &Vec<char>)
    ensures
        final(out)@ == old(out)@ + s@,
{
    let ghost start = out@;
    let mut i: usize = 0;
    while i < s.len()
        invariant
            i <= s.len(),
            out@ == start + s@.take(i as int),
        decreases s.len() - i,
    {
        out.push(s[i]);
        i += 1;
        assert(out@ =~= start + s@.take(i as int));
    }
    assert(s@.take(s@.len() as int) =~= s@);
}

/// Appends the decimal digits of `n`.
pub fn push_decimal(out: &mut Vec<char>, n: u32)
    ensures
        final(out)@ == old(out)@ + decimal(n as nat),
    decreases n,
{
    if n >= 10 {
        push_decimal(out, n / 10);
    }
    let d = (n % 10) as u8 + 48;
    out.push(d as char);
    proof {
        assert(((n % 10) + 48) as char == d as char);
    }
    assert(out@ =~= old(out)@ + decimal(n as nat));
}

/// The `n` lowest bits of `x` as binary digits, the highest first, as `{:0nb}` writes a
/// number below `2^n`.
pub open spec fn binary_digits(x: u64, n: nat) -> Seq<char> {
    Seq::new(n, |j: int| if crate::bits::bit(x, (n - 1 - j) as u64) { '1' } else { '0' })
}

/// Appends the `n` lowest bits of `x` as binary digits, the highest first.
pub fn push_binary(out: &mut Vec<char>, x: u64, n: u64)
    requires
        n <= 64,
    ensures
        final(out)@ == old(out)@ + binary_digits(x, n as nat),
{
    let ghost start = out@;
    let mut j: u64 = 0;
    while j < n
        invariant
            j <= n <= 64,
            out@ == start + binary_digits(x, n as nat).take(j as int),
        decreases n - j,
    {
        let k = n - 1 - j;
        let d = if (x >> k) & 1u64 == 1u64 { '1' } else { '0' };
        out.push(d);
        proof {
            assert(binary_digits(x, n as nat).take(j + 1) =~= binary_digits(x, n as nat).take(j as int).push(d));
        }
        j += 1;
    }
    proof {
        assert(binary_digits(x, n as nat).take(n as int) =~= binary_digits(x, n as nat));
    }
}

/// The hexadecimal digit of `d` (below 16), in lower case.
pub open spec fn hex_char(d: u64) -> char {
    if d < 10 {
        (d + 48) as char
    } else {
        (d + 87) as char
    }
}

/// The 16 hexadecimal digits of `x`, the highest first, as `{:016x}` writes it.
pub open spec fn hex_digits(x: u64) -> Seq<char> {
    Seq::new(16, |j: int| hex_char((x >> (4 * (15 - j)) as u64) & 0xfu64))
}

fn hex_char_of(d: u64) -> (c: char)
    requires
        d < 16,
    ensures
        c == hex_char(d),
{
    match d {
        0 => '0',
        1 => '1',
        2 => '2',
        3 => '3',
        4 => '4',
        5 => '5',
        6 => '6',
        7 => '7',
        8 => '8',
        9 => '9',
        10 => 'a',
        11 => 'b',
        12 => 'c',
        13 => 'd',
        14 => 'e',
        _ => 'f',
    }
}

/// Appends the 16 hexadecimal digits of `x`, the highest first.
pub fn push_hex(out: &mut Vec<char>, x: u64)
    ensures
        final(out)@ == old(out)@ + hex_digits(x),
{
    let ghost start = out@;
    let mut j: u64 = 0;
    while j < 16
        invariant
            j <= 16,
            out@ == start + hex_digits(x).take(j as int),
        decreases 16 - j,
    {
        let sh: u64 = 4 * (15 - j);
        let d = (x >> sh) & 0xfu64;
        assert(d < 16) by (bit_vector)
            requires
                d == (x >> sh) & 0xfu64,
        ;
        let c = hex_char_of(d);
        out.push(c);
        proof {
            assert(hex_digits(x).take(j + 1) =~= hex_digits(x).take(j as int).push(c));
        }
        j += 1;
    }
    proof {
        assert(hex_digits(x).take(16) =~= hex_digits(x));
    }
}


/// The bit cell `i` of a printed grid of 64 cells shows (row `i / 8`, column `i % 8`):
/// bit `8 * (7 - i / 8) + i % 8` when the highest byte is printed first, bit `i` otherwise.
pub open spec fn bit_grid_bit(high_first: bool, i: int) -> int {
    if high_first {
        8 * (7 - i / 8) + i % 8
    } else {
        i
    }
}

/// Cell `i` of a printed grid: its bit as a digit and a space, and a line break after
/// the last cell of a row.
pub open spec fn bit_grid_cell(x: u64, high_first: bool, i: int) -> Seq<char> {
    seq![if crate::bits::bit(x, bit_grid_bit(high_first, i) as u64) { '1' } else { '0' }, ' '] + if i % 8 == 7 {
        seq!['\n']
    } else {
        Seq::<char>::empty()
    }
}

/// The first `n` cells of the printed grid of `x`.
pub open spec fn bit_grid_text(x: u64, high_first: bool, n: nat) -> Seq<char>
    decreases n,
{
    if n == 0 {
        Seq::empty()
    } else {
        bit_grid_text(x, high_first, (n - 1) as nat) + bit_grid_cell(x, high_first, n - 1)
    }
}

/// Appends the 64 cells of the printed grid of `x`.
pub fn push_bit_grid(out: &mut Vec<char>, x: u64, high_first: bool)
    ensures
        final(out)@ == old(out)@ + bit_grid_text(x, high_first, 64),
{
    let ghost start = out@;
    let mut i: u64 = 0;
    while i < 64
        invariant
            i <= 64,
            out@ == start + bit_grid_text(x, high_first, i as nat),
        decreases 64 - i,
    {
        let k: u64 = if high_first { 8 * (7 - i / 8) + i % 8 } else { i };
        let d = if (x >> k) & 1u64 == 1u64 { '1' } else { '0' };
        out.push(d);
        out.push(' ');
        if i % 8 == 7 {
            out.push('\n');
        }
        proof {
            assert(out@ =~= start + bit_grid_text(x, high_first, (i + 1) as nat));
        }
        i += 1;
    }
}

} // verus!
