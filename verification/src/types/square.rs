//! A square of the board, numbered `8 * rank + file` from a1 = 0 to h8 = 63.
use vstd::prelude::*;
use crate::bits::single;
use crate::text::push_char;
use crate::types::bitboard::{Bitboard, is_single, lowest_bit, lemma_single_bits};

verus! {

/// The letter of file `f` (0 is the a-file).
pub open spec fn file_char(f: int) -> char {
    (97 + f) as char
}

/// The digit of rank `r` (0 is the first rank).
pub open spec fn rank_char(r: int) -> char {
    (49 + r) as char
}

/// The square that two characters such as `e4` name, if they name one.
pub open spec fn algebraic_index(cs: Seq<char>) -> Option<int> {
    if cs.len() == 2 && 'a' <= cs[0] <= 'h' && '1' <= cs[1] <= '8' {
        Some((cs[1] as int - 49) * 8 + (cs[0] as int - 97))
    } else {
        None
    }
}

/// The name of square `i` in algebraic notation, such as `e4`.
pub open spec fn algebraic_name(i: int) -> Seq<char> {
    seq![file_char(i % 8), rank_char(i / 8)]
}

/// Reading the name of a square gives the square back.
pub proof fn lemma_algebraic_roundtrip(i: int)
    requires
        0 <= i < 64,
    ensures
        algebraic_index(algebraic_name(i)) == Some(i),
{
    let (f, r) = (file_char(i % 8), rank_char(i / 8));
    assert(f as int == 97 + i % 8);
    assert(r as int == 49 + i / 8);
}

/// The square `(rank + dr, file + df)` of the board, if it is on the board.
pub open spec fn offset(i: int, dr: int, df: int) -> Option<int> {
    let (r, f) = (i / 8 + dr, i % 8 + df);
    if 0 <= r < 8 && 0 <= f < 8 {
        Some(r * 8 + f)
    } else {
        None
    }
}

#[derive(Copy, Clone, PartialEq, Eq, Structural, Debug)]
pub struct Square(u8);

/// The index of an optional square.
pub open spec fn opt_index(o: Option<Square>) -> Option<int> {
    match o {
        Some(s) => Some(s@),
        None => None,
    }
}

impl View for Square {
    type V = int;

    closed spec fn view(&self) -> int {
        self.0 as int
    }
}

/// Squares are equal exactly when they are the same square.
pub broadcast proof fn lemma_square_view_eq(a: Square, b: Square)
    ensures
        #![trigger a@, b@]
        (a@ == b@) <==> a == b,
{
}

impl Square {
    pub const RANK_1: u8 = 0;
    pub const RANK_2: u8 = 1;
    pub const RANK_3: u8 = 2;
    pub const RANK_4: u8 = 3;
    pub const RANK_5: u8 = 4;
    pub const RANK_6: u8 = 5;
    pub const RANK_7: u8 = 6;
    pub const RANK_8: u8 = 7;

    pub const A_FILE: u8 = 0;
    pub const B_FILE: u8 = 1;
    pub const C_FILE: u8 = 2;
    pub const D_FILE: u8 = 3;
    pub const E_FILE: u8 = 4;
    pub const F_FILE: u8 = 5;
    pub const G_FILE: u8 = 6;
    pub const H_FILE: u8 = 7;

    #[verifier::type_invariant]
    closed spec fn wf(self) -> bool {
        self.0 < 64
    }

    pub fn new(val: u8) -> (r: Result<Square, &'static str>)
        ensures
            r is Ok <==> val < 64,
            r matches Ok(s) ==> s@ == val,
            r matches Err(e) ==> e@ == "Invalid square index."@,
    {
        if val < 64 {
            Ok(Square(val))
        } else {
            Err("Invalid square index.")
        }
    }

    pub fn new_unchecked(val: u8) -> (s: Square)
        requires
            val < 64,
        ensures
            s@ == val,
    {
        Square(val)
    }

    /// The square on `rank` and `file`, both counted from 0.
    pub fn from_coord(rank: u8, file: u8) -> (r: Result<Square, &'static str>)
        ensures
            r is Ok <==> rank < 8 && file < 8,
            r matches Ok(s) ==> s@ == rank * 8 + file,
            r matches Err(e) ==> e@ == "Invalid square coordinates."@,
    {
        if rank < 8 && file < 8 {
            Ok(Square(rank * 8 + file))
        } else {
            Err("Invalid square coordinates.")
        }
    }

    /// The square of a set that holds exactly one square.
    pub fn from_bb(bb: Bitboard) -> (r: Result<Square, &'static str>)
        ensures
            r is Ok <==> is_single(bb.0),
            r matches Ok(s) ==> bb.0 == single(s@),
            r matches Err(e) ==> e@ == "Bitboard does not hold exactly one square."@,
    {
        if bb.is_one() {
            let i = bb.index();
            proof {
                let k = choose|k: int| 0 <= k < 64 && bb.0 == single(k);
                lemma_single_bits(k);
            }
            Ok(Square(i as u8))
        } else {
            Err("Bitboard does not hold exactly one square.")
        }
    }

    /// The square named in algebraic notation, such as `e4`.
    pub fn from_algebraic(name: &str) -> (r: Result<Square, &'static str>)
        ensures
            r is Ok <==> algebraic_index(name@) is Some,
            r matches Ok(s) ==> algebraic_index(name@) == Some(s@),
            r matches Err(e) ==> e@ == "Invalid algebraic square."@,
    {
        let cs = crate::text::chars_of(name);
        if cs.len() == 2 && 'a' <= cs[0] && cs[0] <= 'h' && '1' <= cs[1] && cs[1] <= '8' {
            let file = (cs[0] as u32 - 97) as u8;
            let rank = (cs[1] as u32 - 49) as u8;
            Ok(Square(rank * 8 + file))
        } else {
            Err("Invalid algebraic square.")
        }
    }

    /// The set holding just this square.
    pub fn bb(&self) -> (b: Bitboard)
        ensures
            0 <= self@ < 64,
            b.0 == single(self@),
            forall|i: int| #[trigger] b.has(i) == (i == self@),
    {
        proof {
            use_type_invariant(self);
            lemma_single_bits(self@);
        }
        Bitboard(1u64 << self.0)
    }

    pub fn val(&self) -> (r: u8)
        ensures
            r == self@,
            r < 64,
    {
        proof {
            use_type_invariant(self);
        }
        self.0
    }

    /// The rank of the square, counted from 0.
    pub fn rank(&self) -> (r: u8)
        ensures
            r == self@ / 8,
            r < 8,
            0 <= self@ < 64,
    {
        proof {
            use_type_invariant(self);
        }
        self.0 / 8
    }

    /// The file of the square, counted from 0 (the a-file).
    pub fn file(&self) -> (r: u8)
        ensures
            r == self@ % 8,
            r < 8,
            0 <= self@ < 64,
    {
        proof {
            use_type_invariant(self);
        }
        self.0 % 8
    }

    /// The square `dr` ranks and `df` files away, if it is on the board.
    pub fn try_offset(&self, dr: i8, df: i8) -> (r: Option<Square>)
        ensures
            r matches Some(s) ==> offset(self@, dr as int, df as int) == Some(s@),
            r is None ==> offset(self@, dr as int, df as int) is None,
    {
        proof {
            use_type_invariant(self);
        }
        let rank = (self.0 / 8) as i16 + dr as i16;
        let file = (self.0 % 8) as i16 + df as i16;
        if 0 <= rank && rank < 8 && 0 <= file && file < 8 {
            Some(Square((rank * 8 + file) as u8))
        } else {
            None
        }
    }

    /// The square in algebraic notation, such as `e4`.
    pub fn algebraic(&self) -> (s: String)
        ensures
            s@ == algebraic_name(self@),
    {
        proof {
            use_type_invariant(self);
        }
        let mut s = String::new();
        push_char(&mut s, ((self.0 % 8) + 97) as char);
        push_char(&mut s, ((self.0 / 8) + 49) as char);
        s
    }
}

#[allow(non_snake_case)]
impl Square {
    pub fn A1() -> (s: Square)
        ensures
            s@ == 0,
    {
        Square(0)
    }

    pub fn B1() -> (s: Square)
        ensures
            s@ == 1,
    {
        Square(1)
    }

    pub fn C1() -> (s: Square)
        ensures
            s@ == 2,
    {
        Square(2)
    }

    pub fn D1() -> (s: Square)
        ensures
            s@ == 3,
    {
        Square(3)
    }

    pub fn E1() -> (s: Square)
        ensures
            s@ == 4,
    {
        Square(4)
    }

    pub fn F1() -> (s: Square)
        ensures
            s@ == 5,
    {
        Square(5)
    }

    pub fn G1() -> (s: Square)
        ensures
            s@ == 6,
    {
        Square(6)
    }

    pub fn H1() -> (s: Square)
        ensures
            s@ == 7,
    {
        Square(7)
    }

    pub fn A2() -> (s: Square)
        ensures
            s@ == 8,
    {
        Square(8)
    }

    pub fn B2() -> (s: Square)
        ensures
            s@ == 9,
    {
        Square(9)
    }

    pub fn C2() -> (s: Square)
        ensures
            s@ == 10,
    {
        Square(10)
    }

    pub fn D2() -> (s: Square)
        ensures
            s@ == 11,
    {
        Square(11)
    }

    pub fn E2() -> (s: Square)
        ensures
            s@ == 12,
    {
        Square(12)
    }

    pub fn F2() -> (s: Square)
        ensures
            s@ == 13,
    {
        Square(13)
    }

    pub fn G2() -> (s: Square)
        ensures
            s@ == 14,
    {
        Square(14)
    }

    pub fn H2() -> (s: Square)
        ensures
            s@ == 15,
    {
        Square(15)
    }

    pub fn A3() -> (s: Square)
        ensures
            s@ == 16,
    {
        Square(16)
    }

    pub fn B3() -> (s: Square)
        ensures
            s@ == 17,
    {
        Square(17)
    }

    pub fn C3() -> (s: Square)
        ensures
            s@ == 18,
    {
        Square(18)
    }

    pub fn D3() -> (s: Square)
        ensures
            s@ == 19,
    {
        Square(19)
    }

    pub fn E3() -> (s: Square)
        ensures
            s@ == 20,
    {
        Square(20)
    }

    pub fn F3() -> (s: Square)
        ensures
            s@ == 21,
    {
        Square(21)
    }

    pub fn G3() -> (s: Square)
        ensures
            s@ == 22,
    {
        Square(22)
    }

    pub fn H3() -> (s: Square)
        ensures
            s@ == 23,
    {
        Square(23)
    }

    pub fn A4() -> (s: Square)
        ensures
            s@ == 24,
    {
        Square(24)
    }

    pub fn B4() -> (s: Square)
        ensures
            s@ == 25,
    {
        Square(25)
    }

    pub fn C4() -> (s: Square)
        ensures
            s@ == 26,
    {
        Square(26)
    }

    pub fn D4() -> (s: Square)
        ensures
            s@ == 27,
    {
        Square(27)
    }

    pub fn E4() -> (s: Square)
        ensures
            s@ == 28,
    {
        Square(28)
    }

    pub fn F4() -> (s: Square)
        ensures
            s@ == 29,
    {
        Square(29)
    }

    pub fn G4() -> (s: Square)
        ensures
            s@ == 30,
    {
        Square(30)
    }

    pub fn H4() -> (s: Square)
        ensures
            s@ == 31,
    {
        Square(31)
    }

    pub fn A5() -> (s: Square)
        ensures
            s@ == 32,
    {
        Square(32)
    }

    pub fn B5() -> (s: Square)
        ensures
            s@ == 33,
    {
        Square(33)
    }

    pub fn C5() -> (s: Square)
        ensures
            s@ == 34,
    {
        Square(34)
    }

    pub fn D5() -> (s: Square)
        ensures
            s@ == 35,
    {
        Square(35)
    }

    pub fn E5() -> (s: Square)
        ensures
            s@ == 36,
    {
        Square(36)
    }

    pub fn F5() -> (s: Square)
        ensures
            s@ == 37,
    {
        Square(37)
    }

    pub fn G5() -> (s: Square)
        ensures
            s@ == 38,
    {
        Square(38)
    }

    pub fn H5() -> (s: Square)
        ensures
            s@ == 39,
    {
        Square(39)
    }

    pub fn A6() -> (s: Square)
        ensures
            s@ == 40,
    {
        Square(40)
    }

    pub fn B6() -> (s: Square)
        ensures
            s@ == 41,
    {
        Square(41)
    }

    pub fn C6() -> (s: Square)
        ensures
            s@ == 42,
    {
        Square(42)
    }

    pub fn D6() -> (s: Square)
        ensures
            s@ == 43,
    {
        Square(43)
    }

    pub fn E6() -> (s: Square)
        ensures
            s@ == 44,
    {
        Square(44)
    }

    pub fn F6() -> (s: Square)
        ensures
            s@ == 45,
    {
        Square(45)
    }

    pub fn G6() -> (s: Square)
        ensures
            s@ == 46,
    {
        Square(46)
    }

    pub fn H6() -> (s: Square)
        ensures
            s@ == 47,
    {
        Square(47)
    }

    pub fn A7() -> (s: Square)
        ensures
            s@ == 48,
    {
        Square(48)
    }

    pub fn B7() -> (s: Square)
        ensures
            s@ == 49,
    {
        Square(49)
    }

    pub fn C7() -> (s: Square)
        ensures
            s@ == 50,
    {
        Square(50)
    }

    pub fn D7() -> (s: Square)
        ensures
            s@ == 51,
    {
        Square(51)
    }

    pub fn E7() -> (s: Square)
        ensures
            s@ == 52,
    {
        Square(52)
    }

    pub fn F7() -> (s: Square)
        ensures
            s@ == 53,
    {
        Square(53)
    }

    pub fn G7() -> (s: Square)
        ensures
            s@ == 54,
    {
        Square(54)
    }

    pub fn H7() -> (s: Square)
        ensures
            s@ == 55,
    {
        Square(55)
    }

    pub fn A8() -> (s: Square)
        ensures
            s@ == 56,
    {
        Square(56)
    }

    pub fn B8() -> (s: Square)
        ensures
            s@ == 57,
    {
        Square(57)
    }

    pub fn C8() -> (s: Square)
        ensures
            s@ == 58,
    {
        Square(58)
    }

    pub fn D8() -> (s: Square)
        ensures
            s@ == 59,
    {
        Square(59)
    }

    pub fn E8() -> (s: Square)
        ensures
            s@ == 60,
    {
        Square(60)
    }

    pub fn F8() -> (s: Square)
        ensures
            s@ == 61,
    {
        Square(61)
    }

    pub fn G8() -> (s: Square)
        ensures
            s@ == 62,
    {
        Square(62)
    }

    pub fn H8() -> (s: Square)
        ensures
            s@ == 63,
    {
        Square(63)
    }
}

} // verus!
