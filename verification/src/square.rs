//! The first square numbering of the engine: `rank + 8 * file`, so a1 is 0,
//! a2 is 1 and h8 is 63.
use vstd::prelude::*;
use crate::bits::single;
use crate::bitboard::Bitboard;
use crate::text::push_char;
use crate::types::square::{file_char, rank_char};

verus! {

#[derive(Copy, Clone, PartialEq, Eq, Structural, Debug)]
pub struct Square(u8);

impl View for Square {
    type V = int;

    closed spec fn view(&self) -> int {
        self.0 as int
    }
}

impl Square {
    #[verifier::type_invariant]
    closed spec fn wf(self) -> bool {
        self.0 < 64
    }

    pub fn new(val: u8) -> (r: Result<Square, &'static str>)
        ensures
            r is Ok <==> val < 64,
            r matches Ok(s) ==> s@ == val,
            r matches Err(e) ==> e@ == "Invalid square index."@,
    {
        if val < 64 {
            Ok(Self(val))
        } else {
            Err("Invalid square index.")
        }
    }

    /// The square in `row` (rank) and `column` (file).
    pub fn from_coord(row: u8, column: u8) -> (r: Result<Square, &'static str>)
        requires
            row + column * 8 <= u8::MAX,
        ensures
            r is Ok <==> row + column * 8 < 64,
            r matches Ok(s) ==> s@ == row + column * 8,
            r matches Err(e) ==> e@ == "Invalid square index."@,
    {
        Self::new(row + column * 8)
    }

    pub fn val(&self) -> (r: u8)
        ensures
            r == self@,
            r < 64,
    {
        proof {
            use_type_invariant(self);
        }
        self.0
    }

    pub fn file(&self) -> (r: u8)
        ensures
            r == self@ / 8,
            r < 8,
    {
        proof {
            use_type_invariant(self);
        }
        self.0 / 8
    }

    pub fn rank(&self) -> (r: u8)
        ensures
            r == self@ % 8,
    {
        self.0 % 8
    }

    /// The one-square set of this square, rank 8 in the lowest byte.
    pub fn bb(&self) -> (b: Bitboard)
        ensures
            b@ == single((7 - self@ % 8) * 8 + self@ / 8),
    {
        proof {
            use_type_invariant(self);
        }
        Bitboard::new(1u64 << ((7 - self.0 % 8) * 8 + self.0 / 8))
    }

    /// The square in algebraic notation, such as `e4`.
    pub fn algebraic(&self) -> (s: String)
        ensures
            s@ == seq![file_char(self@ / 8), rank_char(self@ % 8)],
    {
        proof {
            use_type_invariant(self);
        }
        let mut s = String::new();
        push_char(&mut s, ((self.0 / 8) + 97) as char);
        push_char(&mut s, ((self.0 % 8) + 49) as char);
        s
    }
}

#[allow(non_snake_case)]
impl Square {
    pub fn A1() -> (s: Square)
        ensures
            s@ == 0,
    {
        Square(0)
    }

    pub fn B1() -> (s: Square)
        ensures
            s@ == 8,
    {
        Square(8)
    }

    pub fn C1() -> (s: Square)
        ensures
            s@ == 16,
    {
        Square(16)
    }

    pub fn D1() -> (s: Square)
        ensures
            s@ == 24,
    {
        Square(24)
    }

    pub fn E1() -> (s: Square)
        ensures
            s@ == 32,
    {
        Square(32)
    }

    pub fn F1() -> (s: Square)
        ensures
            s@ == 40,
    {
        Square(40)
    }

    pub fn G1() -> (s: Square)
        ensures
            s@ == 48,
    {
        Square(48)
    }

    pub fn H1() -> (s: Square)
        ensures
            s@ == 56,
    {
        Square(56)
    }

    pub fn A2() -> (s: Square)
        ensures
            s@ == 1,
    {
        Square(1)
    }

    pub fn B2() -> (s: Square)
        ensures
            s@ == 9,
    {
        Square(9)
    }

    pub fn C2() -> (s: Square)
        ensures
            s@ == 17,
    {
        Square(17)
    }

    pub fn D2() -> (s: Square)
        ensures
            s@ == 25,
    {
        Square(25)
    }

    pub fn E2() -> (s: Square)
        ensures
            s@ == 33,
    {
        Square(33)
    }

    pub fn F2() -> (s: Square)
        ensures
            s@ == 41,
    {
        Square(41)
    }

    pub fn G2() -> (s: Square)
        ensures
            s@ == 49,
    {
        Square(49)
    }

    pub fn H2() -> (s: Square)
        ensures
            s@ == 57,
    {
        Square(57)
    }

    pub fn A3() -> (s: Square)
        ensures
            s@ == 2,
    {
        Square(2)
    }

    pub fn B3() -> (s: Square)
        ensures
            s@ == 10,
    {
        Square(10)
    }

    pub fn C3() -> (s: Square)
        ensures
            s@ == 18,
    {
        Square(18)
    }

    pub fn D3() -> (s: Square)
        ensures
            s@ == 26,
    {
        Square(26)
    }

    pub fn E3() -> (s: Square)
        ensures
            s@ == 34,
    {
        Square(34)
    }

    pub fn F3() -> (s: Square)
        ensures
            s@ == 42,
    {
        Square(42)
    }

    pub fn G3() -> (s: Square)
        ensures
            s@ == 50,
    {
        Square(50)
    }

    pub fn H3() -> (s: Square)
        ensures
            s@ == 58,
    {
        Square(58)
    }

    pub fn A4() -> (s: Square)
        ensures
            s@ == 3,
    {
        Square(3)
    }

    pub fn B4() -> (s: Square)
        ensures
            s@ == 11,
    {
        Square(11)
    }

    pub fn C4() -> (s: Square)
        ensures
            s@ == 19,
    {
        Square(19)
    }

    pub fn D4() -> (s: Square)
        ensures
            s@ == 27,
    {
        Square(27)
    }

    pub fn E4() -> (s: Square)
        ensures
            s@ == 35,
    {
        Square(35)
    }

    pub fn F4() -> (s: Square)
        ensures
            s@ == 43,
    {
        Square(43)
    }

    pub fn G4() -> (s: Square)
        ensures
            s@ == 51,
    {
        Square(51)
    }

    pub fn H4() -> (s: Square)
        ensures
            s@ == 59,
    {
        Square(59)
    }

    pub fn A5() -> (s: Square)
        ensures
            s@ == 4,
    {
        Square(4)
    }

    pub fn B5() -> (s: Square)
        ensures
            s@ == 12,
    {
        Square(12)
    }

    pub fn C5() -> (s: Square)
        ensures
            s@ == 20,
    {
        Square(20)
    }

    pub fn D5() -> (s: Square)
        ensures
            s@ == 28,
    {
        Square(28)
    }

    pub fn E5() -> (s: Square)
        ensures
            s@ == 36,
    {
        Square(36)
    }

    pub fn F5() -> (s: Square)
        ensures
            s@ == 44,
    {
        Square(44)
    }

    pub fn G5() -> (s: Square)
        ensures
            s@ == 52,
    {
        Square(52)
    }

    pub fn H5() -> (s: Square)
        ensures
            s@ == 60,
    {
        Square(60)
    }

    pub fn A6() -> (s: Square)
        ensures
            s@ == 5,
    {
        Square(5)
    }

    pub fn B6() -> (s: Square)
        ensures
            s@ == 13,
    {
        Square(13)
    }

    pub fn C6() -> (s: Square)
        ensures
            s@ == 21,
    {
        Square(21)
    }

    pub fn D6() -> (s: Square)
        ensures
            s@ == 29,
    {
        Square(29)
    }

    pub fn E6() -> (s: Square)
        ensures
            s@ == 37,
    {
        Square(37)
    }

    pub fn F6() -> (s: Square)
        ensures
            s@ == 45,
    {
        Square(45)
    }

    pub fn G6() -> (s: Square)
        ensures
            s@ == 53,
    {
        Square(53)
    }

    pub fn H6() -> (s: Square)
        ensures
            s@ == 61,
    {
        Square(61)
    }

    pub fn A7() -> (s: Square)
        ensures
            s@ == 6,
    {
        Square(6)
    }

    pub fn B7() -> (s: Square)
        ensures
            s@ == 14,
    {
        Square(14)
    }

    pub fn C7() -> (s: Square)
        ensures
            s@ == 22,
    {
        Square(22)
    }

    pub fn D7() -> (s: Square)
        ensures
            s@ == 30,
    {
        Square(30)
    }

    pub fn E7() -> (s: Square)
        ensures
            s@ == 38,
    {
        Square(38)
    }

    pub fn F7() -> (s: Square)
        ensures
            s@ == 46,
    {
        Square(46)
    }

    pub fn G7() -> (s: Square)
        ensures
            s@ == 54,
    {
        Square(54)
    }

    pub fn H7() -> (s: Square)
        ensures
            s@ == 62,
    {
        Square(62)
    }

    pub fn A8() -> (s: Square)
        ensures
            s@ == 7,
    {
        Square(7)
    }

    pub fn B8() -> (s: Square)
        ensures
            s@ == 15,
    {
        Square(15)
    }

    pub fn C8() -> (s: Square)
        ensures
            s@ == 23,
    {
        Square(23)
    }

    pub fn D8() -> (s: Square)
        ensures
            s@ == 31,
    {
        Square(31)
    }

    pub fn E8() -> (s: Square)
        ensures
            s@ == 39,
    {
        Square(39)
    }

    pub fn F8() -> (s: Square)
        ensures
            s@ == 47,
    {
        Square(47)
    }

    pub fn G8() -> (s: Square)
        ensures
            s@ == 55,
    {
        Square(55)
    }

    pub fn H8() -> (s: Square)
        ensures
            s@ == 63,
    {
        Square(63)
    }
}


impl Square {
    /// The debugging text of the square: its index as six binary digits.
    pub fn debug_text(&self) -> (s: String)
        ensures
            s@ == crate::text::binary_digits(self@ as u64, 6),
    {
        let mut out: Vec<char> = Vec::new();
        crate::text::push_binary(&mut out, self.0 as u64, 6);
        crate::text::string_of(&out)
    }
}

} // verus!
