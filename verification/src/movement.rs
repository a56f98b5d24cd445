//! Moves of the engine's first board layout, whose squares are numbered `rank + 8 * file`.
use vstd::prelude::*;
use crate::square::Square;
use crate::text::{push_text, string_of};
use crate::types::movement::{MoveView, flag_name, flag_of_code, lemma_word_fields, lemma_word_pack};
use crate::types::square::{file_char, rank_char};

pub use crate::types::movement::Flag;

verus! {

/// A move packed as origin (6 bits), target (6 bits) and flag (4 bits).
#[derive(Copy, Clone, PartialEq, Eq, Structural, Debug)]
pub struct Move(u16);

impl View for Move {
    type V = MoveView;

    closed spec fn view(&self) -> MoveView {
        MoveView {
            orig: (self.0 >> 10u16) as int,
            targ: ((self.0 >> 4u16) & 0x3fu16) as int,
            flag: flag_of_code((self.0 & 0xfu16) as int).unwrap(),
        }
    }
}

/// The name of a square of the first layout, such as `e4`.
pub open spec fn first_square_name(i: int) -> Seq<char> {
    seq![file_char(i / 8), rank_char(i % 8)]
}

/// The target a move prints: the eight bits above the flag name a square only when the
/// origin's two low bits are clear; otherwise the square printed is a1.
pub open spec fn printed_target(m: MoveView) -> int {
    if m.orig % 4 == 0 { m.targ } else { 0 }
}

/// How a move prints: `Move(` origin ` to ` target `, ` flag `)`.
pub open spec fn first_move_text(m: MoveView) -> Seq<char> {
    "Move("@ + first_square_name(m.orig) + " to "@ + first_square_name(printed_target(m)) + ", "@ + flag_name(m.flag) + ")"@
}

/// The byte above a move's flag: the target and the origin's two low bits.
proof fn lemma_target_byte(x: u16)
    by (bit_vector)
    ensures
        ((x >> 4u16) as u8) as int == ((x >> 4u16) & 0x3fu16) + ((x >> 10u16) % 4) * 64,
        x % 16 == x & 0xfu16,
{
}

impl Move {
    #[verifier::type_invariant]
    closed spec fn wf(self) -> bool {
        flag_of_code((self.0 & 0xfu16) as int) is Some
    }

    pub fn new(orig: Square, targ: Square, flag: Flag) -> (m: Move)
        ensures
            m@ == (MoveView { orig: orig@, targ: targ@, flag }),
    {
        let o = orig.val() as u16;
        let t = targ.val() as u16;
        let f = flag.val() as u16;
        let mut output: u16 = o << 10u16;
        output = output | (t << 4u16);
        output = output | f;
        proof {
            flag.lemma_code_roundtrip();
            lemma_word_pack(o, t, f);
        }
        Move(output)
    }

    /// The move as it prints (see `first_move_text`).
    pub fn display(&self) -> (s: String)
        ensures
            s@ == first_move_text(self@),
    {
        proof {
            use_type_invariant(self);
            lemma_word_fields(self.0);
            lemma_target_byte(self.0);
        }
        let orig = match Square::new((self.0 >> 10u16) as u8) {
            Ok(s) => s,
            Err(_) => Square::A1(),
        };
        let targ = match Square::new((self.0 >> 4u16) as u8) {
            Ok(s) => s,
            Err(_) => Square::A1(),
        };
        let flag = match Flag::new((self.0 % 16) as u8) {
            Ok(f) => f,
            Err(_) => Flag::Quiet,
        };
        proof {
            let c = (self.0 & 0xfu16) as int;
            assert(flag_of_code(c).unwrap().code() == c);
        }
        let mut out: Vec<char> = Vec::new();
        push_text(&mut out, "Move(");
        let o = orig.algebraic();
        push_text(&mut out, o.as_str());
        push_text(&mut out, " to ");
        let t = targ.algebraic();
        push_text(&mut out, t.as_str());
        push_text(&mut out, ", ");
        let n = flag.name();
        push_text(&mut out, n.as_str());
        push_text(&mut out, ")");
        proof {
            assert(out@ =~= first_move_text(self@));
        }
        string_of(&out)
    }
}


impl Move {
    /// The debugging text of the move: the 16 bits of its word in binary.
    pub fn debug_text(&self) -> (s: String)
        ensures
            s@ == crate::text::binary_digits(crate::types::movement::move_word(self@), 16),
    {
        proof {
            use_type_invariant(self);
            crate::types::movement::lemma_move_word(self.0);
        }
        let mut out: Vec<char> = Vec::new();
        crate::text::push_binary(&mut out, self.0 as u64, 16);
        string_of(&out)
    }
}

} // verus!
