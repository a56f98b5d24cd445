//! Moves packed into 16 bits: six bits of origin square, six of target square
//! and four of flag.
use vstd::prelude::*;
use crate::text::push_char;
use crate::types::piece::Piece;
use crate::types::square::{Square, algebraic_name};

verus! {

#[derive(Copy, Clone, Debug, PartialEq, Eq, Structural)]
pub enum Flag {
    Quiet,
    DoublePush,
    ShortCastle,
    LongCastle,
    Capture,
    EnPassant,
    PromoteN,
    PromoteB,
    PromoteR,
    PromoteQ,
    PromoteCaptureN,
    PromoteCaptureB,
    PromoteCaptureR,
    PromoteCaptureQ,
}

/// The flag with four-bit code `v`; the codes 6 and 7 name no flag.
pub open spec fn flag_of_code(v: int) -> Option<Flag> {
    if v == 0 {
        Some(Flag::Quiet)
    } else if v == 1 {
        Some(Flag::DoublePush)
    } else if v == 2 {
        Some(Flag::ShortCastle)
    } else if v == 3 {
        Some(Flag::LongCastle)
    } else if v == 4 {
        Some(Flag::Capture)
    } else if v == 5 {
        Some(Flag::EnPassant)
    } else if v == 8 {
        Some(Flag::PromoteN)
    } else if v == 9 {
        Some(Flag::PromoteB)
    } else if v == 10 {
        Some(Flag::PromoteR)
    } else if v == 11 {
        Some(Flag::PromoteQ)
    } else if v == 12 {
        Some(Flag::PromoteCaptureN)
    } else if v == 13 {
        Some(Flag::PromoteCaptureB)
    } else if v == 14 {
        Some(Flag::PromoteCaptureR)
    } else if v == 15 {
        Some(Flag::PromoteCaptureQ)
    } else {
        None
    }
}

/// The name of a flag, as its variant is written.
pub open spec fn flag_name(f: Flag) -> Seq<char> {
    match f {
        Flag::Quiet => "Quiet"@,
        Flag::DoublePush => "DoublePush"@,
        Flag::ShortCastle => "ShortCastle"@,
        Flag::LongCastle => "LongCastle"@,
        Flag::Capture => "Capture"@,
        Flag::EnPassant => "EnPassant"@,
        Flag::PromoteN => "PromoteN"@,
        Flag::PromoteB => "PromoteB"@,
        Flag::PromoteR => "PromoteR"@,
        Flag::PromoteQ => "PromoteQ"@,
        Flag::PromoteCaptureN => "PromoteCaptureN"@,
        Flag::PromoteCaptureB => "PromoteCaptureB"@,
        Flag::PromoteCaptureR => "PromoteCaptureR"@,
        Flag::PromoteCaptureQ => "PromoteCaptureQ"@,
    }
}

impl Flag {
    /// The four-bit code of the flag. Bit 2 marks captures, bit 3 promotions.
    pub open spec fn code(self) -> int {
        match self {
            Flag::Quiet => 0,
            Flag::DoublePush => 1,
            Flag::ShortCastle => 2,
            Flag::LongCastle => 3,
            Flag::Capture => 4,
            Flag::EnPassant => 5,
            Flag::PromoteN => 8,
            Flag::PromoteB => 9,
            Flag::PromoteR => 10,
            Flag::PromoteQ => 11,
            Flag::PromoteCaptureN => 12,
            Flag::PromoteCaptureB => 13,
            Flag::PromoteCaptureR => 14,
            Flag::PromoteCaptureQ => 15,
        }
    }

    /// The piece a promotion flag promotes to, and no piece for the other flags.
    pub open spec fn spec_promotion_piece(self) -> Piece {
        match self {
            Flag::PromoteN | Flag::PromoteCaptureN => Piece::Knight,
            Flag::PromoteB | Flag::PromoteCaptureB => Piece::Bishop,
            Flag::PromoteR | Flag::PromoteCaptureR => Piece::Rook,
            Flag::PromoteQ | Flag::PromoteCaptureQ => Piece::Queen,
            _ => Piece::NoPiece,
        }
    }

    pub proof fn lemma_code_roundtrip(self)
        ensures
            flag_of_code(self.code()) == Some(self),
            0 <= self.code() < 16,
    {
    }

    /// Captures: plain captures, en passant and capturing promotions.
    pub open spec fn spec_is_capture(self) -> bool {
        matches!(self, Flag::Capture | Flag::EnPassant | Flag::PromoteCaptureN | Flag::PromoteCaptureB
            | Flag::PromoteCaptureR | Flag::PromoteCaptureQ)
    }

    pub open spec fn spec_is_castle(self) -> bool {
        matches!(self, Flag::ShortCastle | Flag::LongCastle)
    }

    pub open spec fn spec_is_promotion(self) -> bool {
        self.code() >= 8
    }

    pub fn new(val: u8) -> (r: Result<Flag, &'static str>)
        ensures
            r is Ok <==> flag_of_code(val as int) is Some,
            r matches Ok(f) ==> flag_of_code(val as int) == Some(f),
            r matches Err(e) ==> e@ == "Invalid move flag range."@,
    {
        match val {
            0 => Ok(Flag::Quiet),
            1 => Ok(Flag::DoublePush),
            2 => Ok(Flag::ShortCastle),
            3 => Ok(Flag::LongCastle),
            4 => Ok(Flag::Capture),
            5 => Ok(Flag::EnPassant),
            8 => Ok(Flag::PromoteN),
            9 => Ok(Flag::PromoteB),
            10 => Ok(Flag::PromoteR),
            11 => Ok(Flag::PromoteQ),
            12 => Ok(Flag::PromoteCaptureN),
            13 => Ok(Flag::PromoteCaptureB),
            14 => Ok(Flag::PromoteCaptureR),
            15 => Ok(Flag::PromoteCaptureQ),
            _ => Err("Invalid move flag range."),
        }
    }

    pub fn val(&self) -> (r: u8)
        ensures
            r == self.code(),
    {
        match self {
            Flag::Quiet => 0,
            Flag::DoublePush => 1,
            Flag::ShortCastle => 2,
            Flag::LongCastle => 3,
            Flag::Capture => 4,
            Flag::EnPassant => 5,
            Flag::PromoteN => 8,
            Flag::PromoteB => 9,
            Flag::PromoteR => 10,
            Flag::PromoteQ => 11,
            Flag::PromoteCaptureN => 12,
            Flag::PromoteCaptureB => 13,
            Flag::PromoteCaptureR => 14,
            Flag::PromoteCaptureQ => 15,
        }
    }

    pub fn promotion_piece(&self) -> (p: Piece)
        ensures
            p == self.spec_promotion_piece(),
    {
        match self {
            Flag::PromoteN | Flag::PromoteCaptureN => Piece::Knight,
            Flag::PromoteB | Flag::PromoteCaptureB => Piece::Bishop,
            Flag::PromoteR | Flag::PromoteCaptureR => Piece::Rook,
            Flag::PromoteQ | Flag::PromoteCaptureQ => Piece::Queen,
            _ => Piece::NoPiece,
        }
    }

    /// The variant's name, as `{:?}` writes it.
    pub fn name(&self) -> (s: String)
        ensures
            s@ == flag_name(*self),
    {
        let s = match self {
            Flag::Quiet => "Quiet",
            Flag::DoublePush => "DoublePush",
            Flag::ShortCastle => "ShortCastle",
            Flag::LongCastle => "LongCastle",
            Flag::Capture => "Capture",
            Flag::EnPassant => "EnPassant",
            Flag::PromoteN => "PromoteN",
            Flag::PromoteB => "PromoteB",
            Flag::PromoteR => "PromoteR",
            Flag::PromoteQ => "PromoteQ",
            Flag::PromoteCaptureN => "PromoteCaptureN",
            Flag::PromoteCaptureB => "PromoteCaptureB",
            Flag::PromoteCaptureR => "PromoteCaptureR",
            Flag::PromoteCaptureQ => "PromoteCaptureQ",
        };
        s.to_owned()
    }
}

/// What a move holds: its origin and target squares and its flag.
pub struct MoveView {
    pub orig: int,
    pub targ: int,
    pub flag: Flag,
}

#[derive(Copy, Clone, Debug, PartialEq, Eq, Structural)]
pub struct Move(u16);

impl View for Move {
    type V = MoveView;

    closed spec fn view(&self) -> MoveView {
        MoveView {
            orig: (self.0 >> 10u16) as int,
            targ: ((self.0 >> 4u16) & 0x3fu16) as int,
            flag: flag_of_code((self.0 & 0xfu16) as int).unwrap(),
        }
    }
}

/// The letter that names a promotion piece in a move, or nothing.
pub open spec fn promotion_suffix(p: Piece) -> Seq<char> {
    match p {
        Piece::Knight => seq!['n'],
        Piece::Bishop => seq!['b'],
        Piece::Rook => seq!['r'],
        Piece::Queen => seq!['q'],
        _ => Seq::empty(),
    }
}

/// How a move is written: origin, target, promotion letter, a space and the flag's name.
pub open spec fn move_text(m: MoveView) -> Seq<char> {
    algebraic_name(m.orig) + algebraic_name(m.targ) + promotion_suffix(m.flag.spec_promotion_piece())
        + seq![' '] + flag_name(m.flag)
}

/// The en passant target a double push leaves: the square the pawn passed over.
pub open spec fn double_push_target(m: MoveView) -> int {
    (if m.orig / 8 == 1 { 2int } else { 5int }) * 8 + m.targ % 8
}



/// The 16-bit word a move is packed into: origin, target and flag code.
pub open spec fn move_word(m: MoveView) -> u64 {
    (m.orig * 1024 + m.targ * 16 + m.flag.code()) as u64
}

/// A word whose low four bits are a flag code is the packing of its three fields.
pub proof fn lemma_move_word(x: u16)
    requires
        flag_of_code((x & 0xfu16) as int) is Some,
    ensures
        move_word(MoveView {
            orig: (x >> 10u16) as int,
            targ: ((x >> 4u16) & 0x3fu16) as int,
            flag: flag_of_code((x & 0xfu16) as int).unwrap(),
        }) == x as u64,
{
    assert(x as int == (x >> 10u16) * 1024 + ((x >> 4u16) & 0x3fu16) * 16 + (x & 0xfu16)) by (bit_vector);
    let c = (x & 0xfu16) as int;
    assert(flag_of_code(c).unwrap().code() == c);
}

/// The fields of a packed move word.
pub proof fn lemma_word_fields(x: u16)
    by (bit_vector)
    ensures
        x >> 10u16 < 64,
        (x >> 4u16) & 0x3fu16 < 64,
        x & 0xfu16 < 16,
        x & 0b1111u16 == x & 0xfu16,
        (x & 0b100u16 != 0) <==> ((4 <= x & 0xfu16 && x & 0xfu16 < 8) || 12 <= x & 0xfu16),
        (x & 0b1110u16 == 0b0010u16) <==> (x & 0xfu16 == 2 || x & 0xfu16 == 3),
        (x & 0b1000u16 == 0b1000u16) <==> x & 0xfu16 >= 8,
{
}

/// A move word is determined by its three fields.
proof fn lemma_word_eq(x: u16, y: u16)
    by (bit_vector)
    requires
        x >> 10u16 == y >> 10u16,
        (x >> 4u16) & 0x3fu16 == (y >> 4u16) & 0x3fu16,
        x & 0xfu16 == y & 0xfu16,
    ensures
        x == y,
{
}

/// Packing three fields into a move word and reading them back.
pub proof fn lemma_word_pack(o: u16, t: u16, f: u16)
    by (bit_vector)
    requires
        o < 64,
        t < 64,
        f < 16,
    ensures
        (((o << 10u16) | (t << 4u16)) | f) >> 10u16 == o,
        ((((o << 10u16) | (t << 4u16)) | f) >> 4u16) & 0x3fu16 == t,
        (((o << 10u16) | (t << 4u16)) | f) & 0xfu16 == f,
{
}

impl Move {
    #[verifier::type_invariant]
    pub closed spec fn wf(self) -> bool {
        flag_of_code((self.0 & 0xfu16) as int) is Some
    }

    /// Moves are equal exactly when they hold the same squares and flag.
    pub proof fn lemma_view_injective(a: Move, b: Move)
        requires
            a.wf(),
            b.wf(),
            a@ == b@,
        ensures
            a == b,
    {
        let (x, y) = (a.0, b.0);
        let (cx, cy) = ((x & 0xfu16) as int, (y & 0xfu16) as int);
        lemma_word_fields(x);
        lemma_word_fields(y);
        assert(flag_of_code(cx).unwrap().code() == cx);
        assert(flag_of_code(cy).unwrap().code() == cy);
        lemma_word_eq(x, y);
    }

    /// The squares of a move are squares of the board.
    pub proof fn lemma_squares_in_range(self)
        ensures
            0 <= self@.orig < 64,
            0 <= self@.targ < 64,
    {
        lemma_word_fields(self.0);
    }

    pub fn new(orig: Square, targ: Square, flag: Flag) -> (m: Move)
        ensures
            m@ == (MoveView { orig: orig@, targ: targ@, flag }),
    {
        let o = orig.val() as u16;
        let t = targ.val() as u16;
        let f = flag.val() as u16;
        let mut output: u16 = o << 10u16;
        output = output | (t << 4u16);
        output = output | f;
        proof {
            flag.lemma_code_roundtrip();
            lemma_word_pack(o, t, f);
        }
        Self(output)
    }

    pub fn orig(&self) -> (s: Square)
        ensures
            s@ == self@.orig,
    {
        let v = self.0 >> 10u16;
        proof {
            lemma_word_fields(self.0);
        }
        Square::new_unchecked(v as u8)
    }

    pub fn targ(&self) -> (s: Square)
        ensures
            s@ == self@.targ,
    {
        let v = (self.0 >> 4u16) & 0x3fu16;
        proof {
            lemma_word_fields(self.0);
        }
        Square::new_unchecked(v as u8)
    }

    pub fn flag(&self) -> (f: Flag)
        ensures
            f == self@.flag,
    {
        proof {
            use_type_invariant(self);
        }
        match Flag::new((self.0 & 0xfu16) as u8) {
            Ok(f) => f,
            Err(_) => Flag::Quiet,
        }
    }

    /// The flag code of the move, read from its low four bits.
    fn code_bits(&self) -> (c: u16)
        ensures
            c == self.0 & 0xfu16,
            c < 16,
            flag_of_code(c as int) == Some(self@.flag),
            self@.flag.code() == c,
    {
        proof {
            use_type_invariant(self);
            let x = self.0;
            lemma_word_fields(x);
            let f = flag_of_code((x & 0xfu16) as int).unwrap();
            assert(f.code() == (x & 0xfu16) as int);
        }
        self.0 & 0xfu16
    }

    pub fn is_capture(&self) -> (r: bool)
        ensures
            r == self@.flag.spec_is_capture(),
    {
        let c = self.code_bits();
        proof {
            lemma_word_fields(self.0);
        }
        self.0 & 0b100 != 0 || self.is_en_passant()
    }

    pub fn is_castle(&self) -> (r: bool)
        ensures
            r == self@.flag.spec_is_castle(),
    {
        let c = self.code_bits();
        proof {
            lemma_word_fields(self.0);
        }
        self.0 & 0b1110 == 0b0010
    }

    pub fn is_promotion(&self) -> (r: bool)
        ensures
            r == self@.flag.spec_is_promotion(),
    {
        let c = self.code_bits();
        proof {
            lemma_word_fields(self.0);
        }
        self.0 & 0b1000 == 0b1000
    }

    pub fn is_en_passant(&self) -> (r: bool)
        ensures
            r == (self@.flag == Flag::EnPassant),
    {
        let c = self.code_bits();
        proof {
            lemma_word_fields(self.0);
        }
        self.0 & 0b1111 == 0b0101
    }

    /// For a double push, the square the pawn passed over: the en passant target it leaves.
    pub fn ep_square(&self) -> (r: Option<Square>)
        requires
            self@.flag == Flag::DoublePush ==> (self@.orig / 8 == 1 || self@.orig / 8 == 6),
        ensures
            r is Some <==> self@.flag == Flag::DoublePush,
            r matches Some(s) ==> s@ == double_push_target(self@),
    {
        let c = self.code_bits();
        proof {
            lemma_word_fields(self.0);
        }
        if self.0 & 0b1111 == 0b0001 {
            let rank: u8 = if self.orig().rank() == 1 { 2 } else { 5 };
            match Square::from_coord(rank, self.targ().file()) {
                Ok(s) => Some(s),
                Err(_) => None,
            }
        } else {
            None
        }
    }

    pub fn promotion_piece(&self) -> (p: Piece)
        ensures
            p == self@.flag.spec_promotion_piece(),
    {
        self.flag().promotion_piece()
    }

    /// The move as it is printed: `e7e8q PromoteQ`.
    pub fn display(&self) -> (s: String)
        ensures
            s@ == move_text(self@),
    {
        let mut s = self.orig().algebraic();
        let t = self.targ().algebraic();
        s.append(t.as_str());
        match self.promotion_piece() {
            Piece::Knight => push_char(&mut s, 'n'),
            Piece::Bishop => push_char(&mut s, 'b'),
            Piece::Rook => push_char(&mut s, 'r'),
            Piece::Queen => push_char(&mut s, 'q'),
            _ => {},
        }
        push_char(&mut s, ' ');
        let name = self.flag().name();
        s.append(name.as_str());
        proof {
            assert(s@ =~= move_text(self@));
        }
        s
    }
}

#[allow(non_snake_case)]
impl Move {
    /// Kingside castling, for either side: castles carry no squares.
    pub fn SHORT_CASTLE() -> (m: Move)
        ensures
            m@ == (MoveView { orig: 0, targ: 0, flag: Flag::ShortCastle }),
    {
        Move::new(Square::A1(), Square::A1(), Flag::ShortCastle)
    }

    /// Queenside castling, for either side.
    pub fn LONG_CASTLE() -> (m: Move)
        ensures
            m@ == (MoveView { orig: 0, targ: 0, flag: Flag::LongCastle }),
    {
        Move::new(Square::A1(), Square::A1(), Flag::LongCastle)
    }

    pub fn WHITE_SHORT_CASTLE() -> (m: Move)
        ensures
            m@ == (MoveView { orig: 4, targ: 6, flag: Flag::ShortCastle }),
    {
        Move::new(Square::E1(), Square::G1(), Flag::ShortCastle)
    }

    pub fn WHITE_LONG_CASTLE() -> (m: Move)
        ensures
            m@ == (MoveView { orig: 4, targ: 2, flag: Flag::LongCastle }),
    {
        Move::new(Square::E1(), Square::C1(), Flag::LongCastle)
    }

    pub fn BLACK_SHORT_CASTLE() -> (m: Move)
        ensures
            m@ == (MoveView { orig: 60, targ: 62, flag: Flag::ShortCastle }),
    {
        Move::new(Square::E8(), Square::G8(), Flag::ShortCastle)
    }

    pub fn BLACK_LONG_CASTLE() -> (m: Move)
        ensures
            m@ == (MoveView { orig: 60, targ: 58, flag: Flag::LongCastle }),
    {
        Move::new(Square::E8(), Square::C8(), Flag::LongCastle)
    }
}


impl Move {
    /// The debugging text of the move: the 16 bits of its word in binary.
    pub fn debug_text(&self) -> (s: String)
        ensures
            s@ == crate::text::binary_digits(crate::types::movement::move_word(self@), 16),
    {
        proof {
            use_type_invariant(self);
            crate::types::movement::lemma_move_word(self.0);
        }
        let mut out: Vec<char> = Vec::new();
        crate::text::push_binary(&mut out, self.0 as u64, 16);
        crate::text::string_of(&out)
    }
}


/// The fifth character of a move's text is the UCI letter of the piece it promotes to:
/// `n` for a knight, `b` for a bishop, `r` for a rook, `q` for a queen; a move that does
/// not promote has the space before its flag name there.
pub proof fn lemma_move_text_letter(m: MoveView)
    ensures
        (m.flag == Flag::PromoteN || m.flag == Flag::PromoteCaptureN) ==> move_text(m)[4] == 'n',
        (m.flag == Flag::PromoteB || m.flag == Flag::PromoteCaptureB) ==> move_text(m)[4] == 'b',
        (m.flag == Flag::PromoteR || m.flag == Flag::PromoteCaptureR) ==> move_text(m)[4] == 'r',
        (m.flag == Flag::PromoteQ || m.flag == Flag::PromoteCaptureQ) ==> move_text(m)[4] == 'q',
        m.flag.spec_promotion_piece() == Piece::Knight ==> move_text(m)[4] == 'n',
        m.flag.spec_promotion_piece() == Piece::Bishop ==> move_text(m)[4] == 'b',
        m.flag.spec_promotion_piece() == Piece::Rook ==> move_text(m)[4] == 'r',
        m.flag.spec_promotion_piece() == Piece::Queen ==> move_text(m)[4] == 'q',
        !m.flag.spec_is_promotion() ==> move_text(m)[4] == ' ',
{
    let head = algebraic_name(m.orig) + algebraic_name(m.targ);
    assert(head.len() == 4);
    let suffix = promotion_suffix(m.flag.spec_promotion_piece());
    assert(move_text(m) == head + suffix + seq![' '] + flag_name(m.flag));
    assert((head + suffix + seq![' '] + flag_name(m.flag))[4] == (suffix + seq![' '])[0]);
}

} // verus!
