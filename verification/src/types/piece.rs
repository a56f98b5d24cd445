//! The kinds of chess men, with the three-bit codes used to pack them.
use vstd::prelude::*;

verus! {

#[derive(Copy, Clone, Debug, PartialEq, Eq, Structural)]
pub enum Piece {
    NoPiece,
    Pawn,
    Knight,
    Bishop,
    Rook,
    Queen,
    King,
}

/// The piece with code `v`, for the codes 0 to 6.
pub open spec fn piece_of_code(v: int) -> Option<Piece> {
    if v == 0 {
        Some(Piece::NoPiece)
    } else if v == 1 {
        Some(Piece::Pawn)
    } else if v == 2 {
        Some(Piece::Knight)
    } else if v == 3 {
        Some(Piece::Bishop)
    } else if v == 4 {
        Some(Piece::Rook)
    } else if v == 5 {
        Some(Piece::Queen)
    } else if v == 6 {
        Some(Piece::King)
    } else {
        None
    }
}

impl Piece {
    /// The three-bit code of the piece: 0 for no piece, then pawn 1 up to king 6.
    pub open spec fn code(self) -> int {
        match self {
            Piece::NoPiece => 0,
            Piece::Pawn => 1,
            Piece::Knight => 2,
            Piece::Bishop => 3,
            Piece::Rook => 4,
            Piece::Queen => 5,
            Piece::King => 6,
        }
    }

    pub proof fn lemma_code_roundtrip(self)
        ensures
            piece_of_code(self.code()) == Some(self),
            0 <= self.code() <= 6,
    {
    }

    pub fn new(val: u8) -> (r: Result<Piece, &'static str>)
        ensures
            r is Ok <==> val <= 6,
            r matches Ok(p) ==> piece_of_code(val as int) == Some(p) && p.code() == val,
            r matches Err(e) ==> e@ == "Invalid piece creation range."@,
    {
        match val {
            0 => Ok(Piece::NoPiece),
            1 => Ok(Piece::Pawn),
            2 => Ok(Piece::Knight),
            3 => Ok(Piece::Bishop),
            4 => Ok(Piece::Rook),
            5 => Ok(Piece::Queen),
            6 => Ok(Piece::King),
            _ => Err("Invalid piece creation range."),
        }
    }

    pub fn val(&self) -> (r: u8)
        ensures
            r == self.code(),
    {
        match self {
            Piece::NoPiece => 0,
            Piece::Pawn => 1,
            Piece::Knight => 2,
            Piece::Bishop => 3,
            Piece::Rook => 4,
            Piece::Queen => 5,
            Piece::King => 6,
        }
    }

    pub fn is_piece(&self) -> (r: bool)
        ensures
            r == (*self != Piece::NoPiece),
    {
        match self {
            Piece::NoPiece => false,
            _ => true,
        }
    }

    /// The position of the piece's set among the six piece sets (pawns first).
    pub fn index(&self) -> (r: usize)
        requires
            *self != Piece::NoPiece,
        ensures
            r == self.code() - 1,
            r < 6,
    {
        (self.val() - 1) as usize
    }
}

/// The name of a piece, as its `Debug` form prints it.
pub open spec fn piece_name(p: Piece) -> Seq<char> {
    match p {
        Piece::NoPiece => "NoPiece"@,
        Piece::Pawn => "Pawn"@,
        Piece::Knight => "Knight"@,
        Piece::Bishop => "Bishop"@,
        Piece::Rook => "Rook"@,
        Piece::Queen => "Queen"@,
        Piece::King => "King"@,
    }
}

impl Piece {
    /// The name of the piece.
    pub fn name(&self) -> (s: &'static str)
        ensures
            s@ == piece_name(*self),
    {
        match self {
            Piece::NoPiece => "NoPiece",
            Piece::Pawn => "Pawn",
            Piece::Knight => "Knight",
            Piece::Bishop => "Bishop",
            Piece::Rook => "Rook",
            Piece::Queen => "Queen",
            Piece::King => "King",
        }
    }
}

} // verus!
