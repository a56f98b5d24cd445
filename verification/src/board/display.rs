//! The board as text: a diagram of the pieces, the side to move, the ply and the flags.
use vstd::prelude::*;
use crate::bits::bit;
use crate::board::Board;
use crate::board::model::BoardView;
use crate::text::{center, decimal, push_text, push_centered, push_decimal, string_of};
use crate::types::bitboard::Bitboard;
use crate::types::state_metadata::{flags_text, captured_code};

verus! {

/// The chess symbol drawn for colour `i` (0 for white) and piece set `j` (pawns first):
/// U+265F down to U+265A for white, U+2659 down to U+2654 for black.
pub open spec fn piece_symbol(i: int, j: int) -> char {
    if i == 0 {
        if j == 0 { '\u{265f}' } else if j == 1 { '\u{265e}' } else if j == 2 { '\u{265d}' }
        else if j == 3 { '\u{265c}' } else if j == 4 { '\u{265b}' } else { '\u{265a}' }
    } else {
        if j == 0 { '\u{2659}' } else if j == 1 { '\u{2658}' } else if j == 2 { '\u{2657}' }
        else if j == 3 { '\u{2656}' } else if j == 4 { '\u{2655}' } else { '\u{2654}' }
    }
}

/// The character drawn for square `b`: the symbol of the last of the first `n` (colour,
/// piece) pairs, white before black and pawns first, whose sets both hold it; `.` if none.
pub open spec fn cell_from(colors: Seq<u64>, pieces: Seq<u64>, b: u64, n: int) -> char
    decreases n,
{
    if n <= 0 {
        '.'
    } else {
        let i = (n - 1) / 6;
        let j = (n - 1) % 6;
        if bit(colors[i] & pieces[j], b) {
            piece_symbol(i, j)
        } else {
            cell_from(colors, pieces, b, n - 1)
        }
    }
}

/// The rank number printed before the row after cell `k`.
pub open spec fn rank_label(k: int) -> Seq<char> {
    if k == 7 { " 7 "@ }
    else if k == 15 { " 6 "@ }
    else if k == 23 { " 5 "@ }
    else if k == 31 { " 4 "@ }
    else if k == 39 { " 3 "@ }
    else if k == 47 { " 2 "@ }
    else if k == 55 { " 1 "@ }
    else { ""@ }
}

/// The square drawn at cell `k` of the diagram, which runs from a8 to h1.
pub open spec fn cell_square(k: int) -> int {
    (7 - k / 8) * 8 + k % 8
}

/// The first `k` cells of the diagram, each followed by a space or, at the end of a
/// row, a line break and the next rank's number.
pub open spec fn grid_text(colors: Seq<u64>, pieces: Seq<u64>, k: int) -> Seq<char>
    decreases k,
{
    if k <= 0 {
        Seq::empty()
    } else {
        let prev = grid_text(colors, pieces, k - 1);
        let c = cell_from(colors, pieces, cell_square(k - 1) as u64, 12);
        prev.push(c) + (if (k - 1) % 8 != 7 { " "@ } else { "\n"@ + rank_label(k - 1) })
    }
}

/// How a board is printed: the diagram with rank and file names, the side to move and
/// the ply centred in 18 columns, then the flags.
pub open spec fn board_text(v: BoardView) -> Seq<char> {
    "\n"@ + " 8 "@ + grid_text(v.colors, v.pieces, 64) + "   a b c d e f g h\n\n"@
        + " "@ + center((if v.white_to_move { "White"@ } else { "Black"@ }) + " to move"@, 18) + "\n"@
        + " "@ + center(decimal(v.ply as nat) + " ply"@, 18) + "\n"@
        + flags_text(v.flags())
}

/// The symbol for colour `i` and piece set `j`.
fn symbol(i: usize, j: usize) -> (c: char)
    requires
        i < 2,
        j < 6,
    ensures
        c == piece_symbol(i as int, j as int),
{
    if i == 0 {
        if j == 0 { '\u{265f}' } else if j == 1 { '\u{265e}' } else if j == 2 { '\u{265d}' }
        else if j == 3 { '\u{265c}' } else if j == 4 { '\u{265b}' } else { '\u{265a}' }
    } else {
        if j == 0 { '\u{2659}' } else if j == 1 { '\u{2658}' } else if j == 2 { '\u{2657}' }
        else if j == 3 { '\u{2656}' } else if j == 4 { '\u{2655}' } else { '\u{2654}' }
    }
}

impl Board {
    /// The character drawn for square `b`.
    fn cell(&self, b: u64) -> (c: char)
        requires
            b < 64,
        ensures
            c == cell_from(self@.colors, self@.pieces, b, 12),
    {
        let colors = self.colors();
        let pieces = self.pieces();
        self.check_sizes();
        let mut n: usize = 12;
        while n > 0
            invariant
                n <= 12,
                b < 64,
                colors@.map_values(|x: Bitboard| x.0) == self@.colors,
                pieces@.map_values(|x: Bitboard| x.0) == self@.pieces,
                cell_from(self@.colors, self@.pieces, b, 12) == cell_from(self@.colors, self@.pieces, b, n as int),
            decreases n,
        {
            let i = (n - 1) / 6;
            let j = (n - 1) % 6;
            proof {
                assert(colors[i as int].0 == self@.colors[i as int]);
                assert(pieces[j as int].0 == self@.pieces[j as int]);
            }
            if (colors[i].0 & pieces[j].0) >> b & 1 == 1 {
                return symbol(i, j);
            }
            n -= 1;
        }
        '.'
    }

    /// The board as it is printed (see `board_text`); the capture field of the current
    /// flags must hold a piece code.
    pub fn display(&self) -> (s: String)
        requires
            captured_code(self@.flags()) != 7,
        ensures
            s@ == board_text(self@),
    {
        let ghost v = self@;
        let mut out: Vec<char> = Vec::new();
        push_text(&mut out, "\n");
        push_text(&mut out, " 8 ");
        let ghost head = out@;
        let mut k: usize = 0;
        while k < 64
            invariant
                k <= 64,
                v == self@,
                out@ == head + grid_text(v.colors, v.pieces, k as int),
            decreases 64 - k,
        {
            let b = ((7 - k / 8) * 8 + k % 8) as u64;
            let c = self.cell(b);
            out.push(c);
            if k % 8 != 7 {
                push_text(&mut out, " ");
            } else {
                push_text(&mut out, "\n");
                let label = if k == 7 { " 7 " } else if k == 15 { " 6 " } else if k == 23 { " 5 " } else if k == 31 {
                    " 4 "
                } else if k == 39 { " 3 " } else if k == 47 { " 2 " } else if k == 55 { " 1 " } else { "" };
                push_text(&mut out, label);
            }
            k += 1;
            proof {
                assert(out@ =~= head + grid_text(v.colors, v.pieces, k as int));
            }
        }
        push_text(&mut out, "   a b c d e f g h\n\n");
        let mut field: Vec<char> = Vec::new();
        push_text(&mut field, if self.is_white_to_move() { "White" } else { "Black" });
        push_text(&mut field, " to move");
        push_text(&mut out, " ");
        push_centered(&mut out, &field, 18);
        push_text(&mut out, "\n");
        let mut field: Vec<char> = Vec::new();
        push_decimal(&mut field, self.ply() as u32);
        push_text(&mut field, " ply");
        push_text(&mut out, " ");
        push_centered(&mut out, &field, 18);
        push_text(&mut out, "\n");
        let flags = self.curr_flags().display();
        push_text(&mut out, flags.as_str());
        proof {
            assert(out@ =~= board_text(v));
        }
        string_of(&out)
    }
}


/// The board as its debugging text prints it: its two colour sets and six piece sets as
/// `0x` and 16 hexadecimal digits, one a line, under `color_bb` and `piece_bb`, then the
/// debugging text of its current flags.
pub open spec fn board_debug_text(v: BoardView) -> Seq<char> {
    let h = |x: u64| "0x"@ + crate::text::hex_digits(x) + "\n"@;
    "    color_bb\n"@ + h(v.colors[0]) + h(v.colors[1]) + "    piece_bb\n"@ + h(v.pieces[0]) + h(v.pieces[1])
        + h(v.pieces[2]) + h(v.pieces[3]) + h(v.pieces[4]) + h(v.pieces[5])
        + crate::types::state_metadata::flags_debug_text(v.flags()) + "\n"@
}

/// Appends `0x`, the 16 hexadecimal digits of `x` and a line break.
fn push_hex_line(out: &mut Vec<char>, x: u64)
    ensures
        final(out)@ == old(out)@ + "0x"@ + crate::text::hex_digits(x) + "\n"@,
{
    push_text(out, "0x");
    crate::text::push_hex(out, x);
    push_text(out, "\n");
}

impl Board {
    /// The debugging text of the board (see `board_debug_text`); the capture field of the
    /// current flags must hold a piece code.
    pub fn debug_text(&self) -> (s: String)
        requires
            captured_code(self@.flags()) != 7,
        ensures
            s@ == board_debug_text(self@),
    {
        let ghost v = self@;
        let colors = self.colors();
        let pieces = self.pieces();
        self.check_sizes();
        proof {
            assert(colors[0].0 == v.colors[0] && colors[1].0 == v.colors[1]);
            assert(pieces[0].0 == v.pieces[0] && pieces[1].0 == v.pieces[1] && pieces[2].0 == v.pieces[2]);
            assert(pieces[3].0 == v.pieces[3] && pieces[4].0 == v.pieces[4] && pieces[5].0 == v.pieces[5]);
        }
        let mut out: Vec<char> = Vec::new();
        push_text(&mut out, "    color_bb\n");
        push_hex_line(&mut out, colors[0].val());
        push_hex_line(&mut out, colors[1].val());
        push_text(&mut out, "    piece_bb\n");
        push_hex_line(&mut out, pieces[0].val());
        push_hex_line(&mut out, pieces[1].val());
        push_hex_line(&mut out, pieces[2].val());
        push_hex_line(&mut out, pieces[3].val());
        push_hex_line(&mut out, pieces[4].val());
        push_hex_line(&mut out, pieces[5].val());
        let flags = self.curr_flags().debug_text();
        push_text(&mut out, flags.as_str());
        push_text(&mut out, "\n");
        proof {
            assert(out@ =~= board_debug_text(v));
        }
        string_of(&out)
    }
}

} // verus!
