//! The board: piece sets, side to move, and the history of flags.
pub mod display;
pub mod fen;
pub mod generate;
pub mod laws;
pub mod model;
pub mod move_gen;
pub mod perft;
pub mod sanity;

use vstd::prelude::*;
use crate::bits::{bit, single, group_bits};
use crate::types::square::algebraic_index;
use crate::types::bitboard::Bitboard;
use crate::types::movement::{Flag, Move};
use crate::types::piece::{Piece, piece_of_code};
use crate::types::square::Square;
use crate::types::state_metadata::{BoardStateFlags, captured_code, captured_sq, next_word};
use model::{BoardView, byte_len, utf8_len, two_bytes_on, square_named, MAX_NUM_MOVES, WHITE_IDX, BLACK_IDX, PAWN_IDX, KNIGHT_IDX, BISHOP_IDX, ROOK_IDX, QUEEN_IDX,
    KING_IDX, find_piece_from, find_piece_spec, castle_squares, promotion_index, ep_after, ep_victim, move_bit};

verus! {

broadcast use group_bits;

#[derive(Debug)]
pub struct Board {
    color_bb: [Bitboard; 2],
    piece_bb: [Bitboard; 6],
    white_to_move: bool,
    state_stack: [BoardStateFlags; MAX_NUM_MOVES],
    total_ply: u16,
}

impl View for Board {
    type V = BoardView;

    closed spec fn view(&self) -> BoardView {
        BoardView {
            colors: self.color_bb@.map_values(|b: Bitboard| b.0),
            pieces: self.piece_bb@.map_values(|b: Bitboard| b.0),
            white_to_move: self.white_to_move,
            stack: self.state_stack@.map_values(|f: BoardStateFlags| f@),
            ply: self.total_ply as int,
        }
    }
}

impl Clone for Board {
    fn clone(&self) -> (b: Board)
        ensures
            b@ == self@,
    {
        proof {
            use_type_invariant(self);
        }
        Board {
            color_bb: self.color_bb,
            piece_bb: self.piece_bb,
            white_to_move: self.white_to_move,
            state_stack: self.state_stack,
            total_ply: self.total_ply,
        }
    }
}

impl Board {
    #[verifier::type_invariant]
    closed spec fn inv(self) -> bool {
        (self.total_ply as int) < MAX_NUM_MOVES
    }

    /// Every board has two colour sets, six piece sets and a full history, and its ply indexes the history.
    pub fn check_sizes(&self)
        ensures
            self@.well_sized(),
    {
        proof {
            use_type_invariant(self);
        }
    }

    /// The current flags.
    pub fn curr_flags(&self) -> (f: BoardStateFlags)
        ensures
            f@ == self@.flags(),
            self@.well_sized(),
    {
        proof {
            use_type_invariant(self);
        }
        self.state_stack[self.total_ply as usize]
    }

    /// The number of half-moves played.
    pub(crate) fn ply(&self) -> (r: u16)
        ensures
            r == self@.ply,
    {
        self.total_ply
    }

    pub fn is_white_to_move(&self) -> (r: bool)
        ensures
            r == self@.white_to_move,
    {
        self.white_to_move
    }

    /// The en passant target of the current flags.
    pub fn ep_target(&self) -> (r: Option<Square>)
        ensures
            crate::types::square::opt_index(r) == crate::types::state_metadata::ep_target_of(self@.flags()),
    {
        self.curr_flags().ep_target()
    }

    /// The squares of the side to move.
    pub fn friend(&self) -> (b: Bitboard)
        ensures
            b.0 == self@.friend(),
    {
        self.color_bb[!(self.white_to_move) as usize]
    }

    /// The squares of the side not to move.
    pub fn enemy(&self) -> (b: Bitboard)
        ensures
            b.0 == self@.enemy(),
    {
        self.color_bb[self.white_to_move as usize]
    }

    pub fn colors(&self) -> (c: [Bitboard; 2])
        ensures
            c@.map_values(|b: Bitboard| b.0) == self@.colors,
    {
        self.color_bb
    }

    pub fn pieces(&self) -> (p: [Bitboard; 6])
        ensures
            p@.map_values(|b: Bitboard| b.0) == self@.pieces,
    {
        self.piece_bb
    }

    /// The piece on the squares of `loc_bb`: the first piece set (pawns first) that meets it.
    fn find_piece(&self, loc_bb: Bitboard) -> (p: Piece)
        ensures
            p == find_piece_spec(self@.pieces, loc_bb.0),
    {
        let mut i: usize = 0;
        while i < 6
            invariant
                i <= 6,
                find_piece_spec(self@.pieces, loc_bb.0) == find_piece_from(self@.pieces, loc_bb.0, i as int),
            decreases 6 - i,
        {
            if !self.piece_bb[i].bitand(loc_bb).is_empty() {
                return match Piece::new((i + 1) as u8) {
                    Ok(p) => p,
                    Err(_) => Piece::NoPiece,
                };
            }
            i += 1;
        }
        Piece::NoPiece
    }

    /// Move `m` can be made on this board (see `makeable`).
    pub fn can_make(&self, action: &Move) -> (r: bool)
        ensures
            r == self@.makeable(action@),
    {
        proof {
            use_type_invariant(self);
            action.lemma_squares_in_range();
        }
        let orig = action.orig();
        let flag = action.flag();
        let orig_bb = orig.bb();
        let room = (self.total_ply as usize) + 1 < MAX_NUM_MOVES;
        let starts_on_piece = action.is_castle() || action.is_en_passant() || self.find_piece(orig_bb).is_piece();
        let push_rank = flag != Flag::DoublePush || orig.rank() == 1 || orig.rank() == 6;
        let pawn_hit = self.piece_bb[PAWN_IDX].bitand(orig_bb);
        let pawn_move = !pawn_hit.is_empty();
        let clock = self.curr_flags().word() < u32::MAX || (action.is_capture() && pawn_move);
        proof {
            assert(self.piece_bb[PAWN_IDX as int].0 == self@.pieces[PAWN_IDX as int]);
            assert(pawn_hit.0 == self@.pieces[PAWN_IDX as int] & single(action@.orig));
        }
        room && starts_on_piece && push_rank && clock
    }

    /// Makes move `m` for the side to move.
    pub fn make_move(&mut self, action: &Move)
        requires
            old(self)@.makeable(action@),
        ensures
            final(self)@ == old(self)@.make(action@),
    {
        proof {
            use_type_invariant(&*self);
        }
        let ghost v = self@;
        let action_flag = action.flag();
        let is_short_castle = action_flag == Flag::ShortCastle;
        let orig = action.orig();
        let targ = action.targ();
        let orig_bb = orig.bb();
        let targ_bb = targ.bb();
        let is_pawn_move = !self.piece_bb[PAWN_IDX].bitand(orig_bb).is_empty();
        let me: usize = if self.white_to_move { WHITE_IDX } else { BLACK_IDX };
        let other: usize = 1 - me;
        let (short_rook_home, long_rook_home, king_home): (u8, u8, u8) = if self.white_to_move {
            (7, 0, 4)
        } else {
            (63, 56, 60)
        };
        let disable_all = orig.val() == king_home || action.is_castle();
        let kingside = orig.val() == short_rook_home || disable_all;
        let queenside = orig.val() == long_rook_home || disable_all;
        let (disable_wk, disable_wq, disable_bk, disable_bq) = if self.white_to_move {
            (kingside, queenside, false, false)
        } else {
            (false, false, kingside, queenside)
        };
        let mut captured_piece = Piece::NoPiece;

        if action.is_castle() {
            let (orig_rook, dest_rook, orig_king, dest_king) = match (self.white_to_move, is_short_castle) {
                (true, true) => (Bitboard::WK_ROOK(), Bitboard::WK_ROOK_DEST(), Bitboard::W_KING(), Bitboard::WK_KING_DEST()),
                (true, false) => (Bitboard::WQ_ROOK(), Bitboard::WQ_ROOK_DEST(), Bitboard::W_KING(), Bitboard::WQ_KING_DEST()),
                (false, true) => (Bitboard::BK_ROOK(), Bitboard::BK_ROOK_DEST(), Bitboard::B_KING(), Bitboard::BK_KING_DEST()),
                (false, false) => (Bitboard::BQ_ROOK(), Bitboard::BQ_ROOK_DEST(), Bitboard::B_KING(), Bitboard::BQ_KING_DEST()),
            };
            proof {
                let (a, b, c, d) = castle_squares(v.white_to_move, action@.flag == Flag::ShortCastle);
                crate::bits::lemma_castle_words();
                assert(orig_rook.0 == single(a) && dest_rook.0 == single(b) && orig_king.0 == single(c) && dest_king.0 == single(d));
            }
            self.color_bb[me] = self.color_bb[me].bitand(orig_king.bitor(orig_rook).not()).bitor(dest_king.bitor(dest_rook));
            self.piece_bb[ROOK_IDX] = self.piece_bb[ROOK_IDX].bitand(orig_rook.not()).bitor(dest_rook);
            self.piece_bb[KING_IDX] = self.piece_bb[KING_IDX].bitand(orig_king.not()).bitor(dest_king);
            proof {
                let (orook, drook, oking, dking) = castle_squares(v.white_to_move, action@.flag == Flag::ShortCastle);
                let p = v.pieces.update(ROOK_IDX as int, move_bit(v.pieces[ROOK_IDX as int], orook, drook));
                let p = p.update(KING_IDX as int, move_bit(p[KING_IDX as int], oking, dking));
                assert(self@.pieces =~= p);
            }
        } else if action.is_en_passant() {
            let captured_bb = if self.white_to_move {
                targ_bb.sout_one()
            } else {
                targ_bb.nort_one()
            };
            captured_piece = Piece::Pawn;
            self.color_bb[me] = self.color_bb[me].bitand(orig_bb.not()).bitor(targ_bb);
            self.color_bb[other] = self.color_bb[other].bitand(captured_bb.not());
            self.piece_bb[PAWN_IDX] = self.piece_bb[PAWN_IDX].bitand(orig_bb.bitor(captured_bb).not()).bitor(targ_bb);
            proof {
                let (o, t) = (action@.orig, action@.targ);
                let victim = ep_victim(v.white_to_move, t);
                assert(captured_bb.0 == victim);
                let p = v.pieces.update(PAWN_IDX as int, (v.pieces[PAWN_IDX as int] & !(single(o) | victim)) | single(t));
                assert(self@.pieces =~= p);
            }
        } else {
            self.color_bb[me] = self.color_bb[me].bitand(orig_bb.not()).bitor(targ_bb);
            self.color_bb[other] = self.color_bb[other].bitand(targ_bb.not());
            let mut orig_piece_idx = self.find_piece(orig_bb).index();
            self.piece_bb[orig_piece_idx] = self.piece_bb[orig_piece_idx].bitand(orig_bb.not());
            let ghost after_lift = self@.pieces;
            proof {
                let from = find_piece_spec(v.pieces, single(action@.orig)).code() - 1;
                assert(from == orig_piece_idx);
                assert(after_lift =~= v.pieces.update(from, v.pieces[from] & !single(action@.orig)));
            }
            if action.is_promotion() {
                orig_piece_idx = match action_flag {
                    Flag::PromoteCaptureN | Flag::PromoteN => KNIGHT_IDX,
                    Flag::PromoteCaptureB | Flag::PromoteB => BISHOP_IDX,
                    Flag::PromoteCaptureR | Flag::PromoteR => ROOK_IDX,
                    _ => QUEEN_IDX,
                };
            }
            captured_piece = self.find_piece(targ_bb);
            if captured_piece.is_piece() {
                let ci = captured_piece.index();
                self.piece_bb[ci] = self.piece_bb[ci].bitand(targ_bb.not());
            }
            let ghost after_cap = self@.pieces;
            proof {
                let t = action@.targ;
                let p = after_lift;
                let cap = find_piece_spec(p, single(t));
                assert(cap == captured_piece);
                let p2 = if cap != Piece::NoPiece { p.update(cap.code() - 1, p[cap.code() - 1] & !single(t)) } else { p };
                assert(after_cap =~= p2);
                let to = if action@.flag.spec_is_promotion() { promotion_index(action@.flag) } else { find_piece_spec(v.pieces, single(action@.orig)).code() - 1 };
                assert(to == orig_piece_idx);
            }
            self.piece_bb[orig_piece_idx] = self.piece_bb[orig_piece_idx].bitor(targ_bb);
            proof {
                assert(self@.pieces =~= after_cap.update(orig_piece_idx as int, after_cap[orig_piece_idx as int] | single(action@.targ)));
            }
        }

        let ep = action.ep_square();
        proof {
            assert(crate::types::square::opt_index(ep) == ep_after(action@));
        }
        let next = self.curr_flags().next_move(
            action.is_capture() && is_pawn_move,
            disable_wk,
            disable_wq,
            disable_bk,
            disable_bq,
            ep,
            captured_piece,
            targ,
        );
        let slot = self.total_ply as usize + 1;
        self.state_stack[slot] = next;
        self.total_ply = self.total_ply + 1;
        self.white_to_move = !self.white_to_move;
        proof {
            let w = v.make(action@);
            assert(self@.colors =~= w.colors);
            assert(self@.pieces =~= w.pieces);
            assert(self@.stack =~= w.stack);
            assert(self@ =~= w);
        }
    }

    /// Takes back move `m`, the last move made.
    pub fn unmake_move(&mut self, action: &Move)
        requires
            old(self)@.ply >= 1,
            !action@.flag.spec_is_castle() && action@.flag != Flag::EnPassant ==> {
                &&& find_piece_spec(old(self)@.pieces, single(action@.targ)) != Piece::NoPiece
                &&& captured_code(old(self)@.flags()) != 7
            },
        ensures
            final(self)@ == old(self)@.unmake(action@),
    {
        proof {
            use_type_invariant(&*self);
        }
        let ghost v = self@;
        let orig = action.orig();
        let targ = action.targ();
        let orig_bb = orig.bb();
        let targ_bb = targ.bb();
        let me: usize = if self.white_to_move { BLACK_IDX } else { WHITE_IDX };
        let other: usize = 1 - me;
        if action.is_castle() {
            let (orig_rook, dest_rook, orig_king, dest_king) = match (self.white_to_move, action.flag() == Flag::ShortCastle) {
                (true, true) => (Bitboard::BK_ROOK_DEST(), Bitboard::BK_ROOK(), Bitboard::BK_KING_DEST(), Bitboard::B_KING()),
                (true, false) => (Bitboard::BQ_ROOK_DEST(), Bitboard::BQ_ROOK(), Bitboard::BQ_KING_DEST(), Bitboard::B_KING()),
                (false, true) => (Bitboard::WK_ROOK_DEST(), Bitboard::WK_ROOK(), Bitboard::WK_KING_DEST(), Bitboard::W_KING()),
                (false, false) => (Bitboard::WQ_ROOK_DEST(), Bitboard::WQ_ROOK(), Bitboard::WQ_KING_DEST(), Bitboard::W_KING()),
            };
            proof {
                let (a, b, c, d) = castle_squares(!v.white_to_move, action@.flag == Flag::ShortCastle);
                crate::bits::lemma_castle_words();
                assert(dest_rook.0 == single(a) && orig_rook.0 == single(b) && dest_king.0 == single(c) && orig_king.0 == single(d));
            }
            self.color_bb[me] = self.color_bb[me].bitand(orig_king.bitor(orig_rook).not()).bitor(dest_king.bitor(dest_rook));
            self.piece_bb[ROOK_IDX] = self.piece_bb[ROOK_IDX].bitand(orig_rook.not()).bitor(dest_rook);
            self.piece_bb[KING_IDX] = self.piece_bb[KING_IDX].bitand(orig_king.not()).bitor(dest_king);
        } else if action.is_en_passant() {
            let captured_pawn_bb = if !self.white_to_move {
                targ_bb.sout_one()
            } else {
                targ_bb.nort_one()
            };
            self.color_bb[me] = self.color_bb[me].bitand(targ_bb.not()).bitor(orig_bb);
            self.color_bb[other] = self.color_bb[other].bitor(captured_pawn_bb);
            self.piece_bb[PAWN_IDX] = self.piece_bb[PAWN_IDX].bitor(orig_bb.bitor(captured_pawn_bb)).bitand(targ_bb.not());
        } else {
            self.color_bb[me] = self.color_bb[me].bitand(targ_bb.not()).bitor(orig_bb);
            self.color_bb[other] = self.color_bb[other].bitand(orig_bb.not());
            let targ_piece = self.find_piece(targ_bb);
            let mut targ_piece_idx = targ_piece.index();
            self.piece_bb[targ_piece_idx] = self.piece_bb[targ_piece_idx].bitand(targ_bb.not());
            if action.is_promotion() {
                targ_piece_idx = PAWN_IDX;
            }
            self.piece_bb[targ_piece_idx] = self.piece_bb[targ_piece_idx].bitor(orig_bb);
            let ghost lifted_c = self@.colors;
            let ghost lifted_p = self@.pieces;
            let prev_flag = self.curr_flags();
            let captured = prev_flag.captured_piece();
            if captured.is_piece() {
                let sq_bb = prev_flag.captured_piece_sq().bb();
                let ci = captured.index();
                self.color_bb[other] = self.color_bb[other].bitor(sq_bb);
                self.piece_bb[ci] = self.piece_bb[ci].bitor(sq_bb);
                proof {
                    let f = v.flags();
                    let sq = single(captured_sq(f) as int);
                    assert(self@.colors =~= lifted_c.update(other as int, lifted_c[other as int] | sq));
                    assert(self@.pieces =~= lifted_p.update(captured_code(f) - 1, lifted_p[captured_code(f) - 1] | sq));
                }
            }
            proof {
                let (o, t) = (action@.orig, action@.targ);
                let c = v.colors.update(me as int, move_bit(v.colors[me as int], t, o));
                let c = c.update(other as int, c[other as int] & !single(o));
                assert(lifted_c =~= c);
                let at = find_piece_spec(v.pieces, single(t)).code() - 1;
                let p = v.pieces.update(at, v.pieces[at] & !single(t));
                let back = if action@.flag.spec_is_promotion() { PAWN_IDX as int } else { at };
                assert(lifted_p =~= p.update(back, p[back] | single(o)));
            }
        }
        self.total_ply = self.total_ply - 1;
        self.white_to_move = !self.white_to_move;
        proof {
            let w = v.unmake(action@);
            assert(self@.colors =~= w.colors);
            assert(self@.pieces =~= w.pieces);
            assert(self@.stack =~= w.stack);
            assert(self@ =~= w);
        }
    }

    /// A board with the given piece sets, side to move and ply, whose history holds
    /// `flags` at that ply and nothing elsewhere.
    pub fn new(color_bb: [Bitboard; 2], piece_bb: [Bitboard; 6], white_to_move: bool, flags: BoardStateFlags, total_ply: u16) -> (b: Board)
        requires
            (total_ply as int) < MAX_NUM_MOVES,
        ensures
            b@.colors == color_bb@.map_values(|x: Bitboard| x.0),
            b@.pieces == piece_bb@.map_values(|x: Bitboard| x.0),
            b@.white_to_move == white_to_move,
            b@.ply == total_ply,
            b@.stack == Seq::new(MAX_NUM_MOVES as nat, |i: int| if i == total_ply { flags@ } else { 0u32 }),
            b@.well_sized(),
    {
        let mut state_stack = vstd::array::array_fill_for_copy_types::<BoardStateFlags, MAX_NUM_MOVES>(BoardStateFlags::NO_DATA());
        state_stack[total_ply as usize] = flags;
        let b = Board { color_bb, piece_bb, white_to_move, state_stack, total_ply };
        proof {
            assert(b@.stack =~= Seq::new(MAX_NUM_MOVES as nat, |i: int| if i == total_ply { flags@ } else { 0u32 }));
        }
        b
    }
}

#[allow(non_snake_case)]
impl Board {
    /// The starting position: white to move, all castling rights, ply 0.
    pub fn STARTING_POSITION() -> (b: Board)
        ensures
            b@.colors == seq![0x0000_0000_0000_ffffu64, 0xffff_0000_0000_0000u64],
            b@.pieces == seq![0x00ff_0000_0000_ff00u64, 0x4200_0000_0000_0042u64, 0x2400_0000_0000_0024u64,
                0x8100_0000_0000_0081u64, 0x0800_0000_0000_0008u64, 0x1000_0000_0000_0010u64],
            b@.white_to_move,
            b@.ply == 0,
            b@.stack == Seq::new(MAX_NUM_MOVES as nat, |i: int| if i == 0 { 0xf800_0000u32 } else { 0u32 }),
            b@.well_sized(),
    {
        let b = Board::new(
            [Bitboard::STARTING_WHITE(), Bitboard::STARTING_BLACK()],
            [
                Bitboard::STARTING_PAWNS(),
                Bitboard::STARTING_KNIGHTS(),
                Bitboard::STARTING_BISHOPS(),
                Bitboard::STARTING_ROOKS(),
                Bitboard::STARTING_QUEENS(),
                Bitboard::STARTING_KINGS(),
            ],
            true,
            BoardStateFlags::STARTING(),
            0,
        );
        proof {
            assert(b@.colors =~= seq![0x0000_0000_0000_ffffu64, 0xffff_0000_0000_0000u64]);
            assert(b@.pieces =~= seq![0x00ff_0000_0000_ff00u64, 0x4200_0000_0000_0042u64, 0x2400_0000_0000_0024u64,
                0x8100_0000_0000_0081u64, 0x0800_0000_0000_0008u64, 0x1000_0000_0000_0010u64]);
        }
        b
    }
}

impl PartialEq for Board {
    fn eq(&self, other: &Board) -> (r: bool) {
        proof {
            use_type_invariant(self);
            use_type_invariant(other);
        }
        let r = self.color_bb[0].0 == other.color_bb[0].0 && self.color_bb[1].0 == other.color_bb[1].0
            && self.piece_bb[0].0 == other.piece_bb[0].0 && self.piece_bb[1].0 == other.piece_bb[1].0
            && self.piece_bb[2].0 == other.piece_bb[2].0 && self.piece_bb[3].0 == other.piece_bb[3].0
            && self.piece_bb[4].0 == other.piece_bb[4].0 && self.piece_bb[5].0 == other.piece_bb[5].0
            && self.white_to_move == other.white_to_move
            && self.state_stack[self.total_ply as usize] == other.state_stack[other.total_ply as usize]
            && self.total_ply == other.total_ply;
        proof {
            let (a, b) = (self@, other@);
            crate::types::state_metadata::lemma_flags_view_eq(self.state_stack[self.total_ply as int], other.state_stack[other.total_ply as int]);
            if r {
                assert(a.colors =~= b.colors);
                assert(a.pieces =~= b.pieces);
            }
            if a.same_position(b) {
                assert(a.colors[0] == b.colors[0] && a.colors[1] == b.colors[1]);
                assert(a.pieces[0] == b.pieces[0] && a.pieces[1] == b.pieces[1] && a.pieces[2] == b.pieces[2]);
                assert(a.pieces[3] == b.pieces[3] && a.pieces[4] == b.pieces[4] && a.pieces[5] == b.pieces[5]);
            }
        }
        r
    }
}

impl vstd::std_specs::cmp::PartialEqSpecImpl for Board {
    open spec fn obeys_eq_spec() -> bool {
        true
    }

    open spec fn eq_spec(&self, other: &Board) -> bool {
        self@.same_position(other@)
    }
}

impl Board {
    /// Reads a move as `get_move_from_algebraic` does, with `None` for the texts it
    /// cannot read (see `text_unreadable`): not four or five bytes, a square name cut in
    /// the middle of a character, or a fifth character that names no promotion piece.
    pub fn read_move(&self, source_str: &str) -> (r: Option<Result<Move, &'static str>>)
        ensures
            r is None <==> self@.text_unreadable(source_str@),
            r matches Some(Ok(m)) ==> Some(m@) == self@.text_move(source_str@),
            r matches Some(Err(e)) ==> self@.text_move(source_str@) is None && e@ == "Invalid algebraic square."@,
            r matches Some(Err(_)) <==> !self@.text_unreadable(source_str@) && self@.text_move(source_str@) is None,
    {
        proof {
            use_type_invariant(self);
        }
        let ghost s = source_str@;
        let cs = crate::text::chars_of(source_str);
        let mut bytes: u64 = 0;
        let mut i: usize = 0;
        while i < cs.len()
            invariant
                i <= cs.len(),
                cs@ == s,
                s == source_str@,
                bytes == byte_len(s.take(i as int)),
                bytes <= 5,
            decreases cs.len() - i,
        {
            proof {
                lemma_byte_len_step(s, i as int);
            }
            bytes = bytes + utf8_width(cs[i]);
            i += 1;
            if bytes > 5 {
                proof {
                    lemma_byte_len_prefix(s, i as int);
                }
                return None;
            }
        }
        proof {
            assert(s.take(cs.len() as int) =~= s);
        }
        if bytes < 4 {
            return None;
        }
        if !two_bytes_at(&cs, 0) {
            return None;
        }
        if cs.len() < 2 {
            return Some(Err("Invalid algebraic square."));
        }
        let orig_sq = match square_at(&cs, 0) {
            Ok(sq) => sq,
            Err(e) => {
                return Some(Err(e));
            },
        };
        if !two_bytes_at(&cs, 2) {
            return None;
        }
        if cs.len() < 4 {
            return Some(Err("Invalid algebraic square."));
        }
        let dest_sq = match square_at(&cs, 2) {
            Ok(sq) => sq,
            Err(e) => {
                return Some(Err(e));
            },
        };
        let orig_bb = orig_sq.bb();
        let dest_bb = dest_sq.bb();
        let orig_is_white = !self.color_bb[WHITE_IDX].bitand(orig_bb).is_empty();
        let capture_side: usize = if orig_is_white { BLACK_IDX } else { WHITE_IDX };
        let is_capture = !self.color_bb[capture_side].bitand(dest_bb).is_empty();
        let orig_piece = self.find_piece(orig_bb);
        proof {
            let v = self@;
            assert(self.color_bb[WHITE_IDX as int].0 == v.colors[WHITE_IDX as int]);
            assert(self.color_bb[capture_side as int].0 == v.colors[capture_side as int]);
            crate::bits::lemma_and_single(v.colors[WHITE_IDX as int], orig_sq@);
            crate::bits::lemma_and_single(v.colors[capture_side as int], dest_sq@);
        }
        let is_pawn = orig_piece.is_piece() && orig_piece.index() == PAWN_IDX;
        let is_king = orig_piece.is_piece() && orig_piece.index() == KING_IDX;
        let on_ep_target = match self.curr_flags().ep_target() {
            Some(e) => e.val() == dest_sq.val(),
            None => false,
        };
        let flag = if is_pawn && on_ep_target {
            Flag::EnPassant
        } else if cs.len() == 5 {
            let capture_char = cs[4];
            if is_capture {
                if capture_char == 'n' {
                    Flag::PromoteCaptureN
                } else if capture_char == 'b' {
                    Flag::PromoteCaptureB
                } else if capture_char == 'r' {
                    Flag::PromoteCaptureR
                } else if capture_char == 'q' {
                    Flag::PromoteCaptureQ
                } else {
                    return None;
                }
            } else {
                if capture_char == 'n' {
                    Flag::PromoteN
                } else if capture_char == 'b' {
                    Flag::PromoteB
                } else if capture_char == 'r' {
                    Flag::PromoteR
                } else if capture_char == 'q' {
                    Flag::PromoteQ
                } else {
                    return None;
                }
            }
        } else if is_pawn && ((orig_sq.rank() == Square::RANK_2 && dest_sq.rank() == Square::RANK_4)
            || (orig_sq.rank() == Square::RANK_7 && dest_sq.rank() == Square::RANK_5)) {
            Flag::DoublePush
        } else if is_king && orig_sq.file() == Square::E_FILE && (dest_sq.file() == Square::G_FILE
            || dest_sq.file() == Square::C_FILE) {
            if dest_sq.file() == Square::G_FILE {
                Flag::ShortCastle
            } else {
                Flag::LongCastle
            }
        } else if is_capture {
            Flag::Capture
        } else {
            Flag::Quiet
        };
        proof {
            let v = self@;
            lemma_find_piece_code(v.pieces, single(orig_sq@));
        }
        Some(Ok(Move::new(orig_sq, dest_sq, flag)))
    }

    /// The move written in long algebraic notation, such as `e2e4` or `e7e8q`, as this
    /// board reads it: its flag comes from the pieces on the board (see `text_flag`).
    /// A square name that is not one gives the error of `Square::from_algebraic`.
    pub fn get_move_from_algebraic(&self, source_str: &str) -> (r: Result<Move, &'static str>)
        requires
            !self@.text_unreadable(source_str@),
        ensures
            r is Ok <==> self@.text_move(source_str@) is Some,
            r matches Ok(m) ==> Some(m@) == self@.text_move(source_str@),
            r matches Err(e) ==> e@ == "Invalid algebraic square."@,
    {
        match self.read_move(source_str) {
            Some(r) => r,
            None => Err("Invalid algebraic square."),
        }
    }
}

/// The number of bytes UTF-8 takes to write `c`.
fn utf8_width(c: char) -> (r: u64)
    ensures
        r == utf8_len(c),
        1 <= r <= 4,
{
    let code = c as u32;
    if code < 0x80 {
        1
    } else if code < 0x800 {
        2
    } else if code < 0x10000 {
        3
    } else {
        4
    }
}

/// A character starts two bytes after the start of character `i` of `cs`.
fn two_bytes_at(cs: &Vec<char>, i: usize) -> (r: bool)
    ensures
        r == two_bytes_on(cs@, i as int),
{
    if i < cs.len() && utf8_width(cs[i]) == 2 {
        true
    } else if i < cs.len() && i + 1 < cs.len() {
        utf8_width(cs[i]) == 1 && utf8_width(cs[i + 1]) == 1
    } else {
        false
    }
}

/// The bytes of one more character.
proof fn lemma_byte_len_step(s: Seq<char>, i: int)
    requires
        0 <= i < s.len(),
    ensures
        byte_len(s.take(i + 1)) == byte_len(s.take(i)) + utf8_len(s[i]),
{
    assert(s.take(i + 1).drop_last() =~= s.take(i));
}

/// A text takes at least as many bytes as any of its beginnings.
proof fn lemma_byte_len_prefix(s: Seq<char>, i: int)
    requires
        0 <= i <= s.len(),
    ensures
        byte_len(s.take(i)) <= byte_len(s),
    decreases s.len() - i,
{
    if i < s.len() {
        lemma_byte_len_step(s, i);
        lemma_byte_len_prefix(s, i + 1);
    } else {
        assert(s.take(i) =~= s);
    }
}

/// The square named by the two characters of `cs` from `i` on.
fn square_at(cs: &Vec<char>, i: usize) -> (r: Result<Square, &'static str>)
    requires
        i + 2 <= cs.len(),
    ensures
        r is Ok <==> algebraic_index(cs@.subrange(i as int, i + 2)) is Some,
        r matches Ok(s) ==> algebraic_index(cs@.subrange(i as int, i + 2)) == Some(s@),
        r matches Err(e) ==> e@ == "Invalid algebraic square."@,
{
    let mut pair: Vec<char> = Vec::new();
    pair.push(cs[i]);
    pair.push(cs[i + 1]);
    proof {
        assert(pair@ =~= cs@.subrange(i as int, i + 2));
    }
    let name = crate::text::string_of(&pair);
    Square::from_algebraic(name.as_str())
}

/// The piece `find_piece` names is the one whose code is its set's position plus one.
proof fn lemma_find_piece_code(pieces: Seq<u64>, loc: u64)
    ensures
        find_piece_spec(pieces, loc) != Piece::NoPiece ==> 1 <= find_piece_spec(pieces, loc).code() <= 6,
{
    lemma_find_piece_from_code(pieces, loc, 0);
}

proof fn lemma_find_piece_from_code(pieces: Seq<u64>, loc: u64, i: int)
    requires
        0 <= i,
    ensures
        find_piece_from(pieces, loc, i) != Piece::NoPiece ==> 1 <= find_piece_from(pieces, loc, i).code() <= 6,
    decreases 6 - i,
{
    if i < 6 {
        lemma_find_piece_from_code(pieces, loc, i + 1);
    }
}



} // verus!
