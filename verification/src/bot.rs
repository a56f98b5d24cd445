//! The engine behind the UCI protocol: it keeps a board and answers commands.
use vstd::prelude::*;
use rand::seq::SliceRandom;
use crate::board::Board;
use crate::board::fen::{split_ws, is_ws, split_whitespace, parse_unsigned, parse_number, fen_outcome, FenOutcome, FenFields};
use crate::board::model::{BoardView, MAX_NUM_MOVES};
use crate::text::{chars_of, push_text, string_of};
use crate::types::movement::{Move, MoveView, move_text};
use crate::types::state_metadata::captured_code;

verus! {

/// The engine's name, as it introduces itself.
pub const NAME: &'static str = "aster";

pub const VERSION: &'static str = "0.1.0";

/// The engine's authors, separated by colons.
pub const AUTHORS: &'static str = "";

pub const UCI_OK: &'static str = "uciok";

pub const READY_OK: &'static str = "readyok";

/// The author lines for `authors`: one `id author` line for each colon-separated name.
pub open spec fn author_lines(authors: Seq<char>) -> Seq<char>
    decreases authors.len(),
{
    if authors.len() == 0 {
        "id author "@
    } else {
        let init = author_lines(authors.drop_last());
        if authors.last() == ':' {
            init + "\nid author "@
        } else {
            init.push(authors.last())
        }
    }
}

/// What the engine answers to `uci`.
pub open spec fn info_text() -> Seq<char> {
    "id name "@ + NAME@ + " "@ + VERSION@ + "\n"@ + author_lines(AUTHORS@) + "\n"@ + "\n"@ + UCI_OK@
}

/// The times `go` reads: after `wtime` and `btime`, the next word as a number of
/// milliseconds (`None` where it is missing or is no `u64`); other words are skipped.
pub open spec fn go_scan(args: Seq<Seq<char>>, i: int, wtime: Option<int>, btime: Option<int>) -> (Option<int>, Option<int>)
    decreases args.len() + 2 - i,
{
    if i < 0 || i >= args.len() {
        (wtime, btime)
    } else {
        let next = if i + 1 < args.len() { parse_unsigned(args[i + 1], u64::MAX as int) } else { None };
        if args[i] == "wtime"@ {
            go_scan(args, i + 2, next, btime)
        } else if args[i] == "btime"@ {
            go_scan(args, i + 2, wtime, next)
        } else {
            go_scan(args, i + 1, wtime, btime)
        }
    }
}

/// The board a FEN's fields describe.
pub open spec fn fen_view(f: FenFields) -> BoardView {
    BoardView {
        colors: f.colors,
        pieces: f.pieces,
        white_to_move: f.white,
        stack: Seq::new(MAX_NUM_MOVES as nat, |i: int| if i == f.ply { f.flags } else { 0u32 }),
        ply: f.ply,
    }
}

/// The starting position.
pub open spec fn starting_view() -> BoardView {
    BoardView {
        colors: seq![0x0000_0000_0000_ffffu64, 0xffff_0000_0000_0000u64],
        pieces: seq![0x00ff_0000_0000_ff00u64, 0x4200_0000_0000_0042u64, 0x2400_0000_0000_0024u64,
            0x8100_0000_0000_0081u64, 0x0800_0000_0000_0008u64, 0x1000_0000_0000_0010u64],
        white_to_move: true,
        stack: Seq::new(MAX_NUM_MOVES as nat, |i: int| if i == 0 { 0xf800_0000u32 } else { 0u32 }),
        ply: 0,
    }
}

/// The starting position is consistent, its clock can advance and its history has room,
/// so the laws of consistent boards apply to it.
pub proof fn lemma_start_sane()
    ensures
        starting_view().sane(),
        captured_code(starting_view().flags()) != 7,
{
    let v = starting_view();
    assert(v.flags() == 0xf800_0000u32);
    assert(v.colors[0] == 0x0000_0000_0000_ffffu64 && v.colors[1] == 0xffff_0000_0000_0000u64);
    let (p0, p1, p2, p3, p4, p5) = (v.pieces[0], v.pieces[1], v.pieces[2], v.pieces[3], v.pieces[4], v.pieces[5]);
    assert(p0 == 0x00ff_0000_0000_ff00u64 && p1 == 0x4200_0000_0000_0042u64 && p2 == 0x2400_0000_0000_0024u64);
    assert(p3 == 0x8100_0000_0000_0081u64 && p4 == 0x0800_0000_0000_0008u64 && p5 == 0x1000_0000_0000_0010u64);
    assert({
        &&& 0x0000_0000_0000_ffffu64 & 0xffff_0000_0000_0000u64 == 0
        &&& 0x00ff_0000_0000_ff00u64 & 0x4200_0000_0000_0042u64 == 0
        &&& 0x00ff_0000_0000_ff00u64 & 0x2400_0000_0000_0024u64 == 0
        &&& 0x00ff_0000_0000_ff00u64 & 0x8100_0000_0000_0081u64 == 0
        &&& 0x00ff_0000_0000_ff00u64 & 0x0800_0000_0000_0008u64 == 0
        &&& 0x00ff_0000_0000_ff00u64 & 0x1000_0000_0000_0010u64 == 0
        &&& 0x4200_0000_0000_0042u64 & 0x2400_0000_0000_0024u64 == 0
        &&& 0x4200_0000_0000_0042u64 & 0x8100_0000_0000_0081u64 == 0
        &&& 0x4200_0000_0000_0042u64 & 0x0800_0000_0000_0008u64 == 0
        &&& 0x4200_0000_0000_0042u64 & 0x1000_0000_0000_0010u64 == 0
        &&& 0x2400_0000_0000_0024u64 & 0x8100_0000_0000_0081u64 == 0
        &&& 0x2400_0000_0000_0024u64 & 0x0800_0000_0000_0008u64 == 0
        &&& 0x2400_0000_0000_0024u64 & 0x1000_0000_0000_0010u64 == 0
        &&& 0x8100_0000_0000_0081u64 & 0x0800_0000_0000_0008u64 == 0
        &&& 0x8100_0000_0000_0081u64 & 0x1000_0000_0000_0010u64 == 0
        &&& 0x0800_0000_0000_0008u64 & 0x1000_0000_0000_0010u64 == 0
        &&& 0x00ff_0000_0000_ff00u64 | 0x4200_0000_0000_0042u64 | 0x2400_0000_0000_0024u64 | 0x8100_0000_0000_0081u64
            | 0x0800_0000_0000_0008u64 | 0x1000_0000_0000_0010u64 == 0x0000_0000_0000_ffffu64 | 0xffff_0000_0000_0000u64
        &&& 0xf800_0000u32 & 0x0400_0000u32 == 0
        &&& (0xf800_0000u32 & 0x000e_0000u32) >> 17u32 == 0
    }) by (bit_vector);
    assert(forall|i: int, j: int| 0 <= i < j < 6 ==> #[trigger] (v.pieces[i] & v.pieces[j]) == 0) by {
        assert forall|i: int, j: int| 0 <= i < j < 6 implies #[trigger] (v.pieces[i] & v.pieces[j]) == 0 by {
            if i == 0 && j == 1 {} else if i == 0 && j == 2 {} else if i == 0 && j == 3 {} else if i == 0 && j == 4 {}
            else if i == 0 && j == 5 {} else if i == 1 && j == 2 {} else if i == 1 && j == 3 {} else if i == 1 && j == 4 {}
            else if i == 1 && j == 5 {} else if i == 2 && j == 3 {} else if i == 2 && j == 4 {} else if i == 2 && j == 5 {}
            else if i == 3 && j == 4 {} else if i == 3 && j == 5 {} else {}
        }
    }
}

/// The board after playing the moves written in `ms`, one after the other.
pub open spec fn play_moves(v: BoardView, ms: Seq<Seq<char>>) -> BoardView
    decreases ms.len(),
{
    if ms.len() == 0 {
        v
    } else {
        let u = play_moves(v, ms.drop_last());
        u.make(u.text_move(ms.last()).unwrap())
    }
}

/// Each move of `ms` is text `get_move_from_algebraic` reads as a move that can be made
/// on the board reached before it.
pub open spec fn plays_ok(v: BoardView, ms: Seq<Seq<char>>) -> bool {
    forall|k: int| 0 <= k < ms.len() ==> {
        let u = #[trigger] play_moves(v, ms.take(k));
        &&& !u.text_unreadable(ms[k])
        &&& u.text_move(ms[k]) is Some
        &&& u.makeable(u.text_move(ms[k]).unwrap())
    }
}

/// The board `position` starts from, given the words after the command: the position
/// the first word describes as a FEN, or the starting position if it describes none.
pub open spec fn position_start(v: BoardView, args: Seq<Seq<char>>) -> BoardView {
    if args.len() >= 1 {
        match fen_outcome(args[0]) {
            FenOutcome::Parsed(f) => fen_view(f),
            _ => starting_view(),
        }
    } else {
        v
    }
}

/// The board `position` leaves: its starting board, then, if the second word is
/// `moves`, the moves the remaining words write.
pub open spec fn position_view(v: BoardView, args: Seq<Seq<char>>) -> BoardView {
    if args.len() >= 2 && args[1] == "moves"@ {
        play_moves(position_start(v, args), args.skip(2))
    } else {
        position_start(v, args)
    }
}

/// `position` can follow the words `args`: the moves after `moves` can be played.
pub open spec fn position_ok(v: BoardView, args: Seq<Seq<char>>) -> bool {
    args.len() >= 2 && args[1] == "moves"@ ==> plays_ok(position_start(v, args), args.skip(2))
}

/// An optional number as an optional integer.
pub open spec fn opt_int(o: Option<u64>) -> Option<int> {
    match o {
        Some(x) => Some(x as int),
        None => None,
    }
}

/// A random move can be played: the board has a legal move, and each can be made.
pub open spec fn random_ok(v: BoardView) -> bool {
    &&& v.scan_ok(v.pseudo_moves())
    &&& v.legal_list().len() > 0
    &&& forall|i: int| 0 <= i < v.legal_list().len() ==> v.after_scan().makeable(#[trigger] v.legal_list()[i])
}

/// The engine can answer `cmd`: it holds a word, and `go` and `position` can be followed.
pub open spec fn command_ok(v: BoardView, cmd: Seq<char>) -> bool {
    let words = split_ws(cmd);
    &&& words.len() > 0
    &&& words[0] == "go"@ ==> random_ok(v)
    &&& words[0] == "position"@ ==> position_ok(v, words.skip(1))
}

/// A word without white space is one field.
pub proof fn lemma_one_word(t: Seq<char>)
    requires
        t.len() > 0,
        forall|i: int| 0 <= i < t.len() ==> !is_ws(#[trigger] t[i]),
    ensures
        split_ws(t) == seq![t],
    decreases t.len(),
{
    if t.len() == 1 {
        assert(t.drop_last() =~= Seq::<char>::empty());
        assert(split_ws(t.drop_last()) =~= Seq::<Seq<char>>::empty());
        assert(seq![t.last()] =~= t);
        assert(split_ws(t) =~= seq![t]);
    } else {
        let init = t.drop_last();
        assert forall|i: int| 0 <= i < init.len() implies !is_ws(#[trigger] init[i]) by {
            assert(init[i] == t[i]);
        }
        lemma_one_word(init);
        assert(!is_ws(t[t.len() - 2]));
        assert(!is_ws(t.last()));
        assert(init.push(t.last()) =~= t);
        let si = split_ws(init);
        assert(si.drop_last() =~= Seq::<Seq<char>>::empty());
        assert(split_ws(t) =~= seq![t]);
    }
}

/// The fields of `split_ws` hold no white space.
pub proof fn lemma_words_have_no_space(s: Seq<char>)
    ensures
        forall|k: int, i: int| 0 <= k < split_ws(s).len() && 0 <= i < split_ws(s)[k].len() ==> !is_ws(#[trigger] split_ws(s)[k][i]),
        forall|k: int| 0 <= k < split_ws(s).len() ==> #[trigger] split_ws(s)[k].len() > 0,
    decreases s.len(),
{
    if s.len() > 0 {
        lemma_words_have_no_space(s.drop_last());
        let init = split_ws(s.drop_last());
        let c = s.last();
        if !is_ws(c) {
            if s.len() >= 2 && !is_ws(s[s.len() - 2]) {
                let r = init.drop_last().push(init.last().push(c));
                assert forall|k: int, i: int| 0 <= k < r.len() && 0 <= i < r[k].len() implies !is_ws(#[trigger] r[k][i]) by {
                    if k < r.len() - 1 {
                        assert(r[k] == init[k]);
                    } else if i < init.last().len() {
                        assert(r[k][i] == init[init.len() - 1][i]);
                    }
                }
                assert(init.len() > 0) by {
                    lemma_split_nonempty(s.drop_last());
                }
            }
        }
    }
}

/// A text whose last character is no space has at least one field.
proof fn lemma_split_nonempty(s: Seq<char>)
    requires
        s.len() > 0,
        !is_ws(s.last()),
    ensures
        split_ws(s).len() > 0,
    decreases s.len(),
{
    let init = split_ws(s.drop_last());
    if s.len() >= 2 && !is_ws(s[s.len() - 2]) {
        lemma_split_nonempty(s.drop_last());
    }
}

/// The engine: a board it plays on.
pub struct Bot {
    board: Board,
}

impl View for Bot {
    type V = BoardView;

    closed spec fn view(&self) -> BoardView {
        self.board@
    }
}

/// `SliceRandom::choose` with the thread's random generator: `None` for an empty list,
/// otherwise one of its moves, picked at random.
#[verifier::external_body]
fn choose_move(moves: &Vec<Move>) -> (r: Option<Move>)
    ensures
        r is None <==> moves@.len() == 0,
        r matches Some(m) ==> moves@.contains(m),
{
    moves.choose(&mut rand::thread_rng()).copied()
}

/// `w` holds exactly the characters of `s`.
fn is_word(w: &Vec<char>, s: &str) -> (r: bool)
    ensures
        r == (w@ == s@),
{
    let cs = chars_of(s);
    if w.len() != cs.len() {
        return false;
    }
    let mut i: usize = 0;
    while i < w.len()
        invariant
            i <= w.len(),
            w.len() == cs.len(),
            cs@ == s@,
            forall|j: int| 0 <= j < i ==> w@[j] == cs@[j],
        decreases w.len() - i,
    {
        if w[i] != cs[i] {
            return false;
        }
        i += 1;
    }
    assert(w@ =~= cs@);
    true
}

impl Bot {
    /// An engine on the starting position.
    pub fn new() -> (b: Bot)
        ensures
            b@ == starting_view(),
    {
        let board = Board::STARTING_POSITION();
        proof {
            assert(board@ =~= starting_view());
        }
        Bot { board }
    }

    /// Answers one command of the protocol: `uci` with the engine's identity, `isready`
    /// with `readyok`, `go` with a random legal move (which it plays), `position` by
    /// setting up the board (no answer); any other command gets no answer.
    pub fn exec_command(&mut self, command: &str) -> (r: Option<String>)
        requires
            command_ok(old(self)@, command@),
        ensures
            ({
                let words = split_ws(command@);
                let v = old(self)@;
                if words[0] == "uci"@ {
                    r matches Some(s) && s@ == info_text() && final(self)@ == v
                } else if words[0] == "isready"@ {
                    r matches Some(s) && s@ == READY_OK@ && final(self)@ == v
                } else if words[0] == "go"@ {
                    r matches Some(s) && exists|i: int| 0 <= i < v.legal_list().len()
                        && s@ == "bestmove "@ + move_text(#[trigger] v.legal_list()[i])
                        && final(self)@ == v.after_scan().make(v.legal_list()[i])
                } else if words[0] == "position"@ {
                    r is None && final(self)@ == position_view(v, words.skip(1))
                } else {
                    r is None && final(self)@ == v
                }
            }),
    {
        let cs = chars_of(command);
        let words = split_whitespace(&cs);
        let ghost ws = words@.map_values(|t: Vec<char>| t@);
        proof {
            assert(ws[0] == words@[0]@);
        }
        let apex = &words[0];
        if is_word(apex, "uci") {
            Some(self.info())
        } else if is_word(apex, "isready") {
            Some(READY_OK.to_owned())
        } else if is_word(apex, "go") {
            Some(self.random_move())
        } else if is_word(apex, "position") {
            proof {
                assert(words@.skip(1).map_values(|t: Vec<char>| t@) =~= ws.skip(1));
                lemma_words_have_no_space(command@);
                assert forall|k: int, i: int| 0 <= k < words@.len() && 0 <= i < words@[k]@.len() implies !is_ws(#[trigger] words@[k]@[i]) by {
                    assert(ws[k] == words@[k]@);
                    assert(split_ws(command@)[k][i] == words@[k]@[i]);
                }
            }
            self.position(&words, 1);
            None
        } else {
            None
        }
    }

    /// The engine can answer `command` (see `command_ok`): the moves `go` and
    /// `position` would make are tried on copies of the board first.
    pub fn command_ready(&self, command: &str) -> (r: bool)
        ensures
            r == command_ok(self@, command@),
    {
        let cs = chars_of(command);
        let words = split_whitespace(&cs);
        let ghost ws = words@.map_values(|t: Vec<char>| t@);
        if words.len() == 0 {
            return false;
        }
        proof {
            assert(ws[0] == words@[0]@);
            reveal_strlit("go");
            reveal_strlit("position");
            assert("go"@.len() != "position"@.len());
        }
        let apex = &words[0];
        if is_word(apex, "go") {
            self.random_ready()
        } else if is_word(apex, "position") {
            proof {
                assert(words@.skip(1).map_values(|t: Vec<char>| t@) =~= ws.skip(1));
                lemma_words_have_no_space(command@);
                assert forall|k: int, i: int| 0 <= k < words@.len() && 0 <= i < words@[k]@.len() implies !is_ws(#[trigger] words@[k]@[i]) by {
                    assert(ws[k] == words@[k]@);
                    assert(split_ws(command@)[k][i] == words@[k]@[i]);
                }
            }
            self.position_ready(&words, 1)
        } else {
            true
        }
    }

    /// A random move can be played (see `random_ok`).
    fn random_ready(&self) -> (r: bool)
        ensures
            r == random_ok(self@),
    {
        let ghost v = self@;
        if !self.board.legal_moves_ready() {
            return false;
        }
        let mut copy = self.board.clone();
        let legal = copy.legal_moves();
        proof {
            assert(crate::board::model::view_moves(legal@).len() == legal@.len());
        }
        if legal.len() == 0 {
            return false;
        }
        let mut k: usize = 0;
        while k < legal.len()
            invariant
                k <= legal.len(),
                v == self@,
                copy@ == v.after_scan(),
                crate::board::model::view_moves(legal@) == v.legal_list(),
                forall|i: int| 0 <= i < k ==> v.after_scan().makeable(#[trigger] v.legal_list()[i]),
            decreases legal.len() - k,
        {
            proof {
                assert(v.legal_list()[k as int] == legal@[k as int]@);
            }
            if !copy.can_make(&legal[k]) {
                return false;
            }
            k += 1;
        }
        true
    }

    /// `position` can follow the words from `args[start]` on (see `position_ok`).
    fn position_ready(&self, args: &Vec<Vec<char>>, start: usize) -> (r: bool)
        requires
            start <= args@.len(),
            forall|k: int| 0 <= k < args@.len() ==> (#[trigger] args@[k]@).len() > 0,
            forall|k: int, i: int| 0 <= k < args@.len() && 0 <= i < args@[k]@.len() ==> !is_ws(#[trigger] args@[k]@[i]),
        ensures
            r == position_ok(self@, args@.skip(start as int).map_values(|t: Vec<char>| t@)),
    {
        let ghost ws = args@.skip(start as int).map_values(|t: Vec<char>| t@);
        let ghost v = self@;
        if !(args.len() - start > 1 && is_word(&args[start + 1], "moves")) {
            proof {
                if ws.len() >= 2 {
                    assert(ws[1] == args@[start + 1]@);
                }
            }
            return true;
        }
        proof {
            assert(ws[1] == args@[start + 1]@);
        }
        let pos_arg = string_of(&args[start]);
        proof {
            let w = args@[start as int]@;
            assert(ws[0] == w);
            assert forall|i: int| 0 <= i < w.len() implies !is_ws(#[trigger] w[i]) by {
                assert(w[i] == args@[start as int]@[i]);
            }
            lemma_one_word(w);
            assert(fen_outcome(w) == FenOutcome::Invalid("Invalid FEN length."@));
        }
        let mut board = match Board::from_fen(pos_arg.as_str()) {
            Ok(b) => b,
            Err(_) => Board::STARTING_POSITION(),
        };
        let ghost b0 = position_start(v, ws);
        let ghost ms = ws.skip(2);
        proof {
            assert(board@ =~= starting_view());
            assert(board@ == b0);
            assert(ms.take(0) =~= Seq::<Seq<char>>::empty());
        }
        let mut k: usize = start + 2;
        while k < args.len()
            invariant
                start + 2 <= k <= args.len(),
                v == self@,
                ws == args@.skip(start as int).map_values(|t: Vec<char>| t@),
                ms == args@.skip(start + 2).map_values(|t: Vec<char>| t@),
                ms.len() == args.len() - start - 2,
                b0 == position_start(v, ws),
                ws.len() >= 2 && ws[1] == "moves"@,
                ms == ws.skip(2),
                board@ == play_moves(b0, ms.take(k - start - 2)),
                forall|j: int| 0 <= j < k - start - 2 ==> {
                    let u = #[trigger] play_moves(b0, ms.take(j));
                    &&& !u.text_unreadable(ms[j])
                    &&& u.text_move(ms[j]) is Some
                    &&& u.makeable(u.text_move(ms[j]).unwrap())
                },
            decreases args.len() - k,
        {
            let ghost j = k - start - 2;
            proof {
                assert(ms[j] == args@[k as int]@);
            }
            let text = string_of(&args[k]);
            let action = match board.read_move(text.as_str()) {
                Some(Ok(m)) => m,
                _ => {
                    return false;
                },
            };
            if !board.can_make(&action) {
                return false;
            }
            board.make_move(&action);
            k += 1;
            proof {
                assert(ms.take(j + 1).drop_last() =~= ms.take(j));
                assert(ms.take(j + 1).last() == ms[j]);
            }
        }
        true
    }

    /// The engine's identity, ending with `uciok`.
    fn info(&self) -> (s: String)
        ensures
            s@ == info_text(),
    {
        let mut out: Vec<char> = Vec::new();
        push_text(&mut out, "id name ");
        push_text(&mut out, NAME);
        push_text(&mut out, " ");
        push_text(&mut out, VERSION);
        push_text(&mut out, "\n");
        let ghost head = out@;
        push_text(&mut out, "id author ");
        let authors = chars_of(AUTHORS);
        let mut i: usize = 0;
        proof {
            assert(authors@.take(0) =~= Seq::<char>::empty());
        }
        while i < authors.len()
            invariant
                i <= authors.len(),
                authors@ == AUTHORS@,
                out@ == head + author_lines(authors@.take(i as int)),
            decreases authors.len() - i,
        {
            let c = authors[i];
            proof {
                assert(authors@.take(i + 1).drop_last() =~= authors@.take(i as int));
                assert(authors@.take(i + 1).last() == c);
            }
            if c == ':' {
                push_text(&mut out, "\nid author ");
            } else {
                out.push(c);
            }
            i += 1;
            proof {
                assert(out@ =~= head + author_lines(authors@.take(i as int)));
            }
        }
        proof {
            assert(authors@.take(authors@.len() as int) =~= authors@);
        }
        push_text(&mut out, "\n");
        push_text(&mut out, "\n");
        push_text(&mut out, UCI_OK);
        proof {
            assert(out@ =~= info_text());
        }
        string_of(&out)
    }

    /// The clock times a `go` command gives in the words `args`, in milliseconds:
    /// white's after `wtime`, black's after `btime`.
    fn go(&self, args: &Vec<Vec<char>>) -> (r: (Option<u64>, Option<u64>))
        ensures
            ({
                let (w, b) = go_scan(args@.map_values(|t: Vec<char>| t@), 0, None, None);
                &&& (r.0 matches Some(x) ==> w == Some(x as int)) && (r.0 is None <==> w is None)
                &&& (r.1 matches Some(x) ==> b == Some(x as int)) && (r.1 is None <==> b is None)
            }),
    {
        let ghost ws = args@.map_values(|t: Vec<char>| t@);
        let mut wtime: Option<u64> = None;
        let mut btime: Option<u64> = None;
        let mut i: usize = 0;
        while i < args.len()
            invariant
                i <= args.len(),
                ws == args@.map_values(|t: Vec<char>| t@),
                go_scan(ws, 0, None, None) == go_scan(ws, i as int, opt_int(wtime), opt_int(btime)),
            decreases args.len() - i,
        {
            let next = if i + 1 < args.len() {
                proof {
                    assert(ws[i + 1] == args@[i + 1]@);
                }
                parse_number(&args[i + 1], u64::MAX)
            } else {
                None
            };
            proof {
                assert(ws[i as int] == args@[i as int]@);
                assert(opt_int(next) == if i + 1 < ws.len() { parse_unsigned(ws[i + 1], u64::MAX as int) } else { None });
            }
            let ghost i0 = i as int;
            let ghost (w0, b0) = (opt_int(wtime), opt_int(btime));
            if is_word(&args[i], "wtime") {
                wtime = next;
                i = if args.len() - i >= 2 { i + 2 } else { args.len() };
                proof {
                    assert(go_scan(ws, i0, w0, b0) == go_scan(ws, i0 + 2, opt_int(next), b0));
                    assert(go_scan(ws, i0 + 2, opt_int(next), b0) == go_scan(ws, i as int, opt_int(next), b0));
                }
            } else if is_word(&args[i], "btime") {
                btime = next;
                i = if args.len() - i >= 2 { i + 2 } else { args.len() };
                proof {
                    assert(go_scan(ws, i0, w0, b0) == go_scan(ws, i0 + 2, w0, opt_int(next)));
                    assert(go_scan(ws, i0 + 2, w0, opt_int(next)) == go_scan(ws, i as int, w0, opt_int(next)));
                }
            } else {
                i += 1;
            }
        }
        (wtime, btime)
    }

    /// Sets up the board from the words after `position`, from `args[start]` on: a FEN
    /// field (the starting position when it describes no position), then the moves
    /// after the word `moves`.
    fn position(&mut self, args: &Vec<Vec<char>>, start: usize)
        requires
            start <= args@.len(),
            forall|k: int| 0 <= k < args@.len() ==> (#[trigger] args@[k]@).len() > 0,
            forall|k: int, i: int| 0 <= k < args@.len() && 0 <= i < args@[k]@.len() ==> !is_ws(#[trigger] args@[k]@[i]),
            position_ok(old(self)@, args@.skip(start as int).map_values(|t: Vec<char>| t@)),
        ensures
            final(self)@ == position_view(old(self)@, args@.skip(start as int).map_values(|t: Vec<char>| t@)),
    {
        let ghost ws = args@.skip(start as int).map_values(|t: Vec<char>| t@);
        let ghost v = self@;
        if start < args.len() {
            let pos_arg = string_of(&args[start]);
            proof {
                let w = args@[start as int]@;
                assert(ws[0] == w);
                assert forall|i: int| 0 <= i < w.len() implies !is_ws(#[trigger] w[i]) by {
                    assert(w[i] == args@[start as int]@[i]);
                }
                lemma_one_word(w);
                assert(fen_outcome(w) == FenOutcome::Invalid("Invalid FEN length."@));
            }
            self.board = match Board::from_fen(pos_arg.as_str()) {
                Ok(b) => b,
                Err(_) => Board::STARTING_POSITION(),
            };
            proof {
                assert(self.board@ =~= starting_view());
            }
        }
        let ghost b0 = position_start(v, ws);
        proof {
            assert(self@ == b0);
        }
        if args.len() - start > 1 && is_word(&args[start + 1], "moves") {
            let ghost ms = ws.skip(2);
            proof {
                assert(ws[1] == args@[start + 1]@);
                assert(plays_ok(b0, ms));
                assert(ms.take(0) =~= Seq::<Seq<char>>::empty());
            }
            let mut k: usize = start + 2;
            while k < args.len()
                invariant
                    start + 2 <= k <= args.len(),
                    ms == args@.skip(start + 2).map_values(|t: Vec<char>| t@),
                    ms.len() == args.len() - start - 2,
                    plays_ok(b0, ms),
                    self@ == play_moves(b0, ms.take(k - start - 2)),
                decreases args.len() - k,
            {
                let ghost j = k - start - 2;
                let ghost u = self@;
                proof {
                    assert(ms[j] == args@[k as int]@);
                    assert(u == play_moves(b0, ms.take(j)));
                }
                let text = string_of(&args[k]);
                let action = match self.board.get_move_from_algebraic(text.as_str()) {
                    Ok(m) => m,
                    Err(_) => Move::SHORT_CASTLE(),
                };
                self.board.make_move(&action);
                k += 1;
                proof {
                    assert(ms.take(j + 1).drop_last() =~= ms.take(j));
                    assert(ms.take(j + 1).last() == ms[j]);
                }
            }
            proof {
                assert(ms.take(ms.len() as int) =~= ms);
            }
        }
    }

    /// Plays a random legal move and answers it as `bestmove` followed by the move.
    fn random_move(&mut self) -> (s: String)
        requires
            random_ok(old(self)@),
        ensures
            exists|i: int| 0 <= i < old(self)@.legal_list().len()
                && s@ == "bestmove "@ + move_text(#[trigger] old(self)@.legal_list()[i])
                && final(self)@ == old(self)@.after_scan().make(old(self)@.legal_list()[i]),
    {
        let ghost v = self@;
        let moves = self.board.legal_moves();
        let action = match choose_move(&moves) {
            Some(m) => m,
            None => Move::SHORT_CASTLE(),
        };
        let ghost i = choose|i: int| 0 <= i < moves@.len() && moves@[i] == action;
        proof {
            assert(crate::board::model::view_moves(moves@)[i] == action@);
            assert(v.legal_list()[i] == action@);
        }
        self.board.make_move(&action);
        let mut out: Vec<char> = Vec::new();
        push_text(&mut out, "bestmove ");
        let text = action.display();
        push_text(&mut out, text.as_str());
        string_of(&out)
    }
}


/// A `position` command with at least one word sets the board whatever the engine held
/// before: two boards given the same words end on the same board. When the first word is
/// not a FEN the moves start from the starting position: white to move at ply 0, the
/// pieces on their home squares, all castling rights and no en passant target.
pub proof fn lemma_position_resets(v1: BoardView, v2: BoardView, args: Seq<Seq<char>>)
    requires
        args.len() >= 1,
    ensures
        position_start(v1, args) == position_start(v2, args),
        position_view(v1, args) == position_view(v2, args),
        !(fen_outcome(args[0]) is Parsed) ==> {
            let b = position_start(v1, args);
            &&& b.colors == seq![0x0000_0000_0000_ffffu64, 0xffff_0000_0000_0000u64]
            &&& b.pieces == seq![0x00ff_0000_0000_ff00u64, 0x4200_0000_0000_0042u64, 0x2400_0000_0000_0024u64,
                0x8100_0000_0000_0081u64, 0x0800_0000_0000_0008u64, 0x1000_0000_0000_0010u64]
            &&& b.white_to_move
            &&& b.ply == 0
            &&& b.flags() == 0xf800_0000u32
        },
{
}

} // verus!
