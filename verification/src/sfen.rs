//! SFEN notation: reading and writing positions, moves and games.
//!
//! A position is written as four fields separated by single spaces: the
//! board, rank by rank from rank `a` and within a rank from file 9, with
//! digits for runs of empty squares, upper case for black, lower case for
//! white and `+` before a promoted piece; the side to move, `b` or `w`; the
//! stands, `-` if both are empty; and a move number. A game is a position,
//! or the word `startpos`, followed by ` moves` and the moves played.
use crate::board::kind_code;
use crate::io::ToSfen;
use crate::movegen::generate;
use crate::position::{parts_wf, Board, Position};
use crate::state::{State, StateView};
use crate::text::{ascii, bytes_of, printable, string_of};
use crate::types::{Move, SfenParseError, WIN_CODE};
use vstd::prelude::*;
use vstd::string::StringSliceAdditionalSpecFns;

verus! {

/// The kind that an upper-case letter stands for; 0 for any other byte.
pub open spec fn kind_of_letter(b: u8) -> int {
    if b == 80 {
        1
    } else if b == 76 {
        2
    } else if b == 78 {
        3
    } else if b == 83 {
        4
    } else if b == 66 {
        5
    } else if b == 82 {
        6
    } else if b == 71 {
        7
    } else if b == 75 {
        8
    } else {
        0
    }
}

/// The upper-case letter of an unpromoted kind; 0 for any other number.
pub open spec fn letter_of_kind(k: int) -> u8 {
    if k == 1 {
        80
    } else if k == 2 {
        76
    } else if k == 3 {
        78
    } else if k == 4 {
        83
    } else if k == 5 {
        66
    } else if k == 6 {
        82
    } else if k == 7 {
        71
    } else if k == 8 {
        75
    } else {
        0
    }
}

/// The piece that a letter stands for, upper case for black and lower case
/// for white; 0 for any other byte.
pub open spec fn piece_of_letter(b: u8) -> int {
    if kind_of_letter(b) != 0 {
        kind_of_letter(b)
    } else if 97 <= b <= 122 && kind_of_letter((b - 32) as u8) != 0 {
        16 + kind_of_letter((b - 32) as u8)
    } else {
        0
    }
}

/// The kind that an upper-case letter stands for.
pub(crate) fn kind_of_letter_code(b: u8) -> (k: u8)
    ensures
        k == kind_of_letter(b),
        k <= 8,
{
    if b == 80 {
        1
    } else if b == 76 {
        2
    } else if b == 78 {
        3
    } else if b == 83 {
        4
    } else if b == 66 {
        5
    } else if b == 82 {
        6
    } else if b == 71 {
        7
    } else if b == 75 {
        8
    } else {
        0
    }
}

/// The upper-case letter of an unpromoted kind.
pub(crate) fn letter_of_kind_code(k: u8) -> (b: u8)
    ensures
        b == letter_of_kind(k as int),
        1 <= k <= 8 ==> 65 <= b <= 90 && kind_of_letter(b) == k,
{
    if k == 1 {
        80
    } else if k == 2 {
        76
    } else if k == 3 {
        78
    } else if k == 4 {
        83
    } else if k == 5 {
        66
    } else if k == 6 {
        82
    } else if k == 7 {
        71
    } else if k == 8 {
        75
    } else {
        0
    }
}

/// The piece that a letter stands for.
pub(crate) fn piece_of_letter_code(b: u8) -> (p: u16)
    ensures
        p == piece_of_letter(b),
        p == 0 || (1 <= p <= 8) || (17 <= p <= 24),
{
    let k: u8 = kind_of_letter_code(b);
    if k != 0 {
        k as u16
    } else if 97 <= b && b <= 122 {
        let k2: u8 = kind_of_letter_code(b - 32);
        if k2 != 0 {
            16 + k2 as u16
        } else {
            0
        }
    } else {
        0
    }
}

/// Index of the first `sep` in `t` from `i` and before `end`; `end` if
/// there is none.
pub open spec fn next_sep(t: Seq<u8>, i: int, end: int, sep: u8) -> int
    decreases end - i,
{
    if i >= end {
        end
    } else if t[i] == sep {
        i
    } else {
        next_sep(t, i + 1, end, sep)
    }
}

/// Finds the first `sep` from `i` and before `end`.
pub(crate) fn scan(t: &Vec<u8>, i: usize, end: usize, sep: u8) -> (e: usize)
    requires
        i <= end <= t@.len(),
    ensures
        e == next_sep(t@, i as int, end as int, sep),
        i <= e <= end,
{
    let mut j: usize = i;
    while j < end && t[j] != sep
        invariant
            i <= j <= end <= t@.len(),
            next_sep(t@, i as int, end as int, sep) == next_sep(t@, j as int, end as int, sep),
        decreases end - j,
    {
        j = j + 1;
    }
    j
}

/// `w` stands in `t` at index `i`.
pub open spec fn has_word(t: Seq<u8>, i: int, w: Seq<u8>) -> bool {
    i + w.len() <= t.len() && t.subrange(i, i + w.len()) == w
}

/// Whether `w` stands in `t` at index `i`.
pub(crate) fn has_word_code(t: &Vec<u8>, i: usize, w: &Vec<u8>) -> (b: bool)
    requires
        i <= t@.len(),
    ensures
        b == has_word(t@, i as int, w@),
{
    let len: usize = t.len();
    if w.len() > len - i {
        return false;
    }
    let mut j: usize = 0;
    while j < w.len()
        invariant
            0 <= j <= w@.len(),
            i + w@.len() <= t@.len(),
            t@.len() == len,
            forall|k: int| 0 <= k < j ==> t@[i + k] == w@[k],
        decreases w@.len() - j,
    {
        if t[i + j] != w[j] {
            assert(t@.subrange(i as int, i + w@.len())[j as int] != w@[j as int]);
            return false;
        }
        j = j + 1;
    }
    assert(t@.subrange(i as int, i + w@.len()) =~= w@);
    true
}

/// `n` empty cells.
pub open spec fn blanks(n: int) -> Seq<u16> {
    Seq::new(n as nat, |j: int| 0u16)
}

/// The cells that the text of a rank stands for, appended to `acc`: a digit
/// from 1 to 9 is that many empty cells, a letter is a piece, `+` and a
/// letter a promoted piece. `None` for any other text.
pub open spec fn rank_cells(t: Seq<u8>, i: int, end: int, acc: Seq<u16>) -> Option<Seq<u16>>
    decreases end - i,
{
    if i >= end {
        Some(acc)
    } else if 49 <= t[i] <= 57 {
        rank_cells(t, i + 1, end, acc + blanks(t[i] - 48))
    } else if t[i] == 43 {
        if i + 1 < end && 1 <= piece_of_letter(t[i + 1]) % 16 <= 6 {
            rank_cells(t, i + 2, end, acc.push((piece_of_letter(t[i + 1]) + 8) as u16))
        } else {
            None
        }
    } else if piece_of_letter(t[i]) != 0 {
        rank_cells(t, i + 1, end, acc.push(piece_of_letter(t[i]) as u16))
    } else {
        None
    }
}

/// The cells that the text of the board stands for, rank `k` onwards,
/// appended to `acc`: nine ranks of nine cells each, with `/` between them.
pub open spec fn board_cells(t: Seq<u8>, i: int, end: int, k: int, acc: Seq<u16>) -> Option<Seq<u16>>
    decreases 9 - k,
{
    let e = next_sep(t, i, end, 47);
    if k < 0 || k >= 9 {
        None
    } else {
        match rank_cells(t, i, e, acc) {
            None => None,
            Some(r) => if r.len() != 9 * k + 9 {
                None
            } else if k == 8 {
                if e == end {
                    Some(r)
                } else {
                    None
                }
            } else if e < end {
                board_cells(t, e + 1, end, k + 1, r)
            } else {
                None
            },
        }
    }
}

/// The squares, in code order, of cells given in the order of the text.
pub open spec fn squares_of_cells(cells: Seq<u16>) -> Seq<u16> {
    Seq::new(81, |sq: int| cells[(8 - sq % 9) * 9 + (8 - sq / 9)])
}

/// The stands that the text of the stands gives, added to `acc`: each item
/// is a letter, with a number from 1 to 18 before it if wanted.
pub open spec fn hand_items(t: Seq<u8>, i: int, end: int, acc: Seq<u8>) -> Option<Seq<u8>>
    decreases end - i,
{
    if i >= end {
        Some(acc)
    } else {
        let two = 48 <= t[i] <= 57 && i + 1 < end && 48 <= t[i + 1] <= 57;
        let one = 48 <= t[i] <= 57 && !two;
        let n: int = if two {
            10 * (t[i] - 48) + (t[i + 1] - 48)
        } else if one {
            t[i] - 48
        } else {
            1
        };
        let j = if two {
            i + 2
        } else if one {
            i + 1
        } else {
            i
        };
        if j < end && 1 <= piece_of_letter(t[j]) % 16 <= 7 && 1 <= n <= 18 {
            let p = piece_of_letter(t[j]);
            let idx = 8 * (p / 16) + p % 16;
            if acc[idx] + n <= 18 {
                hand_items(t, j + 1, end, acc.update(idx, (acc[idx] + n) as u8))
            } else {
                None
            }
        } else {
            None
        }
    }
}

/// Two empty stands.
pub open spec fn no_hand() -> Seq<u8> {
    Seq::new(16, |j: int| 0u8)
}

/// The field is made of digits, at least one.
pub open spec fn all_digits(t: Seq<u8>, i: int, end: int) -> bool {
    i < end && forall|j: int| i <= j < end ==> 48 <= #[trigger] t[j] <= 57
}

/// The squares, the stands and the side that the text between `i` and `end`
/// gives, if it is made of the four fields of a position.
pub open spec fn sfen_parts(t: Seq<u8>, i: int, end: int) -> Option<(Seq<u16>, Seq<u8>, u8)> {
    let e0 = next_sep(t, i, end, 32);
    let e1 = next_sep(t, e0 + 1, end, 32);
    let e2 = next_sep(t, e1 + 1, end, 32);
    let cells = board_cells(t, i, e0, 0, Seq::<u16>::empty());
    let hand = if e2 == e1 + 2 && t[e1 + 1] == 45 {
        Some(no_hand())
    } else if e1 + 1 < e2 {
        hand_items(t, e1 + 1, e2, no_hand())
    } else {
        None
    };
    if e0 < end && e1 == e0 + 2 && e1 < end && (t[e0 + 1] == 98 || t[e0 + 1] == 119) && e2 < end && all_digits(
        t,
        e2 + 1,
        end,
    ) && cells is Some && hand is Some {
        Some(
            (
                squares_of_cells(cells->Some_0),
                hand->Some_0,
                if t[e0 + 1] == 98 {
                    0u8
                } else {
                    1u8
                },
            ),
        )
    } else {
        None
    }
}

/// The given squares, stands and side make a position of a game.
pub open spec fn position_exists(squares: Seq<u16>, stand: Seq<u8>, side: u8) -> bool {
    exists|kings: Seq<u8>| #[trigger] parts_wf(squares, stand, kings, side)
}

/// The position of a game with the given squares, stands and side.
pub open spec fn position_with(squares: Seq<u16>, stand: Seq<u8>, side: u8) -> Board {
    Board { squares, stand, kings: choose|kings: Seq<u8>| #[trigger] parts_wf(squares, stand, kings, side), side }
}

/// The position that the text between `i` and `end` describes, if it
/// describes a position of a game.
pub open spec fn sfen_position(t: Seq<u8>, i: int, end: int) -> Option<Board> {
    let parts = sfen_parts(t, i, end);
    if parts is Some && position_exists(parts->Some_0.0, parts->Some_0.1, parts->Some_0.2) {
        Some(position_with(parts->Some_0.0, parts->Some_0.1, parts->Some_0.2))
    } else {
        None
    }
}

/// The text of a square: the digit of its file and the letter of its rank.
pub open spec fn square_text(sq: int) -> Seq<u8> {
    seq![(49 + sq / 9) as u8, (97 + 8 - sq % 9) as u8]
}

/// The move moves a piece between squares of the board, or drops a piece
/// of a kind that a stand can hold.
pub open spec fn presentable(m: Move) -> bool {
    &&& m.to_index() < 81
    &&& if m.from_index() == 82 {
        1 <= m.kind() <= 7
    } else {
        m.from_index() < 81
    }
}

/// The text of a move: source and target square, with `+` behind them if
/// the piece promotes; for a drop the letter of the kind, `*` and the
/// target. A value that is no such move is written `none`, and the
/// declaration of a win `win`.
pub open spec fn move_text(m: Move) -> Seq<u8> {
    if m.0 == WIN_CODE {
        seq![119u8, 105u8, 110u8]
    } else if m.0 == 0 || !presentable(m) {
        seq![110u8, 111u8, 110u8, 101u8]
    } else if m.from_index() == 82 {
        seq![letter_of_kind(m.kind()), 42u8] + square_text(m.to_index())
    } else if m.promotes() {
        square_text(m.from_index()) + square_text(m.to_index()) + seq![43u8]
    } else {
        square_text(m.from_index()) + square_text(m.to_index())
    }
}

/// The legal move of `b` that is written `t`, if there is one.
pub open spec fn move_of_text(b: Board, t: Seq<u8>) -> Option<Move> {
    if exists|m: Move| #[trigger] b.legal(m) && move_text(m) == t {
        Some(choose|m: Move| #[trigger] b.legal(m) && move_text(m) == t)
    } else {
        None
    }
}

/// The square that two bytes stand for, a digit from 1 to 9 and a letter
/// from `a` to `i`; -1 for other bytes.
pub open spec fn square_of_text(a: u8, b: u8) -> int {
    if 49 <= a <= 57 && 97 <= b <= 105 {
        (a - 49) * 9 + (8 - (b - 97))
    } else {
        -1
    }
}

/// The source that the text of a move names: a square, 82 for a drop, -1
/// if the text has not the shape of a move.
pub open spec fn text_source(s: Seq<u8>) -> int {
    if s.len() != 4 && s.len() != 5 {
        -1
    } else if s[1] == 42 {
        if s.len() == 4 && 1 <= kind_of_letter(s[0]) <= 7 {
            82
        } else {
            -1
        }
    } else if s.len() == 4 || s[4] == 43 {
        square_of_text(s[0], s[1])
    } else {
        -1
    }
}

/// The target that the text of a move names; -1 if it names none.
pub open spec fn text_target(s: Seq<u8>) -> int {
    if s.len() != 4 && s.len() != 5 {
        -1
    } else {
        square_of_text(s[2], s[3])
    }
}

/// The text of a move names the parts of the move.
pub proof fn lemma_text_names_parts(m: Move)
    requires
        presentable(m),
        m.0 != 0,
        m.0 != WIN_CODE,
    ensures
        text_source(move_text(m)) == m.from_index(),
        text_target(move_text(m)) == m.to_index(),
        m.from_index() == 82 ==> kind_of_letter(move_text(m)[0]) == m.kind(),
        m.from_index() != 82 ==> (move_text(m).len() == 5) == m.promotes(),
{
    let s = move_text(m);
    if m.from_index() == 82 {
        assert(s.len() == 4);
        assert(s[1] == 42);
    } else {
        assert(s[1] != 42);
    }
}

/// Two legal moves of a position with the same text are the same move.
pub proof fn lemma_move_text_unique(b: Board, m1: Move, m2: Move)
    requires
        b.legal(m1),
        b.legal(m2),
        move_text(m1) == move_text(m2),
    ensures
        m1 == m2,
{
    assert(Move(0).kind() == 0);
    assert(Move(WIN_CODE).kind() == 0);
    lemma_text_names_parts(m1);
    lemma_text_names_parts(m2);
    assert(m1.is_packed() && m2.is_packed());
    assert(m1.0 == m2.0);
}

/// A move whose parts are those that a text names is written as that text.
pub proof fn lemma_parts_give_text(m: Move, s: Seq<u8>)
    requires
        presentable(m),
        m.kind() != 0,
        text_source(s) == m.from_index(),
        text_target(s) == m.to_index(),
        m.from_index() == 82 ==> kind_of_letter(s[0]) == m.kind(),
        m.from_index() != 82 ==> (s.len() == 5) == m.promotes(),
    ensures
        move_text(m) == s,
{
    assert(Move(0).kind() == 0);
    assert(Move(WIN_CODE).kind() == 0);
    assert(move_text(m) =~= s);
}

fn square_of_text_code(a: u8, b: u8) -> (r: Option<u8>)
    ensures
        match r {
            Some(sq) => sq < 81 && sq == square_of_text(a, b),
            None => square_of_text(a, b) == -1,
        },
{
    if 49 <= a && a <= 57 && 97 <= b && b <= 105 {
        Some((a - 49) * 9 + (8 - (b - 97)))
    } else {
        None
    }
}

/// Whether `m` is one of `list`.
fn is_member(list: &Vec<Move>, m: Move) -> (b: bool)
    ensures
        b == list@.contains(m),
{
    let mut i: usize = 0;
    while i < list.len()
        invariant
            0 <= i <= list@.len(),
            forall|j: int| 0 <= j < i ==> list@[j] != m,
        decreases list@.len() - i,
    {
        if list[i].0 == m.0 {
            return true;
        }
        i = i + 1;
    }
    false
}

/// The move with the parts that the text names, its kinds taken from the
/// position; `None` if the text has not the shape of a move.
fn candidate(pos: &Position, t: &Vec<u8>, i: usize, end: usize) -> (r: Option<Move>)
    requires
        i <= end <= t@.len(),
    ensures
        ({
            let s = t@.subrange(i as int, end as int);
            match r {
                Some(m) => {
                    &&& presentable(m)
                    &&& m.is_packed()
                    &&& text_source(s) == m.from_index()
                    &&& text_target(s) == m.to_index()
                    &&& m.from_index() == 82 ==> kind_of_letter(s[0]) == m.kind() && !m.promotes() && m.captured()
                        == 0
                    &&& m.from_index() != 82 ==> (s.len() == 5) == m.promotes() && m.kind() == crate::board::kind_of(
                        pos@.squares[m.from_index()],
                    ) && m.captured() == crate::board::kind_of(pos@.squares[m.to_index()])
                },
                None => text_source(s) == -1 || text_target(s) == -1,
            }
        }),
{
    let ghost s = t@.subrange(i as int, end as int);
    let len: usize = t.len();
    let n: usize = end - i;
    if n != 4 && n != 5 {
        return None;
    }
    assert(s[0] == t@[i as int] && s[1] == t@[i + 1] && s[2] == t@[i + 2] && s[3] == t@[i + 3]);
    let target: Option<u8> = square_of_text_code(t[i + 2], t[i + 3]);
    if t[i + 1] == 42 {
        let k: u8 = kind_of_letter_code(t[i]);
        if n == 4 && 1 <= k && k <= 7 {
            match target {
                Some(to) => Some(Move::make(82, to, false, k, 0)),
                None => None,
            }
        } else {
            None
        }
    } else if n == 4 || t[i + 4] == 43 {
        match square_of_text_code(t[i], t[i + 1]) {
            Some(from) => match target {
                Some(to) => Some(Move::make(from, to, n == 5, kind_code(pos.at(from)), kind_code(pos.at(to)))),
                None => None,
            },
            None => None,
        }
    } else {
        assert(s[4] == t@[i + 4]);
        None
    }
}

/// Reads the move that stands in `t` between `i` and `end`: the legal move
/// of `pos` with that text, if there is one.
pub(crate) fn read_move(pos: &Position, t: &Vec<u8>, i: usize, end: usize) -> (r: Option<Move>)
    requires
        i <= end <= t@.len(),
    ensures
        r == move_of_text(pos@, t@.subrange(i as int, end as int)),
        r matches Some(m) ==> pos@.legal(m),
{
    let ghost b = pos@;
    let ghost s = t@.subrange(i as int, end as int);
    let side: u8 = pos.side();
    let cand: Option<Move> = candidate(pos, t, i, end);
    let legal: Vec<Move> = generate(pos, false);
    let found: bool = match cand {
        Some(m) => is_member(&legal, m),
        None => false,
    };
    proof {
        assert forall|m: Move| #[trigger] b.legal(m) && move_text(m) == s implies cand == Some(m) by {
            lemma_text_names_parts(m);
            let c = cand->Some_0;
            assert(m.is_packed());
            assert(c.0 == m.0);
        }
        if found {
            let c = cand->Some_0;
            assert(legal@.contains(c));
            assert(b.legal(c));
            lemma_parts_give_text(c, s);
        }
    }
    if found {
        cand
    } else {
        None
    }
}

/// Reads the cells of a rank and appends them to `cells`.
fn read_rank(t: &Vec<u8>, i: usize, end: usize, cells: &mut Vec<u16>) -> (ok: bool)
    requires
        i <= end <= t@.len(),
    ensures
        ok ==> rank_cells(t@, i as int, end as int, old(cells)@) == Some(final(cells)@),
        !ok ==> rank_cells(t@, i as int, end as int, old(cells)@) is None,
{
    let mut j: usize = i;
    while j < end
        invariant
            i <= j <= end <= t@.len(),
            rank_cells(t@, i as int, end as int, old(cells)@) == rank_cells(t@, j as int, end as int, cells@),
        decreases end - j,
    {
        let c: u8 = t[j];
        if 49 <= c && c <= 57 {
            let ghost before = cells@;
            let mut n: u8 = 0;
            while n < c - 48
                invariant
                    49 <= c <= 57,
                    0 <= n <= c - 48,
                    cells@ == before + blanks(n as int),
                decreases c - 48 - n,
            {
                cells.push(0);
                assert(cells@ =~= before + blanks(n + 1));
                n = n + 1;
            }
            j = j + 1;
        } else if c == 43 {
            if j + 1 >= end {
                return false;
            }
            let p: u16 = piece_of_letter_code(t[j + 1]);
            if p % 16 < 1 || p % 16 > 6 {
                return false;
            }
            cells.push(p + 8);
            j = j + 2;
        } else {
            let p: u16 = piece_of_letter_code(c);
            if p == 0 {
                return false;
            }
            cells.push(p);
            j = j + 1;
        }
    }
    true
}

/// Reads the cells of the board, in the order of the text.
fn read_board(t: &Vec<u8>, i: usize, end: usize) -> (r: Option<Vec<u16>>)
    requires
        i <= end <= t@.len(),
    ensures
        match r {
            Some(v) => board_cells(t@, i as int, end as int, 0, Seq::<u16>::empty()) == Some(v@) && v@.len() == 81,
            None => board_cells(t@, i as int, end as int, 0, Seq::<u16>::empty()) is None,
        },
{
    let mut cells: Vec<u16> = Vec::new();
    let mut j: usize = i;
    let mut k: usize = 0;
    loop
        invariant
            i <= j <= end <= t@.len(),
            0 <= k < 9,
            cells@.len() == 9 * k,
            board_cells(t@, i as int, end as int, 0, Seq::<u16>::empty()) == board_cells(
                t@,
                j as int,
                end as int,
                k as int,
                cells@,
            ),
        decreases 9 - k,
    {
        let e: usize = scan(t, j, end, 47);
        if !read_rank(t, j, e, &mut cells) {
            return None;
        }
        if cells.len() != 9 * k + 9 {
            return None;
        }
        if k == 8 {
            if e == end {
                return Some(cells);
            } else {
                return None;
            }
        }
        if e >= end {
            return None;
        }
        j = e + 1;
        k = k + 1;
    }
}

/// Reads the stands.
fn read_hand(t: &Vec<u8>, i: usize, end: usize) -> (r: Option<[u8; 16]>)
    requires
        i <= end <= t@.len(),
    ensures
        match r {
            Some(v) => hand_items(t@, i as int, end as int, no_hand()) == Some(v@),
            None => hand_items(t@, i as int, end as int, no_hand()) is None,
        },
{
    let mut acc: [u8; 16] = [0u8; 16];
    assert(acc@ =~= no_hand());
    let mut j: usize = i;
    while j < end
        invariant
            i <= j <= end <= t@.len(),
            forall|x: int| 0 <= x < 16 ==> #[trigger] acc@[x] <= 18,
            hand_items(t@, i as int, end as int, no_hand()) == hand_items(t@, j as int, end as int, acc@),
        decreases end - j,
    {
        let c: u8 = t[j];
        let mut n: u8 = 1;
        let mut at: usize = j;
        if 48 <= c && c <= 57 {
            if j + 1 < end && 48 <= t[j + 1] && t[j + 1] <= 57 {
                n = 10 * (c - 48) + (t[j + 1] - 48);
                at = j + 2;
            } else {
                n = c - 48;
                at = j + 1;
            }
        }
        if at >= end {
            return None;
        }
        let p: u16 = piece_of_letter_code(t[at]);
        if p % 16 < 1 || p % 16 > 7 || n < 1 || n > 18 {
            return None;
        }
        let idx: usize = (8 * (p / 16) + p % 16) as usize;
        if acc[idx] + n > 18 {
            return None;
        }
        acc[idx] = acc[idx] + n;
        j = at + 1;
    }
    Some(acc)
}

/// Whether the field is made of digits, at least one.
fn all_digits_code(t: &Vec<u8>, i: usize, end: usize) -> (b: bool)
    requires
        i <= end <= t@.len() || i == end + 1,
        end <= t@.len(),
    ensures
        b == all_digits(t@, i as int, end as int),
{
    if i >= end {
        return false;
    }
    let mut j: usize = i;
    while j < end
        invariant
            i <= j <= end <= t@.len(),
            forall|x: int| i <= x < j ==> 48 <= #[trigger] t@[x] <= 57,
        decreases end - j,
    {
        if t[j] < 48 || t[j] > 57 {
            return false;
        }
        j = j + 1;
    }
    true
}

/// Reads the position that the text between `i` and `end` describes.
pub(crate) fn read_position(t: &Vec<u8>, i: usize, end: usize) -> (r: Option<Position>)
    requires
        i <= end <= t@.len(),
    ensures
        match r {
            Some(p) => sfen_position(t@, i as int, end as int) == Some(p@),
            None => sfen_position(t@, i as int, end as int) is None,
        },
{
    let len: usize = t.len();
    let e0: usize = scan(t, i, end, 32);
    if e0 >= end {
        return None;
    }
    let e1: usize = scan(t, e0 + 1, end, 32);
    if e1 - e0 != 2 || e1 >= end || (t[e0 + 1] != 98 && t[e0 + 1] != 119) {
        return None;
    }
    let e2: usize = scan(t, e1 + 1, end, 32);
    if e2 >= end || !all_digits_code(t, e2 + 1, end) {
        return None;
    }
    let cells: Vec<u16> = match read_board(t, i, e0) {
        Some(v) => v,
        None => {
            return None;
        },
    };
    let stand: [u8; 16] = if e2 - e1 == 2 && t[e1 + 1] == 45 {
        let z: [u8; 16] = [0u8; 16];
        assert(z@ =~= no_hand());
        z
    } else if e1 + 1 < e2 {
        match read_hand(t, e1 + 1, e2) {
            Some(v) => v,
            None => {
                return None;
            },
        }
    } else {
        return None;
    };
    let side: u8 = if t[e0 + 1] == 98 {
        0
    } else {
        1
    };
    let mut squares: [u16; 81] = [0u16; 81];
    let mut sq: usize = 0;
    while sq < 81
        invariant
            0 <= sq <= 81,
            cells@.len() == 81,
            forall|x: int| 0 <= x < sq ==> #[trigger] squares@[x] == cells@[(8 - x % 9) * 9 + (8 - x / 9)],
        decreases 81 - sq,
    {
        squares[sq] = cells[(8 - sq % 9) * 9 + (8 - sq / 9)];
        sq = sq + 1;
    }
    assert(squares@ =~= squares_of_cells(cells@));
    assert(sfen_parts(t@, i as int, end as int) == Some((squares@, stand@, side)));
    match Position::build(squares, stand, side) {
        Some(p) => {
            proof {
                assert(parts_wf(squares@, stand@, p@.kings, side));
                let b = position_with(squares@, stand@, side);
                assert(parts_wf(b.squares, b.stand, b.kings, b.side));
                crate::position::lemma_kings_unique(p@, b);
            }
            Some(p)
        },
        None => None,
    }
}

/// The text of the initial position of an even game.
pub open spec fn start_text() -> Seq<u8> {
    "lnsgkgsnl/1r5b1/ppppppppp/9/9/9/PPPPPPPPP/1B5R1/LNSGKGSNL b - 1".spec_bytes()
}

/// The word that stands for the initial position of an even game:
/// `startpos`.
pub open spec fn start_word() -> Seq<u8> {
    seq![115u8, 116u8, 97u8, 114u8, 116u8, 112u8, 111u8, 115u8]
}

/// The word that comes before the moves: ` moves`, with its space.
pub open spec fn moves_word() -> Seq<u8> {
    seq![32u8, 109u8, 111u8, 118u8, 101u8, 115u8]
}

fn start_word_code() -> (w: Vec<u8>)
    ensures
        w@ == start_word(),
{
    let mut w: Vec<u8> = Vec::new();
    w.push(115);
    w.push(116);
    w.push(97);
    w.push(114);
    w.push(116);
    w.push(112);
    w.push(111);
    w.push(115);
    assert(w@ =~= start_word());
    w
}

fn moves_word_code() -> (w: Vec<u8>)
    ensures
        w@ == moves_word(),
{
    let mut w: Vec<u8> = Vec::new();
    w.push(32);
    w.push(109);
    w.push(111);
    w.push(118);
    w.push(101);
    w.push(115);
    assert(w@ =~= moves_word());
    w
}

/// The moves that the text from `i` gives, appended to `acc`: each comes
/// after a space and is a legal move of the position that the moves before
/// it lead to.
pub open spec fn sfen_moves(b: Board, t: Seq<u8>, i: int, acc: Seq<Move>) -> Option<Seq<Move>>
    decreases t.len() - i,
{
    if i >= t.len() {
        Some(acc)
    } else if t[i] != 32 {
        None
    } else {
        let e = next_sep(t, i + 1, t.len() as int, 32);
        let m = move_of_text(b, t.subrange(i + 1, e));
        if m is Some && i < e <= t.len() {
            sfen_moves(b.apply(m->Some_0), t, e, acc.push(m->Some_0))
        } else {
            None
        }
    }
}

/// Where the description of the position ends: after `startpos`, or after
/// the fourth field.
pub open spec fn head_end(t: Seq<u8>) -> int {
    if has_word(t, 0, start_word()) {
        start_word().len() as int
    } else {
        let n = t.len() as int;
        let e0 = next_sep(t, 0, n, 32);
        let e1 = next_sep(t, e0 + 1, n, 32);
        let e2 = next_sep(t, e1 + 1, n, 32);
        next_sep(t, e2 + 1, n, 32)
    }
}

/// The position in which the game that the text describes begins.
pub open spec fn sfen_initial(t: Seq<u8>) -> Option<Board> {
    if has_word(t, 0, start_word()) {
        sfen_position(start_text(), 0, start_text().len() as int)
    } else {
        sfen_position(t, 0, head_end(t))
    }
}

/// The game that the text describes: a position, then nothing more or the
/// word ` moves` and legal moves. `None` for any other text.
pub open spec fn sfen_state(t: Seq<u8>) -> Option<StateView> {
    let h = head_end(t);
    match sfen_initial(t) {
        None => None,
        Some(b) => if h >= t.len() {
            Some(StateView { initial: b, history: Seq::<Move>::empty() })
        } else if has_word(t, h, moves_word()) {
            match sfen_moves(b, t, h + moves_word().len(), Seq::<Move>::empty()) {
                None => None,
                Some(ms) => Some(StateView { initial: b, history: ms }),
            }
        } else {
            None
        },
    }
}

/// Reads a game from the bytes of its text.
pub(crate) fn read_state(t: &Vec<u8>) -> (r: Option<State>)
    ensures
        match r {
            Some(s) => s.wf() && sfen_state(t@) == Some(s@),
            None => sfen_state(t@) is None,
        },
{
    let n: usize = t.len();
    let w_start: Vec<u8> = start_word_code();
    let w_moves: Vec<u8> = moves_word_code();
    let start: bool = has_word_code(t, 0, &w_start);
    let h: usize;
    let initial: Option<Position>;
    if start {
        let text: Vec<u8> = bytes_of("lnsgkgsnl/1r5b1/ppppppppp/9/9/9/PPPPPPPPP/1B5R1/LNSGKGSNL b - 1");
        h = w_start.len();
        initial = read_position(&text, 0, text.len());
    } else {
        let e0: usize = scan(t, 0, n, 32);
        let e1: usize = if e0 < n {
            scan(t, e0 + 1, n, 32)
        } else {
            n
        };
        let e2: usize = if e1 < n {
            scan(t, e1 + 1, n, 32)
        } else {
            n
        };
        h = if e2 < n {
            scan(t, e2 + 1, n, 32)
        } else {
            n
        };
        initial = read_position(t, 0, h);
    }
    assert(h == head_end(t@));
    let pos: Position = match initial {
        Some(p) => p,
        None => {
            return None;
        },
    };
    let mut state: State = State::new(pos);
    if h >= n {
        assert(state@.history =~= Seq::<Move>::empty());
        return Some(state);
    }
    if !has_word_code(t, h, &w_moves) {
        return None;
    }
    let mut i: usize = h + w_moves.len();
    assert(state@.history =~= Seq::<Move>::empty());
    while i < n
        invariant
            h + w_moves@.len() <= i <= n,
            n == t@.len(),
            h == head_end(t@),
            h < n,
            w_moves@ == moves_word(),
            has_word(t@, h as int, moves_word()),
            sfen_initial(t@) == Some(pos@),
            state.wf(),
            state@.initial == pos@,
            sfen_moves(pos@, t@, h + w_moves@.len(), Seq::<Move>::empty()) == sfen_moves(
                state@.current(),
                t@,
                i as int,
                state@.history,
            ),
        decreases n - i,
    {
        if t[i] != 32 {
            return None;
        }
        let e: usize = scan(t, i + 1, n, 32);
        let cur: Position = state.get_position();
        match read_move(&cur, t, i + 1, e) {
            None => {
                return None;
            },
            Some(m) => {
                state.do_move(m);
            },
        }
        i = e;
    }
    Some(state)
}

impl State {
    /// Returns the state that `sfen` describes: a position, or the word
    /// `startpos`, and after it, if wanted, ` moves` and legal moves. Any
    /// other text is an error.
    pub fn from_sfen(sfen: &str) -> (r: Result<State, SfenParseError>)
        ensures
            match r {
                Ok(s) => s.wf() && sfen_state(sfen.spec_bytes()) == Some(s@),
                Err(e) => sfen_state(sfen.spec_bytes()) is None && e is RuntimeError,
            },
    {
        let t: Vec<u8> = bytes_of(sfen);
        match read_state(&t) {
            Some(s) => Ok(s),
            None => Err(SfenParseError::RuntimeError("Invalid sfen string.")),
        }
    }
}

impl Move {
    /// Returns the legal move of `state` that is written `sfen`; an error
    /// if there is none.
    pub fn from_sfen(state: &State, sfen: &str) -> (r: Result<Move, SfenParseError>)
        requires
            state.wf(),
        ensures
            match r {
                Ok(m) => move_of_text(state@.current(), sfen.spec_bytes()) == Some(m) && state@.current().legal(m),
                Err(e) => move_of_text(state@.current(), sfen.spec_bytes()) is None && e is RuntimeError,
            },
    {
        let t: Vec<u8> = bytes_of(sfen);
        let pos: Position = state.get_position();
        assert(t@.subrange(0, t@.len() as int) =~= t@);
        match read_move(&pos, &t, 0, t.len()) {
            Some(m) => Ok(m),
            None => Err(SfenParseError::RuntimeError("Invalid sfen string.")),
        }
    }
}

/// The text of a piece: its letter, lower case for white, with `+` before
/// it if the piece is promoted.
pub open spec fn piece_text(p: u16) -> Seq<u8> {
    let k = (p % 16) as int;
    let base = letter_of_kind(if k > 8 {
        k - 8
    } else {
        k
    });
    let letter = if p / 16 == 1 {
        (base + 32) as u8
    } else {
        base
    };
    if k > 8 {
        seq![43u8, letter]
    } else {
        seq![letter]
    }
}

/// The text of a run of `run` empty squares: nothing for none, else a digit.
pub open spec fn run_text(run: int) -> Seq<u8> {
    if run > 0 {
        seq![(48 + run) as u8]
    } else {
        Seq::<u8>::empty()
    }
}

/// `acc`, then the text of the cells from `j` to the end of their rank,
/// `run` empty cells being counted already.
pub open spec fn rank_text(cells: Seq<u16>, j: int, end: int, run: int, acc: Seq<u8>) -> Seq<u8>
    decreases end - j,
{
    if j >= end {
        acc + run_text(run)
    } else if cells[j] == 0 {
        rank_text(cells, j + 1, end, run + 1, acc)
    } else {
        rank_text(cells, j + 1, end, 0, acc + run_text(run) + piece_text(cells[j]))
    }
}

/// The cells of the board in the order of the text.
pub open spec fn cells_of_squares(squares: Seq<u16>) -> Seq<u16> {
    Seq::new(81, |j: int| squares[(8 - j % 9) * 9 + (8 - j / 9)])
}

/// `acc`, then the text of ranks `k` to 8, with `/` between them.
pub open spec fn board_text(cells: Seq<u16>, k: int, acc: Seq<u8>) -> Seq<u8>
    decreases 9 - k,
{
    if k >= 9 || k < 0 {
        acc
    } else if k == 8 {
        rank_text(cells, 72, 81, 0, acc)
    } else {
        board_text(cells, k + 1, rank_text(cells, 9 * k, 9 * k + 9, 0, acc).push(47u8))
    }
}

/// The stand entry that comes `j`-th in the text: black's rook, bishop,
/// gold, silver, knight, lance and pawn, then white's.
pub open spec fn hand_entry(j: int) -> int {
    let k: int = if j % 7 == 0 {
        6
    } else if j % 7 == 1 {
        5
    } else if j % 7 == 2 {
        7
    } else if j % 7 == 3 {
        4
    } else if j % 7 == 4 {
        3
    } else if j % 7 == 5 {
        2
    } else {
        1
    };
    8 * (j / 7) + k
}

/// The text of a stand entry that holds `n` pieces: nothing for none, the
/// letter for one, the number and the letter for more.
pub open spec fn entry_text(idx: int, n: u8) -> Seq<u8> {
    let letter = if idx >= 8 {
        (letter_of_kind(idx - 8) + 32) as u8
    } else {
        letter_of_kind(idx)
    };
    if n == 0 {
        Seq::<u8>::empty()
    } else if n == 1 {
        seq![letter]
    } else if n < 10 {
        seq![(48 + n) as u8, letter]
    } else {
        seq![(48 + n / 10) as u8, (48 + n % 10) as u8, letter]
    }
}

/// `acc`, then the text of the stand entries from the `j`-th on.
pub open spec fn hand_text(stand: Seq<u8>, j: int, acc: Seq<u8>) -> Seq<u8>
    decreases 14 - j,
{
    if j >= 14 || j < 0 {
        acc
    } else {
        hand_text(stand, j + 1, acc + entry_text(hand_entry(j), stand[hand_entry(j)]))
    }
}

/// The text of a position: board, side, stands, and the move number 1.
pub open spec fn position_text(b: Board) -> Seq<u8> {
    let board = board_text(cells_of_squares(b.squares), 0, Seq::<u8>::empty());
    let side = board + seq![32u8, if b.side == 0 {
        98u8
    } else {
        119u8
    }, 32u8];
    let hand = hand_text(b.stand, 0, side);
    (if hand.len() == side.len() {
        side.push(45u8)
    } else {
        hand
    }) + seq![32u8, 49u8]
}

/// `acc`, then the moves from the `j`-th on, a space before each.
pub open spec fn moves_text(h: Seq<Move>, j: int, acc: Seq<u8>) -> Seq<u8>
    decreases h.len() - j,
{
    if j >= h.len() || j < 0 {
        acc
    } else {
        moves_text(h, j + 1, acc.push(32u8) + move_text(h[j]))
    }
}

/// The text of a game: the position in which it began and, if moves were
/// played, ` moves` and the moves.
pub open spec fn state_text(s: StateView) -> Seq<u8> {
    if s.history.len() == 0 {
        position_text(s.initial)
    } else {
        moves_text(s.history, 0, position_text(s.initial) + moves_word())
    }
}

/// All the bytes are bytes that the notations use.
pub open spec fn all_printable(t: Seq<u8>) -> bool {
    forall|i: int| 0 <= i < t.len() ==> printable(#[trigger] t[i])
}

/// Appends the text of a square.
fn write_square(out: &mut Vec<u8>, sq: u8)
    requires
        sq < 81,
        all_printable(old(out)@),
    ensures
        final(out)@ == old(out)@ + square_text(sq as int),
        all_printable(final(out)@),
{
    out.push(49 + sq / 9);
    out.push(97 + 8 - sq % 9);
    assert(out@ =~= old(out)@ + square_text(sq as int));
}

/// Appends the text of a move.
pub(crate) fn write_move(out: &mut Vec<u8>, m: Move)
    requires
        all_printable(old(out)@),
    ensures
        final(out)@ == old(out)@ + move_text(m),
        all_printable(final(out)@),
{
    let to: u32 = m.0 % 128;
    let from: u32 = m.0 / 128 % 128;
    let kind: u32 = m.0 / 128 / 128 / 2 % 16;
    let shown: bool = to < 81 && (if from == 82 {
        1 <= kind && kind <= 7
    } else {
        from < 81
    });
    if m.0 == WIN_CODE {
        out.push(119);
        out.push(105);
        out.push(110);
        assert(out@ =~= old(out)@ + move_text(m));
    } else if m.0 == 0 || !shown {
        out.push(110);
        out.push(111);
        out.push(110);
        out.push(101);
        assert(out@ =~= old(out)@ + move_text(m));
    } else if from == 82 {
        out.push(letter_of_kind_code(kind as u8));
        out.push(42);
        write_square(out, to as u8);
        assert(out@ =~= old(out)@ + move_text(m));
    } else {
        write_square(out, from as u8);
        write_square(out, to as u8);
        if m.0 / 128 / 128 % 2 == 1 {
            out.push(43);
        }
        assert(out@ =~= old(out)@ + move_text(m));
    }
}

/// Appends the text of a run of empty squares.
fn write_run(out: &mut Vec<u8>, run: u8)
    requires
        run <= 9,
        all_printable(old(out)@),
    ensures
        final(out)@ == old(out)@ + run_text(run as int),
        all_printable(final(out)@),
{
    if run > 0 {
        out.push(48 + run);
    }
    assert(out@ =~= old(out)@ + run_text(run as int));
}

/// Appends the text of a piece.
fn write_piece(out: &mut Vec<u8>, p: u16)
    requires
        crate::board::valid_piece(p),
        p != 0,
        all_printable(old(out)@),
    ensures
        final(out)@ == old(out)@ + piece_text(p),
        all_printable(final(out)@),
{
    let k: u8 = (p % 16) as u8;
    let base: u8 = letter_of_kind_code(if k > 8 {
        k - 8
    } else {
        k
    });
    let letter: u8 = if p / 16 == 1 {
        base + 32
    } else {
        base
    };
    if k > 8 {
        out.push(43);
    }
    out.push(letter);
    assert(out@ =~= old(out)@ + piece_text(p));
}

/// Appends the text of a position.
pub(crate) fn write_position(out: &mut Vec<u8>, pos: &Position)
    requires
        old(out)@.len() == 0,
    ensures
        final(out)@ == position_text(pos@),
        all_printable(final(out)@),
{
    let ghost cells = cells_of_squares(pos@.squares);
    let side: u8 = pos.side();
    let mut k: u8 = 0;
    assert(out@ =~= Seq::<u8>::empty());
    while k < 9
        invariant
            0 <= k <= 9,
            pos@.wf(),
            cells == cells_of_squares(pos@.squares),
            all_printable(out@),
            k < 9 ==> board_text(cells, 0, Seq::<u8>::empty()) == board_text(cells, k as int, out@),
            k == 9 ==> board_text(cells, 0, Seq::<u8>::empty()) == out@,
        decreases 9 - k,
    {
        let mut c: u8 = 0;
        let mut run: u8 = 0;
        let ghost start = out@;
        while c < 9
            invariant
                0 <= c <= 9,
                0 <= k < 9,
                0 <= run <= c,
                pos@.wf(),
                cells == cells_of_squares(pos@.squares),
                all_printable(out@),
                rank_text(cells, 9 * k, 9 * k + 9, 0, start) == rank_text(
                    cells,
                    9 * k + c,
                    9 * k + 9,
                    run as int,
                    out@,
                ),
            decreases 9 - c,
        {
            let sq: u8 = (8 - c) * 9 + (8 - k);
            let p: u16 = pos.at(sq);
            assert(cells[9 * k + c] == p);
            if p == 0 {
                run = run + 1;
            } else {
                write_run(out, run);
                write_piece(out, p);
                run = 0;
            }
            c = c + 1;
        }
        write_run(out, run);
        if k < 8 {
            out.push(47);
        }
        k = k + 1;
    }
    let ghost board = out@;
    out.push(32);
    out.push(if side == 0 {
        98
    } else {
        119
    });
    out.push(32);
    let ghost base = out@;
    assert(base =~= board + seq![32u8, if pos@.side == 0 {
        98u8
    } else {
        119u8
    }, 32u8]);
    let mark: usize = out.len();
    assert(out@.subrange(0, base.len() as int) =~= base);
    let mut j: u8 = 0;
    while j < 14
        invariant
            0 <= j <= 14,
            pos@.wf(),
            all_printable(out@),
            out@.len() >= base.len(),
            out@.subrange(0, base.len() as int) == base,
            mark == base.len(),
            hand_text(pos@.stand, 0, base) == hand_text(pos@.stand, j as int, out@),
        decreases 14 - j,
    {
        let k: u8 = if j % 7 == 0 {
            6
        } else if j % 7 == 1 {
            5
        } else if j % 7 == 2 {
            7
        } else if j % 7 == 3 {
            4
        } else if j % 7 == 4 {
            3
        } else if j % 7 == 5 {
            2
        } else {
            1
        };
        let idx: u8 = 8 * (j / 7) + k;
        let n: u8 = pos.stand_entry(idx);
        let base_letter: u8 = letter_of_kind_code(k);
        let letter: u8 = if j >= 7 {
            base_letter + 32
        } else {
            base_letter
        };
        let ghost before = out@;
        proof {
            crate::position::lemma_count_bounds(pos@.squares, k as int, 81);
            assert(crate::position::count_kind(pos@.squares, k as int, 81) + pos@.stand[k as int] + pos@.stand[8
                + k] == crate::position::supply(k as int));
        }
        if n == 0 {
        } else if n == 1 {
            out.push(letter);
        } else if n < 10 {
            out.push(48 + n);
            out.push(letter);
        } else {
            out.push(48 + n / 10);
            out.push(48 + n % 10);
            out.push(letter);
        }
        assert(out@ =~= before + entry_text(idx as int, n));
        assert(out@.subrange(0, base.len() as int) =~= before.subrange(0, base.len() as int));
        j = j + 1;
    }
    if out.len() == mark {
        assert(out@ =~= out@.subrange(0, base.len() as int));
        out.push(45);
    }
    out.push(32);
    out.push(49);
    assert(out@ =~= position_text(pos@));
}

impl ToSfen for Move {
    /// Returns the text of the move.
    fn to_sfen(&self) -> (s: String)
        ensures
            s@ == ascii(move_text(*self)),
    {
        let mut out: Vec<u8> = Vec::new();
        write_move(&mut out, *self);
        assert(out@ =~= move_text(*self));
        string_of(&out)
    }
}

impl ToSfen for Position {
    /// Returns the text of the position.
    fn to_sfen(&self) -> (s: String)
        ensures
            s@ == ascii(position_text(self@)),
    {
        let mut out: Vec<u8> = Vec::new();
        write_position(&mut out, self);
        string_of(&out)
    }
}

impl ToSfen for State {
    /// Returns the text of the game: the position in which it began and
    /// the moves played.
    fn to_sfen(&self) -> (s: String)
        ensures
            s@ == ascii(state_text(self@)),
    {
        let mut out: Vec<u8> = Vec::new();
        let initial: Position = self.get_initial_position();
        write_position(&mut out, &initial);
        let n: usize = self.history_len();
        if n > 0 {
            let ghost base = out@;
            out.push(32);
            out.push(109);
            out.push(111);
            out.push(118);
            out.push(101);
            out.push(115);
            assert(out@ =~= base + moves_word());
            let mut j: usize = 0;
            while j < n
                invariant
                    0 <= j <= n,
                    n == self@.history.len(),
                    all_printable(out@),
                    state_text(self@) == moves_text(self@.history, j as int, out@),
                decreases n - j,
            {
                out.push(32);
                let m: Move = self.history_at(j);
                write_move(&mut out, m);
                j = j + 1;
            }
        }
        string_of(&out)
    }
}

} // verus!
