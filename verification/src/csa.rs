//! CSA notation: reading and writing positions, moves and games.
//!
//! A position is written as nine lines for the ranks `a` to `i`, each made
//! of `P`, the number of the line and nine cells of three characters from
//! file 9 to file 1: ` * ` for an empty square, else `+` for black or `-` for
//! white and the two letters of the piece; then a line `P+` and a line `P-` with `00` and the
//! two letters for each piece that black and white hold, left out where a
//! stand is empty; then a line with the sign of the side to move. A game is a
//! position followed by one line for each move: the sign of the mover, the
//! digits of the source square or `00` for a drop, the digits of the target
//! square, and the letters of the piece as it is after the move.
use crate::board::{kind_code, valid_piece};
use crate::io::ToCSA;
use crate::movegen::generate;
use crate::position::{Board, Position};
use crate::sfen::{all_printable, hand_entry, no_hand, position_exists, position_with, presentable};
use crate::state::{State, StateView};
use crate::text::{ascii, bytes_of, printable, string_of};
use crate::types::{CSAParseError, Move, WIN_CODE};
use vstd::prelude::*;
use vstd::string::StringSliceAdditionalSpecFns;

verus! {

/// The first letter of the name of kind `k`; `*` for a number that is no kind.
pub open spec fn code_first(k: int) -> u8 {
    if k == 1 {
        70
    } else if k == 2 || k == 3 || k == 5 || k == 7 {
        75
    } else if k == 4 {
        71
    } else if k == 6 {
        72
    } else if k == 8 {
        79
    } else if k == 9 {
        84
    } else if 10 <= k <= 12 {
        78
    } else if k == 13 {
        85
    } else if k == 14 {
        82
    } else {
        42
    }
}

/// The second letter of the name of kind `k`; `*` for a number that is no kind.
pub open spec fn code_second(k: int) -> u8 {
    if k == 1 || k == 8 {
        85
    } else if k == 2 || k == 10 || k == 14 {
        89
    } else if k == 3 {
        69
    } else if k == 4 || k == 6 || k == 7 {
        73
    } else if k == 5 {
        65
    } else if k == 9 {
        79
    } else if k == 11 {
        75
    } else if k == 12 {
        71
    } else if k == 13 {
        77
    } else {
        42
    }
}

/// The kind whose name is the two letters; 0 if they name none.
pub open spec fn kind_of_code(a: u8, b: u8) -> int {
    if a == 70 && b == 85 {
        1
    } else if a == 75 && b == 89 {
        2
    } else if a == 75 && b == 69 {
        3
    } else if a == 71 && b == 73 {
        4
    } else if a == 75 && b == 65 {
        5
    } else if a == 72 && b == 73 {
        6
    } else if a == 75 && b == 73 {
        7
    } else if a == 79 && b == 85 {
        8
    } else if a == 84 && b == 79 {
        9
    } else if a == 78 && b == 89 {
        10
    } else if a == 78 && b == 75 {
        11
    } else if a == 78 && b == 71 {
        12
    } else if a == 85 && b == 77 {
        13
    } else if a == 82 && b == 89 {
        14
    } else {
        0
    }
}

/// The sign of color `c`: `+` for black, `-` for white.
pub open spec fn sign_of(c: int) -> u8 {
    if c == 0 {
        43
    } else {
        45
    }
}

fn code_first_code(k: u8) -> (b: u8)
    ensures
        b == code_first(k as int),
        printable(b),
{
    if k == 1 {
        70
    } else if k == 2 || k == 3 || k == 5 || k == 7 {
        75
    } else if k == 4 {
        71
    } else if k == 6 {
        72
    } else if k == 8 {
        79
    } else if k == 9 {
        84
    } else if 10 <= k && k <= 12 {
        78
    } else if k == 13 {
        85
    } else if k == 14 {
        82
    } else {
        42
    }
}

fn code_second_code(k: u8) -> (b: u8)
    ensures
        b == code_second(k as int),
        printable(b),
{
    if k == 1 || k == 8 {
        85
    } else if k == 2 || k == 10 || k == 14 {
        89
    } else if k == 3 {
        69
    } else if k == 4 || k == 6 || k == 7 {
        73
    } else if k == 5 {
        65
    } else if k == 9 {
        79
    } else if k == 11 {
        75
    } else if k == 12 {
        71
    } else if k == 13 {
        77
    } else {
        42
    }
}

fn kind_of_code_code(a: u8, b: u8) -> (k: u8)
    ensures
        k == kind_of_code(a, b),
        k <= 14,
{
    if a == 70 && b == 85 {
        1
    } else if a == 75 && b == 89 {
        2
    } else if a == 75 && b == 69 {
        3
    } else if a == 71 && b == 73 {
        4
    } else if a == 75 && b == 65 {
        5
    } else if a == 72 && b == 73 {
        6
    } else if a == 75 && b == 73 {
        7
    } else if a == 79 && b == 85 {
        8
    } else if a == 84 && b == 79 {
        9
    } else if a == 78 && b == 89 {
        10
    } else if a == 78 && b == 75 {
        11
    } else if a == 78 && b == 71 {
        12
    } else if a == 85 && b == 77 {
        13
    } else if a == 82 && b == 89 {
        14
    } else {
        0
    }
}

/// The digits of a square: its file and its rank, both from 1 to 9.
pub open spec fn csa_square(sq: int) -> Seq<u8> {
    seq![(49 + sq / 9) as u8, (57 - sq % 9) as u8]
}

/// The kind that the piece of a move has after the move.
pub open spec fn kind_after(m: Move) -> int {
    if m.promotes() {
        m.kind() + 8
    } else {
        m.kind()
    }
}

/// The move can be written: it is presentable and its piece has a name
/// after the move.
pub open spec fn writable(m: Move) -> bool {
    presentable(m) && 1 <= kind_after(m) <= 14
}

/// The text of a move made by the side `side`: its sign, the digits of the
/// source or `00` for a drop, the digits of the target, and the name of the
/// piece as it is after the move. The declaration of a win is written
/// `%KACHI`, and a value that is no such move `%ERROR`.
pub open spec fn move_csa(side: u8, m: Move) -> Seq<u8> {
    if m.0 == WIN_CODE {
        seq![37u8, 75u8, 65u8, 67u8, 72u8, 73u8]
    } else if !writable(m) {
        seq![37u8, 69u8, 82u8, 82u8, 79u8, 82u8]
    } else {
        seq![sign_of(side as int)] + (if m.from_index() == 82 {
            seq![48u8, 48u8]
        } else {
            csa_square(m.from_index())
        }) + csa_square(m.to_index()) + seq![code_first(kind_after(m)), code_second(kind_after(m))]
    }
}

/// The legal move of `b` that is written `t`, if there is one.
pub open spec fn move_of_csa(b: Board, t: Seq<u8>) -> Option<Move> {
    if exists|m: Move| #[trigger] b.legal(m) && move_csa(b.side, m) == t {
        Some(choose|m: Move| #[trigger] b.legal(m) && move_csa(b.side, m) == t)
    } else {
        None
    }
}

/// The square that two digits stand for; -1 for other bytes.
pub open spec fn square_of_digits(a: u8, b: u8) -> int {
    if 49 <= a <= 57 && 49 <= b <= 57 {
        (a - 49) * 9 + (57 - b)
    } else {
        -1
    }
}

/// The source that the text of a move names: a square, 82 for a drop, -1
/// if the text has not the shape of a move.
pub open spec fn csa_source(s: Seq<u8>) -> int {
    if s.len() != 7 || (s[0] != 43 && s[0] != 45) || kind_of_code(s[5], s[6]) == 0 {
        -1
    } else if s[1] == 48 && s[2] == 48 {
        82
    } else {
        square_of_digits(s[1], s[2])
    }
}

/// The target that the text of a move names; -1 if it names none.
pub open spec fn csa_target(s: Seq<u8>) -> int {
    if s.len() != 7 {
        -1
    } else {
        square_of_digits(s[3], s[4])
    }
}

/// The text of a move names the parts of the move.
pub proof fn lemma_csa_names_parts(side: u8, m: Move)
    requires
        writable(m),
        m.0 != WIN_CODE,
        side < 2,
    ensures
        csa_source(move_csa(side, m)) == m.from_index(),
        csa_target(move_csa(side, m)) == m.to_index(),
        kind_of_code(move_csa(side, m)[5], move_csa(side, m)[6]) == kind_after(m),
        move_csa(side, m)[0] == sign_of(side as int),
{
    let s = move_csa(side, m);
    assert(s.len() == 7);
}

/// A move whose parts are those that a text names is written as that text.
pub proof fn lemma_parts_give_csa(side: u8, m: Move, s: Seq<u8>)
    requires
        writable(m),
        m.0 != WIN_CODE,
        side < 2,
        csa_source(s) == m.from_index(),
        csa_target(s) == m.to_index(),
        kind_of_code(s[5], s[6]) == kind_after(m),
        s[0] == sign_of(side as int),
    ensures
        move_csa(side, m) == s,
{
    assert(move_csa(side, m) =~= s);
}

fn square_of_digits_code(a: u8, b: u8) -> (r: Option<u8>)
    ensures
        match r {
            Some(sq) => sq < 81 && sq == square_of_digits(a, b),
            None => square_of_digits(a, b) == -1,
        },
{
    if 49 <= a && a <= 57 && 49 <= b && b <= 57 {
        Some((a - 49) * 9 + (57 - b))
    } else {
        None
    }
}

/// The move with the parts that the text names, seen in `pos`; `None` if
/// the text has not the shape of a move of `pos`.
fn csa_candidate(pos: &Position, t: &Vec<u8>, i: usize, end: usize) -> (r: Option<Move>)
    requires
        i <= end <= t@.len(),
    ensures
        ({
            let s = t@.subrange(i as int, end as int);
            match r {
                Some(m) => {
                    &&& writable(m)
                    &&& m.kind() != 0
                    &&& m.is_packed()
                    &&& csa_source(s) == m.from_index()
                    &&& csa_target(s) == m.to_index()
                    &&& kind_of_code(s[5], s[6]) == kind_after(m)
                    &&& s[0] == sign_of(pos@.side as int)
                    &&& m.from_index() == 82 ==> !m.promotes() && m.captured() == 0 && 1 <= m.kind() <= 7
                    &&& m.from_index() != 82 ==> m.kind() == crate::board::kind_of(pos@.squares[m.from_index()])
                        && m.captured() == crate::board::kind_of(pos@.squares[m.to_index()])
                },
                None => forall|m: Move|
                    #![trigger pos@.legal(m)]
                    writable(m) && m.is_packed() && csa_source(s) == m.from_index() && csa_target(s)
                        == m.to_index() && kind_of_code(s[5], s[6]) == kind_after(m) && s[0] == sign_of(
                        pos@.side as int,
                    ) ==> !pos@.move_ok(m),
            }
        }),
{
    let ghost s = t@.subrange(i as int, end as int);
    let side: u8 = pos.side();
    let len: usize = t.len();
    if end - i != 7 {
        return None;
    }
    assert(s[0] == t@[i as int] && s[1] == t@[i + 1] && s[2] == t@[i + 2] && s[3] == t@[i + 3] && s[4] == t@[i
        + 4] && s[5] == t@[i + 5] && s[6] == t@[i + 6]);
    let sign: u8 = if side == 0 {
        43
    } else {
        45
    };
    let after: u8 = kind_of_code_code(t[i + 5], t[i + 6]);
    if t[i] != sign || after == 0 {
        return None;
    }
    let to: u8 = match square_of_digits_code(t[i + 3], t[i + 4]) {
        Some(sq) => sq,
        None => {
            return None;
        },
    };
    if t[i + 1] == 48 && t[i + 2] == 48 {
        if after > 7 {
            return None;
        }
        return Some(Move::make(82, to, false, after, 0));
    }
    let from: u8 = match square_of_digits_code(t[i + 1], t[i + 2]) {
        Some(sq) => sq,
        None => {
            return None;
        },
    };
    let kind: u8 = kind_code(pos.at(from));
    let cap: u8 = kind_code(pos.at(to));
    if kind == 0 || kind > 14 {
        return None;
    }
    if after == kind {
        Some(Move::make(from, to, false, kind, cap))
    } else if kind <= 6 && after == kind + 8 {
        Some(Move::make(from, to, true, kind, cap))
    } else {
        None
    }
}

/// Whether `m` is one of `list`.
fn is_member(list: &Vec<Move>, m: Move) -> (b: bool)
    ensures
        b == list@.contains(m),
{
    let mut i: usize = 0;
    while i < list.len()
        invariant
            0 <= i <= list@.len(),
            forall|j: int| 0 <= j < i ==> list@[j] != m,
        decreases list@.len() - i,
    {
        if list[i].0 == m.0 {
            return true;
        }
        i = i + 1;
    }
    false
}

/// A legal move can be written.
pub proof fn lemma_legal_is_writable(b: Board, m: Move)
    requires
        b.wf(),
        b.legal(m),
    ensures
        writable(m),
        m.0 != WIN_CODE,
        m.kind() != 0,
{
    assert(Move(WIN_CODE).kind() == 0);
    if m.from_index() != 82 {
        assert(valid_piece(b.squares[m.from_index()]));
    }
}

/// Reads the move that stands in `t` between `i` and `end`: the legal move
/// of `pos` with that text, if there is one.
pub(crate) fn read_csa_move(pos: &Position, t: &Vec<u8>, i: usize, end: usize) -> (r: Option<Move>)
    requires
        i <= end <= t@.len(),
    ensures
        r == move_of_csa(pos@, t@.subrange(i as int, end as int)),
        r matches Some(m) ==> pos@.legal(m),
{
    let ghost b = pos@;
    let ghost s = t@.subrange(i as int, end as int);
    let side: u8 = pos.side();
    let cand: Option<Move> = csa_candidate(pos, t, i, end);
    let legal: Vec<Move> = generate(pos, false);
    let found: bool = match cand {
        Some(m) => is_member(&legal, m),
        None => false,
    };
    proof {
        assert forall|m: Move| #[trigger] b.legal(m) && move_csa(b.side, m) == s implies cand == Some(m) by {
            lemma_legal_is_writable(b, m);
            lemma_csa_names_parts(b.side, m);
            assert(m.is_packed());
            assert(b.move_ok(m));
            let c = cand->Some_0;
            assert(c.promotes() == m.promotes());
            assert(c.0 == m.0);
        }
        if found {
            let c = cand->Some_0;
            assert(legal@.contains(c));
            assert(b.legal(c));
            assert(Move(WIN_CODE).kind() == 0);
            lemma_parts_give_csa(b.side, c, s);
        }
    }
    if found {
        cand
    } else {
        None
    }
}

/// The piece that the three bytes of a cell stand for; -1 if they are no
/// cell.
pub open spec fn csa_cell(t: Seq<u8>, i: int) -> int {
    if t[i] == 32 && t[i + 1] == 42 && t[i + 2] == 32 {
        0
    } else if (t[i] == 43 || t[i] == 45) && kind_of_code(t[i + 1], t[i + 2]) != 0 {
        (if t[i] == 45 {
            16int
        } else {
            0int
        }) + kind_of_code(t[i + 1], t[i + 2])
    } else {
        -1
    }
}

/// Where the cell of the square `sq` stands in the text of the board.
pub open spec fn cell_index(sq: int) -> int {
    30 * (8 - sq % 9) + 2 + 3 * (8 - sq / 9)
}

/// The line of the text rank `r` begins with `P` and the digit of the rank
/// and ends after its nine cells.
pub open spec fn rank_frame_ok(t: Seq<u8>, r: int) -> bool {
    t[30 * r] == 80 && t[30 * r + 1] == 49 + r && t[30 * r + 29] == 10
}

/// The first 270 bytes are the nine lines of a board.
pub open spec fn csa_board_ok(t: Seq<u8>) -> bool {
    &&& t.len() >= 270
    &&& forall|r: int| 0 <= r < 9 ==> #[trigger] rank_frame_ok(t, r)
    &&& forall|sq: int| 0 <= sq < 81 ==> csa_cell(t, #[trigger] cell_index(sq)) >= 0
}

/// The squares that the lines of the board give.
pub open spec fn csa_squares(t: Seq<u8>) -> Seq<u16> {
    Seq::new(81, |sq: int| csa_cell(t, cell_index(sq)) as u16)
}

/// The stands after the pieces listed from `i` to the end of the line have
/// been added to `acc` for color `c`, and the index behind the line.
pub open spec fn csa_hand(t: Seq<u8>, i: int, c: int, acc: Seq<u8>) -> Option<(Seq<u8>, int)>
    decreases t.len() - i,
{
    if i >= t.len() || i < 0 {
        None
    } else if t[i] == 10 {
        Some((acc, i + 1))
    } else if i + 4 <= t.len() && t[i] == 48 && t[i + 1] == 48 && 1 <= kind_of_code(t[i + 2], t[i + 3]) <= 7
        && acc[8 * c + kind_of_code(t[i + 2], t[i + 3])] < 18 {
        let idx = 8 * c + kind_of_code(t[i + 2], t[i + 3]);
        csa_hand(t, i + 4, c, acc.update(idx, (acc[idx] + 1) as u8))
    } else {
        None
    }
}

/// A line that lists what color `c` holds begins at `i`.
pub open spec fn hand_line_at(t: Seq<u8>, i: int, c: int) -> bool {
    i + 2 <= t.len() && t[i] == 80 && t[i + 1] == sign_of(c)
}

/// The stands that the lines behind the board give, and the index behind
/// them.
pub open spec fn csa_stands(t: Seq<u8>) -> Option<(Seq<u8>, int)> {
    let black = if hand_line_at(t, 270, 0) {
        csa_hand(t, 272, 0, no_hand())
    } else {
        Some((no_hand(), 270int))
    };
    match black {
        None => None,
        Some((stand, i)) => if hand_line_at(t, i, 1) {
            csa_hand(t, i + 2, 1, stand)
        } else {
            Some((stand, i))
        },
    }
}

/// Where the description of the position ends, if the text begins with one.
pub open spec fn csa_head_end(t: Seq<u8>) -> int {
    match csa_stands(t) {
        None => -1,
        Some((stand, i)) => if csa_board_ok(t) && 270 <= i && i + 2 <= t.len() && (t[i] == 43 || t[i] == 45)
            && t[i + 1] == 10 {
            i + 2
        } else {
            -1
        },
    }
}

/// The position that the text begins with, if it begins with the
/// description of a position of a game.
pub open spec fn csa_position(t: Seq<u8>) -> Option<Board> {
    let end = csa_head_end(t);
    let stand = csa_stands(t)->Some_0.0;
    let side = if t[end - 2] == 43 {
        0u8
    } else {
        1u8
    };
    if end >= 0 && position_exists(csa_squares(t), stand, side) {
        Some(position_with(csa_squares(t), stand, side))
    } else {
        None
    }
}

/// The moves that the lines from `i` give, appended to `acc`: each line
/// holds a legal move of the position that the moves before it lead to.
pub open spec fn csa_moves(b: Board, t: Seq<u8>, i: int, acc: Seq<Move>) -> Option<Seq<Move>>
    decreases t.len() - i,
{
    if i >= t.len() || i < 0 {
        Some(acc)
    } else {
        let m = move_of_csa(b, t.subrange(i, i + 7));
        if i + 8 <= t.len() && t[i + 7] == 10 && m is Some {
            csa_moves(b.apply(m->Some_0), t, i + 8, acc.push(m->Some_0))
        } else {
            None
        }
    }
}

/// The game that the text describes: a position and one line for each
/// move. `None` for any other text.
pub open spec fn csa_state(t: Seq<u8>) -> Option<StateView> {
    match csa_position(t) {
        None => None,
        Some(b) => match csa_moves(b, t, csa_head_end(t), Seq::<Move>::empty()) {
            None => None,
            Some(ms) => Some(StateView { initial: b, history: ms }),
        },
    }
}

/// Reads a cell.
fn read_cell(t: &Vec<u8>, i: usize) -> (r: Option<u16>)
    requires
        i + 3 <= t@.len(),
    ensures
        match r {
            Some(p) => p == csa_cell(t@, i as int) && valid_piece(p),
            None => csa_cell(t@, i as int) == -1,
        },
{
    let len: usize = t.len();
    let a: u8 = t[i];
    let k: u8 = kind_of_code_code(t[i + 1], t[i + 2]);
    if a == 32 && t[i + 1] == 42 && t[i + 2] == 32 {
        Some(0)
    } else if (a == 43 || a == 45) && k != 0 {
        Some((if a == 45 {
            16u16
        } else {
            0u16
        }) + k as u16)
    } else {
        None
    }
}

/// Reads the nine lines of the board.
fn read_csa_board(t: &Vec<u8>) -> (r: Option<[u16; 81]>)
    ensures
        match r {
            Some(sq) => csa_board_ok(t@) && sq@ == csa_squares(t@),
            None => !csa_board_ok(t@),
        },
{
    if t.len() < 270 {
        return None;
    }
    let mut r: usize = 0;
    while r < 9
        invariant
            0 <= r <= 9,
            t@.len() >= 270,
            forall|j: int| 0 <= j < r ==> #[trigger] rank_frame_ok(t@, j),
        decreases 9 - r,
    {
        if t[30 * r] != 80 || t[30 * r + 1] != 49 + r as u8 || t[30 * r + 29] != 10 {
            assert(!rank_frame_ok(t@, r as int));
            return None;
        }
        r = r + 1;
    }
    let mut squares: [u16; 81] = [0u16; 81];
    let mut sq: usize = 0;
    while sq < 81
        invariant
            0 <= sq <= 81,
            t@.len() >= 270,
            forall|j: int| 0 <= j < 9 ==> #[trigger] rank_frame_ok(t@, j),
            forall|j: int| 0 <= j < sq ==> csa_cell(t@, #[trigger] cell_index(j)) >= 0,
            forall|j: int| 0 <= j < sq ==> #[trigger] squares@[j] == csa_cell(t@, cell_index(j)),
        decreases 81 - sq,
    {
        let i: usize = 30 * (8 - sq % 9) + 2 + 3 * (8 - sq / 9);
        assert(i == cell_index(sq as int));
        match read_cell(t, i) {
            Some(p) => {
                squares[sq] = p;
            },
            None => {
                return None;
            },
        }
        sq = sq + 1;
    }
    assert(squares@ =~= csa_squares(t@));
    Some(squares)
}

/// Reads the pieces listed from `i` to the end of the line.
fn read_csa_hand(t: &Vec<u8>, i: usize, c: u8, acc: &mut [u8; 16]) -> (r: Option<usize>)
    requires
        c < 2,
        i <= t@.len(),
    ensures
        match r {
            Some(next) => csa_hand(t@, i as int, c as int, old(acc)@) == Some((final(acc)@, next as int)) && next
                <= t@.len() && i < next,
            None => csa_hand(t@, i as int, c as int, old(acc)@) is None,
        },
{
    let len: usize = t.len();
    let mut j: usize = i;
    loop
        invariant
            i <= j <= len,
            len == t@.len(),
            c < 2,
            csa_hand(t@, i as int, c as int, old(acc)@) == csa_hand(t@, j as int, c as int, acc@),
        decreases len - j,
    {
        if j >= len {
            return None;
        }
        if t[j] == 10 {
            return Some(j + 1);
        }
        if len - j < 4 || t[j] != 48 || t[j + 1] != 48 {
            return None;
        }
        let k: u8 = kind_of_code_code(t[j + 2], t[j + 3]);
        if k < 1 || k > 7 {
            return None;
        }
        let idx: usize = (8 * c + k) as usize;
        if acc[idx] >= 18 {
            return None;
        }
        acc[idx] = acc[idx] + 1;
        j = j + 4;
    }
}

/// Reads the position that the text begins with, and where it ends.
pub(crate) fn read_csa_position(t: &Vec<u8>) -> (r: Option<(Position, usize)>)
    ensures
        match r {
            Some((p, end)) => csa_position(t@) == Some(p@) && end == csa_head_end(t@) && end <= t@.len(),
            None => csa_position(t@) is None,
        },
{
    let len: usize = t.len();
    let squares: [u16; 81] = match read_csa_board(t) {
        Some(sq) => sq,
        None => {
            return None;
        },
    };
    let mut stand: [u8; 16] = [0u8; 16];
    assert(stand@ =~= no_hand());
    let mut i: usize = 270;
    if len - i >= 2 && t[i] == 80 && t[i + 1] == 43 {
        match read_csa_hand(t, i + 2, 0, &mut stand) {
            Some(next) => {
                i = next;
            },
            None => {
                return None;
            },
        }
    }
    if len - i >= 2 && t[i] == 80 && t[i + 1] == 45 {
        match read_csa_hand(t, i + 2, 1, &mut stand) {
            Some(next) => {
                i = next;
            },
            None => {
                return None;
            },
        }
    }
    assert(csa_stands(t@) == Some((stand@, i as int)));
    if len - i < 2 || (t[i] != 43 && t[i] != 45) || t[i + 1] != 10 {
        return None;
    }
    let side: u8 = if t[i] == 43 {
        0
    } else {
        1
    };
    match Position::build(squares, stand, side) {
        Some(p) => {
            proof {
                assert(crate::position::parts_wf(squares@, stand@, p@.kings, side));
                let b = position_with(squares@, stand@, side);
                assert(crate::position::parts_wf(b.squares, b.stand, b.kings, b.side));
                crate::position::lemma_kings_unique(p@, b);
            }
            Some((p, i + 2))
        },
        None => None,
    }
}

/// Reads a game from the bytes of its text.
pub(crate) fn read_csa_state(t: &Vec<u8>) -> (r: Option<State>)
    ensures
        match r {
            Some(s) => s.wf() && csa_state(t@) == Some(s@),
            None => csa_state(t@) is None,
        },
{
    let n: usize = t.len();
    let (pos, head): (Position, usize) = match read_csa_position(t) {
        Some(r) => r,
        None => {
            return None;
        },
    };
    let mut state: State = State::new(pos);
    assert(state@.history =~= Seq::<Move>::empty());
    let mut i: usize = head;
    while i < n
        invariant
            head <= i <= n,
            n == t@.len(),
            head == csa_head_end(t@),
            csa_position(t@) == Some(pos@),
            state.wf(),
            state@.initial == pos@,
            csa_moves(pos@, t@, head as int, Seq::<Move>::empty()) == csa_moves(
                state@.current(),
                t@,
                i as int,
                state@.history,
            ),
        decreases n - i,
    {
        if n - i < 8 || t[i + 7] != 10 {
            return None;
        }
        let cur: Position = state.get_position();
        match read_csa_move(&cur, t, i, i + 7) {
            None => {
                return None;
            },
            Some(m) => {
                state.do_move(m);
            },
        }
        i = i + 8;
    }
    Some(state)
}

/// The text of a cell.
pub open spec fn cell_csa(p: u16) -> Seq<u8> {
    if p == 0 {
        seq![32u8, 42u8, 32u8]
    } else {
        seq![sign_of((p / 16) as int), code_first((p % 16) as int), code_second((p % 16) as int)]
    }
}

/// `acc`, then the cells of the text rank `r` from the text column `c` on.
pub open spec fn rank_csa(squares: Seq<u16>, r: int, c: int, acc: Seq<u8>) -> Seq<u8>
    decreases 9 - c,
{
    if c >= 9 || c < 0 {
        acc
    } else {
        rank_csa(squares, r, c + 1, acc + cell_csa(squares[(8 - c) * 9 + (8 - r)]))
    }
}

/// `acc`, then the lines of the text ranks from `r` on.
pub open spec fn board_csa(squares: Seq<u16>, r: int, acc: Seq<u8>) -> Seq<u8>
    decreases 9 - r,
{
    if r >= 9 || r < 0 {
        acc
    } else {
        board_csa(squares, r + 1, rank_csa(squares, r, 0, acc + seq![80u8, (49 + r) as u8]).push(10u8))
    }
}

/// `acc`, then `00` and the name of kind `k`, `n` times over.
pub open spec fn held_csa(k: int, n: int, acc: Seq<u8>) -> Seq<u8>
    decreases n,
{
    if n <= 0 {
        acc
    } else {
        held_csa(k, n - 1, acc + seq![48u8, 48u8, code_first(k), code_second(k)])
    }
}

/// `acc`, then what color `c` holds of the kinds from the `j`-th on: rooks,
/// bishops, golds, silvers, knights, lances, pawns.
pub open spec fn hand_csa(stand: Seq<u8>, c: int, j: int, acc: Seq<u8>) -> Seq<u8>
    decreases 7 - j,
{
    if j >= 7 || j < 0 {
        acc
    } else {
        let idx = hand_entry(7 * c + j);
        hand_csa(stand, c, j + 1, held_csa(idx - 8 * c, stand[idx] as int, acc))
    }
}

/// `acc`, then the line of what color `c` holds, if it holds anything.
pub open spec fn hand_line_csa(stand: Seq<u8>, c: int, acc: Seq<u8>) -> Seq<u8> {
    let head = acc + seq![80u8, sign_of(c)];
    let full = hand_csa(stand, c, 0, head);
    if full.len() == head.len() {
        acc
    } else {
        full.push(10u8)
    }
}

/// The text of a position.
pub open spec fn position_csa(b: Board) -> Seq<u8> {
    let board = board_csa(b.squares, 0, Seq::<u8>::empty());
    hand_line_csa(b.stand, 1, hand_line_csa(b.stand, 0, board)) + seq![sign_of(b.side as int), 10u8]
}

/// The side that moves at ply `j` of a game that `first` begins.
pub open spec fn side_at(first: u8, j: int) -> u8 {
    if j % 2 == 0 {
        first
    } else {
        (1 - first) as u8
    }
}

/// `acc`, then one line for each move from the `j`-th on.
pub open spec fn moves_csa(first: u8, h: Seq<Move>, j: int, acc: Seq<u8>) -> Seq<u8>
    decreases h.len() - j,
{
    if j >= h.len() || j < 0 {
        acc
    } else {
        moves_csa(first, h, j + 1, (acc + move_csa(side_at(first, j), h[j])).push(10u8))
    }
}

/// The text of a game: the position in which it began and its moves.
pub open spec fn state_csa(s: StateView) -> Seq<u8> {
    moves_csa(s.initial.side, s.history, 0, position_csa(s.initial))
}

/// Appends the digits of a square.
fn write_csa_square(out: &mut Vec<u8>, sq: u8)
    requires
        sq < 81,
        all_printable(old(out)@),
    ensures
        final(out)@ == old(out)@ + csa_square(sq as int),
        all_printable(final(out)@),
{
    out.push(49 + sq / 9);
    out.push(57 - sq % 9);
    assert(out@ =~= old(out)@ + csa_square(sq as int));
}

/// Appends the text of a move made by the side `side`.
pub(crate) fn write_csa_move(out: &mut Vec<u8>, side: u8, m: Move)
    requires
        side < 2,
        all_printable(old(out)@),
    ensures
        final(out)@ == old(out)@ + move_csa(side, m),
        all_printable(final(out)@),
{
    let to: u32 = m.0 % 128;
    let from: u32 = m.0 / 128 % 128;
    let kind: u32 = m.0 / 128 / 128 / 2 % 16;
    let after: u32 = if m.0 / 128 / 128 % 2 == 1 {
        kind + 8
    } else {
        kind
    };
    let shown: bool = to < 81 && (if from == 82 {
        1 <= kind && kind <= 7
    } else {
        from < 81
    }) && 1 <= after && after <= 14;
    if m.0 == WIN_CODE {
        out.push(37);
        out.push(75);
        out.push(65);
        out.push(67);
        out.push(72);
        out.push(73);
        assert(out@ =~= old(out)@ + move_csa(side, m));
    } else if !shown {
        out.push(37);
        out.push(69);
        out.push(82);
        out.push(82);
        out.push(79);
        out.push(82);
        assert(out@ =~= old(out)@ + move_csa(side, m));
    } else {
        out.push(if side == 0 {
            43
        } else {
            45
        });
        if from == 82 {
            out.push(48);
            out.push(48);
        } else {
            write_csa_square(out, from as u8);
        }
        write_csa_square(out, to as u8);
        out.push(code_first_code(after as u8));
        out.push(code_second_code(after as u8));
        assert(out@ =~= old(out)@ + move_csa(side, m));
    }
}

/// Appends the line of what color `c` holds, if it holds anything.
fn write_csa_hand(out: &mut Vec<u8>, pos: &Position, c: u8)
    requires
        c < 2,
        all_printable(old(out)@),
    ensures
        final(out)@ == hand_line_csa(pos@.stand, c as int, old(out)@),
        all_printable(final(out)@),
{
    let mark: usize = out.len();
    out.push(80);
    out.push(if c == 0 {
        43
    } else {
        45
    });
    let ghost head = out@;
    assert(head =~= old(out)@ + seq![80u8, sign_of(c as int)]);
    let mut any: bool = false;
    let mut j: u8 = 0;
    assert(out@.subrange(0, head.len() as int) =~= head);
    while j < 7
        invariant
            0 <= j <= 7,
            c < 2,
            all_printable(out@),
            any == (out@.len() != head.len()),
            out@.len() >= head.len(),
            out@.subrange(0, head.len() as int) == head,
            hand_csa(pos@.stand, c as int, 0, head) == hand_csa(pos@.stand, c as int, j as int, out@),
        decreases 7 - j,
    {
        let k: u8 = if j == 0 {
            6
        } else if j == 1 {
            5
        } else if j == 2 {
            7
        } else if j == 3 {
            4
        } else if j == 4 {
            3
        } else if j == 5 {
            2
        } else {
            1
        };
        assert(hand_entry(7 * c + j) == 8 * c + k);
        let n: u8 = pos.stand_entry(8 * c + k);
        let a: u8 = code_first_code(k);
        let b: u8 = code_second_code(k);
        let ghost before = out@;
        let mut x: u8 = 0;
        while x < n
            invariant
                0 <= x <= n,
                all_printable(out@),
                printable(a),
                printable(b),
                a == code_first(k as int),
                b == code_second(k as int),
                out@.len() == before.len() + 4 * x,
                out@.len() >= head.len(),
                before.len() >= head.len(),
                out@.subrange(0, head.len() as int) == head,
                held_csa(k as int, n as int, before) == held_csa(k as int, n - x, out@),
            decreases n - x,
        {
            let ghost prev = out@;
            out.push(48);
            out.push(48);
            out.push(a);
            out.push(b);
            assert(out@ =~= prev + seq![48u8, 48u8, code_first(k as int), code_second(k as int)]);
            assert(out@.subrange(0, head.len() as int) =~= prev.subrange(0, head.len() as int));
            x = x + 1;
        }
        if n > 0 {
            any = true;
        }
        j = j + 1;
    }
    if any {
        out.push(10);
    } else {
        assert(out@ =~= head);
        out.truncate(mark);
        assert(out@ =~= old(out)@);
    }
}

/// Appends the text of a position.
pub(crate) fn write_csa_position(out: &mut Vec<u8>, pos: &Position)
    requires
        old(out)@.len() == 0,
    ensures
        final(out)@ == position_csa(pos@),
        all_printable(final(out)@),
{
    let side: u8 = pos.side();
    assert(out@ =~= Seq::<u8>::empty());
    let mut r: u8 = 0;
    while r < 9
        invariant
            0 <= r <= 9,
            pos@.wf(),
            all_printable(out@),
            board_csa(pos@.squares, 0, Seq::<u8>::empty()) == board_csa(pos@.squares, r as int, out@),
        decreases 9 - r,
    {
        let ghost start = out@;
        out.push(80);
        out.push(49 + r);
        assert(out@ =~= start + seq![80u8, (49 + r) as u8]);
        let ghost head = out@;
        let mut c: u8 = 0;
        while c < 9
            invariant
                0 <= c <= 9,
                0 <= r < 9,
                pos@.wf(),
                all_printable(out@),
                rank_csa(pos@.squares, r as int, 0, head) == rank_csa(pos@.squares, r as int, c as int, out@),
            decreases 9 - c,
        {
            let p: u16 = pos.at((8 - c) * 9 + (8 - r));
            let ghost before = out@;
            if p == 0 {
                out.push(32);
                out.push(42);
                out.push(32);
            } else {
                out.push(if p / 16 == 0 {
                    43
                } else {
                    45
                });
                out.push(code_first_code((p % 16) as u8));
                out.push(code_second_code((p % 16) as u8));
            }
            assert(out@ =~= before + cell_csa(p));
            c = c + 1;
        }
        out.push(10);
        r = r + 1;
    }
    write_csa_hand(out, pos, 0);
    write_csa_hand(out, pos, 1);
    let ghost hands = out@;
    out.push(if side == 0 {
        43
    } else {
        45
    });
    out.push(10);
    assert(out@ =~= hands + seq![sign_of(side as int), 10u8]);
}

impl ToCSA for Position {
    /// Returns the text of the position.
    fn to_csa(&self) -> (s: String)
        ensures
            s@ == ascii(position_csa(self@)),
    {
        let mut out: Vec<u8> = Vec::new();
        write_csa_position(&mut out, self);
        string_of(&out)
    }
}

impl ToCSA for State {
    /// Returns the text of the game: the position in which it began and
    /// one line for each move played.
    fn to_csa(&self) -> (s: String)
        ensures
            s@ == ascii(state_csa(self@)),
    {
        let mut out: Vec<u8> = Vec::new();
        let initial: Position = self.get_initial_position();
        write_csa_position(&mut out, &initial);
        let first: u8 = initial.side();
        let n: usize = self.history_len();
        let mut j: usize = 0;
        while j < n
            invariant
                0 <= j <= n,
                n == self@.history.len(),
                first == self@.initial.side,
                first < 2,
                all_printable(out@),
                state_csa(self@) == moves_csa(first, self@.history, j as int, out@),
            decreases n - j,
        {
            let side: u8 = if j % 2 == 0 {
                first
            } else {
                1 - first
            };
            write_csa_move(&mut out, side, self.history_at(j));
            out.push(10);
            j = j + 1;
        }
        string_of(&out)
    }
}

impl State {
    /// Returns the state that `csa` describes: the lines of a position and
    /// one line for each move, each a legal move where it stands. Any other
    /// text is an error.
    pub fn from_csa(csa: &str) -> (r: Result<State, CSAParseError>)
        ensures
            match r {
                Ok(s) => s.wf() && csa_state(csa.spec_bytes()) == Some(s@),
                Err(e) => csa_state(csa.spec_bytes()) is None && e is RuntimeError,
            },
    {
        let t: Vec<u8> = bytes_of(csa);
        match read_csa_state(&t) {
            Some(s) => Ok(s),
            None => Err(CSAParseError::RuntimeError("Invalid CSA string.")),
        }
    }
}

impl Move {
    /// Returns the legal move of `state` that is written `csa`; an error
    /// if there is none.
    pub fn from_csa(state: &State, csa: &str) -> (r: Result<Move, CSAParseError>)
        requires
            state.wf(),
        ensures
            match r {
                Ok(m) => move_of_csa(state@.current(), csa.spec_bytes()) == Some(m) && state@.current().legal(m),
                Err(e) => move_of_csa(state@.current(), csa.spec_bytes()) is None && e is RuntimeError,
            },
    {
        let t: Vec<u8> = bytes_of(csa);
        let pos: Position = state.get_position();
        assert(t@.subrange(0, t@.len() as int) =~= t@);
        match read_csa_move(&pos, &t, 0, t.len()) {
            Some(m) => Ok(m),
            None => Err(CSAParseError::RuntimeError("Invalid csa string.")),
        }
    }

    /// Returns the text of the move as a move of the side that is to move
    /// in `state`.
    pub fn to_csa(&self, state: &State) -> (s: String)
        requires
            state.wf(),
        ensures
            s@ == ascii(move_csa(state@.current().side, *self)),
    {
        let mut out: Vec<u8> = Vec::new();
        let side: u8 = state.get_side_to_move().0;
        write_csa_move(&mut out, side, *self);
        assert(out@ =~= move_csa(side, *self));
        string_of(&out)
    }
}

} // verus!
