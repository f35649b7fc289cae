//! A position: what stands on the board and on the stands, and who moves.
use crate::board::{
    attacked_by, attacks, base_kind, base_kind_code, color_of, dead_end, file_of, in_zone,
    is_attacked, kind_code, kind_of, lemma_attacked_by_same, owned_by, pawn_on_file, piece_code,
    piece_of, promotable, valid_piece, BISHOP, GOLD, KING, PAWN, ROOK,
};
use crate::bitboard::Bitboard;
use crate::types::{Color, Move, Piece, PieceType, Square};
use vstd::prelude::*;

verus! {

/// The mathematical content of a position.
///
/// `stand[8 * c + k]` is the number of pieces of kind `k` that color `c`
/// holds off the board; `kings[c]` is the square of the king of color `c`.
pub struct Board {
    pub squares: Seq<u16>,
    pub stand: Seq<u8>,
    pub kings: Seq<u8>,
    pub side: u8,
}

/// 1 if the piece is of kind `t` once promotion is undone, else 0.
pub open spec fn counts_as(p: u16, t: int) -> int {
    if p != 0 && base_kind(kind_of(p)) == t {
        1
    } else {
        0
    }
}

/// How many of the first `n` squares hold a piece that counts as kind `t`.
pub open spec fn count_kind(squares: Seq<u16>, t: int, n: int) -> int
    decreases n,
{
    if n <= 0 {
        0
    } else {
        count_kind(squares, t, n - 1) + counts_as(squares[n - 1], t)
    }
}

/// How many pieces of kind `t` a game has, both colors together.
pub open spec fn supply(t: int) -> int {
    if t == PAWN {
        18
    } else if t == BISHOP || t == ROOK {
        2
    } else if 1 <= t <= 7 {
        4
    } else {
        0
    }
}

impl Board {
    /// The position is one of a game: every square holds a piece code, each
    /// color has its one king where `kings` says, and of each kind the board
    /// and the two stands together hold the full supply.
    pub open spec fn wf(self) -> bool {
        &&& self.squares.len() == 81
        &&& self.stand.len() == 16
        &&& self.kings.len() == 2
        &&& self.side < 2
        &&& forall|i: int| 0 <= i < 81 ==> valid_piece(#[trigger] self.squares[i])
        &&& forall|c: int|
            0 <= c < 2 ==> (#[trigger] self.kings[c]) < 81 && self.squares[self.kings[c] as int] == piece_of(
                c,
                KING as int,
            )
        &&& forall|i: int, c: int|
            0 <= i < 81 && 0 <= c < 2 && #[trigger] self.squares[i] == #[trigger] piece_of(c, KING as int)
                ==> i == self.kings[c]
        &&& forall|t: int|
            1 <= t <= 7 ==> #[trigger] count_kind(self.squares, t, 81) + self.stand[t] + self.stand[8 + t]
                == supply(t)
        &&& self.stand[0] == 0
        &&& self.stand[8] == 0
    }

    /// The side to move may declare a win: its king stands in its zone and
    /// is not in check, ten or more of its other pieces stand there too, and
    /// those pieces and the pieces it holds count 28 or more for black, 27
    /// or more for white.
    pub open spec fn can_declare(self) -> bool {
        let c = self.side as int;
        &&& in_zone(c, self.kings[c] as int)
        &&& !self.in_check(c)
        &&& zone_men(self.squares, c, 81) >= 10
        &&& zone_points(self.squares, c, 81) + hand_points(self.stand, c) >= 28 - c
    }

    /// A piece of the side to move on the empty square `to` leaves the king
    /// of that side unattacked.
    pub open spec fn blocked_at(self, to: int) -> bool {
        let c = self.side as int;
        !attacked_by(self.squares.update(to, piece_of(c, GOLD as int) as u16), self.kings[c] as int, 1 - c)
    }

    /// The king of color `c` is attacked.
    pub open spec fn in_check(self, c: int) -> bool {
        attacked_by(self.squares, self.kings[c] as int, 1 - c)
    }

    /// Moving a piece on the board as `m` says follows the rules of movement:
    /// the piece belongs to the side to move and attacks the target, the
    /// target holds no piece of that side and no king, the move names the
    /// kinds that stand on the two squares, and it promotes only a kind that
    /// can, into, within or out of the zone, and always where the piece could
    /// otherwise never move again.
    pub open spec fn board_move_ok(self, m: Move) -> bool {
        let from = m.from_index();
        let to = m.to_index();
        let c = self.side as int;
        &&& 0 <= from < 81
        &&& 0 <= to < 81
        &&& owned_by(self.squares[from], c)
        &&& attacks(self.squares, from, to)
        &&& !owned_by(self.squares[to], c)
        &&& kind_of(self.squares[to]) != KING
        &&& m.kind() == kind_of(self.squares[from])
        &&& m.captured() == kind_of(self.squares[to])
        &&& m.is_packed()
        &&& if m.promotes() {
            promotable(m.kind()) && (in_zone(c, from) || in_zone(c, to))
        } else {
            !dead_end(c, m.kind(), to)
        }
    }

    /// Dropping a piece as `m` says follows the rules of drops: the side to
    /// move holds such a piece, the target is empty, the piece could move
    /// again from there, and a pawn does not join another unpromoted pawn of
    /// its color on a file.
    pub open spec fn drop_ok(self, m: Move) -> bool {
        let to = m.to_index();
        let k = m.kind();
        let c = self.side as int;
        &&& m.from_index() == 82
        &&& !m.promotes()
        &&& m.captured() == 0
        &&& m.is_packed()
        &&& 0 <= to < 81
        &&& 1 <= k <= 7
        &&& self.stand[8 * c + k] > 0
        &&& self.squares[to] == 0
        &&& !dead_end(c, k, to)
        &&& k == PAWN ==> !pawn_on_file(self.squares, c, file_of(to))
    }

    /// `m` follows the rules of movement, whatever becomes of the king.
    pub open spec fn move_ok(self, m: Move) -> bool {
        if m.from_index() == 82 {
            self.drop_ok(m)
        } else {
            self.board_move_ok(m)
        }
    }

    /// The position after `m`.
    pub open spec fn apply(self, m: Move) -> Board {
        let to = m.to_index();
        let c = self.side as int;
        if m.from_index() == 82 {
            Board {
                squares: self.squares.update(to, piece_of(c, m.kind()) as u16),
                stand: self.stand.update(8 * c + m.kind(), (self.stand[8 * c + m.kind()] - 1) as u8),
                kings: self.kings,
                side: (1 - self.side) as u8,
            }
        } else {
            let from = m.from_index();
            let p = self.squares[from];
            let np = if m.promotes() {
                (p + 8) as u16
            } else {
                p
            };
            let cap = base_kind(kind_of(self.squares[to]));
            Board {
                squares: self.squares.update(from, 0).update(to, np),
                stand: if self.squares[to] != 0 {
                    self.stand.update(8 * c + cap, (self.stand[8 * c + cap] + 1) as u8)
                } else {
                    self.stand
                },
                kings: if kind_of(p) == KING {
                    self.kings.update(c, to as u8)
                } else {
                    self.kings
                },
                side: (1 - self.side) as u8,
            }
        }
    }

    /// `m` follows the rules of movement and leaves the mover's king
    /// unattacked.
    pub open spec fn legal_basic(self, m: Move) -> bool {
        self.move_ok(m) && !self.apply(m).in_check(self.side as int)
    }

    /// The side to move is in check and no move answers it.
    ///
    /// The answers are counted by `legal_basic`: the one rule it leaves out
    /// forbids a pawn drop, and no drop answers the check that a pawn gives.
    pub open spec fn no_reply(self) -> bool {
        self.in_check(self.side as int) && forall|m: Move| !#[trigger] self.legal_basic(m)
    }

    /// `m` drops a pawn that mates on the spot.
    pub open spec fn pawn_drop_mate(self, m: Move) -> bool {
        m.from_index() == 82 && m.kind() == PAWN && self.apply(m).no_reply()
    }

    /// `m` is a legal move.
    pub open spec fn legal(self, m: Move) -> bool {
        self.legal_basic(m) && !self.pawn_drop_mate(m)
    }

    /// The side to move has no legal move and is in check.
    pub open spec fn checkmated(self) -> bool {
        self.in_check(self.side as int) && forall|m: Move| !#[trigger] self.legal(m)
    }

    /// The side to move has no legal move and is not in check: it has lost
    /// all the same.
    pub open spec fn stalemated(self) -> bool {
        !self.in_check(self.side as int) && forall|m: Move| !#[trigger] self.legal(m)
    }
}

/// Some piece of color `c` on one of the first `n` squares attacks `sq`.
pub open spec fn attacked_upto(squares: Seq<u16>, sq: int, c: int, n: int) -> bool {
    exists|from: int| from < n && #[trigger] attacks(squares, from, sq) && owned_by(squares[from], c)
}

/// What a piece of kind `k` counts where a win is declared: 5 for a bishop
/// or a rook, promoted or not, 0 for a king, 1 for any other piece.
pub open spec fn piece_points(k: int) -> int {
    if k == BISHOP || k == ROOK || k == 13 || k == 14 {
        5
    } else if 1 <= k <= 14 && k != KING {
        1
    } else {
        0
    }
}

/// The piece is one of color `c`, not its king, and stands in the zone of
/// that color if it stands on `sq`.
pub open spec fn zone_man(p: u16, c: int, sq: int) -> bool {
    owned_by(p, c) && kind_of(p) != KING && in_zone(c, sq)
}

/// How many men color `c` has in its zone on the first `n` squares.
pub open spec fn zone_men(squares: Seq<u16>, c: int, n: int) -> int
    decreases n,
{
    if n <= 0 {
        0
    } else {
        zone_men(squares, c, n - 1) + if zone_man(squares[n - 1], c, n - 1) {
            1int
        } else {
            0int
        }
    }
}

/// What the men of color `c` in its zone on the first `n` squares count.
pub open spec fn zone_points(squares: Seq<u16>, c: int, n: int) -> int
    decreases n,
{
    if n <= 0 {
        0
    } else {
        zone_points(squares, c, n - 1) + if zone_man(squares[n - 1], c, n - 1) {
            piece_points(kind_of(squares[n - 1]))
        } else {
            0int
        }
    }
}

/// What the men of color `c` on the first `n` squares count, wherever they
/// stand.
pub open spec fn board_points(squares: Seq<u16>, c: int, n: int) -> int
    decreases n,
{
    if n <= 0 {
        0
    } else {
        board_points(squares, c, n - 1) + if owned_by(squares[n - 1], c) {
            piece_points(kind_of(squares[n - 1]))
        } else {
            0int
        }
    }
}

/// What the pieces that color `c` holds count.
pub open spec fn hand_points(stand: Seq<u8>, c: int) -> int {
    stand[8 * c + 1] + stand[8 * c + 2] + stand[8 * c + 3] + stand[8 * c + 4] + stand[8 * c + 7] + 5 * (
    stand[8 * c + 5] + stand[8 * c + 6])
}

/// The given parts, with the kings on the squares `kings`, make a position
/// of a game.
pub open spec fn parts_wf(squares: Seq<u16>, stand: Seq<u8>, kings: Seq<u8>, side: u8) -> bool {
    (Board { squares, stand, kings, side }).wf()
}

/// Replacing what stands on one square changes a count by what left and
/// what came.
pub proof fn lemma_count_update(squares: Seq<u16>, i: int, v: u16, t: int, n: int)
    requires
        0 <= i < squares.len(),
        0 <= n <= squares.len(),
    ensures
        count_kind(squares.update(i, v), t, n) == count_kind(squares, t, n) + (if i < n {
            counts_as(v, t) - counts_as(squares[i], t)
        } else {
            0
        }),
    decreases n,
{
    if n > 0 {
        lemma_count_update(squares, i, v, t, n - 1);
    }
}

/// A count is at least 0 and at most the number of squares counted.
pub proof fn lemma_count_bounds(squares: Seq<u16>, t: int, n: int)
    requires
        0 <= n,
    ensures
        0 <= count_kind(squares, t, n) <= n,
    decreases n,
{
    if n > 0 {
        lemma_count_bounds(squares, t, n - 1);
    }
}

/// A position of a game has its kings where its squares say.
pub proof fn lemma_kings_unique(a: Board, b: Board)
    requires
        a.wf(),
        b.wf(),
        a.squares == b.squares,
    ensures
        a.kings == b.kings,
{
    assert forall|c: int| 0 <= c < 2 implies a.kings[c] == b.kings[c] by {
        let i = a.kings[c] as int;
        assert(a.squares[i] == piece_of(c, KING as int));
        assert(b.squares[i] == piece_of(c, KING as int));
    }
    assert(a.kings =~= b.kings);
}

/// Whether a drop leaves the king safe depends on the square only, not on
/// the piece.
pub proof fn lemma_drop_check(b: Board, m: Move)
    requires
        b.wf(),
        b.drop_ok(m),
    ensures
        !b.apply(m).in_check(b.side as int) == b.blocked_at(m.to_index()),
{
    let c = b.side as int;
    let to = m.to_index();
    let s1 = b.apply(m).squares;
    let s2 = b.squares.update(to, piece_of(c, GOLD as int) as u16);
    assert forall|i: int|
        0 <= i < 81 implies #[trigger] s1[i] == s2[i] || (s1[i] != 0 && s2[i] != 0 && !owned_by(s1[i], 1 - c)
        && !owned_by(s2[i], 1 - c)) by {}
    assert forall|i: int|
        0 <= i < 81 implies #[trigger] s2[i] == s1[i] || (s2[i] != 0 && s1[i] != 0 && !owned_by(s2[i], 1 - c)
        && !owned_by(s1[i], 1 - c)) by {}
    lemma_attacked_by_same(s1, s2, b.kings[c] as int, 1 - c);
    lemma_attacked_by_same(s2, s1, b.kings[c] as int, 1 - c);
}

/// A move that follows the rules of movement leads from a position of a
/// game to a position of a game.
pub proof fn lemma_apply_wf(b: Board, m: Move)
    requires
        b.wf(),
        b.move_ok(m),
    ensures
        b.apply(m).wf(),
{
    let a = b.apply(m);
    let c = b.side as int;
    let to = m.to_index();
    if m.from_index() == 82 {
        let k = m.kind();
        let p = piece_of(c, k) as u16;
        assert(valid_piece(p));
        assert(kind_of(p) == k && color_of(p) == c);
        assert forall|t: int| 1 <= t <= 7 implies #[trigger] count_kind(a.squares, t, 81) + a.stand[t]
            + a.stand[8 + t] == supply(t) by {
            lemma_count_update(b.squares, to, p, t, 81);
            assert(count_kind(b.squares, t, 81) + b.stand[t] + b.stand[8 + t] == supply(t));
        }
        assert forall|i: int, cc: int|
            0 <= i < 81 && 0 <= cc < 2 && #[trigger] a.squares[i] == #[trigger] piece_of(
                cc,
                KING as int,
            ) implies i == a.kings[cc] by {
            assert(b.squares[i] == piece_of(cc, KING as int));
        }
        assert forall|cc: int| 0 <= cc < 2 implies (#[trigger] a.kings[cc]) < 81 && a.squares[a.kings[cc] as int]
            == piece_of(cc, KING as int) by {
            assert(b.squares[b.kings[cc] as int] == piece_of(cc, KING as int));
        }
        assert(a.wf());
    } else {
        let from = m.from_index();
        let p = b.squares[from];
        let tp = b.squares[to];
        assert(valid_piece(p));
        assert(valid_piece(tp));
        assert(from != to);
        let np = if m.promotes() {
            (p + 8) as u16
        } else {
            p
        };
        assert(valid_piece(np));
        assert(kind_of(np) == (if m.promotes() {
            kind_of(p) + 8
        } else {
            kind_of(p)
        }));
        assert(color_of(np) == c);
        let mid = b.squares.update(from, 0);
        let cap = base_kind(kind_of(tp));
        assert forall|t: int| 1 <= t <= 7 implies #[trigger] count_kind(a.squares, t, 81) + a.stand[t]
            + a.stand[8 + t] == supply(t) by {
            lemma_count_update(b.squares, from, 0, t, 81);
            lemma_count_update(mid, to, np, t, 81);
            lemma_count_bounds(b.squares, t, 81);
            lemma_count_bounds(b.squares, cap, 81);
            assert(count_kind(b.squares, t, 81) + b.stand[t] + b.stand[8 + t] == supply(t));
            if tp != 0 {
                assert(1 <= cap <= 7);
                assert(count_kind(b.squares, cap, 81) + b.stand[cap] + b.stand[8 + cap] == supply(cap));
            }
        }
        assert forall|cc: int| 0 <= cc < 2 implies (#[trigger] a.kings[cc]) < 81 && a.squares[a.kings[cc] as int]
            == piece_of(cc, KING as int) by {
            assert(b.squares[b.kings[cc] as int] == piece_of(cc, KING as int));
        }
        assert forall|i: int, cc: int|
            0 <= i < 81 && 0 <= cc < 2 && #[trigger] a.squares[i] == #[trigger] piece_of(
                cc,
                KING as int,
            ) implies i == a.kings[cc] by {
            if i != to && i != from {
                assert(b.squares[i] == piece_of(cc, KING as int));
            }
        }
        assert(a.wf());
    }
}

/// A position of a game.
#[derive(Clone, Copy)]
pub struct Position {
    squares: [u16; 81],
    stand: [u8; 16],
    kings: [u8; 2],
    side: u8,
}

impl View for Position {
    type V = Board;

    closed spec fn view(&self) -> Board {
        Board { squares: self.squares@, stand: self.stand@, kings: self.kings@, side: self.side }
    }
}

impl Position {
    /// Every value of the type is a position of a game.
    #[verifier::type_invariant]
    pub closed spec fn inv(self) -> bool {
        self@.wf()
    }

    /// Returns the side to move.
    #[inline]
    pub fn get_side_to_move(&self) -> (c: Color)
        ensures
            c.0 == self@.side,
            c.is_player(),
    {
        proof {
            use_type_invariant(self);
        }
        Color(self.side)
    }

    /// Returns the piece on `square`; `EMPTY` for a square off the board.
    #[inline]
    pub fn piece_on(&self, square: Square) -> (p: Piece)
        ensures
            square.is_valid() ==> p.0 == self@.squares[square.0 as int],
            !square.is_valid() ==> p.0 == 0,
            p.is_valid(),
    {
        proof {
            use_type_invariant(self);
        }
        if 0 <= square.0 && square.0 < 81 {
            Piece(self.squares[square.0 as usize])
        } else {
            Piece(0)
        }
    }

    /// Returns how many pieces of kind `piece_type` color `color` holds on
    /// its stand; 0 for a kind that no stand holds and for `NO_COLOR`.
    #[inline]
    pub fn get_stand_count(&self, color: Color, piece_type: PieceType) -> (n: u8)
        ensures
            color.0 < 2 && 1 <= piece_type.0 <= 7 ==> n == self@.stand[8 * color.0 + piece_type.0],
            !(color.0 < 2 && 1 <= piece_type.0 <= 7) ==> n == 0,
            n <= 18,
    {
        proof {
            use_type_invariant(self);
        }
        if color.0 < 2 && 1 <= piece_type.0 && piece_type.0 <= 7 {
            proof {
                let t = piece_type.0 as int;
                lemma_count_bounds(self@.squares, t, 81);
                assert(count_kind(self@.squares, t, 81) + self@.stand[t] + self@.stand[8 + t] == supply(t));
            }
            self.stand[(8 * color.0 + piece_type.0) as usize]
        } else {
            0
        }
    }

    /// The code of the side to move.
    pub(crate) fn side(&self) -> (c: u8)
        ensures
            c == self@.side,
            c < 2,
            self@.wf(),
    {
        proof {
            use_type_invariant(self);
        }
        self.side
    }

    /// The squares, as codes.
    pub(crate) fn squares(&self) -> (s: &[u16; 81])
        ensures
            s@ == self@.squares,
            self@.wf(),
    {
        proof {
            use_type_invariant(self);
        }
        &self.squares
    }

    /// The code on square `i`.
    pub(crate) fn at(&self, i: u8) -> (p: u16)
        requires
            i < 81,
        ensures
            p == self@.squares[i as int],
            valid_piece(p),
    {
        proof {
            use_type_invariant(self);
        }
        self.squares[i as usize]
    }

    /// Entry `i` of the stands.
    pub(crate) fn stand_entry(&self, i: u8) -> (n: u8)
        requires
            i < 16,
        ensures
            n == self@.stand[i as int],
    {
        self.stand[i as usize]
    }

    /// How many pieces of kind `k` color `c` holds.
    pub(crate) fn held(&self, c: u8, k: u8) -> (n: u8)
        requires
            c < 2,
            k < 8,
        ensures
            n == self@.stand[8 * c + k],
    {
        self.stand[(8 * c + k) as usize]
    }

    /// The square of the king of color `c`.
    pub(crate) fn king(&self, c: u8) -> (k: u8)
        requires
            c < 2,
        ensures
            k == self@.kings[c as int],
            k < 81,
    {
        proof {
            use_type_invariant(self);
        }
        self.kings[c as usize]
    }

    /// Whether the king of color `c` is attacked.
    pub(crate) fn king_attacked(&self, c: u8) -> (b: bool)
        requires
            c < 2,
        ensures
            b == self@.in_check(c as int),
    {
        proof {
            use_type_invariant(self);
        }
        is_attacked(&self.squares, self.kings[c as usize], 1 - c)
    }

    /// The position after `m`.
    pub(crate) fn after(&self, m: Move) -> (next: Position)
        requires
            self@.move_ok(m),
        ensures
            next@ == self@.apply(m),
    {
        proof {
            use_type_invariant(self);
            lemma_apply_wf(self@, m);
        }
        let to: usize = (m.0 % 128) as usize;
        let from: usize = (m.0 / 128 % 128) as usize;
        let c: u8 = self.side;
        let mut squares: [u16; 81] = self.squares;
        let mut stand: [u8; 16] = self.stand;
        let mut kings: [u8; 2] = self.kings;
        if from == 82 {
            let k: u8 = (m.0 / 128 / 128 / 2 % 16) as u8;
            squares[to] = piece_code(c, k);
            let i: usize = (8 * c + k) as usize;
            stand[i] = stand[i] - 1;
        } else {
            let p: u16 = squares[from];
            let tp: u16 = squares[to];
            assert(valid_piece(p) && valid_piece(tp));
            let np: u16 = if m.0 / 128 / 128 % 2 == 1 {
                p + 8
            } else {
                p
            };
            squares[from] = 0;
            squares[to] = np;
            if tp != 0 {
                let cap: u8 = base_kind_code(kind_code(tp));
                let i: usize = (8 * c + cap) as usize;
                proof {
                    lemma_count_bounds(self@.squares, cap as int, 81);
                    assert(count_kind(self@.squares, cap as int, 81) + self@.stand[cap as int] + self@.stand[8
                        + cap] == supply(cap as int));
                }
                stand[i] = stand[i] + 1;
            }
            if kind_code(p) == KING {
                kings[c as usize] = to as u8;
            }
        }
        let ghost next = Board { squares: squares@, stand: stand@, kings: kings@, side: (1 - c) as u8 };
        assert(next =~= self@.apply(m));
        Position { squares, stand, kings, side: 1 - c }
    }

    /// Builds the position with the given squares, stands and side to move,
    /// if they make a position of a game: `None` where a square holds no
    /// piece code, a color has no king or more than one, the side is not a
    /// player, or the pieces of some kind are not the full supply.
    pub(crate) fn build(squares: [u16; 81], stand: [u8; 16], side: u8) -> (r: Option<Position>)
        ensures
            match r {
                Some(p) => p@.wf() && p@.squares == squares@ && p@.stand == stand@ && p@.side == side,
                None => forall|kings: Seq<u8>| !#[trigger] parts_wf(squares@, stand@, kings, side),
            },
    {
        if side >= 2 || stand[0] != 0 || stand[8] != 0 {
            return None;
        }
        let mut counts: [u8; 8] = [0u8; 8];
        let mut kings: [u8; 2] = [81u8; 2];
        let mut i: u8 = 0;
        while i < 81
            invariant
                0 <= i <= 81,
                forall|j: int| 0 <= j < i ==> valid_piece(#[trigger] squares@[j]),
                forall|t: int| 1 <= t <= 7 ==> (#[trigger] counts@[t]) == count_kind(squares@, t, i as int),
                forall|c: int|
                    0 <= c < 2 ==> ((#[trigger] kings@[c]) == 81 || (kings@[c] < i && squares@[kings@[c] as int]
                        == piece_of(c, KING as int))),
                forall|j: int, c: int|
                    0 <= j < i && 0 <= c < 2 && #[trigger] squares@[j] == #[trigger] piece_of(c, KING as int) ==> j
                        == kings@[c],
            decreases 81 - i,
        {
            let p: u16 = squares[i as usize];
            let ghost old_counts = counts@;
            if p != 0 {
                let k: u16 = p % 16;
                let c: u16 = p / 16;
                if k < 1 || k > 14 || c > 1 {
                    proof {
                        assert(!valid_piece(squares@[i as int]));
                    }
                    return None;
                }
                if k == 8 {
                    if kings[c as usize] != 81 {
                        proof {
                            let other = kings@[c as int] as int;
                            assert forall|ks: Seq<u8>| !#[trigger] parts_wf(squares@, stand@, ks, side) by {
                                let b = Board { squares: squares@, stand: stand@, kings: ks, side };
                                if b.wf() {
                                    assert(b.squares[i as int] == piece_of(c as int, KING as int));
                                    assert(b.squares[other] == piece_of(c as int, KING as int));
                                    assert(i == b.kings[c as int]);
                                    assert(other == b.kings[c as int]);
                                }
                            }
                        }
                        return None;
                    }
                    kings[c as usize] = i;
                } else {
                    let t: usize = if k > 8 {
                        (k - 8) as usize
                    } else {
                        k as usize
                    };
                    proof {
                        lemma_count_bounds(squares@, t as int, i as int);
                    }
                    counts[t] = counts[t] + 1;
                }
            }
            proof {
                assert forall|t: int| 1 <= t <= 7 implies (#[trigger] counts@[t]) == count_kind(
                    squares@,
                    t,
                    i + 1,
                ) by {
                    assert(old_counts[t] == count_kind(squares@, t, i as int));
                }
            }
            i = i + 1;
        }
        if kings[0] == 81 || kings[1] == 81 {
            proof {
                let c: int = if kings@[0] == 81 {
                    0
                } else {
                    1
                };
                assert forall|ks: Seq<u8>| !#[trigger] parts_wf(squares@, stand@, ks, side) by {
                    let b = Board { squares: squares@, stand: stand@, kings: ks, side };
                    if b.wf() {
                        assert(b.kings[c] < 81);
                        assert(b.squares[b.kings[c] as int] == piece_of(c, KING as int));
                    }
                }
            }
            return None;
        }
        let mut t: usize = 1;
        while t <= 7
            invariant
                1 <= t <= 8,
                forall|u: int| 1 <= u <= 7 ==> (#[trigger] counts@[u]) == count_kind(squares@, u, 81),
                forall|u: int|
                    1 <= u < t ==> #[trigger] count_kind(squares@, u, 81) + stand@[u] + stand@[8 + u] == supply(
                        u,
                    ),
            decreases 8 - t,
        {
            let want: u16 = if t == 1 {
                18
            } else if t == 5 || t == 6 {
                2
            } else {
                4
            };
            assert(counts@[t as int] == count_kind(squares@, t as int, 81));
            if counts[t] as u16 + stand[t] as u16 + stand[8 + t] as u16 != want {
                proof {
                    assert forall|ks: Seq<u8>| !#[trigger] parts_wf(squares@, stand@, ks, side) by {
                        let b = Board { squares: squares@, stand: stand@, kings: ks, side };
                        if b.wf() {
                            assert(count_kind(b.squares, t as int, 81) + b.stand[t as int] + b.stand[8 + t]
                                == supply(t as int));
                        }
                    }
                }
                return None;
            }
            t = t + 1;
        }
        proof {
            let b = Board { squares: squares@, stand: stand@, kings: kings@, side };
            assert(b.wf());
        }
        Some(Position { squares, stand, kings, side })
    }

    /// Whether color `c` holds any piece.
    pub(crate) fn holds_any(&self, c: u8) -> (b: bool)
        requires
            c < 2,
        ensures
            b == exists|k: int| 1 <= k <= 7 && #[trigger] held_in(self@.stand, c as int, k) > 0,
    {
        let mut k: usize = 1;
        while k <= 7
            invariant
                1 <= k <= 8,
                c < 2,
                forall|j: int| 1 <= j < k ==> #[trigger] held_in(self@.stand, c as int, j) == 0,
            decreases 8 - k,
        {
            if self.stand[8 * c as usize + k] > 0 {
                assert(held_in(self@.stand, c as int, k as int) > 0);
                return true;
            }
            k = k + 1;
        }
        false
    }

    /// For each empty square, whether a piece of the side to move that is
    /// put on it leaves the king of that side unattacked.
    pub(crate) fn drop_safety(&self) -> (safe: [bool; 81])
        ensures
            forall|t: int| 0 <= t < 81 && self@.squares[t] == 0 ==> #[trigger] safe@[t] == self@.blocked_at(t),
    {
        proof {
            use_type_invariant(self);
        }
        let c: u8 = self.side;
        let king: u8 = self.kings[c as usize];
        let filler: u16 = piece_code(c, GOLD);
        let mut safe: [bool; 81] = [true; 81];
        if !is_attacked(&self.squares, king, 1 - c) {
            proof {
                assert forall|t: int| 0 <= t < 81 && self@.squares[t] == 0 implies #[trigger] safe@[t]
                    == self@.blocked_at(t) by {
                    crate::board::lemma_attacked_after_block(self@.squares, t, filler, king as int, 1 - c);
                }
            }
            return safe;
        }
        let mut scratch: [u16; 81] = self.squares;
        let mut t: usize = 0;
        while t < 81
            invariant
                0 <= t <= 81,
                c < 2,
                c == self@.side,
                king == self@.kings[c as int],
                king < 81,
                filler == piece_of(c as int, GOLD as int),
                valid_piece(filler),
                self@.wf(),
                scratch@ == self@.squares,
                forall|j: int| 0 <= j < t && self@.squares[j] == 0 ==> #[trigger] safe@[j] == self@.blocked_at(j),
            decreases 81 - t,
        {
            if scratch[t] == 0 {
                scratch[t] = filler;
                assert forall|i: int| 0 <= i < 81 implies valid_piece(#[trigger] scratch@[i]) by {
                    if i != t {
                        assert(scratch@[i] == self@.squares[i]);
                    }
                }
                let hit: bool = is_attacked(&scratch, king, 1 - c);
                safe[t] = !hit;
                scratch[t] = 0;
                assert(scratch@ =~= self@.squares);
            }
            t = t + 1;
        }
        safe
    }

    /// The set of the occupied squares.
    pub fn occupied(&self) -> (b: Bitboard)
        ensures
            forall|sq: int| #[trigger] b.has(sq) == (0 <= sq < 81 && self@.squares[sq] != 0),
    {
        let mut b: Bitboard = Bitboard::empty();
        let mut i: u8 = 0;
        while i < 81
            invariant
                0 <= i <= 81,
                forall|sq: int| #[trigger] b.has(sq) == (0 <= sq < i && self@.squares[sq] != 0),
            decreases 81 - i,
        {
            if self.squares[i as usize] != 0 {
                b = b.with(i);
            }
            i = i + 1;
        }
        b
    }

    /// The set of the squares on which pieces of `color` stand; the empty
    /// set for `NO_COLOR`.
    pub fn occupied_by(&self, color: Color) -> (b: Bitboard)
        ensures
            forall|sq: int| #[trigger] b.has(sq) == (0 <= sq < 81 && owned_by(self@.squares[sq], color.0 as int)),
    {
        proof {
            use_type_invariant(self);
        }
        let mut b: Bitboard = Bitboard::empty();
        let mut i: u8 = 0;
        while i < 81
            invariant
                0 <= i <= 81,
                self@.wf(),
                forall|sq: int|
                    #[trigger] b.has(sq) == (0 <= sq < i && owned_by(self@.squares[sq], color.0 as int)),
            decreases 81 - i,
        {
            let p: u16 = self.squares[i as usize];
            assert(valid_piece(p));
            if p != 0 && p / 16 == color.0 as u16 {
                b = b.with(i);
            }
            i = i + 1;
        }
        b
    }

    /// The set of the squares that the piece on `square` attacks: those it
    /// could move to if they held nothing of its own color. The empty set
    /// for an empty square and for a square off the board.
    pub fn attacks_from(&self, square: Square) -> (b: Bitboard)
        ensures
            forall|to: int| #[trigger] b.has(to) == (square.is_valid() && attacks(self@.squares, square.0 as int, to)),
    {
        proof {
            use_type_invariant(self);
        }
        if square.0 < 0 || square.0 >= 81 {
            return Bitboard::empty();
        }
        let p: u16 = self.squares[square.0 as usize];
        assert(valid_piece(p));
        if p == 0 {
            return Bitboard::empty();
        }
        let occ: Bitboard = self.occupied();
        let b: Bitboard = crate::bitboard::attacks_of(
            PieceType((p % 16) as u8),
            Color((p / 16) as u8),
            square,
            &occ,
        );
        proof {
            assert forall|to: int| #[trigger] b.has(to) == attacks(self@.squares, square.0 as int, to) by {
                crate::bitboard::lemma_attacks_by_set(self@.squares, occ, square.0 as int, to);
            }
        }
        b
    }

    /// The set of the squares that some piece of `color` attacks; the empty
    /// set for `NO_COLOR`.
    pub fn attacked_squares(&self, color: Color) -> (b: Bitboard)
        ensures
            color.is_player() ==> forall|to: int|
                #[trigger] b.has(to) == attacked_by(self@.squares, to, color.0 as int),
            !color.is_player() ==> forall|to: int| !#[trigger] b.has(to),
    {
        proof {
            use_type_invariant(self);
        }
        let mut b: Bitboard = Bitboard::empty();
        if color.0 >= 2 {
            return b;
        }
        let mut i: u8 = 0;
        while i < 81
            invariant
                0 <= i <= 81,
                color.0 < 2,
                self@.wf(),
                forall|to: int|
                    #[trigger] b.has(to) == attacked_upto(self@.squares, to, color.0 as int, i as int),
            decreases 81 - i,
        {
            let p: u16 = self.squares[i as usize];
            assert(valid_piece(p));
            let ghost before = b;
            if p != 0 && p / 16 == color.0 as u16 {
                let from_here: Bitboard = self.attacks_from(Square(i as i8));
                b = b.union(&from_here);
            }
            proof {
                let sq = self@.squares;
                let c = color.0 as int;
                assert forall|to: int| #[trigger] b.has(to) == attacked_upto(sq, to, c, i + 1) by {
                    if attacked_upto(sq, to, c, i + 1) {
                        let from = choose|from: int|
                            from < i + 1 && #[trigger] attacks(sq, from, to) && owned_by(sq[from], c);
                        if from < i {
                            assert(attacked_upto(sq, to, c, i as int));
                        }
                    }
                    if attacked_upto(sq, to, c, i as int) {
                        let from = choose|from: int|
                            from < i && #[trigger] attacks(sq, from, to) && owned_by(sq[from], c);
                        assert(from < i + 1);
                    }
                    if attacks(sq, i as int, to) && owned_by(sq[i as int], c) {
                        assert(attacked_upto(sq, to, c, i + 1));
                    }
                }
            }
            i = i + 1;
        }
        proof {
            let sq = self@.squares;
            let c = color.0 as int;
            assert forall|to: int| attacked_upto(sq, to, c, 81) == attacked_by(sq, to, c) by {
                if attacked_by(sq, to, c) {
                    let from = choose|from: int| #[trigger] attacks(sq, from, to) && owned_by(sq[from], c);
                    assert(from < 81);
                }
                if attacked_upto(sq, to, c, 81) {
                    let from = choose|from: int|
                        from < 81 && #[trigger] attacks(sq, from, to) && owned_by(sq[from], c);
                }
            }
        }
        b
    }

    /// Whether some piece of color `c` attacks the square `sq`.
    pub(crate) fn is_attacked_by(&self, sq: u8, c: u8) -> (b: bool)
        requires
            sq < 81,
            c < 2,
        ensures
            b == attacked_by(self@.squares, sq as int, c as int),
    {
        proof {
            use_type_invariant(self);
        }
        is_attacked(&self.squares, sq, c)
    }

    /// Whether an unpromoted pawn of color `c` stands on file `f`.
    pub(crate) fn has_pawn_on(&self, c: u8, f: u8) -> (b: bool)
        requires
            c < 2,
            f < 9,
        ensures
            b == pawn_on_file(self@.squares, c as int, f as int),
    {
        let pawn: u16 = piece_code(c, PAWN);
        let mut r: u8 = 0;
        while r < 9
            invariant
                c < 2,
                f < 9,
                0 <= r <= 9,
                pawn == piece_of(c as int, PAWN as int),
                forall|j: int| 0 <= j < r ==> self@.squares[#[trigger] crate::board::square_at(f as int, j)] != pawn,
            decreases 9 - r,
        {
            if self.squares[(f * 9 + r) as usize] == pawn {
                assert(f * 9 + r == crate::board::square_at(f as int, r as int));
                return true;
            }
            r = r + 1;
        }
        false
    }

    /// What the pieces of color `c` count where a win is declared: with
    /// `zone_only` set the men in the zone of the color and the pieces it
    /// holds, else all its men and the pieces it holds.
    pub(crate) fn points(&self, c: u8, zone_only: bool) -> (n: u32)
        requires
            c < 2,
        ensures
            n == (if zone_only {
                zone_points(self@.squares, c as int, 81)
            } else {
                board_points(self@.squares, c as int, 81)
            }) + hand_points(self@.stand, c as int),
    {
        proof {
            use_type_invariant(self);
        }
        let mut points: u32 = 0;
        let mut i: u8 = 0;
        while i < 81
            invariant
                0 <= i <= 81,
                c < 2,
                self@.wf(),
                points == (if zone_only {
                    zone_points(self@.squares, c as int, i as int)
                } else {
                    board_points(self@.squares, c as int, i as int)
                }),
                points <= 5 * i,
            decreases 81 - i,
        {
            let p: u16 = self.squares[i as usize];
            assert(valid_piece(p));
            if p != 0 && p / 16 == c as u16 && (!zone_only || (p % 16 != 8 && crate::board::in_zone_code(c, i))) {
                let k: u16 = p % 16;
                points = points + if k == 5 || k == 6 || k == 13 || k == 14 {
                    5
                } else if k == 8 {
                    0
                } else {
                    1
                };
            }
            i = i + 1;
        }
        let base: usize = 8 * c as usize;
        let held: u32 = self.stand[base + 1] as u32 + self.stand[base + 2] as u32 + self.stand[base + 3] as u32
            + self.stand[base + 4] as u32 + self.stand[base + 7] as u32 + 5 * (self.stand[base + 5] as u32
            + self.stand[base + 6] as u32);
        points + held
    }

    /// Whether the side to move may declare a win.
    pub fn can_declare(&self) -> (b: bool)
        ensures
            b == self@.can_declare(),
    {
        proof {
            use_type_invariant(self);
        }
        let c: u8 = self.side;
        let king: u8 = self.kings[c as usize];
        let mut men: u32 = 0;
        let mut points: u32 = 0;
        let mut i: u8 = 0;
        while i < 81
            invariant
                0 <= i <= 81,
                c < 2,
                self@.wf(),
                men == zone_men(self@.squares, c as int, i as int),
                points == zone_points(self@.squares, c as int, i as int),
                men <= i,
                points <= 5 * i,
            decreases 81 - i,
        {
            let p: u16 = self.squares[i as usize];
            assert(valid_piece(p));
            if p != 0 && p / 16 == c as u16 && p % 16 != 8 && crate::board::in_zone_code(c, i) {
                let k: u16 = p % 16;
                men = men + 1;
                points = points + if k == 5 || k == 6 || k == 13 || k == 14 {
                    5
                } else {
                    1
                };
            }
            i = i + 1;
        }
        let base: usize = 8 * c as usize;
        let held: u32 = self.stand[base + 1] as u32 + self.stand[base + 2] as u32 + self.stand[base + 3] as u32
            + self.stand[base + 4] as u32 + self.stand[base + 7] as u32 + 5 * (self.stand[base + 5] as u32
            + self.stand[base + 6] as u32);
        crate::board::in_zone_code(c, king) && men >= 10 && points + held >= 28 - c as u32 && !is_attacked(
            &self.squares,
            king,
            1 - c,
        )
    }

    /// Whether the same pieces stand on the same squares in both positions.
    pub(crate) fn same_squares(&self, other: &Position) -> (b: bool)
        ensures
            b == (self@.squares == other@.squares),
    {
        proof {
            use_type_invariant(self);
            use_type_invariant(other);
        }
        let mut i: usize = 0;
        while i < 81
            invariant
                0 <= i <= 81,
                forall|j: int| 0 <= j < i ==> self.squares@[j] == other.squares@[j],
            decreases 81 - i,
        {
            if self.squares[i] != other.squares[i] {
                return false;
            }
            i = i + 1;
        }
        assert(self.squares@ =~= other.squares@);
        true
    }

    /// Whether color `c` holds at least as many pieces of every kind here
    /// as in `other`.
    pub(crate) fn holds_no_less(&self, other: &Position, c: u8) -> (b: bool)
        requires
            c < 2,
        ensures
            b == stand_covers(self@.stand, other@.stand, c as int),
    {
        let mut k: usize = 1;
        while k <= 7
            invariant
                1 <= k <= 8,
                c < 2,
                forall|j: int|
                    1 <= j < k ==> #[trigger] held_in(self.stand@, c as int, j) >= held_in(
                        other.stand@,
                        c as int,
                        j,
                    ),
            decreases 8 - k,
        {
            if self.stand[8 * c as usize + k] < other.stand[8 * c as usize + k] {
                assert(held_in(self.stand@, c as int, k as int) < held_in(other.stand@, c as int, k as int));
                return false;
            }
            k = k + 1;
        }
        true
    }
}

/// On stand `a` color `c` holds at least as many pieces of every kind as
/// on stand `b`.
pub open spec fn stand_covers(a: Seq<u8>, b: Seq<u8>, c: int) -> bool {
    forall|k: int| 1 <= k <= 7 ==> #[trigger] held_in(a, c, k) >= held_in(b, c, k)
}

/// How many pieces of kind `k` color `c` holds on `stand`.
pub open spec fn held_in(stand: Seq<u8>, c: int, k: int) -> u8 {
    stand[8 * c + k]
}

} // verus!
