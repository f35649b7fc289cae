//! Plain value types of the game: colors, piece kinds, squares and moves.
use vstd::prelude::*;

verus! {

/// Side of a player. Black moves first; `NO_COLOR` stands for "neither".
#[derive(PartialEq, Eq, Structural, Clone, Copy, Debug)]
pub struct Color(pub u8);

#[allow(non_snake_case)]
impl Color {
    pub fn BLACK() -> (c: Color)
        ensures
            c.0 == 0,
    {
        Color(0)
    }

    pub fn WHITE() -> (c: Color)
        ensures
            c.0 == 1,
    {
        Color(1)
    }

    pub fn NO_COLOR() -> (c: Color)
        ensures
            c.0 == 2,
    {
        Color(2)
    }

    pub(crate) fn new(value: u8) -> (c: Color)
        ensures
            c.0 == value,
    {
        Color(value)
    }

    /// The underlying code.
    #[inline]
    pub fn value(&self) -> (v: u8)
        ensures
            v == self.0,
    {
        self.0
    }

    /// Black or white.
    pub open spec fn is_player(self) -> bool {
        self.0 < 2
    }
}

/// Kind of a piece without its color. Codes 9 to 14 are the promoted kinds.
#[derive(PartialEq, Eq, Structural, Clone, Copy, Debug)]
pub struct PieceType(pub u8);

#[allow(non_snake_case)]
impl PieceType {
    pub fn EMPTY() -> (t: PieceType)
        ensures
            t.0 == 0,
    {
        PieceType(0)
    }

    pub fn PAWN() -> (t: PieceType)
        ensures
            t.0 == 1,
    {
        PieceType(1)
    }

    pub fn LANCE() -> (t: PieceType)
        ensures
            t.0 == 2,
    {
        PieceType(2)
    }

    pub fn KNIGHT() -> (t: PieceType)
        ensures
            t.0 == 3,
    {
        PieceType(3)
    }

    pub fn SILVER() -> (t: PieceType)
        ensures
            t.0 == 4,
    {
        PieceType(4)
    }

    pub fn BISHOP() -> (t: PieceType)
        ensures
            t.0 == 5,
    {
        PieceType(5)
    }

    pub fn ROOK() -> (t: PieceType)
        ensures
            t.0 == 6,
    {
        PieceType(6)
    }

    pub fn GOLD() -> (t: PieceType)
        ensures
            t.0 == 7,
    {
        PieceType(7)
    }

    pub fn KING() -> (t: PieceType)
        ensures
            t.0 == 8,
    {
        PieceType(8)
    }

    pub fn PRO_PAWN() -> (t: PieceType)
        ensures
            t.0 == 9,
    {
        PieceType(9)
    }

    pub fn PRO_LANCE() -> (t: PieceType)
        ensures
            t.0 == 10,
    {
        PieceType(10)
    }

    pub fn PRO_KNIGHT() -> (t: PieceType)
        ensures
            t.0 == 11,
    {
        PieceType(11)
    }

    pub fn PRO_SILVER() -> (t: PieceType)
        ensures
            t.0 == 12,
    {
        PieceType(12)
    }

    pub fn PRO_BISHOP() -> (t: PieceType)
        ensures
            t.0 == 13,
    {
        PieceType(13)
    }

    pub fn PRO_ROOK() -> (t: PieceType)
        ensures
            t.0 == 14,
    {
        PieceType(14)
    }

    pub(crate) fn new(value: u8) -> (t: PieceType)
        ensures
            t.0 == value,
    {
        PieceType(value)
    }

    /// The underlying code.
    #[inline]
    pub fn value(&self) -> (v: u8)
        ensures
            v == self.0,
    {
        self.0
    }

    /// One of the fourteen kinds, or `EMPTY`.
    pub open spec fn is_valid(self) -> bool {
        self.0 <= 14
    }
}

/// Kind of a piece with its color: the kind's code, plus 16 for white.
#[derive(PartialEq, Eq, Structural, Clone, Copy, Debug)]
pub struct Piece(pub u16);

#[allow(non_snake_case)]
impl Piece {
    pub fn EMPTY() -> (p: Piece)
        ensures
            p.0 == 0,
    {
        Piece(0)
    }

    pub fn BLACK_PAWN() -> (p: Piece)
        ensures
            p.0 == 1,
    {
        Piece(1)
    }

    pub fn BLACK_LANCE() -> (p: Piece)
        ensures
            p.0 == 2,
    {
        Piece(2)
    }

    pub fn BLACK_KNIGHT() -> (p: Piece)
        ensures
            p.0 == 3,
    {
        Piece(3)
    }

    pub fn BLACK_SILVER() -> (p: Piece)
        ensures
            p.0 == 4,
    {
        Piece(4)
    }

    pub fn BLACK_BISHOP() -> (p: Piece)
        ensures
            p.0 == 5,
    {
        Piece(5)
    }

    pub fn BLACK_ROOK() -> (p: Piece)
        ensures
            p.0 == 6,
    {
        Piece(6)
    }

    pub fn BLACK_GOLD() -> (p: Piece)
        ensures
            p.0 == 7,
    {
        Piece(7)
    }

    pub fn BLACK_KING() -> (p: Piece)
        ensures
            p.0 == 8,
    {
        Piece(8)
    }

    pub fn BLACK_PRO_PAWN() -> (p: Piece)
        ensures
            p.0 == 9,
    {
        Piece(9)
    }

    pub fn BLACK_PRO_LANCE() -> (p: Piece)
        ensures
            p.0 == 10,
    {
        Piece(10)
    }

    pub fn BLACK_PRO_KNIGHT() -> (p: Piece)
        ensures
            p.0 == 11,
    {
        Piece(11)
    }

    pub fn BLACK_PRO_SILVER() -> (p: Piece)
        ensures
            p.0 == 12,
    {
        Piece(12)
    }

    pub fn BLACK_PRO_BISHOP() -> (p: Piece)
        ensures
            p.0 == 13,
    {
        Piece(13)
    }

    pub fn BLACK_PRO_ROOK() -> (p: Piece)
        ensures
            p.0 == 14,
    {
        Piece(14)
    }

    pub fn WHITE_PAWN() -> (p: Piece)
        ensures
            p.0 == 17,
    {
        Piece(17)
    }

    pub fn WHITE_LANCE() -> (p: Piece)
        ensures
            p.0 == 18,
    {
        Piece(18)
    }

    pub fn WHITE_KNIGHT() -> (p: Piece)
        ensures
            p.0 == 19,
    {
        Piece(19)
    }

    pub fn WHITE_SILVER() -> (p: Piece)
        ensures
            p.0 == 20,
    {
        Piece(20)
    }

    pub fn WHITE_BISHOP() -> (p: Piece)
        ensures
            p.0 == 21,
    {
        Piece(21)
    }

    pub fn WHITE_ROOK() -> (p: Piece)
        ensures
            p.0 == 22,
    {
        Piece(22)
    }

    pub fn WHITE_GOLD() -> (p: Piece)
        ensures
            p.0 == 23,
    {
        Piece(23)
    }

    pub fn WHITE_KING() -> (p: Piece)
        ensures
            p.0 == 24,
    {
        Piece(24)
    }

    pub fn WHITE_PRO_PAWN() -> (p: Piece)
        ensures
            p.0 == 25,
    {
        Piece(25)
    }

    pub fn WHITE_PRO_LANCE() -> (p: Piece)
        ensures
            p.0 == 26,
    {
        Piece(26)
    }

    pub fn WHITE_PRO_KNIGHT() -> (p: Piece)
        ensures
            p.0 == 27,
    {
        Piece(27)
    }

    pub fn WHITE_PRO_SILVER() -> (p: Piece)
        ensures
            p.0 == 28,
    {
        Piece(28)
    }

    pub fn WHITE_PRO_BISHOP() -> (p: Piece)
        ensures
            p.0 == 29,
    {
        Piece(29)
    }

    pub fn WHITE_PRO_ROOK() -> (p: Piece)
        ensures
            p.0 == 30,
    {
        Piece(30)
    }

    pub(crate) fn new(value: u16) -> (p: Piece)
        ensures
            p.0 == value,
    {
        Piece(value)
    }

    /// The underlying code.
    #[inline]
    pub fn value(&self) -> (v: u16)
        ensures
            v == self.0,
    {
        self.0
    }

    /// Empty, or a kind from 1 to 14 with a color.
    pub open spec fn is_valid(self) -> bool {
        self.0 == 0 || 1 <= self.0 <= 14 || 17 <= self.0 <= 30
    }
}

/// A cell of the 9x9 board. Files run from 1 (code 0..8) to 9, and within a
/// file the code grows from rank `i` (black's back rank) to rank `a`.
#[derive(PartialEq, Eq, Structural, Clone, Copy, Debug)]
pub struct Square(pub i8);

#[allow(non_snake_case)]
impl Square {
    pub fn SQ_1I() -> (s: Square)
        ensures
            s.0 == 0,
    {
        Square(0)
    }

    pub fn SQ_1H() -> (s: Square)
        ensures
            s.0 == 1,
    {
        Square(1)
    }

    pub fn SQ_1G() -> (s: Square)
        ensures
            s.0 == 2,
    {
        Square(2)
    }

    pub fn SQ_1F() -> (s: Square)
        ensures
            s.0 == 3,
    {
        Square(3)
    }

    pub fn SQ_1E() -> (s: Square)
        ensures
            s.0 == 4,
    {
        Square(4)
    }

    pub fn SQ_1D() -> (s: Square)
        ensures
            s.0 == 5,
    {
        Square(5)
    }

    pub fn SQ_1C() -> (s: Square)
        ensures
            s.0 == 6,
    {
        Square(6)
    }

    pub fn SQ_1B() -> (s: Square)
        ensures
            s.0 == 7,
    {
        Square(7)
    }

    pub fn SQ_1A() -> (s: Square)
        ensures
            s.0 == 8,
    {
        Square(8)
    }

    pub fn SQ_2I() -> (s: Square)
        ensures
            s.0 == 9,
    {
        Square(9)
    }

    pub fn SQ_2H() -> (s: Square)
        ensures
            s.0 == 10,
    {
        Square(10)
    }

    pub fn SQ_2G() -> (s: Square)
        ensures
            s.0 == 11,
    {
        Square(11)
    }

    pub fn SQ_2F() -> (s: Square)
        ensures
            s.0 == 12,
    {
        Square(12)
    }

    pub fn SQ_2E() -> (s: Square)
        ensures
            s.0 == 13,
    {
        Square(13)
    }

    pub fn SQ_2D() -> (s: Square)
        ensures
            s.0 == 14,
    {
        Square(14)
    }

    pub fn SQ_2C() -> (s: Square)
        ensures
            s.0 == 15,
    {
        Square(15)
    }

    pub fn SQ_2B() -> (s: Square)
        ensures
            s.0 == 16,
    {
        Square(16)
    }

    pub fn SQ_2A() -> (s: Square)
        ensures
            s.0 == 17,
    {
        Square(17)
    }

    pub fn SQ_3I() -> (s: Square)
        ensures
            s.0 == 18,
    {
        Square(18)
    }

    pub fn SQ_3H() -> (s: Square)
        ensures
            s.0 == 19,
    {
        Square(19)
    }

    pub fn SQ_3G() -> (s: Square)
        ensures
            s.0 == 20,
    {
        Square(20)
    }

    pub fn SQ_3F() -> (s: Square)
        ensures
            s.0 == 21,
    {
        Square(21)
    }

    pub fn SQ_3E() -> (s: Square)
        ensures
            s.0 == 22,
    {
        Square(22)
    }

    pub fn SQ_3D() -> (s: Square)
        ensures
            s.0 == 23,
    {
        Square(23)
    }

    pub fn SQ_3C() -> (s: Square)
        ensures
            s.0 == 24,
    {
        Square(24)
    }

    pub fn SQ_3B() -> (s: Square)
        ensures
            s.0 == 25,
    {
        Square(25)
    }

    pub fn SQ_3A() -> (s: Square)
        ensures
            s.0 == 26,
    {
        Square(26)
    }

    pub fn SQ_4I() -> (s: Square)
        ensures
            s.0 == 27,
    {
        Square(27)
    }

    pub fn SQ_4H() -> (s: Square)
        ensures
            s.0 == 28,
    {
        Square(28)
    }

    pub fn SQ_4G() -> (s: Square)
        ensures
            s.0 == 29,
    {
        Square(29)
    }

    pub fn SQ_4F() -> (s: Square)
        ensures
            s.0 == 30,
    {
        Square(30)
    }

    pub fn SQ_4E() -> (s: Square)
        ensures
            s.0 == 31,
    {
        Square(31)
    }

    pub fn SQ_4D() -> (s: Square)
        ensures
            s.0 == 32,
    {
        Square(32)
    }

    pub fn SQ_4C() -> (s: Square)
        ensures
            s.0 == 33,
    {
        Square(33)
    }

    pub fn SQ_4B() -> (s: Square)
        ensures
            s.0 == 34,
    {
        Square(34)
    }

    pub fn SQ_4A() -> (s: Square)
        ensures
            s.0 == 35,
    {
        Square(35)
    }

    pub fn SQ_5I() -> (s: Square)
        ensures
            s.0 == 36,
    {
        Square(36)
    }

    pub fn SQ_5H() -> (s: Square)
        ensures
            s.0 == 37,
    {
        Square(37)
    }

    pub fn SQ_5G() -> (s: Square)
        ensures
            s.0 == 38,
    {
        Square(38)
    }

    pub fn SQ_5F() -> (s: Square)
        ensures
            s.0 == 39,
    {
        Square(39)
    }

    pub fn SQ_5E() -> (s: Square)
        ensures
            s.0 == 40,
    {
        Square(40)
    }

    pub fn SQ_5D() -> (s: Square)
        ensures
            s.0 == 41,
    {
        Square(41)
    }

    pub fn SQ_5C() -> (s: Square)
        ensures
            s.0 == 42,
    {
        Square(42)
    }

    pub fn SQ_5B() -> (s: Square)
        ensures
            s.0 == 43,
    {
        Square(43)
    }

    pub fn SQ_5A() -> (s: Square)
        ensures
            s.0 == 44,
    {
        Square(44)
    }

    pub fn SQ_6I() -> (s: Square)
        ensures
            s.0 == 45,
    {
        Square(45)
    }

    pub fn SQ_6H() -> (s: Square)
        ensures
            s.0 == 46,
    {
        Square(46)
    }

    pub fn SQ_6G() -> (s: Square)
        ensures
            s.0 == 47,
    {
        Square(47)
    }

    pub fn SQ_6F() -> (s: Square)
        ensures
            s.0 == 48,
    {
        Square(48)
    }

    pub fn SQ_6E() -> (s: Square)
        ensures
            s.0 == 49,
    {
        Square(49)
    }

    pub fn SQ_6D() -> (s: Square)
        ensures
            s.0 == 50,
    {
        Square(50)
    }

    pub fn SQ_6C() -> (s: Square)
        ensures
            s.0 == 51,
    {
        Square(51)
    }

    pub fn SQ_6B() -> (s: Square)
        ensures
            s.0 == 52,
    {
        Square(52)
    }

    pub fn SQ_6A() -> (s: Square)
        ensures
            s.0 == 53,
    {
        Square(53)
    }

    pub fn SQ_7I() -> (s: Square)
        ensures
            s.0 == 54,
    {
        Square(54)
    }

    pub fn SQ_7H() -> (s: Square)
        ensures
            s.0 == 55,
    {
        Square(55)
    }

    pub fn SQ_7G() -> (s: Square)
        ensures
            s.0 == 56,
    {
        Square(56)
    }

    pub fn SQ_7F() -> (s: Square)
        ensures
            s.0 == 57,
    {
        Square(57)
    }

    pub fn SQ_7E() -> (s: Square)
        ensures
            s.0 == 58,
    {
        Square(58)
    }

    pub fn SQ_7D() -> (s: Square)
        ensures
            s.0 == 59,
    {
        Square(59)
    }

    pub fn SQ_7C() -> (s: Square)
        ensures
            s.0 == 60,
    {
        Square(60)
    }

    pub fn SQ_7B() -> (s: Square)
        ensures
            s.0 == 61,
    {
        Square(61)
    }

    pub fn SQ_7A() -> (s: Square)
        ensures
            s.0 == 62,
    {
        Square(62)
    }

    pub fn SQ_8I() -> (s: Square)
        ensures
            s.0 == 63,
    {
        Square(63)
    }

    pub fn SQ_8H() -> (s: Square)
        ensures
            s.0 == 64,
    {
        Square(64)
    }

    pub fn SQ_8G() -> (s: Square)
        ensures
            s.0 == 65,
    {
        Square(65)
    }

    pub fn SQ_8F() -> (s: Square)
        ensures
            s.0 == 66,
    {
        Square(66)
    }

    pub fn SQ_8E() -> (s: Square)
        ensures
            s.0 == 67,
    {
        Square(67)
    }

    pub fn SQ_8D() -> (s: Square)
        ensures
            s.0 == 68,
    {
        Square(68)
    }

    pub fn SQ_8C() -> (s: Square)
        ensures
            s.0 == 69,
    {
        Square(69)
    }

    pub fn SQ_8B() -> (s: Square)
        ensures
            s.0 == 70,
    {
        Square(70)
    }

    pub fn SQ_8A() -> (s: Square)
        ensures
            s.0 == 71,
    {
        Square(71)
    }

    pub fn SQ_9I() -> (s: Square)
        ensures
            s.0 == 72,
    {
        Square(72)
    }

    pub fn SQ_9H() -> (s: Square)
        ensures
            s.0 == 73,
    {
        Square(73)
    }

    pub fn SQ_9G() -> (s: Square)
        ensures
            s.0 == 74,
    {
        Square(74)
    }

    pub fn SQ_9F() -> (s: Square)
        ensures
            s.0 == 75,
    {
        Square(75)
    }

    pub fn SQ_9E() -> (s: Square)
        ensures
            s.0 == 76,
    {
        Square(76)
    }

    pub fn SQ_9D() -> (s: Square)
        ensures
            s.0 == 77,
    {
        Square(77)
    }

    pub fn SQ_9C() -> (s: Square)
        ensures
            s.0 == 78,
    {
        Square(78)
    }

    pub fn SQ_9B() -> (s: Square)
        ensures
            s.0 == 79,
    {
        Square(79)
    }

    pub fn SQ_9A() -> (s: Square)
        ensures
            s.0 == 80,
    {
        Square(80)
    }

    pub fn SQ_INVALID() -> (s: Square)
        ensures
            s.0 == 82,
    {
        Square(82)
    }

    pub(crate) fn new(value: i8) -> (s: Square)
        ensures
            s.0 == value,
    {
        Square(value)
    }

    /// The underlying code.
    #[inline]
    pub fn value(&self) -> (v: i8)
        ensures
            v == self.0,
    {
        self.0
    }

    /// On the board.
    pub open spec fn is_valid(self) -> bool {
        0 <= self.0 < 81
    }

    /// Every square of the board, in code order.
    pub fn all() -> (v: Vec<Square>)
        ensures
            v@.len() == 81,
            forall|i: int| 0 <= i < 81 ==> (#[trigger] v@[i]).0 == i,
    {
        let mut v: Vec<Square> = Vec::new();
        let mut i: i8 = 0;
        while i < 81
            invariant
                0 <= i <= 81,
                v@.len() == i,
                forall|j: int| 0 <= j < i ==> (#[trigger] v@[j]).0 == j,
            decreases 81 - i,
        {
            v.push(Square(i));
            i = i + 1;
        }
        v
    }
}

/// How the current position relates to earlier ones of the same game.
#[derive(PartialEq, Eq, Structural, Clone, Copy, Debug)]
pub struct Repetition(pub u8);

#[allow(non_snake_case)]
impl Repetition {
    pub fn NO_REPETITION() -> (r: Repetition)
        ensures
            r.0 == 0,
    {
        Repetition(0)
    }

    pub fn REPETITION() -> (r: Repetition)
        ensures
            r.0 == 1,
    {
        Repetition(1)
    }

    pub fn WIN_REPETITION() -> (r: Repetition)
        ensures
            r.0 == 2,
    {
        Repetition(2)
    }

    pub fn LOSS_REPETITION() -> (r: Repetition)
        ensures
            r.0 == 3,
    {
        Repetition(3)
    }

    pub fn SUPERIOR_REPETITION() -> (r: Repetition)
        ensures
            r.0 == 4,
    {
        Repetition(4)
    }

    pub fn INFERIOR_REPETITION() -> (r: Repetition)
        ensures
            r.0 == 5,
    {
        Repetition(5)
    }

    pub(crate) fn new(value: u8) -> (r: Repetition)
        ensures
            r.0 == value,
    {
        Repetition(value)
    }

    /// The underlying code.
    #[inline]
    pub fn value(&self) -> (v: u8)
        ensures
            v == self.0,
    {
        self.0
    }
}

/// One ply, packed into 23 bits: target square, source square (82 for a
/// drop), promotion flag, kind of the piece that moves and kind of the piece
/// that is captured. Two values are reserved: "no move" and the declaration
/// of a win. A move has a meaning only in the position it was made for.
#[derive(PartialEq, Eq, Structural, Clone, Copy, Debug)]
pub struct Move(pub u32);

/// The source code that marks a drop.
pub const DROP_SOURCE: u32 = 82;

/// The code of the move that declares a win.
pub const WIN_CODE: u32 = 10578;

impl Move {
    /// Code of the target square.
    pub open spec fn to_index(self) -> int {
        (self.0 % 128) as int
    }

    /// Code of the source square; 82 for a drop.
    pub open spec fn from_index(self) -> int {
        (self.0 / 128 % 128) as int
    }

    /// Whether the piece promotes.
    pub open spec fn promotes(self) -> bool {
        self.0 / 128 / 128 % 2 == 1
    }

    /// Kind of the piece that moves, before promotion.
    pub open spec fn kind(self) -> int {
        (self.0 / 128 / 128 / 2 % 16) as int
    }

    /// Kind of the captured piece; 0 if none.
    pub open spec fn captured(self) -> int {
        (self.0 / 128 / 128 / 2 / 16 % 16) as int
    }

    /// Whether a piece comes from the stand.
    pub open spec fn drops(self) -> bool {
        self.from_index() == 82 && self.kind() != 0
    }

    /// The packed value of a move with the given parts.
    pub open spec fn pack(from: int, to: int, promote: bool, kind: int, captured: int) -> int {
        to + 128 * (from + 128 * ((if promote { 1int } else { 0int }) + 2 * (kind + 16 * captured)))
    }

    /// Holds no bits but those of its parts.
    pub open spec fn is_packed(self) -> bool {
        self.0 == Self::pack(
            self.from_index(),
            self.to_index(),
            self.promotes(),
            self.kind(),
            self.captured(),
        )
    }

    /// Unpacking a packed move gives its parts back.
    pub proof fn lemma_pack_parts(from: int, to: int, promote: bool, kind: int, captured: int)
        requires
            0 <= from < 128,
            0 <= to < 128,
            0 <= kind < 16,
            0 <= captured < 16,
        ensures
            0 <= Self::pack(from, to, promote, kind, captured) < 8388608,
            ({
                let m = Move(Self::pack(from, to, promote, kind, captured) as u32);
                &&& m.from_index() == from
                &&& m.to_index() == to
                &&& m.promotes() == promote
                &&& m.kind() == kind
                &&& m.captured() == captured
                &&& m.is_packed()
            }),
    {
        let a = kind + 16 * captured;
        let b = (if promote { 1int } else { 0int }) + 2 * a;
        let c = from + 128 * b;
        let x = to + 128 * c;
        assert(a / 16 == captured && a % 16 == kind);
        assert(b / 2 == a && b % 2 == (if promote { 1int } else { 0int }));
        assert(c / 128 == b && c % 128 == from);
        assert(x / 128 == c && x % 128 == to);
    }

    /// Builds a move from its parts.
    pub(crate) fn make(from: u8, to: u8, promote: bool, kind: u8, captured: u8) -> (m: Move)
        requires
            from < 128,
            to < 128,
            kind < 16,
            captured < 16,
        ensures
            m.0 == Self::pack(from as int, to as int, promote, kind as int, captured as int),
            m.from_index() == from,
            m.to_index() == to,
            m.promotes() == promote,
            m.kind() == kind,
            m.captured() == captured,
            m.is_packed(),
    {
        proof {
            Self::lemma_pack_parts(from as int, to as int, promote, kind as int, captured as int);
        }
        let p: u32 = if promote { 1 } else { 0 };
        Move(to as u32 + 128 * (from as u32 + 128 * (p + 2 * (kind as u32 + 16 * captured as u32))))
    }

    pub(crate) fn new(value: u32) -> (m: Move)
        ensures
            m.0 == value,
    {
        Move(value)
    }

    /// The packed value.
    #[inline]
    pub fn value(&self) -> (v: u32)
        ensures
            v == self.0,
    {
        self.0
    }

    /// The target square.
    #[inline]
    pub fn to(&self) -> (s: Square)
        ensures
            s.0 == self.to_index(),
    {
        Square((self.0 % 128) as i8)
    }

    /// The source square; `SQ_INVALID` for a drop.
    #[inline]
    pub fn from(&self) -> (s: Square)
        ensures
            s.0 == self.from_index(),
    {
        Square((self.0 / 128 % 128) as i8)
    }

    /// `true` if the move puts a piece from the stand on the board.
    #[inline]
    pub fn is_dropping(&self) -> (b: bool)
        ensures
            b == self.drops(),
    {
        self.0 / 128 % 128 == 82 && self.0 / 128 / 128 / 2 % 16 != 0
    }

    /// `true` if the piece promotes.
    #[inline]
    pub fn is_promoting(&self) -> (b: bool)
        ensures
            b == self.promotes(),
    {
        self.0 / 128 / 128 % 2 == 1
    }

    /// Kind of the piece that moves, as it is before the move.
    #[inline]
    pub fn piece_type(&self) -> (t: PieceType)
        ensures
            t.0 == self.kind(),
    {
        PieceType((self.0 / 128 / 128 / 2 % 16) as u8)
    }

    /// Kind of the piece on the target square; `EMPTY` if there is none.
    #[inline]
    pub fn capture_piece_type(&self) -> (t: PieceType)
        ensures
            t.0 == self.captured(),
    {
        PieceType((self.0 / 128 / 128 / 2 / 16 % 16) as u8)
    }

    /// `true` for the value that stands for "no move".
    #[inline]
    pub fn is_none(&self) -> (b: bool)
        ensures
            b == (self.0 == 0),
    {
        self.0 == 0
    }

    /// `true` for the declaration of a win.
    #[inline]
    pub fn is_win(&self) -> (b: bool)
        ensures
            b == (self.0 == WIN_CODE),
    {
        self.0 == WIN_CODE
    }

    /// The value that stands for "no move".
    pub fn none() -> (m: Move)
        ensures
            m.0 == 0,
    {
        Move(0)
    }

    /// The move that declares a win. It is no move of any position.
    pub fn win() -> (m: Move)
        ensures
            m.0 == WIN_CODE,
            m.kind() == 0,
            !m.drops(),
    {
        Move(WIN_CODE)
    }
}

/// Why a position or move in SFEN notation was not accepted.
#[derive(Debug)]
pub enum SfenParseError {
    RuntimeError(&'static str),
    InternalError(&'static str),
}

/// Why a position or move in CSA notation was not accepted.
#[derive(Debug)]
pub enum CSAParseError {
    RuntimeError(&'static str),
    InternalError(&'static str),
}

/// A move of the history was asked for that has not been played.
#[derive(Debug)]
pub enum MoveGetError {
    OutOfIndex,
}

} // verus!
