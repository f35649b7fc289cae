//! Positions and moves as numbers for learning: the kinds of feature planes
//! and the index of a move among the moves of its state.
use crate::board::{
    attacks, file_of, kind_of, knight_attack, knight_square, owned_by, rank_of, ray_attack, ray_on_board,
    ray_square,
};
use crate::position::Board;
use crate::state::State;
use crate::types::Move;
use vstd::prelude::*;

verus! {

/// The kind of a feature plane: what one plane of 81 numbers says of a state.
///
/// "My" pieces are those of the side to move, "op" those of the other side.
#[derive(PartialEq, Eq, Structural, Clone, Copy, Debug)]
pub struct FeatureType(pub i32);

#[allow(non_snake_case)]
impl FeatureType {
    pub fn BLACK() -> (t: FeatureType)
        ensures
            t.0 == 0,
    {
        FeatureType(0)
    }

    pub fn WHITE() -> (t: FeatureType)
        ensures
            t.0 == 1,
    {
        FeatureType(1)
    }

    pub fn MY_PAWN() -> (t: FeatureType)
        ensures
            t.0 == 2,
    {
        FeatureType(2)
    }

    pub fn MY_LANCE() -> (t: FeatureType)
        ensures
            t.0 == 3,
    {
        FeatureType(3)
    }

    pub fn MY_KNIGHT() -> (t: FeatureType)
        ensures
            t.0 == 4,
    {
        FeatureType(4)
    }

    pub fn MY_SILVER() -> (t: FeatureType)
        ensures
            t.0 == 5,
    {
        FeatureType(5)
    }

    pub fn MY_GOLD() -> (t: FeatureType)
        ensures
            t.0 == 6,
    {
        FeatureType(6)
    }

    pub fn MY_KING() -> (t: FeatureType)
        ensures
            t.0 == 7,
    {
        FeatureType(7)
    }

    pub fn MY_BISHOP() -> (t: FeatureType)
        ensures
            t.0 == 8,
    {
        FeatureType(8)
    }

    pub fn MY_ROOK() -> (t: FeatureType)
        ensures
            t.0 == 9,
    {
        FeatureType(9)
    }

    pub fn MY_PRO_PAWN() -> (t: FeatureType)
        ensures
            t.0 == 10,
    {
        FeatureType(10)
    }

    pub fn MY_PRO_LANCE() -> (t: FeatureType)
        ensures
            t.0 == 11,
    {
        FeatureType(11)
    }

    pub fn MY_PRO_KNIGHT() -> (t: FeatureType)
        ensures
            t.0 == 12,
    {
        FeatureType(12)
    }

    pub fn MY_PRO_SILVER() -> (t: FeatureType)
        ensures
            t.0 == 13,
    {
        FeatureType(13)
    }

    pub fn MY_PRO_BISHOP() -> (t: FeatureType)
        ensures
            t.0 == 14,
    {
        FeatureType(14)
    }

    pub fn MY_PRO_ROOK() -> (t: FeatureType)
        ensures
            t.0 == 15,
    {
        FeatureType(15)
    }

    pub fn MY_BISHOP_AND_PRO_BISHOP() -> (t: FeatureType)
        ensures
            t.0 == 16,
    {
        FeatureType(16)
    }

    pub fn MY_ROOK_AND_PRO_ROOK() -> (t: FeatureType)
        ensures
            t.0 == 17,
    {
        FeatureType(17)
    }

    pub fn OP_PAWN() -> (t: FeatureType)
        ensures
            t.0 == 18,
    {
        FeatureType(18)
    }

    pub fn OP_LANCE() -> (t: FeatureType)
        ensures
            t.0 == 19,
    {
        FeatureType(19)
    }

    pub fn OP_KNIGHT() -> (t: FeatureType)
        ensures
            t.0 == 20,
    {
        FeatureType(20)
    }

    pub fn OP_SILVER() -> (t: FeatureType)
        ensures
            t.0 == 21,
    {
        FeatureType(21)
    }

    pub fn OP_GOLD() -> (t: FeatureType)
        ensures
            t.0 == 22,
    {
        FeatureType(22)
    }

    pub fn OP_KING() -> (t: FeatureType)
        ensures
            t.0 == 23,
    {
        FeatureType(23)
    }

    pub fn OP_BISHOP() -> (t: FeatureType)
        ensures
            t.0 == 24,
    {
        FeatureType(24)
    }

    pub fn OP_ROOK() -> (t: FeatureType)
        ensures
            t.0 == 25,
    {
        FeatureType(25)
    }

    pub fn OP_PRO_PAWN() -> (t: FeatureType)
        ensures
            t.0 == 26,
    {
        FeatureType(26)
    }

    pub fn OP_PRO_LANCE() -> (t: FeatureType)
        ensures
            t.0 == 27,
    {
        FeatureType(27)
    }

    pub fn OP_PRO_KNIGHT() -> (t: FeatureType)
        ensures
            t.0 == 28,
    {
        FeatureType(28)
    }

    pub fn OP_PRO_SILVER() -> (t: FeatureType)
        ensures
            t.0 == 29,
    {
        FeatureType(29)
    }

    pub fn OP_PRO_BISHOP() -> (t: FeatureType)
        ensures
            t.0 == 30,
    {
        FeatureType(30)
    }

    pub fn OP_PRO_ROOK() -> (t: FeatureType)
        ensures
            t.0 == 31,
    {
        FeatureType(31)
    }

    pub fn OP_BISHOP_AND_PRO_BISHOP() -> (t: FeatureType)
        ensures
            t.0 == 32,
    {
        FeatureType(32)
    }

    pub fn OP_ROOK_AND_PRO_ROOK() -> (t: FeatureType)
        ensures
            t.0 == 33,
    {
        FeatureType(33)
    }

    pub fn MY_STAND_PAWN1() -> (t: FeatureType)
        ensures
            t.0 == 34,
    {
        FeatureType(34)
    }

    pub fn MY_STAND_PAWN2() -> (t: FeatureType)
        ensures
            t.0 == 35,
    {
        FeatureType(35)
    }

    pub fn MY_STAND_PAWN3() -> (t: FeatureType)
        ensures
            t.0 == 36,
    {
        FeatureType(36)
    }

    pub fn MY_STAND_PAWN4() -> (t: FeatureType)
        ensures
            t.0 == 37,
    {
        FeatureType(37)
    }

    pub fn MY_STAND_PAWN5() -> (t: FeatureType)
        ensures
            t.0 == 38,
    {
        FeatureType(38)
    }

    pub fn MY_STAND_PAWN6() -> (t: FeatureType)
        ensures
            t.0 == 39,
    {
        FeatureType(39)
    }

    pub fn MY_STAND_PAWN7() -> (t: FeatureType)
        ensures
            t.0 == 40,
    {
        FeatureType(40)
    }

    pub fn MY_STAND_PAWN8() -> (t: FeatureType)
        ensures
            t.0 == 41,
    {
        FeatureType(41)
    }

    pub fn MY_STAND_PAWN9() -> (t: FeatureType)
        ensures
            t.0 == 42,
    {
        FeatureType(42)
    }

    pub fn MY_STAND_LANCE1() -> (t: FeatureType)
        ensures
            t.0 == 43,
    {
        FeatureType(43)
    }

    pub fn MY_STAND_LANCE2() -> (t: FeatureType)
        ensures
            t.0 == 44,
    {
        FeatureType(44)
    }

    pub fn MY_STAND_LANCE3() -> (t: FeatureType)
        ensures
            t.0 == 45,
    {
        FeatureType(45)
    }

    pub fn MY_STAND_LANCE4() -> (t: FeatureType)
        ensures
            t.0 == 46,
    {
        FeatureType(46)
    }

    pub fn MY_STAND_KNIGHT1() -> (t: FeatureType)
        ensures
            t.0 == 47,
    {
        FeatureType(47)
    }

    pub fn MY_STAND_KNIGHT2() -> (t: FeatureType)
        ensures
            t.0 == 48,
    {
        FeatureType(48)
    }

    pub fn MY_STAND_KNIGHT3() -> (t: FeatureType)
        ensures
            t.0 == 49,
    {
        FeatureType(49)
    }

    pub fn MY_STAND_KNIGHT4() -> (t: FeatureType)
        ensures
            t.0 == 50,
    {
        FeatureType(50)
    }

    pub fn MY_STAND_SILVER1() -> (t: FeatureType)
        ensures
            t.0 == 51,
    {
        FeatureType(51)
    }

    pub fn MY_STAND_SILVER2() -> (t: FeatureType)
        ensures
            t.0 == 52,
    {
        FeatureType(52)
    }

    pub fn MY_STAND_SILVER3() -> (t: FeatureType)
        ensures
            t.0 == 53,
    {
        FeatureType(53)
    }

    pub fn MY_STAND_SILVER4() -> (t: FeatureType)
        ensures
            t.0 == 54,
    {
        FeatureType(54)
    }

    pub fn MY_STAND_GOLD1() -> (t: FeatureType)
        ensures
            t.0 == 55,
    {
        FeatureType(55)
    }

    pub fn MY_STAND_GOLD2() -> (t: FeatureType)
        ensures
            t.0 == 56,
    {
        FeatureType(56)
    }

    pub fn MY_STAND_GOLD3() -> (t: FeatureType)
        ensures
            t.0 == 57,
    {
        FeatureType(57)
    }

    pub fn MY_STAND_GOLD4() -> (t: FeatureType)
        ensures
            t.0 == 58,
    {
        FeatureType(58)
    }

    pub fn MY_STAND_BISHOP1() -> (t: FeatureType)
        ensures
            t.0 == 59,
    {
        FeatureType(59)
    }

    pub fn MY_STAND_BISHOP2() -> (t: FeatureType)
        ensures
            t.0 == 60,
    {
        FeatureType(60)
    }

    pub fn MY_STAND_ROOK1() -> (t: FeatureType)
        ensures
            t.0 == 61,
    {
        FeatureType(61)
    }

    pub fn MY_STAND_ROOK2() -> (t: FeatureType)
        ensures
            t.0 == 62,
    {
        FeatureType(62)
    }

    pub fn OP_STAND_PAWN1() -> (t: FeatureType)
        ensures
            t.0 == 63,
    {
        FeatureType(63)
    }

    pub fn OP_STAND_PAWN2() -> (t: FeatureType)
        ensures
            t.0 == 64,
    {
        FeatureType(64)
    }

    pub fn OP_STAND_PAWN3() -> (t: FeatureType)
        ensures
            t.0 == 65,
    {
        FeatureType(65)
    }

    pub fn OP_STAND_PAWN4() -> (t: FeatureType)
        ensures
            t.0 == 66,
    {
        FeatureType(66)
    }

    pub fn OP_STAND_PAWN5() -> (t: FeatureType)
        ensures
            t.0 == 67,
    {
        FeatureType(67)
    }

    pub fn OP_STAND_PAWN6() -> (t: FeatureType)
        ensures
            t.0 == 68,
    {
        FeatureType(68)
    }

    pub fn OP_STAND_PAWN7() -> (t: FeatureType)
        ensures
            t.0 == 69,
    {
        FeatureType(69)
    }

    pub fn OP_STAND_PAWN8() -> (t: FeatureType)
        ensures
            t.0 == 70,
    {
        FeatureType(70)
    }

    pub fn OP_STAND_PAWN9() -> (t: FeatureType)
        ensures
            t.0 == 71,
    {
        FeatureType(71)
    }

    pub fn OP_STAND_LANCE1() -> (t: FeatureType)
        ensures
            t.0 == 72,
    {
        FeatureType(72)
    }

    pub fn OP_STAND_LANCE2() -> (t: FeatureType)
        ensures
            t.0 == 73,
    {
        FeatureType(73)
    }

    pub fn OP_STAND_LANCE3() -> (t: FeatureType)
        ensures
            t.0 == 74,
    {
        FeatureType(74)
    }

    pub fn OP_STAND_LANCE4() -> (t: FeatureType)
        ensures
            t.0 == 75,
    {
        FeatureType(75)
    }

    pub fn OP_STAND_KNIGHT1() -> (t: FeatureType)
        ensures
            t.0 == 76,
    {
        FeatureType(76)
    }

    pub fn OP_STAND_KNIGHT2() -> (t: FeatureType)
        ensures
            t.0 == 77,
    {
        FeatureType(77)
    }

    pub fn OP_STAND_KNIGHT3() -> (t: FeatureType)
        ensures
            t.0 == 78,
    {
        FeatureType(78)
    }

    pub fn OP_STAND_KNIGHT4() -> (t: FeatureType)
        ensures
            t.0 == 79,
    {
        FeatureType(79)
    }

    pub fn OP_STAND_SILVER1() -> (t: FeatureType)
        ensures
            t.0 == 80,
    {
        FeatureType(80)
    }

    pub fn OP_STAND_SILVER2() -> (t: FeatureType)
        ensures
            t.0 == 81,
    {
        FeatureType(81)
    }

    pub fn OP_STAND_SILVER3() -> (t: FeatureType)
        ensures
            t.0 == 82,
    {
        FeatureType(82)
    }

    pub fn OP_STAND_SILVER4() -> (t: FeatureType)
        ensures
            t.0 == 83,
    {
        FeatureType(83)
    }

    pub fn OP_STAND_GOLD1() -> (t: FeatureType)
        ensures
            t.0 == 84,
    {
        FeatureType(84)
    }

    pub fn OP_STAND_GOLD2() -> (t: FeatureType)
        ensures
            t.0 == 85,
    {
        FeatureType(85)
    }

    pub fn OP_STAND_GOLD3() -> (t: FeatureType)
        ensures
            t.0 == 86,
    {
        FeatureType(86)
    }

    pub fn OP_STAND_GOLD4() -> (t: FeatureType)
        ensures
            t.0 == 87,
    {
        FeatureType(87)
    }

    pub fn OP_STAND_BISHOP1() -> (t: FeatureType)
        ensures
            t.0 == 88,
    {
        FeatureType(88)
    }

    pub fn OP_STAND_BISHOP2() -> (t: FeatureType)
        ensures
            t.0 == 89,
    {
        FeatureType(89)
    }

    pub fn OP_STAND_ROOK1() -> (t: FeatureType)
        ensures
            t.0 == 90,
    {
        FeatureType(90)
    }

    pub fn OP_STAND_ROOK2() -> (t: FeatureType)
        ensures
            t.0 == 91,
    {
        FeatureType(91)
    }

    pub fn CHECK() -> (t: FeatureType)
        ensures
            t.0 == 92,
    {
        FeatureType(92)
    }

    pub fn NO_MY_PAWN_FILE() -> (t: FeatureType)
        ensures
            t.0 == 93,
    {
        FeatureType(93)
    }

    pub fn NO_OP_PAWN_FILE() -> (t: FeatureType)
        ensures
            t.0 == 94,
    {
        FeatureType(94)
    }

    pub fn PROGRESS() -> (t: FeatureType)
        ensures
            t.0 == 95,
    {
        FeatureType(95)
    }

    pub fn PROGRESS_UNIT() -> (t: FeatureType)
        ensures
            t.0 == 96,
    {
        FeatureType(96)
    }

    pub fn RULE_DECLARE27() -> (t: FeatureType)
        ensures
            t.0 == 97,
    {
        FeatureType(97)
    }

    pub fn RULE_DRAW24() -> (t: FeatureType)
        ensures
            t.0 == 98,
    {
        FeatureType(98)
    }

    pub fn RULE_TRYING() -> (t: FeatureType)
        ensures
            t.0 == 99,
    {
        FeatureType(99)
    }

    pub fn MY_DRAW_VALUE() -> (t: FeatureType)
        ensures
            t.0 == 100,
    {
        FeatureType(100)
    }

    pub fn OP_DRAW_VALUE() -> (t: FeatureType)
        ensures
            t.0 == 101,
    {
        FeatureType(101)
    }

    pub fn MY_DECLARATION_SCORE() -> (t: FeatureType)
        ensures
            t.0 == 102,
    {
        FeatureType(102)
    }

    pub fn OP_DECLARATION_SCORE() -> (t: FeatureType)
        ensures
            t.0 == 103,
    {
        FeatureType(103)
    }

    pub fn MY_PIECE_SCORE() -> (t: FeatureType)
        ensures
            t.0 == 104,
    {
        FeatureType(104)
    }

    pub fn OP_PIECE_SCORE() -> (t: FeatureType)
        ensures
            t.0 == 105,
    {
        FeatureType(105)
    }

    pub fn MY_ATTACK() -> (t: FeatureType)
        ensures
            t.0 == 106,
    {
        FeatureType(106)
    }

    pub fn OP_ATTACK() -> (t: FeatureType)
        ensures
            t.0 == 107,
    {
        FeatureType(107)
    }

    /// The underlying code.
    pub fn value(&self) -> (v: i32)
        ensures
            v == self.0,
    {
        self.0
    }
}

/// The number of indices that `move_to_index` gives to moves: 27 planes
/// of 81 squares.
pub const INDEX_COUNT: usize = 2187;

/// The square `sq` as the player of color `c` sees it: white sees the
/// board turned by half a turn.
pub open spec fn seen_square(c: int, sq: int) -> int {
    if c == 0 {
        sq
    } else {
        80 - sq
    }
}

/// The way from `from` to `to`: 0 to 7 for the eight directions, 8 and 9
/// for the two jumps of a black knight, 10 for any other pair of squares.
#[verifier::opaque]
pub open spec fn way(from: int, to: int) -> int {
    let df = file_of(to) - file_of(from);
    let dr = rank_of(to) - rank_of(from);
    if df == 0 && dr > 0 {
        0
    } else if df > 0 && dr == df {
        1
    } else if df > 0 && dr == 0 {
        2
    } else if df > 0 && dr == -df {
        3
    } else if df == 0 && dr < 0 {
        4
    } else if df < 0 && dr == df {
        5
    } else if df < 0 && dr == 0 {
        6
    } else if df < 0 && dr == -df {
        7
    } else if df == 1 && dr == 2 {
        8
    } else if df == -1 && dr == 2 {
        9
    } else {
        10
    }
}

/// The index of the move `m` of the side `c` among 2187: the plane of the
/// move times 81 plus its target, the board being seen as the mover sees
/// it. A move on the board has the plane of its way, from 0 to 9, plus 10 if
/// it promotes; a drop has the plane 19 plus the kind of its piece. A value
/// that is no such move has the index 2187.
pub open spec fn policy_index(c: int, m: Move) -> int {
    let to = seen_square(c, m.to_index());
    let w = way(seen_square(c, m.from_index()), to);
    if !crate::sfen::presentable(m) {
        2187
    } else if m.from_index() == 82 {
        (19 + m.kind()) * 81 + to
    } else if w >= 10 {
        2187
    } else if m.promotes() {
        (w + 10) * 81 + to
    } else {
        w * 81 + to
    }
}

/// Along a ray the way is the direction of the ray, as the mover sees it.
pub proof fn lemma_way_of_ray(c: int, from: int, d: int, k: int)
    requires
        0 <= c < 2,
        0 <= from < 81,
        0 <= d < 8,
        1 <= k <= 8,
        ray_on_board(from, d, k),
    ensures
        way(seen_square(c, from), seen_square(c, ray_square(from, d, k))) == crate::board::rel_dir(c, d),
{
    reveal(way);
}

/// A jump of a knight has the way 8 or 9.
pub proof fn lemma_way_of_jump(squares: Seq<u16>, from: int, j: int)
    requires
        0 <= from < 81,
        crate::board::valid_piece(squares[from]),
        squares[from] != 0,
        knight_attack(squares, from, j),
    ensures
        ({
            let c = crate::board::color_of(squares[from]);
            let w = way(seen_square(c, from), seen_square(c, knight_square(squares, from, j)));
            w == 8 || w == 9
        }),
{
    reveal(way);
}

/// A square is reached by one of the two jumps from one square only.
pub proof fn lemma_jump_source(f1: int, f2: int, to: int)
    requires
        0 <= f1 < 81,
        0 <= f2 < 81,
        0 <= to < 81,
        way(f1, to) == way(f2, to),
        way(f1, to) == 8 || way(f1, to) == 9,
    ensures
        f1 == f2,
{
    reveal(way);
}

/// Of two pieces that reach a square along the same direction, the farther
/// one finds the nearer one in its way: they are the same piece.
pub proof fn lemma_same_source(squares: Seq<u16>, to: int, d: int, f1: int, k1: int, f2: int, k2: int)
    requires
        0 <= f1 < 81,
        0 <= f2 < 81,
        squares[f1] != 0,
        squares[f2] != 0,
        ray_attack(squares, f1, d, k1),
        ray_attack(squares, f2, d, k2),
        to == ray_square(f1, d, k1),
        to == ray_square(f2, d, k2),
    ensures
        f1 == f2,
{
    if k1 < k2 {
        assert(ray_on_board(f2, d, k2 - k1));
        assert(f1 == ray_square(f2, d, k2 - k1));
        assert(squares[ray_square(f2, d, k2 - k1)] == 0);
    } else if k2 < k1 {
        assert(ray_on_board(f1, d, k1 - k2));
        assert(f2 == ray_square(f1, d, k1 - k2));
        assert(squares[ray_square(f1, d, k1 - k2)] == 0);
    }
}

/// Two moves with the same index below 2187 have the same target, are both
/// drops of one kind or both moves on the board, and then have the same way
/// and promote both or neither.
pub proof fn lemma_index_parts(c: int, m1: Move, m2: Move)
    requires
        0 <= c < 2,
        crate::sfen::presentable(m1),
        crate::sfen::presentable(m2),
        0 <= policy_index(c, m1) < 2187,
        policy_index(c, m1) == policy_index(c, m2),
    ensures
        m1.to_index() == m2.to_index(),
        (m1.from_index() == 82) == (m2.from_index() == 82),
        m1.from_index() == 82 ==> m1.kind() == m2.kind(),
        m1.from_index() != 82 ==> m1.promotes() == m2.promotes() && way(
            seen_square(c, m1.from_index()),
            seen_square(c, m1.to_index()),
        ) == way(seen_square(c, m2.from_index()), seen_square(c, m2.to_index())),
{
    lemma_way_range(seen_square(c, m1.from_index()), seen_square(c, m1.to_index()));
    lemma_way_range(seen_square(c, m2.from_index()), seen_square(c, m2.to_index()));
}

/// A way is a number from 0 to 10.
pub proof fn lemma_way_range(from: int, to: int)
    ensures
        0 <= way(from, to) <= 10,
{
    reveal(way);
}

/// Two pieces of a position that attack one square by the same way are the
/// same piece.
pub proof fn lemma_same_from(squares: Seq<u16>, c: int, f1: int, f2: int, to: int)
    requires
        0 <= c < 2,
        0 <= to < 81,
        attacks(squares, f1, to),
        attacks(squares, f2, to),
        crate::board::valid_piece(squares[f1]),
        crate::board::valid_piece(squares[f2]),
        crate::board::color_of(squares[f1]) == c,
        crate::board::color_of(squares[f2]) == c,
        way(seen_square(c, f1), seen_square(c, to)) == way(seen_square(c, f2), seen_square(c, to)),
    ensures
        f1 == f2,
{
    let w = way(seen_square(c, f1), seen_square(c, to));
    if w == 8 || w == 9 {
        lemma_jump_source(seen_square(c, f1), seen_square(c, f2), seen_square(c, to));
    } else if w == 10 {
        if exists|j: int| #[trigger] knight_attack(squares, f1, j) && to == knight_square(squares, f1, j) {
            let j = choose|j: int| #[trigger] knight_attack(squares, f1, j) && to == knight_square(squares, f1, j);
            lemma_way_of_jump(squares, f1, j);
        } else {
            let (d, k) = choose|d: int, k: int| #[trigger] ray_attack(squares, f1, d, k) && to == ray_square(f1, d, k);
            lemma_way_of_ray(c, f1, d, k);
        }
    } else {
        assert forall|j: int| !(#[trigger] knight_attack(squares, f1, j) && to == knight_square(squares, f1, j)) by {
            if knight_attack(squares, f1, j) && to == knight_square(squares, f1, j) {
                lemma_way_of_jump(squares, f1, j);
            }
        }
        assert forall|j: int| !(#[trigger] knight_attack(squares, f2, j) && to == knight_square(squares, f2, j)) by {
            if knight_attack(squares, f2, j) && to == knight_square(squares, f2, j) {
                lemma_way_of_jump(squares, f2, j);
            }
        }
        let (d1, k1) = choose|d: int, k: int| #[trigger] ray_attack(squares, f1, d, k) && to == ray_square(f1, d, k);
        let (d2, k2) = choose|d: int, k: int| #[trigger] ray_attack(squares, f2, d, k) && to == ray_square(f2, d, k);
        lemma_way_of_ray(c, f1, d1, k1);
        lemma_way_of_ray(c, f2, d2, k2);
        assert(d1 == d2);
        lemma_same_source(squares, to, d1, f1, k1, f2, k2);
    }
}

/// Within one position every legal move has an index of its own, below
/// 2187.
pub proof fn lemma_index_injective(b: Board, m1: Move, m2: Move)
    requires
        b.wf(),
        b.legal(m1),
        b.legal(m2),
        policy_index(b.side as int, m1) == policy_index(b.side as int, m2),
    ensures
        m1 == m2,
        0 <= policy_index(b.side as int, m1) < 2187,
{
    let c = b.side as int;
    lemma_index_in_range(b, m1);
    lemma_index_in_range(b, m2);
    lemma_index_parts(c, m1, m2);
    assert(m1.is_packed() && m2.is_packed());
    if m1.from_index() != 82 {
        assert(b.board_move_ok(m1) && b.board_move_ok(m2));
        lemma_same_from(b.squares, c, m1.from_index(), m2.from_index(), m1.to_index());
    }
    assert(m1.0 == m2.0);
}

/// The index of a legal move is below 2187.
pub proof fn lemma_index_in_range(b: Board, m: Move)
    requires
        b.wf(),
        b.legal(m),
    ensures
        0 <= policy_index(b.side as int, m) < 2187,
        crate::sfen::presentable(m),
{
    let c = b.side as int;
    if m.from_index() != 82 {
        let f = m.from_index();
        let to = m.to_index();
        assert(crate::board::valid_piece(b.squares[f]));
        if exists|j: int| #[trigger] knight_attack(b.squares, f, j) && to == knight_square(b.squares, f, j) {
            let j = choose|j: int| #[trigger] knight_attack(b.squares, f, j) && to == knight_square(
                b.squares,
                f,
                j,
            );
            lemma_way_of_jump(b.squares, f, j);
        } else {
            let (d, k) = choose|d: int, k: int| #[trigger]
                ray_attack(b.squares, f, d, k) && to == ray_square(f, d, k);
            lemma_way_of_ray(c, f, d, k);
        }
    }
}

/// Returns the index, from 0 to 2186, that `m` has among the moves of
/// `state`: no two legal moves of the state have the same. A value that is
/// no move of the board and no drop has the index 2187.
#[inline]
pub fn move_to_index(state: &State, m: &Move) -> (i: usize)
    requires
        state.wf(),
    ensures
        i == policy_index(state@.current().side as int, *m),
        i <= INDEX_COUNT,
{
    reveal(way);
    let c: u8 = state.get_side_to_move().0;
    let to_raw: u32 = m.0 % 128;
    let from_raw: u32 = m.0 / 128 % 128;
    let kind: u32 = m.0 / 128 / 128 / 2 % 16;
    let shown: bool = to_raw < 81 && (if from_raw == 82 {
        1 <= kind && kind <= 7
    } else {
        from_raw < 81
    });
    if !shown {
        return INDEX_COUNT;
    }
    let to: usize = if c == 0 {
        to_raw as usize
    } else {
        80 - to_raw as usize
    };
    if from_raw == 82 {
        return (19 + kind as usize) * 81 + to;
    }
    let from: usize = if c == 0 {
        from_raw as usize
    } else {
        80 - from_raw as usize
    };
    let df: i32 = (to / 9) as i32 - (from / 9) as i32;
    let dr: i32 = (to % 9) as i32 - (from % 9) as i32;
    let w: usize = if df == 0 && dr > 0 {
        0
    } else if df > 0 && dr == df {
        1
    } else if df > 0 && dr == 0 {
        2
    } else if df > 0 && dr == -df {
        3
    } else if df == 0 && dr < 0 {
        4
    } else if df < 0 && dr == df {
        5
    } else if df < 0 && dr == 0 {
        6
    } else if df < 0 && dr == -df {
        7
    } else if df == 1 && dr == 2 {
        8
    } else if df == -1 && dr == 2 {
        9
    } else {
        10
    };
    if w >= 10 {
        INDEX_COUNT
    } else if m.0 / 128 / 128 % 2 == 1 {
        (w + 10) * 81 + to
    } else {
        w * 81 + to
    }
}

/// The kind of piece that the `j`-th piece plane shows: pawn, lance,
/// knight, silver, gold, king, bishop, rook, then the promoted kinds.
pub open spec fn plane_kind(j: int) -> int {
    if j <= 3 {
        j + 1
    } else if j == 4 {
        7
    } else if j == 5 {
        8
    } else if j == 6 {
        5
    } else if j == 7 {
        6
    } else {
        j + 1
    }
}

/// The `j`-th piece plane of color `c` shows the piece `p`: planes 0 to 13
/// show one kind each, plane 14 bishops promoted or not, plane 15 rooks
/// promoted or not.
pub open spec fn shows(p: u16, c: int, j: int) -> bool {
    owned_by(p, c) && (if j == 14 {
        kind_of(p) == 5 || kind_of(p) == 13
    } else if j == 15 {
        kind_of(p) == 6 || kind_of(p) == 14
    } else {
        kind_of(p) == plane_kind(j)
    })
}

/// The kind that the `j`-th stand plane asks for: pawns for the first
/// nine, then four each of lances, knights, silvers and golds, then two of
/// bishops and two of rooks.
pub open spec fn stand_kind(j: int) -> int {
    if j < 9 {
        1
    } else if j < 13 {
        2
    } else if j < 17 {
        3
    } else if j < 21 {
        4
    } else if j < 25 {
        7
    } else if j < 27 {
        5
    } else {
        6
    }
}

/// The number that the `j`-th stand plane asks for.
pub open spec fn stand_count(j: int) -> int {
    if j < 9 {
        j + 1
    } else if j < 13 {
        j - 8
    } else if j < 17 {
        j - 12
    } else if j < 21 {
        j - 16
    } else if j < 25 {
        j - 20
    } else if j < 27 {
        j - 24
    } else {
        j - 26
    }
}

/// What the plane of kind `f` holds on the square `sq` where it holds
/// 0 or 1: whether it holds 1.
pub open spec fn cell_on(b: Board, f: int, sq: int) -> bool {
    let c = b.side as int;
    let o = 1 - c;
    if f == 0 {
        c == 0
    } else if f == 1 {
        c == 1
    } else if 2 <= f <= 17 {
        shows(b.squares[sq], c, f - 2)
    } else if 18 <= f <= 33 {
        shows(b.squares[sq], o, f - 18)
    } else if 34 <= f <= 62 {
        b.stand[8 * c + stand_kind(f - 34)] >= stand_count(f - 34)
    } else if 63 <= f <= 91 {
        b.stand[8 * o + stand_kind(f - 63)] >= stand_count(f - 63)
    } else if f == 92 {
        b.in_check(c)
    } else if f == 93 {
        !crate::board::pawn_on_file(b.squares, c, file_of(sq))
    } else if f == 94 {
        !crate::board::pawn_on_file(b.squares, o, file_of(sq))
    } else if f == 106 {
        crate::board::attacked_by(b.squares, sq, c)
    } else if f == 107 {
        crate::board::attacked_by(b.squares, sq, o)
    } else {
        false
    }
}

/// What a feature plane holds.
pub enum Plane {
    /// For each square, in code order, whether the plane holds 1 or 0 there.
    Cells(Vec<bool>),
    /// The plane holds the first number divided by the second on every
    /// square.
    Ratio(u32, u32),
    /// The plane holds the value that a draw has for the side to move.
    MyDraw,
    /// The plane holds the value that a draw has for the other side.
    OpDraw,
}

/// The plane of a kind holds one number on every square.
pub open spec fn is_ratio(f: int) -> bool {
    f == 95 || f == 96 || (102 <= f <= 105)
}

/// The numerator of the number that the plane of kind `f` holds.
pub open spec fn ratio_top(s: crate::state::StateView, f: int) -> int {
    let b = s.current();
    let c = b.side as int;
    if f == 95 {
        if s.ply() <= 0xffff_ffff {
            s.ply()
        } else {
            0xffff_ffff
        }
    } else if f == 96 {
        1
    } else if f == 102 {
        crate::position::zone_points(b.squares, c, 81) + crate::position::hand_points(b.stand, c)
    } else if f == 103 {
        crate::position::zone_points(b.squares, 1 - c, 81) + crate::position::hand_points(b.stand, 1 - c)
    } else if f == 104 {
        crate::position::board_points(b.squares, c, 81) + crate::position::hand_points(b.stand, c)
    } else {
        crate::position::board_points(b.squares, 1 - c, 81) + crate::position::hand_points(b.stand, 1 - c)
    }
}

/// The denominator of the number that the plane of kind `f` holds.
pub open spec fn ratio_bottom(s: crate::state::StateView, max_ply: u16, f: int) -> int {
    if f == 95 || f == 96 {
        max_ply as int
    } else if f == 102 || f == 103 {
        28 - s.current().side
    } else {
        54
    }
}

/// Whether the plane of kind `f` holds 1 on the square `sq`.
fn cell(state: &State, f: i32, sq: u8) -> (v: bool)
    requires
        state.wf(),
        sq < 81,
    ensures
        v == cell_on(state@.current(), f as int, sq as int),
{
    let pos: crate::position::Position = state.get_position();
    let c: u8 = pos.side();
    let o: u8 = 1 - c;
    if f == 0 {
        c == 0
    } else if f == 1 {
        c == 1
    } else if 2 <= f && f <= 33 {
        let (who, j): (u8, i32) = if f <= 17 {
            (c, f - 2)
        } else {
            (o, f - 18)
        };
        let p: u16 = pos.at(sq);
        let k: u16 = p % 16;
        let want: i32 = if j <= 3 {
            j + 1
        } else if j == 4 {
            7
        } else if j == 5 {
            8
        } else if j == 6 {
            5
        } else if j == 7 {
            6
        } else {
            j + 1
        };
        p != 0 && p / 16 == who as u16 && (if j == 14 {
            k == 5 || k == 13
        } else if j == 15 {
            k == 6 || k == 14
        } else {
            k as i32 == want
        })
    } else if 34 <= f && f <= 91 {
        let (who, j): (u8, i32) = if f <= 62 {
            (c, f - 34)
        } else {
            (o, f - 63)
        };
        let (kind, count): (u8, i32) = if j < 9 {
            (1, j + 1)
        } else if j < 13 {
            (2, j - 8)
        } else if j < 17 {
            (3, j - 12)
        } else if j < 21 {
            (4, j - 16)
        } else if j < 25 {
            (7, j - 20)
        } else if j < 27 {
            (5, j - 24)
        } else {
            (6, j - 26)
        };
        pos.held(who, kind) as i32 >= count
    } else if f == 92 {
        state.is_in_check()
    } else if f == 93 {
        !pos.has_pawn_on(c, sq / 9)
    } else if f == 94 {
        !pos.has_pawn_on(o, sq / 9)
    } else if f == 106 {
        pos.is_attacked_by(sq, c)
    } else if f == 107 {
        pos.is_attacked_by(sq, o)
    } else {
        false
    }
}

/// Returns what the plane of kind `feature` holds for `state`.
///
/// The planes of the progress of the game hold the number of moves played,
/// or 1, divided by `max_ply`; the planes of the scores hold what the pieces
/// of one side count, divided by 28 or 27 or by 54; the two planes of the
/// value of a draw are named only, since that value is no number of the
/// library; every other plane holds 0 or 1 on each square, and a kind that
/// is none of the 108 holds 0 everywhere.
pub fn feature_plane(state: &State, max_ply: u16, feature: FeatureType) -> (plane: Plane)
    requires
        state.wf(),
    ensures
        feature.0 == 100 <==> plane is MyDraw,
        feature.0 == 101 <==> plane is OpDraw,
        is_ratio(feature.0 as int) <==> plane is Ratio,
        plane matches Plane::Ratio(top, bottom) ==> top == ratio_top(state@, feature.0 as int) && bottom
            == ratio_bottom(state@, max_ply, feature.0 as int),
        plane matches Plane::Cells(cells) ==> cells@.len() == 81 && forall|sq: int|
            0 <= sq < 81 ==> #[trigger] cells@[sq] == cell_on(state@.current(), feature.0 as int, sq),
{
    let f: i32 = feature.0;
    let pos: crate::position::Position = state.get_position();
    let c: u8 = pos.side();
    if f == 100 {
        Plane::MyDraw
    } else if f == 101 {
        Plane::OpDraw
    } else if f == 95 {
        let n: usize = state.history_len();
        Plane::Ratio(
            if n > 0xffff_ffff {
                0xffff_ffff
            } else {
                n as u32
            },
            max_ply as u32,
        )
    } else if f == 96 {
        Plane::Ratio(1, max_ply as u32)
    } else if f == 102 {
        Plane::Ratio(pos.points(c, true), 28 - c as u32)
    } else if f == 103 {
        Plane::Ratio(pos.points(1 - c, true), 28 - c as u32)
    } else if f == 104 {
        Plane::Ratio(pos.points(c, false), 54)
    } else if f == 105 {
        Plane::Ratio(pos.points(1 - c, false), 54)
    } else {
        let mut cells: Vec<bool> = Vec::new();
        let mut sq: u8 = 0;
        while sq < 81
            invariant
                0 <= sq <= 81,
                state.wf(),
                cells@.len() == sq,
                forall|j: int| 0 <= j < sq ==> #[trigger] cells@[j] == cell_on(state@.current(), f as int, j),
            decreases 81 - sq,
        {
            cells.push(cell(state, f, sq));
            sq = sq + 1;
        }
        Plane::Cells(cells)
    }
}

} // verus!
