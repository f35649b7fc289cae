//! Sets of squares as bit masks, and the squares that a piece attacks as
//! such a set.
use crate::board::{
    dir_df_code, dir_dr_code, on_board, ray_on_board, ray_square, reach, reach_code, rel_dir, rel_dir_code,
    knight_file, knight_rank, square_at, KNIGHT,
};
use crate::types::{Color, PieceType, Square};
use vstd::prelude::*;

verus! {

/// Bit `i` of `x` is set.
pub open spec fn bit(x: u64, i: int) -> bool {
    0 <= i < 64 && (x >> (i as u64)) & 1 == 1
}

/// A bit of a union is set where it is set in one of the two.
pub proof fn lemma_bit_or(a: u64, b: u64, i: u64)
    requires
        i < 64,
    ensures
        bit(a | b, i as int) == (bit(a, i as int) || bit(b, i as int)),
{
    assert((((a | b) >> i) & 1 == 1) == ((a >> i) & 1 == 1 || (b >> i) & 1 == 1)) by (bit_vector)
        requires
            i < 64,
    ;
}

/// A bit of an intersection is set where it is set in both.
pub proof fn lemma_bit_and(a: u64, b: u64, i: u64)
    requires
        i < 64,
    ensures
        bit(a & b, i as int) == (bit(a, i as int) && bit(b, i as int)),
{
    assert((((a & b) >> i) & 1 == 1) == ((a >> i) & 1 == 1 && (b >> i) & 1 == 1)) by (bit_vector)
        requires
            i < 64,
    ;
}

/// A bit of a complement is set where it was not.
pub proof fn lemma_bit_not(a: u64, i: u64)
    requires
        i < 64,
    ensures
        bit(!a, i as int) == !bit(a, i as int),
{
    assert((((!a) >> i) & 1 == 1) == !((a >> i) & 1 == 1)) by (bit_vector)
        requires
            i < 64,
    ;
}

/// A word with one bit has that bit and no other.
pub proof fn lemma_bit_one(j: u64, i: u64)
    requires
        i < 64,
        j < 64,
    ensures
        bit(1u64 << j, i as int) == (i == j),
{
    assert((((1u64 << j) >> i) & 1 == 1) == (i == j)) by (bit_vector)
        requires
            i < 64,
            j < 64,
    ;
}

/// The word 0 has no bit.
pub proof fn lemma_bit_none(i: u64)
    requires
        i < 64,
    ensures
        !bit(0, i as int),
{
    assert(!(((0u64 >> i) & 1) == 1)) by (bit_vector)
        requires
            i < 64,
    ;
}

/// The mask of the upper word has its 17 lowest bits.
pub proof fn lemma_bit_low(i: u64)
    requires
        i < 64,
    ensures
        bit(0x1ffff, i as int) == (i < 17),
{
    assert((((0x1ffffu64 >> i) & 1) == 1) == (i < 17)) by (bit_vector)
        requires
            i < 64,
    ;
}

/// A set of squares of the board.
#[derive(Clone, Copy, Debug)]
pub struct Bitboard {
    lo: u64,
    hi: u64,
}

impl Bitboard {
    /// Only bits of squares are set.
    #[verifier::type_invariant]
    pub closed spec fn inv(self) -> bool {
        self.hi <= 0x1ffff
    }

    /// The square with the code `sq` is in the set.
    pub closed spec fn has(self, sq: int) -> bool {
        if sq < 64 {
            bit(self.lo, sq)
        } else {
            sq < 81 && bit(self.hi, sq - 64)
        }
    }

    /// Only squares of the board are in a set.
    pub proof fn lemma_on_board(self, sq: int)
        ensures
            self.has(sq) ==> 0 <= sq < 81,
    {
    }

    /// The empty set.
    pub fn empty() -> (b: Bitboard)
        ensures
            forall|sq: int| !#[trigger] b.has(sq),
    {
        proof {
            assert forall|i: int| 0 <= i < 64 implies !#[trigger] bit(0, i) by {
                lemma_bit_none(i as u64);
            }
        }
        Bitboard { lo: 0, hi: 0 }
    }

    /// The set of all the squares of the board.
    pub fn full() -> (b: Bitboard)
        ensures
            forall|sq: int| #[trigger] b.has(sq) == (0 <= sq < 81),
    {
        proof {
            assert forall|i: int| 0 <= i < 64 implies #[trigger] bit(0xffff_ffff_ffff_ffff, i) by {
                lemma_bit_not(0, i as u64);
                lemma_bit_none(i as u64);
                assert(!0u64 == 0xffff_ffff_ffff_ffffu64) by (bit_vector);
            }
            assert forall|i: int| 0 <= i < 64 implies #[trigger] bit(0x1ffff, i) == (i < 17) by {
                lemma_bit_low(i as u64);
            }
        }
        Bitboard { lo: 0xffff_ffff_ffff_ffff, hi: 0x1ffff }
    }

    /// The set of one square; the empty set for a square off the board.
    pub fn of_square(square: Square) -> (b: Bitboard)
        ensures
            forall|sq: int| #[trigger] b.has(sq) == (square.is_valid() && sq == square.0),
    {
        let s: i8 = square.0;
        if s < 0 || s >= 81 {
            return Self::empty();
        }
        if s < 64 {
            proof {
                assert forall|i: int| 0 <= i < 64 implies #[trigger] bit(1u64 << (s as u64), i) == (i == s) by {
                    lemma_bit_one(s as u64, i as u64);
                }
                assert forall|i: int| 0 <= i < 64 implies !#[trigger] bit(0, i) by {
                    lemma_bit_none(i as u64);
                }
            }
            Bitboard { lo: 1u64 << (s as u64), hi: 0 }
        } else {
            let j: u64 = (s - 64) as u64;
            proof {
                assert forall|i: int| 0 <= i < 64 implies #[trigger] bit(1u64 << j, i) == (i == j) by {
                    lemma_bit_one(j, i as u64);
                }
                assert forall|i: int| 0 <= i < 64 implies !#[trigger] bit(0, i) by {
                    lemma_bit_none(i as u64);
                }
                assert((1u64 << j) <= 0x1ffff) by (bit_vector)
                    requires
                        j < 17,
                ;
            }
            Bitboard { lo: 0, hi: 1u64 << j }
        }
    }

    /// Whether `square` is in the set.
    pub fn contains(&self, square: Square) -> (r: bool)
        ensures
            r == self.has(square.0 as int),
    {
        let s: i8 = square.0;
        if s < 0 || s >= 81 {
            false
        } else if s < 64 {
            (self.lo >> (s as u64)) & 1 == 1
        } else {
            (self.hi >> ((s - 64) as u64)) & 1 == 1
        }
    }

    /// The squares that are in this set or in `other`.
    pub fn union(&self, other: &Bitboard) -> (b: Bitboard)
        ensures
            forall|sq: int| #[trigger] b.has(sq) == (self.has(sq) || other.has(sq)),
    {
        proof {
            use_type_invariant(self);
            use_type_invariant(other);
            assert forall|i: int| 0 <= i < 64 implies #[trigger] bit(self.lo | other.lo, i) == (bit(self.lo, i)
                || bit(other.lo, i)) by {
                lemma_bit_or(self.lo, other.lo, i as u64);
            }
            assert forall|i: int| 0 <= i < 64 implies #[trigger] bit(self.hi | other.hi, i) == (bit(self.hi, i)
                || bit(other.hi, i)) by {
                lemma_bit_or(self.hi, other.hi, i as u64);
            }
            let a = self.hi;
            let c = other.hi;
            assert((a | c) <= 0x1ffff) by (bit_vector)
                requires
                    a <= 0x1ffff,
                    c <= 0x1ffff,
            ;
        }
        Bitboard { lo: self.lo | other.lo, hi: self.hi | other.hi }
    }

    /// The squares that are in this set and in `other`.
    pub fn intersection(&self, other: &Bitboard) -> (b: Bitboard)
        ensures
            forall|sq: int| #[trigger] b.has(sq) == (self.has(sq) && other.has(sq)),
    {
        proof {
            use_type_invariant(self);
            assert forall|i: int| 0 <= i < 64 implies #[trigger] bit(self.lo & other.lo, i) == (bit(self.lo, i)
                && bit(other.lo, i)) by {
                lemma_bit_and(self.lo, other.lo, i as u64);
            }
            assert forall|i: int| 0 <= i < 64 implies #[trigger] bit(self.hi & other.hi, i) == (bit(self.hi, i)
                && bit(other.hi, i)) by {
                lemma_bit_and(self.hi, other.hi, i as u64);
            }
            let a = self.hi;
            let c = other.hi;
            assert((a & c) <= 0x1ffff) by (bit_vector)
                requires
                    a <= 0x1ffff,
            ;
        }
        Bitboard { lo: self.lo & other.lo, hi: self.hi & other.hi }
    }

    /// The squares of the board that are not in this set.
    pub fn complement(&self) -> (b: Bitboard)
        ensures
            forall|sq: int| #[trigger] b.has(sq) == (0 <= sq < 81 && !self.has(sq)),
    {
        proof {
            assert forall|i: int| 0 <= i < 64 implies #[trigger] bit(!self.lo, i) == !bit(self.lo, i) by {
                lemma_bit_not(self.lo, i as u64);
            }
            assert forall|i: int| 0 <= i < 64 implies #[trigger] bit((!self.hi) & 0x1ffff, i) == (!bit(
                self.hi,
                i,
            ) && i < 17) by {
                lemma_bit_not(self.hi, i as u64);
                lemma_bit_and(!self.hi, 0x1ffff, i as u64);
                lemma_bit_low(i as u64);
            }
            let a = self.hi;
            assert(((!a) & 0x1ffff) <= 0x1ffff) by (bit_vector);
        }
        Bitboard { lo: !self.lo, hi: (!self.hi) & 0x1ffff }
    }

    /// Whether no square is in the set.
    pub fn is_empty(&self) -> (r: bool)
        ensures
            r == forall|sq: int| !#[trigger] self.has(sq),
    {
        proof {
            use_type_invariant(self);
            if self.lo == 0 && self.hi == 0 {
                assert forall|i: int| 0 <= i < 64 implies !#[trigger] bit(0, i) by {
                    lemma_bit_none(i as u64);
                }
            } else if self.lo != 0 {
                vstd::std_specs::bits::axiom_u64_trailing_zeros(self.lo);
                let t = vstd::std_specs::bits::u64_trailing_zeros(self.lo);
                assert(self.has(t as int));
            } else {
                vstd::std_specs::bits::axiom_u64_trailing_zeros(self.hi);
                let t = vstd::std_specs::bits::u64_trailing_zeros(self.hi);
                assert(bit(self.hi, t as int));
                assert forall|i: int| 17 <= i < 64 implies !#[trigger] bit(self.hi, i) by {
                    let a = self.hi;
                    let j = i as u64;
                    assert(!(((a >> j) & 1) == 1)) by (bit_vector)
                        requires
                            a <= 0x1ffff,
                            17 <= j < 64,
                    ;
                }
                assert(self.has(64 + t));
            }
        }
        self.lo == 0 && self.hi == 0
    }

    /// The square of the set with the least code; `SQ_INVALID` for the
    /// empty set.
    pub fn first(&self) -> (s: Square)
        ensures
            s.0 == 82 ==> forall|sq: int| !#[trigger] self.has(sq),
            s.0 != 82 ==> self.has(s.0 as int) && forall|sq: int| sq < s.0 ==> !#[trigger] self.has(sq),
    {
        proof {
            use_type_invariant(self);
            vstd::std_specs::bits::axiom_u64_trailing_zeros(self.lo);
            vstd::std_specs::bits::axiom_u64_trailing_zeros(self.hi);
        }
        if self.lo != 0 {
            let t: u32 = self.lo.trailing_zeros();
            proof {
                assert forall|sq: int| sq < t implies !#[trigger] self.has(sq) by {
                    if 0 <= sq {
                        assert((self.lo >> (sq as u64)) & 1 == 0);
                    }
                }
            }
            Square(t as i8)
        } else if self.hi != 0 {
            let t: u32 = self.hi.trailing_zeros();
            proof {
                let a = self.hi;
                assert forall|i: int| 17 <= i < 64 implies !#[trigger] bit(self.hi, i) by {
                    let j = i as u64;
                    assert(!(((a >> j) & 1) == 1)) by (bit_vector)
                        requires
                            a <= 0x1ffff,
                            17 <= j < 64,
                    ;
                }
                assert(bit(self.hi, t as int));
                assert(t < 17);
                assert forall|sq: int| sq < 64 + t implies !#[trigger] self.has(sq) by {
                    if 0 <= sq < 64 {
                        lemma_bit_none(sq as u64);
                    } else if 64 <= sq {
                        assert((self.hi >> ((sq - 64) as u64)) & 1 == 0);
                    }
                }
            }
            Square((64 + t) as i8)
        } else {
            proof {
                assert forall|i: int| 0 <= i < 64 implies !#[trigger] bit(0, i) by {
                    lemma_bit_none(i as u64);
                }
            }
            Square(82)
        }
    }

    /// The set with the square `sq` added.
    pub fn with(&self, sq: u8) -> (b: Bitboard)
        requires
            sq < 81,
        ensures
            forall|x: int| #[trigger] b.has(x) == (self.has(x) || x == sq),
    {
        let one: Bitboard = Self::of_square(Square(sq as i8));
        self.union(&one)
    }
}

/// A piece of kind `kind` and color `c` on `from` reaches the square `k`
/// steps along `d`, no square between being in `occ`.
pub open spec fn reaches(kind: int, c: int, from: int, occ: Bitboard, d: int, k: int) -> bool {
    &&& 0 <= d < 8
    &&& 1 <= k <= 8
    &&& ray_on_board(from, d, k)
    &&& forall|j: int| 1 <= j < k ==> !occ.has(#[trigger] ray_square(from, d, j))
    &&& {
        let r = reach(kind, rel_dir(c, d));
        r == 2 || (r == 1 && k == 1)
    }
}

/// A knight of color `c` on `from` has its `j`-th jump on the board.
pub open spec fn jumps(kind: int, c: int, from: int, j: int) -> bool {
    0 <= j < 2 && kind == KNIGHT && on_board(knight_file(from, j), knight_rank(from, c))
}

/// The target of the `j`-th jump of a knight of color `c` on `from`.
pub open spec fn jump_square(c: int, from: int, j: int) -> int {
    square_at(knight_file(from, j), knight_rank(from, c))
}

/// `to` lies on the ray `d` of the piece, within its reach.
pub open spec fn reached_along(kind: int, c: int, from: int, occ: Bitboard, d: int, to: int) -> bool {
    exists|k: int| #[trigger] reaches(kind, c, from, occ, d, k) && to == ray_square(from, d, k)
}

/// `to` is one of the first `k - 1` squares of the ray `d` of the piece.
pub open spec fn reached_before(kind: int, c: int, from: int, occ: Bitboard, d: int, to: int, k: int) -> bool {
    exists|j: int| j < k && #[trigger] reaches(kind, c, from, occ, d, j) && to == ray_square(from, d, j)
}

/// `to` lies on one of the first `d` rays of the piece, within its reach.
pub open spec fn reached_upto(kind: int, c: int, from: int, occ: Bitboard, d: int, to: int) -> bool {
    exists|e: int| 0 <= e < d && #[trigger] reached_along(kind, c, from, occ, e, to)
}

/// `to` is the target of a jump of the piece.
pub open spec fn jumped_to(kind: int, c: int, from: int, to: int) -> bool {
    exists|j: int| #[trigger] jumps(kind, c, from, j) && to == jump_square(c, from, j)
}

/// A piece of kind `kind` and color `c` on `from` attacks `to` where the
/// squares of `occ` are occupied: `to` lies on a ray within its reach, or is
/// the target of a jump.
pub open spec fn attacked_from(kind: int, c: int, from: int, occ: Bitboard, to: int) -> bool {
    reached_upto(kind, c, from, occ, 8, to) || jumped_to(kind, c, from, to)
}

/// The squares that a piece of kind `kind` and color `c` on `from` attacks
/// along the ray `d`, added to `seen`.
fn add_ray(seen: Bitboard, kind: u8, c: u8, from: u8, d: u8, occupied: &Bitboard) -> (b: Bitboard)
    requires
        c < 2,
        from < 81,
        d < 8,
    ensures
        forall|to: int|
            #[trigger] b.has(to) == (seen.has(to) || reached_along(
                kind as int,
                c as int,
                from as int,
                *occupied,
                d as int,
                to,
            )),
{
    let ghost occ = *occupied;
    let r: u8 = reach_code(kind, rel_dir_code(c, d));
    let mut b: Bitboard = seen;
    if r == 0 {
        return b;
    }
    let df: i8 = dir_df_code(d);
    let dr: i8 = dir_dr_code(d);
    let mut f: i8 = (from / 9) as i8;
    let mut rk: i8 = (from % 9) as i8;
    let mut k: u8 = 1;
    let mut open: bool = true;
    while open && k <= 8
        invariant
            c < 2,
            from < 81,
            d < 8,
            1 <= k <= 9,
            r == reach(kind as int, rel_dir(c as int, d as int)),
            r == 1 || r == 2,
            open && r == 1 ==> k == 1,
            df == crate::board::dir_df(d as int),
            dr == crate::board::dir_dr(d as int),
            f == crate::board::ray_file(from as int, d as int, k - 1),
            rk == crate::board::ray_rank(from as int, d as int, k - 1),
            on_board(f as int, rk as int),
            occ == *occupied,
            open ==> forall|j: int| 1 <= j < k ==> !occ.has(#[trigger] ray_square(from as int, d as int, j)),
            !open ==> forall|j: int| j >= k ==> !#[trigger] reaches(
                kind as int,
                c as int,
                from as int,
                occ,
                d as int,
                j,
            ),
            forall|to: int|
                #[trigger] b.has(to) == (seen.has(to) || reached_before(
                    kind as int,
                    c as int,
                    from as int,
                    occ,
                    d as int,
                    to,
                    k as int,
                )),
        decreases (if open {
            1int
        } else {
            0int
        }), 9 - k,
    {
        let nf: i8 = f + df;
        let nr: i8 = rk + dr;
        if nf < 0 || nf >= 9 || nr < 0 || nr >= 9 {
            proof {
                assert(!ray_on_board(from as int, d as int, k as int));
                assert forall|j: int| j >= k implies !#[trigger] reaches(
                    kind as int,
                    c as int,
                    from as int,
                    occ,
                    d as int,
                    j,
                ) by {
                    if reaches(kind as int, c as int, from as int, occ, d as int, j) {
                        assert(ray_on_board(from as int, d as int, j));
                    }
                }
            }
            open = false;
        } else {
            f = nf;
            rk = nr;
            let sq: u8 = (f as u8) * 9 + (rk as u8);
            assert(sq == ray_square(from as int, d as int, k as int));
            assert(ray_on_board(from as int, d as int, k as int));
            assert(reaches(kind as int, c as int, from as int, occ, d as int, k as int));
            let ghost before = b;
            b = b.with(sq);
            let stop: bool = r == 1 || occupied.contains(Square(sq as i8));
            proof {
                assert forall|to: int|
                    #[trigger] b.has(to) == (seen.has(to) || reached_before(
                        kind as int,
                        c as int,
                        from as int,
                        occ,
                        d as int,
                        to,
                        k + 1,
                    )) by {
                    if reached_before(kind as int, c as int, from as int, occ, d as int, to, k + 1) {
                        let j = choose|j: int|
                            j < k + 1 && #[trigger] reaches(kind as int, c as int, from as int, occ, d as int, j)
                                && to == ray_square(from as int, d as int, j);
                        if j < k {
                            assert(reached_before(kind as int, c as int, from as int, occ, d as int, to, k as int));
                        }
                    }
                    if reached_before(kind as int, c as int, from as int, occ, d as int, to, k as int) {
                        let j = choose|j: int|
                            j < k && #[trigger] reaches(kind as int, c as int, from as int, occ, d as int, j) && to
                                == ray_square(from as int, d as int, j);
                        assert(j < k + 1);
                    }
                    if to == sq {
                        assert(reached_before(kind as int, c as int, from as int, occ, d as int, to, k + 1));
                    }
                }
                if stop {
                    assert forall|j: int| j >= k + 1 implies !#[trigger] reaches(
                        kind as int,
                        c as int,
                        from as int,
                        occ,
                        d as int,
                        j,
                    ) by {
                        if reaches(kind as int, c as int, from as int, occ, d as int, j) {
                            if r != 1 {
                                assert(occ.has(ray_square(from as int, d as int, k as int)));
                            }
                        }
                    }
                }
            }
            if stop {
                open = false;
            }
            k = k + 1;
        }
    }
    proof {
        assert forall|to: int|
            reached_along(kind as int, c as int, from as int, occ, d as int, to) <==> reached_before(
                kind as int,
                c as int,
                from as int,
                occ,
                d as int,
                to,
                k as int,
            ) by {
            if reached_along(kind as int, c as int, from as int, occ, d as int, to) {
                let j = choose|j: int| #[trigger]
                    reaches(kind as int, c as int, from as int, occ, d as int, j) && to == ray_square(
                        from as int,
                        d as int,
                        j,
                    );
                assert(j < k);
            }
            if reached_before(kind as int, c as int, from as int, occ, d as int, to, k as int) {
                let j = choose|j: int|
                    j < k && #[trigger] reaches(kind as int, c as int, from as int, occ, d as int, j) && to
                        == ray_square(from as int, d as int, j);
            }
        }
    }
    b
}

/// The squares that a piece of kind `piece_type` and color `color` on
/// `square` attacks where the squares of `occupied` are occupied: the empty
/// set where the color is no player or the square is off the board.
///
/// A piece that slides attacks along its rays up to the first occupied
/// square, that square included.
pub fn attacks_of(piece_type: PieceType, color: Color, square: Square, occupied: &Bitboard) -> (b: Bitboard)
    ensures
        color.is_player() && square.is_valid() ==> forall|to: int|
            #[trigger] b.has(to) == attacked_from(
                piece_type.0 as int,
                color.0 as int,
                square.0 as int,
                *occupied,
                to,
            ),
        !(color.is_player() && square.is_valid()) ==> forall|to: int| !#[trigger] b.has(to),
{
    let mut b: Bitboard = Bitboard::empty();
    if color.0 >= 2 || square.0 < 0 || square.0 >= 81 {
        return b;
    }
    let kind: u8 = piece_type.0;
    let c: u8 = color.0;
    let from: u8 = square.0 as u8;
    let ghost occ = *occupied;
    let mut d: u8 = 0;
    proof {
        assert forall|to: int| !reached_upto(kind as int, c as int, from as int, occ, 0, to) by {}
    }
    while d < 8
        invariant
            0 <= d <= 8,
            c < 2,
            from < 81,
            occ == *occupied,
            forall|to: int|
                #[trigger] b.has(to) == reached_upto(kind as int, c as int, from as int, occ, d as int, to),
        decreases 8 - d,
    {
        let ghost before = b;
        b = add_ray(b, kind, c, from, d, occupied);
        proof {
            assert forall|to: int|
                #[trigger] b.has(to) == reached_upto(kind as int, c as int, from as int, occ, d + 1, to) by {
                if reached_upto(kind as int, c as int, from as int, occ, d + 1, to) {
                    let e = choose|e: int|
                        0 <= e < d + 1 && #[trigger] reached_along(kind as int, c as int, from as int, occ, e, to);
                    if e < d {
                        assert(reached_upto(kind as int, c as int, from as int, occ, d as int, to));
                    }
                }
                if reached_upto(kind as int, c as int, from as int, occ, d as int, to) {
                    let e = choose|e: int|
                        0 <= e < d && #[trigger] reached_along(kind as int, c as int, from as int, occ, e, to);
                    assert(0 <= e < d + 1);
                }
                if reached_along(kind as int, c as int, from as int, occ, d as int, to) {
                    assert(reached_upto(kind as int, c as int, from as int, occ, d + 1, to));
                }
            }
        }
        d = d + 1;
    }
    if kind == KNIGHT {
        let f: i8 = (from / 9) as i8;
        let r: i8 = (from % 9) as i8;
        let nr: i8 = if c == 0 {
            r + 2
        } else {
            r - 2
        };
        let ghost rays = b;
        if 0 <= nr && nr < 9 {
            if f < 8 {
                b = b.with(((f + 1) as u8) * 9 + (nr as u8));
            }
            if f >= 1 {
                b = b.with(((f - 1) as u8) * 9 + (nr as u8));
            }
        }
        proof {
            assert forall|to: int|
                #[trigger] b.has(to) == (rays.has(to) || jumped_to(kind as int, c as int, from as int, to)) by {
                if jumped_to(kind as int, c as int, from as int, to) {
                    let j = choose|j: int| #[trigger]
                        jumps(kind as int, c as int, from as int, j) && to == jump_square(c as int, from as int, j);
                    assert(j == 0 || j == 1);
                }
                if 0 <= nr && nr < 9 && f < 8 && to == (f + 1) * 9 + nr {
                    assert(jumps(kind as int, c as int, from as int, 0));
                }
                if 0 <= nr && nr < 9 && f >= 1 && to == (f - 1) * 9 + nr {
                    assert(jumps(kind as int, c as int, from as int, 1));
                }
            }
        }
    } else {
        proof {
            assert forall|to: int| !jumped_to(kind as int, c as int, from as int, to) by {}
        }
    }
    b
}

/// Where the set `occ` holds the occupied squares of a board, the piece on
/// `from` attacks on the board what its kind attacks from there by the set.
pub proof fn lemma_attacks_by_set(squares: Seq<u16>, occ: Bitboard, from: int, to: int)
    requires
        squares.len() == 81,
        0 <= from < 81,
        squares[from] != 0,
        forall|sq: int| 0 <= sq < 81 ==> #[trigger] occ.has(sq) == (squares[sq] != 0),
    ensures
        crate::board::attacks(squares, from, to) == attacked_from(
            crate::board::kind_of(squares[from]),
            crate::board::color_of(squares[from]),
            from,
            occ,
            to,
        ),
{
    let kind = crate::board::kind_of(squares[from]);
    let c = crate::board::color_of(squares[from]);
    assert forall|d: int, k: int|
        #[trigger] crate::board::ray_attack(squares, from, d, k) == reaches(kind, c, from, occ, d, k) by {
        if 0 <= d < 8 && 1 <= k <= 8 && ray_on_board(from, d, k) {
            if crate::board::ray_clear(squares, from, d, k) {
                assert forall|j: int| 1 <= j < k implies !occ.has(#[trigger] ray_square(from, d, j)) by {
                    assert(ray_on_board(from, d, j));
                }
            }
            if forall|j: int| 1 <= j < k ==> !occ.has(#[trigger] ray_square(from, d, j)) {
                assert forall|j: int| 1 <= j < k implies squares[#[trigger] ray_square(from, d, j)] == 0 by {
                    assert(ray_on_board(from, d, j));
                    assert(!occ.has(ray_square(from, d, j)));
                }
            }
        }
    }
    if crate::board::attacks(squares, from, to) {
        if exists|j: int| #[trigger]
            crate::board::knight_attack(squares, from, j) && to == crate::board::knight_square(squares, from, j) {
            let j = choose|j: int| #[trigger]
                crate::board::knight_attack(squares, from, j) && to == crate::board::knight_square(
                    squares,
                    from,
                    j,
                );
            assert(jumps(kind, c, from, j));
        } else {
            let (d, k) = choose|d: int, k: int| #[trigger]
                crate::board::ray_attack(squares, from, d, k) && to == ray_square(from, d, k);
            assert(reaches(kind, c, from, occ, d, k));
            assert(reached_along(kind, c, from, occ, d, to));
        }
    }
    if attacked_from(kind, c, from, occ, to) {
        if jumped_to(kind, c, from, to) {
            let j = choose|j: int| #[trigger] jumps(kind, c, from, j) && to == jump_square(c, from, j);
            assert(crate::board::knight_attack(squares, from, j));
        } else {
            let e = choose|e: int| 0 <= e < 8 && #[trigger] reached_along(kind, c, from, occ, e, to);
            let k = choose|k: int| #[trigger] reaches(kind, c, from, occ, e, k) && to == ray_square(from, e, k);
            assert(crate::board::ray_attack(squares, from, e, k));
        }
    }
}

} // verus!
