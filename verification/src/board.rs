//! The board: its geometry, the codes of pieces, how each kind moves.
use vstd::prelude::*;

verus! {

/// The code of no piece. The codes of the kinds follow.
pub const EMPTY: u8 = 0;

/// Pawn.
pub const PAWN: u8 = 1;

/// Lance.
pub const LANCE: u8 = 2;

/// Knight.
pub const KNIGHT: u8 = 3;

/// Silver.
pub const SILVER: u8 = 4;

/// Bishop.
pub const BISHOP: u8 = 5;

/// Rook.
pub const ROOK: u8 = 6;

/// Gold.
pub const GOLD: u8 = 7;

/// King.
pub const KING: u8 = 8;

/// Promoted pawn.
pub const PRO_PAWN: u8 = 9;

/// Promoted lance.
pub const PRO_LANCE: u8 = 10;

/// Promoted knight.
pub const PRO_KNIGHT: u8 = 11;

/// Promoted silver.
pub const PRO_SILVER: u8 = 12;

/// Promoted bishop.
pub const PRO_BISHOP: u8 = 13;

/// Promoted rook.
pub const PRO_ROOK: u8 = 14;

/// The code of the color that moves first.
pub const BLACK: u8 = 0;

/// The code of the other color.
pub const WHITE: u8 = 1;

/// File of a square, 0 for file 1.
pub open spec fn file_of(sq: int) -> int {
    sq / 9
}

/// Rank of a square, 0 for rank `i` and 8 for rank `a`: black advances
/// towards higher ranks.
pub open spec fn rank_of(sq: int) -> int {
    sq % 9
}

/// The code of the square on file `f` and rank `r`.
pub open spec fn square_at(f: int, r: int) -> int {
    f * 9 + r
}

/// The file and the rank are those of a square.
pub open spec fn on_board(f: int, r: int) -> bool {
    0 <= f < 9 && 0 <= r < 9
}

/// The kind of a piece.
pub open spec fn kind_of(p: u16) -> int {
    (p % 16) as int
}

/// The color of a piece.
pub open spec fn color_of(p: u16) -> int {
    (p / 16) as int
}

/// The piece of color `c` and kind `k`.
pub open spec fn piece_of(c: int, k: int) -> int {
    c * 16 + k
}

/// The code is that of no piece or of a piece.
pub open spec fn valid_piece(p: u16) -> bool {
    p == 0 || (1 <= p % 16 <= 14 && p / 16 <= 1)
}

/// A piece of color `c` stands there.
pub open spec fn owned_by(p: u16, c: int) -> bool {
    p != 0 && color_of(p) == c
}

/// The kind a piece has on the stand: promotion is undone.
pub open spec fn base_kind(k: int) -> int {
    if k > 8 {
        k - 8
    } else {
        k
    }
}

/// A piece of kind `k` can promote.
pub open spec fn promotable(k: int) -> bool {
    1 <= k <= 6
}

/// Change of file along direction `d`. The eight directions are numbered
/// clockwise as black sees them, 0 being straight ahead.
pub open spec fn dir_df(d: int) -> int {
    if d == 1 || d == 2 || d == 3 {
        1
    } else if d == 5 || d == 6 || d == 7 {
        -1
    } else {
        0
    }
}

/// Change of rank along direction `d`.
pub open spec fn dir_dr(d: int) -> int {
    if d == 7 || d == 0 || d == 1 {
        1
    } else if d == 3 || d == 4 || d == 5 {
        -1
    } else {
        0
    }
}

/// `k` steps of a unit `u` in {-1, 0, 1}.
pub open spec fn scaled(u: int, k: int) -> int {
    if u == 1 {
        k
    } else if u == -1 {
        -k
    } else {
        0
    }
}

/// The file `k` steps from `sq` along `d`.
pub open spec fn ray_file(sq: int, d: int, k: int) -> int {
    file_of(sq) + scaled(dir_df(d), k)
}

/// The rank `k` steps from `sq` along `d`.
pub open spec fn ray_rank(sq: int, d: int, k: int) -> int {
    rank_of(sq) + scaled(dir_dr(d), k)
}

/// The square `k` steps from `sq` along `d`.
pub open spec fn ray_square(sq: int, d: int, k: int) -> int {
    square_at(ray_file(sq, d, k), ray_rank(sq, d, k))
}

/// The square `k` steps from `sq` along `d` is on the board.
pub open spec fn ray_on_board(sq: int, d: int, k: int) -> bool {
    on_board(ray_file(sq, d, k), ray_rank(sq, d, k))
}

/// The squares strictly between `sq` and the one `k` steps along `d` are empty.
pub open spec fn ray_clear(squares: Seq<u16>, sq: int, d: int, k: int) -> bool {
    forall|j: int| 1 <= j < k ==> squares[#[trigger] ray_square(sq, d, j)] == 0
}

/// Direction `d` as a player of color `c` sees it: white sees the board
/// turned by half a turn.
pub open spec fn rel_dir(c: int, d: int) -> int {
    if c == 0 {
        d
    } else {
        (d + 4) % 8
    }
}

/// How far a piece of kind `k` goes along a direction given as its owner
/// sees it: 0 not at all, 1 one step, 2 any number of steps.
pub open spec fn reach(k: int, rd: int) -> int {
    if k == PAWN {
        if rd == 0 {
            1
        } else {
            0
        }
    } else if k == LANCE {
        if rd == 0 {
            2
        } else {
            0
        }
    } else if k == SILVER {
        if rd == 0 || rd == 1 || rd == 7 || rd == 3 || rd == 5 {
            1
        } else {
            0
        }
    } else if k == GOLD || (PRO_PAWN <= k <= PRO_SILVER) {
        if rd == 3 || rd == 5 {
            0
        } else {
            1
        }
    } else if k == BISHOP {
        if rd % 2 == 1 {
            2
        } else {
            0
        }
    } else if k == ROOK {
        if rd % 2 == 0 {
            2
        } else {
            0
        }
    } else if k == KING {
        1
    } else if k == PRO_BISHOP {
        if rd % 2 == 1 {
            2
        } else {
            1
        }
    } else if k == PRO_ROOK {
        if rd % 2 == 0 {
            2
        } else {
            1
        }
    } else {
        0
    }
}

/// The piece on `from` reaches the square `k` steps along `d`: the square is
/// on the board, the way to it is free, and the piece goes that far.
pub open spec fn ray_attack(squares: Seq<u16>, from: int, d: int, k: int) -> bool {
    &&& 0 <= d < 8
    &&& 1 <= k <= 8
    &&& ray_on_board(from, d, k)
    &&& ray_clear(squares, from, d, k)
    &&& {
        let r = reach(kind_of(squares[from]), rel_dir(color_of(squares[from]), d));
        r == 2 || (r == 1 && k == 1)
    }
}

/// The file of the `j`-th target of a knight on `from`.
pub open spec fn knight_file(from: int, j: int) -> int {
    if j == 0 {
        file_of(from) + 1
    } else {
        file_of(from) - 1
    }
}

/// The rank of the targets of a knight of color `c` on `from`: two ranks ahead.
pub open spec fn knight_rank(from: int, c: int) -> int {
    if c == 0 {
        rank_of(from) + 2
    } else {
        rank_of(from) - 2
    }
}

/// The knight on `from` jumps to its `j`-th target (`j` is 0 or 1).
pub open spec fn knight_attack(squares: Seq<u16>, from: int, j: int) -> bool {
    &&& 0 <= j < 2
    &&& kind_of(squares[from]) == KNIGHT
    &&& on_board(knight_file(from, j), knight_rank(from, color_of(squares[from])))
}

/// The `j`-th target of the knight on `from`.
pub open spec fn knight_square(squares: Seq<u16>, from: int, j: int) -> int {
    square_at(knight_file(from, j), knight_rank(from, color_of(squares[from])))
}

/// The piece on `from` attacks `to`: it could move there if the square
/// held nothing of its own color.
pub open spec fn attacks(squares: Seq<u16>, from: int, to: int) -> bool {
    &&& 0 <= from < 81
    &&& squares[from] != 0
    &&& {
        ||| exists|d: int, k: int| #[trigger] ray_attack(squares, from, d, k) && to == ray_square(from, d, k)
        ||| exists|j: int| #[trigger] knight_attack(squares, from, j) && to == knight_square(squares, from, j)
    }
}

/// Some piece of color `c` attacks `sq`.
pub open spec fn attacked_by(squares: Seq<u16>, sq: int, c: int) -> bool {
    exists|from: int| #[trigger] attacks(squares, from, sq) && owned_by(squares[from], c)
}

/// The promotion zone of color `c`: the three ranks farthest from its side.
pub open spec fn in_zone(c: int, sq: int) -> bool {
    if c == 0 {
        rank_of(sq) >= 6
    } else {
        rank_of(sq) <= 2
    }
}

/// Rank of `sq` counted from the back rank of color `c`.
pub open spec fn rel_rank(c: int, sq: int) -> int {
    if c == 0 {
        rank_of(sq)
    } else {
        8 - rank_of(sq)
    }
}

/// An unpromoted piece of kind `k` could never move again from `sq`.
pub open spec fn dead_end(c: int, k: int, sq: int) -> bool {
    ((k == PAWN || k == LANCE) && rel_rank(c, sq) == 8) || (k == KNIGHT && rel_rank(c, sq) >= 7)
}

/// An unpromoted pawn of color `c` stands on file `f`.
pub open spec fn pawn_on_file(squares: Seq<u16>, c: int, f: int) -> bool {
    exists|r: int| 0 <= r < 9 && squares[#[trigger] square_at(f, r)] == piece_of(c, PAWN as int)
}

/// The kind of a piece.
pub(crate) fn kind_code(p: u16) -> (k: u8)
    ensures
        k == kind_of(p),
        k < 16,
{
    (p % 16) as u8
}

/// The color of a piece.
pub(crate) fn color_code(p: u16) -> (c: u8)
    requires
        valid_piece(p),
    ensures
        c == color_of(p),
        c < 2,
{
    (p / 16) as u8
}

/// The piece of color `c` and kind `k`.
pub(crate) fn piece_code(c: u8, k: u8) -> (p: u16)
    requires
        c < 2,
        1 <= k <= 14,
    ensures
        p == piece_of(c as int, k as int),
        valid_piece(p),
        kind_of(p) == k,
        color_of(p) == c,
        p != 0,
{
    c as u16 * 16 + k as u16
}

/// The kind a piece has on the stand.
pub(crate) fn base_kind_code(k: u8) -> (b: u8)
    requires
        k <= 14,
    ensures
        b == base_kind(k as int),
        k != 0 ==> 1 <= b <= 8,
{
    if k > 8 {
        k - 8
    } else {
        k
    }
}

/// Direction `d` as a player of color `c` sees it.
pub(crate) fn rel_dir_code(c: u8, d: u8) -> (rd: u8)
    requires
        c < 2,
        d < 8,
    ensures
        rd == rel_dir(c as int, d as int),
        rd < 8,
{
    if c == 0 {
        d
    } else {
        (d + 4) % 8
    }
}

/// How far a piece of kind `k` goes along a direction.
pub(crate) fn reach_code(k: u8, rd: u8) -> (r: u8)
    requires
        rd < 8,
    ensures
        r == reach(k as int, rd as int),
        r <= 2,
{
    if k == PAWN {
        if rd == 0 {
            1
        } else {
            0
        }
    } else if k == LANCE {
        if rd == 0 {
            2
        } else {
            0
        }
    } else if k == SILVER {
        if rd == 0 || rd == 1 || rd == 7 || rd == 3 || rd == 5 {
            1
        } else {
            0
        }
    } else if k == GOLD || (PRO_PAWN <= k && k <= PRO_SILVER) {
        if rd == 3 || rd == 5 {
            0
        } else {
            1
        }
    } else if k == BISHOP {
        if rd % 2 == 1 {
            2
        } else {
            0
        }
    } else if k == ROOK {
        if rd % 2 == 0 {
            2
        } else {
            0
        }
    } else if k == KING {
        1
    } else if k == PRO_BISHOP {
        if rd % 2 == 1 {
            2
        } else {
            1
        }
    } else if k == PRO_ROOK {
        if rd % 2 == 0 {
            2
        } else {
            1
        }
    } else {
        0
    }
}

/// Change of file along direction `d`.
pub(crate) fn dir_df_code(d: u8) -> (u: i8)
    ensures
        u == dir_df(d as int),
        -1 <= u <= 1,
{
    if d == 1 || d == 2 || d == 3 {
        1
    } else if d == 5 || d == 6 || d == 7 {
        -1
    } else {
        0
    }
}

/// Change of rank along direction `d`.
pub(crate) fn dir_dr_code(d: u8) -> (u: i8)
    ensures
        u == dir_dr(d as int),
        -1 <= u <= 1,
{
    if d == 7 || d == 0 || d == 1 {
        1
    } else if d == 3 || d == 4 || d == 5 {
        -1
    } else {
        0
    }
}

/// Whether `sq` lies in the promotion zone of color `c`.
pub(crate) fn in_zone_code(c: u8, sq: u8) -> (b: bool)
    ensures
        b == in_zone(c as int, sq as int),
{
    if c == 0 {
        sq % 9 >= 6
    } else {
        sq % 9 <= 2
    }
}

/// Whether an unpromoted piece of kind `k` could never move again from `sq`.
pub(crate) fn dead_end_code(c: u8, k: u8, sq: u8) -> (b: bool)
    ensures
        b == dead_end(c as int, k as int, sq as int),
{
    let r: u8 = sq % 9;
    let rr: u8 = if c == 0 {
        r
    } else {
        8 - r
    };
    ((k == PAWN || k == LANCE) && rr == 8) || (k == KNIGHT && rr >= 7)
}

/// How many empty squares lie along `d` from `sq`, counting the first
/// occupied square, if the ray meets one, as the last.
pub open spec fn ray_stops(squares: Seq<u16>, sq: int, d: int, n: int) -> bool {
    &&& 0 <= n <= 8
    &&& forall|j: int| 1 <= j <= n ==> #[trigger] ray_on_board(sq, d, j)
    &&& ray_clear(squares, sq, d, n)
    &&& (!ray_on_board(sq, d, n + 1) || (n >= 1 && squares[ray_square(sq, d, n)] != 0))
}

/// Walks from `sq` along `d` up to the first piece or the edge. Returns the
/// number of steps and the square reached.
pub(crate) fn ray_len(squares: &[u16; 81], sq: u8, d: u8) -> (res: (u8, u8))
    requires
        sq < 81,
        d < 8,
    ensures
        ray_stops(squares@, sq as int, d as int, res.0 as int),
        res.1 < 81,
        res.1 == ray_square(sq as int, d as int, res.0 as int),
{
    let df: i8 = dir_df_code(d);
    let dr: i8 = dir_dr_code(d);
    let mut f: i8 = (sq / 9) as i8;
    let mut r: i8 = (sq % 9) as i8;
    let mut n: u8 = 0;
    loop
        invariant_except_break
            n >= 1 ==> squares@[ray_square(sq as int, d as int, n as int)] == 0,
        invariant
            sq < 81,
            d < 8,
            df == dir_df(d as int),
            dr == dir_dr(d as int),
            0 <= n <= 8,
            f == ray_file(sq as int, d as int, n as int),
            r == ray_rank(sq as int, d as int, n as int),
            on_board(f as int, r as int),
            forall|j: int| 1 <= j <= n ==> #[trigger] ray_on_board(sq as int, d as int, j),
            forall|j: int| 1 <= j < n ==> squares@[#[trigger] ray_square(sq as int, d as int, j)] == 0,
        ensures
            ray_stops(squares@, sq as int, d as int, n as int),
        decreases 9 - n,
    {
        let nf: i8 = f + df;
        let nr: i8 = r + dr;
        if nf < 0 || nf >= 9 || nr < 0 || nr >= 9 {
            assert(!ray_on_board(sq as int, d as int, n + 1));
            break ;
        }
        assert(n < 8);
        n = n + 1;
        f = nf;
        r = nr;
        assert(ray_on_board(sq as int, d as int, n as int));
        let idx: usize = (f as usize) * 9 + (r as usize);
        assert(idx == ray_square(sq as int, d as int, n as int));
        if squares[idx] != 0 {
            break ;
        }
    }
    (n, f as u8 * 9 + r as u8)
}

/// Whether some piece of color `by` attacks `sq`.
pub(crate) fn is_attacked(squares: &[u16; 81], sq: u8, by: u8) -> (b: bool)
    requires
        sq < 81,
        by < 2,
        forall|i: int| 0 <= i < 81 ==> valid_piece(#[trigger] squares@[i]),
    ensures
        b == attacked_by(squares@, sq as int, by as int),
{
    let mut d: u8 = 0;
    while d < 8
        invariant
            sq < 81,
            by < 2,
            0 <= d <= 8,
            forall|i: int| 0 <= i < 81 ==> valid_piece(#[trigger] squares@[i]),
            forall|from: int, e: int, k: int|
                0 <= from < 81 && 0 <= e < 8 && (e + 4) % 8 < d && owned_by(squares@[from], by as int)
                    && #[trigger] ray_attack(squares@, from, e, k) ==> sq != ray_square(from, e, k),
        decreases 8 - d,
    {
        let (n, far) = ray_len(squares, sq, d);
        if n >= 1 {
            let idx: usize = far as usize;
            let p: u16 = squares[idx];
            if p != 0 && color_code(p) == by {
                let back: u8 = (d + 4) % 8;
                let rch: u8 = reach_code(kind_code(p), rel_dir_code(by, back));
                if rch == 2 || (rch == 1 && n == 1) {
                    proof {
                        lemma_ray_back(squares@, sq as int, d as int, n as int);
                        assert(ray_attack(squares@, idx as int, back as int, n as int));
                        assert(attacks(squares@, idx as int, sq as int));
                    }
                    return true;
                }
            }
        }
        proof {
            let back = (d + 4) % 8;
            assert forall|from: int, e: int, k: int|
                0 <= from < 81 && 0 <= e < 8 && (e + 4) % 8 < d + 1 && owned_by(squares@[from], by as int)
                    && #[trigger] ray_attack(squares@, from, e, k) implies sq != ray_square(from, e, k) by {
                if (e + 4) % 8 == d && sq == ray_square(from, e, k) {
                    lemma_ray_meet(squares@, sq as int, d as int, n as int, from, k);
                }
            }
        }
        d = d + 1;
    }
    // The knights: a knight that attacks `sq` stands two ranks behind it, as
    // its owner counts, on a neighbouring file.
    let f: i8 = (sq / 9) as i8;
    let r: i8 = (sq % 9) as i8;
    let kr: i8 = if by == 0 {
        r - 2
    } else {
        r + 2
    };
    let knight: u16 = piece_code(by, KNIGHT);
    let mut found: bool = false;
    if 0 <= kr && kr < 9 {
        if f >= 1 {
            let idx: usize = ((f - 1) as usize) * 9 + (kr as usize);
            if squares[idx] == knight {
                assert(knight_attack(squares@, idx as int, 0));
                assert(attacks(squares@, idx as int, sq as int));
                found = true;
            }
        }
        if f < 8 {
            let idx: usize = ((f + 1) as usize) * 9 + (kr as usize);
            if squares[idx] == knight {
                assert(knight_attack(squares@, idx as int, 1));
                assert(attacks(squares@, idx as int, sq as int));
                found = true;
            }
        }
    }
    proof {
        if !found {
            assert forall|from: int| #[trigger] attacks(squares@, from, sq as int) implies !owned_by(
                squares@[from],
                by as int,
            ) by {
                if owned_by(squares@[from], by as int) {
                    if exists|j: int| #[trigger]
                        knight_attack(squares@, from, j) && sq as int == knight_square(squares@, from, j) {
                        let j = choose|j: int| #[trigger]
                            knight_attack(squares@, from, j) && sq as int == knight_square(
                                squares@,
                                from,
                                j,
                            );
                        assert(valid_piece(squares@[from]));
                        assert(false);
                    } else {
                        let (e, k) = choose|e: int, k: int| #[trigger]
                            ray_attack(squares@, from, e, k) && sq as int == ray_square(from, e, k);
                        assert((e + 4) % 8 < 8);
                        assert(false);
                    }
                }
            }
        }
    }
    found
}

/// Seen from the far end, a free ray is free in the opposite direction.
pub proof fn lemma_ray_back(squares: Seq<u16>, sq: int, d: int, n: int)
    requires
        0 <= sq < 81,
        0 <= d < 8,
        1 <= n <= 8,
        ray_on_board(sq, d, n),
        ray_clear(squares, sq, d, n),
    ensures
        ray_on_board(ray_square(sq, d, n), (d + 4) % 8, n),
        ray_square(ray_square(sq, d, n), (d + 4) % 8, n) == sq,
        ray_clear(squares, ray_square(sq, d, n), (d + 4) % 8, n),
{
    let far = ray_square(sq, d, n);
    let back = (d + 4) % 8;
    assert forall|j: int| 1 <= j < n implies squares[#[trigger] ray_square(far, back, j)] == 0 by {
        assert(ray_square(far, back, j) == ray_square(sq, d, n - j));
    }
}

/// A piece that attacks `sq` along a ray is the first piece met from `sq`
/// in the opposite direction.
pub proof fn lemma_ray_meet(squares: Seq<u16>, sq: int, d: int, n: int, from: int, k: int)
    requires
        0 <= sq < 81,
        0 <= d < 8,
        0 <= from < 81,
        squares[from] != 0,
        ray_stops(squares, sq, d, n),
        1 <= k <= 8,
        ray_on_board(from, (d + 4) % 8, k),
        ray_clear(squares, from, (d + 4) % 8, k),
        sq == ray_square(from, (d + 4) % 8, k),
    ensures
        k == n,
        from == ray_square(sq, d, n),
{
    let back = (d + 4) % 8;
    assert(from == ray_square(sq, d, k));
    assert(ray_on_board(sq, d, k));
    if k < n {
        assert(squares[ray_square(sq, d, k)] == 0);
    } else if k > n {
        assert(ray_on_board(sq, d, n + 1));
        assert(ray_square(sq, d, n) == ray_square(from, back, k - n));
        assert(squares[ray_square(from, back, k - n)] == 0);
    }
}

/// Whether `sq` is attacked by color `by` depends only on which squares are
/// empty and on the pieces of that color.
pub proof fn lemma_attacked_by_same(s1: Seq<u16>, s2: Seq<u16>, sq: int, by: int)
    requires
        s1.len() == 81,
        s2.len() == 81,
        forall|i: int|
            0 <= i < 81 ==> #[trigger] s1[i] == s2[i] || (s1[i] != 0 && s2[i] != 0 && !owned_by(s1[i], by)
                && !owned_by(s2[i], by)),
    ensures
        attacked_by(s1, sq, by) ==> attacked_by(s2, sq, by),
{
    if attacked_by(s1, sq, by) {
        let from = choose|from: int| #[trigger] attacks(s1, from, sq) && owned_by(s1[from], by);
        assert(s1[from] == s2[from]);
        if exists|j: int| #[trigger] knight_attack(s1, from, j) && sq == knight_square(s1, from, j) {
            let j = choose|j: int| #[trigger] knight_attack(s1, from, j) && sq == knight_square(s1, from, j);
            assert(knight_attack(s2, from, j));
        } else {
            let (d, k) = choose|d: int, k: int| #[trigger]
                ray_attack(s1, from, d, k) && sq == ray_square(from, d, k);
            assert forall|j: int| 1 <= j < k implies s2[#[trigger] ray_square(from, d, j)] == 0 by {
                assert(ray_on_board(from, d, j));
                assert(s1[ray_square(from, d, j)] == 0);
            }
            assert(ray_attack(s2, from, d, k));
        }
        assert(attacks(s2, from, sq));
    }
}

/// A piece that comes to stand on an empty square brings no attack by
/// the other color on any square.
pub proof fn lemma_attacked_after_block(s1: Seq<u16>, to: int, p: u16, sq: int, by: int)
    requires
        s1.len() == 81,
        0 <= to < 81,
        s1[to] == 0,
        p != 0,
        !owned_by(p, by),
    ensures
        attacked_by(s1.update(to, p), sq, by) ==> attacked_by(s1, sq, by),
{
    let s2 = s1.update(to, p);
    if attacked_by(s2, sq, by) {
        let from = choose|from: int| #[trigger] attacks(s2, from, sq) && owned_by(s2[from], by);
        assert(from != to);
        assert(s1[from] == s2[from]);
        if exists|j: int| #[trigger] knight_attack(s2, from, j) && sq == knight_square(s2, from, j) {
            let j = choose|j: int| #[trigger] knight_attack(s2, from, j) && sq == knight_square(s2, from, j);
            assert(knight_attack(s1, from, j));
        } else {
            let (d, k) = choose|d: int, k: int| #[trigger]
                ray_attack(s2, from, d, k) && sq == ray_square(from, d, k);
            assert forall|j: int| 1 <= j < k implies s1[#[trigger] ray_square(from, d, j)] == 0 by {
                assert(ray_on_board(from, d, j));
                assert(s2[ray_square(from, d, j)] == 0);
            }
            assert(ray_attack(s1, from, d, k));
        }
        assert(attacks(s1, from, sq));
    }
}

} // verus!
