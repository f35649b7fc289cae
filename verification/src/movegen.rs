//! Generation of the legal moves of a position.
use crate::board::{
    attacks, color_code, dead_end_code, dir_df_code, dir_dr_code, in_zone, in_zone_code, kind_code, kind_of,
    knight_attack, knight_square, owned_by, pawn_on_file, promotable, ray_attack, ray_len, ray_square,
    reach_code, rel_dir_code, rel_rank, valid_piece, BISHOP, KING, KNIGHT, LANCE, PAWN, ROOK,
};
use crate::position::{Board, Position};
use crate::types::Move;
use vstd::prelude::*;

verus! {

/// `m` does not promote a piece that could promote and is never worse off
/// promoted: a pawn, a bishop or a rook anywhere, a lance that reaches one
/// of the two farthest ranks.
pub open spec fn dominated(b: Board, m: Move) -> bool {
    let c = b.side as int;
    let k = m.kind();
    &&& m.from_index() != 82
    &&& !m.promotes()
    &&& promotable(k)
    &&& (in_zone(c, m.from_index()) || in_zone(c, m.to_index()))
    &&& (k == PAWN || k == BISHOP || k == ROOK || (k == LANCE && rel_rank(c, m.to_index()) >= 7))
}

/// What the first pass of generation is to find: the moves that follow the
/// rules of movement and leave the king safe, without the dominated ones if
/// `wily` is set.
pub open spec fn wanted(b: Board, m: Move, wily: bool) -> bool {
    b.legal_basic(m) && (wily ==> !dominated(b, m))
}

/// What generation is to find: the legal moves, without the dominated ones
/// if `wily` is set.
pub open spec fn generated(b: Board, m: Move, wily: bool) -> bool {
    b.legal(m) && (wily ==> !dominated(b, m))
}

/// After an append a sequence holds what it held and what was appended.
pub proof fn lemma_contains_push<T>(s: Seq<T>, v: T, x: T)
    ensures
        s.push(v).contains(x) <==> (s.contains(x) || x == v),
{
    let t = s.push(v);
    if s.contains(x) {
        let i = choose|i: int| 0 <= i < s.len() && s[i] == x;
        assert(t[i] == x);
    }
    if x == v {
        assert(t[s.len() as int] == x);
    }
    if t.contains(x) {
        let i = choose|i: int| 0 <= i < t.len() && t[i] == x;
        if i < s.len() {
            assert(s[i] == x);
        }
    }
}

/// A sequence without repetition stays so when something new is appended.
pub proof fn lemma_push_fresh<T>(s: Seq<T>, v: T)
    requires
        s.no_duplicates(),
        !s.contains(v),
    ensures
        s.push(v).no_duplicates(),
{
    let t = s.push(v);
    assert forall|i: int, j: int| 0 <= i < t.len() && 0 <= j < t.len() && i != j implies t[i] != t[j] by {
        if i < s.len() && j < s.len() {
            assert(s[i] != s[j]);
        } else if i < s.len() {
            assert(s.contains(s[i]));
        } else if j < s.len() {
            assert(s.contains(s[j]));
        }
    }
}

/// Some square of the board lies `k` steps from `from` along `d` and is `to`.
pub open spec fn ray_hits(from: int, d: int, to: int) -> bool {
    exists|k: int| 1 <= k <= 8 && crate::board::ray_on_board(from, d, k) && to == #[trigger] ray_square(from, d, k)
}

/// Two ways along rays from a square lead to different squares.
pub proof fn lemma_rays_apart(from: int, d: int, k: int, e: int, j: int)
    requires
        0 <= from < 81,
        0 <= d < 8,
        0 <= e < 8,
        1 <= k <= 8,
        1 <= j <= 8,
        crate::board::ray_on_board(from, d, k),
        crate::board::ray_on_board(from, e, j),
        ray_square(from, d, k) == ray_square(from, e, j),
    ensures
        d == e,
        k == j,
{
}

/// Appends `m` if the mover's king is safe after it.
fn push_if_safe(pos: &Position, m: Move, out: &mut Vec<Move>)
    requires
        pos@.move_ok(m),
        old(out)@.no_duplicates(),
        !old(out)@.contains(m),
    ensures
        final(out)@.no_duplicates(),
        forall|x: Move|
            #![trigger final(out)@.contains(x)]
            final(out)@.contains(x) <==> (old(out)@.contains(x) || (x == m && pos@.legal_basic(m))),
{
    let side: u8 = pos.side();
    let next: Position = pos.after(m);
    if !next.king_attacked(side) {
        out.push(m);
        proof {
            lemma_push_fresh(old(out)@, m);
            assert forall|x: Move|
                #![trigger out@.contains(x)]
                out@.contains(x) <==> (old(out)@.contains(x) || x == m) by {
                lemma_contains_push(old(out)@, m, x);
            }
        }
    }
}

/// Appends the wanted moves from `from` to `to`, a square that the piece on
/// `from` attacks.
fn try_board(pos: &Position, from: u8, to: u8, wily: bool, out: &mut Vec<Move>)
    requires
        from < 81,
        to < 81,
        owned_by(pos@.squares[from as int], pos@.side as int),
        attacks(pos@.squares, from as int, to as int),
        old(out)@.no_duplicates(),
        forall|x: Move|
            #![trigger old(out)@.contains(x)]
            old(out)@.contains(x) ==> !(x.from_index() == from && x.to_index() == to),
    ensures
        final(out)@.no_duplicates(),
        forall|x: Move|
            #![trigger final(out)@.contains(x)]
            final(out)@.contains(x) <==> (old(out)@.contains(x) || (wanted(pos@, x, wily) && x.from_index()
                == from && x.to_index() == to)),
{
    let side: u8 = pos.side();
    let p: u16 = pos.at(from);
    let tp: u16 = pos.at(to);
    if tp != 0 && (color_code(tp) == side || kind_code(tp) == KING) {
        return ;
    }
    let kind: u8 = kind_code(p);
    let cap: u8 = kind_code(tp);
    let zone: bool = 1 <= kind && kind <= 6 && (in_zone_code(side, from) || in_zone_code(side, to));
    let skip: bool = wily && zone && (kind == PAWN || kind == BISHOP || kind == ROOK || (kind == LANCE && (
    if side == 0 {
        to % 9 >= 7
    } else {
        to % 9 <= 1
    })));
    let ghost m0 = Move(Move::pack(from as int, to as int, false, kind as int, cap as int) as u32);
    let ghost m1 = Move(Move::pack(from as int, to as int, true, kind as int, cap as int) as u32);
    proof {
        Move::lemma_pack_parts(from as int, to as int, false, kind as int, cap as int);
        Move::lemma_pack_parts(from as int, to as int, true, kind as int, cap as int);
    }
    let ghost mid = out@;
    if !dead_end_code(side, kind, to) && !skip {
        let m: Move = Move::make(from, to, false, kind, cap);
        push_if_safe(pos, m, out);
    }
    proof {
        assert(forall|x: Move|
            #![trigger out@.contains(x)]
            out@.contains(x) <==> (old(out)@.contains(x) || (x == m0 && wanted(pos@, m0, wily))));
    }
    let ghost mid = out@;
    if zone {
        let m: Move = Move::make(from, to, true, kind, cap);
        push_if_safe(pos, m, out);
    }
    proof {
        assert(!dominated(pos@, m1));
        assert(forall|x: Move|
            #![trigger out@.contains(x)]
            out@.contains(x) <==> (mid.contains(x) || (x == m1 && wanted(pos@, m1, wily))));
        assert forall|x: Move|
            wanted(pos@, x, wily) && x.from_index() == from && x.to_index() == to implies x == m0 || x
            == m1 by {
            assert(x.is_packed());
            if x.promotes() {
                assert(x.0 == m1.0);
            } else {
                assert(x.0 == m0.0);
            }
        }
    }
}

/// `to` is one of the first `k - 1` squares along `d` from `from`.
pub open spec fn on_ray_upto(from: int, d: int, to: int, k: int) -> bool {
    exists|j: int| 1 <= j < k && to == #[trigger] ray_square(from, d, j)
}

/// The piece on `from` reaches `to` along `d`.
pub open spec fn on_ray(squares: Seq<u16>, from: int, d: int, to: int) -> bool {
    exists|k: int| #[trigger] ray_attack(squares, from, d, k) && to == ray_square(from, d, k)
}

/// The knight on `from` jumps to `to`.
pub open spec fn on_jump(squares: Seq<u16>, from: int, to: int) -> bool {
    exists|j: int| #[trigger] knight_attack(squares, from, j) && to == knight_square(squares, from, j)
}

/// Appends the wanted moves of the piece on `from` along direction `d`.
fn gen_ray(pos: &Position, from: u8, d: u8, wily: bool, out: &mut Vec<Move>)
    requires
        from < 81,
        d < 8,
        owned_by(pos@.squares[from as int], pos@.side as int),
        old(out)@.no_duplicates(),
        forall|x: Move|
            #![trigger old(out)@.contains(x)]
            old(out)@.contains(x) ==> !(x.from_index() == from && ray_hits(from as int, d as int, x.to_index())),
    ensures
        final(out)@.no_duplicates(),
        forall|x: Move|
            #![trigger final(out)@.contains(x)]
            final(out)@.contains(x) <==> (old(out)@.contains(x) || (wanted(pos@, x, wily) && x.from_index()
                == from && on_ray(pos@.squares, from as int, d as int, x.to_index()))),
{
    let side: u8 = pos.side();
    let p: u16 = pos.at(from);
    let r: u8 = reach_code(kind_code(p), rel_dir_code(side, d));
    if r == 0 {
        return ;
    }
    let (n, _far) = ray_len(pos.squares(), from, d);
    let lim: u8 = if r == 2 {
        n
    } else if n >= 1 {
        1
    } else {
        0
    };
    let df: i8 = dir_df_code(d);
    let dr: i8 = dir_dr_code(d);
    let mut f: i8 = (from / 9) as i8;
    let mut rk: i8 = (from % 9) as i8;
    let mut k: u8 = 1;
    proof {
        assert forall|to: int| !on_ray_upto(from as int, d as int, to, 1) by {}
    }
    while k <= lim
        invariant
            from < 81,
            d < 8,
            1 <= k <= lim + 1,
            lim <= n <= 8,
            crate::board::ray_stops(pos@.squares, from as int, d as int, n as int),
            df == crate::board::dir_df(d as int),
            dr == crate::board::dir_dr(d as int),
            f == crate::board::ray_file(from as int, d as int, k - 1),
            rk == crate::board::ray_rank(from as int, d as int, k - 1),
            owned_by(pos@.squares[from as int], pos@.side as int),
            r == crate::board::reach(
                kind_of(pos@.squares[from as int]),
                crate::board::rel_dir(pos@.side as int, d as int),
            ),
            r == 2 || (r == 1 && lim <= 1),
            out@.no_duplicates(),
            forall|x: Move|
                #![trigger old(out)@.contains(x)]
                old(out)@.contains(x) ==> !(x.from_index() == from && ray_hits(
                    from as int,
                    d as int,
                    x.to_index(),
                )),
            forall|x: Move|
                #![trigger out@.contains(x)]
                out@.contains(x) <==> (old(out)@.contains(x) || (wanted(pos@, x, wily) && x.from_index()
                    == from && on_ray_upto(from as int, d as int, x.to_index(), k as int))),
        decreases lim + 1 - k,
    {
        assert(crate::board::ray_on_board(from as int, d as int, k as int));
        f = f + df;
        rk = rk + dr;
        let to: u8 = (f as u8) * 9 + (rk as u8);
        assert(to == ray_square(from as int, d as int, k as int));
        assert(ray_attack(pos@.squares, from as int, d as int, k as int));
        assert(attacks(pos@.squares, from as int, to as int));
        let ghost before = out@;
        proof {
            assert forall|x: Move| #![trigger before.contains(x)] before.contains(x) implies !(x.from_index()
                == from && x.to_index() == to) by {
                if x.from_index() == from && x.to_index() == to {
                    if old(out)@.contains(x) {
                        assert(ray_hits(from as int, d as int, x.to_index()));
                    } else {
                        let j = choose|j: int|
                            1 <= j < k && x.to_index() == #[trigger] ray_square(from as int, d as int, j);
                        assert(crate::board::ray_on_board(from as int, d as int, j));
                        lemma_rays_apart(from as int, d as int, k as int, d as int, j);
                    }
                }
            }
        }
        try_board(pos, from, to, wily, out);
        proof {
            assert forall|x: Move|
                #![trigger out@.contains(x)]
                out@.contains(x) <==> (old(out)@.contains(x) || (wanted(pos@, x, wily) && x.from_index()
                    == from && on_ray_upto(from as int, d as int, x.to_index(), k + 1))) by {
                let t = x.to_index();
                if on_ray_upto(from as int, d as int, t, k + 1) {
                    let j = choose|j: int| 1 <= j < k + 1 && t == #[trigger] ray_square(from as int, d as int, j);
                    if j < k {
                        assert(on_ray_upto(from as int, d as int, t, k as int));
                    }
                }
                if on_ray_upto(from as int, d as int, t, k as int) {
                    let j = choose|j: int| 1 <= j < k && t == #[trigger] ray_square(from as int, d as int, j);
                    assert(1 <= j < k + 1);
                }
                if t == to {
                    assert(t == ray_square(from as int, d as int, k as int));
                    assert(on_ray_upto(from as int, d as int, t, k + 1));
                }
            }
        }
        k = k + 1;
    }
    proof {
        assert forall|to: int|
            on_ray(pos@.squares, from as int, d as int, to) <==> on_ray_upto(
                from as int,
                d as int,
                to,
                lim + 1,
            ) by {
            if on_ray(pos@.squares, from as int, d as int, to) {
                let j = choose|j: int| #[trigger]
                    ray_attack(pos@.squares, from as int, d as int, j) && to == ray_square(
                        from as int,
                        d as int,
                        j,
                    );
                if j > n {
                    assert(crate::board::ray_on_board(from as int, d as int, n + 1));
                    assert(pos@.squares[ray_square(from as int, d as int, n as int)] != 0);
                }
                assert(1 <= j < lim + 1);
            }
            if on_ray_upto(from as int, d as int, to, lim + 1) {
                let j = choose|j: int| 1 <= j < lim + 1 && to == #[trigger] ray_square(from as int, d as int, j);
                assert(crate::board::ray_on_board(from as int, d as int, j));
                assert(ray_attack(pos@.squares, from as int, d as int, j));
            }
        }
    }
}

/// Appends the wanted moves of the piece on `from` if it is a knight.
fn gen_jumps(pos: &Position, from: u8, wily: bool, out: &mut Vec<Move>)
    requires
        from < 81,
        owned_by(pos@.squares[from as int], pos@.side as int),
        old(out)@.no_duplicates(),
        kind_of(pos@.squares[from as int]) == KNIGHT ==> forall|x: Move|
            #![trigger old(out)@.contains(x)]
            old(out)@.contains(x) ==> x.from_index() != from,
    ensures
        final(out)@.no_duplicates(),
        forall|x: Move|
            #![trigger final(out)@.contains(x)]
            final(out)@.contains(x) <==> (old(out)@.contains(x) || (wanted(pos@, x, wily) && x.from_index()
                == from && on_jump(pos@.squares, from as int, x.to_index()))),
{
    let side: u8 = pos.side();
    let p: u16 = pos.at(from);
    if kind_code(p) != KNIGHT {
        return ;
    }
    let f: i8 = (from / 9) as i8;
    let r: i8 = (from % 9) as i8;
    let nr: i8 = if side == 0 {
        r + 2
    } else {
        r - 2
    };
    if nr < 0 || nr >= 9 {
        return ;
    }
    let ghost sq = pos@.squares;
    if f < 8 {
        let to: u8 = ((f + 1) as u8) * 9 + (nr as u8);
        assert(knight_attack(sq, from as int, 0));
        assert(to == knight_square(sq, from as int, 0));
        assert(attacks(sq, from as int, to as int));
        try_board(pos, from, to, wily, out);
    }
    let ghost mid = out@;
    proof {
        assert forall|x: Move|
            #![trigger mid.contains(x)]
            mid.contains(x) <==> (old(out)@.contains(x) || (wanted(pos@, x, wily) && x.from_index() == from
                && knight_attack(sq, from as int, 0) && x.to_index() == knight_square(sq, from as int, 0))) by {}
    }
    if f >= 1 {
        let to: u8 = ((f - 1) as u8) * 9 + (nr as u8);
        assert(knight_attack(sq, from as int, 1));
        assert(to == knight_square(sq, from as int, 1));
        assert(attacks(sq, from as int, to as int));
        try_board(pos, from, to, wily, out);
    }
    proof {
        assert forall|x: Move|
            #![trigger out@.contains(x)]
            out@.contains(x) <==> (mid.contains(x) || (wanted(pos@, x, wily) && x.from_index() == from
                && knight_attack(sq, from as int, 1) && x.to_index() == knight_square(sq, from as int, 1))) by {}
        assert forall|to: int|
            on_jump(sq, from as int, to) <==> ((knight_attack(sq, from as int, 0) && to == knight_square(
                sq,
                from as int,
                0,
            )) || (knight_attack(sq, from as int, 1) && to == knight_square(sq, from as int, 1))) by {
            if on_jump(sq, from as int, to) {
                let j = choose|j: int| #[trigger] knight_attack(sq, from as int, j) && to == knight_square(
                    sq,
                    from as int,
                    j,
                );
                assert(j == 0 || j == 1);
            }
        }
    }
}

/// `to` lies on one of the first `d` rays of the piece on `from`.
pub open spec fn on_rays_upto(squares: Seq<u16>, from: int, to: int, d: int) -> bool {
    exists|e: int| 0 <= e < d && #[trigger] on_ray(squares, from, e, to)
}

/// Appends the wanted moves of the piece on `from`.
fn gen_piece(pos: &Position, from: u8, wily: bool, out: &mut Vec<Move>)
    requires
        from < 81,
        owned_by(pos@.squares[from as int], pos@.side as int),
        old(out)@.no_duplicates(),
        forall|x: Move| #![trigger old(out)@.contains(x)] old(out)@.contains(x) ==> x.from_index() != from,
    ensures
        final(out)@.no_duplicates(),
        forall|x: Move|
            #![trigger final(out)@.contains(x)]
            final(out)@.contains(x) <==> (old(out)@.contains(x) || (wanted(pos@, x, wily) && x.from_index()
                == from)),
{
    let ghost sq = pos@.squares;
    let mut d: u8 = 0;
    proof {
        assert forall|to: int| !on_rays_upto(sq, from as int, to, 0) by {}
    }
    while d < 8
        invariant
            from < 81,
            0 <= d <= 8,
            sq == pos@.squares,
            owned_by(pos@.squares[from as int], pos@.side as int),
            out@.no_duplicates(),
            forall|x: Move| #![trigger old(out)@.contains(x)] old(out)@.contains(x) ==> x.from_index() != from,
            forall|x: Move|
                #![trigger out@.contains(x)]
                out@.contains(x) <==> (old(out)@.contains(x) || (wanted(pos@, x, wily) && x.from_index()
                    == from && on_rays_upto(sq, from as int, x.to_index(), d as int))),
        decreases 8 - d,
    {
        proof {
            let before = out@;
            assert forall|x: Move| #![trigger before.contains(x)] before.contains(x) implies !(x.from_index()
                == from && ray_hits(from as int, d as int, x.to_index())) by {
                if x.from_index() == from && ray_hits(from as int, d as int, x.to_index()) {
                    assert(!old(out)@.contains(x));
                    let e = choose|e: int| 0 <= e < d && #[trigger] on_ray(sq, from as int, e, x.to_index());
                    let j = choose|j: int| #[trigger]
                        ray_attack(sq, from as int, e, j) && x.to_index() == ray_square(from as int, e, j);
                    let k = choose|k: int|
                        1 <= k <= 8 && crate::board::ray_on_board(from as int, d as int, k) && x.to_index()
                            == #[trigger] ray_square(from as int, d as int, k);
                    lemma_rays_apart(from as int, d as int, k, e, j);
                }
            }
        }
        gen_ray(pos, from, d, wily, out);
        proof {
            assert forall|to: int|
                on_rays_upto(sq, from as int, to, d + 1) <==> (on_rays_upto(sq, from as int, to, d as int)
                    || on_ray(sq, from as int, d as int, to)) by {
                if on_rays_upto(sq, from as int, to, d + 1) {
                    let e = choose|e: int| 0 <= e < d + 1 && #[trigger] on_ray(sq, from as int, e, to);
                    if e < d {
                        assert(on_rays_upto(sq, from as int, to, d as int));
                    }
                }
                if on_rays_upto(sq, from as int, to, d as int) {
                    let e = choose|e: int| 0 <= e < d && #[trigger] on_ray(sq, from as int, e, to);
                    assert(0 <= e < d + 1);
                }
            }
        }
        d = d + 1;
    }
    proof {
        let before = out@;
        if kind_of(sq[from as int]) == KNIGHT {
            assert forall|x: Move| #![trigger before.contains(x)] before.contains(x) implies x.from_index()
                != from by {
                if x.from_index() == from {
                    assert(!old(out)@.contains(x));
                    let e = choose|e: int| 0 <= e < 8 && #[trigger] on_ray(sq, from as int, e, x.to_index());
                    let j = choose|j: int| #[trigger]
                        ray_attack(sq, from as int, e, j) && x.to_index() == ray_square(from as int, e, j);
                    assert(false);
                }
            }
        }
    }
    gen_jumps(pos, from, wily, out);
    proof {
        assert forall|to: int|
            attacks(sq, from as int, to) <==> (on_rays_upto(sq, from as int, to, 8) || on_jump(
                sq,
                from as int,
                to,
            )) by {
            if attacks(sq, from as int, to) && !on_jump(sq, from as int, to) {
                let (e, k) = choose|e: int, k: int| #[trigger]
                    ray_attack(sq, from as int, e, k) && to == ray_square(from as int, e, k);
                assert(on_ray(sq, from as int, e, to));
            }
            if on_rays_upto(sq, from as int, to, 8) {
                let e = choose|e: int| 0 <= e < 8 && #[trigger] on_ray(sq, from as int, e, to);
                let k = choose|k: int| #[trigger]
                    ray_attack(sq, from as int, e, k) && to == ray_square(from as int, e, k);
                assert(attacks(sq, from as int, to));
            }
        }
    }
}

/// Appends the drop of a piece of kind `k` on `to` if it is wanted. `safe`
/// tells whether a piece on `to` leaves the king unattacked.
fn try_drop(pos: &Position, k: u8, to: u8, nifu: bool, safe: bool, out: &mut Vec<Move>)
    requires
        1 <= k <= 7,
        to < 81,
        pos@.stand[8 * pos@.side + k] > 0,
        k == PAWN ==> nifu == pawn_on_file(pos@.squares, pos@.side as int, (to / 9) as int),
        pos@.squares[to as int] == 0 ==> safe == pos@.blocked_at(to as int),
        old(out)@.no_duplicates(),
        forall|x: Move|
            #![trigger old(out)@.contains(x)]
            old(out)@.contains(x) ==> !(x.from_index() == 82 && x.kind() == k && x.to_index() == to),
    ensures
        final(out)@.no_duplicates(),
        forall|x: Move|
            #![trigger final(out)@.contains(x)]
            final(out)@.contains(x) <==> (old(out)@.contains(x) || (pos@.legal_basic(x) && x.from_index() == 82
                && x.kind() == k && x.to_index() == to)),
{
    let side: u8 = pos.side();
    if pos.at(to) != 0 || dead_end_code(side, k, to) || (k == PAWN && nifu) {
        return ;
    }
    let m: Move = Move::make(82, to, false, k, 0);
    proof {
        crate::position::lemma_drop_check(pos@, m);
        assert forall|x: Move|
            pos@.legal_basic(x) && x.from_index() == 82 && x.kind() == k && x.to_index() == to implies x
            == m by {
            assert(x.is_packed());
            assert(x.0 == m.0);
        }
    }
    if safe {
        out.push(m);
        proof {
            lemma_push_fresh(old(out)@, m);
            assert forall|x: Move| #![trigger out@.contains(x)] out@.contains(x) <==> (old(out)@.contains(x) || x
                == m) by {
                lemma_contains_push(old(out)@, m, x);
            }
        }
    }
}

/// Appends the wanted drops.
fn gen_drops(pos: &Position, out: &mut Vec<Move>)
    requires
        old(out)@.no_duplicates(),
        forall|x: Move| #![trigger old(out)@.contains(x)] old(out)@.contains(x) ==> x.from_index() != 82,
    ensures
        final(out)@.no_duplicates(),
        forall|x: Move|
            #![trigger final(out)@.contains(x)]
            final(out)@.contains(x) <==> (old(out)@.contains(x) || (pos@.legal_basic(x) && x.from_index()
                == 82)),
{
    let side: u8 = pos.side();
    if !pos.holds_any(side) {
        proof {
            assert forall|x: Move| !(#[trigger] pos@.legal_basic(x) && x.from_index() == 82) by {
                if pos@.legal_basic(x) && x.from_index() == 82 {
                    assert(crate::position::held_in(pos@.stand, side as int, x.kind()) > 0);
                }
            }
        }
        return ;
    }
    let safe: [bool; 81] = pos.drop_safety();
    let mut k: u8 = 1;
    while k <= 7
        invariant
            1 <= k <= 8,
            side == pos@.side,
            side < 2,
            out@.no_duplicates(),
            forall|x: Move| #![trigger old(out)@.contains(x)] old(out)@.contains(x) ==> x.from_index() != 82,
            forall|t: int| 0 <= t < 81 && pos@.squares[t] == 0 ==> #[trigger] safe@[t] == pos@.blocked_at(t),
            forall|x: Move|
                #![trigger out@.contains(x)]
                out@.contains(x) <==> (old(out)@.contains(x) || (pos@.legal_basic(x) && x.from_index() == 82
                    && x.kind() < k)),
        decreases 8 - k,
    {
        if pos.held(side, k) > 0 {
            let mut f: u8 = 0;
            while f < 9
                invariant
                    1 <= k <= 7,
                    0 <= f <= 9,
                    side == pos@.side,
                    side < 2,
                    pos@.stand[8 * side + k] > 0,
                    out@.no_duplicates(),
                    forall|x: Move|
                        #![trigger old(out)@.contains(x)]
                        old(out)@.contains(x) ==> x.from_index() != 82,
                    forall|t: int|
                        0 <= t < 81 && pos@.squares[t] == 0 ==> #[trigger] safe@[t] == pos@.blocked_at(t),
                    forall|x: Move|
                        #![trigger out@.contains(x)]
                        out@.contains(x) <==> (old(out)@.contains(x) || (pos@.legal_basic(x) && x.from_index()
                            == 82 && (x.kind() < k || (x.kind() == k && x.to_index() < 9 * f)))),
                decreases 9 - f,
            {
                let nifu: bool = k == PAWN && pos.has_pawn_on(side, f);
                let mut r: u8 = 0;
                while r < 9
                    invariant
                        1 <= k <= 7,
                        0 <= f < 9,
                        0 <= r <= 9,
                        side == pos@.side,
                        side < 2,
                        pos@.stand[8 * side + k] > 0,
                        k == PAWN ==> nifu == pawn_on_file(pos@.squares, side as int, f as int),
                        out@.no_duplicates(),
                        forall|x: Move|
                            #![trigger old(out)@.contains(x)]
                            old(out)@.contains(x) ==> x.from_index() != 82,
                        forall|t: int|
                            0 <= t < 81 && pos@.squares[t] == 0 ==> #[trigger] safe@[t] == pos@.blocked_at(t),
                        forall|x: Move|
                            #![trigger out@.contains(x)]
                            out@.contains(x) <==> (old(out)@.contains(x) || (pos@.legal_basic(x)
                                && x.from_index() == 82 && (x.kind() < k || (x.kind() == k && x.to_index() < 9
                                * f + r)))),
                    decreases 9 - r,
                {
                    let to: u8 = 9 * f + r;
                    try_drop(pos, k, to, nifu, safe[to as usize], out);
                    r = r + 1;
                }
                f = f + 1;
            }
        }
        k = k + 1;
    }
}

/// The moves that follow the rules of movement and leave the king safe,
/// without the dominated ones if `wily` is set.
pub(crate) fn generate_basic(pos: &Position, wily: bool) -> (out: Vec<Move>)
    ensures
        out@.no_duplicates(),
        forall|x: Move| #![trigger out@.contains(x)] out@.contains(x) <==> wanted(pos@, x, wily),
{
    let mut out: Vec<Move> = Vec::new();
    let side: u8 = pos.side();
    let mut from: u8 = 0;
    while from < 81
        invariant
            0 <= from <= 81,
            side == pos@.side,
            pos@.wf(),
            out@.no_duplicates(),
            forall|x: Move|
                #![trigger out@.contains(x)]
                out@.contains(x) <==> (wanted(pos@, x, wily) && x.from_index() < from),
        decreases 81 - from,
    {
        let p: u16 = pos.at(from);
        if p != 0 && color_code(p) == side {
            gen_piece(pos, from, wily, &mut out);
        }
        from = from + 1;
    }
    gen_drops(pos, &mut out);
    out
}

/// Whether `m`, a move that follows the rules, drops a pawn that mates.
fn drops_pawn_mate(pos: &Position, m: Move) -> (b: bool)
    requires
        pos@.move_ok(m),
    ensures
        b == pos@.pawn_drop_mate(m),
{
    if !(m.0 / 128 % 128 == 82 && m.0 / 128 / 128 / 2 % 16 == 1) {
        return false;
    }
    let next: Position = pos.after(m);
    let other: u8 = next.side();
    if !next.king_attacked(other) {
        return false;
    }
    let replies: Vec<Move> = generate_basic(&next, false);
    proof {
        if replies.len() > 0 {
            assert(replies@.contains(replies@[0]));
            assert(next@.legal_basic(replies@[0]));
        } else {
            assert forall|x: Move| !#[trigger] next@.legal_basic(x) by {
                if next@.legal_basic(x) {
                    assert(replies@.contains(x));
                }
            }
        }
    }
    replies.len() == 0
}

/// The moves stand in the order of their packed values, each before every
/// greater one.
pub open spec fn ascending(s: Seq<Move>) -> bool {
    forall|i: int, j: int| 0 <= i < j < s.len() ==> (#[trigger] s[i]).0 < (#[trigger] s[j]).0
}

/// A list in ascending order holds nothing twice.
pub proof fn lemma_ascending_no_duplicates(s: Seq<Move>)
    requires
        ascending(s),
    ensures
        s.no_duplicates(),
{
    assert forall|i: int, j: int| 0 <= i < s.len() && 0 <= j < s.len() && i != j implies s[i] != s[j] by {
        if i < j {
            assert(s[i].0 < s[j].0);
        } else {
            assert(s[j].0 < s[i].0);
        }
    }
}

/// Two lists in ascending order that hold the same moves are the same list:
/// the moves that are legal in a position determine the list that is
/// generated for it.
pub proof fn lemma_ascending_unique(a: Seq<Move>, b: Seq<Move>)
    requires
        ascending(a),
        ascending(b),
        forall|x: Move| a.contains(x) <==> b.contains(x),
    ensures
        a == b,
    decreases a.len(),
{
    if a.len() == 0 {
        if b.len() > 0 {
            assert(b.contains(b[0]));
        }
        assert(a =~= b);
    } else {
        assert(a.contains(a[0]));
        let j = choose|j: int| 0 <= j < b.len() && b[j] == a[0];
        if j > 0 {
            assert(b.contains(b[0]));
            let i = choose|i: int| 0 <= i < a.len() && a[i] == b[0];
            assert(b[0].0 < b[j].0);
            if i > 0 {
                assert(a[0].0 < a[i].0);
            }
        }
        assert(b[0] == a[0]);
        let ta = a.skip(1);
        let tb = b.skip(1);
        assert forall|x: Move| ta.contains(x) <==> tb.contains(x) by {
            if ta.contains(x) {
                let i = choose|i: int| 0 <= i < ta.len() && ta[i] == x;
                assert(a[i + 1] == x);
                assert(a.contains(x));
                assert(a[0].0 < a[i + 1].0);
                let k = choose|k: int| 0 <= k < b.len() && b[k] == x;
                assert(k > 0);
                assert(tb[k - 1] == x);
            }
            if tb.contains(x) {
                let i = choose|i: int| 0 <= i < tb.len() && tb[i] == x;
                assert(b[i + 1] == x);
                assert(b.contains(x));
                assert(b[0].0 < b[i + 1].0);
                let k = choose|k: int| 0 <= k < a.len() && a[k] == x;
                assert(k > 0);
                assert(ta[k - 1] == x);
            }
        }
        assert(ascending(ta)) by {
            assert forall|i: int, k: int| 0 <= i < k < ta.len() implies (#[trigger] ta[i]).0 < (#[trigger] ta[k]).0 by {
                assert(a[i + 1].0 < a[k + 1].0);
            }
        }
        assert(ascending(tb)) by {
            assert forall|i: int, k: int| 0 <= i < k < tb.len() implies (#[trigger] tb[i]).0 < (#[trigger] tb[k]).0 by {
                assert(b[i + 1].0 < b[k + 1].0);
            }
        }
        lemma_ascending_unique(ta, tb);
        assert(a =~= seq![a[0]] + ta);
        assert(b =~= seq![b[0]] + tb);
    }
}

/// Puts `m`, which the list does not hold, at its place in the list.
fn insert_sorted(out: &mut Vec<Move>, m: Move)
    requires
        ascending(old(out)@),
        !old(out)@.contains(m),
    ensures
        ascending(final(out)@),
        forall|x: Move|
            #![trigger final(out)@.contains(x)]
            final(out)@.contains(x) <==> (old(out)@.contains(x) || x == m),
{
    let mut p: usize = 0;
    while p < out.len() && out[p].0 < m.0
        invariant
            0 <= p <= out@.len(),
            out@ == old(out)@,
            forall|j: int| 0 <= j < p ==> (#[trigger] out@[j]).0 < m.0,
        decreases out@.len() - p,
    {
        p = p + 1;
    }
    let ghost before = out@;
    proof {
        assert forall|j: int| p <= j < before.len() implies m.0 < (#[trigger] before[j]).0 by {
            assert(before.contains(before[p as int]));
            assert(before[p as int].0 != m.0);
            if j > p {
                assert(before[p as int].0 < before[j].0);
            }
        }
    }
    out.insert(p, m);
    proof {
        let after = out@;
        assert(after == before.insert(p as int, m));
        assert forall|i: int, j: int| 0 <= i < j < after.len() implies (#[trigger] after[i]).0 < (
        #[trigger] after[j]).0 by {
            let a = if i < p {
                before[i]
            } else if i == p {
                m
            } else {
                before[i - 1]
            };
            let b = if j < p {
                before[j]
            } else if j == p {
                m
            } else {
                before[j - 1]
            };
            assert(after[i] == a && after[j] == b);
            if i < p && j > p {
                assert(before[i].0 < before[j - 1].0 || i == j - 1);
            }
        }
        assert forall|x: Move| #![trigger after.contains(x)] after.contains(x) <==> (before.contains(x) || x
            == m) by {
            if after.contains(x) {
                let i = choose|i: int| 0 <= i < after.len() && after[i] == x;
                if i < p {
                    assert(before[i] == x);
                } else if i > p {
                    assert(before[i - 1] == x);
                }
            }
            if before.contains(x) {
                let i = choose|i: int| 0 <= i < before.len() && before[i] == x;
                if i < p {
                    assert(after[i] == x);
                } else {
                    assert(after[i + 1] == x);
                }
            }
            if x == m {
                assert(after[p as int] == x);
            }
        }
    }
}

/// `x` is one of the first `i` moves of `basic` and drops no pawn that mates.
pub open spec fn kept_upto(basic: Seq<Move>, b: Board, x: Move, i: int) -> bool {
    exists|j: int| 0 <= j < i && #[trigger] basic[j] == x && !b.pawn_drop_mate(x)
}

/// The legal moves of the position, each of them and nothing else, in the
/// order of their packed values. With `wily` set, the dominated ones are
/// left out.
pub(crate) fn generate(pos: &Position, wily: bool) -> (out: Vec<Move>)
    ensures
        ascending(out@),
        out@.no_duplicates(),
        forall|x: Move| #![trigger out@.contains(x)] out@.contains(x) <==> generated(pos@, x, wily),
{
    let basic: Vec<Move> = generate_basic(pos, wily);
    let mut out: Vec<Move> = Vec::new();
    let mut i: usize = 0;
    while i < basic.len()
        invariant
            0 <= i <= basic.len(),
            basic@.no_duplicates(),
            ascending(out@),
            forall|x: Move| #![trigger basic@.contains(x)] basic@.contains(x) <==> wanted(pos@, x, wily),
            forall|x: Move|
                #![trigger out@.contains(x)]
                out@.contains(x) <==> kept_upto(basic@, pos@, x, i as int),
        decreases basic.len() - i,
    {
        let m: Move = basic[i];
        assert(basic@.contains(m));
        let ghost before = out@;
        if !drops_pawn_mate(pos, m) {
            proof {
                if before.contains(m) {
                    let j = choose|j: int| 0 <= j < i && #[trigger] basic@[j] == m && !pos@.pawn_drop_mate(m);
                    assert(basic@[j] != basic@[i as int]);
                }
            }
            insert_sorted(&mut out, m);
        }
        proof {
            assert forall|x: Move| #![trigger out@.contains(x)] out@.contains(x) <==> kept_upto(
                basic@,
                pos@,
                x,
                i + 1,
            ) by {
                if kept_upto(basic@, pos@, x, i + 1) {
                    let j = choose|j: int| 0 <= j < i + 1 && #[trigger] basic@[j] == x && !pos@.pawn_drop_mate(x);
                    if j < i {
                        assert(kept_upto(basic@, pos@, x, i as int));
                    }
                }
                if kept_upto(basic@, pos@, x, i as int) {
                    let j = choose|j: int| 0 <= j < i && #[trigger] basic@[j] == x && !pos@.pawn_drop_mate(x);
                    assert(0 <= j < i + 1);
                }
                if x == m && !pos@.pawn_drop_mate(m) {
                    assert(basic@[i as int] == x);
                }
            }
        }
        i = i + 1;
    }
    proof {
        lemma_ascending_no_duplicates(out@);
        assert forall|x: Move| #![trigger out@.contains(x)] out@.contains(x) <==> generated(pos@, x, wily) by {
            if generated(pos@, x, wily) {
                assert(basic@.contains(x));
                let j = choose|j: int| 0 <= j < basic@.len() && basic@[j] == x;
                assert(kept_upto(basic@, pos@, x, basic@.len() as int));
            }
            if out@.contains(x) {
                let j = choose|j: int| 0 <= j < basic@.len() && #[trigger] basic@[j] == x && !pos@.pawn_drop_mate(x);
                assert(basic@.contains(x));
            }
        }
    }
    out
}

/// The move with the parts of `m` that promotes.
pub open spec fn promoting_twin(m: Move) -> Move {
    Move(Move::pack(m.from_index(), m.to_index(), true, m.kind(), m.captured()) as u32)
}

/// Where a legal move is dominated, the move that promotes instead is
/// legal too and is not dominated: leaving the dominated moves out never
/// leaves a position without a move that had one.
pub proof fn lemma_twin_is_legal(b: Board, m: Move)
    requires
        b.wf(),
        b.legal(m),
        dominated(b, m),
    ensures
        b.legal(promoting_twin(m)),
        !dominated(b, promoting_twin(m)),
{
    let w = promoting_twin(m);
    Move::lemma_pack_parts(m.from_index(), m.to_index(), true, m.kind(), m.captured());
    assert(b.board_move_ok(w));
    let c = b.side as int;
    let a1 = b.apply(m);
    let a2 = b.apply(w);
    assert(a1.kings == a2.kings);
    assert forall|i: int|
        0 <= i < 81 implies #[trigger] a2.squares[i] == a1.squares[i] || (a2.squares[i] != 0 && a1.squares[i]
        != 0 && !owned_by(a2.squares[i], 1 - c) && !owned_by(a1.squares[i], 1 - c)) by {
        assert(valid_piece(b.squares[m.from_index()]));
    }
    crate::board::lemma_attacked_by_same(a2.squares, a1.squares, a2.kings[c] as int, 1 - c);
}

/// With or without the dominated moves, a position has a move to generate
/// or it has none.
pub proof fn lemma_wily_keeps_some(b: Board, m: Move)
    requires
        b.wf(),
        b.legal(m),
    ensures
        exists|x: Move| #[trigger] generated(b, x, true),
{
    if dominated(b, m) {
        lemma_twin_is_legal(b, m);
        assert(generated(b, promoting_twin(m), true));
    } else {
        assert(generated(b, m, true));
    }
}

} // verus!
