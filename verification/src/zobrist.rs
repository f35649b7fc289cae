//! The hash of a position: the exclusive or of one key for each occupied
//! square, one for each stand entry and one for the side to move, so that a
//! move changes it by a few keys only.
use crate::position::{Board, Position};
use vstd::prelude::*;

verus! {

/// A fixed scrambling of 64 bits.
pub open spec fn mix(x: u64) -> u64 {
    let a = (x ^ (x >> 30)).wrapping_mul(0xbf58476d1ce4e5b9);
    let b = (a ^ (a >> 27)).wrapping_mul(0x94d049bb133111eb);
    b ^ (b >> 31)
}

/// Scrambles 64 bits.
pub(crate) fn mix_code(x: u64) -> (r: u64)
    ensures
        r == mix(x),
{
    let a: u64 = (x ^ (x >> 30)).wrapping_mul(0xbf58476d1ce4e5b9);
    let b: u64 = (a ^ (a >> 27)).wrapping_mul(0x94d049bb133111eb);
    b ^ (b >> 31)
}

/// Key of piece `p` on square `sq`; an empty square has key 0.
pub open spec fn square_key(sq: int, p: u16) -> u64 {
    if p == 0 {
        0
    } else {
        mix((0x9e3779b97f4a7c15 + sq * 32 + p) as u64)
    }
}

/// Key of stand entry `i` holding `n` pieces; an empty entry has key 0.
pub open spec fn stand_key(i: int, n: u8) -> u64 {
    if n == 0 {
        0
    } else {
        mix((0x3c6ef372fe94f82a + i * 256 + n) as u64)
    }
}

/// Key of the side to move.
pub open spec fn side_key(side: u8) -> u64 {
    if side == 0 {
        0
    } else {
        mix(0x1b873593)
    }
}

/// The exclusive or of the keys of the first `n` squares.
pub open spec fn fold_squares(squares: Seq<u16>, n: int) -> u64
    decreases n,
{
    if n <= 0 {
        0
    } else {
        fold_squares(squares, n - 1) ^ square_key(n - 1, squares[n - 1])
    }
}

/// The exclusive or of the keys of the first `n` stand entries.
pub open spec fn fold_stand(stand: Seq<u8>, n: int) -> u64
    decreases n,
{
    if n <= 0 {
        0
    } else {
        fold_stand(stand, n - 1) ^ stand_key(n - 1, stand[n - 1])
    }
}

/// Hash of what stands on the board and of who moves.
pub open spec fn board_hash(b: Board) -> u64 {
    fold_squares(b.squares, 81) ^ side_key(b.side)
}

/// Hash of the two stands.
pub open spec fn stand_hash(b: Board) -> u64 {
    fold_stand(b.stand, 16)
}

/// Hash of the position.
pub open spec fn hash_of(b: Board) -> u64 {
    board_hash(b) ^ stand_hash(b)
}

/// Key of piece `p` on square `sq`.
pub(crate) fn square_key_code(sq: u8, p: u16) -> (r: u64)
    requires
        sq < 81,
        p < 32,
    ensures
        r == square_key(sq as int, p),
{
    if p == 0 {
        0
    } else {
        mix_code(0x9e3779b97f4a7c15 + sq as u64 * 32 + p as u64)
    }
}

/// Key of stand entry `i` holding `n` pieces.
pub(crate) fn stand_key_code(i: u8, n: u8) -> (r: u64)
    requires
        i < 16,
    ensures
        r == stand_key(i as int, n),
{
    if n == 0 {
        0
    } else {
        mix_code(0x3c6ef372fe94f82a + i as u64 * 256 + n as u64)
    }
}

/// Key of the side to move.
pub(crate) fn side_key_code(side: u8) -> (r: u64)
    ensures
        r == side_key(side),
{
    if side == 0 {
        0
    } else {
        mix_code(0x1b873593)
    }
}

/// Exclusive or can be undone and reordered.
pub proof fn lemma_xor_cancel(a: u64, x: u64, y: u64)
    ensures
        (a ^ x) ^ x == a,
        (a ^ x) ^ y == (a ^ y) ^ x,
        a ^ 0 == a,
        a ^ x == x ^ a,
{
    assert((a ^ x) ^ x == a) by (bit_vector);
    assert((a ^ x) ^ y == (a ^ y) ^ x) by (bit_vector);
    assert(a ^ 0 == a) by (bit_vector);
    assert(a ^ x == x ^ a) by (bit_vector);
}

/// Replacing what stands on square `i` changes the hash of the squares by
/// the key of what left and the key of what came.
pub proof fn lemma_fold_squares_update(squares: Seq<u16>, i: int, v: u16, n: int)
    requires
        0 <= i < squares.len(),
        0 <= n <= squares.len(),
    ensures
        fold_squares(squares.update(i, v), n) == (if i < n {
            (fold_squares(squares, n) ^ square_key(i, squares[i])) ^ square_key(i, v)
        } else {
            fold_squares(squares, n)
        }),
    decreases n,
{
    if n > 0 {
        lemma_fold_squares_update(squares, i, v, n - 1);
        let below = fold_squares(squares, n - 1);
        let ki = square_key(i, squares[i]);
        let kv = square_key(i, v);
        let kn = square_key(n - 1, squares[n - 1]);
        if i == n - 1 {
            lemma_xor_cancel(below, ki, kv);
        } else if i < n - 1 {
            lemma_xor_cancel(below ^ ki, kv, kn);
            lemma_xor_cancel(below, ki, kn);
        }
    }
}

/// The same for a stand entry.
pub proof fn lemma_fold_stand_update(stand: Seq<u8>, i: int, v: u8, n: int)
    requires
        0 <= i < stand.len(),
        0 <= n <= stand.len(),
    ensures
        fold_stand(stand.update(i, v), n) == (if i < n {
            (fold_stand(stand, n) ^ stand_key(i, stand[i])) ^ stand_key(i, v)
        } else {
            fold_stand(stand, n)
        }),
    decreases n,
{
    if n > 0 {
        lemma_fold_stand_update(stand, i, v, n - 1);
        let below = fold_stand(stand, n - 1);
        let ki = stand_key(i, stand[i]);
        let kv = stand_key(i, v);
        let kn = stand_key(n - 1, stand[n - 1]);
        if i == n - 1 {
            lemma_xor_cancel(below, ki, kv);
        } else if i < n - 1 {
            lemma_xor_cancel(below ^ ki, kv, kn);
            lemma_xor_cancel(below, ki, kn);
        }
    }
}

/// The hash of the board and the side to move, computed square by square.
pub(crate) fn compute_board_hash(pos: &Position) -> (h: u64)
    ensures
        h == board_hash(pos@),
{
    let mut h: u64 = 0;
    let mut i: u8 = 0;
    while i < 81
        invariant
            0 <= i <= 81,
            h == fold_squares(pos@.squares, i as int),
        decreases 81 - i,
    {
        let p: u16 = pos.at(i);
        h = h ^ square_key_code(i, p);
        i = i + 1;
    }
    h ^ side_key_code(pos.side())
}

/// The hash of the two stands, computed entry by entry.
pub(crate) fn compute_stand_hash(pos: &Position) -> (h: u64)
    ensures
        h == stand_hash(pos@),
{
    let mut h: u64 = 0;
    let mut i: u8 = 0;
    while i < 16
        invariant
            0 <= i <= 16,
            h == fold_stand(pos@.stand, i as int),
        decreases 16 - i,
    {
        h = h ^ stand_key_code(i, pos.stand_entry(i));
        i = i + 1;
    }
    h
}

/// The hash of a position, computed from the position alone.
pub fn position_hash(pos: &Position) -> (h: u64)
    ensures
        h == hash_of(pos@),
{
    compute_board_hash(pos) ^ compute_stand_hash(pos)
}

} // verus!
