//! The state of a game: the initial position and the moves played from it,
//! with the position and the hash that result kept up to date move by move.
use crate::movegen::{ascending, dominated, generate, generated, lemma_wily_keeps_some};
use crate::position::{held_in, lemma_apply_wf, stand_covers, Board, Position};
use crate::types::{Color, Move, MoveGetError, Repetition};
use crate::zobrist::{
    board_hash, compute_board_hash, compute_stand_hash, fold_squares, hash_of, lemma_fold_squares_update,
    lemma_fold_stand_update, lemma_xor_cancel, side_key_code, square_key, square_key_code, stand_hash,
    stand_key_code,
};
use vstd::prelude::*;

verus! {

/// The mathematical content of a state: where the game began and what has
/// been played.
pub struct StateView {
    pub initial: Board,
    pub history: Seq<Move>,
}

impl StateView {
    /// The position after the first `k` moves.
    pub open spec fn position_at(self, k: int) -> Board
        decreases k,
    {
        if k <= 0 {
            self.initial
        } else {
            self.position_at(k - 1).apply(self.history[k - 1])
        }
    }

    /// The position after all the moves.
    pub open spec fn current(self) -> Board {
        self.position_at(self.history.len() as int)
    }

    /// The number of moves played.
    pub open spec fn ply(self) -> int {
        self.history.len() as int
    }

    /// The game began in a position of a game and every move was legal where
    /// it was played.
    pub open spec fn wf(self) -> bool {
        &&& self.initial.wf()
        &&& forall|k: int| 0 <= k < self.history.len() ==> (#[trigger] self.position_at(k)).legal(self.history[k])
    }

    /// The side to move after `k` moves was in check.
    pub open spec fn checked_at(self, k: int) -> bool {
        self.position_at(k).in_check(self.position_at(k).side as int)
    }

    /// Every move that the side not to move now has made since ply `k` gave
    /// check.
    #[verifier::opaque]
    pub open spec fn chased_since(self, k: int) -> bool {
        forall|j: int| k < j <= self.ply() && (self.ply() - j) % 2 == 0 ==> #[trigger] self.checked_at(j)
    }

    /// Every move that the side to move now has made since ply `k` gave
    /// check.
    #[verifier::opaque]
    pub open spec fn chasing_since(self, k: int) -> bool {
        forall|j: int| k < j < self.ply() && (self.ply() - j) % 2 == 1 ==> #[trigger] self.checked_at(j)
    }

    /// How the current position relates to the position after `k` moves, as
    /// the code of a `Repetition`.
    ///
    /// Where the board and the side to move are the same: with the same
    /// stands it is a loss for the side to move if all its moves since gave
    /// check, a win if all the other side's moves did, else a plain
    /// repetition; with other stands the position is superior if the side
    /// to move holds no less of any kind than it did, inferior if it holds
    /// no more. In every other case there is no repetition.
    #[verifier::opaque]
    pub open spec fn relation_to(self, k: int) -> int {
        let cur = self.current();
        let old = self.position_at(k);
        let c = cur.side as int;
        if cur.squares != old.squares || cur.side != old.side {
            0
        } else if cur.stand == old.stand {
            if self.chasing_since(k) {
                3
            } else if self.chased_since(k) {
                2
            } else {
                1
            }
        } else if stand_covers(cur.stand, old.stand, c) {
            4
        } else if stand_covers(old.stand, cur.stand, c) {
            5
        } else {
            0
        }
    }

    /// The relation of the current position to the latest of the positions
    /// after `k`, `k - 2`, `k - 4`, ... moves to which it has one.
    #[verifier::opaque]
    pub open spec fn repetition_from(self, k: int) -> int
        decreases k + 2,
    {
        if k < 0 {
            0
        } else if self.relation_to(k) != 0 {
            self.relation_to(k)
        } else {
            self.repetition_from(k - 2)
        }
    }

    /// The repetition status of the current position: its relation to the
    /// latest earlier position with the same side to move to which it has
    /// one.
    pub open spec fn repetition(self) -> int {
        self.repetition_from(self.ply() - 2)
    }

    /// The state after one more move.
    pub open spec fn play(self, m: Move) -> StateView {
        StateView { initial: self.initial, history: self.history.push(m) }
    }

    /// The state before the last move.
    pub open spec fn undone(self) -> StateView {
        StateView { initial: self.initial, history: self.history.drop_last() }
    }
}

/// The position after `k` moves depends on the first `k` moves only.
pub proof fn lemma_position_at_prefix(a: StateView, b: StateView, k: int)
    requires
        a.initial == b.initial,
        0 <= k <= a.history.len(),
        k <= b.history.len(),
        forall|i: int| 0 <= i < k ==> a.history[i] == b.history[i],
    ensures
        a.position_at(k) == b.position_at(k),
    decreases k,
{
    if k > 0 {
        lemma_position_at_prefix(a, b, k - 1);
    }
}

/// Every position of a well-formed state is a position of a game.
pub proof fn lemma_positions_wf(s: StateView, k: int)
    requires
        s.wf(),
        0 <= k <= s.history.len(),
    ensures
        s.position_at(k).wf(),
    decreases k,
{
    if k > 0 {
        lemma_positions_wf(s, k - 1);
        assert(s.position_at(k - 1).legal(s.history[k - 1]));
        lemma_apply_wf(s.position_at(k - 1), s.history[k - 1]);
    }
}

/// Taking back the move just played gives the state back: the same history,
/// hence the same board, stands, side to move and hash.
pub proof fn lemma_undo_inverts_do(s: StateView, m: Move)
    ensures
        s.play(m).undone() == s,
        s.play(m).undone().current() == s.current(),
        hash_of(s.play(m).undone().current()) == hash_of(s.current()),
        s.play(m).current() == s.current().apply(m),
{
    assert(s.history.push(m).drop_last() =~= s.history);
    lemma_position_at_prefix(s.play(m), s, s.history.len() as int);
}

/// Playing a legal move keeps a state well-formed.
pub proof fn lemma_play_wf(s: StateView, m: Move)
    requires
        s.wf(),
        s.current().legal(m),
    ensures
        s.play(m).wf(),
{
    let t = s.play(m);
    assert forall|k: int| 0 <= k < t.history.len() implies (#[trigger] t.position_at(k)).legal(t.history[k]) by {
        lemma_position_at_prefix(t, s, k);
        if k < s.history.len() {
            assert(s.position_at(k).legal(s.history[k]));
        }
    }
}

/// Taking back a move keeps a state well-formed.
pub proof fn lemma_undone_wf(s: StateView)
    requires
        s.wf(),
        s.history.len() > 0,
    ensures
        s.undone().wf(),
{
    let t = s.undone();
    assert forall|k: int| 0 <= k < t.history.len() implies (#[trigger] t.position_at(k)).legal(t.history[k]) by {
        lemma_position_at_prefix(t, s, k);
        assert(s.position_at(k).legal(s.history[k]));
    }
}

/// Two positions of a game in which each color holds no less of any kind
/// than in the other have the same stands.
pub proof fn lemma_same_stands(a: Board, b: Board)
    requires
        a.wf(),
        b.wf(),
        stand_covers(a.stand, b.stand, 0),
        stand_covers(b.stand, a.stand, 0),
        stand_covers(a.stand, b.stand, 1),
        stand_covers(b.stand, a.stand, 1),
    ensures
        a.stand == b.stand,
{
    assert forall|i: int| 0 <= i < 16 implies a.stand[i] == b.stand[i] by {
        if 1 <= i <= 7 {
            assert(held_in(a.stand, 0, i) >= held_in(b.stand, 0, i));
            assert(held_in(b.stand, 0, i) >= held_in(a.stand, 0, i));
        } else if 9 <= i <= 15 {
            assert(held_in(a.stand, 1, i - 8) >= held_in(b.stand, 1, i - 8));
            assert(held_in(b.stand, 1, i - 8) >= held_in(a.stand, 1, i - 8));
        }
    }
    assert(a.stand =~= b.stand);
}

/// The search for a repetition, one step unfolded.
pub proof fn lemma_repetition_step(s: StateView, k: int)
    ensures
        k < 0 ==> s.repetition_from(k) == 0,
        k >= 0 && s.relation_to(k) != 0 ==> s.repetition_from(k) == s.relation_to(k),
        k >= 0 && s.relation_to(k) == 0 ==> s.repetition_from(k) == s.repetition_from(k - 2),
{
    reveal(StateView::repetition_from);
}

/// Over the last two plies, the checks are those of the last two positions.
pub proof fn lemma_chase_start(s: StateView)
    requires
        s.ply() >= 2,
    ensures
        s.chased_since(s.ply() - 2) == s.checked_at(s.ply()),
        s.chasing_since(s.ply() - 2) == s.checked_at(s.ply() - 1),
{
    reveal(StateView::chased_since);
    reveal(StateView::chasing_since);
    let n = s.ply();
    if s.checked_at(n) {
        assert forall|j: int| n - 2 < j <= n && (n - j) % 2 == 0 implies #[trigger] s.checked_at(j) by {
            assert(j == n);
        }
    }
    if s.checked_at(n - 1) {
        assert forall|j: int| n - 2 < j < n && (n - j) % 2 == 1 implies #[trigger] s.checked_at(j) by {
            assert(j == n - 1);
        }
    }
}

/// Looking two plies further back adds the checks of two positions.
pub proof fn lemma_chase_step(s: StateView, k: int, i: int)
    requires
        2 <= k <= s.ply() - 2,
        s.ply() - k == 2 * i,
    ensures
        s.chased_since(k - 2) == (s.chased_since(k) && s.checked_at(k)),
        s.chasing_since(k - 2) == (s.chasing_since(k) && s.checked_at(k - 1)),
{
    reveal(StateView::chased_since);
    reveal(StateView::chasing_since);
    let n = s.ply();
    if s.chased_since(k) && s.checked_at(k) {
        assert forall|j: int| k - 2 < j <= n && (n - j) % 2 == 0 implies #[trigger] s.checked_at(j) by {
            if j <= k {
                assert(j == k);
            }
        }
    }
    if s.chased_since(k - 2) {
        assert(s.checked_at(k));
        assert forall|j: int| k < j <= n && (n - j) % 2 == 0 implies #[trigger] s.checked_at(j) by {}
    }
    if s.chasing_since(k) && s.checked_at(k - 1) {
        assert forall|j: int| k - 2 < j < n && (n - j) % 2 == 1 implies #[trigger] s.checked_at(j) by {
            if j <= k {
                assert(j == k - 1);
            }
        }
    }
    if s.chasing_since(k - 2) {
        assert(s.checked_at(k - 1));
        assert forall|j: int| k < j < n && (n - j) % 2 == 1 implies #[trigger] s.checked_at(j) by {}
    }
}

/// One entry of the history: a move, the position it led to, and what is
/// remembered of that position.
#[derive(Clone, Copy)]
pub struct Record {
    pub mv: Move,
    pub pos: Position,
    pub board_key: u64,
    pub stand_key: u64,
    pub check: bool,
}

impl Record {
    /// The keys and the check flag are those of the position.
    pub open spec fn consistent(self) -> bool {
        &&& self.board_key == board_hash(self.pos@)
        &&& self.stand_key == stand_hash(self.pos@)
        &&& self.check == self.pos@.in_check(self.pos@.side as int)
        &&& self.pos@.wf()
    }
}

/// The keys of the position after `m`, from the keys of the position before.
fn next_keys(pos: &Position, m: Move, board_key: u64, stand_key: u64) -> (r: (u64, u64))
    requires
        pos@.move_ok(m),
        board_key == board_hash(pos@),
        stand_key == stand_hash(pos@),
    ensures
        r.0 == board_hash(pos@.apply(m)),
        r.1 == stand_hash(pos@.apply(m)),
{
    let side: u8 = pos.side();
    let to: u8 = (m.0 % 128) as u8;
    let from: u8 = (m.0 / 128 % 128) as u8;
    let kind: u8 = (m.0 / 128 / 128 / 2 % 16) as u8;
    let ghost b = pos@;
    let ghost f0 = fold_squares(b.squares, 81);
    let k_old: u64 = side_key_code(side);
    let k_new: u64 = side_key_code(1 - side);
    let mut f: u64 = board_key ^ k_old;
    proof {
        lemma_xor_cancel(f0, k_old, 0);
        assert(f == f0);
    }
    let mut s: u64 = stand_key;
    if from == 82 {
        let p: u16 = crate::board::piece_code(side, kind);
        let i: u8 = 8 * side + kind;
        let n: u8 = pos.stand_entry(i);
        proof {
            lemma_fold_squares_update(b.squares, to as int, p, 81);
            lemma_fold_stand_update(b.stand, i as int, (n - 1) as u8, 16);
            lemma_xor_cancel(f0, 0, 0);
        }
        f = f ^ square_key_code(to, p);
        s = (s ^ stand_key_code(i, n)) ^ stand_key_code(i, n - 1);
    } else {
        let p: u16 = pos.at(from);
        let tp: u16 = pos.at(to);
        let np: u16 = if m.0 / 128 / 128 % 2 == 1 {
            p + 8
        } else {
            p
        };
        proof {
            let mid = b.squares.update(from as int, 0);
            lemma_fold_squares_update(b.squares, from as int, 0, 81);
            lemma_fold_squares_update(mid, to as int, np, 81);
            lemma_xor_cancel(f0 ^ square_key(from as int, p), 0, 0);
        }
        f = ((f ^ square_key_code(from, p)) ^ square_key_code(to, tp)) ^ square_key_code(to, np);
        if tp != 0 {
            let cap: u8 = crate::board::base_kind_code(crate::board::kind_code(tp));
            let i: u8 = 8 * side + cap;
            let n: u8 = pos.stand_entry(i);
            proof {
                lemma_apply_wf(b, m);
                lemma_fold_stand_update(b.stand, i as int, (n + 1) as u8, 16);
                crate::position::lemma_count_bounds(b.squares, cap as int, 81);
                assert(crate::position::count_kind(b.squares, cap as int, 81) + b.stand[cap as int] + b.stand[8
                    + cap] == crate::position::supply(cap as int));
            }
            s = (s ^ stand_key_code(i, n)) ^ stand_key_code(i, n + 1);
        }
    }
    (f ^ k_new, s)
}

/// A game in progress.
///
/// It holds the initial position and every move played since, and keeps for
/// each ply the position reached and its hash.
pub struct State {
    initial: Record,
    records: Vec<Record>,
}

impl View for State {
    type V = StateView;

    closed spec fn view(&self) -> StateView {
        StateView {
            initial: self.initial.pos@,
            history: Seq::new(self.records@.len(), |i: int| self.records@[i].mv),
        }
    }
}

impl State {
    /// What is stored agrees with the history: each ply's record holds the
    /// position that the moves lead to, with its keys, and every move was
    /// legal where it was played.
    pub closed spec fn wf(&self) -> bool {
        &&& self.initial.consistent()
        &&& self@.wf()
        &&& forall|k: int|
            0 <= k < self.records@.len() ==> (#[trigger] self.records@[k]).consistent() && self.records@[k].pos@
                == self@.position_at(k + 1)
    }

    /// The record of the current position.
    fn top(&self) -> (r: Record)
        requires
            self.wf(),
        ensures
            r.consistent(),
            r.pos@ == self@.current(),
            self@.wf(),
    {
        let n: usize = self.records.len();
        if n == 0 {
            self.initial
        } else {
            self.records[n - 1]
        }
    }

    /// A state with no history that begins in `pos`.
    pub fn new(pos: Position) -> (s: State)
        ensures
            s.wf(),
            s@.initial == pos@,
            s@.history.len() == 0,
    {
        let side: u8 = pos.side();
        let initial = Record {
            mv: Move(0),
            pos,
            board_key: compute_board_hash(&pos),
            stand_key: compute_stand_hash(&pos),
            check: pos.king_attacked(side),
        };
        State { initial, records: Vec::new() }
    }

    /// The number of moves played.
    pub(crate) fn history_len(&self) -> (n: usize)
        ensures
            n == self@.history.len(),
    {
        self.records.len()
    }

    /// The move played at ply `i`.
    pub(crate) fn history_at(&self, i: usize) -> (m: Move)
        requires
            i < self@.history.len(),
        ensures
            m == self@.history[i as int],
    {
        self.records[i].mv
    }

    /// Returns the side to move.
    #[inline]
    pub fn get_side_to_move(&self) -> (c: Color)
        requires
            self.wf(),
        ensures
            c.0 == self@.current().side,
            c.is_player(),
    {
        self.top().pos.get_side_to_move()
    }

    /// Returns the number of moves played, or `i32::MAX` if it is larger.
    #[inline]
    pub fn get_ply(&self) -> (n: i32)
        ensures
            n == if self@.ply() <= i32::MAX {
                self@.ply()
            } else {
                i32::MAX as int
            },
    {
        let n: usize = self.records.len();
        if n > i32::MAX as usize {
            i32::MAX
        } else {
            n as i32
        }
    }

    /// Returns the current position.
    pub fn get_position(&self) -> (p: Position)
        requires
            self.wf(),
        ensures
            p@ == self@.current(),
    {
        self.top().pos
    }

    /// Returns the position in which the game began.
    pub fn get_initial_position(&self) -> (p: Position)
        ensures
            p@ == self@.initial,
    {
        self.initial.pos
    }

    /// Returns the move played at `ply`, counted from 0, or an error if
    /// fewer moves have been played.
    pub fn get_history_move(&self, ply: u16) -> (r: Result<Move, MoveGetError>)
        ensures
            ply < self@.ply() ==> r == Ok::<Move, MoveGetError>(self@.history[ply as int]),
            ply >= self@.ply() ==> r is Err,
    {
        if (ply as usize) < self.records.len() {
            Ok(self.records[ply as usize].mv)
        } else {
            Err(MoveGetError::OutOfIndex)
        }
    }

    /// Returns the last move played, or an error in a state with no history.
    #[inline]
    pub fn get_last_move(&self) -> (r: Result<Move, MoveGetError>)
        ensures
            self@.ply() > 0 ==> r == Ok::<Move, MoveGetError>(self@.history.last()),
            self@.ply() == 0 ==> r is Err,
    {
        let n: usize = self.records.len();
        if n > 0 {
            Ok(self.records[n - 1].mv)
        } else {
            Err(MoveGetError::OutOfIndex)
        }
    }

    /// The record of the position after `k` moves.
    fn record_at(&self, k: usize) -> (r: Record)
        requires
            self.wf(),
            k <= self@.ply(),
        ensures
            r.consistent(),
            r.pos@ == self@.position_at(k as int),
    {
        if k == 0 {
            self.initial
        } else {
            self.records[k - 1]
        }
    }

    /// Whether the side to move after `k` moves was in check.
    fn check_at(&self, k: usize) -> (b: bool)
        requires
            self.wf(),
            k <= self@.ply(),
        ensures
            b == self@.checked_at(k as int),
    {
        self.record_at(k).check
    }

    /// How the current position relates to the position after `k` moves.
    fn relation(&self, k: usize, chased: bool, chasing: bool) -> (rel: u8)
        requires
            self.wf(),
            k < self@.ply(),
            chased == self@.chased_since(k as int),
            chasing == self@.chasing_since(k as int),
        ensures
            rel == self@.relation_to(k as int),
            rel <= 5,
    {
        reveal(StateView::relation_to);
        let cur: Record = self.top();
        let old: Record = self.record_at(k);
        let side: u8 = cur.pos.side();
        if old.board_key != cur.board_key || old.pos.side() != side || !cur.pos.same_squares(&old.pos) {
            return 0;
        }
        let same: bool = cur.stand_key == old.stand_key && cur.pos.holds_no_less(&old.pos, 0)
            && old.pos.holds_no_less(&cur.pos, 0) && cur.pos.holds_no_less(&old.pos, 1) && old.pos.holds_no_less(
            &cur.pos,
            1,
        );
        proof {
            if same {
                lemma_same_stands(cur.pos@, old.pos@);
            }
            if cur.pos@.stand == old.pos@.stand {
                assert(stand_covers(cur.pos@.stand, old.pos@.stand, 0));
                assert(stand_covers(cur.pos@.stand, old.pos@.stand, 1));
            }
        }
        if same {
            if chasing {
                3
            } else if chased {
                2
            } else {
                1
            }
        } else if cur.pos.holds_no_less(&old.pos, side) {
            4
        } else if old.pos.holds_no_less(&cur.pos, side) {
            5
        } else {
            0
        }
    }

    /// Returns the repetition status of the current position.
    ///
    /// The current position is held against the earlier positions with the
    /// same side to move, the latest first, and the first that has the same
    /// board decides: see `StateView::relation_to`.
    #[inline]
    pub fn get_repetition(&self) -> (r: Repetition)
        requires
            self.wf(),
        ensures
            r.0 == self@.repetition(),
            r.0 <= 5,
    {
        let n: usize = self.records.len();
        if n < 2 {
            proof {
                lemma_repetition_step(self@, n - 2);
            }
            return Repetition(0);
        }
        let mut k: usize = n - 2;
        let ghost mut steps: int = 1;
        let mut chased: bool = self.check_at(n);
        let mut chasing: bool = self.check_at(n - 1);
        proof {
            lemma_chase_start(self@);
        }
        loop
            invariant
                self.wf(),
                n == self@.ply(),
                n >= 2,
                k <= n - 2,
                n - k == 2 * steps,
                chased == self@.chased_since(k as int),
                chasing == self@.chasing_since(k as int),
                self@.repetition() == self@.repetition_from(k as int),
            decreases k,
        {
            let rel: u8 = self.relation(k, chased, chasing);
            proof {
                lemma_repetition_step(self@, k as int);
                lemma_repetition_step(self@, k - 2);
            }
            if rel != 0 {
                return Repetition(rel);
            }
            if k < 2 {
                return Repetition(0);
            }
            let a: bool = self.check_at(k);
            let b: bool = self.check_at(k - 1);
            proof {
                lemma_chase_step(self@, k as int, steps);
                steps = steps + 1;
            }
            chased = chased && a;
            chasing = chasing && b;
            k = k - 2;
        }
    }

    /// Returns `true` if the side to move may declare a win: its king stands
    /// in its promotion zone and is not in check, ten or more of its other
    /// pieces stand there too, and those pieces and the pieces it holds,
    /// bishops and rooks counting 5 and the others 1, come to 28 or more
    /// for black and 27 or more for white.
    #[inline]
    pub fn can_declare(&self) -> (b: bool)
        requires
            self.wf(),
        ensures
            b == self@.current().can_declare(),
    {
        self.top().pos.can_declare()
    }

    /// Returns the hash of the current position.
    #[inline]
    pub fn get_hash(&self) -> (h: u64)
        requires
            self.wf(),
        ensures
            h == hash_of(self@.current()),
    {
        let r: Record = self.top();
        r.board_key ^ r.stand_key
    }

    /// Returns `true` if the king of the side to move is in check.
    #[inline]
    pub fn is_in_check(&self) -> (b: bool)
        requires
            self.wf(),
        ensures
            b == self@.current().in_check(self@.current().side as int),
    {
        self.top().check
    }

    /// Returns the legal moves of the current position, each once and in the
    /// order of their packed values, without those that are dominated: a move that does not promote a pawn, a bishop or a rook
    /// that could promote, or a lance that reaches one of the two farthest
    /// ranks.
    ///
    /// The list is empty exactly where the side to move has no legal move
    /// at all.
    #[inline]
    pub fn generate_legal_moves(&self) -> (v: Vec<Move>)
        requires
            self.wf(),
        ensures
            ascending(v@),
            v@.no_duplicates(),
            forall|x: Move|
                #![trigger v@.contains(x)]
                v@.contains(x) <==> (self@.current().legal(x) && !dominated(self@.current(), x)),
            v@.len() == 0 <==> (self@.current().checkmated() || self@.current().stalemated()),
    {
        let r: Record = self.top();
        let v: Vec<Move> = generate(&r.pos, true);
        proof {
            let b = self@.current();
            if v@.len() > 0 {
                assert(v@.contains(v@[0]));
                assert(b.legal(v@[0]));
            } else {
                assert forall|x: Move| !#[trigger] b.legal(x) by {
                    if b.legal(x) {
                        lemma_wily_keeps_some(b, x);
                        let y = choose|y: Move| #[trigger] generated(b, y, true);
                        assert(v@.contains(y));
                    }
                }
            }
        }
        v
    }

    /// Returns the legal moves of the current position, all of them, each
    /// once and nothing else, in the order of their packed values: the list
    /// is the same whenever the position is.
    ///
    /// The list is empty exactly where the side to move has lost: by
    /// checkmate if its king is in check, else for want of a move.
    #[inline]
    pub fn generate_legal_moves_nowily(&self) -> (v: Vec<Move>)
        requires
            self.wf(),
        ensures
            ascending(v@),
            v@.no_duplicates(),
            forall|x: Move| #![trigger v@.contains(x)] v@.contains(x) <==> self@.current().legal(x),
            v@.len() == 0 <==> (self@.current().checkmated() || self@.current().stalemated()),
    {
        let r: Record = self.top();
        let v: Vec<Move> = generate(&r.pos, false);
        proof {
            let b = self@.current();
            if v@.len() > 0 {
                assert(v@.contains(v@[0]));
                assert(b.legal(v@[0]));
            } else {
                assert forall|x: Move| !#[trigger] b.legal(x) by {
                    if b.legal(x) {
                        assert(v@.contains(x));
                    }
                }
            }
        }
        v
    }

    /// Plays `m`, which must be a legal move of the current position.
    #[inline]
    pub fn do_move(&mut self, m: Move)
        requires
            old(self).wf(),
            old(self)@.current().legal(m),
        ensures
            final(self).wf(),
            final(self)@ == old(self)@.play(m),
            final(self)@.current() == old(self)@.current().apply(m),
    {
        let r: Record = self.top();
        let next: Position = r.pos.after(m);
        let (board_key, stand_key) = next_keys(&r.pos, m, r.board_key, r.stand_key);
        let side: u8 = next.side();
        let rec = Record { mv: m, pos: next, board_key, stand_key, check: next.king_attacked(side) };
        proof {
            let s = old(self)@;
            let t = s.play(m);
            lemma_play_wf(s, m);
            lemma_undo_inverts_do(s, m);
            let recs = old(self).records@.push(rec);
            assert(Seq::new(recs.len(), |i: int| recs[i].mv) =~= s.history.push(m));
            assert forall|k: int| 0 <= k < recs.len() implies (#[trigger] recs[k]).consistent() && recs[k].pos@
                == t.position_at(k + 1) by {
                if k < old(self).records@.len() {
                    lemma_position_at_prefix(t, s, k + 1);
                }
            }
        }
        self.records.push(rec);
    }

    /// Takes back the last move. The state must have a history.
    #[inline]
    pub fn undo_move(&mut self)
        requires
            old(self).wf(),
            old(self)@.ply() > 0,
        ensures
            final(self).wf(),
            final(self)@ == old(self)@.undone(),
    {
        proof {
            let s = old(self)@;
            let t = s.undone();
            lemma_undone_wf(s);
            let recs = old(self).records@.drop_last();
            assert(Seq::new(recs.len(), |i: int| recs[i].mv) =~= s.history.drop_last());
            assert forall|k: int| 0 <= k < recs.len() implies (#[trigger] recs[k]).consistent() && recs[k].pos@
                == t.position_at(k + 1) by {
                lemma_position_at_prefix(t, s, k + 1);
                assert(old(self).records@[k].consistent());
            }
        }
        self.records.pop();
    }
}

impl Clone for State {
    /// Returns a state of its own with the same initial position and the
    /// same history.
    fn clone(&self) -> (s: State)
        ensures
            s@ == self@,
            self.wf() ==> s.wf(),
    {
        let mut records: Vec<Record> = Vec::new();
        let mut i: usize = 0;
        while i < self.records.len()
            invariant
                0 <= i <= self.records@.len(),
                records@ == self.records@.take(i as int),
            decreases self.records@.len() - i,
        {
            records.push(self.records[i]);
            assert(records@ =~= self.records@.take(i + 1));
            i = i + 1;
        }
        assert(self.records@.take(self.records@.len() as int) =~= self.records@);
        State { initial: self.initial, records }
    }
}

} // verus!
