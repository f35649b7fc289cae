//! Mate search: a one-ply detector, an exhaustive search to a fixed depth,
//! and a proof-number search whose answers are checked before they are given.
use crate::state::{lemma_undo_inverts_do, State, StateView};
use crate::types::Move;
use vstd::prelude::*;

verus! {

/// After `m` the side to move is in check.
pub open spec fn gives_check(s: StateView, m: Move) -> bool {
    let b = s.current().apply(m);
    b.in_check(b.side as int)
}

/// The state after `m` is one that a proof may pass through: any state if
/// `strict` is not set, else one whose position repeats no earlier one.
pub open spec fn admitted(s: StateView, m: Move, strict: bool) -> bool {
    strict ==> s.play(m).repetition() == 0
}

/// The side to move can force mate within `depth` plies, checking with
/// every move: it has a legal move that gives check after which the other
/// side is mated within `depth - 1` plies whatever it plays.
#[verifier::opaque]
pub open spec fn attacker_wins(s: StateView, depth: int, strict: bool) -> bool
    decreases depth, 1int,
{
    depth > 0 && exists|m: Move| #[trigger]
        s.current().legal(m) && gives_check(s, m) && admitted(s, m, strict) && defender_loses(
            s.play(m),
            depth - 1,
            strict,
        )
}

/// The side to move, which is in check, is mated now, or every legal move
/// it has leads to a state in which the other side forces mate within
/// `depth - 1` plies.
#[verifier::opaque]
pub open spec fn defender_loses(s: StateView, depth: int, strict: bool) -> bool
    decreases depth, 0int,
{
    depth >= 0 && (s.current().checkmated() || (depth > 0 && forall|m: Move| #[trigger]
        s.current().legal(m) ==> admitted(s, m, strict) && attacker_wins(s.play(m), depth - 1, strict)))
}

/// `m` is a legal move that gives check, after which the other side is
/// mated within `depth - 1` plies whatever it plays.
pub open spec fn winning_move(s: StateView, m: Move, depth: int, strict: bool) -> bool {
    &&& depth > 0
    &&& s.current().legal(m)
    &&& gives_check(s, m)
    &&& admitted(s, m, strict)
    &&& defender_loses(s.play(m), depth - 1, strict)
}

/// The side to move forces mate exactly if it has a move that begins a
/// forced mate.
pub proof fn lemma_attacker_wins(s: StateView, depth: int, strict: bool)
    ensures
        attacker_wins(s, depth, strict) == (depth > 0 && exists|m: Move| #[trigger]
            winning_move(s, m, depth, strict)),
{
    reveal(attacker_wins);
    reveal(defender_loses);
    if attacker_wins(s, depth, strict) {
        let m = choose|m: Move| #[trigger]
            s.current().legal(m) && gives_check(s, m) && admitted(s, m, strict) && defender_loses(
                s.play(m),
                depth - 1,
                strict,
            );
        assert(winning_move(s, m, depth, strict));
    }
    if depth > 0 && exists|m: Move| #[trigger] winning_move(s, m, depth, strict) {
        let m = choose|m: Move| #[trigger] winning_move(s, m, depth, strict);
        assert(s.current().legal(m));
    }
}

/// What it is for the side to move to be mated whatever it plays.
pub proof fn lemma_defender_loses(s: StateView, depth: int, strict: bool)
    ensures
        defender_loses(s, depth, strict) == (depth >= 0 && (s.current().checkmated() || (depth > 0
            && forall|m: Move| #[trigger]
            s.current().legal(m) ==> admitted(s, m, strict) && attacker_wins(s.play(m), depth - 1, strict)))),
{
    reveal(attacker_wins);
    reveal(defender_loses);
}

/// Whether the proof may pass through the current state.
fn admits(state: &State, strict: bool) -> (b: bool)
    requires
        state.wf(),
    ensures
        b == (strict ==> state@.repetition() == 0),
{
    !strict || state.get_repetition().0 == 0
}

/// Searches the replies of the side to move, which is in check: whether it
/// is mated within `depth` plies whatever it plays.
fn defend(state: &mut State, depth: i32, strict: bool) -> (lost: bool)
    requires
        old(state).wf(),
        depth >= 0,
        old(state)@.current().in_check(old(state)@.current().side as int),
    ensures
        final(state).wf(),
        final(state)@ == old(state)@,
        lost == defender_loses(old(state)@, depth as int, strict),
    decreases depth, 0int,
{
    let moves: Vec<Move> = state.generate_legal_moves_nowily();
    proof {
        lemma_defender_loses(state@, depth as int, strict);
    }
    if moves.len() == 0 {
        return true;
    }
    proof {
        assert(moves@.contains(moves@[0]));
        assert(state@.current().legal(moves@[0]));
    }
    if depth == 0 {
        return false;
    }
    let mut i: usize = 0;
    while i < moves.len()
        invariant
            0 <= i <= moves@.len(),
            depth > 0,
            state.wf(),
            state@ == old(state)@,
            forall|x: Move| #![trigger moves@.contains(x)] moves@.contains(x) <==> state@.current().legal(x),
            forall|j: int|
                0 <= j < i ==> admitted(state@, #[trigger] moves@[j], strict) && attacker_wins(
                    state@.play(moves@[j]),
                    depth - 1,
                    strict,
                ),
        decreases moves@.len() - i,
    {
        let m: Move = moves[i];
        assert(moves@.contains(m));
        proof {
            lemma_undo_inverts_do(state@, m);
        }
        state.do_move(m);
        let ok: bool = admits(state, strict);
        let answer: Move = if ok {
            attack(state, depth - 1, strict)
        } else {
            Move(0)
        };
        state.undo_move();
        proof {
            lemma_defender_loses(state@, depth as int, strict);
            lemma_attacker_wins(state@.play(m), depth - 1, strict);
        }
        if answer.0 == 0 {
            return false;
        }
        i = i + 1;
    }
    proof {
        lemma_defender_loses(state@, depth as int, strict);
        assert forall|m: Move| #[trigger] state@.current().legal(m) implies admitted(state@, m, strict)
            && attacker_wins(state@.play(m), depth - 1, strict) by {
            assert(moves@.contains(m));
            let j = choose|j: int| 0 <= j < moves@.len() && moves@[j] == m;
            assert(attacker_wins(state@.play(moves@[j]), depth - 1, strict));
        }
    }
    true
}

/// Searches the checks of the side to move: a move that forces mate within
/// `depth` plies, or "no move" if there is none.
fn attack(state: &mut State, depth: i32, strict: bool) -> (m: Move)
    requires
        old(state).wf(),
    ensures
        final(state).wf(),
        final(state)@ == old(state)@,
        m.0 != 0 ==> winning_move(old(state)@, m, depth as int, strict),
        m.0 == 0 ==> !attacker_wins(old(state)@, depth as int, strict),
    decreases depth, 1int,
{
    proof {
        lemma_attacker_wins(state@, depth as int, strict);
    }
    if depth <= 0 {
        return Move(0);
    }
    let moves: Vec<Move> = state.generate_legal_moves_nowily();
    let mut i: usize = 0;
    while i < moves.len()
        invariant
            0 <= i <= moves@.len(),
            depth > 0,
            state.wf(),
            state@ == old(state)@,
            forall|x: Move| #![trigger moves@.contains(x)] moves@.contains(x) <==> state@.current().legal(x),
            forall|j: int| 0 <= j < i ==> !winning_move(state@, #[trigger] moves@[j], depth as int, strict),
        decreases moves@.len() - i,
    {
        let m: Move = moves[i];
        assert(moves@.contains(m));
        proof {
            lemma_undo_inverts_do(state@, m);
        }
        state.do_move(m);
        let won: bool = state.is_in_check() && admits(state, strict) && defend(state, depth - 1, strict);
        state.undo_move();
        if won {
            assert(m.0 != 0) by {
                assert(Move(0).kind() == 0);
            }
            return m;
        }
        i = i + 1;
    }
    proof {
        assert forall|m: Move| !#[trigger] winning_move(state@, m, depth as int, strict) by {
            if winning_move(state@, m, depth as int, strict) {
                assert(moves@.contains(m));
                let j = choose|j: int| 0 <= j < moves@.len() && moves@[j] == m;
                assert(!winning_move(state@, moves@[j], depth as int, strict));
            }
        }
    }
    Move(0)
}

/// Searches for a mate in `depth` plies at most, in which the side to move
/// checks with each of its moves, by trying every move to that depth.
///
/// Returns the first move of such a mate if there is one, else "no move".
/// The state is the same after the search as before.
pub fn dfs(state: &mut State, depth: i32) -> (m: Move)
    requires
        old(state).wf(),
    ensures
        final(state).wf(),
        final(state)@ == old(state)@,
        m.0 != 0 ==> winning_move(old(state)@, m, depth as int, false),
        m.0 == 0 ==> !attacker_wins(old(state)@, depth as int, false),
{
    attack(state, depth, false)
}

/// A mate in one ply exists exactly if some legal move gives check and
/// leaves the other side mated.
pub proof fn lemma_mate_in_one(s: StateView, m: Move, strict: bool)
    ensures
        winning_move(s, m, 1, strict) == (s.current().legal(m) && gives_check(s, m) && admitted(s, m, strict)
            && s.current().apply(m).checkmated()),
{
    lemma_undo_inverts_do(s, m);
    lemma_defender_loses(s.play(m), 0, strict);
}

/// Looks for a mate in one ply: a legal move that gives check and leaves
/// the other side without a legal move.
///
/// Returns such a move if there is one, else "no move". The state is the
/// same after the search as before.
pub fn mate_1ply(state: &mut State) -> (m: Move)
    requires
        old(state).wf(),
    ensures
        final(state).wf(),
        final(state)@ == old(state)@,
        m.0 != 0 ==> old(state)@.current().legal(m) && gives_check(old(state)@, m) && old(
            state,
        )@.current().apply(m).checkmated(),
        m.0 == 0 ==> forall|x: Move|
            !(#[trigger] old(state)@.current().legal(x) && gives_check(old(state)@, x) && old(
                state,
            )@.current().apply(x).checkmated()),
{
    let m: Move = attack(state, 1, false);
    proof {
        let s = old(state)@;
        lemma_mate_in_one(s, m, false);
        if m.0 == 0 {
            lemma_attacker_wins(s, 1, false);
            assert forall|x: Move|
                !(#[trigger] s.current().legal(x) && gives_check(s, x) && s.current().apply(
                    x,
                ).checkmated()) by {
                lemma_mate_in_one(s, x, false);
            }
        }
    }
    m
}

/// The proof number and the disproof number that stand for "never".
pub const INFINITE: u32 = 1000000000;

/// The depth, in plies, to which the proof-number search looks where the
/// caller sets no limit or a larger one.
pub const DEPTH_CAP: i32 = 1024;

/// The most entries that a table holds, whatever memory is offered.
pub const MAX_ENTRIES: usize = 134217728;

/// The bytes that one entry of the table takes.
pub const ENTRY_BYTES: usize = 24;

/// The depth to which a search with the limit `max_depth` looks: the limit
/// itself, or `DEPTH_CAP` where it is 0 or less, or more than the cap.
pub open spec fn depth_limit(max_depth: i32) -> int {
    if 0 < max_depth <= DEPTH_CAP {
        max_depth as int
    } else {
        DEPTH_CAP as int
    }
}

/// The number of entries of a table that may take `memory_mb` megabytes:
/// as many as fit, but one at least and `MAX_ENTRIES` at most.
pub open spec fn entries_for(memory_mb: usize) -> int {
    let fit = memory_mb * 1048576 / (ENTRY_BYTES as int);
    if fit < 1 {
        1
    } else if fit > MAX_ENTRIES {
        MAX_ENTRIES as int
    } else {
        fit
    }
}

/// A line of play that begins with a move of the attacker, gives check
/// with each of its moves, and ends in mate: the first move begins a forced
/// mate within `depth` plies, and so does every later move of the attacker
/// within what is left of them.
pub open spec fn mating_line(s: StateView, line: Seq<Move>, depth: int, strict: bool) -> bool
    decreases line.len(), 1int,
{
    line.len() > 0 && winning_move(s, line[0], depth, strict) && answered_line(
        s.play(line[0]),
        line.skip(1),
        depth - 1,
        strict,
    )
}

/// A line of play that begins with a move of the defender and goes on as a
/// mating line, or is empty where the defender is mated.
pub open spec fn answered_line(s: StateView, line: Seq<Move>, depth: int, strict: bool) -> bool
    decreases line.len(), 0int,
{
    if line.len() == 0 {
        s.current().checkmated()
    } else {
        s.current().legal(line[0]) && mating_line(s.play(line[0]), line.skip(1), depth - 1, strict)
    }
}

/// What the table remembers of one position.
#[derive(Clone, Copy)]
pub struct Entry {
    pub key: u64,
    pub pn: u32,
    pub dn: u32,
    pub stamp: u64,
}

/// Depth-first proof-number search for mate.
///
/// The solver owns a table of fixed size in which a search remembers the
/// proof and disproof numbers of the positions it has met. The numbers only
/// guide the search: a mate is reported after every line of it has been
/// played out and found to end in mate.
pub struct DfPnSolver {
    table: Vec<Entry>,
    stamp: u64,
}

/// The key under which the table holds a position that is met `depth`
/// plies above the limit of the search: the hash of the position mixed with
/// the depth, since what is found near the limit does not hold further from
/// it.
#[verifier::opaque]
pub open spec fn key_of(hash: u64, depth: int) -> u64 {
    if 0 <= depth <= i32::MAX {
        hash ^ crate::zobrist::mix((depth + 0x51ed27) as u64)
    } else {
        hash
    }
}

/// The key under which the table holds a position that is met `depth`
/// plies above the limit of the search.
fn table_key(hash: u64, depth: i32) -> (k: u64)
    ensures
        k == key_of(hash, depth as int),
{
    reveal(key_of);
    if depth >= 0 {
        hash ^ crate::zobrist::mix_code(depth as u64 + 0x51ed27)
    } else {
        hash
    }
}

/// The slot that comes `step` places after the home slot of `key` in a
/// table of `n` entries: the slots go round.
pub open spec fn slot_of(key: u64, step: int, n: int) -> int {
    ((key as int) % n + step) % n
}

/// The entry holds the position with the key `key`, from the search with
/// the stamp `stamp`.
pub open spec fn holds(e: Entry, key: u64, stamp: u64) -> bool {
    e.key == key && e.stamp == stamp
}

/// The entry holds the position and its numbers can be read.
pub open spec fn hit(e: Entry, key: u64, stamp: u64) -> bool {
    holds(e, key, stamp) && e.pn <= INFINITE && e.dn <= INFINITE
}

/// What is read for `key` from the slots `step` to 3 of the key: the
/// numbers of the first entry that holds the position and can be read, or 1
/// and 1 where there is none.
pub open spec fn looked_up(table: Seq<Entry>, stamp: u64, key: u64, step: int) -> (u32, u32)
    decreases 4 - step,
{
    if step >= 4 || step < 0 {
        (1u32, 1u32)
    } else {
        let e = table[slot_of(key, step, table.len() as int)];
        if hit(e, key, stamp) {
            (e.pn, e.dn)
        } else {
            looked_up(table, stamp, key, step + 1)
        }
    }
}

/// How much an entry is wanted as the place for new numbers of `key`: 3
/// if it holds the position already, 2 if an earlier search left it, 1 if
/// it holds no proof, 0 if it holds a proof.
pub open spec fn claim(e: Entry, key: u64, stamp: u64) -> int {
    if holds(e, key, stamp) {
        3
    } else if e.stamp != stamp {
        2
    } else if e.pn != 0 {
        1
    } else {
        0
    }
}

/// The slot into which new numbers of `key` are put, the slots before
/// `step` having given `target` with the claim `rank`: the first of the four
/// slots of the key with the greatest claim, the home slot if no claim is
/// above 0.
pub open spec fn store_slot(table: Seq<Entry>, stamp: u64, key: u64, step: int, target: int, rank: int) -> int
    decreases 4 - step,
{
    if step >= 4 || step < 0 {
        target
    } else {
        let i = slot_of(key, step, table.len() as int);
        let r = claim(table[i], key, stamp);
        if r > rank {
            store_slot(table, stamp, key, step + 1, i, r)
        } else {
            store_slot(table, stamp, key, step + 1, target, rank)
        }
    }
}

/// The entry of a slot that holds nothing.
pub open spec fn blank_entry() -> Entry {
    Entry { key: 0, pn: 1, dn: 1, stamp: 0 }
}

/// A slot of a key is a slot of the table.
pub proof fn lemma_slot_in_table(key: u64, step: int, n: int)
    requires
        n > 0,
        0 <= step,
    ensures
        0 <= slot_of(key, step, n) < n,
{
}

/// Where no entry of a table carries a stamp, nothing is read under that
/// stamp.
pub proof fn lemma_nothing_read(table: Seq<Entry>, stamp: u64, key: u64, step: int)
    requires
        table.len() > 0,
        0 <= step,
        forall|i: int| 0 <= i < table.len() ==> (#[trigger] table[i]).stamp != stamp,
    ensures
        looked_up(table, stamp, key, step) == (1u32, 1u32),
    decreases 4 - step,
{
    if step < 4 {
        lemma_slot_in_table(key, step, table.len() as int);
        lemma_nothing_read(table, stamp, key, step + 1);
    }
}

/// The first of the slots `step` to 3 of `key` whose entry holds the
/// position; 4 if none does.
pub open spec fn first_holding(table: Seq<Entry>, stamp: u64, key: u64, step: int) -> int
    decreases 4 - step,
{
    if step >= 4 || step < 0 {
        4
    } else if holds(table[slot_of(key, step, table.len() as int)], key, stamp) {
        step
    } else {
        first_holding(table, stamp, key, step + 1)
    }
}

/// New numbers go into the first slot that holds the position, if one
/// does, and into one of the four slots of the key in any case.
pub proof fn lemma_store_slot(table: Seq<Entry>, stamp: u64, key: u64, step: int, target: int, rank: int)
    requires
        table.len() > 0,
        0 <= step <= 4,
        0 <= rank <= 3,
    ensures
        ({
            let r = store_slot(table, stamp, key, step, target, rank);
            let f = first_holding(table, stamp, key, step);
            let n = table.len() as int;
            &&& rank == 3 ==> r == target
            &&& rank < 3 && f < 4 ==> r == slot_of(key, f, n)
            &&& rank < 3 && f == 4 ==> r == target || exists|j: int| step <= j < 4 && r == #[trigger] slot_of(key, j, n)
        }),
    decreases 4 - step,
{
    let n = table.len() as int;
    if step < 4 {
        let i = slot_of(key, step, n);
        let c = claim(table[i], key, stamp);
        if c > rank {
            lemma_store_slot(table, stamp, key, step + 1, i, c);
            let r = store_slot(table, stamp, key, step + 1, i, c);
            if c < 3 && first_holding(table, stamp, key, step + 1) == 4 {
                if r != i {
                    let j = choose|j: int| step + 1 <= j < 4 && r == #[trigger] slot_of(key, j, n);
                    assert(step <= j < 4 && r == slot_of(key, j, n));
                } else {
                    assert(step <= step < 4 && r == slot_of(key, step, n));
                }
            }
        } else {
            lemma_store_slot(table, stamp, key, step + 1, target, rank);
            let r = store_slot(table, stamp, key, step + 1, target, rank);
            if rank < 3 && first_holding(table, stamp, key, step + 1) == 4 && r != target {
                let j = choose|j: int| step + 1 <= j < 4 && r == #[trigger] slot_of(key, j, n);
                assert(step <= j < 4 && r == slot_of(key, j, n));
            }
        }
    }
}

/// The first slot that holds the position is sought from `step` on.
pub proof fn lemma_first_holding_range(table: Seq<Entry>, stamp: u64, key: u64, step: int)
    requires
        0 <= step <= 4,
    ensures
        step <= first_holding(table, stamp, key, step) <= 4,
    decreases 4 - step,
{
    if step < 4 {
        lemma_first_holding_range(table, stamp, key, step + 1);
    }
}

/// No slot before the first that holds the position holds it.
pub proof fn lemma_first_holding(table: Seq<Entry>, stamp: u64, key: u64, step: int, j: int)
    requires
        0 <= step <= j < 4,
        j < first_holding(table, stamp, key, step),
    ensures
        !holds(table[slot_of(key, j, table.len() as int)], key, stamp),
    decreases 4 - step,
{
    if step < j {
        lemma_first_holding(table, stamp, key, step + 1, j);
    }
}

/// The first slot that holds the position does hold it.
pub proof fn lemma_first_holds(table: Seq<Entry>, stamp: u64, key: u64, step: int)
    requires
        0 <= step,
        first_holding(table, stamp, key, step) < 4,
    ensures
        step <= first_holding(table, stamp, key, step),
        holds(table[slot_of(key, first_holding(table, stamp, key, step), table.len() as int)], key, stamp),
    decreases 4 - step,
{
    if step < 4 && !holds(table[slot_of(key, step, table.len() as int)], key, stamp) {
        lemma_first_holds(table, stamp, key, step + 1);
    }
}

/// Where the slot `t` comes at the step `j` and no slot before it holds
/// the position, what is read is what the slot `t` holds.
pub proof fn lemma_read_at(table: Seq<Entry>, stamp: u64, key: u64, step: int, j: int, e: Entry)
    requires
        table.len() > 0,
        0 <= step <= j < 4,
        table[slot_of(key, j, table.len() as int)] == e,
        hit(e, key, stamp),
        forall|i: int| step <= i < j ==> !holds(table[#[trigger] slot_of(key, i, table.len() as int)], key, stamp),
    ensures
        looked_up(table, stamp, key, step) == (e.pn, e.dn),
    decreases 4 - step,
{
    if step < j {
        assert(!holds(table[slot_of(key, step, table.len() as int)], key, stamp));
        lemma_read_at(table, stamp, key, step + 1, j, e);
    }
}

/// The least step at which the slot `t`, one of the four slots of `key`,
/// comes.
pub open spec fn first_step(key: u64, n: int, t: int, step: int) -> int
    decreases 4 - step,
{
    if step >= 4 || step < 0 {
        4
    } else if slot_of(key, step, n) == t {
        step
    } else {
        first_step(key, n, t, step + 1)
    }
}

/// The least step of a slot is a step of it, and no step before it is.
pub proof fn lemma_first_step(key: u64, n: int, t: int, step: int, j: int)
    requires
        0 <= step <= j < 4,
        slot_of(key, j, n) == t,
    ensures
        step <= first_step(key, n, t, step) <= j,
        slot_of(key, first_step(key, n, t, step), n) == t,
        forall|i: int| step <= i < first_step(key, n, t, step) ==> #[trigger] slot_of(key, i, n) != t,
    decreases 4 - step,
{
    if slot_of(key, step, n) != t {
        lemma_first_step(key, n, t, step + 1, j);
    }
}

/// What is stored for a position is what is read for it afterwards.
pub proof fn lemma_store_then_read(table: Seq<Entry>, stamp: u64, key: u64, pn: u32, dn: u32)
    requires
        table.len() > 0,
        pn <= INFINITE,
        dn <= INFINITE,
    ensures
        ({
            let n = table.len() as int;
            let t = store_slot(table, stamp, key, 0, slot_of(key, 0, n), 0);
            looked_up(table.update(t, (Entry { key, pn, dn, stamp })), stamp, key, 0) == (pn, dn)
        }),
{
    let n = table.len() as int;
    let e = Entry { key, pn, dn, stamp };
    let t = store_slot(table, stamp, key, 0, slot_of(key, 0, n), 0);
    let after = table.update(t, e);
    let f = first_holding(table, stamp, key, 0);
    lemma_store_slot(table, stamp, key, 0, slot_of(key, 0, n), 0);
    lemma_first_holding_range(table, stamp, key, 0);
    lemma_slot_in_table(key, 0, n);
    // The slot is one of the four; take its least step.
    if f < 4 {
        lemma_first_holds(table, stamp, key, 0);
    }
    let some_step: int = if f < 4 {
        f
    } else if t == slot_of(key, 0, n) {
        0
    } else {
        choose|j: int| 0 <= j < 4 && t == #[trigger] slot_of(key, j, n)
    };
    assert(0 <= some_step < 4 && slot_of(key, some_step, n) == t);
    lemma_first_step(key, n, t, 0, some_step);
    let j1 = first_step(key, n, t, 0);
    lemma_slot_in_table(key, j1, n);
    assert(after[slot_of(key, j1, n)] == e);
    assert forall|i: int| 0 <= i < j1 implies !holds(after[#[trigger] slot_of(key, i, n)], key, stamp) by {
        lemma_slot_in_table(key, i, n);
        assert(slot_of(key, i, n) != t);
        assert(after[slot_of(key, i, n)] == table[slot_of(key, i, n)]);
        // Before the first slot that holds the position none holds it.
        lemma_first_holding(table, stamp, key, 0, i);
    }
    lemma_read_at(after, stamp, key, 0, j1, e);
}

/// The depth of the search that follows one to `depth`: the next of 5, 9
/// and 13 that lies below `limit`, or `limit`.
pub open spec fn next_depth(depth: int, limit: int) -> int {
    if depth < 5 && 5 < limit {
        5
    } else if depth < 9 && 9 < limit {
        9
    } else if depth < 13 && 13 < limit {
        13
    } else {
        limit
    }
}

/// Into how many shares the nodes that are left are split before the search
/// to `depth`: one for each depth of the schedule from `depth` on.
pub open spec fn shares_at(depth: int, limit: int) -> int {
    if depth >= limit {
        1
    } else if depth <= 5 {
        4
    } else if depth <= 9 {
        3
    } else {
        2
    }
}

/// The nodes that a search may use where `max_node_count` was asked for.
pub open spec fn budget_of(max_node_count: u64) -> u64 {
    if max_node_count == 0 {
        u64::MAX
    } else {
        max_node_count
    }
}

/// The fuel for playing out what a search found with `used` nodes.
pub open spec fn fuel_after(used: u64) -> u64 {
    if used > 1000000000 {
        u64::MAX
    } else {
        ((used + 1000) * 16) as u64
    }
}

/// The table holds the state as proved where it is met `depth` plies above
/// the limit: the proof number that is read for it is 0.
pub open spec fn held_proved(table: Seq<Entry>, stamp: u64, s: StateView, depth: int) -> bool {
    looked_up(table, stamp, key_of(crate::zobrist::hash_of(s.current()), depth), 0).0 == 0
}

/// The side to move forces mate within `depth` plies along what the table
/// holds as proved: it has a legal move that gives check, after which the
/// table holds the state as proved and the other side is mated, along the
/// table again, whatever it plays.
#[verifier::opaque]
pub open spec fn guided_attacker_wins(
    table: Seq<Entry>,
    stamp: u64,
    s: StateView,
    depth: int,
    strict: bool,
) -> bool
    decreases depth, 1int,
{
    depth > 0 && exists|m: Move| #[trigger]
        s.current().legal(m) && gives_check(s, m) && admitted(s, m, strict) && held_proved(
            table,
            stamp,
            s.play(m),
            depth - 1,
        ) && guided_defender_loses(table, stamp, s.play(m), depth - 1, strict)
}

/// The side to move has no legal move, or every legal move it has leads to
/// a state in which the other side forces mate within `depth - 1` plies
/// along what the table holds as proved.
#[verifier::opaque]
pub open spec fn guided_defender_loses(
    table: Seq<Entry>,
    stamp: u64,
    s: StateView,
    depth: int,
    strict: bool,
) -> bool
    decreases depth, 0int,
{
    depth >= 0 && ((forall|m: Move| !#[trigger] s.current().legal(m)) || (depth > 0 && forall|m: Move| #[trigger]
        s.current().legal(m) ==> admitted(s, m, strict) && guided_attacker_wins(
            table,
            stamp,
            s.play(m),
            depth - 1,
            strict,
        )))
}

/// `m` is a legal move that gives check, after which the table holds the
/// state as proved and the other side is mated within `depth - 1` plies
/// along the table.
pub open spec fn guided_move(
    table: Seq<Entry>,
    stamp: u64,
    s: StateView,
    m: Move,
    depth: int,
    strict: bool,
) -> bool {
    &&& depth > 0
    &&& s.current().legal(m)
    &&& gives_check(s, m)
    &&& admitted(s, m, strict)
    &&& held_proved(table, stamp, s.play(m), depth - 1)
    &&& guided_defender_loses(table, stamp, s.play(m), depth - 1, strict)
}

/// The side to move forces mate along the table exactly if it has a move
/// that begins such a mate.
pub proof fn lemma_guided_attacker(table: Seq<Entry>, stamp: u64, s: StateView, depth: int, strict: bool)
    ensures
        guided_attacker_wins(table, stamp, s, depth, strict) == (depth > 0 && exists|m: Move| #[trigger]
            guided_move(table, stamp, s, m, depth, strict)),
{
    reveal(guided_attacker_wins);
    reveal(guided_defender_loses);
    if guided_attacker_wins(table, stamp, s, depth, strict) {
        let m = choose|m: Move| #[trigger]
            s.current().legal(m) && gives_check(s, m) && admitted(s, m, strict) && held_proved(
                table,
                stamp,
                s.play(m),
                depth - 1,
            ) && guided_defender_loses(table, stamp, s.play(m), depth - 1, strict);
        assert(guided_move(table, stamp, s, m, depth, strict));
    }
    if depth > 0 && exists|m: Move| #[trigger] guided_move(table, stamp, s, m, depth, strict) {
        let m = choose|m: Move| #[trigger] guided_move(table, stamp, s, m, depth, strict);
        assert(s.current().legal(m));
    }
}

/// What it is for the side to move to be mated along the table.
pub proof fn lemma_guided_defender(table: Seq<Entry>, stamp: u64, s: StateView, depth: int, strict: bool)
    ensures
        guided_defender_loses(table, stamp, s, depth, strict) == (depth >= 0 && ((forall|m: Move|
            !#[trigger] s.current().legal(m)) || (depth > 0 && forall|m: Move| #[trigger]
            s.current().legal(m) ==> admitted(s, m, strict) && guided_attacker_wins(
                table,
                stamp,
                s.play(m),
                depth - 1,
                strict,
            )))),
{
    reveal(guided_attacker_wins);
    reveal(guided_defender_loses);
}

impl DfPnSolver {
    /// The table has room for an entry, and no entry is from a search later
    /// than the present one.
    pub closed spec fn wf(&self) -> bool {
        &&& self.table@.len() > 0
        &&& forall|i: int| 0 <= i < self.table@.len() ==> (#[trigger] self.table@[i]).stamp <= self.stamp
    }

    /// The number of entries of the table.
    pub closed spec fn capacity(&self) -> int {
        self.table@.len() as int
    }

    /// Creates a solver whose table takes up to `memory_mb` megabytes.
    pub fn new(memory_mb: usize) -> (solver: Self)
        ensures
            solver.wf(),
            solver.capacity() == entries_for(memory_mb),
    {
        let fit: u128 = memory_mb as u128 * 1048576 / (ENTRY_BYTES as u128);
        let n: usize = if fit < 1 {
            1
        } else if fit > MAX_ENTRIES as u128 {
            MAX_ENTRIES
        } else {
            fit as usize
        };
        let mut table: Vec<Entry> = Vec::with_capacity(n);
        let mut i: usize = 0;
        while i < n
            invariant
                0 <= i <= n,
                table@.len() == i,
                forall|j: int| 0 <= j < table@.len() ==> (#[trigger] table@[j]).stamp == 0,
            decreases n - i,
        {
            table.push(Entry { key: 0, pn: 1, dn: 1, stamp: 0 });
            i = i + 1;
        }
        DfPnSolver { table, stamp: 0 }
    }

    /// The slot that comes `step` places after the home slot of `key`.
    fn slot(&self, key: u64, step: u64) -> (i: usize)
        requires
            self.wf(),
            step < 4,
        ensures
            i == slot_of(key, step as int, self.table@.len() as int),
            i < self.table@.len(),
    {
        let n: u128 = self.table.len() as u128;
        ((key as u128 % n + step as u128) % n) as usize
    }

    /// What the table holds for the position with the given key: its
    /// numbers, or 1 and 1 for a position it does not hold.
    fn lookup(&self, key: u64) -> (r: (u32, u32))
        requires
            self.wf(),
        ensures
            r == looked_up(self.table@, self.stamp, key, 0),
            r.0 <= INFINITE,
            r.1 <= INFINITE,
    {
        let mut step: u64 = 0;
        while step < 4
            invariant
                self.wf(),
                0 <= step <= 4,
                looked_up(self.table@, self.stamp, key, 0) == looked_up(self.table@, self.stamp, key, step as int),
            decreases 4 - step,
        {
            let e: Entry = self.table[self.slot(key, step)];
            if e.key == key && e.stamp == self.stamp && e.pn <= INFINITE && e.dn <= INFINITE {
                return (e.pn, e.dn);
            }
            step = step + 1;
        }
        (1, 1)
    }

    /// Puts the numbers of a position into the table: into the slot that
    /// holds the position already, else into one of its four slots that an
    /// earlier search left, else into one that holds no proof, else into its
    /// home slot. Nothing else of the table changes.
    fn store(&mut self, key: u64, pn: u32, dn: u32)
        requires
            old(self).wf(),
        ensures
            final(self).wf(),
            final(self).capacity() == old(self).capacity(),
            final(self).stamp == old(self).stamp,
            final(self).table@ == old(self).table@.update(
                store_slot(
                    old(self).table@,
                    old(self).stamp,
                    key,
                    0,
                    slot_of(key, 0, old(self).table@.len() as int),
                    0,
                ),
                (Entry { key, pn, dn, stamp: old(self).stamp }),
            ),
            pn <= INFINITE && dn <= INFINITE ==> looked_up(final(self).table@, final(self).stamp, key, 0) == (
                pn,
                dn,
            ),
    {
        proof {
            if pn <= INFINITE && dn <= INFINITE {
                lemma_store_then_read(self.table@, self.stamp, key, pn, dn);
            }
        }
        let stamp: u64 = self.stamp;
        let mut target: usize = self.slot(key, 0);
        let mut rank: u8 = 0;
        let mut step: u64 = 0;
        while step < 4
            invariant
                self.wf(),
                *self == *old(self),
                stamp == self.stamp,
                0 <= step <= 4,
                rank <= 3,
                target < self.table@.len(),
                store_slot(self.table@, stamp, key, 0, slot_of(key, 0, self.table@.len() as int), 0)
                    == store_slot(self.table@, stamp, key, step as int, target as int, rank as int),
            decreases 4 - step,
        {
            let i: usize = self.slot(key, step);
            let e: Entry = self.table[i];
            let r: u8 = if e.key == key && e.stamp == stamp {
                3
            } else if e.stamp != stamp {
                2
            } else if e.pn != 0 {
                1
            } else {
                0
            };
            if r > rank {
                rank = r;
                target = i;
            }
            step = step + 1;
        }
        self.table.set(target, Entry { key, pn, dn, stamp });
    }

    /// Begins a new search: the stamp of the solver goes up by one, so that
    /// nothing of what earlier searches left in the table is read again.
    /// Where the stamp cannot go up, every slot is emptied and the stamp
    /// becomes 1.
    fn renew(&mut self)
        requires
            old(self).wf(),
        ensures
            final(self).wf(),
            final(self).capacity() == old(self).capacity(),
            old(self).stamp < u64::MAX ==> final(self).stamp == old(self).stamp + 1 && final(self).table@ == old(
                self,
            ).table@,
            old(self).stamp == u64::MAX ==> final(self).stamp == 1 && final(self).table@ == Seq::new(
                old(self).table@.len(),
                |i: int| blank_entry(),
            ),
            forall|key: u64| #[trigger] looked_up(final(self).table@, final(self).stamp, key, 0) == (1u32, 1u32),
    {
        if self.stamp == u64::MAX {
            let mut i: usize = 0;
            while i < self.table.len()
                invariant
                    0 <= i <= self.table@.len(),
                    self.table@.len() == old(self).table@.len(),
                    self.stamp == u64::MAX,
                    forall|j: int| 0 <= j < i ==> #[trigger] self.table@[j] == blank_entry(),
                decreases self.table@.len() - i,
            {
                self.table.set(i, Entry { key: 0, pn: 1, dn: 1, stamp: 0 });
                i = i + 1;
            }
            self.stamp = 0;
            assert(self.table@ =~= Seq::new(old(self).table@.len(), |i: int| blank_entry()));
        }
        self.stamp = self.stamp + 1;
        proof {
            assert forall|key: u64| #[trigger]
                looked_up(self.table@, self.stamp, key, 0) == (1u32, 1u32) by {
                lemma_nothing_read(self.table@, self.stamp, key, 0);
            }
        }
    }

    /// Searches below the current state until its proof number reaches
    /// `th_pn`, its disproof number reaches `th_dn`, or `nodes` is used up,
    /// and returns the two numbers. `attacker` tells whose turn it is.
    ///
    /// With no nodes left nothing is searched and the numbers are 1 and 1.
    /// Where the proof number returned is 0, the table holds the state as
    /// proved afterwards.
    fn mid(
        &mut self,
        state: &mut State,
        th_pn: u32,
        th_dn: u32,
        depth: i32,
        attacker: bool,
        nodes: &mut u64,
    ) -> (r: (u32, u32))
        requires
            old(self).wf(),
            old(state).wf(),
            depth >= 0,
        ensures
            final(self).wf(),
            final(self).capacity() == old(self).capacity(),
            final(state).wf(),
            final(state)@ == old(state)@,
            *final(nodes) <= *old(nodes),
            *old(nodes) > 0 ==> *final(nodes) < *old(nodes),
            r.0 <= INFINITE,
            r.1 <= INFINITE,
            final(self).stamp == old(self).stamp,
            *old(nodes) == 0 ==> r == (1u32, 1u32) && final(self).table@ == old(self).table@,
            r.0 == 0 ==> held_proved(final(self).table@, final(self).stamp, old(state)@, depth as int),
        decreases depth,
    {
        if *nodes == 0 {
            return (1, 1);
        }
        *nodes = *nodes - 1;
        let key: u64 = table_key(state.get_hash(), depth);
        assert(key == key_of(crate::zobrist::hash_of(state@.current()), depth as int));
        if (attacker && depth == 0) || state.get_repetition().0 != 0 {
            return (INFINITE, 0);
        }
        let all: Vec<Move> = state.generate_legal_moves_nowily();
        if depth == 0 {
            // At the limit the defender is mated or the line has failed.
            if all.len() == 0 {
                self.store(key, 0, INFINITE);
                return (0, INFINITE);
            }
            return (INFINITE, 0);
        }
        let mut kids: Vec<Move> = Vec::new();
        let mut pns: Vec<u32> = Vec::new();
        let mut dns: Vec<u32> = Vec::new();
        let mut i: usize = 0;
        while i < all.len()
            invariant
                0 <= i <= all@.len(),
                depth > 0,
                self.wf(),
                self.capacity() == old(self).capacity(),
                self.stamp == old(self).stamp,
                state.wf(),
                state@ == old(state)@,
                forall|x: Move| #![trigger all@.contains(x)] all@.contains(x) <==> state@.current().legal(x),
                kids@.len() == pns@.len(),
                kids@.len() == dns@.len(),
                forall|j: int| 0 <= j < kids@.len() ==> state@.current().legal(#[trigger] kids@[j]),
                forall|j: int| 0 <= j < pns@.len() ==> #[trigger] pns@[j] <= INFINITE,
                forall|j: int| 0 <= j < dns@.len() ==> #[trigger] dns@[j] <= INFINITE,
            decreases all@.len() - i,
        {
            let m: Move = all[i];
            assert(all@.contains(m));
            proof {
                lemma_undo_inverts_do(state@, m);
            }
            state.do_move(m);
            let wanted: bool = !attacker || state.is_in_check();
            let k: u64 = table_key(state.get_hash(), depth - 1);
            state.undo_move();
            if wanted {
                let (p, d) = self.lookup(k);
                kids.push(m);
                pns.push(p);
                dns.push(d);
            }
            i = i + 1;
        }
        if kids.len() == 0 {
            let r: (u32, u32) = if attacker {
                (INFINITE, 0)
            } else {
                (0, INFINITE)
            };
            self.store(key, r.0, r.1);
            return r;
        }
        loop
            invariant
                self.wf(),
                self.capacity() == old(self).capacity(),
                self.stamp == old(self).stamp,
                key == key_of(crate::zobrist::hash_of(state@.current()), depth as int),
                state.wf(),
                state@ == old(state)@,
                depth > 0,
                *nodes < *old(nodes),
                kids@.len() > 0,
                kids@.len() == pns@.len(),
                kids@.len() == dns@.len(),
                forall|j: int| 0 <= j < kids@.len() ==> state@.current().legal(#[trigger] kids@[j]),
                forall|j: int| 0 <= j < pns@.len() ==> #[trigger] pns@[j] <= INFINITE,
                forall|j: int| 0 <= j < dns@.len() ==> #[trigger] dns@[j] <= INFINITE,
            decreases *nodes,
        {
            // The numbers of this node from those of its children: at a node
            // of the attacker the least proof number and the sum of the
            // disproof numbers, at a node of the defender the reverse.
            let n: usize = kids.len();
            let mut best: usize = 0;
            let mut least: u32 = INFINITE;
            let mut second: u32 = INFINITE;
            let mut sum: u64 = 0;
            let mut j: usize = 0;
            while j < n
                invariant
                    0 <= j <= n,
                    n == kids@.len(),
                    n == pns@.len(),
                    n == dns@.len(),
                    n > 0,
                    best < n,
                    least <= INFINITE,
                    second <= INFINITE,
                    sum <= 2 * INFINITE,
                    forall|x: int| 0 <= x < pns@.len() ==> #[trigger] pns@[x] <= INFINITE,
                    forall|x: int| 0 <= x < dns@.len() ==> #[trigger] dns@[x] <= INFINITE,
                decreases n - j,
            {
                let (small, large): (u32, u32) = if attacker {
                    (pns[j], dns[j])
                } else {
                    (dns[j], pns[j])
                };
                if small < least {
                    second = least;
                    least = small;
                    best = j;
                } else if small < second {
                    second = small;
                }
                sum = sum + large as u64;
                if sum > INFINITE as u64 {
                    sum = INFINITE as u64;
                }
                j = j + 1;
            }
            let total: u32 = if sum >= INFINITE as u64 {
                INFINITE
            } else {
                sum as u32
            };
            let (pn, dn): (u32, u32) = if attacker {
                (least, total)
            } else {
                (total, least)
            };
            if pn >= th_pn || dn >= th_dn || *nodes == 0 {
                self.store(key, pn, dn);
                return (pn, dn);
            }
            let part: u32 = if attacker {
                dns[best]
            } else {
                pns[best]
            };
            let th_sum: u32 = if attacker {
                th_dn
            } else {
                th_pn
            };
            let th_least: u32 = if attacker {
                th_pn
            } else {
                th_dn
            };
            let room: u64 = (th_sum - total) as u64 + part as u64;
            let child_sum: u32 = if room >= INFINITE as u64 {
                INFINITE
            } else {
                room as u32
            };
            let child_least: u32 = if second < th_least {
                second + 1
            } else {
                th_least
            };
            let m: Move = kids[best];
            proof {
                lemma_undo_inverts_do(state@, m);
            }
            state.do_move(m);
            let r: (u32, u32) = if attacker {
                self.mid(state, child_least, child_sum, depth - 1, false, nodes)
            } else {
                self.mid(state, child_sum, child_least, depth - 1, true, nodes)
            };
            state.undo_move();
            pns.set(best, r.0);
            dns.set(best, r.1);
        }
    }

    /// Plays out the replies of the side to move, which is in check, along
    /// what the table holds as proved: whether each of them was found to
    /// lose within `depth` plies.
    ///
    /// The answer is yes only where the side is mated along the table, and
    /// no only where it is not or the fuel ran out.
    fn confirm_defend(
        &self,
        state: &mut State,
        depth: i32,
        strict: bool,
        fuel: &mut u64,
    ) -> (lost: bool)
        requires
            self.wf(),
            old(state).wf(),
            depth >= 0,
            old(state)@.current().in_check(old(state)@.current().side as int),
        ensures
            final(state).wf(),
            final(state)@ == old(state)@,
            *final(fuel) <= *old(fuel),
            lost ==> defender_loses(old(state)@, depth as int, strict),
            lost ==> guided_defender_loses(self.table@, self.stamp, old(state)@, depth as int, strict),
            !lost ==> *final(fuel) == 0 || !guided_defender_loses(
                self.table@,
                self.stamp,
                old(state)@,
                depth as int,
                strict,
            ),
        decreases depth, 0int,
    {
        let moves: Vec<Move> = state.generate_legal_moves_nowily();
        proof {
            lemma_defender_loses(state@, depth as int, strict);
            lemma_guided_defender(self.table@, self.stamp, state@, depth as int, strict);
        }
        if moves.len() == 0 {
            proof {
                assert forall|m: Move| !#[trigger] state@.current().legal(m) by {
                    if state@.current().legal(m) {
                        assert(moves@.contains(m));
                    }
                }
            }
            return true;
        }
        proof {
            assert(moves@.contains(moves@[0]));
            assert(state@.current().legal(moves@[0]));
        }
        if depth == 0 {
            return false;
        }
        let mut i: usize = 0;
        while i < moves.len()
            invariant
                0 <= i <= moves@.len(),
                depth > 0,
                self.wf(),
                state.wf(),
                state@ == old(state)@,
                *fuel <= *old(fuel),
                moves@.len() > 0,
                state@.current().legal(moves@[0]),
                forall|x: Move| #![trigger moves@.contains(x)] moves@.contains(x) <==> state@.current().legal(x),
                forall|j: int|
                    0 <= j < i ==> admitted(state@, #[trigger] moves@[j], strict) && attacker_wins(
                        state@.play(moves@[j]),
                        depth - 1,
                        strict,
                    ) && guided_attacker_wins(self.table@, self.stamp, state@.play(moves@[j]), depth - 1, strict),
            decreases moves@.len() - i,
        {
            let m: Move = moves[i];
            assert(moves@.contains(m));
            proof {
                lemma_undo_inverts_do(state@, m);
            }
            state.do_move(m);
            let answer: Move = if admits(state, strict) {
                self.confirm_attack(state, depth - 1, strict, fuel)
            } else {
                Move(0)
            };
            state.undo_move();
            proof {
                lemma_attacker_wins(state@.play(m), depth - 1, strict);
                lemma_guided_attacker(self.table@, self.stamp, state@.play(m), depth - 1, strict);
                lemma_guided_defender(self.table@, self.stamp, state@, depth as int, strict);
            }
            if answer.0 == 0 {
                return false;
            }
            i = i + 1;
        }
        proof {
            lemma_defender_loses(state@, depth as int, strict);
            lemma_guided_defender(self.table@, self.stamp, state@, depth as int, strict);
            assert forall|m: Move| #[trigger] state@.current().legal(m) implies admitted(state@, m, strict)
                && attacker_wins(state@.play(m), depth - 1, strict) && guided_attacker_wins(
                self.table@,
                self.stamp,
                state@.play(m),
                depth - 1,
                strict,
            ) by {
                assert(moves@.contains(m));
                let j = choose|j: int| 0 <= j < moves@.len() && moves@[j] == m;
                assert(attacker_wins(state@.play(moves@[j]), depth - 1, strict));
            }
        }
        true
    }

    /// Plays out the checks of the side to move that lead to a position
    /// which the table holds as proved: a move found to force mate within
    /// `depth` plies, or "no move".
    ///
    /// A move is returned only where it begins a mate along the table, and
    /// "no move" only where there is no such mate or the fuel ran out.
    fn confirm_attack(
        &self,
        state: &mut State,
        depth: i32,
        strict: bool,
        fuel: &mut u64,
    ) -> (m: Move)
        requires
            self.wf(),
            old(state).wf(),
        ensures
            final(state).wf(),
            final(state)@ == old(state)@,
            *final(fuel) <= *old(fuel),
            m.0 != 0 ==> winning_move(old(state)@, m, depth as int, strict),
            m.0 != 0 ==> guided_move(self.table@, self.stamp, old(state)@, m, depth as int, strict),
            m.0 == 0 ==> *final(fuel) == 0 || !guided_attacker_wins(
                self.table@,
                self.stamp,
                old(state)@,
                depth as int,
                strict,
            ),
        decreases depth, 1int,
    {
        proof {
            lemma_guided_attacker(self.table@, self.stamp, state@, depth as int, strict);
        }
        if depth <= 0 || *fuel == 0 {
            return Move(0);
        }
        *fuel = *fuel - 1;
        let moves: Vec<Move> = state.generate_legal_moves_nowily();
        let mut i: usize = 0;
        while i < moves.len()
            invariant
                0 <= i <= moves@.len(),
                depth > 0,
                self.wf(),
                state.wf(),
                state@ == old(state)@,
                *fuel <= *old(fuel),
                forall|x: Move| #![trigger moves@.contains(x)] moves@.contains(x) <==> state@.current().legal(x),
                *fuel == 0 || forall|j: int|
                    0 <= j < i ==> !guided_move(
                        self.table@,
                        self.stamp,
                        state@,
                        #[trigger] moves@[j],
                        depth as int,
                        strict,
                    ),
            decreases moves@.len() - i,
        {
            let m: Move = moves[i];
            assert(moves@.contains(m));
            proof {
                lemma_undo_inverts_do(state@, m);
            }
            state.do_move(m);
            let mut won: bool = false;
            if state.is_in_check() && admits(state, strict) {
                let (pn, _dn) = self.lookup(table_key(state.get_hash(), depth - 1));
                if pn == 0 {
                    won = self.confirm_defend(state, depth - 1, strict, fuel);
                }
            }
            state.undo_move();
            if won {
                assert(m.0 != 0) by {
                    assert(Move(0).kind() == 0);
                }
                return m;
            }
            i = i + 1;
        }
        proof {
            if *fuel != 0 {
                assert forall|m: Move| !#[trigger] guided_move(
                    self.table@,
                    self.stamp,
                    state@,
                    m,
                    depth as int,
                    strict,
                ) by {
                    if guided_move(self.table@, self.stamp, state@, m, depth as int, strict) {
                        assert(moves@.contains(m));
                        let j = choose|j: int| 0 <= j < moves@.len() && moves@[j] == m;
                        assert(!guided_move(self.table@, self.stamp, state@, moves@[j], depth as int, strict));
                    }
                }
            }
        }
        Move(0)
    }

    /// The line made of `m` and, after it, of `rest`.
    fn prepend(m: Move, rest: &Vec<Move>) -> (line: Vec<Move>)
        ensures
            line@ == seq![m] + rest@,
            line@.len() == rest@.len() + 1,
            line@[0] == m,
            line@.skip(1) == rest@,
    {
        let mut line: Vec<Move> = Vec::new();
        line.push(m);
        let mut i: usize = 0;
        while i < rest.len()
            invariant
                0 <= i <= rest@.len(),
                line@ == seq![m] + rest@.take(i as int),
            decreases rest@.len() - i,
        {
            line.push(rest[i]);
            assert(line@ =~= seq![m] + rest@.take(i + 1));
            i = i + 1;
        }
        proof {
            assert(rest@.take(rest@.len() as int) =~= rest@);
            assert(line@.skip(1) =~= rest@);
        }
        line
    }

    /// Extends a mate that begins in the current state by an answer of the
    /// defender and the line that follows it: of the answers whose lines
    /// could be played out, one with a longest line; the empty line where
    /// the defender has no legal move.
    ///
    /// `None` only where the defender is not mated along the table or the
    /// fuel ran out.
    fn line_defend(
        &self,
        state: &mut State,
        depth: i32,
        strict: bool,
        fuel: &mut u64,
    ) -> (r: Option<Vec<Move>>)
        requires
            self.wf(),
            old(state).wf(),
            depth >= 0,
            old(state)@.current().in_check(old(state)@.current().side as int),
        ensures
            final(state).wf(),
            final(state)@ == old(state)@,
            *final(fuel) <= *old(fuel),
            r matches Some(line) ==> answered_line(old(state)@, line@, depth as int, strict),
            r is None ==> *final(fuel) == 0 || !guided_defender_loses(
                self.table@,
                self.stamp,
                old(state)@,
                depth as int,
                strict,
            ),
        decreases depth, 0int,
    {
        let moves: Vec<Move> = state.generate_legal_moves_nowily();
        if moves.len() == 0 {
            let line: Vec<Move> = Vec::new();
            return Some(line);
        }
        proof {
            assert(moves@.contains(moves@[0]));
            assert(state@.current().legal(moves@[0]));
            lemma_guided_defender(self.table@, self.stamp, state@, depth as int, strict);
        }
        if depth == 0 {
            return None;
        }
        let mut best: Vec<Move> = Vec::new();
        let mut i: usize = 0;
        while i < moves.len()
            invariant
                0 <= i <= moves@.len(),
                depth > 0,
                self.wf(),
                state.wf(),
                state@ == old(state)@,
                *fuel <= *old(fuel),
                moves@.len() > 0,
                forall|x: Move| #![trigger moves@.contains(x)] moves@.contains(x) <==> state@.current().legal(x),
                best@.len() > 0 ==> answered_line(state@, best@, depth as int, strict),
                i > 0 && best@.len() == 0 ==> *fuel == 0 || !guided_defender_loses(
                    self.table@,
                    self.stamp,
                    state@,
                    depth as int,
                    strict,
                ),
            decreases moves@.len() - i,
        {
            let m: Move = moves[i];
            assert(moves@.contains(m));
            proof {
                lemma_undo_inverts_do(state@, m);
            }
            state.do_move(m);
            let rest: Vec<Move> = self.line_attack(state, depth - 1, strict, fuel);
            state.undo_move();
            proof {
                lemma_guided_defender(self.table@, self.stamp, state@, depth as int, strict);
            }
            if rest.len() >= best.len() && rest.len() > 0 {
                best = Self::prepend(m, &rest);
            }
            i = i + 1;
        }
        if best.len() == 0 {
            None
        } else {
            Some(best)
        }
    }

    /// A mating line from the current state, played out move by move: the
    /// move that `confirm_attack` finds and the line with which the defender
    /// answers it.
    ///
    /// The line is empty only where the side to move forces no mate along
    /// the table or the fuel ran out.
    fn line_attack(
        &self,
        state: &mut State,
        depth: i32,
        strict: bool,
        fuel: &mut u64,
    ) -> (line: Vec<Move>)
        requires
            self.wf(),
            old(state).wf(),
        ensures
            final(state).wf(),
            final(state)@ == old(state)@,
            *final(fuel) <= *old(fuel),
            line@.len() > 0 ==> mating_line(old(state)@, line@, depth as int, strict),
            line@.len() > 0 ==> guided_move(self.table@, self.stamp, old(state)@, line@[0], depth as int, strict),
            line@.len() == 0 ==> *final(fuel) == 0 || !guided_attacker_wins(
                self.table@,
                self.stamp,
                old(state)@,
                depth as int,
                strict,
            ),
        decreases depth, 1int,
    {
        let line: Vec<Move> = Vec::new();
        let m: Move = self.confirm_attack(state, depth, strict, fuel);
        if m.0 == 0 {
            return line;
        }
        proof {
            lemma_undo_inverts_do(state@, m);
        }
        state.do_move(m);
        let answer: Option<Vec<Move>> = self.line_defend(state, depth - 1, strict, fuel);
        state.undo_move();
        match answer {
            None => line,
            Some(rest) => Self::prepend(m, &rest),
        }
    }

    /// The depth to which a search with the limit `max_depth` looks.
    fn limit_of(max_depth: i32) -> (d: i32)
        ensures
            d == depth_limit(max_depth),
            0 < d <= DEPTH_CAP,
    {
        if 0 < max_depth && max_depth <= DEPTH_CAP {
            max_depth
        } else {
            DEPTH_CAP
        }
    }

    /// The depth of the search that follows one to `depth`, and how many
    /// searches are still to come then: the depths are 5, 9 and 13 and then
    /// `limit`, as far as they lie below `limit`.
    fn plan(depth: i32, limit: i32) -> (r: (i32, u64))
        requires
            0 < depth <= limit,
        ensures
            r.0 == next_depth(depth as int, limit as int),
            r.1 == shares_at(r.0 as int, limit as int),
            depth < limit ==> depth < r.0 <= limit,
            depth == limit ==> r.0 == limit,
            r.1 >= 1,
    {
        if depth >= limit {
            (limit, 1)
        } else if depth < 5 {
            if limit <= 5 {
                (limit, 1)
            } else {
                (5, 4)
            }
        } else if depth < 9 {
            if limit <= 9 {
                (limit, 1)
            } else {
                (9, 3)
            }
        } else if depth < 13 {
            if limit <= 13 {
                (limit, 1)
            } else {
                (13, 2)
            }
        } else {
            (limit, 1)
        }
    }

    /// Runs the proof-number search from the current state to growing
    /// depths, up to `limit`, until the table holds the state as proved or
    /// the nodes are used up; each search may use its share of the nodes
    /// that are left. Returns the depth of the last search and the fuel for
    /// playing out what it found.
    ///
    /// Where the last search was not the one to `limit`, the table holds the
    /// state as proved at its depth, or all the nodes were used.
    fn search(&mut self, state: &mut State, max_node_count: u64, limit: i32) -> (r: (i32, u64))
        requires
            old(self).wf(),
            old(state).wf(),
            0 < limit <= DEPTH_CAP,
        ensures
            final(self).wf(),
            final(self).capacity() == old(self).capacity(),
            final(state).wf(),
            final(state)@ == old(state)@,
            0 < r.0 <= limit,
            r.0 == limit || r.0 == 5 || r.0 == 9 || r.0 == 13,
            r.1 >= 16000,
            exists|used: u64| used <= budget_of(max_node_count) && r.1 == #[trigger] fuel_after(used),
            r.0 < limit ==> held_proved(final(self).table@, final(self).stamp, old(state)@, r.0 as int) || r.1
                == fuel_after(budget_of(max_node_count)),
    {
        let budget: u64 = if max_node_count == 0 {
            u64::MAX
        } else {
            max_node_count
        };
        let mut left: u64 = budget;
        let first: (i32, u64) = Self::plan(1, limit);
        let mut depth: i32 = if limit == 1 {
            1
        } else {
            first.0
        };
        let mut rounds: u64 = first.1;
        loop
            invariant
                self.wf(),
                self.capacity() == old(self).capacity(),
                state.wf(),
                state@ == old(state)@,
                0 < depth <= limit,
                depth == limit || depth == 5 || depth == 9 || depth == 13,
                limit <= DEPTH_CAP,
                left <= budget,
                rounds >= 1,
            ensures
                depth < limit ==> held_proved(self.table@, self.stamp, state@, depth as int) || left == 0,
            decreases limit - depth,
        {
            self.renew();
            let share: u64 = if depth >= limit {
                left
            } else {
                left / rounds
            };
            let mut nodes: u64 = if share < left {
                share + 1
            } else {
                left
            };
            let given: u64 = nodes;
            let r: (u32, u32) = self.mid(state, INFINITE, INFINITE, depth, true, &mut nodes);
            left = left - (given - nodes);
            if r.0 == 0 || left == 0 || depth >= limit {
                break ;
            }
            let next: (i32, u64) = Self::plan(depth, limit);
            depth = next.0;
            rounds = next.1;
        }
        let used: u64 = budget - left;
        let fuel: u64 = if used > 1000000000 {
            u64::MAX
        } else {
            (used + 1000) * 16
        };
        assert(fuel == fuel_after(used));
        (depth, fuel)
    }

    /// Searches for a mate from `state` in which the side to move checks
    /// with each of its moves.
    ///
    /// The search looks at up to `max_node_count` positions and up to
    /// `max_depth` plies deep; 0 sets no limit on the positions, and 0 or a
    /// depth above `DEPTH_CAP` means `DEPTH_CAP`. It looks for a mate in one
    /// ply first, then searches to the depths 5, 9 and 13 and to the limit,
    /// giving each of these searches its share of the positions. What a
    /// search found is then played out; the positions met there are not
    /// counted. With `strict` set, no line of the mate passes through a state
    /// whose position repeats an earlier one.
    ///
    /// Returns the first move of a mate that was found and played out in
    /// full, or "no move": where the search ran out of positions or of
    /// depth as well as where there is no mate. A mate in one ply is always
    /// found. The state is the same after the search as before.
    pub fn solve(&mut self, state: &mut State, max_node_count: u64, max_depth: i32, strict: bool) -> (m:
        Move)
        requires
            old(self).wf(),
            old(state).wf(),
        ensures
            final(self).wf(),
            final(self).capacity() == old(self).capacity(),
            final(state).wf(),
            final(state)@ == old(state)@,
            m.0 != 0 ==> exists|d: int|
                0 < d <= depth_limit(max_depth) && #[trigger] winning_move(old(state)@, m, d, strict),
            attacker_wins(old(state)@, 1, strict) ==> m.0 != 0,
    {
        let depth: i32 = Self::limit_of(max_depth);
        let first: Move = attack(state, 1, strict);
        if first.0 != 0 {
            return first;
        }
        let (reached, mut fuel) = self.search(state, max_node_count, depth);
        self.confirm_attack(state, reached, strict, &mut fuel)
    }

    /// Searches as `solve` does and returns a whole line of the mate: the
    /// moves of both sides from `state` to the mate, the defender choosing at
    /// each of its turns an answer that puts the mate off longest among the
    /// lines that were played out. The line is empty if no mate was found.
    pub fn solve_with_pv(&mut self, state: &mut State, max_node_count: u64, max_depth: i32, strict: bool) -> (line:
        Vec<Move>)
        requires
            old(self).wf(),
            old(state).wf(),
        ensures
            final(self).wf(),
            final(self).capacity() == old(self).capacity(),
            final(state).wf(),
            final(state)@ == old(state)@,
            line@.len() > 0 ==> exists|d: int|
                0 < d <= depth_limit(max_depth) && #[trigger] mating_line(old(state)@, line@, d, strict),
            attacker_wins(old(state)@, 1, strict) ==> line@.len() > 0,
    {
        let depth: i32 = Self::limit_of(max_depth);
        let first: Move = attack(state, 1, strict);
        if first.0 != 0 {
            let mut line: Vec<Move> = Vec::new();
            line.push(first);
            proof {
                let s = old(state)@;
                lemma_mate_in_one(s, first, strict);
                lemma_undo_inverts_do(s, first);
                assert(line@.skip(1) =~= Seq::<Move>::empty());
                assert(answered_line(s.play(first), line@.skip(1), 0, strict));
                assert(mating_line(s, line@, 1, strict));
            }
            return line;
        }
        let (reached, mut fuel) = self.search(state, max_node_count, depth);
        self.line_attack(state, reached, strict, &mut fuel)
    }
}

} // verus!
