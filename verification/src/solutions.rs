//! What the search finds, said without the search: the complete states that
//! can be built up piece by piece through valid states.

use crate::geometry::{lemma_turns_of_rotation, lemma_turns_of_turned};
use crate::piece::{distinct_ids, JigsawPiece};
use crate::search::{found_all, lemma_found_below, Solution};
use crate::state::{
    lemma_first_well_formed, lemma_initial_valid, lemma_successors, lemma_well_formed_counted,
    Placement, State,
};
use vstd::prelude::*;

verus! {

/// Whether `t` continues `s`: it is a well-formed state over the same pool
/// whose first placements are those of `s`, and every state on the way from
/// `s` to `t`, both included, is valid.
pub open spec fn continues(s: State, t: State) -> bool {
    &&& t.pool == s.pool
    &&& t.well_formed()
    &&& s.placements.len() <= t.placements.len()
    &&& t.first(s.placements.len() as int) == s
    &&& forall|n: int|
        s.placements.len() <= n <= t.placements.len() ==> #[trigger] t.first(n).valid()
}

/// Whether `record` is the record of a complete state that continues `s`.
pub open spec fn solves(s: State, record: Seq<Solution>) -> bool {
    exists|t: State| #[trigger] continues(s, t) && t.complete() && t.record() == record
}

/// A well-formed state with one placement more than `s`, after the
/// placements of `s`, is one of the successors of `s`.
pub proof fn lemma_next_is_successor(s: State, t: State) -> (k: int)
    requires
        t.well_formed(),
        t.pool == s.pool,
        t.placements.len() == s.placements.len() + 1,
        t.first(s.placements.len() as int) == s,
    ensures
        0 <= k < s.successors().len(),
        s.successors()[k] == t,
{
    let n = s.placements.len() as int;
    let last = t.placements[n];
    let i = choose|i: int| 0 <= i < s.pool.len() && s.pool[i] == last.piece;
    assert(s.available().contains(s.pool[i]));
    let a = choose|a: int| 0 <= a < s.available().len() && s.available()[a] == last.piece;
    lemma_turns_of_rotation(last.rotation);
    let turns = last.rotation.turns() as int;
    let k = 4 * a + turns;
    assert(s.successors()[k].placements =~= t.placements);
    k
}

/// An element of a concatenation is an element of one of the two parts.
proof fn lemma_contains_concat<A>(a: Seq<A>, b: Seq<A>, x: A)
    ensures
        (a + b).contains(x) <==> a.contains(x) || b.contains(x),
{
    if a.contains(x) {
        let i = choose|i: int| 0 <= i < a.len() && a[i] == x;
        assert((a + b)[i] == x);
    }
    if b.contains(x) {
        let i = choose|i: int| 0 <= i < b.len() && b[i] == x;
        assert((a + b)[a.len() + i] == x);
    }
}

/// What is found below the first `k` successors of a state is what is found
/// from one of them.
pub proof fn lemma_found_below_from(s: State, k: int, record: Seq<Solution>)
    requires
        0 <= k <= s.successors().len(),
    ensures
        s.found_below(k).contains(record) <==> exists|j: int|
            0 <= j < k && (#[trigger] s.successors()[j]).found().contains(record),
    decreases k,
{
    if k > 0 {
        lemma_found_below_from(s, k - 1, record);
        lemma_contains_concat(s.successors()[k - 1].found(), s.found_below(k - 1), record);
    }
}

/// What is found on a stack is what is found from one of its states.
pub proof fn lemma_found_all_from(stack: Seq<State>, record: Seq<Solution>)
    ensures
        found_all(stack).contains(record) <==> exists|j: int|
            0 <= j < stack.len() && (#[trigger] stack[j]).found().contains(record),
    decreases stack.len(),
{
    if stack.len() > 0 {
        let rest = stack.drop_last();
        lemma_found_all_from(rest, record);
        lemma_contains_concat(stack.last().found(), found_all(rest), record);
        if exists|j: int| 0 <= j < stack.len() && (#[trigger] stack[j]).found().contains(record) {
            let j = choose|j: int|
                0 <= j < stack.len() && (#[trigger] stack[j]).found().contains(record);
            if j < rest.len() {
                assert(rest[j] == stack[j]);
            }
        }
    }
}

/// Everything that the search finds from a well-formed state is the record
/// of a complete state that continues it.
pub proof fn lemma_found_solves(s: State, record: Seq<Solution>)
    requires
        s.well_formed(),
        s.found().contains(record),
    ensures
        solves(s, record),
    decreases s.available().len(),
{
    let n = s.placements.len() as int;
    assert(s.placements.take(n) =~= s.placements);
    if s.complete() {
        assert(continues(s, s));
    } else {
        lemma_found_below_from(s, s.successors().len() as int, record);
        let k = choose|k: int|
            0 <= k < s.successors().len() && (#[trigger] s.successors()[k]).found().contains(
                record,
            );
        let next = s.successors()[k];
        lemma_successors(s, k, k);
        lemma_found_solves(next, record);
        let t = choose|t: State| #[trigger]
            continues(next, t) && t.complete() && t.record() == record;
        lemma_first_well_formed(t, n + 1);
        assert(continues(s, t));
    }
}

/// The search finds from a well-formed state the record of every complete
/// state that continues it.
pub proof fn lemma_solves_found(s: State, t: State)
    requires
        s.well_formed(),
        continues(s, t),
        t.complete(),
    ensures
        s.found().contains(t.record()),
    decreases s.available().len(),
{
    let n = s.placements.len() as int;
    if t.placements.len() == n {
        assert(s.placements =~= t.placements);
        assert(s.found()[0] == t.record());
    } else {
        let next = t.first(n + 1);
        lemma_first_well_formed(t, n + 1);
        let k = lemma_next_is_successor(s, next);
        lemma_successors(s, k, k);
        lemma_solves_found(next, t);
        lemma_found_below_from(s, s.successors().len() as int, t.record());
    }
}

/// The search finds from a well-formed state exactly the records of the
/// complete states that continue it.
pub proof fn lemma_found_exactly(s: State, record: Seq<Solution>)
    requires
        s.well_formed(),
    ensures
        s.found().contains(record) <==> solves(s, record),
{
    if s.found().contains(record) {
        lemma_found_solves(s, record);
    }
    if solves(s, record) {
        let t = choose|t: State| #[trigger] continues(s, t) && t.complete() && t.record() == record;
        lemma_solves_found(s, t);
    }
}

/// The search that starts with no piece laid finds exactly the records of
/// the complete well-formed states with at least one piece that can be
/// built up through valid states.
pub proof fn lemma_search_finds_exactly(pool: Seq<JigsawPiece>, record: Seq<Solution>)
    ensures
        found_all(State::initial(pool).successors()).contains(record) <==> exists|t: State|
            #[trigger] continues(State::initial(pool), t) && t.placements.len() > 0
                && t.complete() && t.record() == record,
{
    let start = State::initial(pool);
    let first = start.successors();
    lemma_initial_valid(pool);
    lemma_found_all_from(first, record);
    if found_all(first).contains(record) {
        let k = choose|k: int|
            0 <= k < first.len() && (#[trigger] first[k]).found().contains(record);
        lemma_successors(start, k, k);
        lemma_found_solves(first[k], record);
        let t = choose|t: State| #[trigger]
            continues(first[k], t) && t.complete() && t.record() == record;
        assert(t.first(0).placements =~= start.placements);
        assert(continues(start, t));
    }
    if exists|t: State| #[trigger]
        continues(start, t) && t.placements.len() > 0 && t.complete() && t.record() == record {
        let t = choose|t: State| #[trigger]
            continues(start, t) && t.placements.len() > 0 && t.complete() && t.record()
                == record;
        let next = t.first(1);
        lemma_first_well_formed(t, 1);
        let k = lemma_next_is_successor(start, next);
        lemma_successors(start, k, k);
        lemma_solves_found(next, t);
    }
}

/// Whether `record` has an entry for the piece with the id `id`.
pub open spec fn lists(record: Seq<Solution>, id: u8) -> bool {
    exists|i: int| 0 <= i < record.len() && (#[trigger] record[i]).id == id
}

/// The record of a complete well-formed state over a pool in which no two
/// pieces carry the same id has one entry for each piece of the pool: every
/// id of the pool occurs in it, no id occurs twice, it is as long as the
/// pool, and every turn count is below four.
pub proof fn lemma_complete_record(t: State)
    requires
        t.well_formed(),
        t.complete(),
        distinct_ids(t.pool),
    ensures
        t.record().len() == t.pool.len(),
        forall|j: int| 0 <= j < t.pool.len() ==> lists(t.record(), (#[trigger] t.pool[j]).id),
        forall|i: int, j: int|
            0 <= i < j < t.record().len() ==> (#[trigger] t.record()[i]).id != (
            #[trigger] t.record()[j]).id,
        forall|i: int| 0 <= i < t.record().len() ==> (#[trigger] t.record()[i]).turns < 4,
{
    let unused = |p: JigsawPiece| !t.is_laid(p.id);
    let pool_ids = t.pool.map_values(|p: JigsawPiece| p.id);
    let laid_ids = t.placements.map_values(|p: Placement| p.piece.id);
    assert forall|j: int| 0 <= j < t.pool.len() implies t.is_laid((#[trigger] t.pool[j]).id) by {
        if unused(t.pool[j]) {
            assert(t.available().contains(t.pool[j]));
        }
    }
    assert forall|j: int| 0 <= j < t.pool.len() implies lists(
        t.record(),
        (#[trigger] t.pool[j]).id,
    ) by {
        let i = choose|i: int|
            0 <= i < t.placements.len() && (#[trigger] t.placements[i]).piece.id == t.pool[j].id;
        assert(t.record()[i].id == t.pool[j].id);
    }
    pool_ids.unique_seq_to_set();
    laid_ids.lemma_cardinality_of_set();
    assert(pool_ids.to_set().subset_of(laid_ids.to_set())) by {
        assert forall|id: u8| pool_ids.to_set().contains(id) implies laid_ids.to_set().contains(
            id,
        ) by {
            let i = choose|i: int|
                0 <= i < t.placements.len() && (#[trigger] t.placements[i]).piece.id == id;
            assert(laid_ids[i] == id);
        }
    }
    vstd::set_lib::lemma_len_subset(pool_ids.to_set(), laid_ids.to_set());
    lemma_well_formed_counted(t);
}

/// What the search finds from two different successors of a state has no
/// record in common, if no two pieces of the pool carry the same id: the
/// records differ in the entry of the piece that the successors add.
pub proof fn lemma_successors_found_apart(s: State, j: int, k: int, record: Seq<Solution>)
    requires
        s.well_formed(),
        distinct_ids(s.pool),
        0 <= j < s.successors().len(),
        0 <= k < s.successors().len(),
        j != k,
        s.successors()[j].found().contains(record),
    ensures
        !s.successors()[k].found().contains(record),
{
    let n = s.placements.len() as int;
    let a = s.successors()[j];
    let b = s.successors()[k];
    lemma_successors(s, j, k);
    lemma_successors(s, k, j);
    if b.found().contains(record) {
        lemma_found_solves(a, record);
        lemma_found_solves(b, record);
        let t = choose|t: State| #[trigger] continues(a, t) && t.complete() && t.record() == record;
        let u = choose|u: State| #[trigger] continues(b, u) && u.complete() && u.record() == record;
        assert(t.record()[n] == u.record()[n]);
        lemma_turns_of_turned((j % 4) as nat);
        lemma_turns_of_turned((k % 4) as nat);
    }
}

/// If no two pieces of the pool carry the same id, the search reports no
/// solution twice.
pub proof fn lemma_found_once(s: State)
    requires
        s.well_formed(),
        distinct_ids(s.pool),
    ensures
        s.found().no_duplicates(),
    decreases s.available().len(), 4 * s.available().len() + 1,
{
    if s.valid() && !s.complete() {
        lemma_found_below_once(s, 4 * (s.available().len() as int));
    }
}

/// If no two pieces of the pool carry the same id, no solution is found
/// twice below the first `k` successors of a state.
pub proof fn lemma_found_below_once(s: State, k: int)
    requires
        s.well_formed(),
        distinct_ids(s.pool),
        0 <= k <= s.successors().len(),
    ensures
        s.found_below(k).no_duplicates(),
    decreases s.available().len(), k,
{
    if k > 0 {
        let head = s.successors()[k - 1].found();
        let tail = s.found_below(k - 1);
        lemma_successors(s, k - 1, k - 1);
        lemma_found_once(s.successors()[k - 1]);
        lemma_found_below_once(s, k - 1);
        assert forall|i: int, j: int| 0 <= i < head.len() && 0 <= j < tail.len() implies head[i]
            != tail[j] by {
            if head[i] == tail[j] {
                let record = head[i];
                lemma_found_below_from(s, k - 1, record);
                let m = choose|m: int|
                    0 <= m < k - 1 && (#[trigger] s.successors()[m]).found().contains(record);
                lemma_successors_found_apart(s, m, k - 1, record);
            }
        }
    }
}

/// If no two pieces of the pool carry the same id, the search that starts
/// with no piece laid reports no solution twice.
pub proof fn lemma_search_finds_once(pool: Seq<JigsawPiece>)
    requires
        distinct_ids(pool),
    ensures
        found_all(State::initial(pool).successors()).no_duplicates(),
{
    let start = State::initial(pool);
    let n = start.successors().len() as int;
    lemma_found_below_once(start, n);
    lemma_found_below(start, n);
    assert(start.successors().take(n) =~= start.successors());
}

/// For a pool that is not empty, the search that starts with no piece laid
/// finds what is found from the state in which no piece has been laid.
pub proof fn lemma_search_from_start(pool: Seq<JigsawPiece>)
    requires
        pool.len() > 0,
    ensures
        found_all(State::initial(pool).successors()) == State::initial(pool).found(),
{
    let start = State::initial(pool);
    let n = start.successors().len() as int;
    lemma_initial_valid(pool);
    assert(start.available().contains(pool[0]));
    lemma_found_below(start, n);
    assert(start.successors().take(n) =~= start.successors());
}

} // verus!
