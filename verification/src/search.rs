//! The depth-first search over all ways to lay the pieces.

use crate::field::{states, Field};
use crate::piece::JigsawPiece;
use crate::state::{lemma_successors, lemma_well_formed_counted, Placement, State};
use vstd::prelude::*;

verus! {

/// The largest number of pieces for which every grid point that the search
/// lays a piece on can be computed.
pub const MAX_PIECES: usize = 64;

/// One entry of a reported solution: which piece lies on a grid point, and
/// by how many quarter turns it was turned.
#[derive(Clone, Copy, Debug, PartialEq, Eq, Structural)]
pub struct Solution {
    pub id: u8,
    pub turns: u8,
}

impl State {
    /// The record of this state: for each laid piece, in the order of
    /// laying, its id and the number of quarter turns of its rotation.
    pub open spec fn record(self) -> Seq<Solution> {
        self.placements.map_values(
            |p: Placement| Solution { id: p.piece.id, turns: p.rotation.turns() as u8 },
        )
    }

    /// The solutions that the search reports once this state is taken up,
    /// in the order in which it reports them: nothing if the state is not
    /// valid, its own record if it is valid and complete, and else what is
    /// found below its successors.
    pub open spec fn found(self) -> Seq<Seq<Solution>>
        decreases self.available().len(), 4 * self.available().len() + 1,
    {
        if !self.valid() {
            Seq::empty()
        } else if self.complete() {
            seq![self.record()]
        } else {
            self.found_below(4 * (self.available().len() as int))
        }
    }

    /// The solutions that the search reports below the first `k` successors
    /// of this state. The search takes up the last successor first and
    /// finishes with everything below it before it goes on to the one
    /// before.
    pub open spec fn found_below(self, k: int) -> Seq<Seq<Solution>>
        decreases self.available().len(), k,
    {
        if 0 < k <= 4 * self.available().len() {
            proof {
                lemma_successors(self, k - 1, k - 1);
            }
            self.successors()[k - 1].found() + self.found_below(k - 1)
        } else {
            Seq::empty()
        }
    }
}

/// The solutions that the search reports while it works off `stack`, whose
/// last state is taken up first.
pub open spec fn found_all(stack: Seq<State>) -> Seq<Seq<Solution>>
    decreases stack.len(),
{
    if stack.len() == 0 {
        Seq::empty()
    } else {
        stack.last().found() + found_all(stack.drop_last())
    }
}

/// The stack after one step of the search: the last state is taken off,
/// and if it is valid its successors are put on in its place.
pub open spec fn advance(stack: Seq<State>) -> Seq<State> {
    if stack.len() == 0 {
        stack
    } else if stack.last().valid() {
        stack.drop_last() + stack.last().successors()
    } else {
        stack.drop_last()
    }
}

/// What one step of the search reports: the record of the last state of the
/// stack, if that state is valid and complete.
pub open spec fn reported(stack: Seq<State>) -> Option<Seq<Solution>> {
    if stack.len() > 0 && stack.last().valid() && stack.last().complete() {
        Some(stack.last().record())
    } else {
        None
    }
}

/// A bound on the number of steps that the search spends on a state with
/// `n` available pieces and on everything below it.
pub open spec fn effort(n: nat) -> nat
    decreases n,
{
    if n == 0 {
        1
    } else {
        1 + 4 * n * effort((n - 1) as nat)
    }
}

/// A bound on the number of steps that the search needs to work off
/// `stack`.
pub open spec fn work_left(stack: Seq<State>) -> nat
    decreases stack.len(),
{
    if stack.len() == 0 {
        0
    } else {
        effort(stack.last().available().len()) + work_left(stack.drop_last())
    }
}

/// What is found on a stack made of two parts is what is found on the upper
/// part, followed by what is found on the lower part.
pub proof fn lemma_found_all_concat(lower: Seq<State>, upper: Seq<State>)
    ensures
        found_all(lower + upper) == found_all(upper) + found_all(lower),
    decreases upper.len(),
{
    if upper.len() > 0 {
        lemma_found_all_concat(lower, upper.drop_last());
        assert((lower + upper).drop_last() =~= lower + upper.drop_last());
    }
}

/// What is found below the first `k` successors of a state is what is found
/// on the stack that holds just these successors.
pub proof fn lemma_found_below(s: State, k: int)
    requires
        0 <= k <= 4 * s.available().len(),
    ensures
        s.found_below(k) == found_all(s.successors().take(k)),
    decreases k,
{
    if k > 0 {
        lemma_found_below(s, k - 1);
        assert(s.successors().take(k).drop_last() =~= s.successors().take(k - 1));
    }
}

/// One step of the search loses no solution and invents none: what is
/// found on a stack is what the step reports, followed by what is found on
/// the stack that the step leaves.
pub proof fn lemma_search_step(stack: Seq<State>)
    requires
        stack.len() > 0,
    ensures
        found_all(stack) == match reported(stack) {
            Some(record) => seq![record] + found_all(advance(stack)),
            None => found_all(advance(stack)),
        },
{
    let top = stack.last();
    let rest = stack.drop_last();
    if top.valid() && !top.complete() {
        let n = 4 * (top.available().len() as int);
        lemma_found_below(top, n);
        assert(top.successors().take(n) =~= top.successors());
        lemma_found_all_concat(rest, top.successors());
    }
}

/// A step of the search keeps the states on the stack well-formed.
pub proof fn lemma_advance_well_formed(stack: Seq<State>)
    requires
        forall|i: int| 0 <= i < stack.len() ==> (#[trigger] stack[i]).well_formed(),
    ensures
        forall|i: int|
            0 <= i < advance(stack).len() ==> (#[trigger] advance(stack)[i]).well_formed(),
{
    if stack.len() > 0 {
        let top = stack.last();
        let rest = stack.drop_last();
        assert forall|i: int| 0 <= i < advance(stack).len() implies (#[trigger] advance(
            stack,
        )[i]).well_formed() by {
            if i >= rest.len() {
                lemma_successors(top, i - rest.len(), i - rest.len());
            }
        }
    }
}

/// More available pieces never mean less effort.
pub proof fn lemma_effort_monotone(m: nat, n: nat)
    requires
        m <= n,
    ensures
        effort(m) <= effort(n),
    decreases n,
{
    if m < n {
        lemma_effort_monotone(m, (n - 1) as nat);
        assert(effort((n - 1) as nat) <= 4 * n * effort((n - 1) as nat)) by (nonlinear_arith)
            requires
                n >= 1,
        ;
    }
}

/// The work left on a stack made of two parts is the sum of the work left
/// on the parts.
pub proof fn lemma_work_left_concat(lower: Seq<State>, upper: Seq<State>)
    ensures
        work_left(lower + upper) == work_left(lower) + work_left(upper),
    decreases upper.len(),
{
    if upper.len() > 0 {
        lemma_work_left_concat(lower, upper.drop_last());
        assert((lower + upper).drop_last() =~= lower + upper.drop_last());
    }
}

/// The work left on the first `k` successors of a state with `n > 0`
/// available pieces is at most `k` times the effort for `n - 1` pieces.
proof fn lemma_work_left_successors(s: State, k: int)
    requires
        0 <= k <= 4 * s.available().len(),
    ensures
        work_left(s.successors().take(k)) <= k * effort((s.available().len() - 1) as nat),
    decreases k,
{
    if k > 0 {
        let below = effort((s.available().len() - 1) as nat);
        lemma_work_left_successors(s, k - 1);
        assert(s.successors().take(k).drop_last() =~= s.successors().take(k - 1));
        lemma_successors(s, k - 1, k - 1);
        lemma_effort_monotone(
            s.successors()[k - 1].available().len(),
            (s.available().len() - 1) as nat,
        );
        assert((k - 1) * below + below == k * below) by (nonlinear_arith);
    }
}

/// Every step on a stack that is not empty leaves less work than it found,
/// so the search ends.
pub proof fn lemma_advance_decreases(stack: Seq<State>)
    requires
        stack.len() > 0,
    ensures
        work_left(advance(stack)) < work_left(stack),
{
    let top = stack.last();
    let rest = stack.drop_last();
    let n = top.available().len();
    if top.valid() {
        lemma_work_left_concat(rest, top.successors());
        if n > 0 {
            lemma_work_left_successors(top, 4 * (n as int));
            assert(top.successors().take(4 * (n as int)) =~= top.successors());
        }
    }
}

/// The models of a sequence of records.
pub open spec fn records(found: Seq<Vec<Solution>>) -> Seq<Seq<Solution>> {
    found.map_values(|record: Vec<Solution>| record@)
}

impl<'a> Field<'a> {
    /// The record of this state: for each laid piece, in the order of
    /// laying, its id and the number of quarter turns of its rotation.
    pub fn record(&self) -> (record: Vec<Solution>)
        ensures
            record@ == self@.record(),
    {
        let mut record: Vec<Solution> = Vec::new();
        let mut i: usize = 0;
        while i < self.places.len()
            invariant
                i <= self.places.len(),
                record.len() == i,
                forall|k: int| 0 <= k < i ==> #[trigger] record[k] == self@.record()[k],
            decreases self.places.len() - i,
        {
            let place = &self.places[i];
            record.push(Solution { id: place.piece.id, turns: place.rotation.get_turns() });
            i += 1;
        }
        record
    }
}

/// Whether every one of `fields` is well-formed and has a pool small enough
/// for all its pieces to be laid.
spec fn in_bounds<'a>(fields: Seq<Field<'a>>) -> bool {
    forall|i: int|
        0 <= i < fields.len() ==> (#[trigger] fields[i])@.well_formed() && fields[i]@.pool.len()
            <= MAX_PIECES
}

/// The fields that follow a field in bounds are in bounds.
proof fn lemma_next_in_bounds<'a>(field: State, next: Seq<Field<'a>>)
    requires
        field.well_formed(),
        field.pool.len() <= MAX_PIECES,
        states(next) == field.successors(),
    ensures
        in_bounds(next),
{
    assert forall|i: int| 0 <= i < next.len() implies (#[trigger] next[i])@.well_formed()
        && next[i]@.pool.len() <= MAX_PIECES by {
        lemma_successors(field, i, i);
    }
}

/// A depth-first search in progress: the states that are still to be taken
/// up, the one to be taken up next last.
pub struct Search<'a> {
    stack: Vec<Field<'a>>,
}

impl<'a> View for Search<'a> {
    type V = Seq<State>;

    closed spec fn view(&self) -> Seq<State> {
        states(self.stack@)
    }
}

impl<'a> Search<'a> {
    /// Every state on the stack is well-formed, and the pool is small
    /// enough for all its pieces to be laid.
    #[verifier::type_invariant]
    spec fn well_formed(self) -> bool {
        in_bounds(self.stack@)
    }

    /// The search at its start: the stack holds the successors of the state
    /// in which no piece of `pieces` has been laid.
    pub fn new(pieces: &'a Vec<JigsawPiece>) -> (search: Search<'a>)
        requires
            pieces.len() <= MAX_PIECES,
        ensures
            search@ == State::initial(pieces@).successors(),
    {
        let field = Field { pieces, places: Vec::new() };
        proof {
            assert(field@.placements =~= State::initial(pieces@).placements);
            lemma_well_formed_counted(field@);
        }
        let stack = field.next_move();
        proof {
            lemma_next_in_bounds(field@, stack@);
        }
        Search { stack }
    }

    /// Whether nothing is left to take up.
    pub fn is_done(&self) -> (done: bool)
        ensures
            done == (self@.len() == 0),
    {
        self.stack.len() == 0
    }

    /// One step of the search: takes the last state off the stack; if it is
    /// valid, puts its successors on the stack, and reports its record if
    /// it has none. On an empty stack nothing happens.
    pub fn step(&mut self) -> (found: Option<Vec<Solution>>)
        ensures
            final(self)@ == advance(old(self)@),
            match found {
                Some(record) => reported(old(self)@) == Some(record@),
                None => reported(old(self)@) is None,
            },
    {
        proof {
            use_type_invariant(&*self);
        }
        let mut stack: Vec<Field<'a>> = Vec::new();
        std::mem::swap(&mut stack, &mut self.stack);
        let mut found: Option<Vec<Solution>> = None;
        match stack.pop() {
            None => {},
            Some(field) => {
                if field.is_valid() {
                    proof {
                        lemma_well_formed_counted(field@);
                    }
                    let mut next = field.next_move();
                    if next.len() == 0 {
                        found = Some(field.record());
                    }
                    proof {
                        lemma_next_in_bounds(field@, next@);
                    }
                    stack.append(&mut next);
                }
            },
        }
        self.stack = stack;
        found
    }
}

/// All solutions of the puzzle made of `pieces`, in the order in which a
/// depth-first search finds them.
pub fn solve(pieces: &Vec<JigsawPiece>) -> (solutions: Vec<Vec<Solution>>)
    requires
        pieces.len() <= MAX_PIECES,
    ensures
        records(solutions@) == found_all(State::initial(pieces@).successors()),
{
    let mut search = Search::new(pieces);
    let mut solutions: Vec<Vec<Solution>> = Vec::new();
    while !search.is_done()
        invariant
            records(solutions@) + found_all(search@) == found_all(
                State::initial(pieces@).successors(),
            ),
        decreases work_left(search@),
    {
        proof {
            lemma_search_step(search@);
            lemma_advance_decreases(search@);
        }
        match search.step() {
            Some(record) => {
                solutions.push(record);
            },
            None => {},
        }
    }
    solutions
}

} // verus!
