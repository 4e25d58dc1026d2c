//! The model of the search: states, the points where the edges of their
//! pieces lie, validity, and the states that follow a state.

use crate::filtering::{lemma_filter_distinct, lemma_filter_member, lemma_filter_narrower};
use crate::geometry::{lemma_rotation_entries, lemma_rotation_group, Coord, Matrix, Orientation};
use crate::piece::{distinct_ids, JigsawEdge, JigsawPiece};
use vstd::prelude::*;

verus! {

/// An edge together with the point of the plane where it lies.
pub struct PlacedEdge {
    pub position: Coord,
    pub edge: JigsawEdge,
}

/// The model of a `Place`: a piece, turned by a rotation and laid with its
/// centre at a point of the plane.
pub struct Placement {
    pub rotation: Matrix,
    pub position: Coord,
    pub piece: JigsawPiece,
}

/// The model of a `Field`: the pool of all pieces and the pieces laid so
/// far, in the order in which they were laid.
pub struct State {
    pub pool: Seq<JigsawPiece>,
    pub placements: Seq<Placement>,
}

/// The grid point for the piece that is laid as number `n`, counted from
/// zero: three columns two units apart, filled row by row, each row two
/// units below the one before. For a negative `n` the same formula is
/// continued with division that rounds toward zero.
pub open spec fn slot(n: int) -> Coord {
    if n >= 0 {
        Coord { x: 2 * (n % 3) + 1, y: -2 * (n / 3) - 1 }
    } else {
        Coord { x: 1 - 2 * ((-n) % 3), y: 2 * ((-n) / 3) - 1 }
    }
}

/// The sides of a piece in the order in which its edges are listed.
pub open spec fn side_of(k: int) -> Orientation {
    if k == 0 {
        Orientation::Top
    } else if k == 1 {
        Orientation::Right
    } else if k == 2 {
        Orientation::Bottom
    } else {
        Orientation::Left
    }
}

/// Whether the edges number `a` and `b` are two different edges that lie at
/// the same point.
pub open spec fn meet(edges: Seq<PlacedEdge>, a: int, b: int) -> bool {
    &&& 0 <= a < edges.len()
    &&& 0 <= b < edges.len()
    &&& a != b
    &&& edges[a].position == edges[b].position
}

/// Whether more than two edges lie at some point.
pub open spec fn crowded(edges: Seq<PlacedEdge>) -> bool {
    exists|a: int, b: int, c: int|
        #![trigger edges[a], edges[b], edges[c]]
        0 <= a < b < c < edges.len() && edges[a].position == edges[b].position
            && edges[b].position == edges[c].position
}

/// Whether every two edges that meet fit each other.
pub open spec fn edges_agree(edges: Seq<PlacedEdge>) -> bool {
    forall|a: int, b: int| #[trigger] meet(edges, a, b) ==> edges[a].edge.fits(&edges[b].edge)
}

/// Three different edges at one point crowd it, in whatever order they are
/// listed.
pub proof fn lemma_three_crowd(edges: Seq<PlacedEdge>, a: int, b: int, c: int)
    requires
        meet(edges, a, b),
        meet(edges, a, c),
        b != c,
    ensures
        crowded(edges),
{
}

impl Placement {
    /// The edge on the side `side` of the piece, at the point where the
    /// placement puts it: the centre of the piece plus the rotated
    /// direction of the side.
    pub open spec fn placed_edge(self, side: Orientation) -> PlacedEdge {
        PlacedEdge {
            position: self.position.plus(side.direction().rotated(self.rotation)),
            edge: self.piece.edge_at(side),
        }
    }
}

impl State {
    /// All edges of all laid pieces with their points, four for each
    /// placement.
    pub open spec fn edges(self) -> Seq<PlacedEdge> {
        Seq::new(
            (4 * self.placements.len()) as nat,
            |e: int| self.placements[e / 4].placed_edge(side_of(e % 4)),
        )
    }

    /// Whether the state is consistent: no more than two edges lie at any
    /// point, and wherever two edges lie at one point, they have the same
    /// shape and one of them is inverted.
    pub open spec fn valid(self) -> bool {
        !crowded(self.edges()) && edges_agree(self.edges())
    }

    /// The state in which no piece of `pool` has been laid.
    pub open spec fn initial(pool: Seq<JigsawPiece>) -> State {
        State { pool, placements: Seq::empty() }
    }

    /// Whether a piece with the id `id` has been laid.
    pub open spec fn is_laid(self, id: u8) -> bool {
        exists|i: int|
            0 <= i < self.placements.len() && (#[trigger] self.placements[i]).piece.id == id
    }

    /// The pieces of the pool that have not been laid, in the order of the
    /// pool.
    pub open spec fn available(self) -> Seq<JigsawPiece> {
        self.pool.filter(|p: JigsawPiece| !self.is_laid(p.id))
    }

    /// Whether no piece is left to lay.
    pub open spec fn complete(self) -> bool {
        self.available().len() == 0
    }

    /// This state with one more placement.
    pub open spec fn with(self, placement: Placement) -> State {
        State { pool: self.pool, placements: self.placements.push(placement) }
    }

    /// This state as it was when only `n` pieces had been laid.
    pub open spec fn first(self, n: int) -> State {
        State { pool: self.pool, placements: self.placements.take(n) }
    }

    /// This state with `piece` laid on the next free grid point after
    /// `turns` quarter turns.
    pub open spec fn extended(self, piece: JigsawPiece, turns: nat) -> State {
        self.with(
            Placement {
                rotation: Matrix::of_turns(turns),
                position: slot(self.placements.len() as int),
                piece,
            },
        )
    }

    /// Whether the state is one that laying pieces of the pool one after
    /// the other on the grid can lead to: every laid piece is a piece of the
    /// pool, turned by one of the four rotations, and lies on the grid point
    /// of its number; and no two laid pieces carry the same id.
    pub open spec fn well_formed(self) -> bool {
        &&& forall|i: int|
            0 <= i < self.placements.len() ==> {
                let p = #[trigger] self.placements[i];
                &&& self.pool.contains(p.piece)
                &&& p.rotation.is_rotation()
                &&& p.position == slot(i)
            }
        &&& forall|i: int, j: int|
            0 <= i < j < self.placements.len() ==> (#[trigger] self.placements[i]).piece.id != (
            #[trigger] self.placements[j]).piece.id
    }

    /// The states that follow this one: each available piece in each of the
    /// four rotations, piece by piece in the order of the pool.
    pub open spec fn successors(self) -> Seq<State> {
        Seq::new(
            (4 * self.available().len()) as nat,
            |k: int| self.extended(self.available()[k / 4], (k % 4) as nat),
        )
    }
}

/// A state in which nothing has been laid is valid, whatever the pool.
pub proof fn lemma_initial_valid(pool: Seq<JigsawPiece>)
    ensures
        State::initial(pool).valid(),
{
}

/// The first placements of a well-formed state form a well-formed state.
pub proof fn lemma_first_well_formed(t: State, n: int)
    requires
        t.well_formed(),
        0 <= n <= t.placements.len(),
    ensures
        t.first(n).well_formed(),
        t.first(n).placements.len() == n,
        forall|m: int| 0 <= m <= n ==> #[trigger] t.first(n).first(m) == t.first(m),
{
    assert forall|m: int| 0 <= m <= n implies #[trigger] t.first(n).first(m) == t.first(m) by {
        assert(t.placements.take(n).take(m) =~= t.placements.take(m));
    }
}

/// Laying a piece of the pool whose id was not laid before leaves fewer
/// pieces available.
pub proof fn lemma_fewer_available(s: State, placement: Placement)
    requires
        s.pool.contains(placement.piece),
        !s.is_laid(placement.piece.id),
    ensures
        s.with(placement).available().len() < s.available().len(),
{
    let t = s.with(placement);
    let wide = |p: JigsawPiece| !s.is_laid(p.id);
    let narrow = |p: JigsawPiece| !t.is_laid(p.id);
    assert(t.placements.last().piece == placement.piece);
    assert forall|p: JigsawPiece| #[trigger] narrow(p) implies wide(p) by {
        if s.is_laid(p.id) {
            let j = choose|j: int|
                0 <= j < s.placements.len() && (#[trigger] s.placements[j]).piece.id == p.id;
            assert(t.placements[j] == s.placements[j]);
        }
    }
    lemma_filter_narrower(s.pool, wide, narrow);
}

/// In a well-formed state the laid pieces and the available pieces
/// together are no more than the pieces of the pool.
pub proof fn lemma_well_formed_counted(s: State)
    requires
        s.well_formed(),
    ensures
        s.placements.len() + s.available().len() <= s.pool.len(),
    decreases s.placements.len(),
{
    if s.placements.len() > 0 {
        let n = s.placements.len() - 1;
        let before = s.first(n);
        let last = s.placements[n];
        assert(before.with(last).placements =~= s.placements);
        lemma_first_well_formed(s, n);
        lemma_well_formed_counted(before);
        lemma_fewer_available(before, last);
    }
}

/// A state with `u` available pieces has `4 * u` successors. Each of them
/// keeps the pool and the placements of the state and adds one placement:
/// a piece of the pool that was not laid before, in one of the four
/// rotations, on the next free grid point, which is the same for all of
/// them. So each has fewer pieces available than the state, and is
/// well-formed if the state is. If no two pieces of the pool carry the same
/// id, no two successors add the same piece in the same rotation.
pub proof fn lemma_successors(s: State, j: int, k: int)
    requires
        0 <= j < s.successors().len(),
        0 <= k < s.successors().len(),
    ensures
        s.successors().len() == 4 * s.available().len(),
        s.successors()[k].pool == s.pool,
        s.successors()[k].placements.len() == s.placements.len() + 1,
        s.successors()[k].first(s.placements.len() as int) == s,
        s.successors()[k].placements.last().position == slot(s.placements.len() as int),
        s.successors()[k].placements.last().rotation == Matrix::of_turns((k % 4) as nat),
        s.successors()[k].placements.last().rotation.is_rotation(),
        s.pool.contains(s.successors()[k].placements.last().piece),
        !s.is_laid(s.successors()[k].placements.last().piece.id),
        s.successors()[k].available().len() < s.available().len(),
        s.well_formed() ==> s.successors()[k].well_formed(),
        distinct_ids(s.pool) && j != k ==> s.successors()[j].placements.last().piece.id
            != s.successors()[k].placements.last().piece.id
            || s.successors()[j].placements.last().rotation
            != s.successors()[k].placements.last().rotation,
{
    let unused = |p: JigsawPiece| !s.is_laid(p.id);
    let id = |p: JigsawPiece| p.id;
    let t = s.successors()[k];
    let added = t.placements.last();
    assert(t.first(s.placements.len() as int).placements =~= s.placements);
    lemma_rotation_group((k % 4) as nat);
    lemma_filter_member(s.pool, unused, k / 4);
    lemma_fewer_available(s, added);
    if distinct_ids(s.pool) && j != k {
        lemma_filter_distinct(s.pool, unused, id);
        lemma_rotation_entries();
    }
}

} // verus!
