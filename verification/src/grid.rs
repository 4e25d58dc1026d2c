//! The geometry of the grid: pieces on different grid points do not
//! overlap, so in a well-formed state no more than two edges lie at one
//! point.

use crate::geometry::{lemma_rotated_by_turns, lemma_turns_of_rotation, Matrix, Orientation};
use crate::state::{
    crowded, edges_agree, lemma_three_crowd, meet, side_of, slot, Placement, State,
};
use vstd::prelude::*;

verus! {

/// Both coordinates of a grid point are odd, and different numbers have
/// different grid points.
pub proof fn lemma_slots_apart(m: int, n: int)
    requires
        0 <= m,
        0 <= n,
    ensures
        slot(m).x % 2 == 1,
        slot(m).y % 2 == 1,
        m != n ==> slot(m) != slot(n),
{
}

/// The edge on a side of a laid piece lies one unit from the centre of the
/// piece, and the edges of different sides lie at different points.
pub proof fn lemma_edges_around(p: Placement, a: Orientation, b: Orientation)
    requires
        p.rotation.is_rotation(),
    ensures
        ({
            let dx = p.placed_edge(a).position.x - p.position.x;
            let dy = p.placed_edge(a).position.y - p.position.y;
            (dx == 0 && (dy == 1 || dy == -1)) || (dy == 0 && (dx == 1 || dx == -1))
        }),
        a != b ==> p.placed_edge(a).position != p.placed_edge(b).position,
{
    lemma_turns_of_rotation(p.rotation);
    lemma_rotated_by_turns(a.direction());
    lemma_rotated_by_turns(b.direction());
}

/// In a well-formed state no three edges lie at one point.
pub proof fn lemma_no_three_edges(s: State, a: int, b: int, c: int)
    requires
        s.well_formed(),
        0 <= a < b < c < s.edges().len(),
    ensures
        !(s.edges()[a].position == s.edges()[b].position && s.edges()[b].position
            == s.edges()[c].position),
{
    let pa = s.placements[a / 4];
    let pb = s.placements[b / 4];
    let pc = s.placements[c / 4];
    lemma_slots_apart(a / 4, b / 4);
    lemma_slots_apart(b / 4, c / 4);
    lemma_slots_apart(c / 4, a / 4);
    lemma_edges_around(pa, side_of(a % 4), side_of(b % 4));
    lemma_edges_around(pb, side_of(b % 4), side_of(c % 4));
    lemma_edges_around(pc, side_of(c % 4), side_of(a % 4));
    lemma_edges_around(pa, side_of(a % 4), side_of(c % 4));
}

/// In a well-formed state no point is crowded, so the state is valid
/// exactly if every two edges that meet fit each other.
pub proof fn lemma_well_formed_valid(s: State)
    requires
        s.well_formed(),
    ensures
        !crowded(s.edges()),
        s.valid() == edges_agree(s.edges()),
{
    let edges = s.edges();
    if crowded(edges) {
        let (a, b, c) = choose|a: int, b: int, c: int|
            #![trigger edges[a], edges[b], edges[c]]
            0 <= a < b < c < edges.len() && edges[a].position == edges[b].position
                && edges[b].position == edges[c].position;
        lemma_no_three_edges(s, a, b, c);
    }
}

/// A state in which three different edges lie at one point is not valid,
/// whatever the edges are.
pub proof fn lemma_crowded_invalid(s: State, a: int, b: int, c: int)
    requires
        meet(s.edges(), a, b),
        meet(s.edges(), a, c),
        b != c,
    ensures
        !s.valid(),
{
    lemma_three_crowd(s.edges(), a, b, c);
}

/// Two pieces laid without a turn on the first two grid points touch along
/// one edge only: the state is valid exactly if the right edge of the first
/// fits the left edge of the second.
pub proof fn lemma_side_by_side(s: State)
    requires
        s.placements.len() == 2,
        s.placements[0].position == slot(0),
        s.placements[1].position == slot(1),
        s.placements[0].rotation == Matrix::identity(),
        s.placements[1].rotation == Matrix::identity(),
    ensures
        s.valid() <==> s.placements[0].piece.right.fits(&s.placements[1].piece.left),
{
    let edges = s.edges();
    assert forall|side: Orientation| #[trigger]
        side.direction().rotated(Matrix::identity()) == side.direction() by {
        lemma_rotated_by_turns(side.direction());
    }
    assert(meet(edges, 1, 7));
}

} // verus!
