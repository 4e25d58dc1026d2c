//! The puzzle data: pieces and the edges on their four sides.

use crate::geometry::Orientation;
use vstd::prelude::*;
use vstd::std_specs::cmp::PartialEqSpecImpl;

verus! {

/// The geometric class of an edge profile.
#[derive(Clone, Copy, Debug, PartialEq, Eq, Structural)]
pub enum EdgeShape {
    Circle,
    Rect,
    Triangle,
    Trapeze,
}

/// One side of a piece: a profile that either sticks out or is cut in, and
/// two labels that play no part in matching.
#[derive(Debug)]
pub struct JigsawEdge {
    pub shape: EdgeShape,
    pub is_inverted: bool,
    pub numbers: [String; 2],
}

impl JigsawEdge {
    /// Whether this edge and `other` can lie against each other: they have
    /// the same shape, and exactly one of them is inverted.
    pub open spec fn fits(&self, other: &JigsawEdge) -> bool {
        self.shape == other.shape && self.is_inverted != other.is_inverted
    }

    /// Whether this edge and `other` can lie against each other.
    pub fn matches(&self, other: &JigsawEdge) -> (ok: bool)
        ensures
            ok == self.fits(other),
    {
        self.shape == other.shape && self.is_inverted != other.is_inverted
    }
}

/// A square piece with one edge on each side. Two pieces count as the same
/// piece when they carry the same `id`.
#[derive(Debug)]
pub struct JigsawPiece {
    pub id: u8,
    pub top: JigsawEdge,
    pub right: JigsawEdge,
    pub bottom: JigsawEdge,
    pub left: JigsawEdge,
}

/// The one of four edges, found or not yet found, that belongs to `side`.
spec fn slot_of(
    top: Option<JigsawEdge>,
    right: Option<JigsawEdge>,
    bottom: Option<JigsawEdge>,
    left: Option<JigsawEdge>,
    side: Orientation,
) -> Option<JigsawEdge> {
    match side {
        Orientation::Top => top,
        Orientation::Right => right,
        Orientation::Bottom => bottom,
        Orientation::Left => left,
    }
}

/// Whether `edges` names each of the four sides exactly once.
pub open spec fn one_edge_per_side(edges: Seq<(Orientation, JigsawEdge)>) -> bool {
    &&& edges.len() == 4
    &&& forall|i: int, j: int|
        0 <= i < j < edges.len() ==> (#[trigger] edges[i]).0 != (#[trigger] edges[j]).0
}

impl JigsawPiece {
    /// The piece with the id `id` and the edges `edges`, each given with
    /// its side, if `edges` names each of the four sides exactly once.
    pub fn from_edges(id: u8, edges: Vec<(Orientation, JigsawEdge)>) -> (piece: Option<JigsawPiece>)
        ensures
            piece is Some <==> one_edge_per_side(edges@),
            piece matches Some(p) ==> {
                &&& p.id == id
                &&& forall|i: int|
                    0 <= i < edges@.len() ==> p.edge_at((#[trigger] edges@[i]).0) == edges@[i].1
            },
    {
        if edges.len() != 4 {
            return None;
        }
        let ghost given = edges@;
        let mut rest = edges;
        let mut top: Option<JigsawEdge> = None;
        let mut right: Option<JigsawEdge> = None;
        let mut bottom: Option<JigsawEdge> = None;
        let mut left: Option<JigsawEdge> = None;
        while rest.len() > 0
            invariant
                given.len() == 4,
                given == edges@,
                rest.len() <= 4,
                rest@ == given.take(rest.len() as int),
                forall|i: int, j: int|
                    rest.len() <= i < j < 4 ==> (#[trigger] given[i]).0 != (#[trigger] given[j]).0,
                forall|i: int|
                    rest.len() <= i < 4 ==> slot_of(
                        top,
                        right,
                        bottom,
                        left,
                        (#[trigger] given[i]).0,
                    ) == Some(given[i].1),
                forall|side: Orientation|
                    slot_of(top, right, bottom, left, side) is Some ==> exists|i: int|
                        rest.len() <= i < 4 && (#[trigger] given[i]).0 == side,
            decreases rest.len(),
        {
            let ghost n = rest.len() - 1;
            let (side, edge) = rest.pop().unwrap();
            let taken = match side {
                Orientation::Top => top.is_some(),
                Orientation::Right => right.is_some(),
                Orientation::Bottom => bottom.is_some(),
                Orientation::Left => left.is_some(),
            };
            if taken {
                return None;
            }
            let ghost before = (top, right, bottom, left);
            match side {
                Orientation::Top => {
                    top = Some(edge);
                },
                Orientation::Right => {
                    right = Some(edge);
                },
                Orientation::Bottom => {
                    bottom = Some(edge);
                },
                Orientation::Left => {
                    left = Some(edge);
                },
            }
            proof {
                assert forall|s: Orientation|
                    slot_of(top, right, bottom, left, s) is Some implies exists|i: int|
                    n <= i < 4 && (#[trigger] given[i]).0 == s by {
                    if s != side {
                        assert(slot_of(before.0, before.1, before.2, before.3, s) is Some);
                    }
                }
            }
        }
        match (top, right, bottom, left) {
            (Some(top), Some(right), Some(bottom), Some(left)) => Some(
                JigsawPiece { id, top, right, bottom, left },
            ),
            _ => {
                proof {
                    assert(slot_of(top, right, bottom, left, given[0].0) is Some);
                    assert(slot_of(top, right, bottom, left, given[1].0) is Some);
                    assert(slot_of(top, right, bottom, left, given[2].0) is Some);
                    assert(slot_of(top, right, bottom, left, given[3].0) is Some);
                }
                None
            },
        }
    }

    /// The edge on the side `side`.
    pub open spec fn edge_at(&self, side: Orientation) -> JigsawEdge {
        match side {
            Orientation::Top => self.top,
            Orientation::Right => self.right,
            Orientation::Bottom => self.bottom,
            Orientation::Left => self.left,
        }
    }

    /// The edge on the side `side`.
    pub fn edge(&self, side: Orientation) -> (e: &JigsawEdge)
        ensures
            *e == self.edge_at(side),
    {
        match side {
            Orientation::Top => &self.top,
            Orientation::Right => &self.right,
            Orientation::Bottom => &self.bottom,
            Orientation::Left => &self.left,
        }
    }
}

/// Whether no two pieces of `pool` carry the same id.
pub open spec fn distinct_ids(pool: Seq<JigsawPiece>) -> bool {
    forall|i: int, j: int|
        0 <= i < j < pool.len() ==> (#[trigger] pool[i]).id != (#[trigger] pool[j]).id
}

/// Whether no two pieces of `pool` carry the same id.
pub fn has_distinct_ids(pool: &Vec<JigsawPiece>) -> (ok: bool)
    ensures
        ok == distinct_ids(pool@),
{
    let mut j: usize = 0;
    while j < pool.len()
        invariant
            j <= pool.len(),
            forall|a: int, b: int|
                0 <= a < b < j ==> (#[trigger] pool@[a]).id != (#[trigger] pool@[b]).id,
        decreases pool.len() - j,
    {
        let mut i: usize = 0;
        while i < j
            invariant
                i <= j,
                j < pool.len(),
                forall|a: int| 0 <= a < i ==> (#[trigger] pool@[a]).id != pool@[j as int].id,
            decreases j - i,
        {
            if pool[i] == pool[j] {
                return false;
            }
            i += 1;
        }
        j += 1;
    }
    true
}

impl PartialEq for JigsawPiece {
    /// Pieces are compared by `id` alone.
    fn eq(&self, other: &JigsawPiece) -> (same: bool) {
        self.id == other.id
    }
}

impl PartialEqSpecImpl for JigsawPiece {
    open spec fn obeys_eq_spec() -> bool {
        true
    }

    open spec fn eq_spec(&self, other: &JigsawPiece) -> bool {
        self.id == other.id
    }
}

} // verus!
