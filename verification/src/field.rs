//! Search states as they are stored: pieces laid on the grid, the decision
//! whether all touching edges agree, and the generation of the states that
//! follow a state.

use crate::geometry::{lemma_rotated_direction, Coord, Orientation, Rotation, Vector};
use crate::piece::{JigsawEdge, JigsawPiece};
use crate::state::{
    crowded, lemma_successors, lemma_three_crowd, meet, slot, PlacedEdge, Placement, State,
};
use vstd::prelude::*;

verus! {

/// A piece of the pool, turned and laid at a grid point.
#[derive(Clone, Copy, Debug)]
pub struct Place<'a> {
    pub rotation: Rotation,
    pub place: Vector,
    pub piece: &'a JigsawPiece,
}

impl<'a> View for Place<'a> {
    type V = Placement;

    open spec fn view(&self) -> Placement {
        Placement { rotation: self.rotation@, position: self.place@, piece: *self.piece }
    }
}

/// A partial solution: the pool of pieces and the placements made so far.
#[derive(Debug)]
pub struct Field<'a> {
    pub pieces: &'a Vec<JigsawPiece>,
    pub places: Vec<Place<'a>>,
}

impl<'a> View for Field<'a> {
    type V = State;

    open spec fn view(&self) -> State {
        State { pool: self.pieces@, placements: self.places@.map_values(|p: Place<'a>| p@) }
    }
}

/// The models of a sequence of fields.
pub open spec fn states<'a>(fields: Seq<Field<'a>>) -> Seq<State> {
    fields.map_values(|f: Field<'a>| f@)
}

/// An edge of a laid piece and the point where it lies.
struct EdgePlacement<'a> {
    edge: &'a JigsawEdge,
    x: i16,
    y: i16,
}

impl<'a> View for EdgePlacement<'a> {
    type V = PlacedEdge;

    closed spec fn view(&self) -> PlacedEdge {
        PlacedEdge { position: Coord { x: self.x as int, y: self.y as int }, edge: *self.edge }
    }
}

spec fn views<'a>(edges: Seq<EdgePlacement<'a>>) -> Seq<PlacedEdge> {
    edges.map_values(|e: EdgePlacement<'a>| e@)
}

fn edge_placement<'a>(place: &Place<'a>, side: Orientation) -> (r: EdgePlacement<'a>)
    ensures
        r@ == place@.placed_edge(side),
{
    let direction = Vector::from(side);
    proof {
        use_type_invariant(&place.rotation);
        lemma_rotated_direction(side, place.rotation@);
    }
    let turned = direction.rotate(&place.rotation);
    EdgePlacement {
        edge: place.piece.edge(side),
        x: place.place.x as i16 + turned.x as i16,
        y: place.place.y as i16 + turned.y as i16,
    }
}

/// What lies at the point of an edge besides the edge itself.
enum Company {
    Nothing,
    One(usize),
    More,
}

/// The edges that lie at the same point as edge number `a`: none, one with
/// its number, or more than one.
fn company<'a>(edges: &Vec<EdgePlacement<'a>>, a: usize) -> (found: Company)
    requires
        a < edges.len(),
    ensures
        match found {
            Company::Nothing => forall|b: int| !meet(views(edges@), a as int, b),
            Company::One(b) => {
                &&& meet(views(edges@), a as int, b as int)
                &&& forall|c: int| #[trigger] meet(views(edges@), a as int, c) ==> c == b
            },
            Company::More => crowded(views(edges@)),
        },
{
    let ghost es = views(edges@);
    let mut first: Option<usize> = None;
    let mut c: usize = 0;
    while c < edges.len()
        invariant
            a < edges.len(),
            c <= edges.len(),
            es == views(edges@),
            match first {
                Some(b) => {
                    &&& b < c
                    &&& meet(es, a as int, b as int)
                    &&& forall|d: int| 0 <= d < c && #[trigger] meet(es, a as int, d) ==> d == b
                },
                None => forall|d: int| 0 <= d < c ==> !#[trigger] meet(es, a as int, d),
            },
        decreases edges.len() - c,
    {
        if c != a && edges[c].x == edges[a].x && edges[c].y == edges[a].y {
            match first {
                Some(b) => {
                    proof {
                        lemma_three_crowd(es, a as int, b as int, c as int);
                    }
                    return Company::More;
                },
                None => {
                    first = Some(c);
                },
            }
        }
        c += 1;
    }
    match first {
        Some(b) => Company::One(b),
        None => Company::Nothing,
    }
}

impl<'a> Field<'a> {
    /// The grid point for the piece that is laid as number `position`.
    pub fn position_to_vector(position: i8) -> (v: Vector)
        requires
            -64 <= position <= 63,
        ensures
            v@ == slot(position as int),
    {
        Vector { x: position * 2 % 6 + 1, y: (-position / 3) * 2 - 1 }
    }

    /// Whether a piece with the id of `piece` has been laid.
    fn is_laid(&self, piece: &JigsawPiece) -> (laid: bool)
        ensures
            laid == self@.is_laid(piece.id),
    {
        let mut i: usize = 0;
        while i < self.places.len()
            invariant
                i <= self.places.len(),
                forall|k: int| 0 <= k < i ==> (#[trigger] self@.placements[k]).piece.id != piece.id,
            decreases self.places.len() - i,
        {
            if *self.places[i].piece == *piece {
                assert(self@.placements[i as int].piece.id == piece.id);
                return true;
            }
            i += 1;
        }
        false
    }

    /// The states that follow this one: for every piece of the pool that
    /// has not been laid, and for each of the four rotations, this state
    /// with that piece laid on the next free grid point.
    pub fn next_move(&self) -> (next: Vec<Field<'a>>)
        requires
            !self@.complete() ==> self.places.len() <= 63,
        ensures
            next@.len() == 4 * self@.available().len(),
            states(next@) == self@.successors(),
            self@.well_formed() ==> forall|k: int|
                0 <= k < next@.len() ==> (#[trigger] next@[k])@.well_formed(),
    {
        let ghost unused = |p: JigsawPiece| !self@.is_laid(p.id);
        let mut next: Vec<Field<'a>> = Vec::new();
        let mut j: usize = 0;
        while j < self.pieces.len()
            invariant
                j <= self.pieces.len(),
                unused == |p: JigsawPiece| !self@.is_laid(p.id),
                !self@.complete() ==> self.places.len() <= 63,
                next.len() == 4 * self.pieces@.take(j as int).filter(unused).len(),
                forall|k: int|
                    0 <= k < next.len() ==> (#[trigger] next[k])@ == self@.extended(
                        self.pieces@.take(j as int).filter(unused)[k / 4],
                        (k % 4) as nat,
                    ),
            decreases self.pieces.len() - j,
        {
            let piece = &self.pieces[j];
            let ghost found = self.pieces@.take(j as int).filter(unused);
            proof {
                reveal(Seq::filter);
                assert(self.pieces@.take(j + 1).drop_last() =~= self.pieces@.take(j as int));
            }
            if !self.is_laid(piece) {
                proof {
                    assert(self@.available().contains(self.pieces@[j as int]));
                }
                let spot = Field::position_to_vector(self.places.len() as i8);
                let mut turns: usize = 0;
                while turns < 4
                    invariant
                        turns <= 4,
                        j < self.pieces.len(),
                        *piece == self.pieces@[j as int],
                        spot@ == slot(self.places.len() as int),
                        found == self.pieces@.take(j as int).filter(unused),
                        next.len() == 4 * found.len() + turns,
                        forall|k: int|
                            0 <= k < next.len() ==> (#[trigger] next[k])@ == self@.extended(
                                found.push(*piece)[k / 4],
                                (k % 4) as nat,
                            ),
                    decreases 4 - turns,
                {
                    let mut places = self.places.clone();
                    places.push(
                        Place { rotation: Rotation::new().rotate_n(turns), place: spot, piece },
                    );
                    let field = Field { pieces: self.pieces, places };
                    proof {
                        assert(field@.placements =~= self@.extended(
                            *piece,
                            turns as nat,
                        ).placements);
                    }
                    next.push(field);
                    turns += 1;
                }
            }
            j += 1;
        }
        proof {
            assert(self.pieces@.take(j as int) =~= self.pieces@);
            if self@.well_formed() {
                assert forall|k: int| 0 <= k < next@.len() implies (
                #[trigger] next@[k])@.well_formed() by {
                    lemma_successors(self@, k, k);
                }
            }
        }
        next
    }

    /// All edges of all laid pieces with the points where they lie.
    fn edge_placements(&self) -> (edges: Vec<EdgePlacement<'a>>)
        ensures
            views(edges@) == self@.edges(),
    {
        let mut edges: Vec<EdgePlacement<'a>> = Vec::new();
        let mut i: usize = 0;
        while i < self.places.len()
            invariant
                i <= self.places.len(),
                edges.len() == 4 * i,
                forall|e: int| 0 <= e < 4 * i ==> (#[trigger] edges[e])@ == self@.edges()[e],
            decreases self.places.len() - i,
        {
            let place = &self.places[i];
            edges.push(edge_placement(place, Orientation::Top));
            edges.push(edge_placement(place, Orientation::Right));
            edges.push(edge_placement(place, Orientation::Bottom));
            edges.push(edge_placement(place, Orientation::Left));
            i += 1;
        }
        edges
    }

    /// Whether the state is consistent: no more than two edges of laid
    /// pieces lie at any point, and wherever two lie at one point, they
    /// have the same shape and one of them is inverted.
    pub fn is_valid(&self) -> (ok: bool)
        ensures
            ok == self@.valid(),
            self.places.len() == 0 ==> ok,
    {
        let edges = self.edge_placements();
        let ghost es = views(edges@);
        let mut a: usize = 0;
        while a < edges.len()
            invariant
                a <= edges.len(),
                es == views(edges@),
                es == self@.edges(),
                forall|i: int, j: int|
                    0 <= i < a && #[trigger] meet(es, i, j) ==> es[i].edge.fits(&es[j].edge),
                forall|i: int, j: int, k: int|
                    0 <= i < a && #[trigger] meet(es, i, j) && #[trigger] meet(es, i, k) ==> j
                        == k,
            decreases edges.len() - a,
        {
            match company(&edges, a) {
                Company::Nothing => {},
                Company::One(b) => {
                    if !edges[a].edge.matches(edges[b].edge) {
                        return false;
                    }
                },
                Company::More => {
                    return false;
                },
            }
            a += 1;
        }
        proof {
            if crowded(es) {
                let (x, y, z) = choose|x: int, y: int, z: int|
                    #![trigger es[x], es[y], es[z]]
                    0 <= x < y < z < es.len() && es[x].position == es[y].position
                        && es[y].position == es[z].position;
                assert(meet(es, x, y));
                assert(meet(es, x, z));
            }
        }
        true
    }
}

} // verus!
