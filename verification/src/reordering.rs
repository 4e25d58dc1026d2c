//! Validity does not depend on the order in which the pieces were laid.

use crate::state::{crowded, edges_agree, lemma_three_crowd, meet, PlacedEdge, State};
use vstd::prelude::*;

verus! {

/// Whether `to` and `back` are inverse bijections between the indices of `a`
/// and of `b` such that each element of `a` sits in `b` at the index that
/// `to` gives.
pub open spec fn is_rearrangement<A>(a: Seq<A>, b: Seq<A>, to: Seq<int>, back: Seq<int>) -> bool {
    &&& a.len() == b.len()
    &&& to.len() == a.len()
    &&& back.len() == a.len()
    &&& forall|i: int|
        0 <= i < a.len() ==> 0 <= #[trigger] to[i] < a.len() && b[to[i]] == a[i] && back[to[i]]
            == i
    &&& forall|j: int|
        0 <= j < a.len() ==> 0 <= #[trigger] back[j] < a.len() && to[back[j]] == j
}

/// Two sequences that hold the same elements, each as often as the other,
/// are rearrangements of each other.
pub proof fn lemma_multiset_rearrangement<A>(a: Seq<A>, b: Seq<A>) -> (maps: (Seq<int>, Seq<int>))
    requires
        a.to_multiset() == b.to_multiset(),
    ensures
        is_rearrangement(a, b, maps.0, maps.1),
    decreases a.len(),
{
    a.to_multiset_ensures();
    b.to_multiset_ensures();
    if a.len() == 0 {
        (Seq::empty(), Seq::empty())
    } else {
        let n = a.len() as int;
        let x = a.last();
        assert(b.to_multiset().count(x) > 0);
        let j = choose|j: int| 0 <= j < b.len() && b[j] == x;
        let a1 = a.drop_last();
        let b1 = b.remove(j);
        a1.to_multiset_ensures();
        assert(a1.push(x) =~= a);
        assert(a1.to_multiset() =~= a.to_multiset().remove(x));
        let (to1, back1) = lemma_multiset_rearrangement(a1, b1);
        let to = Seq::new(
            n as nat,
            |i: int|
                if i == n - 1 {
                    j
                } else if to1[i] < j {
                    to1[i]
                } else {
                    to1[i] + 1
                },
        );
        let back = Seq::new(
            n as nat,
            |q: int|
                if q == j {
                    n - 1
                } else if q < j {
                    back1[q]
                } else {
                    back1[q - 1]
                },
        );
        (to, back)
    }
}

/// The inverse of a rearrangement is a rearrangement.
pub proof fn lemma_rearrangement_inverse<A>(a: Seq<A>, b: Seq<A>, to: Seq<int>, back: Seq<int>)
    requires
        is_rearrangement(a, b, to, back),
    ensures
        is_rearrangement(b, a, back, to),
{
}

/// If the edges of one list agree, so do the edges of every rearrangement
/// of it.
pub proof fn lemma_agree_rearranged(
    a: Seq<PlacedEdge>,
    b: Seq<PlacedEdge>,
    to: Seq<int>,
    back: Seq<int>,
)
    requires
        is_rearrangement(a, b, to, back),
        edges_agree(b),
    ensures
        edges_agree(a),
{
    assert forall|i: int, j: int| #[trigger] meet(a, i, j) implies a[i].edge.fits(&a[j].edge) by {
        assert(meet(b, to[i], to[j]));
    }
}

/// If more than two edges of one list lie at some point, the same holds of
/// every rearrangement of it.
pub proof fn lemma_crowded_rearranged(
    a: Seq<PlacedEdge>,
    b: Seq<PlacedEdge>,
    to: Seq<int>,
    back: Seq<int>,
)
    requires
        is_rearrangement(a, b, to, back),
        crowded(a),
    ensures
        crowded(b),
{
    let (x, y, z) = choose|x: int, y: int, z: int|
        #![trigger a[x], a[y], a[z]]
        0 <= x < y < z < a.len() && a[x].position == a[y].position && a[y].position
            == a[z].position;
    lemma_three_crowd(b, to[x], to[y], to[z]);
}

/// A list of edges and a rearrangement of it are both crowded or both not,
/// and the edges of both agree or of neither.
pub proof fn lemma_rearranged_alike(
    a: Seq<PlacedEdge>,
    b: Seq<PlacedEdge>,
    to: Seq<int>,
    back: Seq<int>,
)
    requires
        is_rearrangement(a, b, to, back),
    ensures
        crowded(a) == crowded(b),
        edges_agree(a) == edges_agree(b),
{
    lemma_rearrangement_inverse(a, b, to, back);
    if edges_agree(b) {
        lemma_agree_rearranged(a, b, to, back);
    }
    if edges_agree(a) {
        lemma_agree_rearranged(b, a, back, to);
    }
    if crowded(a) {
        lemma_crowded_rearranged(a, b, to, back);
    }
    if crowded(b) {
        lemma_crowded_rearranged(b, a, back, to);
    }
}

/// Whether some point is crowded, and whether all edges that meet agree,
/// does not depend on the order in which the edges are listed.
pub proof fn lemma_edges_any_order(a: Seq<PlacedEdge>, b: Seq<PlacedEdge>)
    requires
        a.to_multiset() == b.to_multiset(),
    ensures
        crowded(a) == crowded(b),
        edges_agree(a) == edges_agree(b),
{
    let (to, back) = lemma_multiset_rearrangement(a, b);
    lemma_rearranged_alike(a, b, to, back);
}

/// A rearrangement of the placements of a state rearranges its edges.
pub proof fn lemma_edges_rearranged(s: State, t: State, to: Seq<int>, back: Seq<int>) -> (maps: (
    Seq<int>,
    Seq<int>,
))
    requires
        is_rearrangement(s.placements, t.placements, to, back),
    ensures
        is_rearrangement(s.edges(), t.edges(), maps.0, maps.1),
{
    let n = s.edges().len();
    let edge_to = Seq::new(n, |e: int| 4 * to[e / 4] + e % 4);
    let edge_back = Seq::new(n, |e: int| 4 * back[e / 4] + e % 4);
    (edge_to, edge_back)
}

/// Validity does not depend on the order of the placements: two states that
/// hold the same placements, each as often as the other, are both valid or
/// both not valid.
pub proof fn lemma_valid_any_order(s: State, t: State)
    requires
        s.placements.to_multiset() == t.placements.to_multiset(),
    ensures
        s.valid() == t.valid(),
{
    let (to, back) = lemma_multiset_rearrangement(s.placements, t.placements);
    let (edge_to, edge_back) = lemma_edges_rearranged(s, t, to, back);
    lemma_rearranged_alike(s.edges(), t.edges(), edge_to, edge_back);
}

} // verus!
