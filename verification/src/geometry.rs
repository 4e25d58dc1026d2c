//! Integer plane geometry: vectors, quarter-turn rotations and the four
//! sides of a square piece.

use vstd::prelude::*;

verus! {

/// A point (or a direction) of the integer plane.
pub struct Coord {
    pub x: int,
    pub y: int,
}

/// A 2x2 integer matrix with rows `(a b)` and `(c d)`.
pub struct Matrix {
    pub a: int,
    pub b: int,
    pub c: int,
    pub d: int,
}

impl Coord {
    /// The componentwise sum of two points.
    pub open spec fn plus(self, other: Coord) -> Coord {
        Coord { x: self.x + other.x, y: self.y + other.y }
    }

    /// The product of the matrix `m` with this point.
    pub open spec fn rotated(self, m: Matrix) -> Coord {
        Coord { x: m.a * self.x + m.b * self.y, y: m.c * self.x + m.d * self.y }
    }

    /// Whether both coordinates can be stored in a `Vector`.
    pub open spec fn fits(self) -> bool {
        &&& i8::MIN <= self.x <= i8::MAX
        &&& i8::MIN <= self.y <= i8::MAX
    }

    /// Whether this point is at distance one from the origin.
    pub open spec fn is_unit(self) -> bool {
        ||| self.x == 0 && (self.y == 1 || self.y == -1)
        ||| self.y == 0 && (self.x == 1 || self.x == -1)
    }

    /// The cross product of two directions; zero exactly when they lie on
    /// one line through the origin.
    pub open spec fn cross(self, other: Coord) -> int {
        self.x * other.y - self.y * other.x
    }
}

impl Matrix {
    /// The identity matrix.
    pub open spec fn identity() -> Matrix {
        Matrix { a: 1, b: 0, c: 0, d: 1 }
    }

    /// This matrix followed by one quarter turn.
    pub open spec fn quarter_turn(self) -> Matrix {
        Matrix { a: self.b, b: -self.a, c: self.d, d: -self.c }
    }

    /// This matrix followed by `n` quarter turns.
    pub open spec fn turned(self, n: nat) -> Matrix
        decreases n,
    {
        if n == 0 {
            self
        } else {
            self.turned((n - 1) as nat).quarter_turn()
        }
    }

    /// The rotation by `n` quarter turns.
    pub open spec fn of_turns(n: nat) -> Matrix {
        Matrix::identity().turned(n)
    }

    /// Whether this matrix is one of the four quarter-turn rotations.
    pub open spec fn is_rotation(self) -> bool {
        exists|k: nat| k < 4 && self == #[trigger] Matrix::of_turns(k)
    }

    /// The number of quarter turns, below four, that make up this rotation.
    pub open spec fn turns(self) -> nat {
        choose|k: nat| k < 4 && self == #[trigger] Matrix::of_turns(k)
    }
}

/// The entries of the four rotations.
pub proof fn lemma_rotation_entries()
    ensures
        Matrix::of_turns(0) == (Matrix { a: 1, b: 0, c: 0, d: 1 }),
        Matrix::of_turns(1) == (Matrix { a: 0, b: -1, c: 1, d: 0 }),
        Matrix::of_turns(2) == (Matrix { a: -1, b: 0, c: 0, d: -1 }),
        Matrix::of_turns(3) == (Matrix { a: 0, b: 1, c: -1, d: 0 }),
{
    reveal_with_fuel(Matrix::turned, 4);
}

/// Turning is additive in the number of quarter turns.
pub proof fn lemma_turned_sum(m: Matrix, j: nat, k: nat)
    ensures
        m.turned(j).turned(k) == m.turned(j + k),
    decreases k,
{
    if k > 0 {
        lemma_turned_sum(m, j, (k - 1) as nat);
    }
}

/// Four quarter turns bring every matrix back to itself, so only the number
/// of turns modulo four matters.
pub proof fn lemma_turned_periodic(m: Matrix, k: nat)
    ensures
        m.turned(4) == m,
        m.turned(k) == m.turned(k % 4),
    decreases k,
{
    reveal_with_fuel(Matrix::turned, 5);
    if k >= 4 {
        lemma_turned_periodic(m, (k - 4) as nat);
        lemma_turned_sum(m, 4, (k - 4) as nat);
    }
}

/// The rotations form a cyclic group of order four under composition of
/// turns: four turns give the identity, and `k` turns give the same rotation
/// as `k mod 4` turns.
pub proof fn lemma_rotation_group(k: nat)
    ensures
        Matrix::of_turns(4) == Matrix::identity(),
        Matrix::of_turns(k) == Matrix::of_turns(k % 4),
        Matrix::of_turns(k).is_rotation(),
{
    lemma_turned_periodic(Matrix::identity(), k);
    let j = (k % 4) as nat;
    assert(j < 4 && Matrix::of_turns(k) == Matrix::of_turns(j));
}

/// There are exactly four rotations: two numbers of quarter turns give the
/// same rotation if and only if they are equal modulo four.
pub proof fn lemma_rotations_differ(j: nat, k: nat)
    ensures
        Matrix::of_turns(j) == Matrix::of_turns(k) <==> j % 4 == k % 4,
{
    lemma_rotation_group(j);
    lemma_rotation_group(k);
    lemma_rotation_entries();
}

/// The turn count of the rotation by `k` quarter turns is `k mod 4`.
pub proof fn lemma_turns_of_turned(k: nat)
    ensures
        Matrix::of_turns(k).turns() == k % 4,
{
    lemma_rotation_group(k);
    let m = Matrix::of_turns(k);
    let t = m.turns();
    lemma_rotations_differ(t, k);
}

/// A matrix that is a rotation is the rotation by its own turn count,
/// which is below four.
pub proof fn lemma_turns_of_rotation(m: Matrix)
    requires
        m.is_rotation(),
    ensures
        m.turns() < 4,
        Matrix::of_turns(m.turns()) == m,
{
}

/// What each of the four rotations does to a point.
pub proof fn lemma_rotated_by_turns(v: Coord)
    ensures
        v.rotated(Matrix::of_turns(0)) == v,
        v.rotated(Matrix::of_turns(1)) == (Coord { x: -v.y, y: v.x }),
        v.rotated(Matrix::of_turns(2)) == (Coord { x: -v.x, y: -v.y }),
        v.rotated(Matrix::of_turns(3)) == (Coord { x: v.y, y: -v.x }),
{
    lemma_rotation_entries();
}

/// A vector of the integer plane with small coordinates.
#[derive(Clone, Copy, Debug, PartialEq, Eq, PartialOrd, Ord, Structural)]
pub struct Vector {
    pub x: i8,
    pub y: i8,
}

impl View for Vector {
    type V = Coord;

    open spec fn view(&self) -> Coord {
        Coord { x: self.x as int, y: self.y as int }
    }
}

/// A rotation of the plane by a multiple of ninety degrees.
#[derive(Clone, Copy, Debug, PartialEq, Eq)]
pub struct Rotation {
    matrix: [[i8; 2]; 2],
}

impl View for Rotation {
    type V = Matrix;

    closed spec fn view(&self) -> Matrix {
        Matrix {
            a: self.matrix[0][0] as int,
            b: self.matrix[0][1] as int,
            c: self.matrix[1][0] as int,
            d: self.matrix[1][1] as int,
        }
    }
}

impl Rotation {
    /// Every value of this type is one of the four rotations.
    #[verifier::type_invariant]
    pub open spec fn well_formed(self) -> bool {
        self@.is_rotation()
    }

    /// The rotation by zero quarter turns.
    pub fn new() -> (r: Rotation)
        ensures
            r@ == Matrix::identity(),
    {
        proof {
            lemma_rotation_entries();
        }
        Rotation { matrix: [[1, 0], [0, 1]] }
    }

    /// This rotation followed by one more quarter turn.
    pub fn rotate(&self) -> (r: Rotation)
        ensures
            r@ == self@.quarter_turn(),
    {
        proof {
            use_type_invariant(self);
            lemma_rotation_entries();
            let k = self@.turns();
            lemma_rotation_group(k + 1);
        }
        Rotation {
            matrix: [
                [self.matrix[0][1], -self.matrix[0][0]],
                [self.matrix[1][1], -self.matrix[1][0]],
            ],
        }
    }

    /// This rotation followed by `count` more quarter turns; only `count`
    /// modulo four matters.
    pub fn rotate_n(&self, count: usize) -> (r: Rotation)
        ensures
            r@ == self@.turned(count as nat),
            r@ == self@.turned((count % 4) as nat),
    {
        let mut result = *self;
        let mut i: usize = 0;
        while i < count
            invariant
                i <= count,
                result@ == self@.turned(i as nat),
            decreases count - i,
        {
            result = result.rotate();
            i = i + 1;
        }
        proof {
            lemma_turned_periodic(self@, count as nat);
        }
        result
    }

    /// The number of quarter turns that lead from the identity to this
    /// rotation.
    pub fn get_turns(&self) -> (turns: u8)
        ensures
            turns < 4,
            turns == self@.turns(),
            Matrix::of_turns(turns as nat) == self@,
    {
        proof {
            use_type_invariant(self);
            lemma_rotation_entries();
        }
        let mut result: u8 = 0;
        let temp = Rotation::new();
        while !temp.rotate_n(result as usize).same_as(self)
            invariant
                result < 4,
                temp@ == Matrix::identity(),
                self@.is_rotation(),
                forall|k: nat| k < result ==> self@ != #[trigger] Matrix::of_turns(k),
            decreases 4 - result,
        {
            result += 1;
        }
        result
    }

    fn same_as(&self, other: &Rotation) -> (same: bool)
        ensures
            same == (self@ == other@),
    {
        self.matrix[0][0] == other.matrix[0][0] && self.matrix[0][1] == other.matrix[0][1]
            && self.matrix[1][0] == other.matrix[1][0] && self.matrix[1][1] == other.matrix[1][1]
    }
}

impl Vector {
    /// The product of `rotation` with this vector.
    pub fn rotate(&self, rotation: &Rotation) -> (r: Vector)
        requires
            self@.rotated(rotation@).fits(),
        ensures
            r@ == self@.rotated(rotation@),
    {
        proof {
            use_type_invariant(rotation);
            lemma_rotation_entries();
            lemma_rotated_by_turns(self@);
            lemma_turns_of_rotation(rotation@);
        }
        let mut result = *self;
        result.x = rotation.matrix[0][0] * self.x + rotation.matrix[0][1] * self.y;
        result.y = rotation.matrix[1][0] * self.x + rotation.matrix[1][1] * self.y;
        result
    }

    /// The componentwise sum of this vector and `other`.
    pub fn add(&self, other: &Vector) -> (r: Vector)
        requires
            self@.plus(other@).fits(),
        ensures
            r@ == self@.plus(other@),
    {
        Vector { x: self.x + other.x, y: self.y + other.y }
    }
}

/// One of the four sides of a square piece, in clockwise order.
#[derive(Clone, Copy, Debug, PartialEq, Eq, Hash, Structural)]
pub enum Orientation {
    Top,
    Right,
    Bottom,
    Left,
}

impl Orientation {
    /// The side that follows this one in the cycle top, right, bottom, left.
    pub open spec fn next(self) -> Orientation {
        match self {
            Orientation::Top => Orientation::Right,
            Orientation::Right => Orientation::Bottom,
            Orientation::Bottom => Orientation::Left,
            Orientation::Left => Orientation::Top,
        }
    }

    /// The unit vector that points from the centre of a piece to this side.
    pub open spec fn direction(self) -> Coord {
        match self {
            Orientation::Top => Coord { x: 0, y: 1 },
            Orientation::Right => Coord { x: 1, y: 0 },
            Orientation::Bottom => Coord { x: 0, y: -1 },
            Orientation::Left => Coord { x: -1, y: 0 },
        }
    }

    /// The side that follows this one in the cycle top, right, bottom, left.
    pub fn rotate(&self) -> (r: Orientation)
        ensures
            r == self.next(),
    {
        match self {
            Orientation::Top => Orientation::Right,
            Orientation::Right => Orientation::Bottom,
            Orientation::Bottom => Orientation::Left,
            Orientation::Left => Orientation::Top,
        }
    }
}

impl From<Orientation> for Vector {
    /// The unit vector that points from the centre of a piece to the side
    /// `orientation`.
    fn from(orientation: Orientation) -> (v: Vector)
        ensures
            v@ == orientation.direction(),
    {
        match orientation {
            Orientation::Top => Vector { x: 0, y: 1 },
            Orientation::Right => Vector { x: 1, y: 0 },
            Orientation::Bottom => Vector { x: 0, y: -1 },
            Orientation::Left => Vector { x: -1, y: 0 },
        }
    }
}

impl vstd::std_specs::convert::FromSpecImpl<Orientation> for Vector {
    open spec fn obeys_from_spec() -> bool {
        true
    }

    open spec fn from_spec(orientation: Orientation) -> Vector {
        match orientation {
            Orientation::Top => Vector { x: 0, y: 1 },
            Orientation::Right => Vector { x: 1, y: 0 },
            Orientation::Bottom => Vector { x: 0, y: (-1) as i8 },
            Orientation::Left => Vector { x: (-1) as i8, y: 0 },
        }
    }
}

/// The directions of the four sides are unit vectors, different sides have
/// different directions, and the directions of two sides that are neither
/// equal nor opposite do not lie on one line.
pub proof fn lemma_directions(a: Orientation, b: Orientation)
    ensures
        a.direction().is_unit(),
        a.direction() == b.direction() ==> a == b,
        a != b && a != b.next().next() ==> a.direction().cross(b.direction()) != 0,
        a == b.next().next() ==> a.direction() == (Coord {
            x: -b.direction().x,
            y: -b.direction().y,
        }),
{
}

/// Four steps through the cycle of sides lead back to the start.
pub proof fn lemma_orientation_cycle(a: Orientation)
    ensures
        a.next().next().next().next() == a,
        a.next() != a,
        a.next().next() != a,
{
}

/// A rotation turns the direction of every side into a unit vector, so the
/// result always fits a `Vector`; one quarter turn moves the direction of a
/// side onto the direction of the side before it in the cycle.
pub proof fn lemma_rotated_direction(o: Orientation, m: Matrix)
    requires
        m.is_rotation(),
    ensures
        o.direction().rotated(m).is_unit(),
        o.direction().rotated(m).fits(),
        o.next().direction().rotated(Matrix::of_turns(1)) == o.direction(),
{
    lemma_rotated_by_turns(o.direction());
    lemma_rotated_by_turns(o.next().direction());
    lemma_turns_of_rotation(m);
}

} // verus!
