//! The mathematical model of the quadtree: a tree of squares whose leaves
//! hold body indices, with insertion, range query and depth defined on it.
use vstd::prelude::*;
use crate::fixed::{clamp, fx_add};
use crate::physics::Body;
use crate::quadtree::SquareBox;

verus! {

/// A quadtree as a value. Positions and masses are not stored: they are read
/// from the body sequence that the indices refer to.
pub enum Tree {
    /// A square that holds body indices directly.
    Leaf { boundary: SquareBox, mass: int, indices: Seq<usize> },
    /// A subdivided square, with one subtree for each quadrant.
    Cell {
        boundary: SquareBox,
        mass: int,
        ne: Box<Tree>,
        nw: Box<Tree>,
        sw: Box<Tree>,
        se: Box<Tree>,
    },
}

/// The members of `s`, in order, whose body lies in quadrant `quadrant` of
/// `boundary`.
pub open spec fn routed_to(
    s: Seq<usize>,
    bodies: Seq<Body>,
    boundary: SquareBox,
    quadrant: int,
) -> Seq<usize>
    decreases s.len(),
{
    if s.len() == 0 {
        Seq::empty()
    } else {
        let rest = routed_to(s.drop_last(), bodies, boundary, quadrant);
        if boundary.spec_quadrant(bodies[s.last() as int].position) == quadrant {
            rest.push(s.last())
        } else {
            rest
        }
    }
}

/// The members of `s`, in order, whose body lies in `region`.
pub open spec fn within(s: Seq<usize>, bodies: Seq<Body>, region: SquareBox) -> Seq<usize>
    decreases s.len(),
{
    if s.len() == 0 {
        Seq::empty()
    } else {
        let rest = within(s.drop_last(), bodies, region);
        if region.spec_contains(bodies[s.last() as int].position) {
            rest.push(s.last())
        } else {
            rest
        }
    }
}

/// The raw masses of the bodies listed in `s`, added up one after the other
/// with saturation.
pub open spec fn sat_mass(s: Seq<usize>, bodies: Seq<Body>) -> int
    decreases s.len(),
{
    if s.len() == 0 {
        0
    } else {
        fx_add(sat_mass(s.drop_last(), bodies), bodies[s.last() as int].mass@)
    }
}

/// The exact sum of the raw masses of the bodies listed in `s`.
pub open spec fn total_mass(s: Seq<usize>, bodies: Seq<Body>) -> int
    decreases s.len(),
{
    if s.len() == 0 {
        0
    } else {
        total_mass(s.drop_last(), bodies) + bodies[s.last() as int].mass@
    }
}

/// Every member of `s` is an index into a sequence of length `n`.
pub open spec fn all_below(s: Seq<usize>, n: int) -> bool {
    forall|k: int| 0 <= k < s.len() ==> s[k] < n
}

/// Every member of `s` is a body in quadrant `quadrant` of `boundary`.
pub open spec fn all_in_quadrant(
    s: Seq<usize>,
    bodies: Seq<Body>,
    boundary: SquareBox,
    quadrant: int,
) -> bool {
    forall|k: int|
        0 <= k < s.len() ==> boundary.spec_quadrant(bodies[(#[trigger] s[k]) as int].position)
            == quadrant
}

/// Every member of `s` is a body in `region`.
pub open spec fn all_inside(s: Seq<usize>, bodies: Seq<Body>, region: SquareBox) -> bool {
    forall|k: int|
        0 <= k < s.len() ==> region.spec_contains(bodies[(#[trigger] s[k]) as int].position)
}

/// The leaf that a square with the given contents turns into when it is
/// subdivided for quadrant `quadrant`.
pub open spec fn split_leaf(
    boundary: SquareBox,
    indices: Seq<usize>,
    bodies: Seq<Body>,
    quadrant: int,
) -> Tree {
    let moved = routed_to(indices, bodies, boundary, quadrant);
    Tree::Leaf {
        boundary: boundary.spec_child(quadrant),
        mass: sat_mass(moved, bodies),
        indices: moved,
    }
}

/// The cell that a leaf with the given contents turns into when it is
/// subdivided: every index moves to the child of its quadrant, and every child
/// is credited with the masses it receives.
pub open spec fn split(boundary: SquareBox, mass: int, indices: Seq<usize>, bodies: Seq<Body>) -> Tree {
    Tree::Cell {
        boundary,
        mass,
        ne: Box::new(split_leaf(boundary, indices, bodies, 0)),
        nw: Box::new(split_leaf(boundary, indices, bodies, 1)),
        sw: Box::new(split_leaf(boundary, indices, bodies, 2)),
        se: Box::new(split_leaf(boundary, indices, bodies, 3)),
    }
}

impl Tree {
    /// The square that this tree covers.
    pub open spec fn boundary(self) -> SquareBox {
        match self {
            Tree::Leaf { boundary, .. } => boundary,
            Tree::Cell { boundary, .. } => boundary,
        }
    }

    /// The raw aggregate mass recorded at the root of this tree.
    pub open spec fn mass(self) -> int {
        match self {
            Tree::Leaf { mass, .. } => mass,
            Tree::Cell { mass, .. } => mass,
        }
    }

    /// The subtree for quadrant `quadrant` of a cell; a leaf is its own child.
    pub open spec fn child(self, quadrant: int) -> Tree {
        match self {
            Tree::Leaf { .. } => self,
            Tree::Cell { ne, nw, sw, se, .. } => if quadrant == 0 {
                *ne
            } else if quadrant == 1 {
                *nw
            } else if quadrant == 2 {
                *sw
            } else {
                *se
            },
        }
    }

    /// This tree with another aggregate mass at its root.
    pub open spec fn with_mass(self, mass: int) -> Tree {
        match self {
            Tree::Leaf { boundary, indices, .. } => Tree::Leaf { boundary, mass, indices },
            Tree::Cell { boundary, ne, nw, sw, se, .. } => Tree::Cell {
                boundary,
                mass,
                ne,
                nw,
                sw,
                se,
            },
        }
    }

    /// This cell with another subtree for quadrant `quadrant`; a leaf is left
    /// as it is.
    pub open spec fn with_child(self, quadrant: int, kid: Tree) -> Tree {
        match self {
            Tree::Leaf { .. } => self,
            Tree::Cell { boundary, mass, ne, nw, sw, se } => if quadrant == 0 {
                Tree::Cell { boundary, mass, ne: Box::new(kid), nw, sw, se }
            } else if quadrant == 1 {
                Tree::Cell { boundary, mass, ne, nw: Box::new(kid), sw, se }
            } else if quadrant == 2 {
                Tree::Cell { boundary, mass, ne, nw, sw: Box::new(kid), se }
            } else {
                Tree::Cell { boundary, mass, ne, nw, sw, se: Box::new(kid) }
            },
        }
    }

    /// All indices held in this tree: those of a leaf in the order in which
    /// they arrived, those of a cell quadrant after quadrant.
    pub open spec fn indices(self) -> Seq<usize>
        decreases self,
    {
        match self {
            Tree::Leaf { indices, .. } => indices,
            Tree::Cell { ne, nw, sw, se, .. } => ne.indices() + nw.indices() + sw.indices()
                + se.indices(),
        }
    }

    /// The length of the longest path from the root to a leaf.
    pub open spec fn depth(self) -> nat
        decreases self,
    {
        match self {
            Tree::Leaf { .. } => 0,
            Tree::Cell { ne, nw, sw, se, .. } => {
                let north = if ne.depth() >= nw.depth() {
                    ne.depth()
                } else {
                    nw.depth()
                };
                let south = if sw.depth() >= se.depth() {
                    sw.depth()
                } else {
                    se.depth()
                };
                1 + if north >= south {
                    north
                } else {
                    south
                }
            },
        }
    }

    /// The answer to a range query. A subtree whose square lies inside
    /// `region` contributes all its indices, untested; a leaf that only
    /// overlaps contributes the indices whose body lies in `region`; a cell
    /// that only overlaps contributes what its four subtrees do.
    pub open spec fn query(self, region: SquareBox, bodies: Seq<Body>) -> Seq<usize>
        decreases self,
    {
        if region.spec_contains_box(self.boundary()) {
            self.indices()
        } else {
            match self {
                Tree::Leaf { indices, .. } => within(indices, bodies, region),
                Tree::Cell { ne, nw, sw, se, .. } => ne.query(region, bodies) + nw.query(
                    region,
                    bodies,
                ) + sw.query(region, bodies) + se.query(region, bodies),
            }
        }
    }

    /// Whether an insertion that arrives at this tree ends here: at a leaf
    /// that has room left, or that is too small to be subdivided.
    pub open spec fn accepts(self, capacity: usize) -> bool {
        match self {
            Tree::Leaf { boundary, indices, .. } => indices.len() < capacity
                || !boundary.divisible(),
            Tree::Cell { .. } => false,
        }
    }

    /// The tree after body `index` has been inserted. The aggregate mass of
    /// every square on the way down grows by the body's mass. The descent
    /// follows the quadrant of the body's position and ends at the first leaf
    /// that accepts; a leaf that does not is subdivided on the way.
    pub open spec fn insert(self, index: usize, bodies: Seq<Body>, capacity: usize) -> Tree
        decreases self.boundary().half_size@, 1int,
    {
        let body = bodies[index as int];
        let mass = fx_add(self.mass(), body.mass@);
        match self {
            Tree::Leaf { boundary, indices, .. } => if self.accepts(capacity) {
                Tree::Leaf { boundary, mass, indices: indices.push(index) }
            } else {
                split(boundary, mass, indices, bodies).descend(index, bodies, capacity)
            },
            Tree::Cell { .. } => self.with_mass(mass).descend(index, bodies, capacity),
        }
    }

    /// This cell after body `index` has been inserted into the subtree of its
    /// quadrant.
    pub open spec fn descend(self, index: usize, bodies: Seq<Body>, capacity: usize) -> Tree
        decreases self.boundary().half_size@, 0int,
    {
        let quadrant = self.boundary().spec_quadrant(bodies[index as int].position) as int;
        let kid = self.child(quadrant);
        if self is Cell && 0 <= kid.boundary().half_size@ < self.boundary().half_size@ {
            self.with_child(quadrant, kid.insert(index, bodies, capacity))
        } else {
            self
        }
    }

    /// Every index held in this tree is an index into a sequence of length
    /// `n`.
    pub open spec fn in_bounds(self, n: int) -> bool {
        all_below(self.indices(), n)
    }

    /// The recorded masses are conserved: every square records the clamped
    /// sum of the masses of the bodies below it, and every cell records the
    /// clamped sum of what its four subtrees record.
    pub open spec fn mass_kept(self, bodies: Seq<Body>) -> bool
        decreases self,
    {
        &&& self.mass() == clamp(total_mass(self.indices(), bodies))
        &&& match self {
            Tree::Leaf { .. } => true,
            Tree::Cell { mass, ne, nw, sw, se, .. } => {
                &&& mass == clamp(ne.mass() + nw.mass() + sw.mass() + se.mass())
                &&& ne.mass_kept(bodies)
                &&& nw.mass_kept(bodies)
                &&& sw.mass_kept(bodies)
                &&& se.mass_kept(bodies)
            },
        }
    }

    /// Every body lies where the descent by quadrants leads: below the
    /// subtree of its quadrant, at every cell above it.
    pub open spec fn routed(self, bodies: Seq<Body>) -> bool
        decreases self,
    {
        match self {
            Tree::Leaf { .. } => true,
            Tree::Cell { boundary, ne, nw, sw, se, .. } => {
                &&& all_in_quadrant(ne.indices(), bodies, boundary, 0)
                &&& all_in_quadrant(nw.indices(), bodies, boundary, 1)
                &&& all_in_quadrant(sw.indices(), bodies, boundary, 2)
                &&& all_in_quadrant(se.indices(), bodies, boundary, 3)
                &&& ne.routed(bodies)
                &&& nw.routed(bodies)
                &&& sw.routed(bodies)
                &&& se.routed(bodies)
            },
        }
    }

    /// Every body lies in every square above it.
    pub open spec fn tight(self, bodies: Seq<Body>) -> bool
        decreases self,
    {
        &&& all_inside(self.indices(), bodies, self.boundary())
        &&& match self {
            Tree::Leaf { .. } => true,
            Tree::Cell { ne, nw, sw, se, .. } => {
                &&& ne.tight(bodies)
                &&& nw.tight(bodies)
                &&& sw.tight(bodies)
                &&& se.tight(bodies)
            },
        }
    }

    /// Subdivision is neither late nor early: a leaf holds at most `capacity`
    /// indices unless its square is too small to be subdivided, and a cell
    /// holds more than `capacity`.
    pub open spec fn balanced(self, capacity: usize) -> bool
        decreases self,
    {
        match self {
            Tree::Leaf { boundary, indices, .. } => indices.len() <= capacity
                || !boundary.divisible(),
            Tree::Cell { ne, nw, sw, se, .. } => {
                &&& self.indices().len() > capacity
                &&& ne.balanced(capacity)
                &&& nw.balanced(capacity)
                &&& sw.balanced(capacity)
                &&& se.balanced(capacity)
            },
        }
    }

    /// The indices held by the leaf that the descent by quadrants from the
    /// root reaches for the point with raw coordinates `(x, y)`.
    pub open spec fn found_at(self, x: int, y: int) -> Seq<usize>
        decreases self,
    {
        match self {
            Tree::Leaf { indices, .. } => indices,
            Tree::Cell { boundary, ne, nw, sw, se, .. } => {
                let quadrant = boundary.quadrant_of(x, y);
                if quadrant == 0 {
                    ne.found_at(x, y)
                } else if quadrant == 1 {
                    nw.found_at(x, y)
                } else if quadrant == 2 {
                    sw.found_at(x, y)
                } else {
                    se.found_at(x, y)
                }
            },
        }
    }

    /// Every cell is divisible and its four subtrees cover its four child
    /// squares, in quadrant order.
    pub open spec fn well_shaped(self) -> bool
        decreases self,
    {
        match self {
            Tree::Leaf { .. } => true,
            Tree::Cell { boundary, ne, nw, sw, se, .. } => {
                &&& boundary.divisible()
                &&& ne.boundary() == boundary.spec_child(0)
                &&& nw.boundary() == boundary.spec_child(1)
                &&& sw.boundary() == boundary.spec_child(2)
                &&& se.boundary() == boundary.spec_child(3)
                &&& ne.well_shaped()
                &&& nw.well_shaped()
                &&& sw.well_shaped()
                &&& se.well_shaped()
            },
        }
    }
}

/// The tree that covers `boundary` after the first `n` bodies have been
/// inserted, in order.
pub open spec fn grown(boundary: SquareBox, bodies: Seq<Body>, capacity: usize, n: nat) -> Tree
    decreases n,
{
    if n == 0 {
        Tree::Leaf { boundary, mass: 0, indices: Seq::empty() }
    } else {
        grown(boundary, bodies, capacity, (n - 1) as nat).insert(
            (n - 1) as usize,
            bodies,
            capacity,
        )
    }
}

/// The indices of the first `n` bodies, in order.
pub open spec fn first_indices(n: nat) -> Seq<usize> {
    Seq::new(n, |k: int| k as usize)
}

/// The exact sum of the raw masses of the first `n` bodies.
pub open spec fn mass_upto(bodies: Seq<Body>, n: nat) -> int
    decreases n,
{
    if n == 0 {
        0
    } else {
        mass_upto(bodies, (n - 1) as nat) + bodies[n - 1].mass@
    }
}

} // verus!
