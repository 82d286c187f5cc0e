//! A point-region quadtree over body positions that also keeps, for every
//! node, the total mass of the bodies below it.
pub mod laws;
pub mod model;
pub mod pool;

use vstd::prelude::*;
use crate::fixed::{
    clamp, fx_add, fx_half_ceil, fx_half_floor, fx_sub, Fixed, RAW_MAX, RAW_MIN,
};
use crate::physics::{Body, SMALL_RAW};
use crate::quadtree::model::{
    all_below, routed_to, sat_mass, split, split_leaf, within, Tree,
};
use crate::quadtree::pool::{
    child_of, children_apart, has_children, has_parent, lemma_all_below_root, lemma_descend,
    lemma_frame, lemma_mass_changed, lemma_mass_kept_below, lemma_reach_behind,
    lemma_same_links, node_wf, pool_below, pool_wf, reach, tree_of,
};

verus! {

/// Leaf capacity of a tree made by [`SquareQuadtree::new`].
pub const DEFAULT_CAPACITY: usize = 32;

/// One square of a quadtree, as it lies in the tree's node pool.
pub struct QuadTreeNode {
    /// The square that this node covers.
    pub boundary: SquareBox,
    /// The bodies held directly by this node; empty unless it is a leaf.
    pub referenced_indices: Vec<usize>,
    /// Where the four children start in the pool; zero for a leaf.
    pub children_idx: usize,
    /// Total mass of the bodies held by this node and by all nodes below it.
    pub mass: Fixed,
}

/// An axis-aligned square, closed on all four edges.
#[derive(Debug, Clone, Copy)]
pub struct SquareBox {
    /// Horizontal coordinate of the center.
    pub center_x: Fixed,
    /// Vertical coordinate of the center.
    pub center_y: Fixed,
    /// Half the side length.
    pub half_size: Fixed,
}

/// Smallest raw coordinate among the first `n` bodies along `axis`.
pub open spec fn min_coordinate(bodies: Seq<Body>, axis: int, n: int) -> int
    decreases n,
{
    if n <= 1 {
        bodies[0].position[axis]@
    } else {
        let rest = min_coordinate(bodies, axis, n - 1);
        let last = bodies[n - 1].position[axis]@;
        if last < rest {
            last
        } else {
            rest
        }
    }
}

/// Largest raw coordinate among the first `n` bodies along `axis`.
pub open spec fn max_coordinate(bodies: Seq<Body>, axis: int, n: int) -> int
    decreases n,
{
    if n <= 1 {
        bodies[0].position[axis]@
    } else {
        let rest = max_coordinate(bodies, axis, n - 1);
        let last = bodies[n - 1].position[axis]@;
        if last > rest {
            last
        } else {
            rest
        }
    }
}

/// The extremes bound every coordinate they were taken over, and are
/// themselves raw counts.
pub proof fn lemma_extremes_bound(bodies: Seq<Body>, axis: int, n: int, i: int)
    requires
        0 <= i < n <= bodies.len(),
    ensures
        min_coordinate(bodies, axis, n) <= bodies[i].position[axis]@ <= max_coordinate(
            bodies,
            axis,
            n,
        ),
        RAW_MIN <= min_coordinate(bodies, axis, n),
        max_coordinate(bodies, axis, n) <= RAW_MAX,
    decreases n,
{
    if n > 1 {
        if i < n - 1 {
            lemma_extremes_bound(bodies, axis, n - 1, i);
        } else {
            lemma_extremes_bound(bodies, axis, n - 1, 0);
        }
    }
}

impl SquareBox {
    /// Raw left edge.
    pub open spec fn spec_x_min(self) -> int {
        fx_sub(self.center_x@, self.half_size@)
    }

    /// Raw right edge.
    pub open spec fn spec_x_max(self) -> int {
        fx_add(self.center_x@, self.half_size@)
    }

    /// Raw bottom edge.
    pub open spec fn spec_y_min(self) -> int {
        fx_sub(self.center_y@, self.half_size@)
    }

    /// Raw top edge.
    pub open spec fn spec_y_max(self) -> int {
        fx_add(self.center_y@, self.half_size@)
    }

    /// The point with raw coordinates `(x, y)` lies in the square or on its
    /// edge.
    pub open spec fn holds(self, x: int, y: int) -> bool {
        &&& self.spec_x_min() <= x <= self.spec_x_max()
        &&& self.spec_y_min() <= y <= self.spec_y_max()
    }

    /// `point` lies in the square or on its edge.
    pub open spec fn spec_contains(self, point: [Fixed; 2]) -> bool {
        self.holds(point[0]@, point[1]@)
    }

    /// `other` is a subset of this square.
    pub open spec fn spec_contains_box(self, other: SquareBox) -> bool {
        &&& self.spec_x_min() <= other.spec_x_min()
        &&& other.spec_x_max() <= self.spec_x_max()
        &&& self.spec_y_min() <= other.spec_y_min()
        &&& other.spec_y_max() <= self.spec_y_max()
    }

    /// Quadrant of the point with raw coordinates `(x, y)`: 0 is north-east,
    /// 1 north-west, 2 south-west, 3 south-east. Points on the horizontal
    /// center line go south; in the north, points on the vertical center line
    /// go west, in the south they go east.
    pub open spec fn quadrant_of(self, x: int, y: int) -> usize {
        if y > self.center_y@ {
            if x > self.center_x@ {
                0
            } else {
                1
            }
        } else if x < self.center_x@ {
            2
        } else {
            3
        }
    }

    /// Quadrant of `point`.
    pub open spec fn spec_quadrant(self, point: [Fixed; 2]) -> usize {
        self.quadrant_of(point[0]@, point[1]@)
    }

    /// The child square that covers quadrant `quadrant`. Its half-size is half
    /// this one's rounded up, and its center is shifted by half this one's
    /// half-size rounded down, so that the four children together cover this
    /// square.
    pub open spec fn spec_child(self, quadrant: int) -> SquareBox {
        let shift = fx_half_floor(self.half_size@);
        let east = fx_add(self.center_x@, shift);
        let west = fx_sub(self.center_x@, shift);
        let north = fx_add(self.center_y@, shift);
        let south = fx_sub(self.center_y@, shift);
        let half_size = Fixed { raw: fx_half_ceil(self.half_size@) as i64 };
        if quadrant == 0 {
            SquareBox {
                center_x: Fixed { raw: east as i64 },
                center_y: Fixed { raw: north as i64 },
                half_size,
            }
        } else if quadrant == 1 {
            SquareBox {
                center_x: Fixed { raw: west as i64 },
                center_y: Fixed { raw: north as i64 },
                half_size,
            }
        } else if quadrant == 2 {
            SquareBox {
                center_x: Fixed { raw: west as i64 },
                center_y: Fixed { raw: south as i64 },
                half_size,
            }
        } else {
            SquareBox {
                center_x: Fixed { raw: east as i64 },
                center_y: Fixed { raw: south as i64 },
                half_size,
            }
        }
    }

    /// The square may be subdivided: its half-size is at least `1e-5`, so its
    /// children are strictly smaller.
    pub open spec fn divisible(self) -> bool {
        self.half_size@ >= SMALL_RAW
    }

    /// The larger of the two raw extents of the bounding rectangle of a
    /// non-empty set of bodies.
    pub open spec fn larger_extent(bodies: Seq<Body>) -> int {
        let n = bodies.len() as int;
        let width = max_coordinate(bodies, 0, n) - min_coordinate(bodies, 0, n);
        let height = max_coordinate(bodies, 1, n) - min_coordinate(bodies, 1, n);
        if width >= height {
            width
        } else {
            height
        }
    }

    /// The bounding square of a non-empty set of bodies: centered at the
    /// midpoint of their bounding rectangle (rounded down), with half the
    /// larger extent (rounded up) as half-size.
    pub open spec fn bounding(bodies: Seq<Body>) -> SquareBox {
        let n = bodies.len() as int;
        let x_lo = min_coordinate(bodies, 0, n);
        let x_hi = max_coordinate(bodies, 0, n);
        let y_lo = min_coordinate(bodies, 1, n);
        let y_hi = max_coordinate(bodies, 1, n);
        let extent = Self::larger_extent(bodies);
        SquareBox {
            center_x: Fixed { raw: ((x_lo + x_hi) / 2) as i64 },
            center_y: Fixed { raw: ((y_lo + y_hi) / 2) as i64 },
            half_size: Fixed { raw: clamp((extent + 1) / 2) as i64 },
        }
    }

    /// The square with the given center and half-size.
    pub fn new(center: [Fixed; 2], half_size: Fixed) -> (r: Self)
        ensures
            r.center_x == center[0],
            r.center_y == center[1],
            r.half_size == half_size,
    {
        Self { center_x: center[0], center_y: center[1], half_size }
    }

    /// The bounding square of a non-empty set of bodies.
    pub fn from_bodies(bodies: &[Body]) -> (r: Self)
        requires
            bodies.len() > 0,
        ensures
            r == Self::bounding(bodies@),
    {
        let mut x_lo: i64 = bodies[0].position[0].raw;
        let mut x_hi: i64 = x_lo;
        let mut y_lo: i64 = bodies[0].position[1].raw;
        let mut y_hi: i64 = y_lo;
        let mut i: usize = 1;
        while i < bodies.len()
            invariant
                1 <= i <= bodies.len(),
                x_lo == min_coordinate(bodies@, 0, i as int),
                x_hi == max_coordinate(bodies@, 0, i as int),
                y_lo == min_coordinate(bodies@, 1, i as int),
                y_hi == max_coordinate(bodies@, 1, i as int),
                x_lo <= x_hi,
                y_lo <= y_hi,
            decreases bodies.len() - i,
        {
            let x: i64 = bodies[i].position[0].raw;
            let y: i64 = bodies[i].position[1].raw;
            if x < x_lo {
                x_lo = x;
            }
            if x > x_hi {
                x_hi = x;
            }
            if y < y_lo {
                y_lo = y;
            }
            if y > y_hi {
                y_hi = y;
            }
            i += 1;
        }
        let width: i128 = x_hi as i128 - x_lo as i128;
        let height: i128 = y_hi as i128 - y_lo as i128;
        let extent: i128 = if width >= height {
            width
        } else {
            height
        };
        let half: i128 = (extent + 1) / 2;
        let half_size = if half > RAW_MAX as i128 {
            Fixed { raw: RAW_MAX }
        } else {
            Fixed { raw: half as i64 }
        };
        let x_sum: i128 = x_lo as i128 + x_hi as i128;
        let y_sum: i128 = y_lo as i128 + y_hi as i128;
        let center_x: i128 = if x_sum >= 0 {
            x_sum / 2
        } else {
            -((-x_sum + 1) / 2)
        };
        let center_y: i128 = if y_sum >= 0 {
            y_sum / 2
        } else {
            -((-y_sum + 1) / 2)
        };
        Self {
            center_x: Fixed { raw: center_x as i64 },
            center_y: Fixed { raw: center_y as i64 },
            half_size,
        }
    }

    /// Left edge.
    pub fn x_min(&self) -> (r: Fixed)
        ensures
            r@ == self.spec_x_min(),
    {
        self.center_x.sub(self.half_size)
    }

    /// Right edge.
    pub fn x_max(&self) -> (r: Fixed)
        ensures
            r@ == self.spec_x_max(),
    {
        self.center_x.add(self.half_size)
    }

    /// Bottom edge.
    pub fn y_min(&self) -> (r: Fixed)
        ensures
            r@ == self.spec_y_min(),
    {
        self.center_y.sub(self.half_size)
    }

    /// Top edge.
    pub fn y_max(&self) -> (r: Fixed)
        ensures
            r@ == self.spec_y_max(),
    {
        self.center_y.add(self.half_size)
    }

    /// The center.
    pub fn center(&self) -> (r: [Fixed; 2])
        ensures
            r[0] == self.center_x,
            r[1] == self.center_y,
    {
        [self.center_x, self.center_y]
    }

    /// The full side length.
    pub fn size(&self) -> (r: Fixed)
        ensures
            r@ == fx_add(self.half_size@, self.half_size@),
    {
        self.half_size.add(self.half_size)
    }

    /// Whether `point` lies in the square or on its edge.
    pub fn contains(&self, point: &[Fixed; 2]) -> (r: bool)
        ensures
            r == self.spec_contains(*point),
    {
        self.x_min().le(point[0]) && point[0].le(self.x_max()) && self.y_min().le(point[1])
            && point[1].le(self.y_max())
    }

    /// Whether `other` is a subset of this square.
    pub fn contains_box(&self, other: &SquareBox) -> (r: bool)
        ensures
            r == self.spec_contains_box(*other),
    {
        self.x_min().le(other.x_min()) && other.x_max().le(self.x_max()) && self.y_min().le(
            other.y_min(),
        ) && other.y_max().le(self.y_max())
    }

    /// The quadrant of `point`, which is taken to lie in the square.
    pub fn get_quadrant_unchecked(&self, point: &[Fixed; 2]) -> (r: usize)
        ensures
            r == self.spec_quadrant(*point),
            r < 4,
    {
        let x = point[0];
        let y = point[1];
        if y.gt(self.center_y) {
            if x.gt(self.center_x) {
                0
            } else {
                1
            }
        } else if x.lt(self.center_x) {
            2
        } else {
            3
        }
    }

    /// The child square covering the north-east quadrant.
    pub fn north_east(&self) -> (r: Self)
        ensures
            r == self.spec_child(0),
    {
        let shift = self.half_size.half_floor();
        SquareBox {
            center_x: self.center_x.add(shift),
            center_y: self.center_y.add(shift),
            half_size: self.half_size.half_ceil(),
        }
    }

    /// The child square covering the north-west quadrant.
    pub fn north_west(&self) -> (r: Self)
        ensures
            r == self.spec_child(1),
    {
        let shift = self.half_size.half_floor();
        SquareBox {
            center_x: self.center_x.sub(shift),
            center_y: self.center_y.add(shift),
            half_size: self.half_size.half_ceil(),
        }
    }

    /// The child square covering the south-west quadrant.
    pub fn south_west(&self) -> (r: Self)
        ensures
            r == self.spec_child(2),
    {
        let shift = self.half_size.half_floor();
        SquareBox {
            center_x: self.center_x.sub(shift),
            center_y: self.center_y.sub(shift),
            half_size: self.half_size.half_ceil(),
        }
    }

    /// The child square covering the south-east quadrant.
    pub fn south_east(&self) -> (r: Self)
        ensures
            r == self.spec_child(3),
    {
        let shift = self.half_size.half_floor();
        SquareBox {
            center_x: self.center_x.add(shift),
            center_y: self.center_y.sub(shift),
            half_size: self.half_size.half_ceil(),
        }
    }

    /// A point of a square lies in the child square of its quadrant.
    pub proof fn lemma_child_holds(self, x: int, y: int)
        requires
            self.half_size@ >= 0,
            self.holds(x, y),
            RAW_MIN <= x <= RAW_MAX,
            RAW_MIN <= y <= RAW_MAX,
        ensures
            self.spec_child(self.quadrant_of(x, y) as int).holds(x, y),
    {
    }

    /// The children of a divisible square are strictly smaller, and not
    /// negative in size.
    pub proof fn lemma_child_smaller(self, quadrant: int)
        requires
            self.divisible(),
        ensures
            0 <= self.spec_child(quadrant).half_size@ < self.half_size@,
    {
    }

    /// The bounding square of a set of bodies contains each of them, unless
    /// the bodies span the whole representable range, for which no half-size
    /// is large enough.
    pub proof fn lemma_bounding_contains(bodies: Seq<Body>, i: int)
        requires
            0 <= i < bodies.len(),
            Self::larger_extent(bodies) <= 2 * RAW_MAX,
        ensures
            Self::bounding(bodies).spec_contains(bodies[i].position),
            Self::bounding(bodies).half_size@ >= 0,
    {
        let n = bodies.len() as int;
        lemma_extremes_bound(bodies, 0, n, i);
        lemma_extremes_bound(bodies, 1, n, i);
        lemma_extremes_bound(bodies, 0, n, 0);
        lemma_extremes_bound(bodies, 1, n, 0);
    }
}

} // verus!

verus! {

impl QuadTreeNode {
    /// An empty leaf covering `boundary`.
    fn new(boundary: SquareBox) -> (r: Self)
        ensures
            r.boundary == boundary,
            r.referenced_indices@ == Seq::<usize>::empty(),
            r.children_idx == 0,
            r.mass@ == 0,
    {
        Self {
            boundary,
            referenced_indices: Vec::with_capacity(DEFAULT_CAPACITY),
            children_idx: 0,
            mass: Fixed::zero(),
        }
    }

    /// Whether this node has no children.
    pub fn is_leaf(&self) -> (r: bool)
        ensures
            r == (self.children_idx == 0),
    {
        self.children_idx == 0
    }

    /// The bodies held directly by this node.
    pub fn referenced_indices(&self) -> (r: &[usize])
        ensures
            r@ == self.referenced_indices@,
    {
        self.referenced_indices.as_slice()
    }

    /// The square that this node covers.
    pub fn boundary(&self) -> (r: &SquareBox)
        ensures
            *r == self.boundary,
    {
        &self.boundary
    }

    /// Where the four children start in the pool; zero for a leaf.
    pub fn children_idx(&self) -> (r: usize)
        ensures
            r == self.children_idx,
    {
        self.children_idx
    }

    /// Total mass of the bodies at or below this node.
    pub fn mass(&self) -> (r: Fixed)
        ensures
            r == self.mass,
    {
        self.mass
    }
}

/// A quadtree whose nodes lie in one pool, the root first and the four
/// children of a node next to each other.
pub struct SquareQuadtree {
    /// How many indices a leaf takes before it is subdivided.
    capacity: usize,
    /// The pool.
    nodes: Vec<QuadTreeNode>,
}

impl View for SquareQuadtree {
    type V = Tree;

    /// The tree below the root.
    open spec fn view(&self) -> Tree {
        tree_of(self.pool(), 0)
    }
}

impl SquareQuadtree {
    /// The node pool.
    pub closed spec fn pool(&self) -> Seq<QuadTreeNode> {
        self.nodes@
    }

    /// The leaf capacity.
    pub closed spec fn spec_capacity(&self) -> usize {
        self.capacity
    }

    /// The pool represents a tree.
    pub open spec fn wf(&self) -> bool {
        pool_wf(self.pool())
    }

    /// Every index held in the tree is an index into a sequence of length
    /// `n`.
    pub open spec fn in_bounds(&self, n: int) -> bool {
        pool_below(self.pool(), n)
    }

    /// A tree that consists of one empty leaf covering `boundary`, with leaf
    /// capacity 32.
    pub fn new(boundary: SquareBox) -> (r: Self)
        ensures
            r.wf(),
            r.spec_capacity() == DEFAULT_CAPACITY,
            r@ == (Tree::Leaf { boundary, mass: 0, indices: Seq::empty() }),
            r.pool().len() == 1,
    {
        let root = QuadTreeNode::new(boundary);
        let mut nodes: Vec<QuadTreeNode> = Vec::new();
        nodes.push(root);
        proof {
            assert(node_wf(nodes@, 0));
        }
        SquareQuadtree { capacity: DEFAULT_CAPACITY, nodes }
    }

    /// The same tree with another leaf capacity.
    pub fn with_capacity(self, capacity: usize) -> (r: Self)
        ensures
            r.pool() == self.pool(),
            r.spec_capacity() == capacity,
    {
        SquareQuadtree { capacity, nodes: self.nodes }
    }

    /// Sets the leaf capacity that later insertions go by.
    pub fn set_capacity(&mut self, capacity: usize)
        ensures
            final(self).pool() == old(self).pool(),
            final(self).spec_capacity() == capacity,
    {
        self.capacity = capacity;
    }

    /// Empties the tree, which then consists of one empty leaf covering
    /// `boundary`. The leaf capacity stays.
    pub fn clear(&mut self, boundary: SquareBox)
        ensures
            final(self).wf(),
            final(self).spec_capacity() == old(self).spec_capacity(),
            final(self)@ == (Tree::Leaf { boundary, mass: 0, indices: Seq::empty() }),
            final(self).pool().len() == 1,
    {
        self.nodes.clear();
        self.nodes.push(QuadTreeNode::new(boundary));
        proof {
            assert(node_wf(self.nodes@, 0));
        }
    }

    /// The nodes of the tree, the root first.
    pub fn get_nodes(&self) -> (r: &[QuadTreeNode])
        ensures
            r@ == self.pool(),
    {
        self.nodes.as_slice()
    }

    /// Inserts body `index` if its position lies in the root square, and says
    /// whether it did.
    pub fn insert(&mut self, index: usize, bodies: &[Body]) -> (inserted: bool)
        requires
            old(self).wf(),
            index < bodies.len(),
            old(self).in_bounds(bodies.len() as int),
        ensures
            inserted == old(self)@.boundary().spec_contains(bodies[index as int].position),
            inserted ==> final(self)@ == old(self)@.insert(
                index,
                bodies@,
                old(self).spec_capacity(),
            ),
            !inserted ==> final(self).pool() == old(self).pool(),
            final(self).wf(),
            final(self).in_bounds(bodies.len() as int),
            final(self).spec_capacity() == old(self).spec_capacity(),
    {
        if !self.nodes[0].boundary.contains(&bodies[index].position) {
            return false;
        }
        self.insert_below(0, index, bodies);
        true
    }

    /// Inserts body `index` without asking whether its position lies in the
    /// root square.
    pub fn insert_unchecked(&mut self, index: usize, bodies: &[Body])
        requires
            old(self).wf(),
            index < bodies.len(),
            old(self).in_bounds(bodies.len() as int),
        ensures
            final(self)@ == old(self)@.insert(index, bodies@, old(self).spec_capacity()),
            final(self).wf(),
            final(self).in_bounds(bodies.len() as int),
            final(self).spec_capacity() == old(self).spec_capacity(),
    {
        self.insert_below(0, index, bodies);
    }

    /// The indices of the bodies in `boundary`: all indices below every node
    /// whose square lies inside `boundary`, and from every other leaf the
    /// indices of the bodies whose position lies in `boundary`.
    pub fn query_range(&self, boundary: SquareBox, bodies: &[Body]) -> (r: Vec<usize>)
        requires
            self.wf(),
            self.in_bounds(bodies.len() as int),
        ensures
            r@ == self@.query(boundary, bodies@),
            all_below(r@, bodies.len() as int),
    {
        let mut result: Vec<usize> = Vec::new();
        self.query_below(0, &boundary, bodies, &mut result);
        result
    }

    /// The length of the longest path from the root to a leaf.
    pub fn depth(&self) -> (r: usize)
        requires
            self.wf(),
        ensures
            r == self@.depth(),
    {
        self.depth_below(0)
    }

    /// Mass conservation, node by node. Where the tree conserves mass, every
    /// node with children records the clamped sum of what its four children
    /// record.
    pub proof fn lemma_node_mass(&self, bodies: Seq<Body>, n: int)
        requires
            self.wf(),
            self@.mass_kept(bodies),
            0 <= n < self.pool().len(),
            self.pool()[n].children_idx != 0,
        ensures
            self.pool()[n].children_idx + 4 <= self.pool().len(),
            self.pool()[n].mass@ == clamp(
                self.pool()[self.pool()[n].children_idx as int].mass@
                    + self.pool()[self.pool()[n].children_idx + 1].mass@
                    + self.pool()[self.pool()[n].children_idx + 2].mass@
                    + self.pool()[self.pool()[n].children_idx + 3].mass@,
            ),
    {
        let pool = self.pool();
        let first = pool[n].children_idx as int;
        lemma_all_below_root(pool, n);
        lemma_mass_kept_below(pool, 0, n, bodies);
        assert(node_wf(pool, n));
        assert(has_children(pool, n));
        let tree = tree_of(pool, n);
        assert(tree.child(0) == tree_of(pool, first));
        assert(tree.child(1) == tree_of(pool, first + 1));
        assert(tree.child(2) == tree_of(pool, first + 2));
        assert(tree.child(3) == tree_of(pool, first + 3));
        assert(tree_of(pool, first).mass() == pool[first].mass@);
        assert(tree_of(pool, first + 1).mass() == pool[first + 1].mass@);
        assert(tree_of(pool, first + 2).mass() == pool[first + 2].mass@);
        assert(tree_of(pool, first + 3).mass() == pool[first + 3].mass@);
    }

    /// Appends all indices held at or below node `node_idx` to `out`.
    fn collect_below(&self, node_idx: usize, bound: Ghost<int>, out: &mut Vec<usize>)
        requires
            self.wf(),
            node_idx < self.nodes.len(),
            pool_below(self.nodes@, bound@),
            all_below(old(out)@, bound@),
        ensures
            final(out)@ == old(out)@ + tree_of(self.nodes@, node_idx as int).indices(),
            all_below(final(out)@, bound@),
        decreases self.nodes.len() - node_idx,
    {
        proof {
            assert(node_wf(self.nodes@, node_idx as int));
        }
        if self.nodes[node_idx].is_leaf() {
            let held = self.nodes[node_idx].referenced_indices();
            let mut k: usize = 0;
            while k < held.len()
                invariant
                    0 <= k <= held.len(),
                    node_idx < self.nodes.len(),
                    held@ == self.nodes@[node_idx as int].referenced_indices@,
                    pool_below(self.nodes@, bound@),
                    all_below(out@, bound@),
                    out@ == old(out)@ + held@.take(k as int),
                decreases held.len() - k,
            {
                proof {
                    assert(held@[k as int] == self.nodes@[node_idx as int].referenced_indices@[k as int]);
                }
                out.push(held[k]);
                proof {
                    assert(held@.take(k as int + 1) == held@.take(k as int).push(held@[k as int]));
                }
                k += 1;
            }
            proof {
                assert(held@.take(held.len() as int) == held@);
            }
        } else {
            let first_idx: usize = self.nodes[node_idx].children_idx;
            self.collect_below(first_idx, bound, out);
            self.collect_below(first_idx + 1, bound, out);
            self.collect_below(first_idx + 2, bound, out);
            self.collect_below(first_idx + 3, bound, out);
            proof {
                let kid = |k: int| tree_of(self.nodes@, first_idx + k).indices();
                assert(out@ == old(out)@ + (kid(0) + kid(1) + kid(2) + kid(3)));
            }
        }
    }

    /// Appends the answer of the range query below node `node_idx` to `out`.
    fn query_below(
        &self,
        node_idx: usize,
        region: &SquareBox,
        bodies: &[Body],
        out: &mut Vec<usize>,
    )
        requires
            self.wf(),
            node_idx < self.nodes.len(),
            pool_below(self.nodes@, bodies.len() as int),
            all_below(old(out)@, bodies.len() as int),
        ensures
            final(out)@ == old(out)@ + tree_of(self.nodes@, node_idx as int).query(
                *region,
                bodies@,
            ),
            all_below(final(out)@, bodies.len() as int),
        decreases self.nodes.len() - node_idx,
    {
        proof {
            assert(node_wf(self.nodes@, node_idx as int));
        }
        if region.contains_box(&self.nodes[node_idx].boundary) {
            self.collect_below(node_idx, Ghost(bodies.len() as int), out);
        } else if self.nodes[node_idx].is_leaf() {
            let held = self.nodes[node_idx].referenced_indices();
            let mut k: usize = 0;
            while k < held.len()
                invariant
                    0 <= k <= held.len(),
                    node_idx < self.nodes.len(),
                    held@ == self.nodes@[node_idx as int].referenced_indices@,
                    pool_below(self.nodes@, bodies.len() as int),
                    all_below(out@, bodies.len() as int),
                    out@ == old(out)@ + within(held@.take(k as int), bodies@, *region),
                decreases held.len() - k,
            {
                let idx: usize = held[k];
                proof {
                    assert(idx == self.nodes@[node_idx as int].referenced_indices@[k as int]);
                    assert(held@.take(k as int + 1).drop_last() == held@.take(k as int));
                    assert(held@.take(k as int + 1).last() == idx);
                }
                if region.contains(&bodies[idx].position) {
                    out.push(idx);
                    proof {
                        let found = within(held@.take(k as int), bodies@, *region);
                        assert(out@ == old(out)@ + found.push(idx));
                    }
                }
                k += 1;
            }
            proof {
                assert(held@.take(held.len() as int) == held@);
            }
        } else {
            let first_idx: usize = self.nodes[node_idx].children_idx;
            self.query_below(first_idx, region, bodies, out);
            self.query_below(first_idx + 1, region, bodies, out);
            self.query_below(first_idx + 2, region, bodies, out);
            self.query_below(first_idx + 3, region, bodies, out);
            proof {
                let kid = |k: int| tree_of(self.nodes@, first_idx + k).query(*region, bodies@);
                assert(out@ == old(out)@ + (kid(0) + kid(1) + kid(2) + kid(3)));
            }
        }
    }

    /// The depth of the tree below node `node_idx`.
    fn depth_below(&self, node_idx: usize) -> (r: usize)
        requires
            self.wf(),
            node_idx < self.nodes.len(),
        ensures
            r == tree_of(self.nodes@, node_idx as int).depth(),
            r <= self.nodes.len() - 1 - node_idx,
        decreases self.nodes.len() - node_idx,
    {
        proof {
            assert(node_wf(self.nodes@, node_idx as int));
        }
        if self.nodes[node_idx].is_leaf() {
            return 0;
        }
        let first_idx: usize = self.nodes[node_idx].children_idx;
        let ne: usize = self.depth_below(first_idx);
        let nw: usize = self.depth_below(first_idx + 1);
        let sw: usize = self.depth_below(first_idx + 2);
        let se: usize = self.depth_below(first_idx + 3);
        let north: usize = if ne >= nw {
            ne
        } else {
            nw
        };
        let south: usize = if sw >= se {
            sw
        } else {
            se
        };
        1 + if north >= south {
            north
        } else {
            south
        }
    }

    /// Subdivides the leaf at `parent_idx`: appends its four children to the
    /// pool and moves its indices, and their masses, to them.
    fn subdivide(&mut self, parent_idx: usize, bodies: &[Body])
        requires
            old(self).wf(),
            parent_idx < old(self).nodes.len(),
            old(self).nodes[parent_idx as int].children_idx == 0,
            old(self).nodes[parent_idx as int].boundary.divisible(),
            pool_below(old(self).nodes@, bodies.len() as int),
        ensures
            final(self).wf(),
            pool_below(final(self).nodes@, bodies.len() as int),
            final(self).capacity == old(self).capacity,
            final(self).nodes.len() == old(self).nodes.len() + 4,
            forall|m: int|
                0 <= m < old(self).nodes.len() && m != parent_idx ==> final(self).nodes[m] == old(
                    self,
                ).nodes[m],
            final(self).nodes[parent_idx as int].children_idx == old(self).nodes.len(),
            tree_of(final(self).nodes@, parent_idx as int) == split(
                old(self).nodes[parent_idx as int].boundary,
                old(self).nodes[parent_idx as int].mass@,
                old(self).nodes[parent_idx as int].referenced_indices@,
                bodies@,
            ),
    {
        let ghost before = self.nodes@;
        let first: usize = self.nodes.len();
        let boundary: SquareBox = self.nodes[parent_idx].boundary;
        let mut ne = QuadTreeNode::new(boundary.north_east());
        let mut nw = QuadTreeNode::new(boundary.north_west());
        let mut sw = QuadTreeNode::new(boundary.south_west());
        let mut se = QuadTreeNode::new(boundary.south_east());
        let count: usize = self.nodes[parent_idx].referenced_indices.len();
        let ghost held = before[parent_idx as int].referenced_indices@;
        let mut k: usize = 0;
        while k < count
            invariant
                0 <= k <= count,
                self.nodes@ == before,
                parent_idx < before.len(),
                held == before[parent_idx as int].referenced_indices@,
                count == held.len(),
                boundary == before[parent_idx as int].boundary,
                pool_below(before, bodies.len() as int),
                ne.boundary == boundary.spec_child(0),
                nw.boundary == boundary.spec_child(1),
                sw.boundary == boundary.spec_child(2),
                se.boundary == boundary.spec_child(3),
                ne.children_idx == 0,
                nw.children_idx == 0,
                sw.children_idx == 0,
                se.children_idx == 0,
                ne.referenced_indices@ == routed_to(held.take(k as int), bodies@, boundary, 0),
                nw.referenced_indices@ == routed_to(held.take(k as int), bodies@, boundary, 1),
                sw.referenced_indices@ == routed_to(held.take(k as int), bodies@, boundary, 2),
                se.referenced_indices@ == routed_to(held.take(k as int), bodies@, boundary, 3),
                ne.mass@ == sat_mass(ne.referenced_indices@, bodies@),
                nw.mass@ == sat_mass(nw.referenced_indices@, bodies@),
                sw.mass@ == sat_mass(sw.referenced_indices@, bodies@),
                se.mass@ == sat_mass(se.referenced_indices@, bodies@),
                all_below(ne.referenced_indices@, bodies.len() as int),
                all_below(nw.referenced_indices@, bodies.len() as int),
                all_below(sw.referenced_indices@, bodies.len() as int),
                all_below(se.referenced_indices@, bodies.len() as int),
            decreases count - k,
        {
            let idx: usize = self.nodes[parent_idx].referenced_indices[k];
            proof {
                assert(held.take(k as int + 1).drop_last() == held.take(k as int));
                assert(held.take(k as int + 1).last() == idx);
                assert(idx == before[parent_idx as int].referenced_indices@[k as int]);
            }
            let quadrant: usize = boundary.get_quadrant_unchecked(&bodies[idx].position);
            let mass: Fixed = bodies[idx].mass;
            if quadrant == 0 {
                let ghost prior = ne.referenced_indices@;
                ne.referenced_indices.push(idx);
                ne.mass = ne.mass.add(mass);
                proof {
                    assert(ne.referenced_indices@.drop_last() == prior);
                }
            } else if quadrant == 1 {
                let ghost prior = nw.referenced_indices@;
                nw.referenced_indices.push(idx);
                nw.mass = nw.mass.add(mass);
                proof {
                    assert(nw.referenced_indices@.drop_last() == prior);
                }
            } else if quadrant == 2 {
                let ghost prior = sw.referenced_indices@;
                sw.referenced_indices.push(idx);
                sw.mass = sw.mass.add(mass);
                proof {
                    assert(sw.referenced_indices@.drop_last() == prior);
                }
            } else {
                let ghost prior = se.referenced_indices@;
                se.referenced_indices.push(idx);
                se.mass = se.mass.add(mass);
                proof {
                    assert(se.referenced_indices@.drop_last() == prior);
                }
            }
            k += 1;
        }
        proof {
            assert(held.take(count as int) == held);
        }
        let ghost kids = (ne, nw, sw, se);
        self.nodes.push(ne);
        self.nodes.push(nw);
        self.nodes.push(sw);
        self.nodes.push(se);
        self.nodes[parent_idx].children_idx = first;
        self.nodes[parent_idx].referenced_indices = Vec::new();
        proof {
            let after = self.nodes@;
            assert(after[first as int] == kids.0);
            assert(after[first as int + 1] == kids.1);
            assert(after[first as int + 2] == kids.2);
            assert(after[first as int + 3] == kids.3);
            assert(after[parent_idx as int].boundary == boundary);
            assert(after[parent_idx as int].mass == before[parent_idx as int].mass);
            assert(node_wf(before, parent_idx as int));
            assert forall|n: int| 0 <= n < after.len() implies #[trigger] node_wf(after, n) by {
                if n < before.len() && n != parent_idx {
                    assert(node_wf(before, n));
                }
            }
            assert forall|a: int, b: int|
                0 <= a < after.len() && 0 <= b < after.len() implies #[trigger] children_apart(
                after,
                a,
                b,
            ) by {
                if a < before.len() && b < before.len() {
                    assert(children_apart(before, a, b));
                    assert(node_wf(before, a));
                    assert(node_wf(before, b));
                }
            }
            assert forall|n: int| 1 <= n < after.len() implies #[trigger] has_parent(after, n) by {
                if n < before.len() {
                    assert(has_parent(before, n));
                    let p = choose|p: int| child_of(before, p, n);
                    assert(child_of(after, p, n));
                } else {
                    assert(child_of(after, parent_idx as int, n));
                }
            }
            assert(has_children(after, parent_idx as int));
            assert(tree_of(after, first as int) == split_leaf(boundary, held, bodies@, 0));
            assert(tree_of(after, first as int + 1) == split_leaf(boundary, held, bodies@, 1));
            assert(tree_of(after, first as int + 2) == split_leaf(boundary, held, bodies@, 2));
            assert(tree_of(after, first as int + 3) == split_leaf(boundary, held, bodies@, 3));
        }
    }

    /// Inserts body `index` into the tree below node `node_idx`.
    fn insert_below(&mut self, node_idx: usize, index: usize, bodies: &[Body])
        requires
            old(self).wf(),
            node_idx < old(self).nodes.len(),
            index < bodies.len(),
            pool_below(old(self).nodes@, bodies.len() as int),
        ensures
            final(self).wf(),
            pool_below(final(self).nodes@, bodies.len() as int),
            final(self).capacity == old(self).capacity,
            final(self).nodes.len() >= old(self).nodes.len(),
            tree_of(final(self).nodes@, node_idx as int) == tree_of(
                old(self).nodes@,
                node_idx as int,
            ).insert(index, bodies@, old(self).capacity),
            forall|m: int|
                0 <= m < old(self).nodes.len() && !reach(old(self).nodes@, node_idx as int, m)
                    ==> final(self).nodes[m] == old(self).nodes[m],
        decreases old(self).nodes[node_idx as int].boundary.half_size@,
    {
        let ghost pool0 = self.nodes@;
        let ghost n = node_idx as int;
        let mass: Fixed = self.nodes[node_idx].mass.add(bodies[index].mass);
        self.nodes[node_idx].mass = mass;
        let ghost pool1 = self.nodes@;
        proof {
            lemma_same_links(pool0, pool1);
            lemma_mass_changed(pool0, pool1, n);
            assert(node_wf(pool0, n));
            assert(reach(pool0, n, n));
        }
        if self.nodes[node_idx].is_leaf() {
            let boundary: SquareBox = self.nodes[node_idx].boundary;
            if self.nodes[node_idx].referenced_indices.len() < self.capacity
                || boundary.half_size.raw < SMALL_RAW {
                self.nodes[node_idx].referenced_indices.push(index);
                proof {
                    lemma_same_links(pool1, self.nodes@);
                }
                return ;
            }
            self.subdivide(node_idx, bodies);
        }
        let ghost pool2 = self.nodes@;
        let first_idx: usize = self.nodes[node_idx].children_idx;
        let quadrant: usize = self.nodes[node_idx].boundary.get_quadrant_unchecked(
            &bodies[index].position,
        );
        proof {
            assert(node_wf(pool2, n));
            pool2[n].boundary.lemma_child_smaller(quadrant as int);
        }
        self.insert_below(first_idx + quadrant, index, bodies);
        proof {
            let pool3 = self.nodes@;
            lemma_descend(pool2, pool3, n, quadrant as int, index, bodies@, self.capacity);
            assert forall|m: int| 0 <= m < pool0.len() && !reach(pool0, n, m) implies pool3[m]
                == pool0[m] by {
                if reach(pool2, first_idx + quadrant, m) {
                    lemma_reach_behind(pool2, first_idx + quadrant, m);
                    if pool0[n].children_idx != 0 {
                        lemma_reach_behind(pool0, first_idx + quadrant, first_idx + quadrant);
                        assert forall|x: int|
                            reach(pool0, first_idx + quadrant, x) implies pool1[x] == pool0[x] by {
                            lemma_reach_behind(pool0, first_idx + quadrant, x);
                        }
                        lemma_frame(pool0, pool1, first_idx + quadrant);
                        assert(reach(pool0, first_idx + quadrant, m));
                        assert(reach(pool0, n, m));
                    }
                }
            }
        }
    }
}

} // verus!
