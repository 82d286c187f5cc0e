//! The node pool: how a sequence of nodes that refer to each other by
//! position represents a tree, and what may change in it without changing
//! the tree below a given node.
use vstd::prelude::*;
use crate::physics::Body;
use crate::quadtree::model::Tree;
use crate::quadtree::QuadTreeNode;

verus! {

/// Node `n` of the pool has children, and they lie in the pool behind it.
pub open spec fn has_children(pool: Seq<QuadTreeNode>, n: int) -> bool {
    &&& 0 <= n < pool.len()
    &&& n < pool[n].children_idx
    &&& pool[n].children_idx + 4 <= pool.len()
}

/// Node `n` is a leaf, or a node without indices of its own whose square is
/// divisible and whose four children, which lie behind it in the pool at a
/// position one past a multiple of four, cover its four child squares in
/// quadrant order.
pub open spec fn node_wf(pool: Seq<QuadTreeNode>, n: int) -> bool {
    let node = pool[n];
    let first = node.children_idx as int;
    first == 0 || {
        &&& n < first
        &&& first + 4 <= pool.len()
        &&& first % 4 == 1
        &&& node.referenced_indices@.len() == 0
        &&& node.boundary.divisible()
        &&& pool[first].boundary == node.boundary.spec_child(0)
        &&& pool[first + 1].boundary == node.boundary.spec_child(1)
        &&& pool[first + 2].boundary == node.boundary.spec_child(2)
        &&& pool[first + 3].boundary == node.boundary.spec_child(3)
    }
}

/// Two different nodes do not share their children.
pub open spec fn children_apart(pool: Seq<QuadTreeNode>, a: int, b: int) -> bool {
    a != b && pool[a].children_idx != 0 ==> pool[a].children_idx != pool[b].children_idx
}

/// Node `n` is a child of some node.
pub open spec fn has_parent(pool: Seq<QuadTreeNode>, n: int) -> bool {
    exists|p: int| #[trigger] child_of(pool, p, n)
}

/// The pool holds a root at position zero, every node is well formed, no
/// two nodes share their children, and every node but the root is the child
/// of a node.
pub open spec fn pool_wf(pool: Seq<QuadTreeNode>) -> bool {
    &&& pool.len() >= 1
    &&& pool.len() % 4 == 1
    &&& forall|n: int| 0 <= n < pool.len() ==> #[trigger] node_wf(pool, n)
    &&& forall|a: int, b: int|
        0 <= a < pool.len() && 0 <= b < pool.len() ==> #[trigger] children_apart(pool, a, b)
    &&& forall|n: int| 1 <= n < pool.len() ==> #[trigger] has_parent(pool, n)
}

/// Every index held anywhere in the pool is an index into a sequence of
/// length `n`.
pub open spec fn pool_below(pool: Seq<QuadTreeNode>, n: int) -> bool {
    forall|m: int, k: int|
        0 <= m < pool.len() && 0 <= k < pool[m].referenced_indices@.len() ==> (
        #[trigger] pool[m].referenced_indices@[k]) < n
}

/// The tree below node `n` of the pool.
pub open spec fn tree_of(pool: Seq<QuadTreeNode>, n: int) -> Tree
    decreases pool.len() - n,
{
    if has_children(pool, n) {
        let first = pool[n].children_idx as int;
        Tree::Cell {
            boundary: pool[n].boundary,
            mass: pool[n].mass@,
            ne: Box::new(tree_of(pool, first)),
            nw: Box::new(tree_of(pool, first + 1)),
            sw: Box::new(tree_of(pool, first + 2)),
            se: Box::new(tree_of(pool, first + 3)),
        }
    } else {
        Tree::Leaf {
            boundary: pool[n].boundary,
            mass: pool[n].mass@,
            indices: pool[n].referenced_indices@,
        }
    }
}

/// Node `x` is node `a` or lies below it.
pub open spec fn reach(pool: Seq<QuadTreeNode>, a: int, x: int) -> bool
    decreases pool.len() - a,
{
    0 <= a < pool.len() && (a == x || (has_children(pool, a) && {
        let first = pool[a].children_idx as int;
        ||| reach(pool, first, x)
        ||| reach(pool, first + 1, x)
        ||| reach(pool, first + 2, x)
        ||| reach(pool, first + 3, x)
    }))
}

/// Node `x` is one of the four children of node `y`.
pub open spec fn child_of(pool: Seq<QuadTreeNode>, y: int, x: int) -> bool {
    has_children(pool, y) && pool[y].children_idx <= x < pool[y].children_idx + 4
}

/// What lies below a node lies behind it in the pool, and behind its first
/// child unless it is the node itself.
pub proof fn lemma_reach_behind(pool: Seq<QuadTreeNode>, a: int, x: int)
    requires
        reach(pool, a, x),
    ensures
        a <= x < pool.len(),
        x != a ==> has_children(pool, a) && pool[a].children_idx <= x,
    decreases pool.len() - a,
{
    if a != x {
        let first = pool[a].children_idx as int;
        if reach(pool, first, x) {
            lemma_reach_behind(pool, first, x);
        } else if reach(pool, first + 1, x) {
            lemma_reach_behind(pool, first + 1, x);
        } else if reach(pool, first + 2, x) {
            lemma_reach_behind(pool, first + 2, x);
        } else {
            lemma_reach_behind(pool, first + 3, x);
        }
    }
}

/// A node below `a` other than `a` has its parent below `a` too.
pub proof fn lemma_reach_parent(pool: Seq<QuadTreeNode>, a: int, x: int) -> (y: int)
    requires
        reach(pool, a, x),
        x != a,
    ensures
        reach(pool, a, y),
        child_of(pool, y, x),
    decreases pool.len() - a,
{
    let first = pool[a].children_idx as int;
    let kid = if reach(pool, first, x) {
        first
    } else if reach(pool, first + 1, x) {
        first + 1
    } else if reach(pool, first + 2, x) {
        first + 2
    } else {
        first + 3
    };
    if x == kid {
        a
    } else {
        lemma_reach_parent(pool, kid, x)
    }
}

/// In a well-formed pool a node has at most one parent.
pub proof fn lemma_one_parent(pool: Seq<QuadTreeNode>, y1: int, y2: int, x: int)
    requires
        pool_wf(pool),
        child_of(pool, y1, x),
        child_of(pool, y2, x),
    ensures
        y1 == y2,
{
    assert(node_wf(pool, y1));
    assert(node_wf(pool, y2));
    assert(children_apart(pool, y1, y2));
}

/// Two nodes that both lie above a third lie one above the other.
pub proof fn lemma_common_descendant(pool: Seq<QuadTreeNode>, a: int, b: int, x: int)
    requires
        pool_wf(pool),
        reach(pool, a, x),
        reach(pool, b, x),
    ensures
        reach(pool, a, b) || reach(pool, b, a),
    decreases x,
{
    lemma_reach_behind(pool, a, x);
    lemma_reach_behind(pool, b, x);
    if x != a && x != b {
        let ya = lemma_reach_parent(pool, a, x);
        let yb = lemma_reach_parent(pool, b, x);
        lemma_one_parent(pool, ya, yb, x);
        lemma_reach_behind(pool, a, ya);
        lemma_common_descendant(pool, a, b, ya);
    }
}

/// The subtrees of two different children of a node have no node in common.
pub proof fn lemma_siblings_apart(pool: Seq<QuadTreeNode>, p: int, j: int, k: int, x: int)
    requires
        pool_wf(pool),
        has_children(pool, p),
        0 <= j < 4,
        0 <= k < 4,
        j != k,
        reach(pool, pool[p].children_idx + j, x),
    ensures
        !reach(pool, pool[p].children_idx + k, x),
{
    let first = pool[p].children_idx as int;
    if reach(pool, first + k, x) {
        lemma_common_descendant(pool, first + j, first + k, x);
        let (upper, lower) = if reach(pool, first + j, first + k) {
            (first + j, first + k)
        } else {
            (first + k, first + j)
        };
        let y = lemma_reach_parent(pool, upper, lower);
        lemma_one_parent(pool, y, p, lower);
        lemma_reach_behind(pool, upper, p);
    }
}

/// A pool that grows, and keeps every node at or below `a` as it is, keeps
/// the tree below `a` and the set of nodes below `a`.
pub proof fn lemma_frame(old_pool: Seq<QuadTreeNode>, new_pool: Seq<QuadTreeNode>, a: int)
    requires
        pool_wf(old_pool),
        0 <= a < old_pool.len() <= new_pool.len(),
        forall|x: int| reach(old_pool, a, x) ==> new_pool[x] == old_pool[x],
    ensures
        tree_of(new_pool, a) == tree_of(old_pool, a),
        forall|x: int| reach(new_pool, a, x) == reach(old_pool, a, x),
    decreases old_pool.len() - a,
{
    assert(reach(old_pool, a, a));
    assert(node_wf(old_pool, a));
    if has_children(old_pool, a) {
        let first = old_pool[a].children_idx as int;
        assert(has_children(new_pool, a));
        assert forall|x: int| reach(old_pool, first, x) implies new_pool[x] == old_pool[x] by {
            assert(reach(old_pool, a, x));
        }
        lemma_frame(old_pool, new_pool, first);
        assert forall|x: int| reach(old_pool, first + 1, x) implies new_pool[x]
            == old_pool[x] by {
            assert(reach(old_pool, a, x));
        }
        lemma_frame(old_pool, new_pool, first + 1);
        assert forall|x: int| reach(old_pool, first + 2, x) implies new_pool[x]
            == old_pool[x] by {
            assert(reach(old_pool, a, x));
        }
        lemma_frame(old_pool, new_pool, first + 2);
        assert forall|x: int| reach(old_pool, first + 3, x) implies new_pool[x]
            == old_pool[x] by {
            assert(reach(old_pool, a, x));
        }
        lemma_frame(old_pool, new_pool, first + 3);
        assert forall|x: int| reach(new_pool, a, x) == reach(old_pool, a, x) by {
            assert(reach(new_pool, first, x) == reach(old_pool, first, x));
            assert(reach(new_pool, first + 1, x) == reach(old_pool, first + 1, x));
            assert(reach(new_pool, first + 2, x) == reach(old_pool, first + 2, x));
            assert(reach(new_pool, first + 3, x) == reach(old_pool, first + 3, x));
        }
    } else {
        assert(!has_children(new_pool, a));
    }
}

/// Well-formedness does not depend on the masses, nor on which indices the
/// leaves hold.
pub proof fn lemma_same_links(old_pool: Seq<QuadTreeNode>, new_pool: Seq<QuadTreeNode>)
    requires
        pool_wf(old_pool),
        new_pool.len() == old_pool.len(),
        forall|m: int|
            0 <= m < old_pool.len() ==> {
                &&& (#[trigger] new_pool[m]).boundary == old_pool[m].boundary
                &&& new_pool[m].children_idx == old_pool[m].children_idx
                &&& old_pool[m].children_idx != 0 ==> new_pool[m].referenced_indices@
                    == old_pool[m].referenced_indices@
            },
    ensures
        pool_wf(new_pool),
{
    assert forall|n: int| 0 <= n < new_pool.len() implies #[trigger] node_wf(new_pool, n) by {
        assert(node_wf(old_pool, n));
    }
    assert forall|a: int, b: int|
        0 <= a < new_pool.len() && 0 <= b < new_pool.len() implies #[trigger] children_apart(
        new_pool,
        a,
        b,
    ) by {
        assert(children_apart(old_pool, a, b));
    }
    assert forall|n: int| 1 <= n < new_pool.len() implies #[trigger] has_parent(new_pool, n) by {
        assert(has_parent(old_pool, n));
        let p = choose|p: int| child_of(old_pool, p, n);
        assert(child_of(new_pool, p, n));
    }
}

/// Changing only the mass recorded at node `n` changes only the mass at the
/// root of the tree below `n`.
pub proof fn lemma_mass_changed(old_pool: Seq<QuadTreeNode>, new_pool: Seq<QuadTreeNode>, n: int)
    requires
        pool_wf(old_pool),
        0 <= n < old_pool.len(),
        new_pool.len() == old_pool.len(),
        forall|m: int| 0 <= m < old_pool.len() && m != n ==> new_pool[m] == old_pool[m],
        new_pool[n].boundary == old_pool[n].boundary,
        new_pool[n].children_idx == old_pool[n].children_idx,
        new_pool[n].referenced_indices@ == old_pool[n].referenced_indices@,
    ensures
        tree_of(new_pool, n) == tree_of(old_pool, n).with_mass(new_pool[n].mass@),
{
    if has_children(old_pool, n) {
        let first = old_pool[n].children_idx as int;
        assert(has_children(new_pool, n));
        assert forall|x: int| reach(old_pool, first, x) implies new_pool[x] == old_pool[x] by {
            lemma_reach_behind(old_pool, first, x);
        }
        lemma_frame(old_pool, new_pool, first);
        assert forall|x: int| reach(old_pool, first + 1, x) implies new_pool[x]
            == old_pool[x] by {
            lemma_reach_behind(old_pool, first + 1, x);
        }
        lemma_frame(old_pool, new_pool, first + 1);
        assert forall|x: int| reach(old_pool, first + 2, x) implies new_pool[x]
            == old_pool[x] by {
            lemma_reach_behind(old_pool, first + 2, x);
        }
        lemma_frame(old_pool, new_pool, first + 2);
        assert forall|x: int| reach(old_pool, first + 3, x) implies new_pool[x]
            == old_pool[x] by {
            lemma_reach_behind(old_pool, first + 3, x);
        }
        lemma_frame(old_pool, new_pool, first + 3);
    } else {
        assert(!has_children(new_pool, n));
    }
}

/// One step of an insertion. If the pool changes only below the child of
/// node `n` for quadrant `quadrant`, and the tree below that child becomes
/// what it was with the body inserted, then the tree below `n` becomes what it
/// was with the body inserted into that child.
pub proof fn lemma_descend(
    old_pool: Seq<QuadTreeNode>,
    new_pool: Seq<QuadTreeNode>,
    n: int,
    quadrant: int,
    index: usize,
    bodies: Seq<Body>,
    capacity: usize,
)
    requires
        pool_wf(old_pool),
        has_children(old_pool, n),
        old_pool.len() <= new_pool.len(),
        quadrant == old_pool[n].boundary.spec_quadrant(bodies[index as int].position),
        tree_of(new_pool, old_pool[n].children_idx + quadrant) == tree_of(
            old_pool,
            old_pool[n].children_idx + quadrant,
        ).insert(index, bodies, capacity),
        forall|m: int|
            0 <= m < old_pool.len() && !reach(old_pool, old_pool[n].children_idx + quadrant, m)
                ==> new_pool[m] == old_pool[m],
    ensures
        tree_of(new_pool, n) == tree_of(old_pool, n).descend(index, bodies, capacity),
{
    let first = old_pool[n].children_idx as int;
    assert(node_wf(old_pool, n));
    old_pool[n].boundary.lemma_child_smaller(quadrant);
    if reach(old_pool, first + quadrant, n) {
        lemma_reach_behind(old_pool, first + quadrant, n);
    }
    assert(new_pool[n] == old_pool[n]);
    assert(has_children(new_pool, n));
    assert forall|k: int| 0 <= k < 4 && k != quadrant implies #[trigger] tree_of(
        new_pool,
        first + k,
    ) == tree_of(old_pool, first + k) by {
        assert forall|x: int| reach(old_pool, first + k, x) implies new_pool[x]
            == old_pool[x] by {
            lemma_reach_behind(old_pool, first + k, x);
            lemma_siblings_apart(old_pool, n, k, quadrant, x);
        }
        lemma_frame(old_pool, new_pool, first + k);
    }
    assert(0 <= quadrant < 4);
    assert(quadrant != 0 ==> tree_of(new_pool, first + 0) == tree_of(old_pool, first + 0));
    assert(quadrant != 1 ==> tree_of(new_pool, first + 1) == tree_of(old_pool, first + 1));
    assert(quadrant != 2 ==> tree_of(new_pool, first + 2) == tree_of(old_pool, first + 2));
    assert(quadrant != 3 ==> tree_of(new_pool, first + 3) == tree_of(old_pool, first + 3));
}

/// A child of a node below `a` lies below `a`.
pub proof fn lemma_reach_child(pool: Seq<QuadTreeNode>, a: int, p: int, x: int)
    requires
        reach(pool, a, p),
        child_of(pool, p, x),
    ensures
        reach(pool, a, x),
    decreases pool.len() - a,
{
    let first = pool[a].children_idx as int;
    if a == p {
        assert(reach(pool, x, x));
    } else if reach(pool, first, p) {
        lemma_reach_child(pool, first, p, x);
    } else if reach(pool, first + 1, p) {
        lemma_reach_child(pool, first + 1, p, x);
    } else if reach(pool, first + 2, p) {
        lemma_reach_child(pool, first + 2, p, x);
    } else {
        lemma_reach_child(pool, first + 3, p, x);
    }
}

/// Every node of a well-formed pool lies below the root.
pub proof fn lemma_all_below_root(pool: Seq<QuadTreeNode>, x: int)
    requires
        pool_wf(pool),
        0 <= x < pool.len(),
    ensures
        reach(pool, 0, x),
    decreases x,
{
    if x > 0 {
        assert(has_parent(pool, x));
        let p = choose|p: int| child_of(pool, p, x);
        lemma_all_below_root(pool, p);
        lemma_reach_child(pool, 0, p, x);
    }
}

/// Where the tree below `a` conserves mass, so does the tree below every
/// node below `a`.
pub proof fn lemma_mass_kept_below(pool: Seq<QuadTreeNode>, a: int, x: int, bodies: Seq<Body>)
    requires
        reach(pool, a, x),
        tree_of(pool, a).mass_kept(bodies),
    ensures
        tree_of(pool, x).mass_kept(bodies),
    decreases pool.len() - a,
{
    if a != x {
        let first = pool[a].children_idx as int;
        if reach(pool, first, x) {
            lemma_mass_kept_below(pool, first, x, bodies);
        } else if reach(pool, first + 1, x) {
            lemma_mass_kept_below(pool, first + 1, x, bodies);
        } else if reach(pool, first + 2, x) {
            lemma_mass_kept_below(pool, first + 2, x, bodies);
        } else {
            lemma_mass_kept_below(pool, first + 3, x, bodies);
        }
    }
}

} // verus!
