//! What holds of gravity and of collisions whatever the bodies are.
use vstd::prelude::*;
use crate::fixed::{Fixed, SCALE};
use crate::physics::{
    bounce, collide_upto, gravity_of_list, gravity_of_tree, norm_sqr, reach_of, Body, Contacts,
    SMALL_RAW,
};
use crate::quadtree::laws::{lemma_kids_in_bounds, lemma_row_members};
use crate::quadtree::model::{all_below, within, Tree};
use crate::quadtree::SquareBox;

verus! {

/// No cell of the tree has its center closer than `1e-5` (squared) to the
/// point `(x, y)`, so that the point is passed over by none.
pub open spec fn clear_of_centers(tree: Tree, x: Fixed, y: Fixed) -> bool
    decreases tree,
{
    match tree {
        Tree::Leaf { .. } => true,
        Tree::Cell { boundary, ne, nw, sw, se, .. } => {
            &&& norm_sqr(boundary.center_x.sub(x), boundary.center_y.sub(y))@ >= SMALL_RAW
            &&& clear_of_centers(*ne, x, y)
            &&& clear_of_centers(*nw, x, y)
            &&& clear_of_centers(*sw, x, y)
            &&& clear_of_centers(*se, x, y)
        },
    }
}

/// The force of two lists in a row is the force of the second on top of the
/// force of the first.
pub proof fn lemma_gravity_concat(
    a: Seq<usize>,
    b: Seq<usize>,
    i: int,
    bodies: Seq<Body>,
    g: Fixed,
    acc: [Fixed; 2],
)
    ensures
        gravity_of_list(a + b, i, bodies, g, acc) == gravity_of_list(
            b,
            i,
            bodies,
            g,
            gravity_of_list(a, i, bodies, g, acc),
        ),
    decreases b.len(),
{
    if b.len() == 0 {
        assert(a + b == a);
    } else {
        assert((a + b).drop_last() == a + b.drop_last());
        assert((a + b).last() == b.last());
        lemma_gravity_concat(a, b.drop_last(), i, bodies, g, acc);
    }
}

/// The square of a side over a squared distance of at least `1e-5` is not
/// negative.
pub proof fn lemma_opening_not_negative(size: Fixed, distance_sqr: Fixed)
    requires
        distance_sqr@ >= SMALL_RAW,
    ensures
        size.mul(size).div(distance_sqr)@ >= 0,
{
    let s = size@;
    let d = distance_sqr@;
    assert(s * s >= 0) by (nonlinear_arith);
    assert((s * s) / (SCALE as int) >= 0) by (nonlinear_arith)
        requires
            s * s >= 0,
            SCALE == 1_000_000_000,
    ;
    let p = size.mul(size)@;
    assert(p >= 0);
    assert(p * SCALE >= 0) by (nonlinear_arith)
        requires
            p >= 0,
            SCALE == 1_000_000_000,
    ;
    assert((p * SCALE) / d >= 0) by (nonlinear_arith)
        requires
            p * SCALE >= 0,
            d > 0,
    ;
}

/// Barnes–Hut with opening angle zero is direct summation. With a threshold
/// of zero the tree attracts a body with each of its bodies in turn, in the
/// order in which the tree holds them, provided that no cell has its center
/// closer to the body than `1e-5` (squared); such a cell is passed over with
/// all bodies below it.
pub proof fn lemma_gravity_exact(
    tree: Tree,
    i: int,
    bodies: Seq<Body>,
    theta_sqr: Fixed,
    g: Fixed,
    acc: [Fixed; 2],
)
    requires
        theta_sqr@ <= 0,
        clear_of_centers(tree, bodies[i].position[0], bodies[i].position[1]),
    ensures
        gravity_of_tree(tree, i, bodies, theta_sqr, g, acc) == gravity_of_list(
            tree.indices(),
            i,
            bodies,
            g,
            acc,
        ),
    decreases tree,
{
    match tree {
        Tree::Leaf { .. } => {},
        Tree::Cell { boundary, ne, nw, sw, se, .. } => {
            let dx = boundary.center_x.sub(bodies[i].position[0]);
            let dy = boundary.center_y.sub(bodies[i].position[1]);
            let size = boundary.half_size.add(boundary.half_size);
            lemma_opening_not_negative(size, norm_sqr(dx, dy));
            let a = gravity_of_tree(*ne, i, bodies, theta_sqr, g, acc);
            let b = gravity_of_tree(*nw, i, bodies, theta_sqr, g, a);
            let c = gravity_of_tree(*sw, i, bodies, theta_sqr, g, b);
            lemma_gravity_exact(*ne, i, bodies, theta_sqr, g, acc);
            lemma_gravity_exact(*nw, i, bodies, theta_sqr, g, a);
            lemma_gravity_exact(*sw, i, bodies, theta_sqr, g, b);
            lemma_gravity_exact(*se, i, bodies, theta_sqr, g, c);
            lemma_gravity_concat(ne.indices(), nw.indices(), i, bodies, g, acc);
            lemma_gravity_concat(ne.indices() + nw.indices(), sw.indices(), i, bodies, g, acc);
            lemma_gravity_concat(
                ne.indices() + nw.indices() + sw.indices(),
                se.indices(),
                i,
                bodies,
                g,
                acc,
            );
        },
    }
}

/// What holds of every member of a sequence holds of every member that lies
/// in a region.
pub proof fn lemma_within_keeps(
    s: Seq<usize>,
    bodies: Seq<Body>,
    region: SquareBox,
    property: spec_fn(usize) -> bool,
)
    requires
        forall|k: int| 0 <= k < s.len() ==> property(#[trigger] s[k]),
    ensures
        forall|k: int|
            0 <= k < within(s, bodies, region).len() ==> property(
                #[trigger] within(s, bodies, region)[k],
            ),
    decreases s.len(),
{
    if s.len() > 0 {
        let rest = s.drop_last();
        assert forall|k: int| 0 <= k < rest.len() implies property(#[trigger] rest[k]) by {
            assert(rest[k] == s[k]);
        }
        lemma_within_keeps(rest, bodies, region, property);
        assert(s.last() == s[s.len() - 1]);
        let kept = within(s, bodies, region);
        let before = within(rest, bodies, region);
        assert forall|k: int| 0 <= k < kept.len() implies property(#[trigger] kept[k]) by {
            if k < before.len() {
                assert(kept[k] == before[k]);
            }
        }
    }
}

/// A range query over a tree that holds indices of bodies only answers with
/// indices of bodies only.
pub proof fn lemma_query_below(tree: Tree, region: SquareBox, bodies: Seq<Body>, n: int)
    requires
        tree.in_bounds(n),
    ensures
        all_below(tree.query(region, bodies), n),
    decreases tree,
{
    if !region.spec_contains_box(tree.boundary()) {
        match tree {
            Tree::Leaf { indices, .. } => {
                lemma_within_keeps(indices, bodies, region, |i: usize| i < n);
            },
            Tree::Cell { ne, nw, sw, se, .. } => {
                lemma_kids_in_bounds(tree, n);
                lemma_query_below(*ne, region, bodies, n);
                lemma_query_below(*nw, region, bodies, n);
                lemma_query_below(*sw, region, bodies, n);
                lemma_query_below(*se, region, bodies, n);
                lemma_row_members(
                    ne.query(region, bodies),
                    nw.query(region, bodies),
                    sw.query(region, bodies),
                    se.query(region, bodies),
                    |i: usize| i < n,
                );
            },
        }
    }
}

/// A bounce changes neither the mass, the radius nor the color of a body,
/// and leaves the first body where it is.
pub proof fn lemma_bounce_keeps(a: Body, b: Body)
    ensures
        bounce(a, b).0.position == a.position,
        bounce(a, b).0.mass == a.mass,
        bounce(a, b).0.radius == a.radius,
        bounce(a, b).0.color == a.color,
        bounce(a, b).1.mass == b.mass,
        bounce(a, b).1.radius == b.radius,
        bounce(a, b).1.color == b.color,
{
}

/// What a later state of the collision handling keeps of an earlier one: the
/// number of bodies; the mass, the radius and the color of every body; every
/// body that had collided already; and every body that has not collided yet.
pub open spec fn settled(before: Contacts, after: Contacts) -> bool {
    &&& after.bodies.len() == before.bodies.len()
    &&& forall|k: usize| before.collided.contains(k) ==> after.collided.contains(k)
    &&& forall|k: int|
        0 <= k < before.bodies.len() ==> {
            &&& (#[trigger] after.bodies[k]).mass == before.bodies[k].mass
            &&& after.bodies[k].radius == before.bodies[k].radius
            &&& after.bodies[k].color == before.bodies[k].color
            &&& before.collided.contains(k as usize) ==> after.bodies[k] == before.bodies[k]
            &&& !after.collided.contains(k as usize) ==> after.bodies[k] == before.bodies[k]
        }
}

/// Keeping is transitive.
pub proof fn lemma_settled_chain(a: Contacts, b: Contacts, c: Contacts)
    requires
        settled(a, b),
        settled(b, c),
        a.bodies.len() <= usize::MAX,
    ensures
        settled(a, c),
{
    assert forall|k: int| 0 <= k < a.bodies.len() implies {
        &&& (#[trigger] c.bodies[k]).mass == a.bodies[k].mass
        &&& c.bodies[k].radius == a.bodies[k].radius
        &&& c.bodies[k].color == a.bodies[k].color
        &&& a.collided.contains(k as usize) ==> c.bodies[k] == a.bodies[k]
        &&& !c.collided.contains(k as usize) ==> c.bodies[k] == a.bodies[k]
    } by {
        let through = b.bodies[k];
    }
}

/// One meeting keeps what [`settled`] says.
pub proof fn lemma_meet_settled(state: Contacts, i: usize, j: usize)
    requires
        i < state.bodies.len(),
        j < state.bodies.len(),
    ensures
        settled(state, state.meet(i, j)),
{
    lemma_bounce_keeps(state.bodies[i as int], state.bodies[j as int]);
}

/// The meetings of one body keep what [`settled`] says.
pub proof fn lemma_meet_all_settled(state: Contacts, i: usize, candidates: Seq<usize>)
    requires
        i < state.bodies.len() <= usize::MAX,
        all_below(candidates, state.bodies.len() as int),
    ensures
        settled(state, state.meet_all(i, candidates)),
    decreases candidates.len(),
{
    if candidates.len() > 0 {
        let rest = candidates.drop_last();
        assert(all_below(rest, state.bodies.len() as int)) by {
            assert forall|k: int| 0 <= k < rest.len() implies rest[k] < state.bodies.len() by {
                assert(rest[k] == candidates[k]);
            }
        }
        lemma_meet_all_settled(state, i, rest);
        let middle = state.meet_all(i, rest);
        assert(candidates.last() == candidates[candidates.len() - 1]);
        lemma_meet_settled(middle, i, candidates.last());
        lemma_settled_chain(state, middle, middle.meet(i, candidates.last()));
    }
}

/// Every body collides at most once in a step. Between any two moments of
/// the collision handling, a body that had collided already stays as it is,
/// and so does a body that has not collided yet; no body ever changes its
/// mass, its radius or its color.
pub proof fn lemma_collides_once(tree: Tree, bodies: Seq<Body>, earlier: nat, later: nat)
    requires
        earlier <= later <= bodies.len() <= usize::MAX,
        tree.in_bounds(bodies.len() as int),
    ensures
        settled(collide_upto(tree, bodies, earlier), collide_upto(tree, bodies, later)),
    decreases later,
{
    if earlier < later {
        lemma_collides_once(tree, bodies, earlier, (later - 1) as nat);
        lemma_collides_once(tree, bodies, 0, (later - 1) as nat);
        let start = collide_upto(tree, bodies, 0);
        let first = collide_upto(tree, bodies, earlier);
        let middle = collide_upto(tree, bodies, (later - 1) as nat);
        let i = (later - 1) as usize;
        assert(start.bodies.len() == bodies.len());
        if !middle.collided.contains(i) {
            let region = reach_of(middle.bodies[i as int]);
            lemma_query_below(tree, region, middle.bodies, bodies.len() as int);
            lemma_meet_all_settled(middle, i, tree.query(region, middle.bodies));
        }
        lemma_settled_chain(first, middle, middle.visit(tree, i));
    } else {
        let same = collide_upto(tree, bodies, earlier);
        assert(settled(same, same));
    }
}

} // verus!
