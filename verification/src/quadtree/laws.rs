//! What holds of every quadtree that insertion builds: which indices it
//! holds, the masses it records, and where its bodies lie.
use vstd::prelude::*;
use vstd::seq_lib::{lemma_multiset_commutative, to_multiset_build};
use crate::fixed::{clamp, fx_add};
use crate::physics::Body;
use crate::quadtree::model::{
    all_below, all_in_quadrant, all_inside, first_indices, grown, mass_upto, routed_to,
    sat_mass, split, total_mass, within, Tree,
};
use crate::quadtree::SquareBox;

verus! {

/// What holds of every member of a sequence holds of every member that is
/// routed to a quadrant.
pub proof fn lemma_routed_keeps(
    s: Seq<usize>,
    bodies: Seq<Body>,
    boundary: SquareBox,
    quadrant: int,
    property: spec_fn(usize) -> bool,
)
    requires
        forall|k: int| 0 <= k < s.len() ==> property(#[trigger] s[k]),
    ensures
        forall|k: int|
            0 <= k < routed_to(s, bodies, boundary, quadrant).len() ==> property(
                #[trigger] routed_to(s, bodies, boundary, quadrant)[k],
            ),
        forall|k: int|
            0 <= k < routed_to(s, bodies, boundary, quadrant).len() ==> boundary.spec_quadrant(
                bodies[(#[trigger] routed_to(s, bodies, boundary, quadrant)[k]) as int].position,
            ) == quadrant,
        routed_to(s, bodies, boundary, quadrant).len() <= s.len(),
    decreases s.len(),
{
    if s.len() > 0 {
        lemma_routed_keeps(s.drop_last(), bodies, boundary, quadrant, property);
    }
}

/// The four quadrants share out a sequence: every member goes to exactly
/// one of them.
pub proof fn lemma_routed_shares(s: Seq<usize>, bodies: Seq<Body>, boundary: SquareBox)
    ensures
        routed_to(s, bodies, boundary, 0).to_multiset().add(
            routed_to(s, bodies, boundary, 1).to_multiset(),
        ).add(routed_to(s, bodies, boundary, 2).to_multiset()).add(
            routed_to(s, bodies, boundary, 3).to_multiset(),
        ) == s.to_multiset(),
        total_mass(routed_to(s, bodies, boundary, 0), bodies) + total_mass(
            routed_to(s, bodies, boundary, 1),
            bodies,
        ) + total_mass(routed_to(s, bodies, boundary, 2), bodies) + total_mass(
            routed_to(s, bodies, boundary, 3),
            bodies,
        ) == total_mass(s, bodies),
        routed_to(s, bodies, boundary, 0).len() + routed_to(s, bodies, boundary, 1).len()
            + routed_to(s, bodies, boundary, 2).len() + routed_to(s, bodies, boundary, 3).len()
            == s.len(),
    decreases s.len(),
{
    let r0 = routed_to(s, bodies, boundary, 0);
    let r1 = routed_to(s, bodies, boundary, 1);
    let r2 = routed_to(s, bodies, boundary, 2);
    let r3 = routed_to(s, bodies, boundary, 3);
    if s.len() == 0 {
        s.to_multiset_ensures();
        assert(s =~= r0 && s =~= r1 && s =~= r2 && s =~= r3);
        assert forall|x: usize| s.to_multiset().count(x) == 0 by {
            assert(!s.contains(x));
        }
        assert(s.to_multiset() =~= r0.to_multiset().add(r1.to_multiset()).add(
            r2.to_multiset(),
        ).add(r3.to_multiset()));
    } else {
        let rest = s.drop_last();
        let last = s.last();
        lemma_routed_shares(rest, bodies, boundary);
        let part0 = routed_to(rest, bodies, boundary, 0);
        let part1 = routed_to(rest, bodies, boundary, 1);
        let part2 = routed_to(rest, bodies, boundary, 2);
        let part3 = routed_to(rest, bodies, boundary, 3);
        assert(s == rest.push(last));
        to_multiset_build(rest, last);
        to_multiset_build(part0, last);
        to_multiset_build(part1, last);
        to_multiset_build(part2, last);
        to_multiset_build(part3, last);
        let quadrant = boundary.spec_quadrant(bodies[last as int].position);
        assert(0 <= quadrant < 4);
        assert(part0.push(last).drop_last() == part0);
        assert(part1.push(last).drop_last() == part1);
        assert(part2.push(last).drop_last() == part2);
        assert(part3.push(last).drop_last() == part3);
        assert(s.to_multiset() =~= r0.to_multiset().add(r1.to_multiset()).add(
            r2.to_multiset(),
        ).add(r3.to_multiset()));
    }
}

/// The total mass of a concatenation is the sum of the total masses.
pub proof fn lemma_total_concat(a: Seq<usize>, b: Seq<usize>, bodies: Seq<Body>)
    ensures
        total_mass(a + b, bodies) == total_mass(a, bodies) + total_mass(b, bodies),
    decreases b.len(),
{
    if b.len() == 0 {
        assert(a + b == a);
    } else {
        assert((a + b).drop_last() == a + b.drop_last());
        lemma_total_concat(a, b.drop_last(), bodies);
    }
}

/// The indices and the total mass of four sequences in a row.
pub proof fn lemma_four_in_a_row(
    a: Seq<usize>,
    b: Seq<usize>,
    c: Seq<usize>,
    d: Seq<usize>,
    bodies: Seq<Body>,
)
    ensures
        (a + b + c + d).to_multiset() == a.to_multiset().add(b.to_multiset()).add(
            c.to_multiset(),
        ).add(d.to_multiset()),
        total_mass(a + b + c + d, bodies) == total_mass(a, bodies) + total_mass(b, bodies)
            + total_mass(c, bodies) + total_mass(d, bodies),
        (a + b + c + d).len() == a.len() + b.len() + c.len() + d.len(),
{
    lemma_multiset_commutative(a, b);
    lemma_multiset_commutative(a + b, c);
    lemma_multiset_commutative(a + b + c, d);
    lemma_total_concat(a, b, bodies);
    lemma_total_concat(a + b, c, bodies);
    lemma_total_concat(a + b + c, d, bodies);
}

/// Where no mass is negative, adding up with saturation gives the exact sum,
/// clamped; and the exact sum is not negative.
pub proof fn lemma_sat_mass_clamps(s: Seq<usize>, bodies: Seq<Body>)
    requires
        masses_not_negative(bodies),
        all_below(s, bodies.len() as int),
    ensures
        sat_mass(s, bodies) == clamp(total_mass(s, bodies)),
        total_mass(s, bodies) >= 0,
    decreases s.len(),
{
    if s.len() > 0 {
        assert(all_below(s.drop_last(), bodies.len() as int)) by {
            assert forall|k: int| 0 <= k < s.drop_last().len() implies s.drop_last()[k]
                < bodies.len() by {
                assert(s.drop_last()[k] == s[k]);
            }
        }
        lemma_sat_mass_clamps(s.drop_last(), bodies);
        assert(s.last() == s[s.len() - 1]);
    }
}

/// No body has a negative mass.
pub open spec fn masses_not_negative(bodies: Seq<Body>) -> bool {
    forall|i: int| 0 <= i < bodies.len() ==> (#[trigger] bodies[i]).mass@ >= 0
}

/// The tree holds, besides what it held, the inserted index once; it keeps
/// its square and its shape.
pub proof fn lemma_insert_indices(tree: Tree, index: usize, bodies: Seq<Body>, capacity: usize)
    requires
        tree.well_shaped(),
    ensures
        tree.insert(index, bodies, capacity).well_shaped(),
        tree.insert(index, bodies, capacity).boundary() == tree.boundary(),
        tree.insert(index, bodies, capacity).indices().to_multiset()
            == tree.indices().to_multiset().insert(index),
        tree.insert(index, bodies, capacity).indices().len() == tree.indices().len() + 1,
        total_mass(tree.insert(index, bodies, capacity).indices(), bodies) == total_mass(
            tree.indices(),
            bodies,
        ) + bodies[index as int].mass@,
    decreases tree.boundary().half_size@, 1int,
{
    let mass = fx_add(tree.mass(), bodies[index as int].mass@);
    match tree {
        Tree::Leaf { boundary, indices, .. } => {
            if tree.accepts(capacity) {
                to_multiset_build(indices, index);
                assert(indices.push(index).drop_last() == indices);
            } else {
                let cell = split(boundary, mass, indices, bodies);
                lemma_split_indices(boundary, mass, indices, bodies);
                lemma_descend_indices(cell, index, bodies, capacity);
            }
        },
        Tree::Cell { .. } => {
            lemma_descend_indices(tree.with_mass(mass), index, bodies, capacity);
        },
    }
}

/// A subdivided leaf is a well-shaped cell over the same square that holds
/// the same indices.
pub proof fn lemma_split_indices(
    boundary: SquareBox,
    mass: int,
    indices: Seq<usize>,
    bodies: Seq<Body>,
)
    requires
        boundary.divisible(),
    ensures
        split(boundary, mass, indices, bodies) is Cell,
        split(boundary, mass, indices, bodies).well_shaped(),
        split(boundary, mass, indices, bodies).boundary() == boundary,
        split(boundary, mass, indices, bodies).mass() == mass,
        split(boundary, mass, indices, bodies).indices().to_multiset() == indices.to_multiset(),
        split(boundary, mass, indices, bodies).indices().len() == indices.len(),
        total_mass(split(boundary, mass, indices, bodies).indices(), bodies) == total_mass(
            indices,
            bodies,
        ),
{
    let r0 = routed_to(indices, bodies, boundary, 0);
    let r1 = routed_to(indices, bodies, boundary, 1);
    let r2 = routed_to(indices, bodies, boundary, 2);
    let r3 = routed_to(indices, bodies, boundary, 3);
    lemma_routed_shares(indices, bodies, boundary);
    lemma_four_in_a_row(r0, r1, r2, r3, bodies);
    let cell = split(boundary, mass, indices, bodies);
    assert(cell.child(0).indices() == r0);
    assert(cell.child(1).indices() == r1);
    assert(cell.child(2).indices() == r2);
    assert(cell.child(3).indices() == r3);
    assert(cell.indices() == r0 + r1 + r2 + r3);
    assert(cell.child(0).well_shaped());
    assert(cell.child(1).well_shaped());
    assert(cell.child(2).well_shaped());
    assert(cell.child(3).well_shaped());
}

/// The step of [`lemma_insert_indices`] at a cell.
pub proof fn lemma_descend_indices(cell: Tree, index: usize, bodies: Seq<Body>, capacity: usize)
    requires
        cell is Cell,
        cell.well_shaped(),
    ensures
        cell.descend(index, bodies, capacity) is Cell,
        cell.descend(index, bodies, capacity).well_shaped(),
        cell.descend(index, bodies, capacity).boundary() == cell.boundary(),
        cell.descend(index, bodies, capacity).mass() == cell.mass(),
        cell.descend(index, bodies, capacity).indices().to_multiset()
            == cell.indices().to_multiset().insert(index),
        cell.descend(index, bodies, capacity).indices().len() == cell.indices().len() + 1,
        total_mass(cell.descend(index, bodies, capacity).indices(), bodies) == total_mass(
            cell.indices(),
            bodies,
        ) + bodies[index as int].mass@,
    decreases cell.boundary().half_size@, 0int,
{
    let quadrant = cell.boundary().spec_quadrant(bodies[index as int].position) as int;
    let kid = cell.child(quadrant);
    cell.boundary().lemma_child_smaller(quadrant);
    lemma_insert_indices(kid, index, bodies, capacity);
    let grown = kid.insert(index, bodies, capacity);
    let after = cell.descend(index, bodies, capacity);
    assert(after == cell.with_child(quadrant, grown));
    lemma_four_in_a_row(
        cell.child(0).indices(),
        cell.child(1).indices(),
        cell.child(2).indices(),
        cell.child(3).indices(),
        bodies,
    );
    lemma_four_in_a_row(
        after.child(0).indices(),
        after.child(1).indices(),
        after.child(2).indices(),
        after.child(3).indices(),
        bodies,
    );
    assert(cell.indices() == cell.child(0).indices() + cell.child(1).indices() + cell.child(
        2,
    ).indices() + cell.child(3).indices());
    assert(after.indices() == after.child(0).indices() + after.child(1).indices()
        + after.child(2).indices() + after.child(3).indices());
    assert(after.indices().to_multiset() =~= cell.indices().to_multiset().insert(index));
}

/// What holds of every member of four sequences in a row holds of every
/// member of each, and the other way round.
pub proof fn lemma_row_members(
    a: Seq<usize>,
    b: Seq<usize>,
    c: Seq<usize>,
    d: Seq<usize>,
    property: spec_fn(usize) -> bool,
)
    ensures
        (forall|k: int| 0 <= k < (a + b + c + d).len() ==> property(#[trigger] (a + b + c + d)[k]))
            <==> {
            &&& forall|k: int| 0 <= k < a.len() ==> property(#[trigger] a[k])
            &&& forall|k: int| 0 <= k < b.len() ==> property(#[trigger] b[k])
            &&& forall|k: int| 0 <= k < c.len() ==> property(#[trigger] c[k])
            &&& forall|k: int| 0 <= k < d.len() ==> property(#[trigger] d[k])
        },
{
    let row = a + b + c + d;
    if forall|k: int| 0 <= k < row.len() ==> property(#[trigger] row[k]) {
        assert forall|k: int| 0 <= k < a.len() implies property(#[trigger] a[k]) by {
            assert(row[k] == a[k]);
        }
        assert forall|k: int| 0 <= k < b.len() implies property(#[trigger] b[k]) by {
            assert(row[a.len() + k] == b[k]);
        }
        assert forall|k: int| 0 <= k < c.len() implies property(#[trigger] c[k]) by {
            assert(row[a.len() + b.len() + k] == c[k]);
        }
        assert forall|k: int| 0 <= k < d.len() implies property(#[trigger] d[k]) by {
            assert(row[a.len() + b.len() + c.len() + k] == d[k]);
        }
    }
}

/// The indices of a cell are those of its four subtrees in a row.
pub proof fn lemma_cell_indices(cell: Tree)
    requires
        cell is Cell,
    ensures
        cell.indices() == cell.child(0).indices() + cell.child(1).indices() + cell.child(
            2,
        ).indices() + cell.child(3).indices(),
{
}

/// A cell that holds indices of bodies only has subtrees that do.
pub proof fn lemma_kids_in_bounds(cell: Tree, n: int)
    requires
        cell is Cell,
    ensures
        cell.in_bounds(n) <==> cell.child(0).in_bounds(n) && cell.child(1).in_bounds(n)
            && cell.child(2).in_bounds(n) && cell.child(3).in_bounds(n),
{
    lemma_cell_indices(cell);
    lemma_row_members(
        cell.child(0).indices(),
        cell.child(1).indices(),
        cell.child(2).indices(),
        cell.child(3).indices(),
        |i: usize| i < n,
    );
}

/// Insertion of the index of a body keeps the indices within bounds.
pub proof fn lemma_insert_in_bounds(
    tree: Tree,
    index: usize,
    bodies: Seq<Body>,
    capacity: usize,
)
    requires
        tree.well_shaped(),
        tree.in_bounds(bodies.len() as int),
        index < bodies.len(),
    ensures
        tree.insert(index, bodies, capacity).in_bounds(bodies.len() as int),
    decreases tree.boundary().half_size@, 1int,
{
    let n = bodies.len() as int;
    let mass = fx_add(tree.mass(), bodies[index as int].mass@);
    match tree {
        Tree::Leaf { boundary, indices, .. } => {
            if !tree.accepts(capacity) {
                let cell = split(boundary, mass, indices, bodies);
                lemma_split_indices(boundary, mass, indices, bodies);
                lemma_split_in_bounds(boundary, mass, indices, bodies);
                lemma_descend_in_bounds(cell, index, bodies, capacity);
            }
        },
        Tree::Cell { .. } => {
            let cell = tree.with_mass(mass);
            assert(cell.indices() == tree.indices());
            lemma_descend_in_bounds(cell, index, bodies, capacity);
        },
    }
}

/// A subdivided leaf holds indices of bodies only if the leaf did.
pub proof fn lemma_split_in_bounds(
    boundary: SquareBox,
    mass: int,
    indices: Seq<usize>,
    bodies: Seq<Body>,
)
    requires
        all_below(indices, bodies.len() as int),
    ensures
        split(boundary, mass, indices, bodies).in_bounds(bodies.len() as int),
        split(boundary, mass, indices, bodies).child(0).in_bounds(bodies.len() as int),
        split(boundary, mass, indices, bodies).child(1).in_bounds(bodies.len() as int),
        split(boundary, mass, indices, bodies).child(2).in_bounds(bodies.len() as int),
        split(boundary, mass, indices, bodies).child(3).in_bounds(bodies.len() as int),
{
    let n = bodies.len() as int;
    let below = |i: usize| i < n;
    lemma_routed_keeps(indices, bodies, boundary, 0, below);
    lemma_routed_keeps(indices, bodies, boundary, 1, below);
    lemma_routed_keeps(indices, bodies, boundary, 2, below);
    lemma_routed_keeps(indices, bodies, boundary, 3, below);
    let cell = split(boundary, mass, indices, bodies);
    assert(cell.child(0).indices() == routed_to(indices, bodies, boundary, 0));
    assert(cell.child(1).indices() == routed_to(indices, bodies, boundary, 1));
    assert(cell.child(2).indices() == routed_to(indices, bodies, boundary, 2));
    assert(cell.child(3).indices() == routed_to(indices, bodies, boundary, 3));
    lemma_kids_in_bounds(cell, n);
}

/// The step of [`lemma_insert_in_bounds`] at a cell.
pub proof fn lemma_descend_in_bounds(
    cell: Tree,
    index: usize,
    bodies: Seq<Body>,
    capacity: usize,
)
    requires
        cell is Cell,
        cell.well_shaped(),
        cell.in_bounds(bodies.len() as int),
        index < bodies.len(),
    ensures
        cell.descend(index, bodies, capacity).in_bounds(bodies.len() as int),
    decreases cell.boundary().half_size@, 0int,
{
    let n = bodies.len() as int;
    let quadrant = cell.boundary().spec_quadrant(bodies[index as int].position) as int;
    let kid = cell.child(quadrant);
    cell.boundary().lemma_child_smaller(quadrant);
    lemma_kids_in_bounds(cell, n);
    lemma_insert_in_bounds(kid, index, bodies, capacity);
    let after = cell.descend(index, bodies, capacity);
    assert(after == cell.with_child(quadrant, kid.insert(index, bodies, capacity)));
    lemma_kids_in_bounds(after, n);
}

/// Mass conservation is kept by insertion, where no mass is negative.
pub proof fn lemma_insert_mass(tree: Tree, index: usize, bodies: Seq<Body>, capacity: usize)
    requires
        tree.well_shaped(),
        tree.mass_kept(bodies),
        tree.in_bounds(bodies.len() as int),
        masses_not_negative(bodies),
        index < bodies.len(),
    ensures
        tree.insert(index, bodies, capacity).mass_kept(bodies),
    decreases tree.boundary().half_size@, 1int,
{
    let added = bodies[index as int].mass@;
    let mass = fx_add(tree.mass(), added);
    lemma_sat_mass_clamps(tree.indices(), bodies);
    match tree {
        Tree::Leaf { boundary, indices, .. } => {
            if tree.accepts(capacity) {
                assert(indices.push(index).drop_last() == indices);
            } else {
                let cell = split(boundary, mass, indices, bodies);
                lemma_split_indices(boundary, mass, indices, bodies);
                lemma_split_in_bounds(boundary, mass, indices, bodies);
                lemma_sat_mass_clamps(cell.child(0).indices(), bodies);
                lemma_sat_mass_clamps(cell.child(1).indices(), bodies);
                lemma_sat_mass_clamps(cell.child(2).indices(), bodies);
                lemma_sat_mass_clamps(cell.child(3).indices(), bodies);
                assert(cell.child(0).mass_kept(bodies));
                assert(cell.child(1).mass_kept(bodies));
                assert(cell.child(2).mass_kept(bodies));
                assert(cell.child(3).mass_kept(bodies));
                lemma_descend_mass(cell, index, bodies, capacity);
            }
        },
        Tree::Cell { .. } => {
            let cell = tree.with_mass(mass);
            assert(cell.indices() == tree.indices());
            lemma_descend_mass(cell, index, bodies, capacity);
        },
    }
}

/// The step of [`lemma_insert_mass`] at a cell whose own mass has grown
/// already.
pub proof fn lemma_descend_mass(cell: Tree, index: usize, bodies: Seq<Body>, capacity: usize)
    requires
        cell is Cell,
        cell.well_shaped(),
        cell.child(0).mass_kept(bodies),
        cell.child(1).mass_kept(bodies),
        cell.child(2).mass_kept(bodies),
        cell.child(3).mass_kept(bodies),
        cell.mass() == clamp(total_mass(cell.indices(), bodies) + bodies[index as int].mass@),
        cell.in_bounds(bodies.len() as int),
        masses_not_negative(bodies),
        index < bodies.len(),
    ensures
        cell.descend(index, bodies, capacity).mass_kept(bodies),
    decreases cell.boundary().half_size@, 0int,
{
    let n = bodies.len() as int;
    let quadrant = cell.boundary().spec_quadrant(bodies[index as int].position) as int;
    let kid = cell.child(quadrant);
    cell.boundary().lemma_child_smaller(quadrant);
    lemma_kids_in_bounds(cell, n);
    lemma_insert_mass(kid, index, bodies, capacity);
    lemma_insert_indices(kid, index, bodies, capacity);
    lemma_descend_indices(cell, index, bodies, capacity);
    let after = cell.descend(index, bodies, capacity);
    assert(after == cell.with_child(quadrant, kid.insert(index, bodies, capacity)));
    lemma_cell_indices(cell);
    lemma_four_in_a_row(
        cell.child(0).indices(),
        cell.child(1).indices(),
        cell.child(2).indices(),
        cell.child(3).indices(),
        bodies,
    );
    lemma_sat_mass_clamps(cell.child(0).indices(), bodies);
    lemma_sat_mass_clamps(cell.child(1).indices(), bodies);
    lemma_sat_mass_clamps(cell.child(2).indices(), bodies);
    lemma_sat_mass_clamps(cell.child(3).indices(), bodies);
    assert(after.child(0).mass_kept(bodies));
    assert(after.child(1).mass_kept(bodies));
    assert(after.child(2).mass_kept(bodies));
    assert(after.child(3).mass_kept(bodies));
}

/// What holds of every member of a sequence and of one more index holds of
/// every member of a sequence that holds those and that index once more.
pub proof fn lemma_members_with_one_more(
    before: Seq<usize>,
    after: Seq<usize>,
    index: usize,
    property: spec_fn(usize) -> bool,
)
    requires
        after.to_multiset() == before.to_multiset().insert(index),
        forall|k: int| 0 <= k < before.len() ==> property(#[trigger] before[k]),
        property(index),
    ensures
        forall|k: int| 0 <= k < after.len() ==> property(#[trigger] after[k]),
{
    before.to_multiset_ensures();
    after.to_multiset_ensures();
    assert forall|k: int| 0 <= k < after.len() implies property(#[trigger] after[k]) by {
        let x = after[k];
        assert(after.contains(x));
        assert(after.to_multiset().count(x) > 0);
        if x != index {
            assert(before.to_multiset().count(x) > 0);
            assert(before.contains(x));
        }
    }
}

/// Insertion keeps every body where the descent by quadrants leads, and
/// keeps subdivision neither late nor early.
pub proof fn lemma_insert_routed(tree: Tree, index: usize, bodies: Seq<Body>, capacity: usize)
    requires
        tree.well_shaped(),
        tree.routed(bodies),
        tree.balanced(capacity),
    ensures
        tree.insert(index, bodies, capacity).routed(bodies),
        tree.insert(index, bodies, capacity).balanced(capacity),
    decreases tree.boundary().half_size@, 1int,
{
    let mass = fx_add(tree.mass(), bodies[index as int].mass@);
    match tree {
        Tree::Leaf { boundary, indices, .. } => {
            if !tree.accepts(capacity) {
                let cell = split(boundary, mass, indices, bodies);
                lemma_split_indices(boundary, mass, indices, bodies);
                let any = |i: usize| true;
                lemma_routed_keeps(indices, bodies, boundary, 0, any);
                lemma_routed_keeps(indices, bodies, boundary, 1, any);
                lemma_routed_keeps(indices, bodies, boundary, 2, any);
                lemma_routed_keeps(indices, bodies, boundary, 3, any);
                assert(cell.child(0).indices() == routed_to(indices, bodies, boundary, 0));
                assert(cell.child(1).indices() == routed_to(indices, bodies, boundary, 1));
                assert(cell.child(2).indices() == routed_to(indices, bodies, boundary, 2));
                assert(cell.child(3).indices() == routed_to(indices, bodies, boundary, 3));
                assert(cell.child(0).balanced(capacity));
                assert(cell.child(1).balanced(capacity));
                assert(cell.child(2).balanced(capacity));
                assert(cell.child(3).balanced(capacity));
                assert(all_in_quadrant(cell.child(0).indices(), bodies, boundary, 0));
                assert(all_in_quadrant(cell.child(1).indices(), bodies, boundary, 1));
                assert(all_in_quadrant(cell.child(2).indices(), bodies, boundary, 2));
                assert(all_in_quadrant(cell.child(3).indices(), bodies, boundary, 3));
                assert(cell.child(0).routed(bodies));
                assert(cell.child(1).routed(bodies));
                assert(cell.child(2).routed(bodies));
                assert(cell.child(3).routed(bodies));
                assert(cell.routed(bodies));
                lemma_descend_routed(cell, index, bodies, capacity);
            }
        },
        Tree::Cell { .. } => {
            let cell = tree.with_mass(mass);
            assert(cell.indices() == tree.indices());
            lemma_descend_routed(cell, index, bodies, capacity);
        },
    }
}

/// The step of [`lemma_insert_routed`] at a cell.
pub proof fn lemma_descend_routed(cell: Tree, index: usize, bodies: Seq<Body>, capacity: usize)
    requires
        cell is Cell,
        cell.well_shaped(),
        cell.routed(bodies),
        cell.child(0).balanced(capacity),
        cell.child(1).balanced(capacity),
        cell.child(2).balanced(capacity),
        cell.child(3).balanced(capacity),
        cell.indices().len() >= capacity,
    ensures
        cell.descend(index, bodies, capacity).routed(bodies),
        cell.descend(index, bodies, capacity).balanced(capacity),
    decreases cell.boundary().half_size@, 0int,
{
    let boundary = cell.boundary();
    let quadrant = boundary.spec_quadrant(bodies[index as int].position) as int;
    let kid = cell.child(quadrant);
    boundary.lemma_child_smaller(quadrant);
    lemma_insert_routed(kid, index, bodies, capacity);
    lemma_insert_indices(kid, index, bodies, capacity);
    lemma_descend_indices(cell, index, bodies, capacity);
    let grown = kid.insert(index, bodies, capacity);
    let after = cell.descend(index, bodies, capacity);
    assert(after == cell.with_child(quadrant, grown));
    lemma_members_with_one_more(
        kid.indices(),
        grown.indices(),
        index,
        |i: usize| boundary.spec_quadrant(bodies[i as int].position) == quadrant,
    );
    assert(all_in_quadrant(grown.indices(), bodies, boundary, quadrant));
    assert(after.child(0).routed(bodies));
    assert(after.child(1).routed(bodies));
    assert(after.child(2).routed(bodies));
    assert(after.child(3).routed(bodies));
    assert(after.child(0).balanced(capacity));
    assert(after.child(1).balanced(capacity));
    assert(after.child(2).balanced(capacity));
    assert(after.child(3).balanced(capacity));
}

/// Insertion of a body that lies in the root square keeps every body in
/// every square above it.
pub proof fn lemma_insert_tight(tree: Tree, index: usize, bodies: Seq<Body>, capacity: usize)
    requires
        tree.well_shaped(),
        tree.tight(bodies),
        tree.boundary().spec_contains(bodies[index as int].position),
    ensures
        tree.insert(index, bodies, capacity).tight(bodies),
    decreases tree.boundary().half_size@, 1int,
{
    let mass = fx_add(tree.mass(), bodies[index as int].mass@);
    match tree {
        Tree::Leaf { boundary, indices, .. } => {
            if !tree.accepts(capacity) {
                let cell = split(boundary, mass, indices, bodies);
                lemma_split_indices(boundary, mass, indices, bodies);
                lemma_split_tight(boundary, mass, indices, bodies);
                lemma_descend_tight(cell, index, bodies, capacity);
            }
        },
        Tree::Cell { .. } => {
            let cell = tree.with_mass(mass);
            assert(cell.indices() == tree.indices());
            lemma_descend_tight(cell, index, bodies, capacity);
        },
    }
}

/// The members of a sequence of bodies in a square that are routed to a
/// quadrant lie in the child square of that quadrant.
pub proof fn lemma_routed_inside(
    indices: Seq<usize>,
    bodies: Seq<Body>,
    boundary: SquareBox,
    quadrant: int,
)
    requires
        boundary.half_size@ >= 0,
        all_inside(indices, bodies, boundary),
    ensures
        all_inside(routed_to(indices, bodies, boundary, quadrant), bodies, boundary),
        all_inside(
            routed_to(indices, bodies, boundary, quadrant),
            bodies,
            boundary.spec_child(quadrant),
        ),
{
    let moved = routed_to(indices, bodies, boundary, quadrant);
    lemma_routed_keeps(
        indices,
        bodies,
        boundary,
        quadrant,
        |i: usize| boundary.spec_contains(bodies[i as int].position),
    );
    assert forall|k: int| 0 <= k < moved.len() implies boundary.spec_child(
        quadrant,
    ).spec_contains(bodies[(#[trigger] moved[k]) as int].position) by {
        let at = bodies[moved[k] as int].position;
        boundary.lemma_child_holds(at[0]@, at[1]@);
    }
}

/// A subdivided leaf keeps every body in every square above it.
pub proof fn lemma_split_tight(
    boundary: SquareBox,
    mass: int,
    indices: Seq<usize>,
    bodies: Seq<Body>,
)
    requires
        boundary.divisible(),
        all_inside(indices, bodies, boundary),
    ensures
        split(boundary, mass, indices, bodies).tight(bodies),
{
    let cell = split(boundary, mass, indices, bodies);
    lemma_routed_inside(indices, bodies, boundary, 0);
    lemma_routed_inside(indices, bodies, boundary, 1);
    lemma_routed_inside(indices, bodies, boundary, 2);
    lemma_routed_inside(indices, bodies, boundary, 3);
    assert(cell.child(0).indices() == routed_to(indices, bodies, boundary, 0));
    assert(cell.child(1).indices() == routed_to(indices, bodies, boundary, 1));
    assert(cell.child(2).indices() == routed_to(indices, bodies, boundary, 2));
    assert(cell.child(3).indices() == routed_to(indices, bodies, boundary, 3));
    lemma_cell_indices(cell);
    lemma_row_members(
        cell.child(0).indices(),
        cell.child(1).indices(),
        cell.child(2).indices(),
        cell.child(3).indices(),
        |i: usize| boundary.spec_contains(bodies[i as int].position),
    );
    assert(cell.child(0).tight(bodies));
    assert(cell.child(1).tight(bodies));
    assert(cell.child(2).tight(bodies));
    assert(cell.child(3).tight(bodies));
}

/// The step of [`lemma_insert_tight`] at a cell.
pub proof fn lemma_descend_tight(cell: Tree, index: usize, bodies: Seq<Body>, capacity: usize)
    requires
        cell is Cell,
        cell.well_shaped(),
        cell.tight(bodies),
        cell.boundary().spec_contains(bodies[index as int].position),
    ensures
        cell.descend(index, bodies, capacity).tight(bodies),
    decreases cell.boundary().half_size@, 0int,
{
    let boundary = cell.boundary();
    let at = bodies[index as int].position;
    let quadrant = boundary.spec_quadrant(at) as int;
    let kid = cell.child(quadrant);
    boundary.lemma_child_smaller(quadrant);
    boundary.lemma_child_holds(at[0]@, at[1]@);
    lemma_insert_tight(kid, index, bodies, capacity);
    lemma_descend_indices(cell, index, bodies, capacity);
    let after = cell.descend(index, bodies, capacity);
    assert(after == cell.with_child(quadrant, kid.insert(index, bodies, capacity)));
    lemma_members_with_one_more(
        cell.indices(),
        after.indices(),
        index,
        |i: usize| boundary.spec_contains(bodies[i as int].position),
    );
    assert(after.child(0).tight(bodies));
    assert(after.child(1).tight(bodies));
    assert(after.child(2).tight(bodies));
    assert(after.child(3).tight(bodies));
}

/// Every body of a routed tree is found by the descent by quadrants from the
/// root to the leaf for its position.
pub proof fn lemma_found_by_descent(tree: Tree, bodies: Seq<Body>, k: int)
    requires
        tree.routed(bodies),
        0 <= k < tree.indices().len(),
    ensures
        tree.found_at(
            bodies[tree.indices()[k] as int].position[0]@,
            bodies[tree.indices()[k] as int].position[1]@,
        ).contains(tree.indices()[k]),
    decreases tree,
{
    match tree {
        Tree::Leaf { indices, .. } => {
            assert(indices[k] == tree.indices()[k]);
        },
        Tree::Cell { ne, nw, sw, se, .. } => {
            let a = ne.indices();
            let b = nw.indices();
            let c = sw.indices();
            let d = se.indices();
            let row = a + b + c + d;
            if k < a.len() {
                assert(row[k] == a[k]);
                lemma_found_by_descent(*ne, bodies, k);
            } else if k < a.len() + b.len() {
                assert(row[k] == b[k - a.len()]);
                lemma_found_by_descent(*nw, bodies, k - a.len());
            } else if k < a.len() + b.len() + c.len() {
                assert(row[k] == c[k - a.len() - b.len()]);
                lemma_found_by_descent(*sw, bodies, k - a.len() - b.len());
            } else {
                assert(row[k] == d[k - a.len() - b.len() - c.len()]);
                lemma_found_by_descent(*se, bodies, k - a.len() - b.len() - c.len());
            }
        },
    }
}

/// The members of a concatenation that lie in a region are those of the one
/// part followed by those of the other.
pub proof fn lemma_within_concat(a: Seq<usize>, b: Seq<usize>, bodies: Seq<Body>, region: SquareBox)
    ensures
        within(a + b, bodies, region) == within(a, bodies, region) + within(b, bodies, region),
    decreases b.len(),
{
    if b.len() == 0 {
        assert(a + b == a);
        assert(within(a, bodies, region) + within(b, bodies, region) == within(
            a,
            bodies,
            region,
        ));
    } else {
        assert((a + b).drop_last() == a + b.drop_last());
        lemma_within_concat(a, b.drop_last(), bodies, region);
        let head = within(a, bodies, region);
        let tail = within(b.drop_last(), bodies, region);
        assert((head + tail).push(b.last()) == head + tail.push(b.last()));
    }
}

/// Where all members lie in the region, all are kept.
pub proof fn lemma_within_all(s: Seq<usize>, bodies: Seq<Body>, region: SquareBox)
    requires
        all_inside(s, bodies, region),
    ensures
        within(s, bodies, region) == s,
    decreases s.len(),
{
    if s.len() == 0 {
        assert(s == Seq::<usize>::empty());
    } else {
        assert(all_inside(s.drop_last(), bodies, region)) by {
            assert forall|k: int| 0 <= k < s.drop_last().len() implies region.spec_contains(
                bodies[(#[trigger] s.drop_last()[k]) as int].position,
            ) by {
                assert(s.drop_last()[k] == s[k]);
            }
        }
        lemma_within_all(s.drop_last(), bodies, region);
        assert(s.last() == s[s.len() - 1]);
        assert(s.drop_last().push(s.last()) == s);
    }
}

/// A range query over a region that contains the root square answers with
/// all indices of the tree.
pub proof fn lemma_query_covering(tree: Tree, region: SquareBox, bodies: Seq<Body>)
    requires
        region.spec_contains_box(tree.boundary()),
    ensures
        tree.query(region, bodies) == tree.indices(),
{
}

/// A range query over a tree whose bodies all lie in the squares above them
/// answers with the indices of the bodies that lie in the region, in the
/// order of the tree.
pub proof fn lemma_query_exact(tree: Tree, region: SquareBox, bodies: Seq<Body>)
    requires
        tree.tight(bodies),
    ensures
        tree.query(region, bodies) == within(tree.indices(), bodies, region),
    decreases tree,
{
    if region.spec_contains_box(tree.boundary()) {
        assert(all_inside(tree.indices(), bodies, region));
        lemma_within_all(tree.indices(), bodies, region);
    } else {
        match tree {
            Tree::Leaf { .. } => {},
            Tree::Cell { ne, nw, sw, se, .. } => {
                lemma_query_exact(*ne, region, bodies);
                lemma_query_exact(*nw, region, bodies);
                lemma_query_exact(*sw, region, bodies);
                lemma_query_exact(*se, region, bodies);
                let a = ne.indices();
                let b = nw.indices();
                let c = sw.indices();
                let d = se.indices();
                lemma_within_concat(a, b, bodies, region);
                lemma_within_concat(a + b, c, bodies, region);
                lemma_within_concat(a + b + c, d, bodies, region);
            },
        }
    }
}

/// How often an index occurs among the indices of the first `n` bodies.
pub proof fn lemma_first_indices_once(n: nat, i: usize)
    requires
        n <= usize::MAX,
    ensures
        first_indices(n).to_multiset().count(i) == if i < n {
            1nat
        } else {
            0nat
        },
    decreases n,
{
    let s = first_indices(n);
    s.to_multiset_ensures();
    if n == 0 {
        assert(!s.contains(i));
    } else {
        let rest = first_indices((n - 1) as nat);
        lemma_first_indices_once((n - 1) as nat, i);
        assert(s == rest.push((n - 1) as usize));
        to_multiset_build(rest, (n - 1) as usize);
    }
}

/// The tree grown from the first `n` bodies is well shaped over its square,
/// holds the index of each of these bodies and no other, keeps every body
/// where the descent by quadrants leads, and is subdivided neither late nor
/// early.
pub proof fn lemma_grown(boundary: SquareBox, bodies: Seq<Body>, capacity: usize, n: nat)
    requires
        n <= bodies.len() <= usize::MAX,
    ensures
        grown(boundary, bodies, capacity, n).well_shaped(),
        grown(boundary, bodies, capacity, n).boundary() == boundary,
        grown(boundary, bodies, capacity, n).in_bounds(bodies.len() as int),
        grown(boundary, bodies, capacity, n).routed(bodies),
        grown(boundary, bodies, capacity, n).balanced(capacity),
        grown(boundary, bodies, capacity, n).indices().to_multiset() == first_indices(
            n,
        ).to_multiset(),
        grown(boundary, bodies, capacity, n).indices().len() == n,
        total_mass(grown(boundary, bodies, capacity, n).indices(), bodies) == mass_upto(
            bodies,
            n,
        ),
    decreases n,
{
    if n == 0 {
        let empty = Seq::<usize>::empty();
        assert(first_indices(0) == empty);
    } else {
        let before = grown(boundary, bodies, capacity, (n - 1) as nat);
        let index = (n - 1) as usize;
        lemma_grown(boundary, bodies, capacity, (n - 1) as nat);
        lemma_insert_indices(before, index, bodies, capacity);
        lemma_insert_in_bounds(before, index, bodies, capacity);
        lemma_insert_routed(before, index, bodies, capacity);
        let rest = first_indices((n - 1) as nat);
        assert(first_indices(n) == rest.push(index));
        to_multiset_build(rest, index);
    }
}

/// The tree grown from bodies without negative mass conserves mass, and
/// its root records the clamped sum of the masses of all its bodies.
pub proof fn lemma_grown_mass(boundary: SquareBox, bodies: Seq<Body>, capacity: usize, n: nat)
    requires
        n <= bodies.len() <= usize::MAX,
        masses_not_negative(bodies),
    ensures
        grown(boundary, bodies, capacity, n).mass_kept(bodies),
        grown(boundary, bodies, capacity, n).mass() == clamp(mass_upto(bodies, n)),
    decreases n,
{
    lemma_grown(boundary, bodies, capacity, n);
    if n > 0 {
        let before = grown(boundary, bodies, capacity, (n - 1) as nat);
        lemma_grown(boundary, bodies, capacity, (n - 1) as nat);
        lemma_grown_mass(boundary, bodies, capacity, (n - 1) as nat);
        lemma_insert_mass(before, (n - 1) as usize, bodies, capacity);
    }
}

/// The tree grown from bodies that lie in its square keeps every body in
/// every square above it.
pub proof fn lemma_grown_tight(boundary: SquareBox, bodies: Seq<Body>, capacity: usize, n: nat)
    requires
        n <= bodies.len() <= usize::MAX,
        forall|k: int| 0 <= k < n ==> boundary.spec_contains((#[trigger] bodies[k]).position),
    ensures
        grown(boundary, bodies, capacity, n).tight(bodies),
    decreases n,
{
    lemma_grown(boundary, bodies, capacity, n);
    if n > 0 {
        let before = grown(boundary, bodies, capacity, (n - 1) as nat);
        lemma_grown(boundary, bodies, capacity, (n - 1) as nat);
        lemma_grown_tight(boundary, bodies, capacity, (n - 1) as nat);
        assert(boundary.spec_contains(bodies[n - 1].position));
        lemma_insert_tight(before, (n - 1) as usize, bodies, capacity);
    }
}

/// An index is among the members that lie in a region just when it is a
/// member and its body lies in the region.
pub proof fn lemma_within_members(s: Seq<usize>, bodies: Seq<Body>, region: SquareBox, i: usize)
    ensures
        within(s, bodies, region).contains(i) <==> s.contains(i) && region.spec_contains(
            bodies[i as int].position,
        ),
    decreases s.len(),
{
    let kept = within(s, bodies, region);
    if s.len() > 0 {
        let rest = s.drop_last();
        let last = s.last();
        lemma_within_members(rest, bodies, region, i);
        let before = within(rest, bodies, region);
        assert(s == rest.push(last));
        if s.contains(i) {
            let k = choose|k: int| 0 <= k < s.len() && s[k] == i;
            if k < rest.len() {
                assert(rest[k] == i);
            }
        }
        if rest.contains(i) {
            let k = choose|k: int| 0 <= k < rest.len() && rest[k] == i;
            assert(s[k] == i);
        }
        assert(s[s.len() - 1] == last);
        if region.spec_contains(bodies[last as int].position) {
            assert(kept == before.push(last));
            if kept.contains(i) {
                let k = choose|k: int| 0 <= k < kept.len() && kept[k] == i;
                if k < before.len() {
                    assert(before[k] == i);
                }
            }
            if before.contains(i) {
                let k = choose|k: int| 0 <= k < before.len() && before[k] == i;
                assert(kept[k] == i);
            }
            assert(kept[kept.len() - 1] == last);
        }
    }
}

} // verus!
