//! Bodies, the gravity between them, and their collisions.
pub mod laws;

use vstd::prelude::*;
use std::collections::HashSet;
use crate::fixed::{Fixed, SCALE};
use crate::quadtree::model::{all_below, Tree};
use crate::quadtree::pool::{node_wf, pool_below, pool_wf, tree_of};
use crate::quadtree::{QuadTreeNode, SquareBox, SquareQuadtree};

verus! {

broadcast use vstd::std_specs::hash::group_hash_axioms;

/// Raw count of the squared distance below which two points are treated as
/// coincident (`1e-5`).
pub const SMALL_RAW: i64 = 10_000;

/// Raw count of one half.
pub const HALF_RAW: i64 = 500_000_000;

/// Raw count of two.
pub const TWO_RAW: i64 = 2_000_000_000;

/// A point particle.
#[derive(Copy, Clone, Debug)]
pub struct Body {
    pub position: [Fixed; 2],
    pub velocity: [Fixed; 2],
    pub mass: Fixed,
    pub radius: Fixed,
    /// Red, green, blue, alpha; carried along untouched.
    pub color: [u8; 4],
}

/// The squared length of the vector `(dx, dy)`.
pub open spec fn norm_sqr(dx: Fixed, dy: Fixed) -> Fixed {
    dx.mul(dx).add(dy.mul(dy))
}

/// The force with which a mass `puller`, displaced by `(dx, dy)`, attracts a
/// mass `pulled`: of size `g * pulled * puller / d^2` and directed along the
/// displacement, where `d^2` is the squared length of the displacement.
/// Nothing if `d^2` is below `1e-5`.
pub open spec fn pull(g: Fixed, pulled: Fixed, puller: Fixed, dx: Fixed, dy: Fixed) -> [Fixed; 2] {
    let distance_sqr = norm_sqr(dx, dy);
    if distance_sqr@ < SMALL_RAW {
        [Fixed::of(0), Fixed::of(0)]
    } else {
        let force = g.mul(pulled).mul(puller).div(distance_sqr);
        let distance = distance_sqr.sqrt();
        [force.mul(dx).div(distance), force.mul(dy).div(distance)]
    }
}

/// The force with which body `j` attracts body `i`.
pub open spec fn pull_between(bodies: Seq<Body>, i: int, j: int, g: Fixed) -> [Fixed; 2] {
    pull(
        g,
        bodies[i].mass,
        bodies[j].mass,
        bodies[j].position[0].sub(bodies[i].position[0]),
        bodies[j].position[1].sub(bodies[i].position[1]),
    )
}

/// The sum of two forces.
pub open spec fn combined(acc: [Fixed; 2], force: [Fixed; 2]) -> [Fixed; 2] {
    [acc[0].add(force[0]), acc[1].add(force[1])]
}

/// `acc` plus the forces with which the bodies listed in `s`, one after the
/// other and leaving out body `i` itself, attract body `i`.
pub open spec fn gravity_of_list(
    s: Seq<usize>,
    i: int,
    bodies: Seq<Body>,
    g: Fixed,
    acc: [Fixed; 2],
) -> [Fixed; 2]
    decreases s.len(),
{
    if s.len() == 0 {
        acc
    } else {
        let before = gravity_of_list(s.drop_last(), i, bodies, g, acc);
        if s.last() == i {
            before
        } else {
            combined(before, pull_between(bodies, i, s.last() as int, g))
        }
    }
}

/// `acc` plus the Barnes–Hut force of the tree on body `i`. A leaf attracts
/// with each of its bodies. A cell whose center is closer to the body than
/// `1e-5` (squared) is passed over. Another cell attracts as one mass at its
/// center if the square of its side over the squared distance is below
/// `theta_sqr`, and else with its four subtrees, quadrant after quadrant.
pub open spec fn gravity_of_tree(
    tree: Tree,
    i: int,
    bodies: Seq<Body>,
    theta_sqr: Fixed,
    g: Fixed,
    acc: [Fixed; 2],
) -> [Fixed; 2]
    decreases tree,
{
    match tree {
        Tree::Leaf { indices, .. } => gravity_of_list(indices, i, bodies, g, acc),
        Tree::Cell { boundary, mass, ne, nw, sw, se } => {
            let dx = boundary.center_x.sub(bodies[i].position[0]);
            let dy = boundary.center_y.sub(bodies[i].position[1]);
            let distance_sqr = norm_sqr(dx, dy);
            let size = boundary.half_size.add(boundary.half_size);
            if distance_sqr@ < SMALL_RAW {
                acc
            } else if size.mul(size).div(distance_sqr)@ < theta_sqr@ {
                combined(acc, pull(g, bodies[i].mass, Fixed::of(mass), dx, dy))
            } else {
                let a = gravity_of_tree(*ne, i, bodies, theta_sqr, g, acc);
                let b = gravity_of_tree(*nw, i, bodies, theta_sqr, g, a);
                let c = gravity_of_tree(*sw, i, bodies, theta_sqr, g, b);
                gravity_of_tree(*se, i, bodies, theta_sqr, g, c)
            }
        },
    }
}

/// Two bodies touch: the squared distance of their centers is at most the
/// square of the sum of their radii.
pub open spec fn touching(a: Body, b: Body) -> bool {
    let rx = b.position[0].sub(a.position[0]);
    let ry = b.position[1].sub(a.position[1]);
    let radii = a.radius.add(b.radius);
    norm_sqr(rx, ry)@ <= radii.mul(radii)@
}

/// What becomes of two touching bodies `a` and `b`, in this order.
///
/// With `u` the unit vector from `a` to `b`: `b` is placed at `a + u * R`,
/// where `R` is the sum of the radii, and `a` stays. If the bodies approach
/// each other along `u` with speed `v_n <= 0`, they exchange the impulse
/// `J = 2 * v_n / (m_a + m_b)`: `a` gains `u * J * m_b`, `b` loses
/// `u * J * m_a`. Then the velocity of `b` is scaled so that the kinetic
/// energy of the pair is what it was before the impulse, unless `b` is at
/// rest. Two bodies with the same center are left as they are.
pub open spec fn bounce(a: Body, b: Body) -> (Body, Body) {
    let rx = b.position[0].sub(a.position[0]);
    let ry = b.position[1].sub(a.position[1]);
    let radii = a.radius.add(b.radius);
    let distance = norm_sqr(rx, ry).sqrt();
    if distance@ == 0 {
        (a, b)
    } else {
        let ux = rx.div(distance);
        let uy = ry.div(distance);
        let placed = Body {
            position: [a.position[0].add(ux.mul(radii)), a.position[1].add(uy.mul(radii))],
            ..b
        };
        let approach = b.velocity[0].sub(a.velocity[0]).mul(ux).add(
            b.velocity[1].sub(a.velocity[1]).mul(uy),
        );
        if approach@ > 0 {
            (a, placed)
        } else {
            let impulse = Fixed::of(TWO_RAW as int).mul(approach).div(a.mass.add(b.mass));
            let energy = a.kinectic_energy().add(b.kinectic_energy());
            let first = Body {
                velocity: [
                    a.velocity[0].add(ux.mul(impulse).mul(b.mass)),
                    a.velocity[1].add(uy.mul(impulse).mul(b.mass)),
                ],
                ..a
            };
            let second = Body {
                velocity: [
                    b.velocity[0].sub(ux.mul(impulse).mul(a.mass)),
                    b.velocity[1].sub(uy.mul(impulse).mul(a.mass)),
                ],
                ..placed
            };
            let current = second.kinectic_energy();
            if current@ == 0 {
                (first, second)
            } else {
                let ratio = energy.sub(first.kinectic_energy()).div(current).sqrt();
                (
                    first,
                    Body {
                        velocity: [second.velocity[0].mul(ratio), second.velocity[1].mul(ratio)],
                        ..second
                    },
                )
            }
        }
    }
}

/// The bodies during collision handling, and which of them have collided
/// already.
pub struct Contacts {
    pub bodies: Seq<Body>,
    pub collided: Set<usize>,
}

/// The square in which the partners of a body are looked for: centered at
/// the body, with twice its radius as half-size.
pub open spec fn reach_of(body: Body) -> SquareBox {
    SquareBox {
        center_x: body.position[0],
        center_y: body.position[1],
        half_size: body.radius.add(body.radius),
    }
}

impl Contacts {
    /// Body `i` meets candidate `j`. Nothing happens if they are the same
    /// body, if either has collided already, or if they do not touch. Else
    /// they bounce, and both have collided.
    pub open spec fn meet(self, i: usize, j: usize) -> Contacts {
        if i == j || self.collided.contains(i) || self.collided.contains(j) || !touching(
            self.bodies[i as int],
            self.bodies[j as int],
        ) {
            self
        } else {
            let after = bounce(self.bodies[i as int], self.bodies[j as int]);
            Contacts {
                bodies: self.bodies.update(i as int, after.0).update(j as int, after.1),
                collided: self.collided.insert(i).insert(j),
            }
        }
    }

    /// Body `i` meets the candidates one after the other.
    pub open spec fn meet_all(self, i: usize, candidates: Seq<usize>) -> Contacts
        decreases candidates.len(),
    {
        if candidates.len() == 0 {
            self
        } else {
            self.meet_all(i, candidates.drop_last()).meet(i, candidates.last())
        }
    }

    /// The turn of body `i`: unless it has collided already, it meets the
    /// bodies that the tree finds within its reach.
    pub open spec fn visit(self, tree: Tree, i: usize) -> Contacts {
        if self.collided.contains(i) {
            self
        } else {
            self.meet_all(i, tree.query(reach_of(self.bodies[i as int]), self.bodies))
        }
    }
}

/// The state after the turns of the first `n` bodies, starting from `bodies`
/// with no body collided.
pub open spec fn collide_upto(tree: Tree, bodies: Seq<Body>, n: nat) -> Contacts
    decreases n,
{
    if n == 0 {
        Contacts { bodies, collided: Set::empty() }
    } else {
        collide_upto(tree, bodies, (n - 1) as nat).visit(tree, (n - 1) as usize)
    }
}

impl Body {
    /// Kinetic energy, `(1/2 * m) * (vx * vx + vy * vy)`.
    pub open spec fn spec_kinetic_energy(&self) -> Fixed {
        Fixed::of(HALF_RAW as int).mul(self.mass).mul(
            self.velocity[0].mul(self.velocity[0]).add(self.velocity[1].mul(self.velocity[1])),
        )
    }

    /// The same body with another mass.
    pub fn with_mass(self, mass: Fixed) -> (r: Body)
        ensures
            r == (Body { mass, ..self }),
    {
        Body { mass, ..self }
    }

    /// The same body at another position.
    pub fn with_position(self, position: [Fixed; 2]) -> (r: Body)
        ensures
            r == (Body { position, ..self }),
    {
        Body { position, ..self }
    }

    /// The same body with another velocity.
    pub fn with_velocity(self, velocity: [Fixed; 2]) -> (r: Body)
        ensures
            r == (Body { velocity, ..self }),
    {
        Body { velocity, ..self }
    }

    /// Kinetic energy, `1/2 * m * |v|^2`.
    #[verifier::when_used_as_spec(spec_kinetic_energy)]
    pub fn kinectic_energy(&self) -> (r: Fixed)
        ensures
            r == self.spec_kinetic_energy(),
    {
        let half = Fixed::from_raw(HALF_RAW);
        let vx = self.velocity[0];
        let vy = self.velocity[1];
        half.mul(self.mass).mul(vx.mul(vx).add(vy.mul(vy)))
    }
}

impl Default for Body {
    /// A white body of unit mass and unit radius, at rest at the origin.
    fn default() -> (r: Body)
        ensures
            r.position[0]@ == 0,
            r.position[1]@ == 0,
            r.velocity[0]@ == 0,
            r.velocity[1]@ == 0,
            r.mass@ == SCALE,
            r.radius@ == SCALE,
            r.color[0] == 255,
            r.color[1] == 255,
            r.color[2] == 255,
            r.color[3] == 255,
    {
        Body {
            position: [Fixed::zero(), Fixed::zero()],
            velocity: [Fixed::zero(), Fixed::zero()],
            mass: Fixed::one(),
            radius: Fixed::one(),
            color: [255; 4],
        }
    }
}

/// The force with which a mass `puller`, displaced by `(dx, dy)`, attracts a
/// mass `pulled`.
fn attraction(g: Fixed, pulled: Fixed, puller: Fixed, dx: Fixed, dy: Fixed) -> (r: [Fixed; 2])
    ensures
        r == pull(g, pulled, puller, dx, dy),
{
    let distance_sqr = dx.mul(dx).add(dy.mul(dy));
    if distance_sqr.raw < SMALL_RAW {
        return [Fixed::from_raw(0), Fixed::from_raw(0)];
    }
    let force = g.mul(pulled).mul(puller).div(distance_sqr);
    let distance = distance_sqr.sqrt();
    [force.mul(dx).div(distance), force.mul(dy).div(distance)]
}

/// Adds to `forces[ith]` the force with which body `jth` attracts body `ith`.
pub fn accumulate_gravity_force(
    ith: usize,
    jth: usize,
    forces: &mut [[Fixed; 2]],
    bodies: &[Body],
    gravity_constant: Fixed,
)
    requires
        ith < bodies.len(),
        jth < bodies.len(),
        ith < old(forces).len(),
    ensures
        final(forces)@ == old(forces)@.update(
            ith as int,
            combined(old(forces)[ith as int], pull_between(bodies@, ith as int, jth as int, gravity_constant)),
        ),
{
    let dx = bodies[jth].position[0].sub(bodies[ith].position[0]);
    let dy = bodies[jth].position[1].sub(bodies[ith].position[1]);
    let force = attraction(gravity_constant, bodies[ith].mass, bodies[jth].mass, dx, dy);
    let acc = forces[ith];
    forces[ith] = [acc[0].add(force[0]), acc[1].add(force[1])];
}

/// `acc` plus the Barnes–Hut force on body `ith_body` of the tree below node
/// `node_idx`.
fn gravity_below(
    nodes: &[QuadTreeNode],
    node_idx: usize,
    ith_body: usize,
    bodies: &[Body],
    theta_sqr_threshold: Fixed,
    gravity_constant: Fixed,
    acc: [Fixed; 2],
) -> (r: [Fixed; 2])
    requires
        pool_wf(nodes@),
        node_idx < nodes.len(),
        pool_below(nodes@, bodies.len() as int),
        ith_body < bodies.len(),
    ensures
        r == gravity_of_tree(
            tree_of(nodes@, node_idx as int),
            ith_body as int,
            bodies@,
            theta_sqr_threshold,
            gravity_constant,
            acc,
        ),
    decreases nodes.len() - node_idx,
{
    proof {
        assert(node_wf(nodes@, node_idx as int));
    }
    let node = &nodes[node_idx];
    if node.is_leaf() {
        let held = node.referenced_indices();
        let mut total: [Fixed; 2] = acc;
        let mut k: usize = 0;
        while k < held.len()
            invariant
                0 <= k <= held.len(),
                node_idx < nodes.len(),
                held@ == nodes@[node_idx as int].referenced_indices@,
                pool_below(nodes@, bodies.len() as int),
                ith_body < bodies.len(),
                total == gravity_of_list(
                    held@.take(k as int),
                    ith_body as int,
                    bodies@,
                    gravity_constant,
                    acc,
                ),
            decreases held.len() - k,
        {
            let nbr_body: usize = held[k];
            proof {
                assert(nbr_body == nodes@[node_idx as int].referenced_indices@[k as int]);
                assert(held@.take(k as int + 1).drop_last() == held@.take(k as int));
                assert(held@.take(k as int + 1).last() == nbr_body);
            }
            if nbr_body != ith_body {
                let dx = bodies[nbr_body].position[0].sub(bodies[ith_body].position[0]);
                let dy = bodies[nbr_body].position[1].sub(bodies[ith_body].position[1]);
                let force = attraction(
                    gravity_constant,
                    bodies[ith_body].mass,
                    bodies[nbr_body].mass,
                    dx,
                    dy,
                );
                total = [total[0].add(force[0]), total[1].add(force[1])];
            }
            k += 1;
        }
        proof {
            assert(held@.take(held.len() as int) == held@);
        }
        total
    } else {
        let bdry = node.boundary();
        let center = bdry.center();
        let size = bdry.size();
        let dx = center[0].sub(bodies[ith_body].position[0]);
        let dy = center[1].sub(bodies[ith_body].position[1]);
        let distance_sqr = dx.mul(dx).add(dy.mul(dy));
        if distance_sqr.raw < SMALL_RAW {
            return acc;
        }
        if size.mul(size).div(distance_sqr).lt(theta_sqr_threshold) {
            let force = attraction(gravity_constant, bodies[ith_body].mass, node.mass(), dx, dy);
            [acc[0].add(force[0]), acc[1].add(force[1])]
        } else {
            let first_idx: usize = node.children_idx();
            let a = gravity_below(
                nodes,
                first_idx,
                ith_body,
                bodies,
                theta_sqr_threshold,
                gravity_constant,
                acc,
            );
            let b = gravity_below(
                nodes,
                first_idx + 1,
                ith_body,
                bodies,
                theta_sqr_threshold,
                gravity_constant,
                a,
            );
            let c = gravity_below(
                nodes,
                first_idx + 2,
                ith_body,
                bodies,
                theta_sqr_threshold,
                gravity_constant,
                b,
            );
            gravity_below(
                nodes,
                first_idx + 3,
                ith_body,
                bodies,
                theta_sqr_threshold,
                gravity_constant,
                c,
            )
        }
    }
}

/// Adds to `forces[ith_body]` the Barnes–Hut force of the tree on body
/// `ith_body`.
pub fn compute_gravity_forces(
    ith_body: usize,
    forces: &mut [[Fixed; 2]],
    bodies: &[Body],
    qt: &SquareQuadtree,
    theta_sqr_threshold: Fixed,
    gravity_constant: Fixed,
)
    requires
        ith_body < bodies.len(),
        ith_body < old(forces).len(),
        qt.wf(),
        qt.in_bounds(bodies.len() as int),
    ensures
        final(forces)@ == old(forces)@.update(
            ith_body as int,
            gravity_of_tree(
                qt@,
                ith_body as int,
                bodies@,
                theta_sqr_threshold,
                gravity_constant,
                old(forces)[ith_body as int],
            ),
        ),
{
    let qt_nodes = qt.get_nodes();
    let total = gravity_below(
        qt_nodes,
        0,
        ith_body,
        bodies,
        theta_sqr_threshold,
        gravity_constant,
        forces[ith_body],
    );
    forces[ith_body] = total;
}

/// Resolves the collision of bodies `ith` and `jth`, if they touch, and then
/// records both as collided.
fn elastic_collission(
    bodies: &mut [Body],
    ith: usize,
    jth: usize,
    colliding_bodies: &mut HashSet<usize>,
)
    requires
        ith < old(bodies).len(),
        jth < old(bodies).len(),
        ith != jth,
    ensures
        final(bodies).len() == old(bodies).len(),
        !touching(old(bodies)[ith as int], old(bodies)[jth as int]) ==> final(bodies)@ == old(
            bodies,
        )@ && final(colliding_bodies)@ == old(colliding_bodies)@,
        touching(old(bodies)[ith as int], old(bodies)[jth as int]) ==> final(bodies)@ == old(
            bodies,
        )@.update(ith as int, bounce(old(bodies)[ith as int], old(bodies)[jth as int]).0).update(
            jth as int,
            bounce(old(bodies)[ith as int], old(bodies)[jth as int]).1,
        ) && final(colliding_bodies)@ == old(colliding_bodies)@.insert(ith).insert(jth),
{
    let first: Body = bodies[ith];
    let second: Body = bodies[jth];
    let rx = second.position[0].sub(first.position[0]);
    let ry = second.position[1].sub(first.position[1]);
    let distance_sqr = rx.mul(rx).add(ry.mul(ry));
    let radii_sum = first.radius.add(second.radius);
    if distance_sqr.gt(radii_sum.mul(radii_sum)) {
        return ;
    }
    colliding_bodies.insert(ith);
    colliding_bodies.insert(jth);

    let distance = distance_sqr.sqrt();
    if distance.raw == 0 {
        proof {
            assert(bodies@ == old(bodies)@.update(ith as int, first).update(jth as int, second));
        }
        return ;
    }
    let ux = rx.div(distance);
    let uy = ry.div(distance);

    bodies[jth].position = [
        first.position[0].add(ux.mul(radii_sum)),
        first.position[1].add(uy.mul(radii_sum)),
    ];

    let impact_speed = second.velocity[0].sub(first.velocity[0]).mul(ux).add(
        second.velocity[1].sub(first.velocity[1]).mul(uy),
    );
    if impact_speed.raw > 0 {
        proof {
            assert(bodies@ == old(bodies)@.update(ith as int, first).update(
                jth as int,
                bounce(first, second).1,
            ));
        }
        return ;
    }
    let m_i = first.mass;
    let m_j = second.mass;
    let impulse = Fixed::from_raw(TWO_RAW).mul(impact_speed).div(m_i.add(m_j));
    let ke_start = first.kinectic_energy().add(second.kinectic_energy());

    bodies[ith].velocity = [
        first.velocity[0].add(ux.mul(impulse).mul(m_j)),
        first.velocity[1].add(uy.mul(impulse).mul(m_j)),
    ];
    bodies[jth].velocity = [
        second.velocity[0].sub(ux.mul(impulse).mul(m_i)),
        second.velocity[1].sub(uy.mul(impulse).mul(m_i)),
    ];

    let curr_ke_jth = bodies[jth].kinectic_energy();
    if curr_ke_jth.raw != 0 {
        let correct_ke_jth = ke_start.sub(bodies[ith].kinectic_energy());
        let ratio = correct_ke_jth.div(curr_ke_jth).sqrt();
        let v = bodies[jth].velocity;
        bodies[jth].velocity = [v[0].mul(ratio), v[1].mul(ratio)];
    }
    proof {
        assert(bodies@ == old(bodies)@.update(ith as int, bounce(first, second).0).update(
            jth as int,
            bounce(first, second).1,
        ));
    }
}

/// Resolves the collisions of one step. The bodies take their turns in
/// order. A body that has not collided yet meets the bodies that the tree
/// finds within twice its radius; it bounces off the first one that it
/// touches and that has not collided yet either.
pub fn compute_collisions(bodies: &mut [Body], qt: &SquareQuadtree)
    requires
        qt.wf(),
        qt.in_bounds(old(bodies).len() as int),
    ensures
        final(bodies)@ == collide_upto(qt@, old(bodies)@, old(bodies).len() as nat).bodies,
        final(bodies).len() == old(bodies).len(),
{
    let mut colliding_bodies: HashSet<usize> = HashSet::new();
    let count: usize = bodies.len();
    let mut ith_body: usize = 0;
    while ith_body < count
        invariant
            0 <= ith_body <= count,
            bodies.len() == count,
            count == old(bodies).len(),
            qt.wf(),
            qt.in_bounds(count as int),
            (Contacts { bodies: bodies@, collided: colliding_bodies@ }) == collide_upto(
                qt@,
                old(bodies)@,
                ith_body as nat,
            ),
        decreases count - ith_body,
    {
        let ghost turn = Contacts { bodies: bodies@, collided: colliding_bodies@ };
        if !colliding_bodies.contains(&ith_body) {
            let radius = bodies[ith_body].radius;
            let boundary = SquareBox::new(bodies[ith_body].position, radius.add(radius));
            proof {
                assert(boundary == reach_of(bodies@[ith_body as int]));
            }
            let nbr_bodies = qt.query_range(boundary, bodies);
            let mut k: usize = 0;
            while k < nbr_bodies.len()
                invariant
                    0 <= k <= nbr_bodies.len(),
                    ith_body < count,
                    bodies.len() == count,
                    all_below(nbr_bodies@, count as int),
                    (Contacts { bodies: bodies@, collided: colliding_bodies@ }) == turn.meet_all(
                        ith_body,
                        nbr_bodies@.take(k as int),
                    ),
                decreases nbr_bodies.len() - k,
            {
                let jth_body: usize = nbr_bodies[k];
                proof {
                    assert(nbr_bodies@.take(k as int + 1).drop_last() == nbr_bodies@.take(
                        k as int,
                    ));
                    assert(nbr_bodies@.take(k as int + 1).last() == jth_body);
                }
                if ith_body != jth_body && !colliding_bodies.contains(&ith_body)
                    && !colliding_bodies.contains(&jth_body) {
                    elastic_collission(bodies, ith_body, jth_body, &mut colliding_bodies);
                }
                k += 1;
            }
            proof {
                assert(nbr_bodies@.take(nbr_bodies.len() as int) == nbr_bodies@);
            }
        }
        ith_body += 1;
    }
}

} // verus!
