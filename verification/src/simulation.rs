//! The simulation: bodies, their forces, the quadtree over them, and the
//! fixed timestep that moves them.
use vstd::prelude::*;
use crate::fixed::{Fixed, SCALE};
use crate::physics::laws::{clear_of_centers, lemma_collides_once, lemma_gravity_exact};
use crate::physics::{
    collide_upto, compute_collisions, compute_gravity_forces, gravity_of_list, gravity_of_tree,
    Body,
};
use crate::fixed::{clamp, RAW_MAX};
use crate::quadtree::laws::{
    lemma_first_indices_once, lemma_found_by_descent, lemma_grown, lemma_grown_mass,
    lemma_grown_tight, lemma_query_exact, lemma_within_members, masses_not_negative,
};
use crate::quadtree::model::{first_indices, grown, mass_upto, within, Tree};
use crate::quadtree::{SquareBox, SquareQuadtree, DEFAULT_CAPACITY};

verus! {

/// Raw count of the default timestep (`0.01`).
pub const DEFAULT_DT_RAW: i64 = 10_000_000;

/// Raw count of the default gravitational constant (`100`).
pub const DEFAULT_GRAVITY_RAW: i64 = 100_000_000_000;

/// How the solver works.
pub struct SolverParameters {
    /// The timestep, in seconds.
    pub dt: Fixed,
    /// The opening angle of the Barnes–Hut approximation; zero for none.
    pub barnes_hut_theta: Fixed,
    /// How many bodies a leaf of the quadtree takes before it is subdivided.
    pub quadtree_capacity: usize,
}

impl Default for SolverParameters {
    /// A timestep of `0.01`, no approximation, and 32 bodies to a leaf.
    fn default() -> (r: Self)
        ensures
            r.dt@ == DEFAULT_DT_RAW,
            r.barnes_hut_theta@ == 0,
            r.quadtree_capacity == DEFAULT_CAPACITY,
    {
        SolverParameters {
            dt: Fixed::from_raw(DEFAULT_DT_RAW),
            barnes_hut_theta: Fixed::zero(),
            quadtree_capacity: DEFAULT_CAPACITY,
        }
    }
}

/// The physical constants.
pub struct PhyiscsParameters {
    pub gravity_constant: Fixed,
}

impl Default for PhyiscsParameters {
    /// A gravitational constant of `100`.
    fn default() -> (r: Self)
        ensures
            r.gravity_constant@ == DEFAULT_GRAVITY_RAW,
    {
        PhyiscsParameters { gravity_constant: Fixed::from_raw(DEFAULT_GRAVITY_RAW) }
    }
}

/// All parameters of a simulation.
pub struct SimulationParameters {
    pub solver: SolverParameters,
    pub physics: PhyiscsParameters,
}

impl Default for SimulationParameters {
    /// The defaults of both groups.
    fn default() -> (r: Self)
        ensures
            r.solver.dt@ == DEFAULT_DT_RAW,
            r.solver.barnes_hut_theta@ == 0,
            r.solver.quadtree_capacity == DEFAULT_CAPACITY,
            r.physics.gravity_constant@ == DEFAULT_GRAVITY_RAW,
    {
        SimulationParameters {
            solver: SolverParameters::default(),
            physics: PhyiscsParameters::default(),
        }
    }
}

/// The square of half-size one at the origin, which an empty tree covers.
pub open spec fn unit_square() -> SquareBox {
    SquareBox { center_x: Fixed::of(0), center_y: Fixed::of(0), half_size: Fixed::of(SCALE as int) }
}

/// The tree over a set of bodies: all of them inserted, in order, into their
/// bounding square; for no bodies, the empty tree over the unit square.
pub open spec fn planted(bodies: Seq<Body>, capacity: usize) -> Tree {
    if bodies.len() == 0 {
        Tree::Leaf { boundary: unit_square(), mass: 0, indices: Seq::empty() }
    } else {
        grown(SquareBox::bounding(bodies), bodies, capacity, bodies.len())
    }
}

/// A body after one timestep under `force`: first the velocity changes by
/// `force / mass * dt`, then the position by the new velocity times `dt`.
pub open spec fn advanced(body: Body, force: [Fixed; 2], dt: Fixed) -> Body {
    let vx = body.velocity[0].add(force[0].div(body.mass).mul(dt));
    let vy = body.velocity[1].add(force[1].div(body.mass).mul(dt));
    Body {
        position: [body.position[0].add(vx.mul(dt)), body.position[1].add(vy.mul(dt))],
        velocity: [vx, vy],
        ..body
    }
}

/// The kinetic energies of the first `n` bodies, added up in order.
pub open spec fn energy_upto(bodies: Seq<Body>, n: nat) -> Fixed
    decreases n,
{
    if n == 0 {
        Fixed::of(0)
    } else {
        energy_upto(bodies, (n - 1) as nat).add(bodies[n - 1].kinectic_energy())
    }
}

/// The bodies of a simulation after its collisions have been resolved.
pub open spec fn collided(bodies: Seq<Body>, capacity: usize) -> Seq<Body> {
    collide_upto(planted(bodies, capacity), bodies, bodies.len()).bodies
}

/// The force on body `i` in a step that starts from `bodies`: the
/// Barnes–Hut force of the tree over `bodies` on the body as it is after the
/// collisions.
pub open spec fn force_on(
    bodies: Seq<Body>,
    parameters: SimulationParameters,
    i: int,
) -> [Fixed; 2] {
    gravity_of_tree(
        planted(bodies, parameters.solver.quadtree_capacity),
        i,
        collided(bodies, parameters.solver.quadtree_capacity),
        parameters.solver.barnes_hut_theta.mul(parameters.solver.barnes_hut_theta),
        parameters.physics.gravity_constant,
        [Fixed::of(0), Fixed::of(0)],
    )
}

/// Body `i` after a step that starts from `bodies`.
pub open spec fn stepped(bodies: Seq<Body>, parameters: SimulationParameters, i: int) -> Body {
    advanced(
        collided(bodies, parameters.solver.quadtree_capacity)[i],
        force_on(bodies, parameters, i),
        parameters.solver.dt,
    )
}

/// An N-body simulation.
pub struct Simulation {
    forces: Vec<[Fixed; 2]>,
    current_time: Fixed,
    bodies: Vec<Body>,
    qt: SquareQuadtree,
    parameters: SimulationParameters,
    kinetic_energy: Fixed,
}

impl Default for Simulation {
    /// An empty simulation at time zero, with the default parameters.
    fn default() -> (r: Self)
        ensures
            r.wf(),
            r.spec_bodies().len() == 0,
            r.spec_time()@ == 0,
            r.spec_kinetic_energy()@ == 0,
            r.spec_parameters().solver.dt@ == DEFAULT_DT_RAW,
            r.spec_parameters().solver.barnes_hut_theta@ == 0,
            r.spec_parameters().solver.quadtree_capacity == DEFAULT_CAPACITY,
            r.spec_parameters().physics.gravity_constant@ == DEFAULT_GRAVITY_RAW,
    {
        Self {
            bodies: Vec::new(),
            forces: Vec::new(),
            current_time: Fixed::zero(),
            qt: SquareQuadtree::new(SquareBox::new([Fixed::zero(), Fixed::zero()], Fixed::one())),
            parameters: SimulationParameters::default(),
            kinetic_energy: Fixed::zero(),
        }
    }
}

impl Simulation {
    /// The bodies, in the order in which they were added.
    pub closed spec fn spec_bodies(&self) -> Seq<Body> {
        self.bodies@
    }

    /// The force on each body in the last step.
    pub closed spec fn spec_forces(&self) -> Seq<[Fixed; 2]> {
        self.forces@
    }

    /// The physical time, in seconds.
    pub closed spec fn spec_time(&self) -> Fixed {
        self.current_time
    }

    /// The kinetic energy of all bodies after the last step.
    pub closed spec fn spec_kinetic_energy(&self) -> Fixed {
        self.kinetic_energy
    }

    /// The parameters.
    pub closed spec fn spec_parameters(&self) -> SimulationParameters {
        self.parameters
    }

    /// The quadtree, as it was last built.
    pub closed spec fn spec_tree(&self) -> Tree {
        self.qt@
    }

    /// There is a force for every body, and the quadtree is well formed, goes
    /// by the leaf capacity of the parameters, and holds indices of bodies
    /// only.
    pub closed spec fn wf(&self) -> bool {
        &&& self.forces.len() == self.bodies.len()
        &&& self.qt.wf()
        &&& self.qt.in_bounds(self.bodies.len() as int)
        &&& self.qt.spec_capacity() == self.parameters.solver.quadtree_capacity
    }

    /// An empty simulation at time zero, with the default parameters.
    pub fn new() -> (r: Self)
        ensures
            r.wf(),
            r.spec_bodies().len() == 0,
            r.spec_time()@ == 0,
            r.spec_kinetic_energy()@ == 0,
            r.spec_parameters().solver.dt@ == DEFAULT_DT_RAW,
            r.spec_parameters().solver.barnes_hut_theta@ == 0,
            r.spec_parameters().solver.quadtree_capacity == DEFAULT_CAPACITY,
            r.spec_parameters().physics.gravity_constant@ == DEFAULT_GRAVITY_RAW,
    {
        Simulation::default()
    }

    /// Rebuilds the quadtree over the bodies as they are.
    fn update_quadtree(&mut self)
        requires
            old(self).qt.wf(),
            old(self).qt.spec_capacity() == old(self).parameters.solver.quadtree_capacity,
        ensures
            final(self).qt.wf(),
            final(self).qt.in_bounds(final(self).bodies.len() as int),
            final(self).qt@ == planted(old(self).bodies@, old(self).parameters.solver.quadtree_capacity),
            final(self).qt.spec_capacity() == old(self).qt.spec_capacity(),
            final(self).bodies == old(self).bodies,
            final(self).forces == old(self).forces,
            final(self).current_time == old(self).current_time,
            final(self).parameters == old(self).parameters,
            final(self).kinetic_energy == old(self).kinetic_energy,
    {
        let count: usize = self.bodies.len();
        if count == 0 {
            self.qt.clear(SquareBox::new([Fixed::zero(), Fixed::zero()], Fixed::one()));
            return ;
        }
        let boundary = SquareBox::from_bodies(self.bodies.as_slice());
        self.qt.clear(boundary);
        let mut i: usize = 0;
        while i < count
            invariant
                0 <= i <= count,
                count == self.bodies.len(),
                self.qt.wf(),
                self.qt.in_bounds(count as int),
                self.qt.spec_capacity() == old(self).qt.spec_capacity(),
                self.qt@ == grown(boundary, self.bodies@, self.qt.spec_capacity(), i as nat),
                self.bodies == old(self).bodies,
                self.forces == old(self).forces,
                self.current_time == old(self).current_time,
                self.parameters == old(self).parameters,
                self.kinetic_energy == old(self).kinetic_energy,
            decreases count - i,
        {
            self.qt.insert_unchecked(i, self.bodies.as_slice());
            i += 1;
        }
    }

    /// Adds bodies at the end, with no force on them yet, and rebuilds the
    /// quadtree.
    pub fn add_bodies(&mut self, bodies: Vec<Body>)
        requires
            old(self).wf(),
        ensures
            final(self).wf(),
            final(self).spec_bodies() == old(self).spec_bodies() + bodies@,
            final(self).spec_forces() == old(self).spec_forces() + Seq::new(
                bodies.len() as nat,
                |k: int| [Fixed::of(0), Fixed::of(0)],
            ),
            final(self).spec_tree() == planted(
                final(self).spec_bodies(),
                old(self).spec_parameters().solver.quadtree_capacity,
            ),
            final(self).spec_time() == old(self).spec_time(),
            final(self).spec_kinetic_energy() == old(self).spec_kinetic_energy(),
            final(self).spec_parameters() == old(self).spec_parameters(),
    {
        let mut i: usize = 0;
        while i < bodies.len()
            invariant
                0 <= i <= bodies.len(),
                self.forces.len() == self.bodies.len(),
                self.bodies@ == old(self).bodies@ + bodies@.take(i as int),
                self.forces@ == old(self).forces@ + Seq::new(
                    i as nat,
                    |k: int| [Fixed::of(0), Fixed::of(0)],
                ),
                self.qt == old(self).qt,
                self.current_time == old(self).current_time,
                self.parameters == old(self).parameters,
                self.kinetic_energy == old(self).kinetic_energy,
            decreases bodies.len() - i,
        {
            self.bodies.push(bodies[i]);
            self.forces.push([Fixed::zero(), Fixed::zero()]);
            i += 1;
        }
        proof {
            assert(bodies@.take(bodies.len() as int) == bodies@);
        }
        self.update_quadtree();
    }

    /// Adds a body at the end, with no force on it yet, and rebuilds the
    /// quadtree.
    pub fn add_body(&mut self, body: Body)
        requires
            old(self).wf(),
        ensures
            final(self).wf(),
            final(self).spec_bodies() == old(self).spec_bodies().push(body),
            final(self).spec_forces() == old(self).spec_forces().push(
                [Fixed::of(0), Fixed::of(0)],
            ),
            final(self).spec_tree() == planted(
                final(self).spec_bodies(),
                old(self).spec_parameters().solver.quadtree_capacity,
            ),
            final(self).spec_time() == old(self).spec_time(),
            final(self).spec_kinetic_energy() == old(self).spec_kinetic_energy(),
            final(self).spec_parameters() == old(self).spec_parameters(),
    {
        self.bodies.push(body);
        self.forces.push([Fixed::zero(), Fixed::zero()]);
        self.update_quadtree();
    }

    /// Replaces the solver parameters. A new leaf capacity holds from the
    /// next time the quadtree is built.
    pub fn set_solver_parameters(&mut self, parameters: SolverParameters)
        requires
            old(self).wf(),
        ensures
            final(self).wf(),
            final(self).spec_parameters().solver == parameters,
            final(self).spec_parameters().physics == old(self).spec_parameters().physics,
            final(self).spec_bodies() == old(self).spec_bodies(),
            final(self).spec_forces() == old(self).spec_forces(),
            final(self).spec_tree() == old(self).spec_tree(),
            final(self).spec_time() == old(self).spec_time(),
            final(self).spec_kinetic_energy() == old(self).spec_kinetic_energy(),
    {
        self.qt.set_capacity(parameters.quadtree_capacity);
        self.parameters.solver = parameters;
    }

    /// Replaces the physical constants.
    pub fn set_physics_parameters(&mut self, parameters: PhyiscsParameters)
        requires
            old(self).wf(),
        ensures
            final(self).wf(),
            final(self).spec_parameters().physics == parameters,
            final(self).spec_parameters().solver == old(self).spec_parameters().solver,
            final(self).spec_bodies() == old(self).spec_bodies(),
            final(self).spec_forces() == old(self).spec_forces(),
            final(self).spec_tree() == old(self).spec_tree(),
            final(self).spec_time() == old(self).spec_time(),
            final(self).spec_kinetic_energy() == old(self).spec_kinetic_energy(),
    {
        self.parameters.physics = parameters;
    }

    /// The horizontal position of body `body_idx`.
    pub fn get_x_position(&self, body_idx: usize) -> (r: Fixed)
        requires
            body_idx < self.spec_bodies().len(),
        ensures
            r == self.spec_bodies()[body_idx as int].position[0],
    {
        self.bodies[body_idx].position[0]
    }

    /// The vertical position of body `body_idx`.
    pub fn get_y_position(&self, body_idx: usize) -> (r: Fixed)
        requires
            body_idx < self.spec_bodies().len(),
        ensures
            r == self.spec_bodies()[body_idx as int].position[1],
    {
        self.bodies[body_idx].position[1]
    }

    /// Body `body_idx`.
    pub fn get_body(&self, body_idx: usize) -> (r: Body)
        requires
            body_idx < self.spec_bodies().len(),
        ensures
            r == self.spec_bodies()[body_idx as int],
    {
        self.bodies[body_idx]
    }

    /// The physical time, in seconds.
    pub fn get_physical_time(&self) -> (r: Fixed)
        ensures
            r == self.spec_time(),
    {
        self.current_time
    }

    /// The number of bodies.
    pub fn get_number_of_bodies(&self) -> (r: usize)
        ensures
            r == self.spec_bodies().len(),
    {
        self.bodies.len()
    }

    /// The kinetic energy of all bodies after the last step.
    pub fn get_kinetic_energy(&self) -> (r: Fixed)
        ensures
            r == self.spec_kinetic_energy(),
    {
        self.kinetic_energy
    }

    /// Advances the simulation by one timestep: builds the quadtree over the
    /// bodies, resolves their collisions, computes the force of the tree on
    /// every body, and moves every body under its force.
    pub fn step(&mut self)
        requires
            old(self).wf(),
        ensures
            final(self).wf(),
            final(self).spec_parameters() == old(self).spec_parameters(),
            final(self).spec_time() == old(self).spec_time().add(
                old(self).spec_parameters().solver.dt,
            ),
            final(self).spec_tree() == planted(
                old(self).spec_bodies(),
                old(self).spec_parameters().solver.quadtree_capacity,
            ),
            final(self).spec_bodies().len() == old(self).spec_bodies().len(),
            final(self).spec_forces().len() == old(self).spec_bodies().len(),
            forall|i: int|
                0 <= i < old(self).spec_bodies().len() ==> #[trigger] final(self).spec_forces()[i]
                    == force_on(old(self).spec_bodies(), old(self).spec_parameters(), i),
            forall|i: int|
                0 <= i < old(self).spec_bodies().len() ==> #[trigger] final(self).spec_bodies()[i]
                    == stepped(old(self).spec_bodies(), old(self).spec_parameters(), i),
            final(self).spec_kinetic_energy() == energy_upto(
                final(self).spec_bodies(),
                final(self).spec_bodies().len(),
            ),
    {
        let count: usize = self.bodies.len();
        let ghost start = self.bodies@;
        let ghost parameters = self.parameters;
        let mut i: usize = 0;
        while i < count
            invariant
                0 <= i <= count,
                count == self.bodies.len(),
                count == self.forces.len(),
                forall|k: int| 0 <= k < i ==> #[trigger] self.forces@[k] == [Fixed::of(0), Fixed::of(0)],
                self.bodies == old(self).bodies,
                self.qt == old(self).qt,
                self.current_time == old(self).current_time,
                self.parameters == old(self).parameters,
            decreases count - i,
        {
            self.forces[i] = [Fixed::zero(), Fixed::zero()];
            i += 1;
        }
        self.update_quadtree();
        let ghost tree = self.qt@;

        compute_collisions(self.bodies.as_mut_slice(), &self.qt);
        let ghost hit = self.bodies@;

        let theta = self.parameters.solver.barnes_hut_theta;
        let theta_sqr = theta.mul(theta);
        let gravity_constant = self.parameters.physics.gravity_constant;
        i = 0;
        while i < count
            invariant
                0 <= i <= count,
                count == self.bodies.len(),
                count == self.forces.len(),
                count == start.len(),
                self.qt.wf(),
                self.qt.in_bounds(count as int),
                self.qt@ == tree,
                tree == planted(start, parameters.solver.quadtree_capacity),
                hit == collided(start, parameters.solver.quadtree_capacity),
                theta_sqr == parameters.solver.barnes_hut_theta.mul(
                    parameters.solver.barnes_hut_theta,
                ),
                gravity_constant == parameters.physics.gravity_constant,
                self.bodies@ == hit,
                forall|k: int|
                    0 <= k < i ==> #[trigger] self.forces@[k] == force_on(start, parameters, k),
                forall|k: int|
                    i <= k < count ==> #[trigger] self.forces@[k] == [Fixed::of(0), Fixed::of(0)],
                self.qt.spec_capacity() == old(self).qt.spec_capacity(),
                self.current_time == old(self).current_time,
                self.parameters == old(self).parameters,
                self.parameters == parameters,
            decreases count - i,
        {
            compute_gravity_forces(
                i,
                self.forces.as_mut_slice(),
                self.bodies.as_slice(),
                &self.qt,
                theta_sqr,
                gravity_constant,
            );
            i += 1;
        }

        let dt = self.parameters.solver.dt;
        self.kinetic_energy = Fixed::zero();
        i = 0;
        while i < count
            invariant
                0 <= i <= count,
                count == self.bodies.len(),
                count == self.forces.len(),
                count == start.len(),
                count == hit.len(),
                self.qt.wf(),
                self.qt.in_bounds(count as int),
                self.qt@ == tree,
                hit == collided(start, parameters.solver.quadtree_capacity),
                dt == parameters.solver.dt,
                forall|k: int|
                    0 <= k < count ==> #[trigger] self.forces@[k] == force_on(start, parameters, k),
                forall|k: int|
                    0 <= k < i ==> #[trigger] self.bodies@[k] == stepped(start, parameters, k),
                forall|k: int| i <= k < count ==> #[trigger] self.bodies@[k] == hit[k],
                self.kinetic_energy == energy_upto(self.bodies@, i as nat),
                self.qt.spec_capacity() == old(self).qt.spec_capacity(),
                self.current_time == old(self).current_time,
                self.parameters == old(self).parameters,
                self.parameters == parameters,
            decreases count - i,
        {
            let ghost before = self.bodies@;
            let body: Body = self.bodies[i];
            let force = self.forces[i];
            let vx = body.velocity[0].add(force[0].div(body.mass).mul(dt));
            let vy = body.velocity[1].add(force[1].div(body.mass).mul(dt));
            self.bodies[i].velocity = [vx, vy];
            self.kinetic_energy = self.kinetic_energy.add(self.bodies[i].kinectic_energy());
            self.bodies[i].position = [body.position[0].add(vx.mul(dt)), body.position[1].add(vy.mul(dt))];
            proof {
                lemma_energy_prefix(before, self.bodies@, i as nat);
            }
            i += 1;
        }
        self.current_time = self.current_time.add(dt);
    }

    /// Removes all bodies and forces, sets the time and the kinetic energy to
    /// zero, and empties the quadtree. The parameters stay.
    pub fn reset(&mut self)
        requires
            old(self).wf(),
        ensures
            final(self).wf(),
            final(self).spec_bodies().len() == 0,
            final(self).spec_forces().len() == 0,
            final(self).spec_time()@ == 0,
            final(self).spec_kinetic_energy()@ == 0,
            final(self).spec_tree() == (Tree::Leaf {
                boundary: unit_square(),
                mass: 0,
                indices: Seq::empty(),
            }),
            final(self).spec_parameters() == old(self).spec_parameters(),
    {
        self.bodies.clear();
        self.forces.clear();
        self.current_time = Fixed::zero();
        self.kinetic_energy = Fixed::zero();
        self.qt.clear(SquareBox::new([Fixed::zero(), Fixed::zero()], Fixed::one()));
    }
}

/// The energy of the first `n` bodies does not depend on the bodies behind
/// them.
pub proof fn lemma_energy_prefix(a: Seq<Body>, b: Seq<Body>, n: nat)
    requires
        n <= a.len(),
        n <= b.len(),
        forall|k: int| 0 <= k < n ==> a[k] == b[k],
    ensures
        energy_upto(a, n) == energy_upto(b, n),
    decreases n,
{
    if n > 0 {
        lemma_energy_prefix(a, b, (n - 1) as nat);
    }
}

/// Mass conservation. In the tree over any set of bodies without negative
/// mass, the root records the clamped sum of the masses of all bodies, every
/// square records the clamped sum of the masses of the bodies below it, and
/// every cell records the clamped sum of what its four subtrees record.
pub proof fn lemma_planted_conserves_mass(bodies: Seq<Body>, capacity: usize)
    requires
        bodies.len() <= usize::MAX,
        masses_not_negative(bodies),
    ensures
        planted(bodies, capacity).mass() == clamp(mass_upto(bodies, bodies.len())),
        planted(bodies, capacity).mass_kept(bodies),
{
    if bodies.len() > 0 {
        lemma_grown_mass(SquareBox::bounding(bodies), bodies, capacity, bodies.len());
    }
}

/// Partition completeness. The tree over any set of bodies holds the index
/// of every body exactly once, in the leaf that the descent by quadrants
/// from the root reaches for the position of the body; and a range query
/// over a region that contains the root square answers with all indices.
pub proof fn lemma_planted_holds_all(bodies: Seq<Body>, capacity: usize, region: SquareBox)
    requires
        bodies.len() <= usize::MAX,
    ensures
        planted(bodies, capacity).indices().len() == bodies.len(),
        forall|i: usize|
            planted(bodies, capacity).indices().to_multiset().count(i) == if i < bodies.len() {
                1nat
            } else {
                0nat
            },
        forall|i: usize|
            i < bodies.len() ==> (#[trigger] planted(bodies, capacity).found_at(
                bodies[i as int].position[0]@,
                bodies[i as int].position[1]@,
            )).contains(i),
        region.spec_contains_box(planted(bodies, capacity).boundary()) ==> planted(
            bodies,
            capacity,
        ).query(region, bodies) == planted(bodies, capacity).indices(),
{
    let tree = planted(bodies, capacity);
    let n = bodies.len();
    tree.indices().to_multiset_ensures();
    if n > 0 {
        lemma_grown(SquareBox::bounding(bodies), bodies, capacity, n);
    } else {
        assert(tree.indices() == first_indices(0));
    }
    assert forall|i: usize|
        tree.indices().to_multiset().count(i) == if i < n {
            1nat
        } else {
            0nat
        } by {
        lemma_first_indices_once(n, i);
    }
    assert forall|i: usize| i < n implies (#[trigger] tree.found_at(
        bodies[i as int].position[0]@,
        bodies[i as int].position[1]@,
    )).contains(i) by {
        assert(tree.indices().to_multiset().count(i) > 0);
        assert(tree.indices().contains(i));
        let k = choose|k: int| 0 <= k < tree.indices().len() && tree.indices()[k] == i;
        lemma_found_by_descent(tree, bodies, k);
    }
}

/// Range queries are exact. Unless the bodies span the whole representable
/// range, a range query over the tree over a set of bodies answers with the
/// indices of the bodies that lie in the region, each once.
pub proof fn lemma_planted_query(bodies: Seq<Body>, capacity: usize, region: SquareBox)
    requires
        bodies.len() <= usize::MAX,
        bodies.len() > 0 ==> SquareBox::larger_extent(bodies) <= 2 * RAW_MAX,
    ensures
        planted(bodies, capacity).query(region, bodies) == within(
            planted(bodies, capacity).indices(),
            bodies,
            region,
        ),
        forall|i: usize|
            planted(bodies, capacity).query(region, bodies).contains(i) <==> i < bodies.len()
                && region.spec_contains(bodies[i as int].position),
{
    let tree = planted(bodies, capacity);
    let n = bodies.len();
    if n > 0 {
        let boundary = SquareBox::bounding(bodies);
        assert forall|k: int| 0 <= k < n implies boundary.spec_contains(
            (#[trigger] bodies[k]).position,
        ) by {
            SquareBox::lemma_bounding_contains(bodies, k);
        }
        lemma_grown_tight(boundary, bodies, capacity, n);
    }
    lemma_query_exact(tree, region, bodies);
    lemma_planted_holds_all(bodies, capacity, region);
    tree.indices().to_multiset_ensures();
    assert forall|i: usize|
        tree.query(region, bodies).contains(i) <==> i < n && region.spec_contains(
            bodies[i as int].position,
        ) by {
        lemma_within_members(tree.indices(), bodies, region, i);
        assert(tree.indices().contains(i) <==> tree.indices().to_multiset().count(i) > 0);
    }
}

/// Barnes–Hut with opening angle zero is direct summation. In a step with
/// opening angle zero, the force on a body is the sum of the forces with which
/// each other body attracts it, taken in the order in which the tree holds the
/// bodies, provided that no cell of the tree has its center closer to the body
/// than `1e-5` (squared).
pub proof fn lemma_step_sums_directly(bodies: Seq<Body>, parameters: SimulationParameters, i: int)
    requires
        parameters.solver.barnes_hut_theta@ == 0,
        clear_of_centers(
            planted(bodies, parameters.solver.quadtree_capacity),
            collided(bodies, parameters.solver.quadtree_capacity)[i].position[0],
            collided(bodies, parameters.solver.quadtree_capacity)[i].position[1],
        ),
    ensures
        force_on(bodies, parameters, i) == gravity_of_list(
            planted(bodies, parameters.solver.quadtree_capacity).indices(),
            i,
            collided(bodies, parameters.solver.quadtree_capacity),
            parameters.physics.gravity_constant,
            [Fixed::of(0), Fixed::of(0)],
        ),
{
    let theta = parameters.solver.barnes_hut_theta;
    lemma_gravity_exact(
        planted(bodies, parameters.solver.quadtree_capacity),
        i,
        collided(bodies, parameters.solver.quadtree_capacity),
        theta.mul(theta),
        parameters.physics.gravity_constant,
        [Fixed::of(0), Fixed::of(0)],
    );
}

/// A step changes neither the mass, the radius nor the color of a body.
pub proof fn lemma_step_keeps_bodies(bodies: Seq<Body>, parameters: SimulationParameters, i: int)
    requires
        0 <= i < bodies.len() <= usize::MAX,
    ensures
        stepped(bodies, parameters, i).mass == bodies[i].mass,
        stepped(bodies, parameters, i).radius == bodies[i].radius,
        stepped(bodies, parameters, i).color == bodies[i].color,
{
    let capacity = parameters.solver.quadtree_capacity;
    let tree = planted(bodies, capacity);
    lemma_grown(SquareBox::bounding(bodies), bodies, capacity, bodies.len());
    lemma_collides_once(tree, bodies, 0, bodies.len());
    let start = collide_upto(tree, bodies, 0);
    let end = collide_upto(tree, bodies, bodies.len());
    assert(start.bodies[i] == bodies[i]);
    assert(end.bodies[i].mass == start.bodies[i].mass);
}

} // verus!
