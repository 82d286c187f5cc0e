use nbody::fixed::Fixed;
use nbody::physics::{accumulate_gravity_force, compute_collisions, compute_gravity_forces, Body};
use nbody::quadtree::{SquareBox, SquareQuadtree};

fn num(x: f64) -> Fixed {
    Fixed::from_raw((x * 1e9).round() as i64)
}

fn make(x: f64, y: f64, vx: f64, vy: f64, mass: f64, radius: f64) -> Body {
    Body {
        position: [num(x), num(y)],
        velocity: [num(vx), num(vy)],
        mass: num(mass),
        radius: num(radius),
        color: [1, 2, 3, 4],
    }
}

fn tree_over(bodies: &[Body], capacity: usize) -> SquareQuadtree {
    let mut tree = SquareQuadtree::new(SquareBox::from_bodies(bodies)).with_capacity(capacity);
    for i in 0..bodies.len() {
        tree.insert_unchecked(i, bodies);
    }
    tree
}

/// A fixed sequence of numbers between zero and one.
fn scatter(state: &mut u64) -> f64 {
    *state = state.wrapping_mul(6364136223846793005).wrapping_add(1442695040888963407);
    ((*state >> 11) as f64) / ((1u64 << 53) as f64)
}

fn fifty_bodies() -> Vec<Body> {
    let mut state: u64 = 12345;
    let mut bodies = Vec::new();
    for _ in 0..50 {
        let x = scatter(&mut state) * 200.0 - 100.0;
        let y = scatter(&mut state) * 200.0 - 100.0;
        let mass = 1.0 + scatter(&mut state) * 9.0;
        bodies.push(make(x, y, 0.0, 0.0, mass, 0.01));
    }
    bodies
}

#[test]
fn body_default_and_builders() {
    let body = Body::default();
    assert_eq!(body.position, [num(0.0), num(0.0)]);
    assert_eq!(body.velocity, [num(0.0), num(0.0)]);
    assert_eq!(body.mass, num(1.0));
    assert_eq!(body.radius, num(1.0));
    assert_eq!(body.color, [255; 4]);
    let body = body
        .with_mass(num(2.0))
        .with_position([num(1.0), num(-1.0)])
        .with_velocity([num(3.0), num(4.0)]);
    assert_eq!(body.mass, num(2.0));
    assert_eq!(body.position, [num(1.0), num(-1.0)]);
    assert_eq!(body.velocity, [num(3.0), num(4.0)]);
    assert_eq!(body.radius, num(1.0));
    assert_eq!(body.color, [255; 4]);
}

#[test]
fn kinetic_energy_is_half_m_v_squared() {
    let body = make(0.0, 0.0, 3.0, 4.0, 2.0, 1.0);
    assert_eq!(body.kinectic_energy(), num(25.0));
    let rest = make(5.0, 5.0, 0.0, 0.0, 2.0, 1.0);
    assert_eq!(rest.kinectic_energy(), num(0.0));
}

#[test]
fn pairwise_force_points_toward_the_attractor() {
    let bodies = vec![make(-1.0, 0.0, 0.0, 0.0, 1.0, 0.01), make(1.0, 0.0, 0.0, 0.0, 1.0, 0.01)];
    let mut forces = vec![[num(0.0), num(0.0)]; 2];
    accumulate_gravity_force(0, 1, &mut forces, &bodies, num(1.0));
    accumulate_gravity_force(1, 0, &mut forces, &bodies, num(1.0));
    // G m m / d^2 = 1 / 4
    assert_eq!(forces[0], [num(0.25), num(0.0)]);
    assert_eq!(forces[1], [num(-0.25), num(0.0)]);
}

#[test]
fn pairwise_force_formula() {
    let bodies = vec![make(0.0, 0.0, 0.0, 0.0, 2.0, 0.01), make(3.0, 4.0, 0.0, 0.0, 5.0, 0.01)];
    let mut forces = vec![[num(1.0), num(1.0)]; 2];
    accumulate_gravity_force(0, 1, &mut forces, &bodies, num(10.0));
    // F = 10 * 2 * 5 / 25 = 4, along (3, 4) / 5
    assert_eq!(forces[0], [num(3.4), num(4.2)]);
    assert_eq!(forces[1], [num(1.0), num(1.0)]);
}

#[test]
fn pairwise_force_vanishes_below_small_distance() {
    // squared distance 9e-6 is below 1e-5
    let bodies = vec![make(0.0, 0.0, 0.0, 0.0, 1.0, 0.01), make(0.003, 0.0, 0.0, 0.0, 1.0, 0.01)];
    let mut forces = vec![[num(0.0), num(0.0)]; 2];
    accumulate_gravity_force(0, 1, &mut forces, &bodies, num(1.0));
    assert_eq!(forces[0], [num(0.0), num(0.0)]);
    // squared distance 1.6e-5 is not
    let bodies = vec![make(0.0, 0.0, 0.0, 0.0, 1.0, 0.01), make(0.004, 0.0, 0.0, 0.0, 1.0, 0.01)];
    accumulate_gravity_force(0, 1, &mut forces, &bodies, num(1.0));
    assert_eq!(forces[0], [num(62500.0), num(0.0)]);
}

#[test]
fn barnes_hut_with_zero_angle_is_direct_summation() {
    let bodies = fifty_bodies();
    let tree = tree_over(&bodies, 4);
    assert!(tree.depth() >= 2);
    let g = num(100.0);
    for i in 0..bodies.len() {
        let mut forces = vec![[num(0.0), num(0.0)]; bodies.len()];
        compute_gravity_forces(i, &mut forces, &bodies, &tree, num(0.0), g);
        let mut direct = vec![[num(0.0), num(0.0)]; bodies.len()];
        for j in 0..bodies.len() {
            if j != i {
                accumulate_gravity_force(i, j, &mut direct, &bodies, g);
            }
        }
        assert_eq!(forces[i], direct[i]);
        assert!(forces[i] != [num(0.0), num(0.0)]);
        for k in 0..bodies.len() {
            if k != i {
                assert_eq!(forces[k], [num(0.0), num(0.0)]);
            }
        }
    }
}

#[test]
fn barnes_hut_far_cell_acts_as_one_mass() {
    // four bodies around the origin, seen from far away
    let bodies = vec![
        make(0.5, 0.5, 0.0, 0.0, 1.0, 0.01),
        make(-0.5, 0.5, 0.0, 0.0, 1.0, 0.01),
        make(-0.5, -0.5, 0.0, 0.0, 1.0, 0.01),
        make(0.5, -0.5, 0.0, 0.0, 1.0, 0.01),
        make(100.0, 0.0, 0.0, 0.0, 2.0, 0.01),
    ];
    let mut tree = SquareQuadtree::new(SquareBox::new([num(0.0), num(0.0)], num(1.0)))
        .with_capacity(2);
    for i in 0..4 {
        assert!(tree.insert(i, &bodies));
    }
    assert_eq!(tree.get_nodes().len(), 5);
    let mut forces = vec![[num(0.0), num(0.0)]; 5];
    // side 2, distance 100: (2 / 100)^2 = 4e-4 < 1
    compute_gravity_forces(4, &mut forces, &bodies, &tree, num(1.0), num(1.0));
    // F = 1 * 2 * 4 / 10000 toward the center of the root
    assert_eq!(forces[4], [num(-0.0008), num(0.0)]);
}

#[test]
fn barnes_hut_passes_over_a_cell_centered_at_the_body() {
    let bodies = vec![
        make(0.5, 0.5, 0.0, 0.0, 1.0, 0.01),
        make(-0.5, 0.5, 0.0, 0.0, 1.0, 0.01),
        make(0.5, -0.5, 0.0, 0.0, 1.0, 0.01),
        make(0.0, 0.0, 0.0, 0.0, 1.0, 0.01),
    ];
    let mut tree = SquareQuadtree::new(SquareBox::new([num(0.0), num(0.0)], num(1.0)))
        .with_capacity(2);
    for i in 0..4 {
        assert!(tree.insert(i, &bodies));
    }
    assert!(!tree.get_nodes()[0].is_leaf());
    let mut forces = vec![[num(0.0), num(0.0)]; 4];
    compute_gravity_forces(3, &mut forces, &bodies, &tree, num(0.0), num(1.0));
    assert_eq!(forces[3], [num(0.0), num(0.0)]);
    let mut direct = vec![[num(0.0), num(0.0)]; 4];
    for j in 0..3 {
        accumulate_gravity_force(3, j, &mut direct, &bodies, num(1.0));
    }
    assert!(direct[3] != [num(0.0), num(0.0)]);
}

#[test]
fn head_on_collision_swaps_velocities() {
    let mut bodies = vec![make(-0.5, 0.0, 1.0, 0.0, 1.0, 0.5), make(0.5, 0.0, -1.0, 0.0, 1.0, 0.5)];
    let tree = tree_over(&bodies, 32);
    let before = bodies[0].kinectic_energy().add(bodies[1].kinectic_energy());
    compute_collisions(&mut bodies, &tree);
    assert_eq!(bodies[0].velocity, [num(-1.0), num(0.0)]);
    assert_eq!(bodies[1].velocity, [num(1.0), num(0.0)]);
    assert_eq!(bodies[0].position, [num(-0.5), num(0.0)]);
    assert_eq!(bodies[1].position, [num(0.5), num(0.0)]);
    let after = bodies[0].kinectic_energy().add(bodies[1].kinectic_energy());
    assert_eq!(before, after);
    assert_eq!(bodies[1].position[0].sub(bodies[0].position[0]), num(1.0));
    assert_eq!(bodies[0].color, [1, 2, 3, 4]);
    assert_eq!(bodies[0].mass, num(1.0));
    assert_eq!(bodies[0].radius, num(0.5));
}

#[test]
fn overlapping_bodies_are_moved_to_touch() {
    let mut bodies = vec![make(0.0, 0.0, 1.0, 0.0, 1.0, 0.5), make(0.6, 0.0, -1.0, 0.0, 3.0, 0.5)];
    let tree = tree_over(&bodies, 32);
    compute_collisions(&mut bodies, &tree);
    // the second body is placed at distance 1 from the first, which stays
    assert_eq!(bodies[0].position, [num(0.0), num(0.0)]);
    assert_eq!(bodies[1].position, [num(1.0), num(0.0)]);
    // J = 2 * (-2) / 4 = -1: v_0 = 1 - 3 = -2, v_1 = -1 + 1 = 0
    assert_eq!(bodies[0].velocity, [num(-2.0), num(0.0)]);
    // the second body is at rest, so its velocity is not scaled
    assert_eq!(bodies[1].velocity, [num(0.0), num(0.0)]);
}

#[test]
fn unequal_masses_keep_kinetic_energy() {
    let mut bodies = vec![make(0.0, 0.0, 2.0, 0.0, 1.0, 0.5), make(1.0, 0.0, -1.0, 0.0, 2.0, 0.5)];
    let tree = tree_over(&bodies, 32);
    let before = bodies[0].kinectic_energy().add(bodies[1].kinectic_energy());
    assert_eq!(before, num(3.0));
    compute_collisions(&mut bodies, &tree);
    // J = 2 * (-3) / 3 = -2: v_0 = 2 - 4 = -2, v_1 = -1 + 2 = 1
    assert_eq!(bodies[0].velocity, [num(-2.0), num(0.0)]);
    assert_eq!(bodies[1].velocity, [num(1.0), num(0.0)]);
    let after = bodies[0].kinectic_energy().add(bodies[1].kinectic_energy());
    assert_eq!(after, num(3.0));
}

#[test]
fn separating_bodies_only_get_moved() {
    let mut bodies = vec![make(0.0, 0.0, -1.0, 0.0, 1.0, 0.5), make(0.5, 0.0, 1.0, 0.0, 1.0, 0.5)];
    let tree = tree_over(&bodies, 32);
    compute_collisions(&mut bodies, &tree);
    assert_eq!(bodies[1].position, [num(1.0), num(0.0)]);
    assert_eq!(bodies[0].velocity, [num(-1.0), num(0.0)]);
    assert_eq!(bodies[1].velocity, [num(1.0), num(0.0)]);
}

#[test]
fn distant_bodies_do_not_collide() {
    let mut bodies = vec![make(0.0, 0.0, 1.0, 0.0, 1.0, 0.5), make(1.5, 0.0, -1.0, 0.0, 1.0, 0.5)];
    let tree = tree_over(&bodies, 32);
    compute_collisions(&mut bodies, &tree);
    assert_eq!(bodies[0].position, [num(0.0), num(0.0)]);
    assert_eq!(bodies[1].position, [num(1.5), num(0.0)]);
    assert_eq!(bodies[0].velocity, [num(1.0), num(0.0)]);
    assert_eq!(bodies[1].velocity, [num(-1.0), num(0.0)]);
}

#[test]
fn coincident_bodies_are_left_alone() {
    let mut bodies = vec![make(1.0, 1.0, 1.0, 0.0, 1.0, 0.5), make(1.0, 1.0, -1.0, 0.0, 1.0, 0.5)];
    let tree = tree_over(&bodies, 32);
    compute_collisions(&mut bodies, &tree);
    assert_eq!(bodies[0].position, [num(1.0), num(1.0)]);
    assert_eq!(bodies[1].position, [num(1.0), num(1.0)]);
    assert_eq!(bodies[0].velocity, [num(1.0), num(0.0)]);
    assert_eq!(bodies[1].velocity, [num(-1.0), num(0.0)]);
}

#[test]
fn a_body_collides_at_most_once_per_step() {
    // the middle body touches both neighbours; it comes first and takes the
    // first of them
    let mut bodies = vec![
        make(0.0, 0.0, 0.0, 0.0, 1.0, 0.5),
        make(-1.0, 0.0, 1.0, 0.0, 1.0, 0.5),
        make(1.0, 0.0, -1.0, 0.0, 1.0, 0.5),
    ];
    let tree = tree_over(&bodies, 32);
    compute_collisions(&mut bodies, &tree);
    // bodies 0 and 1 exchange velocities
    assert_eq!(bodies[0].velocity, [num(1.0), num(0.0)]);
    assert_eq!(bodies[1].velocity, [num(0.0), num(0.0)]);
    // body 2 finds body 0 taken and stays as it is
    assert_eq!(bodies[2].velocity, [num(-1.0), num(0.0)]);
    assert_eq!(bodies[2].position, [num(1.0), num(0.0)]);
}

#[test]
fn oblique_collision_keeps_energy_and_contact_distance() {
    let mut bodies = vec![make(0.0, 0.0, 1.0, 0.5, 2.0, 0.5), make(0.6, 0.3, -1.0, 0.0, 3.0, 0.4)];
    let tree = tree_over(&bodies, 32);
    let before = bodies[0].kinectic_energy().add(bodies[1].kinectic_energy());
    assert_eq!(before, num(2.75));
    compute_collisions(&mut bodies, &tree);
    assert_eq!(bodies[0].position, [num(0.0), num(0.0)]);
    assert_eq!(bodies[0].velocity, [Fixed::from_raw(-1_159_999_997), Fixed::from_raw(-579_999_997)]);
    assert_eq!(bodies[1].position, [Fixed::from_raw(804_984_471), Fixed::from_raw(402_492_235)]);
    assert_eq!(bodies[1].velocity, [Fixed::from_raw(440_000_001), Fixed::from_raw(720_000_003)]);
    let after = bodies[0].kinectic_energy().add(bodies[1].kinectic_energy());
    let drift = (after.raw() - before.raw()).abs() as f64 / before.raw() as f64;
    assert!(drift <= 1e-8);
    let dx = bodies[1].position[0].sub(bodies[0].position[0]).raw() as f64 / 1e9;
    let dy = bodies[1].position[1].sub(bodies[0].position[1]).raw() as f64 / 1e9;
    assert!(((dx * dx + dy * dy).sqrt() - 0.9).abs() <= 1e-8);
}
