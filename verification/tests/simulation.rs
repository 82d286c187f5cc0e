use nbody::fixed::Fixed;
use nbody::physics::Body;
use nbody::simulation::{PhyiscsParameters, Simulation, SimulationParameters, SolverParameters};

fn val(x: f64) -> Fixed {
    Fixed::from_raw((x * 1e9).round() as i64)
}

fn body(x: f64, y: f64, vx: f64, vy: f64, mass: f64, radius: f64) -> Body {
    Body {
        position: [val(x), val(y)],
        velocity: [val(vx), val(vy)],
        mass: val(mass),
        radius: val(radius),
        color: [9, 8, 7, 6],
    }
}

fn simulation(dt: f64, theta: f64, g: f64) -> Simulation {
    let mut simulation = Simulation::new();
    simulation.set_solver_parameters(SolverParameters {
        dt: val(dt),
        barnes_hut_theta: val(theta),
        quadtree_capacity: 32,
    });
    simulation.set_physics_parameters(PhyiscsParameters { gravity_constant: val(g) });
    simulation
}

#[test]
fn default_parameters() {
    let parameters = SimulationParameters::default();
    assert_eq!(parameters.solver.dt, val(0.01));
    assert_eq!(parameters.solver.barnes_hut_theta, val(0.0));
    assert_eq!(parameters.solver.quadtree_capacity, 32);
    assert_eq!(parameters.physics.gravity_constant, val(100.0));
    assert_eq!(SolverParameters::default().dt, val(0.01));
    assert_eq!(PhyiscsParameters::default().gravity_constant, val(100.0));
}

#[test]
fn new_simulation_is_empty() {
    let simulation = Simulation::new();
    assert_eq!(simulation.get_number_of_bodies(), 0);
    assert_eq!(simulation.get_physical_time(), val(0.0));
    assert_eq!(simulation.get_kinetic_energy(), val(0.0));
    let simulation = Simulation::default();
    assert_eq!(simulation.get_number_of_bodies(), 0);
}

#[test]
fn bodies_are_appended_in_order() {
    let mut simulation = Simulation::new();
    simulation.add_body(body(1.0, 2.0, 0.0, 0.0, 1.0, 0.1));
    simulation.add_bodies(vec![
        body(3.0, 4.0, 0.0, 0.0, 2.0, 0.1),
        body(5.0, 6.0, 0.0, 0.0, 3.0, 0.1),
    ]);
    assert_eq!(simulation.get_number_of_bodies(), 3);
    assert_eq!(simulation.get_x_position(0), val(1.0));
    assert_eq!(simulation.get_y_position(0), val(2.0));
    assert_eq!(simulation.get_x_position(2), val(5.0));
    assert_eq!(simulation.get_y_position(2), val(6.0));
    assert_eq!(simulation.get_body(1).mass, val(2.0));
    assert_eq!(simulation.get_body(1).color, [9, 8, 7, 6]);
    assert_eq!(simulation.get_physical_time(), val(0.0));
}

#[test]
fn free_body_stays_at_rest() {
    let mut simulation = simulation(0.01, 0.0, 100.0);
    simulation.add_body(body(0.0, 0.0, 0.0, 0.0, 1.0, 1.0));
    for _ in 0..10 {
        simulation.step();
    }
    let body = simulation.get_body(0);
    assert_eq!(body.position, [val(0.0), val(0.0)]);
    assert_eq!(body.velocity, [val(0.0), val(0.0)]);
    assert_eq!(simulation.get_kinetic_energy(), val(0.0));
    assert_eq!(simulation.get_physical_time(), val(0.1));
}

#[test]
fn free_body_moves_in_a_straight_line() {
    let mut simulation = simulation(0.01, 0.0, 100.0);
    simulation.add_body(body(1.0, -1.0, 2.0, 3.0, 4.0, 1.0));
    for _ in 0..100 {
        simulation.step();
    }
    let body = simulation.get_body(0);
    assert_eq!(body.position, [val(3.0), val(2.0)]);
    assert_eq!(body.velocity, [val(2.0), val(3.0)]);
    // 1/2 * 4 * (4 + 9)
    assert_eq!(simulation.get_kinetic_energy(), val(26.0));
    assert_eq!(simulation.get_physical_time(), val(1.0));
}

#[test]
fn two_bodies_attract_each_other() {
    let mut simulation = simulation(0.001, 0.0, 1.0);
    simulation.add_body(body(-1.0, 0.0, 0.0, 0.0, 1.0, 0.01));
    simulation.add_body(body(1.0, 0.0, 0.0, 0.0, 1.0, 0.01));
    simulation.step();
    let a = simulation.get_body(0);
    let b = simulation.get_body(1);
    assert!(a.position[0].gt(val(-1.0)));
    assert!(b.position[0].lt(val(1.0)));
    assert_eq!(a.position[0].sub(val(-1.0)), val(1.0).sub(b.position[0]));
    // F = 1/4, v = F / m * dt, x = v * dt
    assert_eq!(a.velocity, [val(0.00025), val(0.0)]);
    assert_eq!(b.velocity, [val(-0.00025), val(0.0)]);
    assert_eq!(a.position, [val(-0.99999975), val(0.0)]);
    assert_eq!(b.position, [val(0.99999975), val(0.0)]);
    assert_eq!(simulation.get_physical_time(), val(0.001));
}

#[test]
fn head_on_elastic_collision() {
    let mut simulation = simulation(0.01, 0.0, 0.0);
    simulation.add_body(body(-1.0, 0.0, 1.0, 0.0, 1.0, 0.5));
    simulation.add_body(body(1.0, 0.0, -1.0, 0.0, 1.0, 0.5));
    let mut steps = 0;
    while simulation.get_body(0).velocity[0].gt(val(0.0)) {
        assert_eq!(simulation.get_body(0).velocity, [val(1.0), val(0.0)]);
        assert_eq!(simulation.get_body(1).velocity, [val(-1.0), val(0.0)]);
        simulation.step();
        steps += 1;
        assert!(steps < 1000);
    }
    // contact is found when the bodies are one apart, in the 51st step
    assert_eq!(steps, 51);
    let a = simulation.get_body(0);
    let b = simulation.get_body(1);
    assert_eq!(a.velocity, [val(-1.0), val(0.0)]);
    assert_eq!(b.velocity, [val(1.0), val(0.0)]);
    assert_eq!(simulation.get_kinetic_energy(), val(1.0));
    // they touched at distance 1 and have moved apart for one step since
    assert_eq!(b.position[0].sub(a.position[0]), val(1.02));
    assert_eq!(a.position, [val(-0.51), val(0.0)]);
}

#[test]
fn reset_empties_the_simulation() {
    let mut simulation = simulation(0.01, 0.0, 1.0);
    simulation.add_body(body(-1.0, 0.0, 1.0, 0.0, 1.0, 0.1));
    simulation.add_body(body(1.0, 0.0, 0.0, 2.0, 1.0, 0.1));
    simulation.step();
    simulation.step();
    assert_eq!(simulation.get_physical_time(), val(0.02));
    assert!(simulation.get_kinetic_energy().gt(val(0.0)));
    simulation.reset();
    assert_eq!(simulation.get_number_of_bodies(), 0);
    assert_eq!(simulation.get_physical_time(), val(0.0));
    assert_eq!(simulation.get_kinetic_energy(), val(0.0));
    simulation.reset();
    assert_eq!(simulation.get_number_of_bodies(), 0);
    assert_eq!(simulation.get_physical_time(), val(0.0));
    assert_eq!(simulation.get_kinetic_energy(), val(0.0));
    // the simulation goes on after a reset
    simulation.add_body(body(0.0, 0.0, 1.0, 0.0, 2.0, 0.1));
    simulation.step();
    assert_eq!(simulation.get_x_position(0), val(0.01));
    assert_eq!(simulation.get_kinetic_energy(), val(1.0));
}

#[test]
fn step_without_bodies_advances_time() {
    let mut simulation = simulation(0.5, 0.0, 1.0);
    simulation.step();
    simulation.step();
    assert_eq!(simulation.get_number_of_bodies(), 0);
    assert_eq!(simulation.get_physical_time(), val(1.0));
    assert_eq!(simulation.get_kinetic_energy(), val(0.0));
}

#[test]
fn small_leaf_capacity_gives_the_same_forces_at_zero_angle() {
    let mut coarse = simulation(0.01, 0.0, 10.0);
    let mut fine = simulation(0.01, 0.0, 10.0);
    fine.set_solver_parameters(SolverParameters {
        dt: val(0.01),
        barnes_hut_theta: val(0.0),
        quadtree_capacity: 1,
    });
    let bodies = vec![
        body(-3.0, 1.0, 0.0, 0.0, 1.0, 0.01),
        body(2.0, 2.5, 0.0, 0.0, 2.0, 0.01),
        body(1.0, -4.0, 0.0, 0.0, 3.0, 0.01),
        body(-1.5, -2.0, 0.0, 0.0, 4.0, 0.01),
        body(4.0, 0.5, 0.0, 0.0, 5.0, 0.01),
    ];
    coarse.add_bodies(bodies.clone());
    fine.add_bodies(bodies);
    coarse.step();
    fine.step();
    for i in 0..5 {
        assert_eq!(coarse.get_body(i).velocity, fine.get_body(i).velocity);
        assert_eq!(coarse.get_body(i).position, fine.get_body(i).position);
        assert!(coarse.get_body(i).velocity != [val(0.0), val(0.0)]);
    }
    assert_eq!(coarse.get_kinetic_energy(), fine.get_kinetic_energy());
}
