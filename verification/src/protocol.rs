//! The messages that clients and the server exchange, and what a client
//! message does to the simulation.
use vstd::prelude::*;
use crate::fixed::Fixed;
use crate::physics::Body;
use crate::quadtree::model::Tree;
use crate::simulation::{planted, unit_square, Simulation};

verus! {

/// What a client asks of the server.
#[derive(Debug)]
pub enum ClientToServerMessage {
    /// Send me the state from now on.
    Subscribe,
    /// Add these bodies to the simulation.
    AddBodies(Vec<Body>),
    /// Send me the state once.
    State,
    /// Remove all bodies and start again at time zero.
    Reset,
}

/// What the server tells a client.
#[derive(Debug)]
pub enum ServerToClientMessage {
    /// The bodies, the physical time in seconds, and the kinetic energy.
    StateUpdate { bodies: Vec<Body>, physical_time: Fixed, kinetic_energy: Fixed },
}

/// What is left for the transport to do once a client message has been
/// handled.
#[derive(Debug)]
pub enum Reply {
    /// Nothing.
    Nothing,
    /// Enter the client among the subscribers.
    Subscribe,
    /// Send the message to the client.
    Send(ServerToClientMessage),
}

/// The state of a simulation as a message.
pub open spec fn spec_gather_state(simulation: Simulation, message: ServerToClientMessage) -> bool {
    match message {
        ServerToClientMessage::StateUpdate { bodies, physical_time, kinetic_energy } => {
            &&& bodies@ == simulation.spec_bodies()
            &&& physical_time == simulation.spec_time()
            &&& kinetic_energy == simulation.spec_kinetic_energy()
        },
    }
}

/// The state of the simulation as a message: all bodies in order, the
/// physical time and the kinetic energy.
pub fn gather_state(simulation: &Simulation) -> (r: ServerToClientMessage)
    ensures
        spec_gather_state(*simulation, r),
{
    let nbodies: usize = simulation.get_number_of_bodies();
    let mut bodies: Vec<Body> = Vec::new();
    let mut i: usize = 0;
    while i < nbodies
        invariant
            0 <= i <= nbodies,
            nbodies == simulation.spec_bodies().len(),
            bodies@ == simulation.spec_bodies().take(i as int),
        decreases nbodies - i,
    {
        bodies.push(simulation.get_body(i));
        proof {
            assert(simulation.spec_bodies().take(i as int + 1) == simulation.spec_bodies().take(
                i as int,
            ).push(simulation.spec_bodies()[i as int]));
        }
        i += 1;
    }
    proof {
        assert(simulation.spec_bodies().take(nbodies as int) == simulation.spec_bodies());
    }
    ServerToClientMessage::StateUpdate {
        bodies,
        physical_time: simulation.get_physical_time(),
        kinetic_energy: simulation.get_kinetic_energy(),
    }
}

/// Handles a client message. `Subscribe` and `State` leave the simulation as
/// it is; the one asks the transport to enter the client among the
/// subscribers, the other to send it the state. `AddBodies` appends the
/// bodies and rebuilds the quadtree; `Reset` empties the simulation.
pub fn handle_client_to_server_messages(
    msg: ClientToServerMessage,
    simulation: &mut Simulation,
) -> (r: Reply)
    requires
        old(simulation).wf(),
    ensures
        final(simulation).wf(),
        final(simulation).spec_parameters() == old(simulation).spec_parameters(),
        match msg {
            ClientToServerMessage::Subscribe => {
                &&& r is Subscribe
                &&& *final(simulation) == *old(simulation)
            },
            ClientToServerMessage::AddBodies(bodies) => {
                &&& r is Nothing
                &&& final(simulation).spec_bodies() == old(simulation).spec_bodies() + bodies@
                &&& final(simulation).spec_forces() == old(simulation).spec_forces() + Seq::new(
                    bodies.len() as nat,
                    |k: int| [Fixed::of(0), Fixed::of(0)],
                )
                &&& final(simulation).spec_tree() == planted(
                    final(simulation).spec_bodies(),
                    old(simulation).spec_parameters().solver.quadtree_capacity,
                )
                &&& final(simulation).spec_time() == old(simulation).spec_time()
                &&& final(simulation).spec_kinetic_energy() == old(
                    simulation,
                ).spec_kinetic_energy()
            },
            ClientToServerMessage::State => {
                &&& r matches Reply::Send(message)
                &&& spec_gather_state(*old(simulation), message)
                &&& *final(simulation) == *old(simulation)
            },
            ClientToServerMessage::Reset => {
                &&& r is Nothing
                &&& final(simulation).spec_bodies().len() == 0
                &&& final(simulation).spec_forces().len() == 0
                &&& final(simulation).spec_time()@ == 0
                &&& final(simulation).spec_kinetic_energy()@ == 0
                &&& final(simulation).spec_tree() == (Tree::Leaf {
                    boundary: unit_square(),
                    mass: 0,
                    indices: Seq::empty(),
                })
            },
        },
{
    match msg {
        ClientToServerMessage::Subscribe => Reply::Subscribe,
        ClientToServerMessage::AddBodies(bodies) => {
            simulation.add_bodies(bodies);
            Reply::Nothing
        },
        ClientToServerMessage::State => Reply::Send(gather_state(simulation)),
        ClientToServerMessage::Reset => {
            simulation.reset();
            Reply::Nothing
        },
    }
}

} // verus!
