//! A flocking engine on fixed-point numbers.
//!
//! A flock is a list of agents, each with a position, a velocity, an
//! acceleration and a heading. Five behaviors (seeking the pointer,
//! separation, alignment, cohesion, and avoiding the border of the world)
//! look at the flock and ask for agents to be steered toward points. Each
//! request is turned into a force of bounded length, the forces on an agent
//! add up in its acceleration, and an integrator carries the acceleration
//! into velocity and position. One call of [`simulation::step`] does all of
//! that once.
//!
//! All quantities are whole numbers of millionths. Sums and differences are
//! therefore exact, and the same flock stepped twice gives the same flock
//! twice. A value kept in an agent's state stops at the edge of the range, a
//! million world units from zero; as long as no sum of forces reaches that
//! edge, the result does not depend on the order in which the forces are
//! added. Quotients are rounded toward zero, each by less than one raw unit;
//! the contracts say so to the last unit.
//!
//! - [`fixed`]: fixed-point scalars.
//! - [`vec2`]: plane vectors.
//! - [`agent`]: the state of an agent and of a flock.
//! - [`config`]: the tunable parameters.
//! - [`behaviors`]: the five behaviors and their requests.
//! - [`steering`]: from requests to forces, and from forces to acceleration.
//! - [`physics`]: the integrator.
//! - [`simulation`]: one tick.
//! - [`spawn`]: a flock scattered at random.
//! - [`laws`]: what holds of the engine as a whole.

pub mod agent;
pub mod behaviors;
pub mod config;
pub mod fixed;
pub mod laws;
pub mod physics;
pub mod simulation;
pub mod spawn;
pub mod steering;
pub mod vec2;
