//! Decision logic of a small evolutionary boids simulation.
//!
//! Boids wander in a bounded world, eat apples and poison, and breed.
//! The geometry and physics run on floating point and stay with the
//! application; this library holds the discrete decisions that drive them:
//! what a boid eats and steers toward, how the food list shrinks, which
//! wall pushes a boid back, and how one frame walks the population.
pub mod eat;
pub mod food;
pub mod sweep;
pub mod walls;

pub use eat::{key_less, plan_eat, remove_eaten, EatPlan, FoodSighting};
pub use food::Food;
pub use sweep::{Sweep, SweepModel, SweepStep};
pub use walls::{axis_push, boundary_push};
