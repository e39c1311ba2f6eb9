//! A flocking simulation: agents steer by separation, alignment and cohesion
//! against one consistent neighbour snapshot per tick, in a population bounded
//! by a capacity with an explicit eviction policy. All quantities are
//! fixed-point integers: `SCALE` steps make one unit.

pub mod bird;
pub mod bird_config;
pub mod flock;
pub mod rng;
pub mod spatial;
pub mod sums;
pub mod vector;

pub use bird::Bird;
pub use bird_config::BirdConfig;
pub use flock::{EvictionPolicy, Flock, FlockError};
pub use spatial::SpatialIndex;
pub use vector::{clamp_magnitude, Vec2, SCALE};
