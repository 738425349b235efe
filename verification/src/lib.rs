//! Local collision-avoidance core for a multi-agent crowd simulation.
//!
//! Given a per-tick snapshot of agent positions, velocities and radii, the
//! library computes for each managed agent a collision-free steering velocity:
//! it partitions the snapshot into spatial buckets, queries neighbors, derives
//! a goal-seeking preferred velocity, clips it against velocity-obstacle
//! half-plane constraints, adds a penetration-resolving separation impulse,
//! and integrates the result under an acceleration limit.
//!
//! All geometry is planar and carried in fixed-point milli-units: a world
//! coordinate of `1.0` is the integer `1000`. Time is carried in whole
//! milliseconds. This keeps every quantity an integer, so each step of the
//! pipeline has an exact arithmetic contract.

pub mod math;
pub mod vec2;
pub mod grid;
pub mod orca;
pub mod steer;
