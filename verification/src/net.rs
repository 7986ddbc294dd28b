//! The simulator's network side: what a datagram means, what is asked of the
//! world for it and what is answered.
//!
//! ```text
//! control 10300  SimulatorCommand      -> SimulatorResponse
//!                SimulationSyncRequest -> SimulationSyncResponse
//! blue    10301  RobotControl          -> RobotControlResponse
//! yellow  10302  (and sync requests carrying robot_control for that team)
//! legacy  20011  grSim_Packet          -> Robots_Status to 30011 / 30012
//! ```

pub mod control;
pub mod convert;
pub mod endpoints;
pub mod geometry;
pub mod legacy;
pub mod packets;
pub mod robot_control;
pub mod runner;
pub mod sim;
pub mod sync;
pub mod vision;
pub mod wire;
pub mod world;
