//! Ball and robot dynamics from recorded games: which samples belong together and
//! what they are evidence of.
pub mod stats;
pub mod load;
pub mod track;
pub mod kicks;
pub mod chips;
pub mod collisions;
pub mod dribble;
pub mod robots;
pub mod rolling;
