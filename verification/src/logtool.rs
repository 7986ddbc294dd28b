//! Log analysis: reading recorded games and the decisions of each analysis.

pub mod coverage;
pub mod dynamics;
pub mod frames;
pub mod inventory;
pub mod noise;
pub mod reader;
pub mod select;
pub mod sources;
pub mod stats;
pub mod visibility;
pub mod windows;
