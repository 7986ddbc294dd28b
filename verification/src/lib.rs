//! Verified logic of a RoboCup SSL simulator's outer layers: the network
//! protocol handling, the log analysis tool and the viewer.
//!
//! The physics core, sockets, files, windows and floating-point arithmetic are
//! outside; they hand plain values in and take plain values back. A
//! floating-point number that the logic carries or compares is a
//! [`double::Double`].
use vstd::prelude::*;

pub mod double;
pub mod logtool;
pub mod names;
pub mod net;
pub mod sort;
pub mod table;
pub mod text;
pub mod viewer;

verus! {

} // verus!
