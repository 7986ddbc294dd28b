//! The viewer: what was received, what the mouse does and what is drawn.

pub mod app;
pub mod state;
pub mod view;
