//! Choices made while drawing; the drawing itself is elsewhere.
use vstd::prelude::*;

verus! {

/// How many colours the per-camera markers have.
pub const CAMERA_COLORS: u32 = 6;

/// Which colour of the palette the marker of `camera_id` has.
pub fn camera_color(camera_id: u32) -> (res: u32)
    ensures
        res == camera_id % CAMERA_COLORS,
        res < CAMERA_COLORS,
{
    camera_id % CAMERA_COLORS
}

/// What to draw on top of the raw detections.
#[derive(Clone, Copy, Debug, PartialEq, Eq)]
pub struct DrawOptions {
    /// Draw a colour-coded dot per detection showing the reporting camera.
    pub show_camera_ids: bool,
    /// Robot highlighted by the mouse, if any: whether it is blue, and its id.
    pub selected: Option<(bool, u32)>,
}

impl DrawOptions {
    /// Whether a detected robot is the highlighted one; a robot without an id has
    /// the largest one.
    pub fn highlights(&self, is_blue: bool, robot_id: Option<u32>) -> (res: bool)
        ensures
            res == (self.selected == Some(
                (
                    is_blue,
                    match robot_id {
                        Some(id) => id,
                        None => u32::MAX,
                    },
                ),
            )),
    {
        match self.selected {
            Some((blue, id)) => blue == is_blue && id == robot_id.unwrap_or(u32::MAX),
            None => false,
        }
    }
}

/// The wished number of line segments, kept between two bounds.
pub fn segments(wished: usize, least: usize, most: usize) -> (res: usize)
    requires
        least <= most,
    ensures
        least <= res <= most,
        least <= wished <= most ==> res == wished,
        wished < least ==> res == least,
        wished > most ==> res == most,
{
    if wished < least {
        least
    } else if wished > most {
        most
    } else {
        wished
    }
}

/// There are six colours.
pub proof fn law_colors()
    ensures
        CAMERA_COLORS == 6,
{
}

} // verus!
