//! Field geometry, camera rig and ground truth between the wire and the world.
//!
//! Unit conversion is done outside: lengths of the field description arrive in
//! metres, camera positions leave in millimetres.
use vstd::prelude::*;

use crate::double::Double;
use crate::net::world::{Vec2, Vec3};
use crate::text;

verus! {

// ---------------------------------------------------------------- field, wire to world

/// The parts of the field that a geometry packet can set, in metres.
#[derive(Clone, Copy, Debug, PartialEq, Eq, Structural)]
pub struct FieldGeometry {
    /// Length between the goal lines.
    pub length: Double,
    /// Width between the touch lines.
    pub width: Double,
    /// Width of a goal.
    pub goal_width: Double,
    /// Depth of a goal.
    pub goal_depth: Double,
    /// Height of a goal; never on the wire.
    pub goal_height: Double,
    /// Run-off around the field.
    pub boundary_width: Double,
    /// Depth of a penalty area.
    pub penalty_area_depth: Double,
    /// Width of a penalty area.
    pub penalty_area_width: Double,
    /// Thickness of the lines.
    pub line_thickness: Double,
    /// Radius of the centre circle.
    pub center_circle_radius: Double,
}

/// The penalty area that a line closes, if the line is the one looked for.
#[derive(Clone, Copy, Debug, PartialEq, Eq, Structural)]
pub struct Extent {
    /// Depth of the area.
    pub depth: Double,
    /// Width of the area.
    pub width: Double,
}

/// A line of the field description.
#[derive(Clone, Debug, PartialEq, Eq)]
pub struct LineSegment {
    /// Name.
    pub name: String,
    /// Thickness.
    pub thickness: Double,
    /// The area that it closes as a line parallel to the goal line: the distance
    /// from the goal line and the length of the line.
    pub parallel: Extent,
    /// The area that it bounds as a line from the goal line inward: the length of
    /// the line and twice its distance from the field's axis.
    pub inward: Extent,
}

/// An arc of the field description.
#[derive(Clone, Debug, PartialEq, Eq)]
pub struct CircularArc {
    /// Name.
    pub name: String,
    /// Radius.
    pub radius: Double,
}

/// A field description of a geometry packet.
#[derive(Clone, Debug, PartialEq, Eq)]
pub struct FieldSize {
    /// Length between the goal lines.
    pub field_length: Double,
    /// Width between the touch lines.
    pub field_width: Double,
    /// Width of a goal.
    pub goal_width: Double,
    /// Depth of a goal.
    pub goal_depth: Double,
    /// Run-off around the field.
    pub boundary_width: Double,
    /// Lines.
    pub field_lines: Vec<LineSegment>,
    /// Arcs.
    pub field_arcs: Vec<CircularArc>,
    /// Depth of a penalty area.
    pub penalty_area_depth: Option<Double>,
    /// Width of a penalty area.
    pub penalty_area_width: Option<Double>,
}

/// `i` is the first line with this name.
pub open spec fn is_first_line(lines: Seq<LineSegment>, name: Seq<char>, i: int) -> bool {
    &&& 0 <= i < lines.len()
    &&& lines[i].name@ == name
    &&& forall|j: int| 0 <= j < i ==> (#[trigger] lines[j]).name@ != name
}

/// Whether there is a line with this name.
pub open spec fn has_line(lines: Seq<LineSegment>, name: Seq<char>) -> bool {
    exists|i: int| is_first_line(lines, name, i)
}

/// The first line with this name.
pub open spec fn first_line(lines: Seq<LineSegment>, name: Seq<char>) -> LineSegment {
    lines[choose|i: int| is_first_line(lines, name, i)]
}

/// `i` is the first arc with this name.
pub open spec fn is_first_arc(arcs: Seq<CircularArc>, name: Seq<char>, i: int) -> bool {
    &&& 0 <= i < arcs.len()
    &&& arcs[i].name@ == name
    &&& forall|j: int| 0 <= j < i ==> (#[trigger] arcs[j]).name@ != name
}

/// The value when it is greater than zero, else the other.
pub open spec fn positive_or(v: Double, other: Double) -> Double {
    if Double::zero().lt(v) {
        v
    } else {
        other
    }
}

/// The penalty area that a description gives: the explicit one when both of its
/// sides are there; else that of the `LeftPenaltyStretch` line; else that of the
/// `LeftFieldLeftPenaltyStretch` line; else the current one. A side that a line
/// does not give as a positive number stays.
pub open spec fn penalty_area(current: Extent, g: FieldSize) -> Extent {
    let lines = g.field_lines@;
    match (g.penalty_area_depth, g.penalty_area_width) {
        (Some(depth), Some(width)) => Extent { depth, width },
        _ => if has_line(lines, "LeftPenaltyStretch"@) {
            let e = first_line(lines, "LeftPenaltyStretch"@).parallel;
            Extent {
                depth: positive_or(e.depth, current.depth),
                width: positive_or(e.width, current.width),
            }
        } else if has_line(lines, "LeftFieldLeftPenaltyStretch"@) {
            let e = first_line(lines, "LeftFieldLeftPenaltyStretch"@).inward;
            Extent {
                depth: positive_or(e.depth, current.depth),
                width: positive_or(e.width, current.width),
            }
        } else {
            current
        },
    }
}

/// `t` is the least positive line thickness.
pub open spec fn least_thickness(lines: Seq<LineSegment>, t: Double) -> bool {
    &&& exists|i: int| 0 <= i < lines.len() && (#[trigger] lines[i]).thickness == t
    &&& Double::zero().lt(t)
    &&& forall|i: int|
        0 <= i < lines.len() && Double::zero().lt((#[trigger] lines[i]).thickness) ==> t.le(
            lines[i].thickness,
        )
}

/// Whether any line has a positive thickness.
pub open spec fn has_thickness(lines: Seq<LineSegment>) -> bool {
    exists|i: int| 0 <= i < lines.len() && Double::zero().lt((#[trigger] lines[i]).thickness)
}

/// The first line with this name.
pub fn line_named<'a>(g: &'a FieldSize, name: &str) -> (res: Option<&'a LineSegment>)
    ensures
        match res {
            Some(l) => has_line(g.field_lines@, name@) && *l == first_line(g.field_lines@, name@),
            None => !has_line(g.field_lines@, name@),
        },
{
    let mut i: usize = 0;
    while i < g.field_lines.len()
        invariant
            i <= g.field_lines@.len(),
            forall|j: int| 0 <= j < i ==> (#[trigger] g.field_lines@[j]).name@ != name@,
        decreases g.field_lines.len() - i,
    {
        if text::same(g.field_lines[i].name.as_str(), name) {
            assert(is_first_line(g.field_lines@, name@, i as int));
            assert forall|k: int| is_first_line(g.field_lines@, name@, k) implies k == i by {
                if k < i {
                    assert(g.field_lines@[k].name@ != name@);
                }
            }
            return Some(&g.field_lines[i]);
        }
        i += 1;
    }
    None
}

fn positive(v: Double, other: Double) -> (res: Double)
    ensures
        res == positive_or(v, other),
{
    if v.is_positive() {
        v
    } else {
        other
    }
}

/// The least positive thickness of the lines.
fn thinnest(lines: &Vec<LineSegment>) -> (res: Option<Double>)
    ensures
        match res {
            Some(t) => least_thickness(lines@, t),
            None => !has_thickness(lines@),
        },
{
    let mut best: Option<Double> = None;
    let mut i: usize = 0;
    while i < lines.len()
        invariant
            i <= lines@.len(),
            match best {
                Some(t) => {
                    &&& exists|j: int| 0 <= j < i && (#[trigger] lines@[j]).thickness == t
                    &&& Double::zero().lt(t)
                    &&& forall|j: int|
                        0 <= j < i && Double::zero().lt((#[trigger] lines@[j]).thickness) ==> t.le(
                            lines@[j].thickness,
                        )
                },
                None => forall|j: int|
                    0 <= j < i ==> !Double::zero().lt((#[trigger] lines@[j]).thickness),
            },
        decreases lines.len() - i,
    {
        let t = lines[i].thickness;
        if t.is_positive() {
            match best {
                Some(b) => {
                    if t.is_less(b) {
                        best = Some(t);
                    }
                },
                None => {
                    best = Some(t);
                },
            }
        }
        assert(lines@[i as int].thickness == t);
        i += 1;
    }
    best
}

/// The first arc with this name.
fn arc_named(arcs: &Vec<CircularArc>, name: &str) -> (res: Option<usize>)
    ensures
        match res {
            Some(i) => forall|k: int| is_first_arc(arcs@, name@, k) <==> k == i,
            None => forall|k: int| 0 <= k < arcs@.len() ==> (#[trigger] arcs@[k]).name@ != name@,
        },
        res matches Some(i) ==> is_first_arc(arcs@, name@, i as int),
{
    let mut i: usize = 0;
    while i < arcs.len()
        invariant
            i <= arcs@.len(),
            forall|j: int| 0 <= j < i ==> (#[trigger] arcs@[j]).name@ != name@,
        decreases arcs.len() - i,
    {
        if text::same(arcs[i].name.as_str(), name) {
            assert forall|k: int| is_first_arc(arcs@, name@, k) implies k == i by {
                if k < i {
                    assert(arcs@[k].name@ != name@);
                } else if k > i {
                    assert(arcs@[i as int].name@ != name@);
                }
            }
            return Some(i);
        }
        i += 1;
    }
    None
}

/// Merge a field description into the current field. Fields that are not on the
/// wire keep their value.
///
/// The penalty area is taken from `penalty_area_depth` / `penalty_area_width`
/// when present, else derived from the `LeftPenaltyStretch` /
/// `LeftFieldLeftPenaltyStretch` line segments, else left unchanged.
pub fn field_from_geometry(field: FieldGeometry, g: &FieldSize) -> (res: FieldGeometry)
    ensures
        res.length == g.field_length,
        res.width == g.field_width,
        res.goal_width == g.goal_width,
        res.goal_depth == g.goal_depth,
        res.goal_height == field.goal_height,
        res.boundary_width == g.boundary_width,
        ({
            let area = penalty_area(
                Extent { depth: field.penalty_area_depth, width: field.penalty_area_width },
                *g,
            );
            res.penalty_area_depth == area.depth && res.penalty_area_width == area.width
        }),
        has_thickness(g.field_lines@) ==> least_thickness(g.field_lines@, res.line_thickness),
        !has_thickness(g.field_lines@) ==> res.line_thickness == field.line_thickness,
        forall|i: int|
            is_first_arc(g.field_arcs@, "CenterCircle"@, i) ==> res.center_circle_radius
                == (#[trigger] g.field_arcs@[i]).radius,
        (forall|i: int|
            0 <= i < g.field_arcs@.len() ==> (#[trigger] g.field_arcs@[i]).name@
                != "CenterCircle"@) ==> res.center_circle_radius == field.center_circle_radius,
{
    let mut out = field;
    out.length = g.field_length;
    out.width = g.field_width;
    out.goal_width = g.goal_width;
    out.goal_depth = g.goal_depth;
    out.boundary_width = g.boundary_width;
    match (g.penalty_area_depth, g.penalty_area_width) {
        (Some(depth), Some(width)) => {
            out.penalty_area_depth = depth;
            out.penalty_area_width = width;
        },
        _ => {
            if let Some(l) = line_named(g, "LeftPenaltyStretch") {
                out.penalty_area_depth = positive(l.parallel.depth, out.penalty_area_depth);
                out.penalty_area_width = positive(l.parallel.width, out.penalty_area_width);
            } else if let Some(l) = line_named(g, "LeftFieldLeftPenaltyStretch") {
                out.penalty_area_depth = positive(l.inward.depth, out.penalty_area_depth);
                out.penalty_area_width = positive(l.inward.width, out.penalty_area_width);
            }
        },
    }
    if let Some(t) = thinnest(&g.field_lines) {
        out.line_thickness = t;
    }
    if let Some(i) = arc_named(&g.field_arcs, "CenterCircle") {
        out.center_circle_radius = g.field_arcs[i].radius;
    }
    out
}

// ---------------------------------------------------------------- cameras

/// A camera calibration of a geometry packet, as far as the rig is concerned:
/// the derived position in metres, each coordinate optional.
#[derive(Clone, Copy, Debug, PartialEq, Eq, Structural)]
pub struct CalibrationPosition {
    /// Camera.
    pub camera_id: u32,
    /// Along the field.
    pub x: Option<Double>,
    /// Across the field.
    pub y: Option<Double>,
    /// Upwards.
    pub z: Option<Double>,
}

/// A camera of the rig.
#[derive(Clone, Copy, Debug, PartialEq, Eq, Structural)]
pub struct CameraConfig {
    /// Camera.
    pub id: u32,
    /// Where it hangs.
    pub position: Vec3,
}

/// The camera that a calibration places, if its position is complete.
pub open spec fn camera_of(c: CalibrationPosition) -> Option<CameraConfig> {
    match (c.x, c.y, c.z) {
        (Some(x), Some(y), Some(z)) => Some(
            CameraConfig { id: c.camera_id, position: Vec3 { x, y, z } },
        ),
        _ => None,
    }
}

/// The cameras that a list of calibrations places, in order.
pub open spec fn cameras_of(calib: Seq<CalibrationPosition>) -> Seq<CameraConfig>
    decreases calib.len(),
{
    if calib.len() == 0 {
        seq![]
    } else {
        match camera_of(calib.last()) {
            Some(c) => cameras_of(calib.drop_last()).push(c),
            None => cameras_of(calib.drop_last()),
        }
    }
}

/// Camera rig from a geometry packet's calibrations: one camera per entry.
/// Entries without a derived position are skipped.
pub fn cameras_from_geometry(calib: &Vec<CalibrationPosition>) -> (res: Vec<CameraConfig>)
    ensures
        res@ == cameras_of(calib@),
{
    let mut out: Vec<CameraConfig> = Vec::new();
    let mut i: usize = 0;
    while i < calib.len()
        invariant
            i <= calib@.len(),
            out@ == cameras_of(calib@.take(i as int)),
        decreases calib.len() - i,
    {
        let c = calib[i];
        assert(calib@.take(i + 1).drop_last() =~= calib@.take(i as int));
        if let (Some(x), Some(y), Some(z)) = (c.x, c.y, c.z) {
            out.push(CameraConfig { id: c.camera_id, position: Vec3 { x, y, z } });
        }
        i += 1;
    }
    assert(calib@.take(i as int) =~= calib@);
    out
}

/// A rig position is only ever skipped because it is incomplete: a list of
/// complete calibrations gives one camera each, in order.
pub proof fn law_complete_calibrations_keep_every_camera(calib: Seq<CalibrationPosition>)
    requires
        forall|i: int| 0 <= i < calib.len() ==> camera_of(#[trigger] calib[i]) is Some,
    ensures
        cameras_of(calib).len() == calib.len(),
        forall|i: int|
            0 <= i < calib.len() ==> Some(#[trigger] cameras_of(calib)[i]) == camera_of(calib[i]),
    decreases calib.len(),
{
    if calib.len() > 0 {
        let rest = calib.drop_last();
        assert forall|i: int| 0 <= i < rest.len() implies camera_of(#[trigger] rest[i]) is Some by {
            assert(rest[i] == calib[i]);
        }
        law_complete_calibrations_keep_every_camera(rest);
        assert(camera_of(calib[calib.len() - 1]) is Some);
        assert forall|i: int| 0 <= i < calib.len() implies Some(#[trigger] cameras_of(calib)[i])
            == camera_of(calib[i]) by {
            if i < rest.len() {
                assert(cameras_of(rest)[i] == cameras_of(calib)[i]);
                assert(rest[i] == calib[i]);
            }
        }
    }
}

/// A camera of the world: its position in millimetres and its orientation as the
/// quaternion `(w, x, y, z)`.
#[derive(Clone, Copy, Debug, PartialEq, Eq, Structural)]
pub struct CameraCalibration {
    /// Camera.
    pub camera_id: u32,
    /// Position.
    pub position: Vec3,
    /// Focal length in pixels.
    pub focal_length: Double,
    /// Principal point in pixels.
    pub principal_point: Vec2,
    /// Radial distortion.
    pub distortion: Double,
    /// Scalar part of the orientation.
    pub qw: Double,
    /// First imaginary part of the orientation.
    pub qx: Double,
    /// Second imaginary part of the orientation.
    pub qy: Double,
    /// Third imaginary part of the orientation.
    pub qz: Double,
}

/// `SSL_GeometryCameraCalibration`.
#[derive(Clone, Copy, Debug, PartialEq, Eq, Structural)]
pub struct CalibrationMessage {
    /// Camera.
    pub camera_id: u32,
    /// Focal length.
    pub focal_length: Double,
    /// Principal point.
    pub principal_point_x: Double,
    /// Principal point.
    pub principal_point_y: Double,
    /// Radial distortion.
    pub distortion: Double,
    /// First imaginary part of the orientation.
    pub q0: Double,
    /// Second imaginary part of the orientation.
    pub q1: Double,
    /// Third imaginary part of the orientation.
    pub q2: Double,
    /// Scalar part of the orientation.
    pub q3: Double,
    /// Translation.
    pub tx: Double,
    /// Translation.
    pub ty: Double,
    /// Translation.
    pub tz: Double,
    /// Camera position.
    pub derived_camera_world_tx: Option<Double>,
    /// Camera position.
    pub derived_camera_world_ty: Option<Double>,
    /// Camera position.
    pub derived_camera_world_tz: Option<Double>,
}

/// Camera calibration for the geometry packet.
///
/// The extrinsics are self consistent for a camera looking straight down: the
/// world-to-camera rotation is a half turn about x, `R = diag(1, -1, -1)`, so
/// `t = -R * C = (-x, y, z)` for the camera position `C = (x, y, z)`. The wire's
/// `q0..q3` are `(x, y, z, w)`.
pub fn camera_calibration_to_proto(c: &CameraCalibration) -> (res: CalibrationMessage)
    ensures
        res == (CalibrationMessage {
            camera_id: c.camera_id,
            focal_length: c.focal_length,
            principal_point_x: c.principal_point.x,
            principal_point_y: c.principal_point.y,
            distortion: c.distortion,
            q0: c.qx,
            q1: c.qy,
            q2: c.qz,
            q3: c.qw,
            tx: c.position.x.negated(),
            ty: c.position.y,
            tz: c.position.z,
            derived_camera_world_tx: Some(c.position.x),
            derived_camera_world_ty: Some(c.position.y),
            derived_camera_world_tz: Some(c.position.z),
        }),
{
    CalibrationMessage {
        camera_id: c.camera_id,
        focal_length: c.focal_length,
        principal_point_x: c.principal_point.x,
        principal_point_y: c.principal_point.y,
        distortion: c.distortion,
        q0: c.qx,
        q1: c.qy,
        q2: c.qz,
        q3: c.qw,
        tx: c.position.x.negate(),
        ty: c.position.y,
        tz: c.position.z,
        derived_camera_world_tx: Some(c.position.x),
        derived_camera_world_ty: Some(c.position.y),
        derived_camera_world_tz: Some(c.position.z),
    }
}

// ---------------------------------------------------------------- line names

/// `SSL_FieldShapeType`: the lines and arcs that have a name of their own.
#[derive(Clone, Copy, Debug, PartialEq, Eq, Structural)]
pub enum FieldShape {
    /// No particular shape.
    Undefined,
    /// The centre circle.
    CenterCircle,
    /// Upper touch line.
    TopTouchLine,
    /// Lower touch line.
    BottomTouchLine,
    /// Left goal line.
    LeftGoalLine,
    /// Right goal line.
    RightGoalLine,
    /// Line between the halves.
    HalfwayLine,
    /// Line from goal to goal.
    CenterLine,
    /// Left penalty area, parallel to the goal line.
    LeftPenaltyStretch,
    /// Right penalty area, parallel to the goal line.
    RightPenaltyStretch,
    /// Left penalty area, left side.
    LeftFieldLeftPenaltyStretch,
    /// Left penalty area, right side.
    LeftFieldRightPenaltyStretch,
    /// Right penalty area, left side.
    RightFieldLeftPenaltyStretch,
    /// Right penalty area, right side.
    RightFieldRightPenaltyStretch,
}

impl FieldShape {
    /// The name on the wire.
    pub open spec fn name(self) -> Seq<char> {
        match self {
            FieldShape::Undefined => "Undefined"@,
            FieldShape::CenterCircle => "CenterCircle"@,
            FieldShape::TopTouchLine => "TopTouchLine"@,
            FieldShape::BottomTouchLine => "BottomTouchLine"@,
            FieldShape::LeftGoalLine => "LeftGoalLine"@,
            FieldShape::RightGoalLine => "RightGoalLine"@,
            FieldShape::HalfwayLine => "HalfwayLine"@,
            FieldShape::CenterLine => "CenterLine"@,
            FieldShape::LeftPenaltyStretch => "LeftPenaltyStretch"@,
            FieldShape::RightPenaltyStretch => "RightPenaltyStretch"@,
            FieldShape::LeftFieldLeftPenaltyStretch => "LeftFieldLeftPenaltyStretch"@,
            FieldShape::LeftFieldRightPenaltyStretch => "LeftFieldRightPenaltyStretch"@,
            FieldShape::RightFieldLeftPenaltyStretch => "RightFieldLeftPenaltyStretch"@,
            FieldShape::RightFieldRightPenaltyStretch => "RightFieldRightPenaltyStretch"@,
        }
    }

    /// The shape with this name.
    pub fn from_str_name(name: &str) -> (res: Option<FieldShape>)
        ensures
            match res {
                Some(s) => s.name() == name@,
                None => forall|s: FieldShape| s.name() != name@,
            },
    {
        if text::same(name, "Undefined") {
            Some(FieldShape::Undefined)
        } else if text::same(name, "CenterCircle") {
            Some(FieldShape::CenterCircle)
        } else if text::same(name, "TopTouchLine") {
            Some(FieldShape::TopTouchLine)
        } else if text::same(name, "BottomTouchLine") {
            Some(FieldShape::BottomTouchLine)
        } else if text::same(name, "LeftGoalLine") {
            Some(FieldShape::LeftGoalLine)
        } else if text::same(name, "RightGoalLine") {
            Some(FieldShape::RightGoalLine)
        } else if text::same(name, "HalfwayLine") {
            Some(FieldShape::HalfwayLine)
        } else if text::same(name, "CenterLine") {
            Some(FieldShape::CenterLine)
        } else if text::same(name, "LeftPenaltyStretch") {
            Some(FieldShape::LeftPenaltyStretch)
        } else if text::same(name, "RightPenaltyStretch") {
            Some(FieldShape::RightPenaltyStretch)
        } else if text::same(name, "LeftFieldLeftPenaltyStretch") {
            Some(FieldShape::LeftFieldLeftPenaltyStretch)
        } else if text::same(name, "LeftFieldRightPenaltyStretch") {
            Some(FieldShape::LeftFieldRightPenaltyStretch)
        } else if text::same(name, "RightFieldLeftPenaltyStretch") {
            Some(FieldShape::RightFieldLeftPenaltyStretch)
        } else if text::same(name, "RightFieldRightPenaltyStretch") {
            Some(FieldShape::RightFieldRightPenaltyStretch)
        } else {
            None
        }
    }
}

/// The first line or arc with a name has it, and none before it has.
pub proof fn law_first_of_a_name(
    lines: Seq<LineSegment>,
    arcs: Seq<CircularArc>,
    name: Seq<char>,
    i: int,
    j: int,
)
    ensures
        is_first_line(lines, name, i) ==> 0 <= i < lines.len() && lines[i].name@ == name && (0 <= j < i
            ==> lines[j].name@ != name) && has_line(lines, name) && first_line(lines, name) == lines[i],
        0 <= j < lines.len() && lines[j].name@ == name ==> has_line(lines, name),
        is_first_arc(arcs, name, i) ==> 0 <= i < arcs.len() && arcs[i].name@ == name && (0 <= j < i
            ==> arcs[j].name@ != name),
{
    if is_first_line(lines, name, i) {
        let k = choose|k: int| is_first_line(lines, name, k);
        assert(is_first_line(lines, name, k));
        if k < i {
            assert(lines[k].name@ != name);
        } else if i < k {
            assert(lines[i].name@ != name);
        }
    }
    if 0 <= j < lines.len() && lines[j].name@ == name {
        lemma_first_line_exists(lines, name, j);
    }
}

proof fn lemma_first_line_exists(lines: Seq<LineSegment>, name: Seq<char>, j: int)
    requires
        0 <= j < lines.len(),
        lines[j].name@ == name,
    ensures
        has_line(lines, name),
    decreases j,
{
    if exists|k: int| 0 <= k < j && (#[trigger] lines[k]).name@ == name {
        let k = choose|k: int| 0 <= k < j && (#[trigger] lines[k]).name@ == name;
        lemma_first_line_exists(lines, name, k);
    } else {
        assert(is_first_line(lines, name, j));
    }
}

/// The penalty area is the explicit one where both sides are given. Else it is that of
/// the line parallel to the goal line, or, without that line, of the side line; either
/// replaces only the sides that it gives as positive numbers. Without both lines it
/// stays.
pub proof fn law_penalty_areas(current: Extent, g: FieldSize)
    ensures
        ({
            let lines = g.field_lines@;
            let explicit = g.penalty_area_depth is Some && g.penalty_area_width is Some;
            let front = has_line(lines, "LeftPenaltyStretch"@);
            let side = has_line(lines, "LeftFieldLeftPenaltyStretch"@);
            let a = first_line(lines, "LeftPenaltyStretch"@).parallel;
            let b = first_line(lines, "LeftFieldLeftPenaltyStretch"@).inward;
            let r = penalty_area(current, g);
            &&& explicit ==> Some(r.depth) == g.penalty_area_depth && Some(r.width) == g.penalty_area_width
            &&& !explicit && front ==> {
                &&& Double::zero().lt(a.depth) ==> r.depth == a.depth
                &&& !Double::zero().lt(a.depth) ==> r.depth == current.depth
                &&& Double::zero().lt(a.width) ==> r.width == a.width
                &&& !Double::zero().lt(a.width) ==> r.width == current.width
            }
            &&& !explicit && !front && side ==> {
                &&& Double::zero().lt(b.depth) ==> r.depth == b.depth
                &&& !Double::zero().lt(b.depth) ==> r.depth == current.depth
                &&& Double::zero().lt(b.width) ==> r.width == b.width
                &&& !Double::zero().lt(b.width) ==> r.width == current.width
            }
            &&& !explicit && !front && !side ==> r == current
        }),
{
}

/// The least thickness is that of a line, is positive, and no line with a positive
/// thickness is thinner.
pub proof fn law_thinnest_line(lines: Seq<LineSegment>, t: Double, i: int)
    ensures
        least_thickness(lines, t) ==> Double::zero().lt(t) && has_thickness(lines) && (0 <= i < lines.len()
            && Double::zero().lt(lines[i].thickness) ==> !lines[i].thickness.lt(t)),
        0 <= i < lines.len() && Double::zero().lt(lines[i].thickness) ==> has_thickness(lines),
        has_thickness(lines) ==> exists|k: int|
            0 <= k < lines.len() && Double::zero().lt((#[trigger] lines[k]).thickness),
{
    if least_thickness(lines, t) {
        let k = choose|k: int| 0 <= k < lines.len() && (#[trigger] lines[k]).thickness == t;
        assert(Double::zero().lt(lines[k].thickness));
    }
}

/// A calibration places a camera exactly if all three coordinates are given, and then
/// there, under its own id.
pub proof fn law_cameras_hang_where_they_are_placed(c: CalibrationPosition)
    ensures
        camera_of(c) is Some <==> c.x is Some && c.y is Some && c.z is Some,
        camera_of(c) matches Some(m) ==> m.id == c.camera_id && Some(m.position.x) == c.x && Some(
            m.position.y,
        ) == c.y && Some(m.position.z) == c.z,
{
}

/// The cameras are those of the complete calibrations, in order.
pub proof fn law_cameras_of_complete_calibrations(calib: Seq<CalibrationPosition>)
    ensures
        cameras_of(calib) == calib.filter(|c: CalibrationPosition| camera_of(c) is Some).map_values(
            |c: CalibrationPosition| camera_of(c)->0,
        ),
    decreases calib.len(),
{
    reveal(Seq::filter);
    if calib.len() > 0 {
        law_cameras_of_complete_calibrations(calib.drop_last());
        let f = |c: CalibrationPosition| camera_of(c) is Some;
        let g = |c: CalibrationPosition| camera_of(c)->0;
        if camera_of(calib.last()) is Some {
            assert(calib.filter(f).map_values(g) =~= calib.drop_last().filter(f).map_values(g).push(
                camera_of(calib.last())->0,
            ));
        }
    }
}

/// Each shape goes by its own name.
pub proof fn law_shapes_go_by_their_names(s: FieldShape)
    ensures
        s is Undefined ==> s.name() == "Undefined"@,
        s is CenterCircle ==> s.name() == "CenterCircle"@,
        s is TopTouchLine ==> s.name() == "TopTouchLine"@,
        s is BottomTouchLine ==> s.name() == "BottomTouchLine"@,
        s is LeftGoalLine ==> s.name() == "LeftGoalLine"@,
        s is RightGoalLine ==> s.name() == "RightGoalLine"@,
        s is HalfwayLine ==> s.name() == "HalfwayLine"@,
        s is CenterLine ==> s.name() == "CenterLine"@,
        s is LeftPenaltyStretch ==> s.name() == "LeftPenaltyStretch"@,
        s is RightPenaltyStretch ==> s.name() == "RightPenaltyStretch"@,
        s is LeftFieldLeftPenaltyStretch ==> s.name() == "LeftFieldLeftPenaltyStretch"@,
        s is LeftFieldRightPenaltyStretch ==> s.name() == "LeftFieldRightPenaltyStretch"@,
        s is RightFieldLeftPenaltyStretch ==> s.name() == "RightFieldLeftPenaltyStretch"@,
        s is RightFieldRightPenaltyStretch ==> s.name() == "RightFieldRightPenaltyStretch"@,
{
}

} // verus!
