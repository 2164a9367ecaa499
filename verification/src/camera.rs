use vstd::prelude::*;

verus! {

/// A direction in which the camera moves.
#[allow(non_camel_case_types)]
#[derive(PartialEq, Eq, Structural, Debug, Clone, Copy)]
pub enum CameraDirection {
    NONE,
    FORWARD,
    BACKWARD,
    LEFT,
    RIGHT,
    UP,
    DOWN,
}

/// The unit step of a direction in the camera's frame (x right, y down, z forward), before
/// the camera's rotation turns it; no step for `NONE`.
pub open spec fn spec_step(d: CameraDirection) -> (int, int, int) {
    match d {
        CameraDirection::NONE => (0, 0, 0),
        CameraDirection::FORWARD => (0, 0, 1),
        CameraDirection::BACKWARD => (0, 0, -1),
        CameraDirection::LEFT => (-1, 0, 0),
        CameraDirection::RIGHT => (1, 0, 0),
        CameraDirection::UP => (0, -1, 0),
        CameraDirection::DOWN => (0, 1, 0),
    }
}

/// The opposite of a step.
pub open spec fn opposite(v: (int, int, int)) -> (int, int, int) {
    (-v.0, -v.1, -v.2)
}

/// A step of length one along a single axis.
pub open spec fn unit_axis(v: (int, int, int)) -> bool {
    ||| (v.0 == 1 || v.0 == -1) && v.1 == 0 && v.2 == 0
    ||| v.0 == 0 && (v.1 == 1 || v.1 == -1) && v.2 == 0
    ||| v.0 == 0 && v.1 == 0 && (v.2 == 1 || v.2 == -1)
}

/// The cross product of two steps.
pub open spec fn cross(u: (int, int, int), v: (int, int, int)) -> (int, int, int) {
    (u.1 * v.2 - u.2 * v.1, u.2 * v.0 - u.0 * v.2, u.0 * v.1 - u.1 * v.0)
}

/// Opposite directions step opposite ways; every direction but `NONE` steps one unit along
/// one axis, no two alike; `NONE` does not move; right is along +x and down along +y, and
/// forward completes them as right × down, the frame's z axis.
pub proof fn lemma_steps_are_opposite_unit_axes()
    ensures
        spec_step(CameraDirection::RIGHT) == opposite(spec_step(CameraDirection::LEFT)),
        spec_step(CameraDirection::BACKWARD) == opposite(spec_step(CameraDirection::FORWARD)),
        spec_step(CameraDirection::DOWN) == opposite(spec_step(CameraDirection::UP)),
        spec_step(CameraDirection::NONE) == (0int, 0int, 0int),
        forall|d: CameraDirection| d != CameraDirection::NONE ==> unit_axis(#[trigger] spec_step(d)),
        forall|d: CameraDirection, e: CameraDirection|
            d != e ==> #[trigger] spec_step(d) != #[trigger] spec_step(e),
        spec_step(CameraDirection::RIGHT).0 > 0,
        spec_step(CameraDirection::DOWN).1 > 0,
        spec_step(CameraDirection::FORWARD) == cross(
            spec_step(CameraDirection::RIGHT),
            spec_step(CameraDirection::DOWN),
        ),
{
    let r = spec_step(CameraDirection::RIGHT);
    let d = spec_step(CameraDirection::DOWN);
    assert(r.0 == 1 && r.1 == 0 && r.2 == 0 && d.0 == 0 && d.1 == 1 && d.2 == 0);
    assert(r.1 * d.2 - r.2 * d.1 == 0 && r.2 * d.0 - r.0 * d.2 == 0 && r.0 * d.1 - r.1 * d.0 == 1)
        by (nonlinear_arith)
        requires
            r.0 == 1 && r.1 == 0 && r.2 == 0 && d.0 == 0 && d.1 == 1 && d.2 == 0,
    ;
}

impl CameraDirection {
    /// The unit step of the direction.
    pub fn step(&self) -> (r: (i32, i32, i32))
        ensures
            (r.0 as int, r.1 as int, r.2 as int) == spec_step(*self),
    {
        match self {
            CameraDirection::NONE => (0, 0, 0),
            CameraDirection::FORWARD => (0, 0, 1),
            CameraDirection::BACKWARD => (0, 0, -1),
            CameraDirection::LEFT => (-1, 0, 0),
            CameraDirection::RIGHT => (1, 0, 0),
            CameraDirection::UP => (0, -1, 0),
            CameraDirection::DOWN => (0, 1, 0),
        }
    }
}

} // verus!
