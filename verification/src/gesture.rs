//! Telling a tap from a drag: a press that travels no further than the tap
//! threshold is a tap, and once a gesture has become a drag it stays one.

use vstd::prelude::*;

verus! {

/// A pointer position in CSS pixels, as the pointer event's `clientX` and
/// `clientY` report it.
#[derive(Clone, Copy, Debug, PartialEq, Eq, Structural)]
pub struct PointerPoint {
    pub x: i32,
    pub y: i32,
}

/// A pointer that travels this many pixels or fewer between press and
/// release is a tap; past it, the gesture is a drag.
pub const TAP_THRESHOLD_PX: i32 = 3;

/// The square of the straight-line distance between two points.
pub open spec fn travel_sq(start: PointerPoint, current: PointerPoint) -> int {
    (current.x - start.x) * (current.x - start.x) + (current.y - start.y) * (current.y
        - start.y)
}

/// The pointer has travelled further than the tap threshold, in a straight
/// line.
pub open spec fn past_tap_threshold(start: PointerPoint, current: PointerPoint) -> bool {
    travel_sq(start, current) > TAP_THRESHOLD_PX * TAP_THRESHOLD_PX
}

/// Whether the straight-line travel from `start` to `current` exceeds the
/// tap threshold.
pub fn exceeds_tap_threshold(start: PointerPoint, current: PointerPoint) -> (r: bool)
    ensures
        r == past_tap_threshold(start, current),
{
    let dx: i64 = current.x as i64 - start.x as i64;
    let dy: i64 = current.y as i64 - start.y as i64;
    assert(dx * dx <= 0x1_0000_0000_0000_0000) by (nonlinear_arith)
        requires
            -0x1_0000_0000 <= dx <= 0x1_0000_0000,
    ;
    assert(dy * dy <= 0x1_0000_0000_0000_0000) by (nonlinear_arith)
        requires
            -0x1_0000_0000 <= dy <= 0x1_0000_0000,
    ;
    assert(dx * dx >= 0 && dy * dy >= 0) by (nonlinear_arith);
    let dx_sq: i128 = dx as i128 * dx as i128;
    let dy_sq: i128 = dy as i128 * dy as i128;
    let t: i128 = TAP_THRESHOLD_PX as i128;
    assert(t * t == 9) by (nonlinear_arith)
        requires
            t == 3,
    ;
    dx_sq + dy_sq > t * t
}

/// Whether a gesture is still a press, which a release would make a tap,
/// or has become a drag.
#[derive(Clone, Copy, Debug, PartialEq, Eq, Structural)]
pub enum DragPhase {
    Pressed,
    Dragging,
}

/// The phase after the pointer moved to `current`: a drag once the travel
/// from `start` exceeds the tap threshold, and a drag for good once it is
/// one.
pub open spec fn next_phase(phase: DragPhase, start: PointerPoint, current: PointerPoint) -> DragPhase {
    if phase == DragPhase::Dragging || past_tap_threshold(start, current) {
        DragPhase::Dragging
    } else {
        DragPhase::Pressed
    }
}

/// Advances a gesture's phase for a pointer move to `current`.
pub fn advance_drag_phase(phase: DragPhase, start: PointerPoint, current: PointerPoint) -> (r:
    DragPhase)
    ensures
        r == next_phase(phase, start, current),
{
    let dragging = match phase {
        DragPhase::Dragging => true,
        DragPhase::Pressed => false,
    };
    if dragging || exceeds_tap_threshold(start, current) {
        DragPhase::Dragging
    } else {
        DragPhase::Pressed
    }
}

/// The phase of a gesture pressed at `start` after the pointer has moved
/// through `path`, in order.
pub open spec fn phase_after(start: PointerPoint, path: Seq<PointerPoint>) -> DragPhase
    decreases path.len(),
{
    if path.len() == 0 {
        DragPhase::Pressed
    } else {
        next_phase(phase_after(start, path.drop_last()), start, path.last())
    }
}

/// A gesture stays a drag for the rest of its life once it crosses the tap
/// threshold, even if the pointer drifts back within range of `start`.
pub proof fn lemma_drag_never_reverts(start: PointerPoint, path: Seq<PointerPoint>, k: int)
    requires
        0 <= k <= path.len(),
        phase_after(start, path.take(k)) == DragPhase::Dragging,
    ensures
        phase_after(start, path) == DragPhase::Dragging,
    decreases path.len() - k,
{
    if k < path.len() {
        assert(path.take(k + 1).drop_last() =~= path.take(k));
        lemma_drag_never_reverts(start, path, k + 1);
    } else {
        assert(path.take(k) =~= path);
    }
}

/// A gesture is a drag exactly when some point of its path lies past the
/// tap threshold: a tap is a press whose pointer never left that range.
pub proof fn lemma_drag_iff_some_point_past_threshold(start: PointerPoint, path: Seq<PointerPoint>)
    ensures
        (phase_after(start, path) == DragPhase::Dragging) <==> exists|i: int|
            0 <= i < path.len() && #[trigger] past_tap_threshold(start, path[i]),
    decreases path.len(),
{
    if path.len() > 0 {
        let rest = path.drop_last();
        lemma_drag_iff_some_point_past_threshold(start, rest);
        if phase_after(start, rest) == DragPhase::Dragging {
            let i = choose|i: int| 0 <= i < rest.len() && #[trigger] past_tap_threshold(start, rest[i]);
            assert(path[i] == rest[i]);
        }
        if past_tap_threshold(start, path.last()) {
            assert(past_tap_threshold(start, path[path.len() - 1]));
        }
        if exists|i: int| 0 <= i < path.len() && #[trigger] past_tap_threshold(start, path[i]) {
            let i = choose|i: int| 0 <= i < path.len() && #[trigger] past_tap_threshold(start, path[i]);
            if i < path.len() - 1 {
                assert(rest[i] == path[i]);
            }
        }
    }
}

} // verus!
