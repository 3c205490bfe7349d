use solitare::gesture::{advance_drag_phase, exceeds_tap_threshold, DragPhase, PointerPoint};

fn point(x: i32, y: i32) -> PointerPoint {
    PointerPoint { x, y }
}

#[test]
fn two_pixels_of_travel_is_a_tap() {
    let start = point(0, 0);
    assert!(!exceeds_tap_threshold(start, point(2, 0)));
}

#[test]
fn exactly_three_pixels_of_travel_is_still_a_tap() {
    let start = point(0, 0);
    assert!(!exceeds_tap_threshold(start, point(3, 0)));
}

#[test]
fn six_pixels_of_travel_is_a_drag() {
    let start = point(0, 0);
    assert!(exceeds_tap_threshold(start, point(6, 0)));
}

#[test]
fn diagonal_travel_uses_straight_line_distance() {
    // 3px right and 3px down is well past 3px of straight-line travel,
    // even though each axis alone would read as a tap.
    let start = point(0, 0);
    assert!(exceeds_tap_threshold(start, point(3, 3)));
}

#[test]
fn drag_phase_stays_pressed_under_threshold() {
    let start = point(10, 10);
    let phase = advance_drag_phase(DragPhase::Pressed, start, point(11, 10));
    assert_eq!(phase, DragPhase::Pressed);
}

#[test]
fn drag_phase_advances_past_threshold() {
    let start = point(10, 10);
    let phase = advance_drag_phase(DragPhase::Pressed, start, point(20, 10));
    assert_eq!(phase, DragPhase::Dragging);
}

#[test]
fn drag_phase_never_reverts_to_pressed() {
    let start = point(10, 10);
    // Once dragging, drifting back within 3px of the start must not
    // resurrect tap behavior mid-gesture.
    let phase = advance_drag_phase(DragPhase::Dragging, start, point(11, 10));
    assert_eq!(phase, DragPhase::Dragging);
}

#[test]
fn travel_backwards_and_upwards_counts_the_same() {
    let start = point(10, 10);
    assert!(!exceeds_tap_threshold(start, point(7, 10)));
    assert!(exceeds_tap_threshold(start, point(10, 6)));
    assert!(exceeds_tap_threshold(start, point(7, 8)));
    assert!(!exceeds_tap_threshold(start, point(8, 9)));
}

#[test]
fn travel_across_the_whole_coordinate_range_does_not_overflow() {
    assert!(exceeds_tap_threshold(point(i32::MIN, i32::MIN), point(i32::MAX, i32::MAX)));
    assert!(!exceeds_tap_threshold(point(i32::MAX, i32::MIN), point(i32::MAX, i32::MIN)));
}

#[test]
fn a_path_that_strays_and_returns_is_still_a_drag() {
    let start = point(0, 0);
    let path = [point(1, 0), point(2, 1), point(5, 0), point(1, 1), point(0, 0)];
    let mut phase = DragPhase::Pressed;
    let mut phases = Vec::new();
    for p in path {
        phase = advance_drag_phase(phase, start, p);
        phases.push(phase);
    }
    assert_eq!(
        phases,
        vec![
            DragPhase::Pressed,
            DragPhase::Pressed,
            DragPhase::Dragging,
            DragPhase::Dragging,
            DragPhase::Dragging,
        ]
    );
}
