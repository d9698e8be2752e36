use scratch_graphics::raytracer::{
    closest_intersection, trace_step, Canvas, CanvasAxis, TraceStep, CANVAS_SIZE,
};

#[test]
fn canvas_range_is_inclusive_half_size() {
    let canvas = Canvas::default_size();
    assert_eq!(canvas.get_canvas_range(CanvasAxis::Horizontal), (-800, 800));
    assert_eq!(canvas.get_canvas_range(CanvasAxis::Vertical), (-800, 800));
    assert_eq!(canvas.get_canvas_size(), [CANVAS_SIZE, CANVAS_SIZE]);
    let odd = Canvas::new(5, 2);
    assert_eq!(odd.get_canvas_range(CanvasAxis::Horizontal), (-2, 2));
    assert_eq!(odd.get_canvas_range(CanvasAxis::Vertical), (-1, 1));
}

#[test]
fn scan_order_visits_columns_then_rows() {
    let canvas = Canvas::new(2, 4);
    let order = canvas.scan_order();
    assert_eq!(order.len(), 3 * 5);
    assert_eq!(order[0], [-1, -2]);
    assert_eq!(order[1], [-1, -1]);
    assert_eq!(order[4], [-1, 2]);
    assert_eq!(order[5], [0, -2]);
    assert_eq!(order[14], [1, 2]);
}

#[test]
fn scan_order_default_canvas_has_one_extra_sample_per_axis() {
    let order = Canvas::default_size().scan_order();
    assert_eq!(order.len(), 1601 * 1601);
}

#[test]
fn closest_in_empty_scene_is_none() {
    assert_eq!(closest_intersection(&vec![], 1, i64::MAX, i64::MAX), (None, i64::MAX));
}

#[test]
fn closest_picks_smallest_root_in_window() {
    let roots = vec![(Some(5), Some(3)), (Some(3), None), (Some(1), Some(2))];
    assert_eq!(closest_intersection(&roots, 2, 100, 1000), (Some(2), 2));
}

#[test]
fn closest_tie_goes_to_first_sphere() {
    let roots = vec![(Some(9), Some(4)), (Some(4), Some(6))];
    assert_eq!(closest_intersection(&roots, 0, 100, 1000), (Some(0), 4));
}

#[test]
fn closest_uses_second_root_when_first_is_out_of_window() {
    let roots = vec![(Some(50), Some(0)), (Some(7), Some(-3))];
    assert_eq!(closest_intersection(&roots, 1, 20, 1000), (Some(1), 7));
    let roots = vec![(Some(50), Some(10))];
    assert_eq!(closest_intersection(&roots, 1, 20, 1000), (Some(0), 10));
}

#[test]
fn closest_ignores_roots_at_limit_and_missing_roots() {
    let roots = vec![(Some(1000), Some(1000)), (None, None)];
    assert_eq!(closest_intersection(&roots, 0, 1000, 1000), (None, 1000));
}

#[test]
fn missed_ray_shows_background() {
    let (hit, _) = closest_intersection(&vec![(Some(-5), Some(-9))], 1, 100, 1000);
    assert_eq!(trace_step(hit, true, 2), TraceStep::Background);
}

#[test]
fn reflection_depth_counts_down() {
    assert_eq!(trace_step(Some(0), true, 2), TraceStep::ShadeAndReflect { depth: 1 });
    assert_eq!(trace_step(Some(3), true, 1), TraceStep::ShadeAndReflect { depth: 0 });
    assert_eq!(trace_step(Some(3), true, 0), TraceStep::Shade);
}

#[test]
fn non_reflective_sphere_ignores_depth() {
    for depth in 0..5 {
        assert_eq!(trace_step(Some(1), false, depth), TraceStep::Shade);
    }
}
