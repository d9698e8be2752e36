use scratch_graphics::rasterizer::{
    box_triangles, Pixel, Rasterizer, Triangle, BLUE, CYAN, FULL_SHADE, GREEN, PURPLE, RED, YELLOW,
};

fn pixels(points: &[(i32, i32, i32)], color: [u8; 3]) -> Vec<Pixel> {
    points.iter().map(|&(x, y, shade)| Pixel { x, y, color, shade }).collect()
}

#[test]
fn draw_line_mostly_horizontal() {
    let mut r = Rasterizer::new();
    r.draw_line([0, 0], [4, 2], RED);
    let expected = pixels(&[(0, 0, 100), (1, 1, 100), (2, 1, 100), (3, 2, 100), (4, 2, 100)], RED);
    assert_eq!(r.get_state().to_vec(), expected);
}

#[test]
fn draw_line_mostly_vertical_walks_upwards() {
    let mut r = Rasterizer::new();
    r.draw_line([3, 5], [1, -1], [1, 2, 3]);
    let expected = pixels(
        &[(1, -1, 100), (1, 0, 100), (2, 1, 100), (2, 2, 100), (2, 3, 100), (3, 4, 100), (3, 5, 100)],
        [1, 2, 3],
    );
    assert_eq!(r.get_state().to_vec(), expected);
}

#[test]
fn draw_line_single_point() {
    let mut r = Rasterizer::new();
    r.draw_line([7, -3], [7, -3], RED);
    assert_eq!(r.get_state().to_vec(), pixels(&[(7, -3, FULL_SHADE)], RED));
}

#[test]
fn put_pixel_appends_full_shade() {
    let mut r = Rasterizer::new();
    r.put_pixel(2, 3, [9, 8, 7]);
    r.put_pixel(-1, 0, [0, 0, 0]);
    assert_eq!(r.get_state().len(), 2);
    assert_eq!(r.get_state()[0], Pixel { x: 2, y: 3, color: [9, 8, 7], shade: 100 });
}

#[test]
fn wireframe_triangle_draws_three_edges_in_order() {
    let mut r = Rasterizer::new();
    r.draw_wireframe_triangle([0, 0], [4, 0], [0, 4], RED);
    let state = r.get_state();
    assert_eq!(state.len(), 15);
    assert_eq!(state[0], Pixel { x: 0, y: 0, color: RED, shade: 100 });
    assert_eq!(state[4], Pixel { x: 4, y: 0, color: RED, shade: 100 });
    // second edge runs from (4, 0) to (0, 4), walked by increasing y
    assert_eq!(state[5], Pixel { x: 4, y: 0, color: RED, shade: 100 });
    assert_eq!(state[9], Pixel { x: 0, y: 4, color: RED, shade: 100 });
    // third edge runs from (0, 4) back to (0, 0), walked by increasing y
    assert_eq!(state[10], Pixel { x: 0, y: 0, color: RED, shade: 100 });
}

#[test]
fn filled_triangle_shades_rows() {
    let mut r = Rasterizer::new();
    r.draw_filled_triangle([0, 0], [4, 0], [0, 4], RED);
    let expected = pixels(
        &[
            (0, 0, 10), (1, 0, 8), (2, 0, 5), (3, 0, 3), (4, 0, 0),
            (0, 1, 33), (1, 1, 30), (2, 1, 28), (3, 1, 25),
            (0, 2, 55), (1, 2, 53), (2, 2, 50),
            (0, 3, 78), (1, 3, 75),
            (0, 4, 100),
        ],
        RED,
    );
    assert_eq!(r.get_state().to_vec(), expected);
}

#[test]
fn filled_triangle_general_shape() {
    let mut r = Rasterizer::new();
    r.draw_filled_triangle([0, 0], [10, 2], [3, 8], RED);
    let state = r.get_state();
    assert_eq!(state.len(), 46);
    let expected = pixels(&[(0, 0, 10), (0, 1, 21), (1, 1, 18), (2, 1, 15), (3, 1, 11), (4, 1, 8)], RED);
    assert_eq!(state[..6].to_vec(), expected);
}

#[test]
fn filled_triangle_flat_fills_one_row() {
    let mut r = Rasterizer::new();
    r.draw_filled_triangle([1, 3], [5, 3], [-2, 3], RED);
    let expected = pixels(&[(1, 3, 10), (2, 3, 8), (3, 3, 5), (4, 3, 3), (5, 3, 0)], RED);
    assert_eq!(r.get_state().to_vec(), expected);
}

#[test]
fn filled_triangle_coincident_vertices() {
    let mut r = Rasterizer::new();
    r.draw_filled_triangle([2, 2], [2, 2], [2, 2], RED);
    assert_eq!(r.get_state().to_vec(), pixels(&[(2, 2, 0)], RED));
}

#[test]
fn filled_triangle_collinear_diagonal() {
    let mut r = Rasterizer::new();
    r.draw_filled_triangle([0, 0], [2, 2], [4, 4], RED);
    let expected = pixels(&[(0, 0, 10), (1, 1, 5), (2, 2, 0), (3, 3, 50), (4, 4, 100)], RED);
    assert_eq!(r.get_state().to_vec(), expected);
}

#[test]
fn box_has_twelve_triangles_over_eight_corners() {
    let groups = [
        [0, 1, 2], [0, 2, 3], [4, 0, 3], [4, 3, 7], [5, 4, 7], [5, 7, 6],
        [1, 5, 6], [1, 6, 2], [4, 5, 1], [4, 1, 0], [2, 6, 7], [2, 7, 3],
    ];
    let colors = [RED, GREEN, BLUE, YELLOW, PURPLE, CYAN];
    let expected: Vec<Triangle> =
        groups.iter().enumerate().map(|(i, &group)| Triangle { group, color: colors[i / 2] }).collect();
    assert_eq!(box_triangles(), expected);
}

#[test]
fn render_object_outlines_every_triangle() {
    let projection = vec![[0, 0], [4, 0], [0, 4], [4, 4]];
    let triangles = vec![
        Triangle { group: [0, 1, 2], color: RED },
        Triangle { group: [1, 3, 2], color: [0, 0, 255] },
    ];
    let mut r = Rasterizer::new();
    r.render_object(&projection, &triangles);
    let mut single = Rasterizer::new();
    single.render_triangle([0, 1, 2], &projection, RED);
    single.render_triangle([1, 3, 2], &projection, [0, 0, 255]);
    assert_eq!(r.get_state().to_vec(), single.get_state().to_vec());
    assert_eq!(r.get_state().len(), 15 + 15);
}
