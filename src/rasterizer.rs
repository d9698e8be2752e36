use vstd::prelude::*;

use crate::utilities::{interp_at, interp_seq, interpolate, ints, lemma_ints};

verus! {

/// The shade that leaves a color unchanged: shades are percentages.
pub const FULL_SHADE: i32 = 100;

/// One written canvas sample: integer canvas coordinates centred on the origin,
/// the 0..=255 color drawn there and the percentage shade applied to it.
#[derive(Clone, Copy, PartialEq, Eq, Debug)]
pub struct Pixel {
    pub x: i32,
    pub y: i32,
    pub color: [u8; 3],
    pub shade: i32,
}

/// The pixel at `(x, y)` of the given color and shade.
pub open spec fn pixel(x: int, y: int, color: [u8; 3], shade: int) -> Pixel {
    Pixel { x: x as i32, y: y as i32, color, shade: shade as i32 }
}

/// Absolute value.
pub open spec fn abs_int(v: int) -> int {
    if v < 0 {
        -v
    } else {
        v
    }
}

/// The pixels of the segment from `a` to `b`: one per integer step along the
/// axis on which the segment is longer, walked in increasing order, with the
/// other coordinate interpolated and rounded.
pub open spec fn line_pixels(a: [i32; 2], b: [i32; 2], color: [u8; 3]) -> Seq<Pixel> {
    if abs_int(b[1] - a[1]) < abs_int(b[0] - a[0]) {
        let (p, q) = if a[0] > b[0] {
            (b, a)
        } else {
            (a, b)
        };
        Seq::new(
            (q[0] - p[0] + 1) as nat,
            |k: int|
                pixel(
                    p[0] + k,
                    interp_at(p[0] as int, p[1] as int, q[0] as int, q[1] as int, k),
                    color,
                    FULL_SHADE as int,
                ),
        )
    } else {
        let (p, q) = if a[1] > b[1] {
            (b, a)
        } else {
            (a, b)
        };
        Seq::new(
            (q[1] - p[1] + 1) as nat,
            |k: int|
                pixel(
                    interp_at(p[1] as int, p[0] as int, q[1] as int, q[0] as int, k),
                    p[1] + k,
                    color,
                    FULL_SHADE as int,
                ),
        )
    }
}

/// The outline of a triangle: its three edges in the order a-b, b-c, c-a.
pub open spec fn wireframe_pixels(a: [i32; 2], b: [i32; 2], c: [i32; 2], color: [u8; 3]) -> Seq<
    Pixel,
> {
    line_pixels(a, b, color) + line_pixels(b, c, color) + line_pixels(c, a, color)
}

/// Shade at the lowest vertex of a filled triangle.
pub const SHADE_LOW: i32 = 10;

/// Shade at the middle vertex of a filled triangle.
pub const SHADE_MID: i32 = 0;

/// Shade at the highest vertex of a filled triangle.
pub const SHADE_HIGH: i32 = 100;

/// The three vertices ordered by ascending y, by three conditional swaps
/// (a-b, then a-c, then b-c).
pub open spec fn sort_by_y(p0: [i32; 2], p1: [i32; 2], p2: [i32; 2]) -> ([i32; 2], [i32; 2], [i32; 2]) {
    let (a, b) = if p1[1] < p0[1] {
        (p1, p0)
    } else {
        (p0, p1)
    };
    let (a, c) = if p2[1] < a[1] {
        (p2, a)
    } else {
        (a, p2)
    };
    let (b, c) = if c[1] < b[1] {
        (c, b)
    } else {
        (b, c)
    };
    (a, b, c)
}

/// Values along the two short edges, low-middle then middle-high, one per row:
/// the middle row is taken from the second edge only.
pub open spec fn short_edge(y0: int, v0: int, y1: int, v1: int, y2: int, v2: int) -> Seq<int> {
    interp_seq(y0, v0, y1, v1).drop_last() + interp_seq(y1, v1, y2, v2)
}

/// The left x, right x, left shade and right shade of each row of the sorted
/// triangle `a`, `b`, `c`. The side of the short edges is decided by comparing
/// both boundaries at the middle row.
pub open spec fn triangle_edges(a: [i32; 2], b: [i32; 2], c: [i32; 2]) -> (
    Seq<int>,
    Seq<int>,
    Seq<int>,
    Seq<int>,
) {
    let short_x = short_edge(a[1] as int, a[0] as int, b[1] as int, b[0] as int, c[1] as int, c[0] as int);
    let long_x = interp_seq(a[1] as int, a[0] as int, c[1] as int, c[0] as int);
    let short_s = short_edge(
        a[1] as int,
        SHADE_LOW as int,
        b[1] as int,
        SHADE_MID as int,
        c[1] as int,
        SHADE_HIGH as int,
    );
    let long_s = interp_seq(a[1] as int, SHADE_LOW as int, c[1] as int, SHADE_HIGH as int);
    let mid = short_x.len() / 2;
    if long_x[mid as int] < short_x[mid as int] {
        (long_x, short_x, long_s, short_s)
    } else {
        (short_x, long_x, short_s, long_s)
    }
}

/// The pixels of one row from `xl` to `xr` (none if `xr < xl`), with the shade
/// interpolated between `sl` and `sr`.
pub open spec fn row_pixels(xl: int, xr: int, sl: int, sr: int, y: int, color: [u8; 3]) -> Seq<Pixel> {
    Seq::new(
        if xl <= xr {
            (xr - xl + 1) as nat
        } else {
            0
        },
        |j: int| pixel(xl + j, y, color, interp_at(xl, sl, xr, sr, j)),
    )
}

/// The rows of a filled triangle, from its lowest y to its highest.
pub open spec fn filled_rows(p0: [i32; 2], p1: [i32; 2], p2: [i32; 2], color: [u8; 3]) -> Seq<Seq<Pixel>> {
    let (a, b, c) = sort_by_y(p0, p1, p2);
    let (xl, xr, sl, sr) = triangle_edges(a, b, c);
    Seq::new((c[1] - a[1] + 1) as nat, |r: int| row_pixels(xl[r], xr[r], sl[r], sr[r], a[1] + r, color))
}

/// The pixels of a filled, shaded triangle, row by row.
pub open spec fn filled_pixels(p0: [i32; 2], p1: [i32; 2], p2: [i32; 2], color: [u8; 3]) -> Seq<Pixel> {
    filled_rows(p0, p1, p2, color).flatten()
}

pub const RED: [u8; 3] = [255, 0, 0];

pub const GREEN: [u8; 3] = [0, 255, 0];

pub const BLUE: [u8; 3] = [0, 0, 255];

pub const PURPLE: [u8; 3] = [255, 0, 255];

pub const YELLOW: [u8; 3] = [255, 255, 0];

pub const CYAN: [u8; 3] = [0, 255, 255];

/// Number of corners of the canonical cube.
pub const BOX_VERTEX_COUNT: usize = 8;

/// A triangle given by three indices into a vertex list, with its fill color.
#[derive(Clone, Copy, PartialEq, Eq, Debug)]
pub struct Triangle {
    pub group: [usize; 3],
    pub color: [u8; 3],
}

/// Every index of every triangle points into a list of `n` vertices.
pub open spec fn triangles_index(triangles: Seq<Triangle>, n: int) -> bool {
    forall|t: int|
        0 <= t < triangles.len() ==> (#[trigger] triangles[t]).group[0] < n && triangles[t].group[1] < n
            && triangles[t].group[2] < n
}

/// The outlines of all triangles, in list order, over the projected vertices.
pub open spec fn object_pixels(projection: Seq<[i32; 2]>, triangles: Seq<Triangle>) -> Seq<Pixel> {
    Seq::new(
        triangles.len(),
        |t: int|
            wireframe_pixels(
                projection[triangles[t].group[0] as int],
                projection[triangles[t].group[1] as int],
                projection[triangles[t].group[2] as int],
                triangles[t].color,
            ),
    ).flatten()
}

/// The twelve triangles of the canonical cube, two per face (front, right,
/// back, left, top, bottom), each face in one solid color. Vertex indices
/// refer to the cube's eight corners.
pub open spec fn box_triangle_list() -> Seq<Triangle> {
    seq![
        Triangle { group: [0, 1, 2], color: RED },
        Triangle { group: [0, 2, 3], color: RED },
        Triangle { group: [4, 0, 3], color: GREEN },
        Triangle { group: [4, 3, 7], color: GREEN },
        Triangle { group: [5, 4, 7], color: BLUE },
        Triangle { group: [5, 7, 6], color: BLUE },
        Triangle { group: [1, 5, 6], color: YELLOW },
        Triangle { group: [1, 6, 2], color: YELLOW },
        Triangle { group: [4, 5, 1], color: PURPLE },
        Triangle { group: [4, 1, 0], color: PURPLE },
        Triangle { group: [2, 6, 7], color: CYAN },
        Triangle { group: [2, 7, 3], color: CYAN },
    ]
}

/// The cube's triangles, in the order of `box_triangle_list`.
pub fn box_triangles() -> (r: Vec<Triangle>)
    ensures
        r@ == box_triangle_list(),
{
    let r = vec![
        Triangle { group: [0, 1, 2], color: RED },
        Triangle { group: [0, 2, 3], color: RED },
        Triangle { group: [4, 0, 3], color: GREEN },
        Triangle { group: [4, 3, 7], color: GREEN },
        Triangle { group: [5, 4, 7], color: BLUE },
        Triangle { group: [5, 7, 6], color: BLUE },
        Triangle { group: [1, 5, 6], color: YELLOW },
        Triangle { group: [1, 6, 2], color: YELLOW },
        Triangle { group: [4, 5, 1], color: PURPLE },
        Triangle { group: [4, 1, 0], color: PURPLE },
        Triangle { group: [2, 6, 7], color: CYAN },
        Triangle { group: [2, 7, 3], color: CYAN },
    ];
    assert(r@ =~= box_triangle_list());
    r
}

/// The cube has twelve triangles over its eight corners, two per face; the two
/// triangles of a face share its color and the six faces have six colors.
pub proof fn lemma_box_faces()
    ensures
        box_triangle_list().len() == 12,
        triangles_index(box_triangle_list(), BOX_VERTEX_COUNT as int),
        forall|f: int|
            0 <= f < 6 ==> #[trigger] box_triangle_list()[2 * f].color == box_triangle_list()[2 * f
                + 1].color,
        forall|f: int, g: int|
            0 <= f < g < 6 ==> #[trigger] box_triangle_list()[2 * f].color
                != #[trigger] box_triangle_list()[2 * g].color,
{
    let l = box_triangle_list();
    assert(triangles_index(l, BOX_VERTEX_COUNT as int));
    assert forall|f: int| 0 <= f < 6 implies #[trigger] l[2 * f].color == l[2 * f + 1].color by {
        assert(f == 0 || f == 1 || f == 2 || f == 3 || f == 4 || f == 5);
    }
    assert forall|f: int, g: int| 0 <= f < g < 6 implies #[trigger] l[2 * f].color
        != #[trigger] l[2 * g].color by {
        assert(f == 0 || f == 1 || f == 2 || f == 3 || f == 4);
        assert(g == 1 || g == 2 || g == 3 || g == 4 || g == 5);
    }
}

/// A triangle whose three vertices share one row fills exactly one row: every
/// pixel it writes lies on that row, and it writes at least one.
pub proof fn lemma_flat_triangle_single_row(p0: [i32; 2], p1: [i32; 2], p2: [i32; 2], color: [u8; 3])
    requires
        p0[1] == p1[1],
        p1[1] == p2[1],
    ensures
        filled_rows(p0, p1, p2, color).len() == 1,
        filled_pixels(p0, p1, p2, color).len() >= 1,
        forall|i: int|
            0 <= i < filled_pixels(p0, p1, p2, color).len() ==> (#[trigger] filled_pixels(
                p0,
                p1,
                p2,
                color,
            )[i]).y == p0[1],
{
    let rows = filled_rows(p0, p1, p2, color);
    let (a, b, c) = sort_by_y(p0, p1, p2);
    let (xl, xr, sl, sr) = triangle_edges(a, b, c);
    assert(a[1] == p0[1] && c[1] == p0[1]);
    assert(rows.len() == 1);
    rows.lemma_flatten_singleton();
    assert(filled_pixels(p0, p1, p2, color) == rows[0]);
    assert(rows[0] == row_pixels(xl[0], xr[0], sl[0], sr[0], a[1] + 0, color));
    assert(short_edge(a[1] as int, a[0] as int, b[1] as int, b[0] as int, c[1] as int, c[0] as int)
        == seq![b[0] as int]);
    assert(interp_seq(a[1] as int, a[0] as int, c[1] as int, c[0] as int) == seq![a[0] as int]);
}

/// A software rasterizer that appends the pixels it draws, in drawing order.
pub struct Rasterizer {
    state: Vec<Pixel>,
}

impl Rasterizer {
    /// The pixels drawn so far, in drawing order.
    pub closed spec fn pixels(&self) -> Seq<Pixel> {
        self.state@
    }

    /// A rasterizer that has drawn nothing yet.
    pub fn new() -> (r: Self)
        ensures
            r.pixels() == Seq::<Pixel>::empty(),
    {
        Rasterizer { state: Vec::new() }
    }

    /// The pixels drawn so far.
    pub fn get_state(&self) -> (r: &[Pixel])
        ensures
            r@ == self.pixels(),
    {
        self.state.as_slice()
    }

    /// Writes one pixel at full shade.
    pub fn put_pixel(&mut self, x: i32, y: i32, rgb: [u8; 3])
        ensures
            final(self).pixels() == old(self).pixels().push(pixel(x as int, y as int, rgb, FULL_SHADE as int)),
    {
        self.state.push(Pixel { x, y, color: rgb, shade: FULL_SHADE });
    }

    fn put_shaded_pixel(&mut self, x: i32, y: i32, rgb: [u8; 3], shade: i32)
        ensures
            final(self).pixels() == old(self).pixels().push(pixel(x as int, y as int, rgb, shade as int)),
    {
        self.state.push(Pixel { x, y, color: rgb, shade });
    }

    /// Draws the segment from `point_a` to `point_b`.
    pub fn draw_line(&mut self, point_a: [i32; 2], point_b: [i32; 2], rgb: [u8; 3])
        ensures
            final(self).pixels() == old(self).pixels() + line_pixels(point_a, point_b, rgb),
    {
        let ghost start = self.pixels();
        let ghost target = line_pixels(point_a, point_b, rgb);
        let mut a = point_a;
        let mut b = point_b;
        let dx: i64 = b[0] as i64 - a[0] as i64;
        let dy: i64 = b[1] as i64 - a[1] as i64;
        let adx: i64 = if dx < 0 { -dx } else { dx };
        let ady: i64 = if dy < 0 { -dy } else { dy };
        if ady < adx {
            if a[0] > b[0] {
                let t = a;
                a = b;
                b = t;
            }
            let y_values = interpolate(a[0], a[1], b[0], b[1]);
            proof {
                lemma_ints(y_values@);
                assert forall|k: int| 0 <= k < y_values@.len() implies y_values@[k] as int == interp_at(
                    a[0] as int,
                    a[1] as int,
                    b[0] as int,
                    b[1] as int,
                    k,
                ) by {
                    assert(ints(y_values@)[k] == y_values@[k] as int);
                }
            }
            let mut x: i64 = a[0] as i64;
            while x <= b[0] as i64
                invariant
                    a[0] < b[0],
                    a[0] <= x <= b[0] + 1,
                    target.len() == b[0] - a[0] + 1,
                    forall|k: int|
                        0 <= k < target.len() ==> #[trigger] target[k] == pixel(
                            a[0] + k,
                            interp_at(a[0] as int, a[1] as int, b[0] as int, b[1] as int, k),
                            rgb,
                            FULL_SHADE as int,
                        ),
                    y_values@.len() == b[0] - a[0] + 1,
                    forall|k: int|
                        0 <= k < y_values@.len() ==> y_values@[k] as int == interp_at(
                            a[0] as int,
                            a[1] as int,
                            b[0] as int,
                            b[1] as int,
                            k,
                        ),
                    self.pixels() == start + target.take(x - a[0]),
                decreases b[0] - x + 1,
            {
                let idx = (x - a[0] as i64) as usize;
                self.put_pixel(x as i32, y_values[idx], rgb);
                assert(target.take(x - a[0] + 1) == target.take(x - a[0]).push(target[x - a[0]]));
                x = x + 1;
            }
            assert(target.take(target.len() as int) == target);
        } else {
            if a[1] > b[1] {
                let t = a;
                a = b;
                b = t;
            }
            let x_values = interpolate(a[1], a[0], b[1], b[0]);
            proof {
                lemma_ints(x_values@);
                assert forall|k: int| 0 <= k < x_values@.len() implies x_values@[k] as int == interp_at(
                    a[1] as int,
                    a[0] as int,
                    b[1] as int,
                    b[0] as int,
                    k,
                ) by {
                    assert(ints(x_values@)[k] == x_values@[k] as int);
                }
            }
            let mut y: i64 = a[1] as i64;
            while y <= b[1] as i64
                invariant
                    a[1] <= b[1],
                    a[1] <= y <= b[1] + 1,
                    target.len() == b[1] - a[1] + 1,
                    forall|k: int|
                        0 <= k < target.len() ==> #[trigger] target[k] == pixel(
                            interp_at(a[1] as int, a[0] as int, b[1] as int, b[0] as int, k),
                            a[1] + k,
                            rgb,
                            FULL_SHADE as int,
                        ),
                    x_values@.len() == b[1] - a[1] + 1,
                    forall|k: int|
                        0 <= k < x_values@.len() ==> x_values@[k] as int == interp_at(
                            a[1] as int,
                            a[0] as int,
                            b[1] as int,
                            b[0] as int,
                            k,
                        ),
                    self.pixels() == start + target.take(y - a[1]),
                decreases b[1] - y + 1,
            {
                let idx = (y - a[1] as i64) as usize;
                self.put_pixel(x_values[idx], y as i32, rgb);
                assert(target.take(y - a[1] + 1) == target.take(y - a[1]).push(target[y - a[1]]));
                y = y + 1;
            }
            assert(target.take(target.len() as int) == target);
        }
    }

    /// Draws the outline of the triangle `point_a`, `point_b`, `point_c`.
    pub fn draw_wireframe_triangle(
        &mut self,
        point_a: [i32; 2],
        point_b: [i32; 2],
        point_c: [i32; 2],
        rgb: [u8; 3],
    )
        ensures
            final(self).pixels() == old(self).pixels() + wireframe_pixels(point_a, point_b, point_c, rgb),
    {
        self.draw_line(point_a, point_b, rgb);
        self.draw_line(point_b, point_c, rgb);
        self.draw_line(point_c, point_a, rgb);
        assert(old(self).pixels() + wireframe_pixels(point_a, point_b, point_c, rgb) == old(self).pixels()
            + line_pixels(point_a, point_b, rgb) + line_pixels(point_b, point_c, rgb) + line_pixels(
            point_c,
            point_a,
            rgb,
        ));
    }

    /// Draws the outline of the triangle whose corners are the projected
    /// vertices at `indices`.
    pub fn render_triangle(&mut self, indices: [usize; 3], projection: &Vec<[i32; 2]>, rgb: [u8; 3])
        requires
            indices[0] < projection@.len(),
            indices[1] < projection@.len(),
            indices[2] < projection@.len(),
        ensures
            final(self).pixels() == old(self).pixels() + wireframe_pixels(
                projection@[indices[0] as int],
                projection@[indices[1] as int],
                projection@[indices[2] as int],
                rgb,
            ),
    {
        let point_a = projection[indices[0]];
        let point_b = projection[indices[1]];
        let point_c = projection[indices[2]];
        self.draw_wireframe_triangle(point_a, point_b, point_c, rgb);
    }

    /// Draws the outline of every triangle of an object whose vertices are
    /// already projected onto the canvas.
    pub fn render_object(&mut self, projection: &Vec<[i32; 2]>, geometries: &Vec<Triangle>)
        requires
            triangles_index(geometries@, projection@.len() as int),
        ensures
            final(self).pixels() == old(self).pixels() + object_pixels(projection@, geometries@),
    {
        let ghost start = self.pixels();
        let ghost parts = Seq::new(
            geometries@.len(),
            |t: int|
                wireframe_pixels(
                    projection@[geometries@[t].group[0] as int],
                    projection@[geometries@[t].group[1] as int],
                    projection@[geometries@[t].group[2] as int],
                    geometries@[t].color,
                ),
        );
        let mut i: usize = 0;
        while i < geometries.len()
            invariant
                i <= geometries@.len(),
                triangles_index(geometries@, projection@.len() as int),
                parts.len() == geometries@.len(),
                forall|t: int|
                    0 <= t < parts.len() ==> #[trigger] parts[t] == wireframe_pixels(
                        projection@[geometries@[t].group[0] as int],
                        projection@[geometries@[t].group[1] as int],
                        projection@[geometries@[t].group[2] as int],
                        geometries@[t].color,
                    ),
                self.pixels() == start + parts.take(i as int).flatten(),
            decreases geometries@.len() - i,
        {
            let geometry = geometries[i];
            assert(geometry.group[0] < projection@.len() && geometry.group[1] < projection@.len()
                && geometry.group[2] < projection@.len()) by {
                assert(geometries@[i as int] == geometry);
            }
            self.render_triangle(geometry.group, projection, geometry.color);
            proof {
                assert(parts.take(i + 1) == parts.take(i as int).push(parts[i as int]));
                parts.take(i as int).lemma_flatten_push(parts[i as int]);
            }
            i = i + 1;
        }
        assert(parts.take(parts.len() as int) == parts);
    }

    /// Writes the row `y` from `x_left` to `x_right`, shading between `shade_left`
    /// and `shade_right`.
    fn fill_row(&mut self, x_left: i32, x_right: i32, shade_left: i32, shade_right: i32, y: i32, rgb: [u8; 3])
        ensures
            final(self).pixels() == old(self).pixels() + row_pixels(
                x_left as int,
                x_right as int,
                shade_left as int,
                shade_right as int,
                y as int,
                rgb,
            ),
    {
        let ghost start = self.pixels();
        let ghost row = row_pixels(x_left as int, x_right as int, shade_left as int, shade_right as int, y as int, rgb);
        let x_shades = interpolate(x_left, shade_left, x_right, shade_right);
        proof {
            lemma_ints(x_shades@);
        }
        let ghost shades = interp_seq(x_left as int, shade_left as int, x_right as int, shade_right as int);
        assert(x_left <= x_right ==> x_shades@.len() == x_right - x_left + 1);
        let mut x: i64 = x_left as i64;
        while x <= x_right as i64
            invariant
                x_left <= x,
                x_left <= x_right ==> x <= x_right + 1,
                x_right < x_left ==> x == x_left,
                x_left <= x_right ==> x_shades@.len() == x_right - x_left + 1,
                ints(x_shades@) == shades,
                shades == interp_seq(x_left as int, shade_left as int, x_right as int, shade_right as int),
                row == row_pixels(x_left as int, x_right as int, shade_left as int, shade_right as int, y as int, rgb),
                self.pixels() == start + row.take(x - x_left),
            decreases x_right - x + 1,
        {
            let j = (x - x_left as i64) as usize;
            assert(shades[j as int] == x_shades@[j as int] as int);
            self.put_shaded_pixel(x as i32, y, rgb, x_shades[j]);
            assert(row.take(j + 1) == row.take(j as int).push(row[j as int]));
            x = x + 1;
        }
        assert(row.take(row.len() as int) == row);
    }

    /// Fills the triangle `point_a`, `point_b`, `point_c` row by row, shading
    /// each row between its two boundary shades.
    pub fn draw_filled_triangle(
        &mut self,
        point_a: [i32; 2],
        point_b: [i32; 2],
        point_c: [i32; 2],
        rgb: [u8; 3],
    )
        ensures
            final(self).pixels() == old(self).pixels() + filled_pixels(point_a, point_b, point_c, rgb),
    {
        let ghost start = self.pixels();
        let mut a = point_a;
        let mut b = point_b;
        let mut c = point_c;
        if b[1] < a[1] {
            let t = a;
            a = b;
            b = t;
        }
        if c[1] < a[1] {
            let t = a;
            a = c;
            c = t;
        }
        if c[1] < b[1] {
            let t = b;
            b = c;
            c = t;
        }
        assert((a, b, c) == sort_by_y(point_a, point_b, point_c));
        let (x_left, x_right, shade_left, shade_right) = triangle_boundaries(a, b, c);
        let ghost rows_n = c[1] - a[1] + 1;
        let ghost rows = filled_rows(point_a, point_b, point_c, rgb);
        assert(rows.len() == rows_n);
        let mut y: i64 = a[1] as i64;
        while y <= c[1] as i64
            invariant
                a[1] <= y <= c[1] + 1,
                rows_n == c[1] - a[1] + 1,
                rows.len() == rows_n,
                x_left@.len() == rows_n,
                x_right@.len() == rows_n,
                shade_left@.len() == rows_n,
                shade_right@.len() == rows_n,
                forall|r: int|
                    0 <= r < rows_n ==> #[trigger] rows[r] == row_pixels(
                        x_left@[r] as int,
                        x_right@[r] as int,
                        shade_left@[r] as int,
                        shade_right@[r] as int,
                        a[1] + r,
                        rgb,
                    ),
                self.pixels() == start + rows.take(y - a[1]).flatten(),
            decreases c[1] - y + 1,
        {
            let r = (y - a[1] as i64) as usize;
            let ghost row = rows[r as int];
            self.fill_row(x_left[r], x_right[r], shade_left[r], shade_right[r], y as i32, rgb);
            proof {
                assert(rows.take(r + 1) == rows.take(r as int).push(row));
                rows.take(r as int).lemma_flatten_push(row);
            }
            y = y + 1;
        }
        assert(rows.take(rows_n) == rows);
    }
}

/// The per-row boundaries of the sorted triangle `a`, `b`, `c`: left x, right x,
/// left shade, right shade.
fn triangle_boundaries(a: [i32; 2], b: [i32; 2], c: [i32; 2]) -> (r: (Vec<i32>, Vec<i32>, Vec<i32>, Vec<i32>))
    requires
        a[1] <= b[1] <= c[1],
    ensures
        triangle_edges(a, b, c) == (ints(r.0@), ints(r.1@), ints(r.2@), ints(r.3@)),
        r.0@.len() == c[1] - a[1] + 1,
        r.1@.len() == c[1] - a[1] + 1,
        r.2@.len() == c[1] - a[1] + 1,
        r.3@.len() == c[1] - a[1] + 1,
{
    let mut x_short = interpolate(a[1], a[0], b[1], b[0]);
    proof {
        lemma_ints(x_short@);
    }
    let mut shade_short = interpolate(a[1], SHADE_LOW, b[1], SHADE_MID);
    proof {
        lemma_ints(shade_short@);
    }
    let mut x_b_to_c = interpolate(b[1], b[0], c[1], c[0]);
    proof {
        lemma_ints(x_b_to_c@);
    }
    let mut shade_b_to_c = interpolate(b[1], SHADE_MID, c[1], SHADE_HIGH);
    proof {
        lemma_ints(shade_b_to_c@);
    }
    let x_long = interpolate(a[1], a[0], c[1], c[0]);
    proof {
        lemma_ints(x_long@);
    }
    let shade_long = interpolate(a[1], SHADE_LOW, c[1], SHADE_HIGH);
    proof {
        lemma_ints(shade_long@);
    }
    let _ = x_short.pop();
    x_short.append(&mut x_b_to_c);
    let _ = shade_short.pop();
    shade_short.append(&mut shade_b_to_c);
    let ghost rows_n = c[1] - a[1] + 1;
    let ghost short_x = short_edge(a[1] as int, a[0] as int, b[1] as int, b[0] as int, c[1] as int, c[0] as int);
    let ghost short_s = short_edge(
        a[1] as int,
        SHADE_LOW as int,
        b[1] as int,
        SHADE_MID as int,
        c[1] as int,
        SHADE_HIGH as int,
    );
    assert(ints(x_short@) =~= short_x);
    assert(ints(shade_short@) =~= short_s);
    assert(x_short@.len() == rows_n);
    assert(x_long@.len() == rows_n);
    assert(shade_short@.len() == rows_n);
    assert(shade_long@.len() == rows_n);
    let mid = x_short.len() / 2;
    assert(ints(x_long@)[mid as int] == x_long@[mid as int] as int);
    assert(ints(x_short@)[mid as int] == x_short@[mid as int] as int);
    if x_long[mid] < x_short[mid] {
        (x_long, x_short, shade_long, shade_short)
    } else {
        (x_short, x_long, shade_short, shade_long)
    }
}

} // verus!
