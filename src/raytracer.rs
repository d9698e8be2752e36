use vstd::prelude::*;

verus! {

/// Side length of the default square canvas, in pixels.
pub const CANVAS_SIZE: i32 = 1600;

/// Recursion depth for reflections that a full pass starts with.
pub const REFLECTION_DEPTH: u32 = 2;

/// How a light source contributes to the shading of a point.
#[derive(Clone, Copy, PartialEq, Eq, Structural, Debug)]
pub enum LightMode {
    Ambient,
    Point,
    Directional,
}

/// One of the two axes of the canvas.
#[derive(Clone, Copy, PartialEq, Eq, Structural, Debug)]
pub enum CanvasAxis {
    Horizontal,
    Vertical,
}

/// A canvas of fixed size whose pixels are addressed by signed coordinates
/// centred on the origin.
#[derive(Clone, Copy, PartialEq, Eq, Structural, Debug)]
pub struct Canvas {
    pub width: i32,
    pub height: i32,
}

/// The inclusive coordinate range `[-n/2, n/2]` of an axis of length `n`.
pub open spec fn axis_range(n: int) -> (int, int) {
    (-(n / 2), n / 2)
}

/// The samples of a pass in scan order: columns from left to right and, in
/// each column, rows from bottom to top.
pub open spec fn scan_points(width: int, height: int) -> Seq<[i32; 2]> {
    let (x0, x1) = axis_range(width);
    let (y0, y1) = axis_range(height);
    Seq::new(
        (x1 - x0 + 1) as nat,
        |i: int| Seq::new((y1 - y0 + 1) as nat, |j: int| [(x0 + i) as i32, (y0 + j) as i32]),
    ).flatten()
}

impl Canvas {
    /// Both sides are positive.
    pub open spec fn wf(&self) -> bool {
        self.width > 0 && self.height > 0
    }

    /// A canvas of the given size.
    pub fn new(width: i32, height: i32) -> (r: Canvas)
        requires
            width > 0,
            height > 0,
        ensures
            r.wf(),
            r.width == width,
            r.height == height,
    {
        Canvas { width, height }
    }

    /// The square canvas of the default size.
    pub fn default_size() -> (r: Canvas)
        ensures
            r.wf(),
            r.width == CANVAS_SIZE,
            r.height == CANVAS_SIZE,
    {
        Canvas { width: CANVAS_SIZE, height: CANVAS_SIZE }
    }

    /// Width and height of the canvas.
    pub fn get_canvas_size(&self) -> (r: [i32; 2])
        ensures
            r[0] == self.width,
            r[1] == self.height,
    {
        [self.width, self.height]
    }

    /// The inclusive range of coordinates along `axis`: from minus half the
    /// size to half the size, so a pass covers one sample more than the size.
    pub fn get_canvas_range(&self, axis: CanvasAxis) -> (r: (i32, i32))
        requires
            self.wf(),
        ensures
            axis == CanvasAxis::Horizontal ==> (r.0 as int, r.1 as int) == axis_range(self.width as int),
            axis == CanvasAxis::Vertical ==> (r.0 as int, r.1 as int) == axis_range(self.height as int),
    {
        match axis {
            CanvasAxis::Horizontal => (-(self.width / 2), self.width / 2),
            CanvasAxis::Vertical => (-(self.height / 2), self.height / 2),
        }
    }

    /// Every sample of a pass, in the order in which a pass visits them.
    pub fn scan_order(&self) -> (r: Vec<[i32; 2]>)
        requires
            self.wf(),
        ensures
            r@ == scan_points(self.width as int, self.height as int),
    {
        let (x0, x1) = self.get_canvas_range(CanvasAxis::Horizontal);
        let (y0, y1) = self.get_canvas_range(CanvasAxis::Vertical);
        let ghost columns = Seq::new(
            (x1 - x0 + 1) as nat,
            |i: int| Seq::new((y1 - y0 + 1) as nat, |j: int| [(x0 + i) as i32, (y0 + j) as i32]),
        );
        assert(scan_points(self.width as int, self.height as int) == columns.flatten());
        let mut r: Vec<[i32; 2]> = Vec::new();
        let mut x: i32 = x0;
        while x <= x1
            invariant
                x0 <= 0 <= x1 < 0x4000_0000,
                x0 <= x <= x1 + 1,
                y0 <= 0 <= y1 < 0x4000_0000,
                columns == Seq::new(
                    (x1 - x0 + 1) as nat,
                    |i: int| Seq::new((y1 - y0 + 1) as nat, |j: int| [(x0 + i) as i32, (y0 + j) as i32]),
                ),
                r@ == columns.take(x - x0).flatten(),
            decreases x1 - x + 1,
        {
            let ghost column = columns[x - x0];
            let ghost before = r@;
            let mut y: i32 = y0;
            while y <= y1
                invariant
                    x0 <= x <= x1,
                    y0 <= y <= y1 + 1,
                    y0 <= 0 <= y1 < 0x4000_0000,
                    column == Seq::new((y1 - y0 + 1) as nat, |j: int| [x, (y0 + j) as i32]),
                    r@ == before + column.take(y - y0),
                decreases y1 - y + 1,
            {
                r.push([x, y]);
                assert(column.take(y - y0 + 1) == column.take(y - y0).push(column[y - y0]));
                y = y + 1;
            }
            assert(column.take(column.len() as int) == column);
            proof {
                assert(columns.take(x - x0 + 1) == columns.take(x - x0).push(column));
                columns.take(x - x0).lemma_flatten_push(column);
            }
            x = x + 1;
        }
        assert(columns.take(columns.len() as int) == columns);
        r
    }
}

/// A root that lies in the window `[t_min, t_max]` and strictly before `limit`.
pub open spec fn in_window(root: Option<i64>, t_min: int, t_max: int, limit: int) -> bool {
    match root {
        Some(t) => t_min <= t <= t_max && t < limit,
        None => false,
    }
}

/// A sphere whose roots include one at `t` inside the window.
pub open spec fn hits_at(roots: (Option<i64>, Option<i64>), t: int, t_min: int, t_max: int, limit: int) -> bool {
    (in_window(roots.0, t_min, t_max, limit) && roots.0 == Some(t as i64)) || (in_window(
        roots.1,
        t_min,
        t_max,
        limit,
    ) && roots.1 == Some(t as i64))
}

/// No root of the sphere lies in the window before `t`.
pub open spec fn none_before(roots: (Option<i64>, Option<i64>), t: int, t_min: int, t_max: int, limit: int) -> bool {
    &&& in_window(roots.0, t_min, t_max, limit) ==> roots.0->0 >= t
    &&& in_window(roots.1, t_min, t_max, limit) ==> roots.1->0 >= t
}

/// No sphere has a root in the window.
pub open spec fn misses_all(roots: Seq<(Option<i64>, Option<i64>)>, t_min: int, t_max: int, limit: int) -> bool {
    forall|j: int|
        0 <= j < roots.len() ==> !in_window((#[trigger] roots[j]).0, t_min, t_max, limit) && !in_window(
            roots[j].1,
            t_min,
            t_max,
            limit,
        )
}

/// Sphere `i` is the first sphere with a root at `t`, and no sphere has a root
/// in the window before `t`.
pub open spec fn is_closest(
    roots: Seq<(Option<i64>, Option<i64>)>,
    i: int,
    t: int,
    t_min: int,
    t_max: int,
    limit: int,
) -> bool {
    &&& 0 <= i < roots.len()
    &&& hits_at(roots[i], t, t_min, t_max, limit)
    &&& forall|j: int| 0 <= j < roots.len() ==> none_before(#[trigger] roots[j], t, t_min, t_max, limit)
    &&& forall|j: int| 0 <= j < i ==> !hits_at(#[trigger] roots[j], t, t_min, t_max, limit)
}

/// The closest sphere along a ray. `roots` holds, for each sphere in scene
/// order, its two ray parameters as order keys (integers ordered as the
/// parameters are, `None` for one that is not a number). A root counts when it
/// lies in `[t_min, t_max]` and before `limit`, the key of the farthest
/// distance. Returns the index of the first sphere reaching the smallest such
/// root together with that root, or `None` and `limit` when no root counts.
pub fn closest_intersection(roots: &Vec<(Option<i64>, Option<i64>)>, t_min: i64, t_max: i64, limit: i64) -> (r: (
    Option<usize>,
    i64,
))
    ensures
        r.0 is None <==> misses_all(roots@, t_min as int, t_max as int, limit as int),
        r.0 is None ==> r.1 == limit,
        r.0 is Some ==> is_closest(roots@, r.0->0 as int, r.1 as int, t_min as int, t_max as int, limit as int),
{
    let mut closest_t: i64 = limit;
    let mut closest: Option<usize> = None;
    let mut i: usize = 0;
    while i < roots.len()
        invariant
            i <= roots@.len(),
            closest is None ==> closest_t == limit && misses_all(roots@.take(i as int), t_min as int, t_max as int, limit as int),
            closest is Some ==> is_closest(
                roots@.take(i as int),
                closest->0 as int,
                closest_t as int,
                t_min as int,
                t_max as int,
                limit as int,
            ),
            closest_t <= limit,
        decreases roots@.len() - i,
    {
        let (t1, t2) = roots[i];
        let ghost prefix = roots@.take(i as int);
        let ghost next = roots@.take(i + 1);
        assert(next == prefix.push((t1, t2)));
        match t1 {
            Some(t) => {
                if t_min <= t && t <= t_max && t < closest_t {
                    closest_t = t;
                    closest = Some(i);
                }
            },
            None => {},
        }
        match t2 {
            Some(t) => {
                if t_min <= t && t <= t_max && t < closest_t {
                    closest_t = t;
                    closest = Some(i);
                }
            },
            None => {},
        }
        i = i + 1;
    }
    assert(roots@.take(roots@.len() as int) == roots@);
    (closest, closest_t)
}

/// What tracing a ray does after looking for the closest sphere.
#[derive(Clone, Copy, PartialEq, Eq, Structural, Debug)]
pub enum TraceStep {
    /// Nothing was hit: the background color.
    Background,
    /// The shaded color of the hit sphere, with no reflection.
    Shade,
    /// The shaded color blended with a reflected ray traced at `depth`.
    ShadeAndReflect { depth: u32 },
}

/// No hit shows the background; a hit is shaded, and reflected one level
/// deeper only while it reflects and depth is left.
pub open spec fn trace_step_spec(hit: Option<usize>, reflective: bool, depth: u32) -> TraceStep {
    match hit {
        None => TraceStep::Background,
        Some(_) => if !reflective || depth == 0 {
            TraceStep::Shade
        } else {
            TraceStep::ShadeAndReflect { depth: (depth - 1) as u32 }
        },
    }
}

/// A ray that misses every sphere (in particular, any ray in an empty scene)
/// finds no closest sphere and shows the background, whatever the depth.
pub proof fn lemma_missed_ray_shows_background(
    roots: Seq<(Option<i64>, Option<i64>)>,
    t_min: int,
    t_max: int,
    limit: int,
    hit: Option<usize>,
    reflective: bool,
    depth: u32,
)
    requires
        hit is None <==> misses_all(roots, t_min, t_max, limit),
        roots.len() == 0 || misses_all(roots, t_min, t_max, limit),
    ensures
        misses_all(roots, t_min, t_max, limit),
        trace_step_spec(hit, reflective, depth) == TraceStep::Background,
{
}

/// With a sphere that does not reflect, how a ray is finished does not depend
/// on the reflection depth left.
pub proof fn lemma_non_reflective_ignores_depth(hit: Option<usize>, depth_a: u32, depth_b: u32)
    ensures
        trace_step_spec(hit, false, depth_a) == trace_step_spec(hit, false, depth_b),
{
}

/// Decides how a ray is finished: `hit` is the closest sphere, `reflective`
/// whether its reflective coefficient is positive, `depth` the reflections
/// still allowed.
pub fn trace_step(hit: Option<usize>, reflective: bool, depth: u32) -> (r: TraceStep)
    ensures
        r == trace_step_spec(hit, reflective, depth),
{
    match hit {
        None => TraceStep::Background,
        Some(_) => if !reflective || depth == 0 {
            TraceStep::Shade
        } else {
            TraceStep::ShadeAndReflect { depth: depth - 1 }
        },
    }
}

} // verus!
