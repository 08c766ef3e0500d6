//! The raycaster: a ray marched through the grid in fixed steps until it
//! enters a cell that stops it or leaves the grid.

use vstd::prelude::*;
use crate::framebuffer::{Framebuffer, WHITE};
use crate::maze::{
    extent_within,
    grid_of,
    has_cell,
    passable_tag,
    span_within,
    EMPTY,
    GOAL,
    MAX_SPAN,
    START,
};

verus! {

/// Fixed-point units per pixel: ray origins and directions are counted in
/// these.
pub const SUBUNITS: i64 = 65536;

/// A ray: an origin and a direction of about unit length, both in
/// `SUBUNITS` per pixel. The direction of angle `a` is
/// `(cos a, sin a) * SUBUNITS`, rounded.
#[derive(Clone, Copy, Debug)]
pub struct Ray {
    pub x: i64,
    pub y: i64,
    pub dx: i64,
    pub dy: i64,
}

/// How a ray is marched.
#[derive(Clone, Copy, Debug)]
pub struct CastOptions {
    /// Distance between two probes, in pixels.
    pub step: u32,
    /// Whether the start and goal cells stop the ray as walls do.
    pub stop_at_markers: bool,
    /// Whether every probed pixel inside the grid is plotted in white.
    pub draw_line: bool,
}

/// What a ray met. `impact` is the tag of the cell that stopped it, or the
/// empty tag when the ray left the grid; `tex_coord / tex_scale` is where
/// along the wall face it struck.
#[derive(Clone, Copy, Debug)]
pub struct Intersect {
    pub distance: u64,
    pub impact: char,
    pub tex_coord: usize,
    pub tex_scale: usize,
}

/// Whether a direction is admissible: no component longer than a unit, the
/// longer one at least half a unit.
pub open spec fn unit_like(dx: int, dy: int) -> bool {
    &&& -SUBUNITS <= dx <= SUBUNITS
    &&& -SUBUNITS <= dy <= SUBUNITS
    &&& (2 * dx >= SUBUNITS || 2 * dx <= -SUBUNITS || 2 * dy >= SUBUNITS || 2 * dy <= -SUBUNITS)
}

impl Ray {
    /// The direction is admissible.
    pub open spec fn wf(&self) -> bool {
        unit_like(self.dx as int, self.dy as int)
    }

    /// Pixel column of the probe at distance `d`.
    pub open spec fn px(&self, d: int) -> int {
        (self.x + d * self.dx) / (SUBUNITS as int)
    }

    /// Pixel row of the probe at distance `d`.
    pub open spec fn py(&self, d: int) -> int {
        (self.y + d * self.dy) / (SUBUNITS as int)
    }

    /// A ray from `(x, y)` along `(dx, dy)`, or `None` where the direction is
    /// not admissible.
    pub fn new(x: i64, y: i64, dx: i64, dy: i64) -> (ray: Option<Ray>)
        ensures
            unit_like(dx as int, dy as int) ==> ray == Some(Ray { x, y, dx, dy }),
            !unit_like(dx as int, dy as int) ==> ray.is_none(),
    {
        let half: i64 = SUBUNITS / 2;
        if -SUBUNITS <= dx && dx <= SUBUNITS && -SUBUNITS <= dy && dy <= SUBUNITS && (dx >= half
            || dx <= -half || dy >= half || dy <= -half) {
            Some(Ray { x, y, dx, dy })
        } else {
            None
        }
    }
}

/// Whether pixel `(px, py)` lies in a cell of the grid.
pub open spec fn in_grid(grid: Seq<Seq<char>>, block_size: int, px: int, py: int) -> bool {
    has_cell(grid, py / block_size, px / block_size)
}

/// Tag of the cell that holds pixel `(px, py)`.
pub open spec fn tag_at(grid: Seq<Seq<char>>, block_size: int, px: int, py: int) -> char {
    grid[py / block_size][px / block_size]
}

/// Whether a cell with this tag stops a ray.
pub open spec fn blocks(tag: char, stop_at_markers: bool) -> bool {
    if stop_at_markers {
        tag != EMPTY
    } else {
        !passable_tag(tag)
    }
}

/// Numerator, over `block_size`, of the texture coordinate of a hit at pixel
/// `(px, py)`. On the left edge of a cell the hit counts as one of a
/// vertical face and the offset down the cell is taken; else on its top edge
/// as one of a horizontal face and the offset across is taken; inside the
/// cell the smaller of the two offsets is taken.
pub open spec fn tex_numerator(px: int, py: int, block_size: int) -> int {
    let fx = px % block_size;
    let fy = py % block_size;
    if fx == 0 {
        fy
    } else if fy == 0 {
        fx
    } else if fx > fy {
        fy
    } else {
        fx
    }
}

/// Whether the march ends at pixel `(px, py)`: outside the grid, or in a
/// cell that stops the ray.
pub open spec fn halts_at(
    grid: Seq<Seq<char>>,
    block_size: int,
    stop_at_markers: bool,
    px: int,
    py: int,
) -> bool {
    !in_grid(grid, block_size, px, py) || blocks(tag_at(grid, block_size, px, py), stop_at_markers)
}

/// Whether the probe number `k` of a march with the given step ends it.
pub open spec fn probe_halts(
    grid: Seq<Seq<char>>,
    block_size: int,
    stop_at_markers: bool,
    ray: Ray,
    step: int,
    k: int,
) -> bool {
    halts_at(grid, block_size, stop_at_markers, ray.px(k * step), ray.py(k * step))
}

/// The result of a march that ends at distance `d`: the tag and texture
/// coordinate of the cell that stopped the ray, or the empty tag and
/// coordinate 0 where the probe is outside the grid.
pub open spec fn outcome(grid: Seq<Seq<char>>, block_size: usize, ray: Ray, d: u64) -> Intersect {
    let px = ray.px(d as int);
    let py = ray.py(d as int);
    if in_grid(grid, block_size as int, px, py) {
        Intersect {
            distance: d,
            impact: tag_at(grid, block_size as int, px, py),
            tex_coord: tex_numerator(px, py, block_size as int) as usize,
            tex_scale: block_size,
        }
    } else {
        Intersect { distance: d, impact: EMPTY, tex_coord: 0, tex_scale: block_size }
    }
}

/// Whether `d` is where a march with the given step ends: a multiple of the
/// step at which the probe ends the march, with no earlier probe doing so.
pub open spec fn march_ends_at(
    grid: Seq<Seq<char>>,
    block_size: int,
    stop_at_markers: bool,
    ray: Ray,
    step: int,
    d: int,
) -> bool {
    &&& 0 <= d
    &&& d % step == 0
    &&& probe_halts(grid, block_size, stop_at_markers, ray, step, d / step)
    &&& forall|k: int|
        0 <= k < d / step ==> !#[trigger] probe_halts(grid, block_size, stop_at_markers, ray, step, k)
}

/// The distance at which the march of `ray` ends.
pub open spec fn cast_distance(
    grid: Seq<Seq<char>>,
    block_size: int,
    stop_at_markers: bool,
    ray: Ray,
    step: int,
) -> int {
    choose|d: int| march_ends_at(grid, block_size, stop_at_markers, ray, step, d)
}

/// What the march of `ray` meets: the result of `cast_ray` as a function
/// of the grid, the ray and the way it is marched.
pub open spec fn cast_outcome(
    grid: Seq<Seq<char>>,
    block_size: usize,
    ray: Ray,
    options: CastOptions,
) -> Intersect {
    outcome(
        grid,
        block_size,
        ray,
        cast_distance(grid, block_size as int, options.stop_at_markers, ray, options.step as int) as u64,
    )
}

/// Whether probe number `k` of the march falls on pixel `(px, py)`.
pub open spec fn probe_on(ray: Ray, step: int, k: int, px: int, py: int) -> bool {
    ray.px(k * step) == px && ray.py(k * step) == py
}

/// Whether one of the first `n` probes of the march falls on pixel
/// `(px, py)`.
pub open spec fn on_trace(ray: Ray, step: int, n: int, px: int, py: int) -> bool {
    exists|k: int| 0 <= k < n && #[trigger] probe_on(ray, step, k, px, py)
}

/// Number of probes of a finished march that lie inside the grid: all
/// before the last, and the last where it is a hit.
pub open spec fn probes_in_grid(hit: Intersect, step: int) -> int {
    hit.distance as int / step + if hit.impact != EMPTY {
        1int
    } else {
        0int
    }
}

/// A pixel of a grid that spans at most `width` pixels across and `height`
/// pixels down has a column below `width` and a row below `height`.
pub proof fn lemma_in_grid_extent(
    grid: Seq<Seq<char>>,
    block_size: int,
    width: int,
    height: int,
    px: int,
    py: int,
)
    requires
        0 < block_size,
        extent_within(grid, block_size, width, height),
        in_grid(grid, block_size, px, py),
    ensures
        0 <= px < width,
        0 <= py < height,
{
    let j = py / block_size;
    let i = px / block_size;
    let rows = grid.len() as int;
    let cols = grid[j].len() as int;
    assert(py == j * block_size + py % block_size && 0 <= py % block_size < block_size)
        by (nonlinear_arith)
        requires 0 < block_size, j == py / block_size;
    assert(px == i * block_size + px % block_size && 0 <= px % block_size < block_size)
        by (nonlinear_arith)
        requires 0 < block_size, i == px / block_size;
    assert((j + 1) * block_size <= rows * block_size && 0 <= j * block_size && (j + 1) * block_size
        == j * block_size + block_size) by (nonlinear_arith)
        requires 0 <= j < rows, 0 < block_size;
    assert((i + 1) * block_size <= cols * block_size && 0 <= i * block_size && (i + 1) * block_size
        == i * block_size + block_size) by (nonlinear_arith)
        requires 0 <= i < cols, 0 < block_size;
}

/// A pixel of a grid that spans at most `limit` pixels has coordinates
/// below `limit`.
pub proof fn lemma_in_grid_bounds(grid: Seq<Seq<char>>, block_size: int, limit: int, px: int, py: int)
    requires
        0 < block_size,
        span_within(grid, block_size, limit),
        in_grid(grid, block_size, px, py),
    ensures
        0 <= px < limit,
        0 <= py < limit,
{
    lemma_in_grid_extent(grid, block_size, limit, limit, px, py);
}

/// Squared length of a ray's direction, in fixed-point units: about
/// `SUBUNITS * SUBUNITS` for the direction of an angle.
pub open spec fn norm_squared(ray: Ray) -> int {
    ray.dx * ray.dx + ray.dy * ray.dy
}

/// A march stays within the grid's diagonal: where the probes at distances
/// 0 and `d` both lie in a grid of at most `width` by `height` pixels, `d`
/// times the length of the direction is less than the diagonal, both in
/// fixed-point units; stated squared. For a direction one unit long, `d`
/// is less than the diagonal in pixels.
pub proof fn lemma_march_within_diagonal(
    grid: Seq<Seq<char>>,
    block_size: int,
    width: int,
    height: int,
    ray: Ray,
    d: int,
)
    requires
        0 < block_size,
        0 <= d,
        extent_within(grid, block_size, width, height),
        in_grid(grid, block_size, ray.px(0), ray.py(0)),
        in_grid(grid, block_size, ray.px(d), ray.py(d)),
    ensures
        d * d * norm_squared(ray) < SUBUNITS * SUBUNITS * (width * width + height * height),
        norm_squared(ray) >= SUBUNITS * SUBUNITS ==> d * d < width * width + height * height,
{
    lemma_in_grid_extent(grid, block_size, width, height, ray.px(0), ray.py(0));
    lemma_in_grid_extent(grid, block_size, width, height, ray.px(d), ray.py(d));
    assert(0 * ray.dx == 0 && 0 * ray.dy == 0);
    lemma_axis_within(ray.x as int, ray.dx as int, d, width);
    lemma_axis_within(ray.y as int, ray.dy as int, d, height);
    let s = SUBUNITS as int;
    let dx = ray.dx as int;
    let dy = ray.dy as int;
    assert(d * d * (dx * dx + dy * dy) == (d * dx) * (d * dx) + (d * dy) * (d * dy))
        by (nonlinear_arith);
    assert(s * s * (width * width + height * height) == (width * s) * (width * s) + (height * s)
        * (height * s)) by (nonlinear_arith);
    let n = dx * dx + dy * dy;
    let dd = d * d;
    let diagonal = width * width + height * height;
    if n >= s * s {
        assert(dd * (s * s) <= dd * n) by (nonlinear_arith)
            requires 0 <= dd, s * s <= n, dd == d * d;
        assert(dd < diagonal) by (nonlinear_arith)
            requires dd * (s * s) < s * s * diagonal, 0 < s * s;
    }
}

/// Along one axis: where the origin and the probe at distance `d` both fall
/// on pixels in `[0, limit)`, the way between them, squared, is less than
/// `limit` in fixed-point units, squared.
proof fn lemma_axis_within(o: int, v: int, d: int, limit: int)
    requires
        0 <= o / (SUBUNITS as int) < limit,
        0 <= (o + d * v) / (SUBUNITS as int) < limit,
    ensures
        (d * v) * (d * v) < (limit * SUBUNITS) * (limit * SUBUNITS),
{
    let t = d * v;
    let m = limit * 65536;
    assert(0 <= o < m);
    assert(0 <= o + t < m);
    assert(t * t < m * m) by (nonlinear_arith)
        requires -m < t < m;
}

/// A march is bounded by the grid's extent: where the probes at distances 0
/// and `d` both lie in a grid that spans at most `limit` pixels, `d` is
/// below `2 * limit`.
pub proof fn lemma_march_bounded(
    grid: Seq<Seq<char>>,
    block_size: int,
    limit: int,
    ray: Ray,
    d: int,
)
    requires
        0 < block_size,
        0 <= d,
        ray.wf(),
        span_within(grid, block_size, limit),
        in_grid(grid, block_size, ray.px(0), ray.py(0)),
        in_grid(grid, block_size, ray.px(d), ray.py(d)),
    ensures
        d < 2 * limit,
{
    lemma_in_grid_bounds(grid, block_size, limit, ray.px(0), ray.py(0));
    lemma_in_grid_bounds(grid, block_size, limit, ray.px(d), ray.py(d));
    assert(0 * ray.dx == 0 && 0 * ray.dy == 0);
    lemma_axis_bounded(ray.x as int, ray.dx as int, d, limit);
    lemma_axis_bounded(ray.y as int, ray.dy as int, d, limit);
}

/// Along one axis: where the origin and the probe at distance `d` both fall
/// on pixels in `[0, limit)` and the direction's component is at least half
/// a unit long, `d` is below `2 * limit`.
proof fn lemma_axis_bounded(o: int, v: int, d: int, limit: int)
    requires
        0 <= d,
        0 <= o / (SUBUNITS as int) < limit,
        0 <= (o + d * v) / (SUBUNITS as int) < limit,
    ensures
        2 * v >= SUBUNITS || 2 * v <= -SUBUNITS ==> d < 2 * limit,
{
    let t = d * v;
    assert(0 <= o < limit * 65536);
    assert(0 <= o + t < limit * 65536);
    if 2 * v >= SUBUNITS {
        assert(d * 65536 <= 2 * t) by (nonlinear_arith)
            requires 0 <= d, 2 * v >= 65536, t == d * v;
    } else if 2 * v <= -SUBUNITS {
        assert(d * 65536 <= -2 * t) by (nonlinear_arith)
            requires 0 <= d, 2 * v <= -65536, t == d * v;
    }
}

/// The probe at distance `d`: its pixel and the tag of its cell, or `None`
/// where it lies outside the grid.
fn locate(maze: &Vec<Vec<char>>, ray: &Ray, block_size: usize, d: u64) -> (found: Option<
    (usize, usize, char),
>)
    requires
        ray.wf(),
        0 < block_size,
        span_within(grid_of(maze), block_size as int, MAX_SPAN as int),
    ensures
        found.is_some() == in_grid(
            grid_of(maze),
            block_size as int,
            ray.px(d as int),
            ray.py(d as int),
        ),
        found.is_some() ==> found.unwrap().0 == ray.px(d as int) && found.unwrap().1 == ray.py(
            d as int,
        ) && found.unwrap().2 == tag_at(
            grid_of(maze),
            block_size as int,
            ray.px(d as int),
            ray.py(d as int),
        ),
{
    let ghost grid = grid_of(maze);
    let ghost bs = block_size as int;
    let fx: i128 = axis(ray.x, ray.dx, d);
    let fy: i128 = axis(ray.y, ray.dy, d);
    if fx < 0 || fy < 0 {
        proof {
            if in_grid(grid, bs, ray.px(d as int), ray.py(d as int)) {
                lemma_in_grid_bounds(grid, bs, MAX_SPAN as int, ray.px(d as int), ray.py(d as int));
            }
        }
        return None;
    }
    let px: u128 = (fx as u128) / (SUBUNITS as u128);
    let py: u128 = (fy as u128) / (SUBUNITS as u128);
    let i: u128 = px / (block_size as u128);
    let j: u128 = py / (block_size as u128);
    assert(px == ray.px(d as int) && py == ray.py(d as int));
    assert(i == ray.px(d as int) / bs && j == ray.py(d as int) / bs);
    if j >= maze.len() as u128 {
        return None;
    }
    let row: &Vec<char> = &maze[j as usize];
    if i >= row.len() as u128 {
        return None;
    }
    proof {
        lemma_in_grid_bounds(grid, bs, MAX_SPAN as int, ray.px(d as int), ray.py(d as int));
    }
    Some((px as usize, py as usize, row[i as usize]))
}

/// One fixed-point coordinate of the probe at distance `d`.
fn axis(origin: i64, dir: i64, d: u64) -> (at: i128)
    requires
        -SUBUNITS <= dir <= SUBUNITS,
    ensures
        at == origin + d * dir,
{
    assert(-(0x1_0000_0000_0000_0000int * 65536) <= d * dir <= 0x1_0000_0000_0000_0000int * 65536)
        by (nonlinear_arith)
        requires 0 <= d < 0x1_0000_0000_0000_0000int, -65536 <= dir <= 65536;
    (origin as i128) + (d as i128) * (dir as i128)
}

/// Texture coordinate of a hit at pixel `(px, py)`, over `block_size`.
fn texture_offset(px: usize, py: usize, block_size: usize) -> (t: usize)
    requires
        0 < block_size,
    ensures
        t == tex_numerator(px as int, py as int, block_size as int),
        t < block_size,
{
    let fx: usize = px % block_size;
    let fy: usize = py % block_size;
    if fx == 0 {
        fy
    } else if fy == 0 {
        fx
    } else if fx > fy {
        fy
    } else {
        fx
    }
}

/// Marches `ray` through the grid from distance 0 in steps of
/// `options.step` and returns what the first probe that ends the march met.
/// The march is bounded by the grid: its last probe but one lies within the
/// grid's diagonal of the origin. The draw colour becomes white; with
/// `options.draw_line` every probe inside the grid is plotted.
pub fn cast_ray(
    framebuffer: &mut Framebuffer,
    maze: &Vec<Vec<char>>,
    ray: &Ray,
    block_size: usize,
    options: &CastOptions,
) -> (hit: Intersect)
    requires
        old(framebuffer).wf(),
        ray.wf(),
        0 < block_size,
        0 < options.step,
        span_within(grid_of(maze), block_size as int, MAX_SPAN as int),
    ensures
        march_ends_at(
            grid_of(maze),
            block_size as int,
            options.stop_at_markers,
            *ray,
            options.step as int,
            hit.distance as int,
        ),
        hit == outcome(grid_of(maze), block_size, *ray, hit.distance),
        hit == cast_outcome(grid_of(maze), block_size, *ray, *options),
        hit.impact != EMPTY <==> in_grid(
            grid_of(maze),
            block_size as int,
            ray.px(hit.distance as int),
            ray.py(hit.distance as int),
        ),
        hit.impact == EMPTY ==> hit.tex_coord == 0,
        hit.impact != EMPTY ==> hit.tex_coord < hit.tex_scale,
        forall|limit: int| #[trigger]
            span_within(grid_of(maze), block_size as int, limit) ==> hit.distance < 2 * limit
                + options.step,
        forall|width: int, height: int| #[trigger]
            extent_within(grid_of(maze), block_size as int, width, height) && hit.distance
                >= options.step ==> (hit.distance - options.step) * (hit.distance - options.step)
                * norm_squared(*ray) < SUBUNITS * SUBUNITS * (width * width + height * height),
        final(framebuffer).wf(),
        final(framebuffer).width == old(framebuffer).width,
        final(framebuffer).height == old(framebuffer).height,
        final(framebuffer).background_color == old(framebuffer).background_color,
        final(framebuffer).current_color == WHITE,
        forall|px: int, py: int| #![trigger final(framebuffer).pixel(px, py)]
            old(framebuffer).contains(px, py) ==> final(framebuffer).pixel(px, py) == if options.draw_line
                && on_trace(*ray, options.step as int, probes_in_grid(hit, options.step as int), px, py) {
                WHITE
            } else {
                old(framebuffer).pixel(px, py)
            },
{
    let ghost grid = grid_of(maze);
    let ghost bs = block_size as int;
    let ghost step = options.step as int;
    let stop: bool = options.stop_at_markers;
    framebuffer.set_current_color(WHITE);
    let mut d: u64 = 0;
    let ghost mut k: int = 0;
    loop
        invariant
            ray.wf(),
            0 < block_size,
            bs == block_size as int,
            step == options.step as int,
            0 < step,
            stop == options.stop_at_markers,
            grid == grid_of(maze),
            span_within(grid, bs, MAX_SPAN as int),
            0 <= k,
            d == k * step,
            d < 2 * MAX_SPAN + step,
            forall|j: int| 0 <= j < k ==> !#[trigger] probe_halts(grid, bs, stop, *ray, step, j),
            framebuffer.wf(),
            framebuffer.width == old(framebuffer).width,
            framebuffer.height == old(framebuffer).height,
            framebuffer.background_color == old(framebuffer).background_color,
            framebuffer.current_color == WHITE,
            forall|px: int, py: int| #![trigger framebuffer.pixel(px, py)]
                old(framebuffer).contains(px, py) ==> framebuffer.pixel(px, py) == if options.draw_line
                    && on_trace(*ray, step, k, px, py) {
                    WHITE
                } else {
                    old(framebuffer).pixel(px, py)
                },
        decreases 2 * MAX_SPAN + step - d,
    {
        let ghost before = *framebuffer;
        assert(d as int / step == k && d as int % step == 0) by (nonlinear_arith)
            requires d == k * step, 0 < step, 0 <= k;
        match locate(maze, ray, block_size, d) {
            None => {
                let hit = Intersect { distance: d, impact: EMPTY, tex_coord: 0, tex_scale: block_size };
                proof {
                    lemma_bound_for_all(grid, bs, *ray, step, stop, k);
                    lemma_diagonal_for_all(grid, bs, *ray, step, stop, k);
                    assert(probes_in_grid(hit, step) == k);
                    assert(march_ends_at(grid, bs, stop, *ray, step, d as int));
                    lemma_march_end_unique(
                        grid,
                        bs,
                        stop,
                        *ray,
                        step,
                        d as int,
                        cast_distance(grid, bs, stop, *ray, step),
                    );
                }
                return hit;
            },
            Some((px, py, tag)) => {
                if options.draw_line {
                    framebuffer.point(px, py);
                }
                proof {
                    lemma_trace_extend(*ray, step, k);
                    assert forall|qx: int, qy: int| old(framebuffer).contains(qx, qy) implies (
                    #[trigger] framebuffer.pixel(qx, qy)) == if options.draw_line && on_trace(
                        *ray,
                        step,
                        k + 1,
                        qx,
                        qy,
                    ) {
                        WHITE
                    } else {
                        old(framebuffer).pixel(qx, qy)
                    } by {
                        assert(before.pixel(qx, qy) == if options.draw_line && on_trace(
                            *ray,
                            step,
                            k,
                            qx,
                            qy,
                        ) {
                            WHITE
                        } else {
                            old(framebuffer).pixel(qx, qy)
                        });
                        assert(probe_on(*ray, step, k, qx, qy) == (qx == px && qy == py));
                    }
                }
                let halted: bool = if stop {
                    tag != EMPTY
                } else {
                    tag != EMPTY && tag != START && tag != GOAL
                };
                if halted {
                    let t: usize = texture_offset(px, py, block_size);
                    let hit = Intersect { distance: d, impact: tag, tex_coord: t, tex_scale: block_size };
                    proof {
                        lemma_bound_for_all(grid, bs, *ray, step, stop, k);
                    lemma_diagonal_for_all(grid, bs, *ray, step, stop, k);
                        assert(probes_in_grid(hit, step) == k + 1);
                        assert(march_ends_at(grid, bs, stop, *ray, step, d as int));
                        lemma_march_end_unique(
                            grid,
                            bs,
                            stop,
                            *ray,
                            step,
                            d as int,
                            cast_distance(grid, bs, stop, *ray, step),
                        );
                    }
                    return hit;
                }
                proof {
                    assert(!probe_halts(grid, bs, stop, *ray, step, k));
                    lemma_first_probe_in_grid(grid, bs, *ray, step, stop, k);
                    lemma_march_bounded(grid, bs, MAX_SPAN as int, *ray, d as int);
                    assert((k + 1) * step == k * step + step) by (nonlinear_arith);
                }
                d = d + options.step as u64;
                proof {
                    k = k + 1;
                }
            },
        }
    }
}

/// A trace of `k + 1` probes covers what the trace of `k` probes covers and
/// the pixel of probe `k`.
proof fn lemma_trace_extend(ray: Ray, step: int, k: int)
    requires
        0 <= k,
    ensures
        forall|px: int, py: int|
            #[trigger] on_trace(ray, step, k + 1, px, py) == (on_trace(ray, step, k, px, py)
                || probe_on(ray, step, k, px, py)),
{
    assert forall|px: int, py: int|
        #[trigger] on_trace(ray, step, k + 1, px, py) == (on_trace(ray, step, k, px, py)
            || probe_on(ray, step, k, px, py)) by {
        if on_trace(ray, step, k + 1, px, py) {
            let j = choose|j: int| 0 <= j < k + 1 && #[trigger] probe_on(ray, step, j, px, py);
            if j < k {
                assert(on_trace(ray, step, k, px, py));
            }
        }
        if on_trace(ray, step, k, px, py) {
            let j = choose|j: int| 0 <= j < k && #[trigger] probe_on(ray, step, j, px, py);
            assert(0 <= j < k + 1 && probe_on(ray, step, j, px, py));
        }
        if probe_on(ray, step, k, px, py) {
            assert(0 <= k < k + 1 && probe_on(ray, step, k, px, py));
        }
    }
}

/// Where no probe before number `k` ended the march and `k` is not the
/// first, the origin lies inside the grid.
proof fn lemma_first_probe_in_grid(
    grid: Seq<Seq<char>>,
    block_size: int,
    ray: Ray,
    step: int,
    stop: bool,
    k: int,
)
    requires
        0 <= k,
        forall|j: int| 0 <= j <= k ==> !#[trigger] probe_halts(grid, block_size, stop, ray, step, j),
    ensures
        in_grid(grid, block_size, ray.px(0), ray.py(0)),
        in_grid(grid, block_size, ray.px(k * step), ray.py(k * step)),
{
    assert(!probe_halts(grid, block_size, stop, ray, step, 0));
    assert(!probe_halts(grid, block_size, stop, ray, step, k));
    assert(0 * step == 0);
}

/// A march whose first `k` probes did not end it has gone less than twice
/// any span of the grid, and one step.
proof fn lemma_bound_for_all(
    grid: Seq<Seq<char>>,
    block_size: int,
    ray: Ray,
    step: int,
    stop: bool,
    k: int,
)
    requires
        0 < block_size,
        0 < step,
        0 <= k,
        ray.wf(),
        forall|j: int| 0 <= j < k ==> !#[trigger] probe_halts(grid, block_size, stop, ray, step, j),
    ensures
        forall|limit: int| #[trigger]
            span_within(grid, block_size, limit) ==> k * step < 2 * limit + step,
{
    assert forall|limit: int| #[trigger] span_within(grid, block_size, limit) implies k * step < 2
        * limit + step by {
        assert(0 <= grid.len() * block_size) by (nonlinear_arith)
            requires 0 < block_size, 0 <= grid.len();
        if k > 0 {
            lemma_first_probe_in_grid(grid, block_size, ray, step, stop, k - 1);
            assert(0 <= (k - 1) * step && k * step == (k - 1) * step + step) by (nonlinear_arith)
                requires 0 < step, 0 < k;
            lemma_march_bounded(grid, block_size, limit, ray, (k - 1) * step);
        } else {
            assert(0 * step == 0);
        }
    }
}

/// A march whose first `k` probes did not end it has, up to the last of
/// them, stayed within the diagonal of any extent of the grid.
proof fn lemma_diagonal_for_all(
    grid: Seq<Seq<char>>,
    block_size: int,
    ray: Ray,
    step: int,
    stop: bool,
    k: int,
)
    requires
        0 < block_size,
        0 < step,
        0 <= k,
        forall|j: int| 0 <= j < k ==> !#[trigger] probe_halts(grid, block_size, stop, ray, step, j),
    ensures
        forall|width: int, height: int| #[trigger]
            extent_within(grid, block_size, width, height) && k * step >= step ==> (k * step - step)
                * (k * step - step) * norm_squared(ray) < SUBUNITS * SUBUNITS * (width * width
                + height * height),
{
    assert forall|width: int, height: int| #[trigger]
        extent_within(grid, block_size, width, height) && k * step >= step implies (k * step - step)
        * (k * step - step) * norm_squared(ray) < SUBUNITS * SUBUNITS * (width * width + height
        * height) by {
        if k > 0 {
            lemma_first_probe_in_grid(grid, block_size, ray, step, stop, k - 1);
            assert(0 <= (k - 1) * step && k * step - step == (k - 1) * step) by (nonlinear_arith)
                requires 0 < step, 0 < k;
            lemma_march_within_diagonal(grid, block_size, width, height, ray, (k - 1) * step);
        } else {
            assert(0 * step == 0);
        }
    }
}

/// A march ends at one distance only.
pub proof fn lemma_march_end_unique(
    grid: Seq<Seq<char>>,
    block_size: int,
    stop_at_markers: bool,
    ray: Ray,
    step: int,
    d1: int,
    d2: int,
)
    requires
        0 < step,
        march_ends_at(grid, block_size, stop_at_markers, ray, step, d1),
        march_ends_at(grid, block_size, stop_at_markers, ray, step, d2),
    ensures
        d1 == d2,
{
    let k1 = d1 / step;
    let k2 = d2 / step;
    assert(d1 == k1 * step && d2 == k2 * step && 0 <= k1 && 0 <= k2) by (nonlinear_arith)
        requires
            0 < step,
            0 <= d1,
            0 <= d2,
            d1 % step == 0,
            d2 % step == 0,
            k1 == d1 / step,
            k2 == d2 / step,
    ;
    if k1 < k2 {
        assert(!probe_halts(grid, block_size, stop_at_markers, ray, step, k1));
    }
    if k2 < k1 {
        assert(!probe_halts(grid, block_size, stop_at_markers, ray, step, k2));
    }
}

/// Along an axis the probe at distance `d` lies exactly `d` pixels from the
/// origin's pixel: a ray whose direction is one unit along one axis moves
/// one pixel per unit of distance.
pub proof fn lemma_axis_aligned_probe(ray: Ray, d: int)
    requires
        ray.dx == SUBUNITS || ray.dx == -SUBUNITS || ray.dx == 0,
        ray.dy == SUBUNITS || ray.dy == -SUBUNITS || ray.dy == 0,
    ensures
        ray.px(d) == ray.px(0) + d * (ray.dx / SUBUNITS),
        ray.py(d) == ray.py(0) + d * (ray.dy / SUBUNITS),
{
    assert(0 * ray.dx == 0 && 0 * ray.dy == 0);
    assert(d * 65536 == 65536 * d && d * (-65536) == -(65536 * d) && d * 0 == 0 && d * 1 == d && d
        * (-1) == -d) by (nonlinear_arith);
    assert(65536int / 65536 == 1 && (-65536int) / 65536 == -1 && 0int / 65536 == 0);
}

/// Step-bounded accuracy. A ray runs along an axis towards a wall `wall`
/// pixels away: nothing ends the march on the pixels before it, and every
/// pixel from there on, for the length of the coarser step `coarse`, does.
/// Then a march with any step up to `coarse` reports a distance that is at
/// least `wall` and less than one step beyond it, so within `coarse` of the
/// true distance.
pub proof fn lemma_step_bounded_accuracy(
    grid: Seq<Seq<char>>,
    block_size: int,
    stop_at_markers: bool,
    ray: Ray,
    wall: int,
    fine: int,
    coarse: int,
    d_fine: int,
    d_coarse: int,
)
    requires
        0 < fine < coarse,
        0 <= wall,
        (ray.dx == SUBUNITS || ray.dx == -SUBUNITS) && ray.dy == 0 || ray.dx == 0 && (ray.dy
            == SUBUNITS || ray.dy == -SUBUNITS),
        forall|d: int|
            0 <= d < wall ==> !#[trigger] halts_at(
                grid,
                block_size,
                stop_at_markers,
                ray.px(0) + d * (ray.dx / SUBUNITS),
                ray.py(0) + d * (ray.dy / SUBUNITS),
            ),
        forall|d: int|
            wall <= d < wall + coarse ==> #[trigger] halts_at(
                grid,
                block_size,
                stop_at_markers,
                ray.px(0) + d * (ray.dx / SUBUNITS),
                ray.py(0) + d * (ray.dy / SUBUNITS),
            ),
        march_ends_at(grid, block_size, stop_at_markers, ray, fine, d_fine),
        march_ends_at(grid, block_size, stop_at_markers, ray, coarse, d_coarse),
    ensures
        wall <= d_fine < wall + fine,
        wall <= d_coarse < wall + coarse,
        -coarse < d_fine - d_coarse < coarse,
{
    lemma_march_accuracy(grid, block_size, stop_at_markers, ray, wall, fine, coarse, d_fine);
    lemma_march_accuracy(grid, block_size, stop_at_markers, ray, wall, coarse, coarse, d_coarse);
}

/// One march of the law above: with a step of at most `thick`, the march
/// ends at the first multiple of the step that is at least `wall`.
proof fn lemma_march_accuracy(
    grid: Seq<Seq<char>>,
    block_size: int,
    stop_at_markers: bool,
    ray: Ray,
    wall: int,
    step: int,
    thick: int,
    d: int,
)
    requires
        0 < step <= thick,
        0 <= wall,
        ray.dx == SUBUNITS || ray.dx == -SUBUNITS || ray.dx == 0,
        ray.dy == SUBUNITS || ray.dy == -SUBUNITS || ray.dy == 0,
        forall|e: int|
            0 <= e < wall ==> !#[trigger] halts_at(
                grid,
                block_size,
                stop_at_markers,
                ray.px(0) + e * (ray.dx / SUBUNITS),
                ray.py(0) + e * (ray.dy / SUBUNITS),
            ),
        forall|e: int|
            wall <= e < wall + thick ==> #[trigger] halts_at(
                grid,
                block_size,
                stop_at_markers,
                ray.px(0) + e * (ray.dx / SUBUNITS),
                ray.py(0) + e * (ray.dy / SUBUNITS),
            ),
        march_ends_at(grid, block_size, stop_at_markers, ray, step, d),
    ensures
        wall <= d < wall + step,
{
    let k = d / step;
    assert(d == k * step && 0 <= k) by (nonlinear_arith)
        requires 0 <= d, d % step == 0, 0 < step, k == d / step;
    lemma_axis_aligned_probe(ray, d);
    if d < wall {
        assert(!halts_at(
            grid,
            block_size,
            stop_at_markers,
            ray.px(0) + d * (ray.dx / SUBUNITS),
            ray.py(0) + d * (ray.dy / SUBUNITS),
        ));
        assert(false);
    }
    if d >= wall + step {
        // The first multiple of the step at or beyond the wall is an earlier probe.
        let j = (wall + step - 1) / step;
        let e = j * step;
        assert(wall <= e < wall + step && 0 <= j) by (nonlinear_arith)
            requires 0 <= wall, 0 < step, j == (wall + step - 1) / step, e == j * step;
        assert(j < k) by (nonlinear_arith)
            requires j * step < wall + step, wall + step <= k * step, 0 < step;
        lemma_axis_aligned_probe(ray, e);
        assert(halts_at(
            grid,
            block_size,
            stop_at_markers,
            ray.px(0) + e * (ray.dx / SUBUNITS),
            ray.py(0) + e * (ray.dy / SUBUNITS),
        ));
        assert(probe_halts(grid, block_size, stop_at_markers, ray, step, j));
        assert(false);
    }
}

/// Texture-coordinate continuity. Two hits in the same cell and on the same
/// kind of face, at most `reach` pixels apart along each axis, have texture
/// numerators at most `reach` apart: coordinates within `reach / block_size`
/// of each other.
pub proof fn lemma_tex_coord_continuous(
    px1: int,
    py1: int,
    px2: int,
    py2: int,
    block_size: int,
    reach: int,
)
    requires
        0 < block_size,
        px1 / block_size == px2 / block_size,
        py1 / block_size == py2 / block_size,
        (px1 % block_size == 0) == (px2 % block_size == 0),
        (py1 % block_size == 0) == (py2 % block_size == 0),
        -reach <= px1 - px2 <= reach,
        -reach <= py1 - py2 <= reach,
    ensures
        -reach <= tex_numerator(px1, py1, block_size) - tex_numerator(px2, py2, block_size) <= reach,
{
    assert(px1 % block_size - px2 % block_size == px1 - px2) by (nonlinear_arith)
        requires 0 < block_size, px1 / block_size == px2 / block_size;
    assert(py1 % block_size - py2 % block_size == py1 - py2) by (nonlinear_arith)
        requires 0 < block_size, py1 / block_size == py2 / block_size;
}

} // verus!
