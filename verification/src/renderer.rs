//! The scene renderer: the first-person view, one textured and shaded wall
//! span per screen column over a gradient backdrop, and the top-down map.

use vstd::prelude::*;
use image::DynamicImage;
use crate::caster::{
    cast_outcome,
    cast_ray,
    on_trace,
    probes_in_grid,
    CastOptions,
    Intersect,
    Ray,
    SUBUNITS,
};
use crate::framebuffer::{Framebuffer, WHITE};
use crate::maze::{grid_of, has_cell, span_within, EMPTY, GOAL, MAX_SPAN, START};
use crate::projection::{
    in_stake,
    stake_bottom,
    stake_span,
    stake_top,
    texture_column,
    texture_column_of,
    texture_row,
    texture_row_of,
    MAX_DEPTH,
};
use crate::shading::{
    blend_color_with_opacity,
    curve,
    fog_opacity,
    gradient_color,
    interpolate_color,
    opacity,
    pack,
    pack_rgb,
    ratio,
    ratio16,
    shade,
};
use crate::textures::{height_of, image_height, image_pixel, image_width, pixel_of, width_of, Textures};

verus! {

/// Colour of the ceiling at the top of the screen.
pub const CEILING_COLOR: u32 = 0x252423;

/// Colour of the floor at the bottom of the screen.
pub const FLOOR_COLOR: u32 = 0x5b6567;

/// How the first-person view is projected and its rays are marched.
#[derive(Clone, Copy, Debug)]
pub struct Camera {
    /// Distance of the projection plane: the greater, the taller the walls.
    pub plane_distance: u32,
    /// Distance from which on a wall is black.
    pub max_distance: u32,
    /// Distance between two probes of a ray, in pixels.
    pub step: u32,
    /// Whether the start and goal cells show as walls.
    pub stop_at_markers: bool,
}

impl Camera {
    /// The way the rays of this view are marched: nothing is plotted.
    pub open spec fn cast_options(&self) -> CastOptions {
        CastOptions { step: self.step, stop_at_markers: self.stop_at_markers, draw_line: false }
    }

    /// The view of the game: plane at 90, black from 120 on, probes one
    /// pixel apart, start and goal cells seen through.
    pub fn classic() -> (camera: Camera)
        ensures
            camera == (Camera { plane_distance: 90, max_distance: 120, step: 1, stop_at_markers: false }),
    {
        Camera { plane_distance: 90, max_distance: 120, step: 1, stop_at_markers: false }
    }
}

/// Colour of the backdrop in row `y` of a screen of `height` rows, over a
/// pixel that showed `under`. The upper half fades from the ceiling colour
/// at the top to black at the horizon, the lower half from the floor colour
/// at the bottom to black at the horizon; the middle row of a screen with
/// an odd number of rows is left as it was.
pub open spec fn backdrop_pixel(under: u32, y: int, height: int) -> u32 {
    let half = height / 2;
    if y < half {
        gradient_color(CEILING_COLOR, 0, curve(ratio16(2 * y, height)))
    } else if y >= height - half {
        gradient_color(FLOOR_COLOR, 0, curve(ratio16(2 * (height - 1 - y), height)))
    } else {
        under
    }
}

/// Whether a ray that met `hit` puts a wall on row `y`: the tag it met has
/// a texture that is not empty, and the row lies in the wall's span.
pub open spec fn wall_shows(textures: Textures, hit: Intersect, y: int, height: int, camera: Camera) -> bool {
    match textures.bound_to(hit.impact) {
        Some(texture) => image_width(texture) > 0 && image_height(texture) > 0 && in_stake(
            y,
            height,
            hit.distance as int,
            camera.plane_distance as int,
        ),
        None => false,
    }
}

/// Colour of a wall of the given texture on row `y`: the texel under the
/// hit's texture coordinate and the row's share of the span, blended
/// towards black by distance.
pub open spec fn wall_pixel(texture: DynamicImage, hit: Intersect, y: int, height: int, camera: Camera) -> u32 {
    let column = texture_column(
        hit.tex_coord as int,
        hit.tex_scale as int,
        image_width(texture) as int,
    );
    let row = texture_row(
        y,
        height,
        hit.distance as int,
        camera.plane_distance as int,
        image_height(texture) as int,
    );
    let texel = image_pixel(texture, column as u32, row as u32);
    let level = opacity(hit.distance as int, camera.max_distance as int);
    pack_rgb(
        shade(texel.0 as int, level, camera.max_distance as int) as u32,
        shade(texel.1 as int, level, camera.max_distance as int) as u32,
        shade(texel.2 as int, level, camera.max_distance as int) as u32,
    )
}

/// Colour of pixel `(x, y)` of the first-person view over a pixel that
/// showed `under`: the wall that the ray of column `x` met, where it shows,
/// and the backdrop elsewhere.
pub open spec fn scene_pixel(
    under: u32,
    x: int,
    y: int,
    height: int,
    grid: Seq<Seq<char>>,
    block_size: usize,
    rays: Seq<Ray>,
    textures: Textures,
    camera: Camera,
) -> u32 {
    if x < rays.len() && wall_shows(
        textures,
        cast_outcome(grid, block_size, rays[x], camera.cast_options()),
        y,
        height,
        camera,
    ) {
        wall_pixel(
            textures.bound_to(
                cast_outcome(grid, block_size, rays[x], camera.cast_options()).impact,
            ).unwrap(),
            cast_outcome(grid, block_size, rays[x], camera.cast_options()),
            y,
            height,
            camera,
        )
    } else {
        backdrop_pixel(under, y, height)
    }
}

/// Paints the backdrop: the ceiling gradient on the upper half of the
/// screen and the floor gradient on the lower half.
pub fn draw_backdrop(framebuffer: &mut Framebuffer)
    requires
        old(framebuffer).wf(),
    ensures
        final(framebuffer).wf(),
        final(framebuffer).same_frame(old(framebuffer)),
        forall|px: int, py: int| #![trigger final(framebuffer).pixel(px, py)]
            old(framebuffer).contains(px, py) ==> final(framebuffer).pixel(px, py) == backdrop_pixel(
                old(framebuffer).pixel(px, py),
                py,
                old(framebuffer).height as int,
            ),
{
    let height: usize = framebuffer.height;
    let half: usize = height / 2;
    let mut y: usize = 0;
    while y < half
        invariant
            y <= half,
            half == height / 2,
            height == old(framebuffer).height,
            framebuffer.wf(),
            framebuffer.same_frame(old(framebuffer)),
            forall|px: int, py: int| #![trigger framebuffer.pixel(px, py)]
                old(framebuffer).contains(px, py) ==> framebuffer.pixel(px, py) == if py < y || py
                    >= height - y {
                    backdrop_pixel(old(framebuffer).pixel(px, py), py, height as int)
                } else {
                    old(framebuffer).pixel(px, py)
                },
        decreases half - y,
    {
        let t: u32 = ratio(2 * y, height);
        let ceiling: u32 = interpolate_color(CEILING_COLOR, 0, t);
        framebuffer.fill_rows(y, y + 1, ceiling);
        let floor: u32 = interpolate_color(FLOOR_COLOR, 0, t);
        framebuffer.fill_rows(height - y - 1, height - y, floor);
        y += 1;
    }
}

/// Renders the first-person view. Column `x` of the screen shows what the
/// ray `rays[x]` meets; columns without a ray show the backdrop. The draw
/// colour is left white.
pub fn render3d(
    framebuffer: &mut Framebuffer,
    rays: &Vec<Ray>,
    maze: &Vec<Vec<char>>,
    block_size: usize,
    textures: &Textures,
    camera: &Camera,
)
    requires
        old(framebuffer).wf(),
        old(framebuffer).height <= MAX_SPAN,
        0 < block_size,
        0 < camera.step,
        span_within(grid_of(maze), block_size as int, MAX_SPAN as int),
        forall|i: int| 0 <= i < rays@.len() ==> (#[trigger] rays@[i]).wf(),
    ensures
        final(framebuffer).wf(),
        final(framebuffer).width == old(framebuffer).width,
        final(framebuffer).height == old(framebuffer).height,
        final(framebuffer).background_color == old(framebuffer).background_color,
        final(framebuffer).current_color == WHITE,
        forall|px: int, py: int| #![trigger final(framebuffer).pixel(px, py)]
            old(framebuffer).contains(px, py) ==> final(framebuffer).pixel(px, py) == scene_pixel(
                old(framebuffer).pixel(px, py),
                px,
                py,
                old(framebuffer).height as int,
                grid_of(maze),
                block_size,
                rays@,
                *textures,
                *camera,
            ),
{
    let ghost grid = grid_of(maze);
    let height: usize = framebuffer.height;
    let options = CastOptions { step: camera.step, stop_at_markers: camera.stop_at_markers, draw_line: false };
    draw_backdrop(framebuffer);
    framebuffer.set_current_color(WHITE);
    let columns: usize = if rays.len() < framebuffer.width {
        rays.len()
    } else {
        framebuffer.width
    };
    let mut x: usize = 0;
    while x < columns
        invariant
            x <= columns,
            columns <= rays@.len(),
            columns <= framebuffer.width,
            columns == rays@.len() || columns == framebuffer.width,
            height == old(framebuffer).height,
            height <= MAX_SPAN,
            0 < block_size,
            0 < camera.step,
            options == camera.cast_options(),
            grid == grid_of(maze),
            span_within(grid, block_size as int, MAX_SPAN as int),
            forall|i: int| 0 <= i < rays@.len() ==> (#[trigger] rays@[i]).wf(),
            framebuffer.wf(),
            framebuffer.width == old(framebuffer).width,
            framebuffer.height == old(framebuffer).height,
            framebuffer.background_color == old(framebuffer).background_color,
            framebuffer.current_color == WHITE,
            forall|px: int, py: int| #![trigger framebuffer.pixel(px, py)]
                old(framebuffer).contains(px, py) ==> framebuffer.pixel(px, py) == if px < x {
                    scene_pixel(
                        old(framebuffer).pixel(px, py),
                        px,
                        py,
                        height as int,
                        grid,
                        block_size,
                        rays@,
                        *textures,
                        *camera,
                    )
                } else {
                    backdrop_pixel(old(framebuffer).pixel(px, py), py, height as int)
                },
        decreases columns - x,
    {
        let hit: Intersect = cast_ray(framebuffer, maze, &rays[x], block_size, &options);
        assert(hit.distance <= MAX_DEPTH);
        draw_stake(framebuffer, x, &hit, textures, camera);
        x += 1;
    }
}

/// Paints the wall that a ray met on column `x`, where it shows.
fn draw_stake(framebuffer: &mut Framebuffer, x: usize, hit: &Intersect, textures: &Textures, camera: &Camera)
    requires
        old(framebuffer).wf(),
        old(framebuffer).height <= MAX_SPAN,
        x < old(framebuffer).width,
        hit.distance <= MAX_DEPTH,
        hit.impact != EMPTY ==> hit.tex_coord < hit.tex_scale,
    ensures
        final(framebuffer).wf(),
        final(framebuffer).same_frame(old(framebuffer)),
        forall|px: int, py: int| #![trigger final(framebuffer).pixel(px, py)]
            old(framebuffer).contains(px, py) ==> final(framebuffer).pixel(px, py) == if px == x
                && wall_shows(*textures, *hit, py, old(framebuffer).height as int, *camera) {
                wall_pixel(
                    textures.bound_to(hit.impact).unwrap(),
                    *hit,
                    py,
                    old(framebuffer).height as int,
                    *camera,
                )
            } else {
                old(framebuffer).pixel(px, py)
            },
{
    let texture: &DynamicImage = match textures.lookup(hit.impact) {
        None => {
            return ;
        },
        Some(t) => t,
    };
    let columns: u32 = width_of(texture);
    let rows: u32 = height_of(texture);
    if columns == 0 || rows == 0 {
        return ;
    }
    let height: usize = framebuffer.height;
    let (top, bottom) = stake_span(height, hit.distance, camera.plane_distance);
    let level: u32 = fog_opacity(hit.distance, camera.max_distance);
    let column: u32 = texture_column_of(hit.tex_coord, hit.tex_scale, columns);
    let mut y: usize = top;
    while y < bottom
        invariant
            top <= y,
            bottom <= height,
            height == old(framebuffer).height,
            height <= MAX_SPAN,
            x < framebuffer.width,
            hit.distance <= MAX_DEPTH,
            0 < rows,
            rows == image_height(*texture),
            columns == image_width(*texture),
            column < columns,
            column == texture_column(hit.tex_coord as int, hit.tex_scale as int, columns as int),
            level == opacity(hit.distance as int, camera.max_distance as int),
            level <= camera.max_distance,
            textures.bound_to(hit.impact) == Some(*texture),
            top == stake_top(
                height as int,
                hit.distance as int,
                camera.plane_distance as int,
            ),
            bottom == if stake_bottom(
                height as int,
                hit.distance as int,
                camera.plane_distance as int,
            ) < height {
                stake_bottom(
                    height as int,
                    hit.distance as int,
                    camera.plane_distance as int,
                )
            } else {
                height as int
            },
            framebuffer.wf(),
            framebuffer.same_frame(old(framebuffer)),
            forall|px: int, py: int| #![trigger framebuffer.pixel(px, py)]
                old(framebuffer).contains(px, py) ==> framebuffer.pixel(px, py) == if px == x && py
                    < y && wall_shows(*textures, *hit, py, height as int, *camera) {
                    wall_pixel(*texture, *hit, py, height as int, *camera)
                } else {
                    old(framebuffer).pixel(px, py)
                },
        decreases bottom - y,
    {
        let row: u32 = texture_row_of(y, height, hit.distance, camera.plane_distance, rows);
        let texel: (u8, u8, u8, u8) = pixel_of(texture, column, row);
        let blended: (u8, u8, u8, u8) = blend_color_with_opacity(texel, level, camera.max_distance);
        let color: u32 = pack(blended.0 as u32, blended.1 as u32, blended.2 as u32);
        framebuffer.put(x, y, color);
        y += 1;
    }
}

/// Colour of the player's dot on the map.
pub const PLAYER_COLOR: u32 = 0xFFDDD;

/// Whether a cell with this tag shows on the map: all but the empty and
/// the start cells.
pub open spec fn shows_on_map(tag: char) -> bool {
    tag != EMPTY && tag != START
}

/// Colour of a cell on the map: one per wall tag and one for the goal. A
/// cell with any other tag takes the draw colour `ink` of the moment.
pub open spec fn cell_color(tag: char, ink: u32) -> u32 {
    if tag == GOAL {
        0xffbf00
    } else if tag == '|' {
        0xb3cde0
    } else if tag == '-' {
        0x005b96
    } else if tag == '+' {
        0x011f4b
    } else {
        ink
    }
}

/// The draw colour after a cell is drawn with the draw colour `ink`.
pub open spec fn ink_after_cell(ink: u32, tag: char) -> u32 {
    if shows_on_map(tag) {
        cell_color(tag, ink)
    } else {
        ink
    }
}

/// The draw colour after the first `n` cells of a row are drawn.
pub open spec fn ink_after_row(ink: u32, row: Seq<char>, n: int) -> u32
    decreases n,
{
    if n <= 0 {
        ink
    } else {
        ink_after_cell(ink_after_row(ink, row, n - 1), row[n - 1])
    }
}

/// The draw colour after the first `n` rows of a grid are drawn.
pub open spec fn ink_after_rows(ink: u32, grid: Seq<Seq<char>>, n: int) -> u32
    decreases n,
{
    if n <= 0 {
        ink
    } else {
        ink_after_row(ink_after_rows(ink, grid, n - 1), grid[n - 1], grid[n - 1].len() as int)
    }
}

/// Colour of pixel `(px, py)` of the map's cells over a pixel that showed
/// `under`: the colour of the cell that holds the pixel, where that cell
/// shows. `ink` is the draw colour before the first cell is drawn.
pub open spec fn cells_pixel(
    under: u32,
    px: int,
    py: int,
    grid: Seq<Seq<char>>,
    block_size: int,
    ink: u32,
) -> u32 {
    let row = py / block_size;
    let col = px / block_size;
    if has_cell(grid, row, col) && shows_on_map(grid[row][col]) {
        cell_color(grid[row][col], ink_after_row(ink_after_rows(ink, grid, row), grid[row], col))
    } else {
        under
    }
}

/// Whether the march of `ray` plots pixel `(px, py)`.
pub open spec fn ray_marks(
    grid: Seq<Seq<char>>,
    block_size: usize,
    options: CastOptions,
    ray: Ray,
    px: int,
    py: int,
) -> bool {
    options.draw_line && on_trace(
        ray,
        options.step as int,
        probes_in_grid(cast_outcome(grid, block_size, ray, options), options.step as int),
        px,
        py,
    )
}

/// Whether the march of one of the first `n` rays plots pixel `(px, py)`.
pub open spec fn rays_mark(
    grid: Seq<Seq<char>>,
    block_size: usize,
    options: CastOptions,
    rays: Seq<Ray>,
    n: int,
    px: int,
    py: int,
) -> bool {
    exists|i: int| 0 <= i < n && #[trigger] ray_marks(grid, block_size, options, rays[i], px, py)
}

/// Colour of pixel `(px, py)` of the map over a pixel that showed `under`:
/// white on a sightline, else the player's colour on the player's dot,
/// else the colour of the map's cells.
pub open spec fn map_pixel(
    under: u32,
    px: int,
    py: int,
    grid: Seq<Seq<char>>,
    block_size: usize,
    ink: u32,
    dot: (int, int),
    rays: Seq<Ray>,
    options: CastOptions,
) -> u32 {
    if rays_mark(grid, block_size, options, rays, rays.len() as int, px, py) {
        WHITE
    } else if px == dot.0 && py == dot.1 {
        PLAYER_COLOR
    } else {
        cells_pixel(under, px, py, grid, block_size as int, ink)
    }
}

/// Draws one cell of the map as a square of `block_size` pixels with its
/// top left corner at `(xo, yo)`, in the colour of its tag, which becomes
/// the draw colour. Empty and start cells draw nothing.
pub fn draw_cell(framebuffer: &mut Framebuffer, xo: usize, yo: usize, block_size: usize, cell: char)
    requires
        old(framebuffer).wf(),
    ensures
        final(framebuffer).wf(),
        final(framebuffer).width == old(framebuffer).width,
        final(framebuffer).height == old(framebuffer).height,
        final(framebuffer).background_color == old(framebuffer).background_color,
        final(framebuffer).current_color == ink_after_cell(old(framebuffer).current_color, cell),
        forall|px: int, py: int| #![trigger final(framebuffer).pixel(px, py)]
            old(framebuffer).contains(px, py) ==> final(framebuffer).pixel(px, py) == if shows_on_map(
                cell,
            ) && xo <= px < xo + block_size && yo <= py < yo + block_size {
                cell_color(cell, old(framebuffer).current_color)
            } else {
                old(framebuffer).pixel(px, py)
            },
{
    if cell == EMPTY || cell == START {
        return ;
    }
    if cell == '+' {
        framebuffer.set_current_color(0x011f4b);
    }
    if cell == '-' {
        framebuffer.set_current_color(0x005b96);
    }
    if cell == '|' {
        framebuffer.set_current_color(0xb3cde0);
    }
    if cell == GOAL {
        framebuffer.set_current_color(0xffbf00);
    }
    let color: u32 = framebuffer.current_color;
    let width: usize = framebuffer.width;
    let height: usize = framebuffer.height;
    if xo >= width || yo >= height {
        return ;
    }
    let x_end: usize = if block_size >= width - xo {
        width
    } else {
        xo + block_size
    };
    let y_end: usize = if block_size >= height - yo {
        height
    } else {
        yo + block_size
    };
    let mut x: usize = xo;
    while x < x_end
        invariant
            xo <= x <= x_end <= width,
            yo <= y_end <= height,
            width == old(framebuffer).width,
            height == old(framebuffer).height,
            x_end == if xo + block_size < width {
                xo + block_size
            } else {
                width as int
            },
            y_end == if yo + block_size < height {
                yo + block_size
            } else {
                height as int
            },
            framebuffer.wf(),
            framebuffer.width == old(framebuffer).width,
            framebuffer.height == old(framebuffer).height,
            framebuffer.background_color == old(framebuffer).background_color,
            framebuffer.current_color == color,
            forall|px: int, py: int| #![trigger framebuffer.pixel(px, py)]
                old(framebuffer).contains(px, py) ==> framebuffer.pixel(px, py) == if xo <= px < x
                    && yo <= py < yo + block_size {
                    color
                } else {
                    old(framebuffer).pixel(px, py)
                },
        decreases x_end - x,
    {
        let mut y: usize = yo;
        while y < y_end
            invariant
                xo <= x < x_end <= width,
                yo <= y <= y_end <= height,
                width == old(framebuffer).width,
                height == old(framebuffer).height,
                y_end == if yo + block_size < height {
                    yo + block_size
                } else {
                    height as int
                },
                framebuffer.wf(),
                framebuffer.width == old(framebuffer).width,
                framebuffer.height == old(framebuffer).height,
                framebuffer.background_color == old(framebuffer).background_color,
                framebuffer.current_color == color,
                forall|px: int, py: int| #![trigger framebuffer.pixel(px, py)]
                    old(framebuffer).contains(px, py) ==> framebuffer.pixel(px, py) == if (xo <= px
                        < x && yo <= py < yo + block_size) || (px == x && yo <= py < y) {
                        color
                    } else {
                        old(framebuffer).pixel(px, py)
                    },
            decreases y_end - y,
        {
            framebuffer.point(x, y);
            y += 1;
        }
        x += 1;
    }
}

/// A pixel coordinate lies in the block number `a` exactly when it lies
/// between the block's first pixel and the next block's first pixel.
proof fn lemma_block_of_pixel(p: int, a: int, block_size: int)
    requires
        0 < block_size,
    ensures
        (a * block_size <= p < a * block_size + block_size) == (p / block_size == a),
{
    let q = p / block_size;
    assert(p == q * block_size + p % block_size && 0 <= p % block_size < block_size)
        by (nonlinear_arith)
        requires 0 < block_size, q == p / block_size;
    if q < a {
        assert((q + 1) * block_size <= a * block_size && (q + 1) * block_size == q * block_size
            + block_size) by (nonlinear_arith)
            requires q + 1 <= a, 0 < block_size;
    }
    if q > a {
        assert((a + 1) * block_size <= q * block_size && (a + 1) * block_size == a * block_size
            + block_size) by (nonlinear_arith)
            requires a + 1 <= q, 0 < block_size;
    }
}

/// Draws the cells of the maze as squares of `block_size` pixels, row by
/// row from the top and each row from the left.
pub fn draw_cells(framebuffer: &mut Framebuffer, maze: &Vec<Vec<char>>, block_size: usize)
    requires
        old(framebuffer).wf(),
        0 < block_size,
        span_within(grid_of(maze), block_size as int, MAX_SPAN as int),
    ensures
        final(framebuffer).wf(),
        final(framebuffer).width == old(framebuffer).width,
        final(framebuffer).height == old(framebuffer).height,
        final(framebuffer).background_color == old(framebuffer).background_color,
        final(framebuffer).current_color == ink_after_rows(
            old(framebuffer).current_color,
            grid_of(maze),
            grid_of(maze).len() as int,
        ),
        forall|px: int, py: int| #![trigger final(framebuffer).pixel(px, py)]
            old(framebuffer).contains(px, py) ==> final(framebuffer).pixel(px, py) == cells_pixel(
                old(framebuffer).pixel(px, py),
                px,
                py,
                grid_of(maze),
                block_size as int,
                old(framebuffer).current_color,
            ),
{
    let ghost grid = grid_of(maze);
    let ghost bs = block_size as int;
    let ghost ink = framebuffer.current_color;
    let mut row: usize = 0;
    while row < maze.len()
        invariant
            row <= maze@.len(),
            0 < block_size,
            bs == block_size as int,
            grid == grid_of(maze),
            ink == old(framebuffer).current_color,
            span_within(grid, bs, MAX_SPAN as int),
            framebuffer.wf(),
            framebuffer.width == old(framebuffer).width,
            framebuffer.height == old(framebuffer).height,
            framebuffer.background_color == old(framebuffer).background_color,
            framebuffer.current_color == ink_after_rows(ink, grid, row as int),
            forall|px: int, py: int| #![trigger framebuffer.pixel(px, py)]
                old(framebuffer).contains(px, py) ==> framebuffer.pixel(px, py) == if py / bs < row {
                    cells_pixel(old(framebuffer).pixel(px, py), px, py, grid, bs, ink)
                } else {
                    old(framebuffer).pixel(px, py)
                },
        decreases maze@.len() - row,
    {
        let cells: &Vec<char> = &maze[row];
        let ghost row_ink = framebuffer.current_color;
        assert(grid[row as int] == cells@);
        assert(row * block_size <= grid.len() * block_size) by (nonlinear_arith)
            requires row < grid.len(), 0 < block_size;
        let mut col: usize = 0;
        while col < cells.len()
            invariant
                row < maze@.len(),
                cells == maze@[row as int],
                grid[row as int] == cells@,
                col <= cells@.len(),
                0 < block_size,
                bs == block_size as int,
                grid == grid_of(maze),
                ink == old(framebuffer).current_color,
                row_ink == ink_after_rows(ink, grid, row as int),
                span_within(grid, bs, MAX_SPAN as int),
                row * block_size <= MAX_SPAN,
                framebuffer.wf(),
                framebuffer.width == old(framebuffer).width,
                framebuffer.height == old(framebuffer).height,
                framebuffer.background_color == old(framebuffer).background_color,
                framebuffer.current_color == ink_after_row(row_ink, cells@, col as int),
                forall|px: int, py: int| #![trigger framebuffer.pixel(px, py)]
                    old(framebuffer).contains(px, py) ==> framebuffer.pixel(px, py) == if py / bs < row
                        || (py / bs == row && px / bs < col) {
                        cells_pixel(old(framebuffer).pixel(px, py), px, py, grid, bs, ink)
                    } else {
                        old(framebuffer).pixel(px, py)
                    },
            decreases cells@.len() - col,
        {
            assert(col * block_size <= cells@.len() * block_size) by (nonlinear_arith)
                requires col < cells@.len(), 0 < block_size;
            let ghost before = *framebuffer;
            draw_cell(framebuffer, col * block_size, row * block_size, block_size, cells[col]);
            proof {
                assert forall|px: int, py: int| old(framebuffer).contains(px, py) implies (
                #[trigger] framebuffer.pixel(px, py)) == if py / bs < row || (py / bs == row && px
                    / bs < col + 1) {
                    cells_pixel(old(framebuffer).pixel(px, py), px, py, grid, bs, ink)
                } else {
                    old(framebuffer).pixel(px, py)
                } by {
                    lemma_block_of_pixel(px, col as int, bs);
                    lemma_block_of_pixel(py, row as int, bs);
                    assert(before.pixel(px, py) == if py / bs < row || (py / bs == row && px / bs
                        < col) {
                        cells_pixel(old(framebuffer).pixel(px, py), px, py, grid, bs, ink)
                    } else {
                        old(framebuffer).pixel(px, py)
                    });
                }
            }
            col += 1;
        }
        row += 1;
    }
}

/// The marks of `n + 1` rays are those of the first `n` and those of ray
/// number `n`.
proof fn lemma_rays_mark_extend(
    grid: Seq<Seq<char>>,
    block_size: usize,
    options: CastOptions,
    rays: Seq<Ray>,
    n: int,
)
    requires
        0 <= n,
    ensures
        forall|px: int, py: int|
            #[trigger] rays_mark(grid, block_size, options, rays, n + 1, px, py) == (rays_mark(
                grid,
                block_size,
                options,
                rays,
                n,
                px,
                py,
            ) || ray_marks(grid, block_size, options, rays[n], px, py)),
{
    assert forall|px: int, py: int|
        #[trigger] rays_mark(grid, block_size, options, rays, n + 1, px, py) == (rays_mark(
            grid,
            block_size,
            options,
            rays,
            n,
            px,
            py,
        ) || ray_marks(grid, block_size, options, rays[n], px, py)) by {
        if rays_mark(grid, block_size, options, rays, n + 1, px, py) {
            let i = choose|i: int|
                0 <= i < n + 1 && #[trigger] ray_marks(grid, block_size, options, rays[i], px, py);
            if i < n {
                assert(rays_mark(grid, block_size, options, rays, n, px, py));
            }
        }
        if rays_mark(grid, block_size, options, rays, n, px, py) {
            let i = choose|i: int|
                0 <= i < n && #[trigger] ray_marks(grid, block_size, options, rays[i], px, py);
            assert(0 <= i < n + 1 && ray_marks(grid, block_size, options, rays[i], px, py));
        }
        if ray_marks(grid, block_size, options, rays[n], px, py) {
            assert(0 <= n < n + 1 && ray_marks(grid, block_size, options, rays[n], px, py));
        }
    }
}

/// Renders the top-down map: the cells of the maze at `block_size` pixels
/// each, the player's dot at the pixel of `position`, which is in
/// fixed-point units of the map, and the sightlines of `rays` where
/// `options.draw_line` asks for them. The draw colour is left white where
/// a ray was cast, else in the player's colour.
pub fn render2d(
    framebuffer: &mut Framebuffer,
    maze: &Vec<Vec<char>>,
    block_size: usize,
    position: (i64, i64),
    rays: &Vec<Ray>,
    options: &CastOptions,
)
    requires
        old(framebuffer).wf(),
        0 < block_size,
        0 < options.step,
        span_within(grid_of(maze), block_size as int, MAX_SPAN as int),
        forall|i: int| 0 <= i < rays@.len() ==> (#[trigger] rays@[i]).wf(),
    ensures
        final(framebuffer).wf(),
        final(framebuffer).width == old(framebuffer).width,
        final(framebuffer).height == old(framebuffer).height,
        final(framebuffer).background_color == old(framebuffer).background_color,
        final(framebuffer).current_color == if rays@.len() > 0 {
            WHITE
        } else {
            PLAYER_COLOR
        },
        forall|px: int, py: int| #![trigger final(framebuffer).pixel(px, py)]
            old(framebuffer).contains(px, py) ==> final(framebuffer).pixel(px, py) == map_pixel(
                old(framebuffer).pixel(px, py),
                px,
                py,
                grid_of(maze),
                block_size,
                old(framebuffer).current_color,
                (position.0 as int / SUBUNITS as int, position.1 as int / SUBUNITS as int),
                rays@,
                *options,
            ),
{
    let ghost grid = grid_of(maze);
    let ghost ink = framebuffer.current_color;
    let ghost dot = (position.0 as int / SUBUNITS as int, position.1 as int / SUBUNITS as int);
    draw_cells(framebuffer, maze, block_size);
    framebuffer.set_current_color(PLAYER_COLOR);
    if position.0 >= 0 && position.1 >= 0 {
        let qx: u64 = (position.0 / SUBUNITS) as u64;
        let qy: u64 = (position.1 / SUBUNITS) as u64;
        if qx < framebuffer.width as u64 && qy < framebuffer.height as u64 {
            framebuffer.point(qx as usize, qy as usize);
        }
    }
    let mut i: usize = 0;
    while i < rays.len()
        invariant
            i <= rays@.len(),
            0 < block_size,
            0 < options.step,
            grid == grid_of(maze),
            ink == old(framebuffer).current_color,
            dot == (position.0 as int / SUBUNITS as int, position.1 as int / SUBUNITS as int),
            span_within(grid, block_size as int, MAX_SPAN as int),
            forall|j: int| 0 <= j < rays@.len() ==> (#[trigger] rays@[j]).wf(),
            framebuffer.wf(),
            framebuffer.width == old(framebuffer).width,
            framebuffer.height == old(framebuffer).height,
            framebuffer.background_color == old(framebuffer).background_color,
            framebuffer.current_color == if i > 0 {
                WHITE
            } else {
                PLAYER_COLOR
            },
            forall|px: int, py: int| #![trigger framebuffer.pixel(px, py)]
                old(framebuffer).contains(px, py) ==> framebuffer.pixel(px, py) == if rays_mark(
                    grid,
                    block_size,
                    *options,
                    rays@,
                    i as int,
                    px,
                    py,
                ) {
                    WHITE
                } else if px == dot.0 && py == dot.1 {
                    PLAYER_COLOR
                } else {
                    cells_pixel(old(framebuffer).pixel(px, py), px, py, grid, block_size as int, ink)
                },
        decreases rays@.len() - i,
    {
        let ghost before = *framebuffer;
        let hit: Intersect = cast_ray(framebuffer, maze, &rays[i], block_size, options);
        proof {
            lemma_rays_mark_extend(grid, block_size, *options, rays@, i as int);
            assert forall|px: int, py: int| old(framebuffer).contains(px, py) implies (
            #[trigger] framebuffer.pixel(px, py)) == if rays_mark(
                grid,
                block_size,
                *options,
                rays@,
                i + 1,
                px,
                py,
            ) {
                WHITE
            } else if px == dot.0 && py == dot.1 {
                PLAYER_COLOR
            } else {
                cells_pixel(old(framebuffer).pixel(px, py), px, py, grid, block_size as int, ink)
            } by {
                assert(before.pixel(px, py) == if rays_mark(
                    grid,
                    block_size,
                    *options,
                    rays@,
                    i as int,
                    px,
                    py,
                ) {
                    WHITE
                } else if px == dot.0 && py == dot.1 {
                    PLAYER_COLOR
                } else {
                    cells_pixel(old(framebuffer).pixel(px, py), px, py, grid, block_size as int, ink)
                });
                assert(ray_marks(grid, block_size, *options, rays@[i as int], px, py) == (
                options.draw_line && on_trace(
                    rays@[i as int],
                    options.step as int,
                    probes_in_grid(hit, options.step as int),
                    px,
                    py,
                )));
            }
        }
        i += 1;
    }
}

} // verus!
