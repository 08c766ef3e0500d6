//! Projection of a wall hit onto a screen column: the vertical span of the
//! wall, and the texel that each of its pixels shows.

use vstd::prelude::*;
use crate::maze::MAX_SPAN;

verus! {

/// Largest distance that a ray cast through an admissible grid reports:
/// twice `MAX_SPAN` and the largest step.
pub const MAX_DEPTH: u64 = 0x1_FFFF_FFFD;

/// Numerator of the projected wall height `(height / 2) / distance *
/// plane`, over `wall_height_den(distance)`.
pub open spec fn wall_height_num(height: int, plane: int) -> int {
    height * plane
}

/// Denominator of the projected wall height.
pub open spec fn wall_height_den(distance: int) -> int {
    2 * distance
}

/// First row of the wall's span: half the projected height above the
/// horizon `height / 2`, rounded down and held at the top of the screen.
pub open spec fn stake_top(height: int, distance: int, plane: int) -> int {
    if 2 * distance <= plane {
        0
    } else {
        height * (2 * distance - plane) / (4 * distance)
    }
}

/// End of the wall's span: half the projected height below the horizon,
/// rounded down. A wall at distance 0 fills the column.
pub open spec fn stake_bottom(height: int, distance: int, plane: int) -> int {
    if distance == 0 {
        if plane == 0 {
            0
        } else {
            height
        }
    } else {
        height * (2 * distance + plane) / (4 * distance)
    }
}

/// Whether row `y` of a screen of the given height shows the wall.
pub open spec fn in_stake(y: int, height: int, distance: int, plane: int) -> bool {
    stake_top(height, distance, plane) <= y < stake_bottom(height, distance, plane) && y < height
}

/// Row of the texture that screen row `y` shows: the part of the projected
/// height that lies above `y`, counted from the span's first row, scaled
/// to the texture's height.
pub open spec fn texture_row(y: int, height: int, distance: int, plane: int, rows: int) -> int {
    if height * plane == 0 {
        0
    } else {
        (y - stake_top(height, distance, plane)) * (2 * distance) * rows / (height * plane)
    }
}

/// Column of the texture that a hit at `tex_coord / tex_scale` shows.
pub open spec fn texture_column(tex_coord: int, tex_scale: int, columns: int) -> int {
    if tex_scale == 0 {
        0
    } else {
        tex_coord * columns / tex_scale
    }
}

/// Rounding down keeps the order of fractions: where `a / b` is at most
/// `c / d` as fractions, it is so after rounding.
pub proof fn lemma_floor_monotonic(a: int, b: int, c: int, d: int)
    requires
        0 < b,
        0 < d,
        a * d <= c * b,
    ensures
        a / b <= c / d,
{
    let q = a / b;
    let q2 = c / d;
    assert(a == q * b + a % b && 0 <= a % b < b) by (nonlinear_arith)
        requires 0 < b, q == a / b;
    assert(c == q2 * d + c % d && 0 <= c % d < d) by (nonlinear_arith)
        requires 0 < d, q2 == c / d;
    if q > q2 {
        assert((q2 + 1) * d == q2 * d + d) by (nonlinear_arith);
        assert(c < q * d) by (nonlinear_arith)
            requires c < (q2 + 1) * d, q >= q2 + 1, 0 < d;
        assert(c * b < (q * d) * b) by (nonlinear_arith)
            requires c < q * d, 0 < b;
        assert((q * b) * d <= a * d) by (nonlinear_arith)
            requires q * b <= a, 0 < d;
        assert((q * d) * b == (q * b) * d) by (nonlinear_arith);
    }
}

/// Projection monotonicity. On a screen of some height and with a fixed
/// projection plane, a wall farther away projects strictly lower: its
/// exact height, the fraction `wall_height_num / wall_height_den`, is
/// smaller, which the first clause states multiplied out; and its span of
/// rows lies inside the span of the nearer wall.
pub proof fn lemma_projection_monotonic(height: int, plane: int, near: int, far: int)
    requires
        0 < height,
        0 < plane,
        0 < near < far,
    ensures
        wall_height_num(height, plane) * wall_height_den(near) < wall_height_num(height, plane)
            * wall_height_den(far),
        stake_top(height, near, plane) <= stake_top(height, far, plane),
        stake_bottom(height, far, plane) <= stake_bottom(height, near, plane),
{
    let n = height * plane;
    assert(0 < n) by (nonlinear_arith)
        requires 0 < height, 0 < plane, n == height * plane;
    assert(n * (2 * near) < n * (2 * far)) by (nonlinear_arith)
        requires 0 < n, near < far;
    // Bottom: height * (2 far + plane) / (4 far) <= height * (2 near + plane) / (4 near).
    assert((height * (2 * far + plane)) * (4 * near) <= (height * (2 * near + plane)) * (4 * far))
        by (nonlinear_arith)
        requires 0 < height, 0 < plane, 0 < near < far;
    lemma_floor_monotonic(
        height * (2 * far + plane),
        4 * far,
        height * (2 * near + plane),
        4 * near,
    );
    // Top: 0, or height * (2 near - plane) / (4 near) <= height * (2 far - plane) / (4 far).
    if 2 * near <= plane {
        if 2 * far > plane {
            assert(0 <= height * (2 * far - plane)) by (nonlinear_arith)
                requires 0 < height, 2 * far > plane;
            lemma_floor_monotonic(0, 1, height * (2 * far - plane), 4 * far);
        }
    } else {
        assert((height * (2 * near - plane)) * (4 * far) <= (height * (2 * far - plane)) * (4
            * near)) by (nonlinear_arith)
            requires 0 < height, 0 < plane, 0 < near < far;
        lemma_floor_monotonic(
            height * (2 * near - plane),
            4 * near,
            height * (2 * far - plane),
            4 * far,
        );
    }
}

/// Every row of the wall's span shows a row of the texture.
pub proof fn lemma_texture_row_in_range(y: int, height: int, distance: int, plane: int, rows: int)
    requires
        0 <= distance,
        0 <= plane,
        0 < rows,
        in_stake(y, height, distance, plane),
    ensures
        0 <= texture_row(y, height, distance, plane, rows) < rows,
{
    let top = stake_top(height, distance, plane);
    let hp = height * plane;
    if distance == 0 {
        assert(0 <= top <= y);
        if hp != 0 {
            assert((y - top) * (2 * distance) * rows == 0) by (nonlinear_arith)
                requires distance == 0;
            assert(0 < hp) by (nonlinear_arith)
                requires 0 < height, 0 <= plane, hp == height * plane, hp != 0;
            assert(0int / hp == 0) by (nonlinear_arith)
                requires 0 < hp;
        }
    } else {
        // 2 * distance * (y - top) < height * plane.
        let bottom = height * (2 * distance + plane) / (4 * distance);
        let nb = height * (2 * distance + plane);
        assert(nb == bottom * (4 * distance) + nb % (4 * distance) && 0 <= nb % (4 * distance))
            by (nonlinear_arith)
            requires 0 < distance, bottom == nb / (4 * distance);
        assert((y + 1) * (4 * distance) <= bottom * (4 * distance)) by (nonlinear_arith)
            requires y + 1 <= bottom, 0 < distance;
        if 2 * distance <= plane {
            assert(top == 0);
            assert(y * (2 * distance) < height * plane) by (nonlinear_arith)
                requires 0 <= y < height, 0 < 2 * distance <= plane;
        } else {
            let nt = height * (2 * distance - plane);
            assert(nt == top * (4 * distance) + nt % (4 * distance) && nt % (4 * distance) < 4
                * distance) by (nonlinear_arith)
                requires 0 < distance, top == nt / (4 * distance);
            assert((top + 1) * (4 * distance) == top * (4 * distance) + 4 * distance)
                by (nonlinear_arith);
            assert(nb - nt == 2 * (height * plane)) by (nonlinear_arith)
                requires nb == height * (2 * distance + plane), nt == height * (2 * distance
                    - plane);
            assert((y - top) * (2 * distance) < height * plane) by (nonlinear_arith)
                requires
                    (y + 1) * (4 * distance) <= nb,
                    nt < (top + 1) * (4 * distance),
                    nb - nt == 2 * (height * plane),
            ;
        }
        let m = (y - top) * (2 * distance);
        assert(0 <= m) by (nonlinear_arith)
            requires 0 <= y - top, 0 < distance, m == (y - top) * (2 * distance);
        assert(0 <= m * rows < hp * rows) by (nonlinear_arith)
            requires 0 <= m < hp, 0 < rows;
        assert(0 <= (m * rows) / hp < rows) by (nonlinear_arith)
            requires 0 <= m * rows < hp * rows, 0 < hp;
    }
}

/// A hit inside its cell shows a column of the texture.
pub proof fn lemma_texture_column_in_range(tex_coord: int, tex_scale: int, columns: int)
    requires
        0 <= tex_coord < tex_scale,
        0 < columns,
    ensures
        0 <= texture_column(tex_coord, tex_scale, columns) < columns,
{
    assert(0 <= tex_coord * columns < tex_scale * columns) by (nonlinear_arith)
        requires 0 <= tex_coord < tex_scale, 0 < columns;
    assert(0 <= (tex_coord * columns) / tex_scale < columns) by (nonlinear_arith)
        requires 0 <= tex_coord * columns < tex_scale * columns, 0 < tex_scale;
}

/// The rows of the screen that show a wall at `distance`: from the first
/// up to, not including, the second, both on the screen.
pub fn stake_span(height: usize, distance: u64, plane: u32) -> (span: (usize, usize))
    requires
        height <= MAX_SPAN,
        distance <= MAX_DEPTH,
    ensures
        span.0 == stake_top(height as int, distance as int, plane as int),
        span.1 == if stake_bottom(height as int, distance as int, plane as int) < height {
            stake_bottom(height as int, distance as int, plane as int)
        } else {
            height as int
        },
        span.0 <= height,
{
    let h: u128 = height as u128;
    let p: u128 = plane as u128;
    let d: u128 = distance as u128;
    if distance == 0 {
        if plane == 0 {
            return (0, 0);
        } else {
            return (0, height);
        }
    }
    let quarter: u128 = 4 * d;
    assert(h * (2 * d + p) <= 0x7FFF_FFFF * (2 * 0x1_FFFF_FFFD + 0xFFFF_FFFF)) by (nonlinear_arith)
        requires 0 <= h <= 0x7FFF_FFFF, 0 <= d <= 0x1_FFFF_FFFD, 0 <= p <= 0xFFFF_FFFF;
    let below: u128 = h * (2 * d + p) / quarter;
    let bottom: usize = if below < h {
        below as usize
    } else {
        height
    };
    if 2 * d <= p {
        (0, bottom)
    } else {
        assert(0 <= h * (2 * d - p) <= h * (2 * d)) by (nonlinear_arith)
            requires 0 <= h, 0 <= p < 2 * d;
        assert(h * (2 * d) <= 0x7FFF_FFFF * (2 * 0x1_FFFF_FFFD)) by (nonlinear_arith)
            requires 0 <= h <= 0x7FFF_FFFF, 0 <= d <= 0x1_FFFF_FFFD;
        assert((h * (2 * d - p)) / (quarter as int) <= h) by (nonlinear_arith)
            requires 0 <= h * (2 * d - p) <= h * (2 * d), quarter == 4 * d, 0 < d, 0 <= h;
        let above: u128 = h * (2 * d - p) / quarter;
        (above as usize, bottom)
    }
}

/// The row of a texture of `rows` rows that screen row `y` of a wall's span
/// shows.
pub fn texture_row_of(y: usize, height: usize, distance: u64, plane: u32, rows: u32) -> (row: u32)
    requires
        height <= MAX_SPAN,
        distance <= MAX_DEPTH,
        0 < rows,
        in_stake(y as int, height as int, distance as int, plane as int),
    ensures
        row == texture_row(y as int, height as int, distance as int, plane as int, rows as int),
        row < rows,
{
    proof {
        lemma_texture_row_in_range(y as int, height as int, distance as int, plane as int, rows as int);
    }
    assert(height * plane <= 0x7FFF_FFFF * 0xFFFF_FFFF) by (nonlinear_arith)
        requires 0 <= height <= 0x7FFF_FFFF, 0 <= plane <= 0xFFFF_FFFF;
    let scale: u64 = height as u64 * plane as u64;
    if scale == 0 {
        return 0;
    }
    let (top, _bottom) = stake_span(height, distance, plane);
    let offset: u128 = (y - top) as u128;
    assert(offset * (2 * distance) * rows <= 0x7FFF_FFFF * (2 * 0x1_FFFF_FFFD) * 0xFFFF_FFFF)
        by (nonlinear_arith)
        requires 0 <= offset <= 0x7FFF_FFFF, 0 <= distance <= 0x1_FFFF_FFFD, 0 <= rows
            <= 0xFFFF_FFFF;
    assert(offset * (2 * distance) <= 0x7FFF_FFFF * (2 * 0x1_FFFF_FFFD)) by (nonlinear_arith)
        requires 0 <= offset <= 0x7FFF_FFFF, 0 <= distance <= 0x1_FFFF_FFFD;
    let scaled: u128 = offset * (2 * distance as u128) * rows as u128;
    (scaled / scale as u128) as u32
}

/// The column of a texture of `columns` columns that a hit at `tex_coord /
/// tex_scale` shows.
pub fn texture_column_of(tex_coord: usize, tex_scale: usize, columns: u32) -> (column: u32)
    requires
        tex_coord < tex_scale,
        0 < columns,
    ensures
        column == texture_column(tex_coord as int, tex_scale as int, columns as int),
        column < columns,
{
    proof {
        lemma_texture_column_in_range(tex_coord as int, tex_scale as int, columns as int);
    }
    assert(tex_coord * columns <= 0xFFFF_FFFF_FFFF_FFFF * 0xFFFF_FFFF) by (nonlinear_arith)
        requires 0 <= tex_coord <= 0xFFFF_FFFF_FFFF_FFFF, 0 <= columns <= 0xFFFF_FFFF;
    ((tex_coord as u128 * columns as u128) / tex_scale as u128) as u32
}

} // verus!
