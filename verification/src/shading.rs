//! Colours: packed RGB, the fog blend towards black by distance, and the
//! curved gradient of ceiling and floor.

use vstd::prelude::*;

verus! {

/// Red channel of a packed colour.
pub open spec fn red(color: u32) -> u32 {
    (color >> 16) & 0xFF
}

/// Green channel of a packed colour.
pub open spec fn green(color: u32) -> u32 {
    (color >> 8) & 0xFF
}

/// Blue channel of a packed colour.
pub open spec fn blue(color: u32) -> u32 {
    color & 0xFF
}

/// The packed colour of three channels.
pub open spec fn pack_rgb(r: u32, g: u32, b: u32) -> u32 {
    (r << 16) | (g << 8) | b
}

/// The three channels of a packed colour, each at most 255.
pub fn channels(color: u32) -> (rgb: (u32, u32, u32))
    ensures
        rgb == (red(color), green(color), blue(color)),
        rgb.0 <= 255 && rgb.1 <= 255 && rgb.2 <= 255,
{
    assert((color >> 16) & 0xFF <= 255 && (color >> 8) & 0xFF <= 255 && color & 0xFF <= 255)
        by (bit_vector);
    ((color >> 16) & 0xFF, (color >> 8) & 0xFF, color & 0xFF)
}

/// Packs three channels into one colour.
pub fn pack(r: u32, g: u32, b: u32) -> (color: u32)
    requires
        r <= 255,
        g <= 255,
        b <= 255,
    ensures
        color == pack_rgb(r, g, b),
        red(color) == r,
        green(color) == g,
        blue(color) == b,
{
    assert(((((r << 16) | (g << 8) | b) >> 16) & 0xFF) == r && ((((r << 16) | (g << 8) | b) >> 8)
        & 0xFF) == g && (((r << 16) | (g << 8) | b) & 0xFF) == b) by (bit_vector)
        requires
            r <= 255,
            g <= 255,
            b <= 255,
    ;
    (r << 16) | (g << 8) | b
}

/// Opacity of a wall at `distance`, as a numerator over `max_distance`:
/// `1 - distance / max_distance`, held between 0 and 1.
pub open spec fn opacity(distance: int, max_distance: int) -> int {
    if distance >= max_distance {
        0
    } else {
        max_distance - distance
    }
}

/// A channel blended towards black: `channel * level / full`, rounded
/// down, and 0 where `full` is 0.
pub open spec fn shade(channel: int, level: int, full: int) -> int {
    if full <= 0 {
        0
    } else {
        channel * level / full
    }
}

/// Opacity of a wall at `distance` as a numerator over `max_distance`.
pub fn fog_opacity(distance: u64, max_distance: u32) -> (level: u32)
    ensures
        level == opacity(distance as int, max_distance as int),
        level <= max_distance,
{
    if distance >= max_distance as u64 {
        0
    } else {
        max_distance - distance as u32
    }
}

/// Blends a colour towards black: each of red, green and blue becomes
/// `shade(channel, level, full)`; alpha is kept.
pub fn blend_color_with_opacity(color: (u8, u8, u8, u8), level: u32, full: u32) -> (blended: (
    u8,
    u8,
    u8,
    u8,
))
    requires
        level <= full,
    ensures
        blended.0 == shade(color.0 as int, level as int, full as int),
        blended.1 == shade(color.1 as int, level as int, full as int),
        blended.2 == shade(color.2 as int, level as int, full as int),
        blended.3 == color.3,
{
    (shade_channel(color.0, level, full), shade_channel(color.1, level, full), shade_channel(
        color.2,
        level,
        full,
    ), color.3)
}

/// One channel blended towards black.
fn shade_channel(channel: u8, level: u32, full: u32) -> (shaded: u8)
    requires
        level <= full,
    ensures
        shaded == shade(channel as int, level as int, full as int),
        shaded <= channel,
{
    if full == 0 {
        0
    } else {
        assert(0 <= channel * level <= channel * full && channel * full <= 255 * 0xFFFF_FFFF)
            by (nonlinear_arith)
            requires 0 <= level <= full <= 0xFFFF_FFFF, 0 <= channel <= 255;
        assert((channel * level) / (full as int) <= channel) by (nonlinear_arith)
            requires 0 <= channel * level <= channel * full, 0 < full;
        let product: u64 = channel as u64 * level as u64;
        (product / full as u64) as u8
    }
}

/// Shading monotonicity. Opacity lies between 0 and 1, does not grow with
/// distance, and is 0 from `max_distance` on; a channel shaded at the
/// greater distance is not brighter.
pub proof fn lemma_opacity_monotonic(near: int, far: int, max_distance: int, channel: int)
    requires
        0 <= near <= far,
        0 <= max_distance,
        0 <= channel,
    ensures
        0 <= opacity(far, max_distance) <= opacity(near, max_distance) <= max_distance,
        far >= max_distance ==> opacity(far, max_distance) == 0,
        far >= max_distance ==> shade(channel, opacity(far, max_distance), max_distance) == 0,
        shade(channel, opacity(far, max_distance), max_distance) <= shade(
            channel,
            opacity(near, max_distance),
            max_distance,
        ) <= channel,
{
    let lf = opacity(far, max_distance);
    let ln = opacity(near, max_distance);
    if max_distance > 0 {
        assert(channel * lf <= channel * ln <= channel * max_distance) by (nonlinear_arith)
            requires 0 <= lf <= ln <= max_distance, 0 <= channel;
        assert((channel * lf) / max_distance <= (channel * ln) / max_distance && (channel * ln)
            / max_distance <= channel) by (nonlinear_arith)
            requires channel * lf <= channel * ln <= channel * max_distance, 0 < max_distance,
                0 <= channel * lf;
        assert(channel * 0 == 0);
    }
}

/// Fifth power.
pub open spec fn pow5(w: int) -> int {
    w * w * w * w * w
}

/// Whether `w` is the fifth root of `n`, rounded down.
pub open spec fn is_root5(w: int, n: int) -> bool {
    0 <= w && pow5(w) <= n < pow5(w + 1)
}

/// The fifth root of `n`, rounded down.
pub open spec fn root5(n: int) -> int {
    choose|w: int| is_root5(w, n)
}

/// Fifth powers of natural numbers grow with the number.
pub proof fn lemma_pow5_monotonic(a: int, b: int)
    requires
        0 <= a <= b,
    ensures
        0 <= pow5(a) <= pow5(b),
{
    let a2 = a * a;
    let b2 = b * b;
    assert(0 <= a2 <= b2) by (nonlinear_arith)
        requires 0 <= a <= b, a2 == a * a, b2 == b * b;
    let a3 = a2 * a;
    let b3 = b2 * b;
    assert(0 <= a3 <= b3) by (nonlinear_arith)
        requires 0 <= a <= b, 0 <= a2 <= b2, a3 == a2 * a, b3 == b2 * b;
    let a4 = a3 * a;
    let b4 = b3 * b;
    assert(0 <= a4 <= b4) by (nonlinear_arith)
        requires 0 <= a <= b, 0 <= a3 <= b3, a4 == a3 * a, b4 == b3 * b;
    assert(0 <= a4 * a <= b4 * b) by (nonlinear_arith)
        requires 0 <= a <= b, 0 <= a4 <= b4;
}

/// A number has at most one fifth root rounded down.
pub proof fn lemma_root5_unique(w1: int, w2: int, n: int)
    requires
        is_root5(w1, n),
        is_root5(w2, n),
    ensures
        w1 == w2,
{
    if w1 < w2 {
        lemma_pow5_monotonic(w1 + 1, w2);
    }
    if w2 < w1 {
        lemma_pow5_monotonic(w2 + 1, w1);
    }
}

/// Largest argument of `fifth_root`: 256 to the fifth power.
pub const ROOT_LIMIT: u64 = 0x100_0000_0000;

/// Fifth power of a small number.
fn fifth_power(w: u64) -> (p: u64)
    requires
        w <= 257,
    ensures
        p == pow5(w as int),
{
    assert(w * w <= 257 * 257) by (nonlinear_arith)
        requires 0 <= w <= 257;
    let w2: u64 = w * w;
    assert(w2 * w <= 257 * 257 * 257) by (nonlinear_arith)
        requires 0 <= w <= 257, 0 <= w2 <= 257 * 257;
    let w3: u64 = w2 * w;
    assert(w3 * w <= 257 * 257 * 257 * 257) by (nonlinear_arith)
        requires 0 <= w <= 257, 0 <= w3 <= 257 * 257 * 257;
    let w4: u64 = w3 * w;
    assert(w4 * w <= 257 * 257 * 257 * 257 * 257) by (nonlinear_arith)
        requires 0 <= w <= 257, 0 <= w4 <= 257 * 257 * 257 * 257;
    w4 * w
}

/// The fifth root of `n`, rounded down.
pub fn fifth_root(n: u64) -> (w: u64)
    requires
        n <= ROOT_LIMIT,
    ensures
        is_root5(w as int, n as int),
        w == root5(n as int),
        w <= 256,
{
    let mut w: u64 = 0;
    assert(pow5(0) == 0 && pow5(257) > ROOT_LIMIT) by (nonlinear_arith);
    loop
        invariant
            n <= ROOT_LIMIT,
            w <= 256,
            pow5(w as int) <= n,
        ensures
            is_root5(w as int, n as int),
            w <= 256,
        decreases 256 - w,
    {
        let next: u64 = fifth_power(w + 1);
        if next > n {
            break ;
        }
        proof {
            if w == 256 {
                assert(pow5(257) > ROOT_LIMIT) by (nonlinear_arith);
            }
        }
        w = w + 1;
    }
    proof {
        lemma_root5_unique(w as int, root5(n as int), n as int);
    }
    w
}

/// Weight, over 256, of the far colour of a gradient at ratio `t / 65536`:
/// the ratio raised to the power 0.4, that is the fifth root of its square.
pub open spec fn curve(t: int) -> int {
    root5(256 * t * t)
}

/// One channel between `near` and `far` at weight `w / 256`.
pub open spec fn lerp(near: int, far: int, w: int) -> int {
    (near * (256 - w) + far * w) / 256
}

/// The colour between `start` and `end` at ratio `t / 65536` along the
/// curve: channel by channel, `weight` being `curve(t)`.
pub open spec fn gradient_color(start: u32, end: u32, weight: int) -> u32 {
    pack_rgb(
        lerp(red(start) as int, red(end) as int, weight) as u32,
        lerp(green(start) as int, green(end) as int, weight) as u32,
        lerp(blue(start) as int, blue(end) as int, weight) as u32,
    )
}

/// The ratio `num / den` in units of 1/65536, rounded down; 0 where `den`
/// is 0.
pub open spec fn ratio16(num: int, den: int) -> int {
    if den <= 0 {
        0
    } else {
        65536 * num / den
    }
}

/// The ratio `num / den` in units of 1/65536.
pub fn ratio(num: usize, den: usize) -> (t: u32)
    requires
        num <= den,
    ensures
        t == ratio16(num as int, den as int),
        t <= 65536,
{
    if den == 0 {
        0
    } else {
        assert(65536 * num / (den as int) <= 65536) by (nonlinear_arith)
            requires 0 <= num <= den, 0 < den;
        ((65536u128 * num as u128) / den as u128) as u32
    }
}

/// One channel between `near` and `far` at weight `w / 256`.
fn lerp_channel(near: u32, far: u32, w: u64) -> (c: u32)
    requires
        near <= 255,
        far <= 255,
        w <= 256,
    ensures
        c == lerp(near as int, far as int, w as int),
        c <= 255,
{
    assert(0 <= near * (256 - w) <= 255 * (256 - w) && 0 <= far * w <= 255 * w) by (nonlinear_arith)
        requires 0 <= near <= 255, 0 <= far <= 255, 0 <= w <= 256;
    ((near as u64 * (256 - w) + far as u64 * w) / 256) as u32
}

/// The colour between `start` and `end` at ratio `t / 65536`, bent by the
/// power 0.4 so that it leaves `start` quickly.
pub fn interpolate_color(start: u32, end: u32, t: u32) -> (color: u32)
    requires
        t <= 65536,
    ensures
        color == gradient_color(start, end, curve(t as int)),
{
    assert(256 * t * t <= ROOT_LIMIT) by (nonlinear_arith)
        requires 0 <= t <= 65536;
    let w: u64 = fifth_root(256 * (t as u64) * (t as u64));
    let (sr, sg, sb) = channels(start);
    let (er, eg, eb) = channels(end);
    pack(lerp_channel(sr, er, w), lerp_channel(sg, eg, w), lerp_channel(sb, eb, w))
}

} // verus!
