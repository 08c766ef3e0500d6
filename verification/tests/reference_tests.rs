use maze_raycaster::caster::{cast_ray, CastOptions, Ray, SUBUNITS};
use maze_raycaster::framebuffer::Framebuffer;
use maze_raycaster::projection::stake_span;
use maze_raycaster::shading::{blend_color_with_opacity, fog_opacity, interpolate_color, ratio};

fn grid(rows: &[&str]) -> Vec<Vec<char>> {
    rows.iter().map(|r| r.chars().collect()).collect()
}

/// A small generator of numbers, the same on every run.
struct Numbers(u64);

impl Numbers {
    fn next(&mut self, below: u64) -> u64 {
        self.0 = self.0.wrapping_mul(6364136223846793005).wrapping_add(1442695040888963407);
        (self.0 >> 33) % below
    }
}

/// The march in floating point: probes at `origin + d * (cos a, sin a)`,
/// cells by whole division. Returns the distance and the tag, a space for
/// a ray that leaves the grid.
fn float_march(maze: &Vec<Vec<char>>, x: f64, y: f64, a: f64, block: f64, step: f64) -> (f64, char) {
    let mut d = 0.0;
    loop {
        let px = (x + d * a.cos()).floor();
        let py = (y + d * a.sin()).floor();
        if px < 0.0 || py < 0.0 {
            return (d, ' ');
        }
        let (i, j) = ((px / block).floor() as usize, (py / block).floor() as usize);
        if j >= maze.len() || i >= maze[j].len() {
            return (d, ' ');
        }
        let tag = maze[j][i];
        if tag != ' ' && tag != 's' && tag != 'g' {
            return (d, tag);
        }
        d += step;
    }
}

#[test]
fn fixed_point_march_follows_the_floating_point_march() {
    let maze = grid(&[
        "+--------+",
        "|   s    |",
        "|  +-    |",
        "|     |  |",
        "| g   |  |",
        "+--------+",
    ]);
    let mut numbers = Numbers(7);
    let mut hits = 0;
    for _ in 0..2000 {
        let x = 12 + numbers.next(76) as i64;
        let y = 12 + numbers.next(36) as i64;
        let microradians = numbers.next(6_283_185) as i64;
        let step = [1u32, 2, 5][numbers.next(3) as usize];
        let a = microradians as f64 / 1e6;
        let dx = (a.cos() * SUBUNITS as f64).round() as i64;
        let dy = (a.sin() * SUBUNITS as f64).round() as i64;
        let ray = Ray::new(x * SUBUNITS + SUBUNITS / 2, y * SUBUNITS + SUBUNITS / 2, dx, dy).unwrap();
        let options = CastOptions { step, stop_at_markers: false, draw_line: false };
        let mut fb = Framebuffer::new(1, 1);
        let hit = cast_ray(&mut fb, &maze, &ray, 10, &options);
        let (distance, tag) = float_march(&maze, x as f64 + 0.5, y as f64 + 0.5, a, 10.0, step as f64);
        // Rounding the direction to 1/65536 moves a probe by less than a
        // hundredth of a pixel: the marches end within a step of each other,
        // and on the same wall unless the ray grazes a corner.
        let apart = (hit.distance as f64 - distance).abs();
        assert!(apart <= step as f64, "ray {} {} {}: {} and {}", x, y, microradians, hit.distance, distance);
        if apart == 0.0 {
            assert_eq!(hit.impact, tag);
            hits += 1;
        }
        assert_ne!(hit.impact, ' ');
    }
    assert!(hits > 1900);
}

#[test]
fn wall_span_follows_the_floating_point_formula() {
    for height in [2usize, 9, 100, 270, 271, 720] {
        for plane in [1u32, 90, 100, 1000] {
            for distance in 1..600u64 {
                let hh = height as f64 / 2.0;
                let h = hh / distance as f64 * plane as f64;
                let top = (hh - h / 2.0).max(0.0).floor() as usize;
                let bottom = ((hh + h / 2.0).floor() as usize).min(height);
                assert_eq!(stake_span(height, distance, plane), (top, bottom));
            }
        }
    }
}

#[test]
fn fog_follows_the_floating_point_formula() {
    for max in [1u32, 120, 150] {
        for distance in 0..200u64 {
            let opacity = (1.0 - distance as f64 / max as f64).clamp(0.0, 1.0);
            let level = fog_opacity(distance, max);
            assert!((level as f64 / max as f64 - opacity).abs() < 1e-12);
            for c in [0u8, 1, 37, 128, 200, 255] {
                let exact = c as f64 * opacity;
                let (r, _, _, a) = blend_color_with_opacity((c, 0, 0, 9), level, max);
                assert_eq!(a, 9);
                // The channel rounded down, but for what floating point
                // loses on a whole number.
                assert!((r as f64 - exact.floor()).abs() <= 1.0);
                assert!(r as f64 <= exact + 1e-9 && exact < r as f64 + 1.0 + 1e-9);
            }
        }
    }
}

#[test]
fn gradient_follows_the_power_curve() {
    for height in [2usize, 10, 270, 271] {
        for y in 0..height / 2 {
            let t = ratio(2 * y, height);
            let bent = (2.0 * y as f64 / height as f64).powf(0.4);
            for (start, end) in [(0x252423u32, 0u32), (0x5b6567, 0), (0x000000, 0xFFFFFF)] {
                let color = interpolate_color(start, end, t);
                for shift in [16, 8, 0] {
                    let s = ((start >> shift) & 0xFF) as f64;
                    let e = ((end >> shift) & 0xFF) as f64;
                    let exact = s + (e - s) * bent;
                    let got = ((color >> shift) & 0xFF) as f64;
                    // Within the grain of the weight, 1/256, and of the
                    // ratio, and one level of rounding.
                    assert!((got - exact).abs() <= 2.5, "{} {} {:x}: {} {}", height, y, start, got, exact);
                }
            }
        }
    }
}
