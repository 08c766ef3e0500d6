use image::{DynamicImage, Rgba, RgbaImage};
use maze_raycaster::caster::{cast_ray, CastOptions, Ray, SUBUNITS};
use maze_raycaster::framebuffer::Framebuffer;
use maze_raycaster::renderer::{
    draw_backdrop, draw_cell, draw_cells, render2d, render3d, Camera, CEILING_COLOR, FLOOR_COLOR,
    PLAYER_COLOR,
};
use maze_raycaster::textures::Textures;

const U: i64 = SUBUNITS;

fn grid(rows: &[&str]) -> Vec<Vec<char>> {
    rows.iter().map(|r| r.chars().collect()).collect()
}

fn ray(x: i64, y: i64, dx: i64, dy: i64) -> Ray {
    Ray::new(x * U, y * U, dx, dy).unwrap()
}

fn flat(r: u8, g: u8, b: u8) -> DynamicImage {
    DynamicImage::ImageRgba8(RgbaImage::from_pixel(1, 1, Rgba([r, g, b, 255])))
}

/// Two columns of eight rows; the right column grows redder downwards.
fn striped() -> DynamicImage {
    DynamicImage::ImageRgba8(RgbaImage::from_fn(2, 8, |x, y| {
        if x == 1 {
            Rgba([(y * 30) as u8, 100, 200, 255])
        } else {
            Rgba([1, 1, 1, 255])
        }
    }))
}

fn textures() -> Textures {
    Textures { plus: flat(240, 0, 0), minus: flat(0, 240, 0), pipe: striped(), goal: flat(240, 240, 0) }
}

fn column(fb: &Framebuffer, x: usize) -> Vec<u32> {
    (0..fb.height).map(|y| fb.buffer[y * fb.width + x]).collect()
}

const BACKDROP_4: [u32; 4] = [0x252423, 0x080808, 0x161818, 0x5b6567];

#[test]
fn classic_camera() {
    let c = Camera::classic();
    assert_eq!((c.plane_distance, c.max_distance, c.step, c.stop_at_markers), (90, 120, 1, false));
    assert_eq!((CEILING_COLOR, FLOOR_COLOR, PLAYER_COLOR), (0x252423, 0x5b6567, 0xFFDDD));
}

#[test]
fn backdrop_fades_towards_the_horizon() {
    let mut fb = Framebuffer::new(2, 4);
    draw_backdrop(&mut fb);
    assert_eq!(column(&fb, 0), BACKDROP_4.to_vec());
    assert_eq!(column(&fb, 1), BACKDROP_4.to_vec());
    let mut fb = Framebuffer::new(1, 270);
    draw_backdrop(&mut fb);
    let rows = column(&fb, 0);
    assert_eq!((rows[0], rows[269]), (0x252423, 0x5b6567));
    assert_eq!((rows[1], rows[268]), (0x1f1f1e, 0x4e5758));
    assert_eq!((rows[67], rows[202]), (0x090808, 0x161819));
    assert_eq!((rows[134], rows[135]), (0, 0));
}

#[test]
fn backdrop_leaves_the_middle_row_of_an_odd_height() {
    let mut fb = Framebuffer::new(1, 3);
    fb.put(0, 1, 0xABCDEF);
    draw_backdrop(&mut fb);
    assert_eq!(fb.buffer, vec![0x252423, 0xABCDEF, 0x5b6567]);
    let mut fb = Framebuffer::new(1, 1);
    fb.put(0, 0, 0xABCDEF);
    draw_backdrop(&mut fb);
    assert_eq!(fb.buffer, vec![0xABCDEF]);
}

#[test]
fn view_shows_a_shaded_textured_wall() {
    // The ray meets the wall 25 pixels off, on its left edge, half way
    // down the cell: texture column 1. At that distance the wall is taller
    // than the screen; each of the four rows shows 400/360 texture rows.
    let maze = grid(&["   |"]);
    let mut fb = Framebuffer::new(2, 4);
    fb.set_current_color(0x123456);
    render3d(&mut fb, &vec![ray(5, 5, U, 0)], &maze, 10, &textures(), &Camera::classic());
    // Opacity 95/120: red 0, 30, 60, 90 -> 0, 23, 47, 71; green 100 -> 79;
    // blue 200 -> 158.
    assert_eq!(column(&fb, 0), vec![0x004f9e, 0x174f9e, 0x2f4f9e, 0x474f9e]);
    // The second column has no ray.
    assert_eq!(column(&fb, 1), BACKDROP_4.to_vec());
    assert_eq!(fb.current_color, 0xFFFFFF);
    assert_eq!(fb.background_color, 0);
}

#[test]
fn view_of_a_far_wall_leaves_the_backdrop_around_it() {
    // Distance 105 on a screen of 8 rows: the wall spans rows 2 to 4.
    let maze = grid(&["            +"]);
    let mut fb = Framebuffer::new(1, 8);
    render3d(&mut fb, &vec![ray(15, 5, U, 0)], &maze, 10, &textures(), &Camera::classic());
    let mut backdrop = Framebuffer::new(1, 8);
    draw_backdrop(&mut backdrop);
    let wall = 240 * 15 / 120 << 16;
    assert_eq!(
        column(&fb, 0),
        vec![
            backdrop.buffer[0],
            backdrop.buffer[1],
            wall,
            wall,
            wall,
            backdrop.buffer[5],
            backdrop.buffer[6],
            backdrop.buffer[7]
        ]
    );
}

#[test]
fn view_fades_to_black_at_the_largest_distance() {
    let maze = grid(&["             +"]);
    let mut fb = Framebuffer::new(1, 8);
    render3d(&mut fb, &vec![ray(5, 5, U, 0)], &maze, 10, &textures(), &Camera::classic());
    // Distance 125: opacity 0, the wall spans rows 2 to 4 (4 - 1.44 to 4 + 1.44).
    let rows = column(&fb, 0);
    assert_eq!(&rows[2..5], &[0, 0, 0]);
    assert_ne!(rows[1], 0);
    assert_ne!(rows[5], 0);
}

#[test]
fn each_wall_tag_has_its_texture() {
    let maze = grid(&["+ -", "   ", "| g"]);
    let rays = vec![ray(15, 5, -U, 0), ray(15, 5, U, 0), ray(15, 25, -U, 0), ray(15, 25, U, 0)];
    let mut fb = Framebuffer::new(4, 2);
    render3d(&mut fb, &rays, &maze, 10, &textures(), &Camera::classic());
    // Distances 6, 5, 6 and, through the goal, 15 to the edge of the grid.
    let level = |d: u32| 240 * (120 - d) / 120;
    assert_eq!(fb.buffer[0], level(6) << 16);
    assert_eq!(fb.buffer[1], level(5) << 8);
    assert_eq!(fb.buffer[2], 0x005fbe);
    assert_eq!(fb.buffer[3], CEILING_COLOR);
    let seeing = Camera { plane_distance: 90, max_distance: 120, step: 1, stop_at_markers: true };
    let mut fb = Framebuffer::new(4, 2);
    render3d(&mut fb, &rays, &maze, 10, &textures(), &seeing);
    assert_eq!(fb.buffer[3], (level(5) << 16) | (level(5) << 8));
}

#[test]
fn walls_without_a_texture_are_left_out() {
    let maze = grid(&["# +"]);
    let rays = vec![ray(15, 5, -U, 0), ray(15, 5, U, 0)];
    let mut fb = Framebuffer::new(2, 4);
    render3d(&mut fb, &rays, &maze, 10, &textures(), &Camera::classic());
    assert_eq!(column(&fb, 0), BACKDROP_4.to_vec());
    assert_ne!(column(&fb, 1), BACKDROP_4.to_vec());
    // An empty image is no texture either.
    let bare = Textures {
        plus: DynamicImage::new_rgba8(0, 0),
        minus: DynamicImage::new_rgba8(0, 5),
        pipe: DynamicImage::new_rgba8(5, 0),
        goal: flat(1, 2, 3),
    };
    let mut fb = Framebuffer::new(2, 4);
    render3d(&mut fb, &rays, &maze, 10, &bare, &Camera::classic());
    assert_eq!(column(&fb, 0), BACKDROP_4.to_vec());
    assert_eq!(column(&fb, 1), BACKDROP_4.to_vec());
}

#[test]
fn view_with_more_rays_than_columns() {
    let maze = grid(&["   |"]);
    let rays = vec![ray(5, 5, U, 0), ray(5, 5, -U, 0), ray(5, 5, U, 0)];
    let mut fb = Framebuffer::new(2, 4);
    render3d(&mut fb, &rays, &maze, 10, &textures(), &Camera::classic());
    assert_eq!(column(&fb, 0), vec![0x004f9e, 0x174f9e, 0x2f4f9e, 0x474f9e]);
    assert_eq!(column(&fb, 1), BACKDROP_4.to_vec());
    let mut fb = Framebuffer::new(2, 4);
    fb.set_current_color(7);
    render3d(&mut fb, &Vec::new(), &maze, 10, &textures(), &Camera::classic());
    assert_eq!(column(&fb, 0), BACKDROP_4.to_vec());
    assert_eq!(fb.current_color, 0xFFFFFF);
}

#[test]
fn view_with_a_coarse_step() {
    let maze = grid(&["   |"]);
    let coarse = Camera { plane_distance: 90, max_distance: 120, step: 10, stop_at_markers: false };
    let mut fb = Framebuffer::new(1, 4);
    render3d(&mut fb, &vec![ray(5, 5, U, 0)], &maze, 10, &textures(), &coarse);
    // The hit is at 30 pixels, at the offset 5 across and down its cell:
    // texture column 1, rows 0, 1, 2, 4; opacity 90/120.
    assert_eq!(column(&fb, 0), vec![0x004b96, 0x164b96, 0x2d4b96, 0x5a4b96]);
}

#[test]
fn cell_colours() {
    for (tag, color) in [('+', 0x011f4bu32), ('-', 0x005b96), ('|', 0xb3cde0), ('g', 0xffbf00)] {
        let mut fb = Framebuffer::new(4, 4);
        draw_cell(&mut fb, 1, 2, 2, tag);
        let mut expected = vec![0u32; 16];
        for i in [9, 10, 13, 14] {
            expected[i] = color;
        }
        assert_eq!(fb.buffer, expected);
        assert_eq!(fb.current_color, color);
    }
}

#[test]
fn empty_and_start_cells_draw_nothing() {
    let mut fb = Framebuffer::new(4, 4);
    fb.set_current_color(0x55);
    draw_cell(&mut fb, 0, 0, 4, ' ');
    draw_cell(&mut fb, 0, 0, 4, 's');
    assert_eq!(fb.buffer, vec![0u32; 16]);
    assert_eq!(fb.current_color, 0x55);
}

#[test]
fn cell_of_an_unknown_tag_takes_the_draw_colour() {
    let mut fb = Framebuffer::new(2, 2);
    fb.set_current_color(0x55);
    draw_cell(&mut fb, 0, 0, 1, '#');
    assert_eq!(fb.buffer, vec![0x55, 0, 0, 0]);
    assert_eq!(fb.current_color, 0x55);
}

#[test]
fn cell_is_clipped_at_the_edges() {
    let mut fb = Framebuffer::new(3, 3);
    draw_cell(&mut fb, 2, 1, 5, '+');
    assert_eq!(fb.buffer, vec![0, 0, 0, 0, 0, 0x011f4b, 0, 0, 0x011f4b]);
    let mut fb = Framebuffer::new(3, 3);
    draw_cell(&mut fb, 3, 0, 5, '+');
    draw_cell(&mut fb, 0, 3, 5, '-');
    draw_cell(&mut fb, 1, 1, 0, '|');
    draw_cell(&mut fb, usize::MAX, usize::MAX, usize::MAX, 'g');
    assert_eq!(fb.buffer, vec![0u32; 9]);
    // A cell off the surface still sets the draw colour.
    assert_eq!(fb.current_color, 0xffbf00);
    let mut fb = Framebuffer::new(2, 2);
    draw_cell(&mut fb, 1, 1, usize::MAX, '|');
    assert_eq!(fb.buffer, vec![0, 0, 0, 0xb3cde0]);
}

#[test]
fn cells_of_a_maze() {
    let maze = grid(&["+-", "s|", " g"]);
    let mut fb = Framebuffer::new(5, 7);
    draw_cells(&mut fb, &maze, 2);
    let (p, m, i, g) = (0x011f4b, 0x005b96, 0xb3cde0, 0xffbf00);
    let expected = vec![
        p, p, m, m, 0,
        p, p, m, m, 0,
        0, 0, i, i, 0,
        0, 0, i, i, 0,
        0, 0, g, g, 0,
        0, 0, g, g, 0,
        0, 0, 0, 0, 0,
    ];
    assert_eq!(fb.buffer, expected);
    assert_eq!(fb.current_color, g);
}

#[test]
fn cells_of_unknown_tags_follow_the_cell_before() {
    let maze = grid(&["#+", "# "]);
    let mut fb = Framebuffer::new(2, 2);
    fb.set_current_color(0x55);
    draw_cells(&mut fb, &maze, 1);
    assert_eq!(fb.buffer, vec![0x55, 0x011f4b, 0x011f4b, 0]);
}

#[test]
fn map_shows_cells_player_and_sightlines() {
    let maze = grid(&["+   ", "    "]);
    let draw = CastOptions { step: 1, stop_at_markers: false, draw_line: true };
    let rays = vec![Ray::new(5 * U + U / 2, 3 * U, -U, 0).unwrap(), ray(5, 3, 0, U)];
    let mut fb = Framebuffer::new(8, 5);
    render2d(&mut fb, &maze, 2, (5 * U + U / 2, 3 * U), &rays, &draw);
    let (p, w) = (0x011f4b, 0xFFFFFF);
    let expected = vec![
        p, p, 0, 0, 0, 0, 0, 0,
        p, p, 0, 0, 0, 0, 0, 0,
        0, 0, 0, 0, 0, 0, 0, 0,
        0, 0, 0, 0, 0, w, 0, 0,
        0, 0, 0, 0, 0, 0, 0, 0,
    ];
    // Both rays start at the player's pixel; the first runs left along row
    // 3 to the edge of the grid, the second leaves the grid after row 3.
    let mut expected = expected;
    for x in 0..6 {
        expected[3 * 8 + x] = w;
    }
    assert_eq!(fb.buffer, expected);
    assert_eq!(fb.current_color, w);
}

#[test]
fn map_without_sightlines_shows_the_player() {
    let maze = grid(&["+   ", "    "]);
    let quiet = CastOptions { step: 1, stop_at_markers: false, draw_line: false };
    let rays = vec![ray(5, 3, -U, 0)];
    let mut fb = Framebuffer::new(8, 5);
    render2d(&mut fb, &maze, 2, (5 * U + U - 1, 3 * U + 1), &rays, &quiet);
    let mut expected = vec![0u32; 40];
    for i in [0, 1, 8, 9] {
        expected[i] = 0x011f4b;
    }
    expected[3 * 8 + 5] = 0xFFDDD;
    assert_eq!(fb.buffer, expected);
    assert_eq!(fb.current_color, 0xFFFFFF);
    // Without rays the draw colour stays that of the player.
    let mut fb = Framebuffer::new(8, 5);
    render2d(&mut fb, &maze, 2, (0, 0), &Vec::new(), &quiet);
    assert_eq!(fb.buffer[0], 0xFFDDD);
    assert_eq!(fb.current_color, 0xFFDDD);
}

#[test]
fn map_drops_a_player_off_the_surface() {
    let maze = grid(&[" "]);
    let quiet = CastOptions { step: 1, stop_at_markers: false, draw_line: false };
    for place in [(-1, 0), (0, -1), (2 * U, 0), (0, 2 * U), (i64::MAX, i64::MAX), (i64::MIN, 0)] {
        let mut fb = Framebuffer::new(2, 2);
        render2d(&mut fb, &maze, 1, place, &Vec::new(), &quiet);
        assert_eq!(fb.buffer, vec![0u32; 4], "{:?}", place);
    }
    let mut fb = Framebuffer::new(2, 2);
    render2d(&mut fb, &maze, 1, (2 * U - 1, 2 * U - 1), &Vec::new(), &quiet);
    assert_eq!(fb.buffer, vec![0, 0, 0, 0xFFDDD]);
}

#[test]
fn map_is_what_its_parts_draw_in_turn() {
    let maze = grid(&["+--+", "|s |", "| g|", "+--+"]);
    let draw = CastOptions { step: 1, stop_at_markers: false, draw_line: true };
    let rays: Vec<Ray> = [(U, 0), (46341, 46341), (0, U), (-46341, 46341), (60547, 25080)]
        .iter()
        .map(|&(dx, dy)| Ray::new(7 * U, 7 * U, dx, dy).unwrap())
        .collect();
    let mut fb = Framebuffer::new(24, 22);
    render2d(&mut fb, &maze, 5, (7 * U, 7 * U), &rays, &draw);
    let mut expected = Framebuffer::new(24, 22);
    draw_cells(&mut expected, &maze, 5);
    expected.set_current_color(PLAYER_COLOR);
    expected.point(7, 7);
    for r in &rays {
        cast_ray(&mut expected, &maze, r, 5, &draw);
    }
    assert_eq!(fb.buffer, expected.buffer);
    assert!(fb.buffer.iter().any(|&c| c == 0xFFFFFF));
    assert!(fb.buffer.iter().all(|&c| c != PLAYER_COLOR));
}

#[test]
fn textures_are_bound_to_the_wall_tags() {
    let t = Textures {
        plus: DynamicImage::new_rgba8(1, 5),
        minus: DynamicImage::new_rgba8(2, 6),
        pipe: DynamicImage::new_rgba8(3, 7),
        goal: DynamicImage::new_rgba8(4, 8),
    };
    let size = |tag: char| t.lookup(tag).map(|img| (img.width(), img.height()));
    assert_eq!(size('+'), Some((1, 5)));
    assert_eq!(size('-'), Some((2, 6)));
    assert_eq!(size('|'), Some((3, 7)));
    assert_eq!(size('g'), Some((4, 8)));
    for tag in [' ', 's', '#', 'G', '\n'] {
        assert!(t.lookup(tag).is_none());
    }
}
