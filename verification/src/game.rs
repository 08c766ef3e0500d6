//! The game around the renderer: its screens, the levels, and what one
//! frame decides and draws. Windows, files, clocks and sound stay with the
//! caller, which hands in the keys of a frame and carries out what a
//! frame asks for.

use vstd::prelude::*;
use image::DynamicImage;
use crate::caster::{in_grid, tag_at, CastOptions, Ray, SUBUNITS};
use crate::framebuffer::{blend_over, text_covers, Framebuffer, WHITE};
use crate::maze::{
    find_start_cell,
    find_start_position,
    first_start_at,
    grid_fits,
    grid_of,
    lemma_first_start_unique,
    lemma_start_fits,
    no_start,
    span_within,
    start_position,
    GOAL,
    MAX_SPAN,
};
use crate::player::{floor_div, Player};
use crate::renderer::{map_pixel, render2d, render3d, scene_pixel, Camera, PLAYER_COLOR};
use crate::textures::{image_height, image_width, rgba8_pixel, Textures};

verus! {

/// Pixels per cell in the first-person view.
pub const BLOCK_SIZE: usize = 30;

/// Pixels per cell of the small map shown over the first-person view.
pub const MAP_BLOCK_SIZE: usize = 5;

/// Width of the surface: thirteen cells.
pub const SURFACE_WIDTH: usize = 390;

/// Height of the surface: nine cells.
pub const SURFACE_HEIGHT: usize = 270;

/// Background colour of the surface.
pub const BACKGROUND_COLOR: u32 = 0xb69f66;

/// Number of sightlines on the map.
pub const MAP_RAYS: usize = 5;

/// Heading of a player that enters a level: pi / 3.
pub const START_HEADING: i64 = 1_047_198;

/// Field of view: pi / 3.5.
pub const FIELD_OF_VIEW: i64 = 897_598;

/// The screen that the game is on. A level key leads from the welcome
/// screen into play, the goal cell from play to the end screen, and Enter
/// from there back to the welcome screen.
#[derive(Clone, Copy, Debug, PartialEq, Eq, Structural)]
pub enum GameState {
    WelcomeScreen,
    Playing,
    EndScreen,
}

/// What the playing screen shows.
#[derive(Clone, Copy, Debug, PartialEq, Eq, Structural)]
pub enum Mode {
    /// The top-down map alone, with sightlines.
    TwoD,
    /// The first-person view under a small map.
    ThreeD,
}

/// Why a maze cannot be played.
#[derive(Clone, Copy, Debug, PartialEq, Eq, Structural)]
pub enum LevelError {
    /// The maze spans more than `MAX_SPAN` pixels.
    TooLarge,
    /// No cell holds the start tag.
    MissingStart,
    /// The first start cell lies in the leftmost column, so that the
    /// player's place, half a block to its left, is off the grid.
    StartAtEdge,
}

/// The keys of one frame that the game itself reads.
#[derive(Clone, Copy, Debug)]
pub struct Keys {
    pub escape: bool,
    pub enter: bool,
    pub key1: bool,
    pub key2: bool,
    pub key3: bool,
    pub m: bool,
    pub y: bool,
}

/// What the caller is to do after the keys of a playing frame are read.
#[derive(Clone, Copy, Debug, PartialEq, Eq, Structural)]
pub struct FrameActions {
    /// Whether the frame ends here, with nothing moved or drawn.
    pub skip: bool,
    /// Whether the sound of the map switch is to be played.
    pub map_sound: bool,
    /// Whether the sound of the mouse switch is to be played.
    pub mouse_sound: bool,
}

/// The images of the welcome and the end screen.
pub struct Screens {
    pub title: DynamicImage,
    pub end: DynamicImage,
}

/// The game: all of it but the window, the clock and the sound.
pub struct Game {
    pub state: GameState,
    pub player: Player,
    pub framebuffer: Framebuffer,
    /// Number of the level that is played.
    pub maze_opt: usize,
    pub maze: Vec<Vec<char>>,
    pub mode: Mode,
    /// Frames counted since the count began.
    pub fps_counter: usize,
    /// Frames counted in the last full second.
    pub current_fps: usize,
    /// Whether Y was down in the frame before.
    pub prev_y_pressed: bool,
    /// Whether M has been down since it switched the map.
    pub m_pressed: bool,
    /// Pixels per cell in the first-person view and on the map shown alone.
    pub block_size: usize,
    /// Pixels per cell of the small map.
    pub block_siz2d: usize,
}

/// Whether a maze can be played, and if not, why. An `Ok` holds the cell
/// where the player starts.
pub open spec fn level_check(grid: Seq<Seq<char>>, cell: Result<(int, int), LevelError>) -> bool {
    match cell {
        Err(LevelError::TooLarge) => !span_within(grid, BLOCK_SIZE as int, MAX_SPAN as int),
        Err(LevelError::MissingStart) => span_within(grid, BLOCK_SIZE as int, MAX_SPAN as int)
            && no_start(grid),
        Err(LevelError::StartAtEdge) => span_within(grid, BLOCK_SIZE as int, MAX_SPAN as int)
            && exists|r: int| #[trigger] first_start_at(grid, r, 0),
        Ok((row, col)) => span_within(grid, BLOCK_SIZE as int, MAX_SPAN as int) && first_start_at(
            grid,
            row,
            col,
        ) && col > 0,
    }
}

/// The player's place for a start cell, in fixed-point units: half a block
/// to the left of the cell's left edge, half a block below its top edge.
pub open spec fn start_place(row: int, col: int) -> (int, int) {
    ((col * BLOCK_SIZE - BLOCK_SIZE / 2) * SUBUNITS, (row * BLOCK_SIZE + BLOCK_SIZE / 2) * SUBUNITS)
}

/// The file that holds the maze of a level.
pub open spec fn maze_file_of(level: usize) -> Seq<char> {
    if level == 1 {
        "./maze.txt"@
    } else if level == 2 {
        "./maze2.txt"@
    } else if level == 3 {
        "./maze3.txt"@
    } else {
        "./default_maze.txt"@
    }
}

/// The file that holds the maze of a level.
pub fn maze_file(level: usize) -> (path: &'static str)
    ensures
        path@ == maze_file_of(level),
{
    if level == 1 {
        "./maze.txt"
    } else if level == 2 {
        "./maze2.txt"
    } else if level == 3 {
        "./maze3.txt"
    } else {
        "./default_maze.txt"
    }
}

/// The level that the keys of the welcome screen select: the highest of
/// 1, 2 and 3 whose key is down.
pub open spec fn selected_level(keys: Keys) -> Option<usize> {
    if keys.key3 {
        Some(3usize)
    } else if keys.key2 {
        Some(2usize)
    } else if keys.key1 {
        Some(1usize)
    } else {
        None
    }
}

/// The level that the keys of the welcome screen select.
pub fn select_level(keys: &Keys) -> (level: Option<usize>)
    ensures
        level == selected_level(*keys),
{
    if keys.key3 {
        Some(3)
    } else if keys.key2 {
        Some(2)
    } else if keys.key1 {
        Some(1)
    } else {
        None
    }
}

/// Checks that a maze can be played and finds the player's place in it, in
/// fixed-point units.
pub fn place_player(maze: &Vec<Vec<char>>) -> (place: Result<(i64, i64), LevelError>)
    ensures
        match place {
            Ok((x, y)) => exists|row: int, col: int|
                level_check(grid_of(maze), Ok((row, col))) && #[trigger] start_place(row, col) == (
                    x as int,
                    y as int,
                ),
            Err(e) => level_check(grid_of(maze), Err(e)),
        },
{
    if !grid_fits(maze, BLOCK_SIZE) {
        return Err(LevelError::TooLarge);
    }
    let ghost grid = grid_of(maze);
    match find_start_cell(maze) {
        None => Err(LevelError::MissingStart),
        Some((row, col)) => {
            if col == 0 {
                assert(first_start_at(grid, row as int, 0));
                return Err(LevelError::StartAtEdge);
            }
            proof {
                assert(grid[row as int].len() * BLOCK_SIZE <= MAX_SPAN);
                assert(grid.len() * BLOCK_SIZE <= MAX_SPAN);
                assert(level_check(grid, Ok((row as int, col as int))));
                lemma_start_fits(grid, BLOCK_SIZE as int, row as int, col as int);
            }
            match find_start_position(maze, BLOCK_SIZE) {
                None => Err(LevelError::MissingStart),
                Some((px, py)) => {
                    proof {
                        let (r, c) = choose|r: int, c: int| #[trigger]
                            first_start_at(grid, r, c) && start_position(r, c, BLOCK_SIZE as int) == (
                                px as int,
                                py as int,
                            );
                        lemma_first_start_unique(grid, r, c, row as int, col as int);
                    }
                    let x: i64 = px as i64 * SUBUNITS;
                    let y: i64 = py as i64 * SUBUNITS;
                    assert(start_place(row as int, col as int) == (x as int, y as int));
                    Ok((x, y))
                },
            }
        },
    }
}

impl Game {
    /// The surface is sound and not too tall, the player's angles are ones
    /// that a player can hold, and the maze can be drawn and cast through
    /// at both block sizes.
    pub open spec fn wf(&self) -> bool {
        &&& self.framebuffer.wf()
        &&& self.framebuffer.height <= MAX_SPAN
        &&& self.player.wf()
        &&& self.block_size == BLOCK_SIZE
        &&& self.block_siz2d == MAP_BLOCK_SIZE
        &&& span_within(grid_of(&self.maze), self.block_size as int, MAX_SPAN as int)
        &&& span_within(grid_of(&self.maze), self.block_siz2d as int, MAX_SPAN as int)
    }

    /// Block size of the map that the playing screen shows: the small one
    /// over the first-person view, the full one for the map alone.
    pub open spec fn map_scale(&self) -> usize {
        match self.mode {
            Mode::ThreeD => self.block_siz2d,
            Mode::TwoD => self.block_size,
        }
    }

    /// The player's position on that map, in fixed-point units.
    pub open spec fn map_place(&self) -> (int, int) {
        (
            self.player.x * self.map_scale() / self.block_size as int,
            self.player.y * self.map_scale() / self.block_size as int,
        )
    }

    /// Whether the rays are those of this game's player: each of an
    /// admissible direction, the rays of the view from the player's
    /// position and the rays of the map from the player's position on the
    /// map.
    pub open spec fn rays_fit(&self, view_rays: Seq<Ray>, map_rays: Seq<Ray>) -> bool {
        &&& forall|i: int|
            0 <= i < view_rays.len() ==> {
                &&& (#[trigger] view_rays[i]).wf()
                &&& view_rays[i].x == self.player.x
                &&& view_rays[i].y == self.player.y
            }
        &&& forall|i: int|
            0 <= i < map_rays.len() ==> {
                &&& (#[trigger] map_rays[i]).wf()
                &&& map_rays[i].x == self.map_place().0
                &&& map_rays[i].y == self.map_place().1
            }
    }

    /// How the rays of the map are marched: as those of the view, and
    /// plotted where the map is shown alone.
    pub open spec fn map_options(&self, camera: Camera) -> CastOptions {
        CastOptions {
            step: camera.step,
            stop_at_markers: camera.stop_at_markers,
            draw_line: self.mode == Mode::TwoD,
        }
    }

    /// Colour of pixel `(px, py)` of the playing screen. It depends on the
    /// surface only by its size, its background and, for cells of unknown
    /// tags on the map shown alone, its draw colour.
    pub open spec fn playing_pixel(
        &self,
        px: int,
        py: int,
        view_rays: Seq<Ray>,
        map_rays: Seq<Ray>,
        textures: Textures,
        camera: Camera,
    ) -> u32 {
        let dot = (self.map_place().0 / SUBUNITS as int, self.map_place().1 / SUBUNITS as int);
        match self.mode {
            Mode::ThreeD => map_pixel(
                scene_pixel(
                    self.framebuffer.background_color,
                    px,
                    py,
                    self.framebuffer.height as int,
                    grid_of(&self.maze),
                    self.block_size,
                    view_rays,
                    textures,
                    camera,
                ),
                px,
                py,
                grid_of(&self.maze),
                self.block_siz2d,
                WHITE,
                dot,
                map_rays,
                self.map_options(camera),
            ),
            Mode::TwoD => map_pixel(
                self.framebuffer.background_color,
                px,
                py,
                grid_of(&self.maze),
                self.block_size,
                self.framebuffer.current_color,
                dot,
                map_rays,
                self.map_options(camera),
            ),
        }
    }

    /// Whether `after` is this game after its playing screen was drawn:
    /// every pixel of the surface shows its colour of the playing screen,
    /// the draw colour is white, or the player's where the map has no
    /// sightlines, and nothing else has changed.
    pub open spec fn is_playing_frame(
        &self,
        after: Game,
        view_rays: Seq<Ray>,
        map_rays: Seq<Ray>,
        textures: Textures,
        camera: Camera,
    ) -> bool {
        &&& after.wf()
        &&& after.state == self.state
        &&& after.player == self.player
        &&& after.maze == self.maze
        &&& after.maze_opt == self.maze_opt
        &&& after.mode == self.mode
        &&& after.fps_counter == self.fps_counter
        &&& after.current_fps == self.current_fps
        &&& after.prev_y_pressed == self.prev_y_pressed
        &&& after.m_pressed == self.m_pressed
        &&& after.framebuffer.width == self.framebuffer.width
        &&& after.framebuffer.height == self.framebuffer.height
        &&& after.framebuffer.background_color == self.framebuffer.background_color
        &&& after.framebuffer.current_color == if map_rays.len() > 0 {
            WHITE
        } else {
            PLAYER_COLOR
        }
        &&& forall|px: int, py: int| #![trigger after.framebuffer.pixel(px, py)]
            self.framebuffer.contains(px, py) ==> after.framebuffer.pixel(px, py)
                == self.playing_pixel(px, py, view_rays, map_rays, textures, camera)
    }

    /// A game on the welcome screen with the given maze as its first
    /// level and the player on its start cell, or why the maze cannot be
    /// played.
    pub fn new(maze: Vec<Vec<char>>) -> (game: Result<Game, LevelError>)
        ensures
            match game {
                Ok(g) => {
                    &&& g.wf()
                    &&& g.state == GameState::WelcomeScreen
                    &&& g.maze == maze
                    &&& g.maze_opt == 1
                    &&& g.mode == Mode::ThreeD
                    &&& g.block_size == BLOCK_SIZE
                    &&& g.block_siz2d == MAP_BLOCK_SIZE
                    &&& g.fps_counter == 0
                    &&& g.current_fps == 0
                    &&& !g.prev_y_pressed
                    &&& !g.m_pressed
                    &&& g.framebuffer.width == SURFACE_WIDTH
                    &&& g.framebuffer.height == SURFACE_HEIGHT
                    &&& g.framebuffer.background_color == BACKGROUND_COLOR
                    &&& g.framebuffer.current_color == WHITE
                    &&& forall|i: int|
                        0 <= i < g.framebuffer.buffer@.len() ==> g.framebuffer.buffer@[i] == 0
                    &&& g.player.a == START_HEADING
                    &&& g.player.fov == FIELD_OF_VIEW
                    &&& exists|row: int, col: int|
                        level_check(grid_of(&maze), Ok((row, col))) && #[trigger] start_place(
                            row,
                            col,
                        ) == (g.player.x as int, g.player.y as int)
                },
                Err(e) => level_check(grid_of(&maze), Err(e)),
            },
    {
        let (x, y) = match place_player(&maze) {
            Err(e) => {
                return Err(e);
            },
            Ok(place) => place,
        };
        let player = Player::new(x, y, START_HEADING, FIELD_OF_VIEW);
        let mut framebuffer = Framebuffer::new(SURFACE_WIDTH, SURFACE_HEIGHT);
        framebuffer.set_background_color(BACKGROUND_COLOR);
        proof {
            lemma_span_smaller_blocks(
                grid_of(&maze),
                BLOCK_SIZE as int,
                MAP_BLOCK_SIZE as int,
                MAX_SPAN as int,
            );
        }
        Ok(
            Game {
                state: GameState::WelcomeScreen,
                player,
                framebuffer,
                maze_opt: 1,
                maze,
                mode: Mode::ThreeD,
                fps_counter: 0,
                current_fps: 0,
                prev_y_pressed: false,
                m_pressed: false,
                block_size: BLOCK_SIZE,
                block_siz2d: MAP_BLOCK_SIZE,
            },
        )
    }

    /// Enters a level: the maze becomes the game's maze, the player is put
    /// on its start cell and the playing screen is shown. A maze that
    /// cannot be played changes nothing.
    pub fn start_level(&mut self, level: usize, maze: Vec<Vec<char>>) -> (entered: Result<
        (),
        LevelError,
    >)
        requires
            old(self).wf(),
        ensures
            final(self).wf(),
            match entered {
                Ok(()) => {
                    &&& final(self).state == GameState::Playing
                    &&& final(self).maze == maze
                    &&& final(self).maze_opt == level
                    &&& exists|row: int, col: int|
                        level_check(grid_of(&maze), Ok((row, col))) && #[trigger] start_place(
                            row,
                            col,
                        ) == (final(self).player.x as int, final(self).player.y as int)
                    &&& final(self).player.a == old(self).player.a
                    &&& final(self).player.fov == old(self).player.fov
                    &&& final(self).player.move_speed == old(self).player.move_speed
                    &&& final(self).player.run_multiplier == old(self).player.run_multiplier
                    &&& final(self).player.mouse_control == old(self).player.mouse_control
                    &&& final(self).player.sound_on == old(self).player.sound_on
                    &&& final(self).framebuffer == old(self).framebuffer
                    &&& final(self).mode == old(self).mode
                    &&& final(self).fps_counter == old(self).fps_counter
                    &&& final(self).current_fps == old(self).current_fps
                    &&& final(self).prev_y_pressed == old(self).prev_y_pressed
                    &&& final(self).m_pressed == old(self).m_pressed
                },
                Err(e) => level_check(grid_of(&maze), Err(e)) && *final(self) == *old(self),
            },
    {
        let (x, y) = match place_player(&maze) {
            Err(e) => {
                return Err(e);
            },
            Ok(place) => place,
        };
        proof {
            lemma_span_smaller_blocks(
                grid_of(&maze),
                BLOCK_SIZE as int,
                MAP_BLOCK_SIZE as int,
                MAX_SPAN as int,
            );
        }
        self.player.x = x;
        self.player.y = y;
        self.maze = maze;
        self.maze_opt = level;
        self.state = GameState::Playing;
        Ok(())
    }

    /// Reads the keys of a frame of the end screen: Enter leads back to
    /// the welcome screen.
    pub fn leave_end_screen(&mut self, keys: &Keys)
        ensures
            final(self).state == if keys.enter {
                GameState::WelcomeScreen
            } else {
                old(self).state
            },
            final(self).player == old(self).player,
            final(self).framebuffer == old(self).framebuffer,
            final(self).maze == old(self).maze,
            final(self).maze_opt == old(self).maze_opt,
            final(self).mode == old(self).mode,
            final(self).fps_counter == old(self).fps_counter,
            final(self).current_fps == old(self).current_fps,
            final(self).prev_y_pressed == old(self).prev_y_pressed,
            final(self).m_pressed == old(self).m_pressed,
            final(self).block_size == old(self).block_size,
            final(self).block_siz2d == old(self).block_siz2d,
    {
        if keys.enter {
            self.state = GameState::WelcomeScreen;
        }
    }

    /// Reads the keys of a frame of the playing screen. Escape ends the
    /// frame at once. Else a player on the goal cell brings up the end
    /// screen, and Enter the playing screen where it does not; M, newly
    /// pressed, switches between the two maps, and Y, newly pressed,
    /// hands the turning to the mouse or takes it back, each with a sound.
    pub fn read_playing_keys(&mut self, keys: &Keys) -> (actions: FrameActions)
        requires
            old(self).wf(),
        ensures
            final(self).wf(),
            actions.skip == keys.escape,
            actions.map_sound == (!keys.escape && keys.m && !old(self).m_pressed),
            actions.mouse_sound == (!keys.escape && keys.y && !old(self).prev_y_pressed),
            keys.escape ==> *final(self) == *old(self),
            final(self).state == if !keys.escape && on_goal(*old(self)) {
                GameState::EndScreen
            } else if !keys.escape && keys.enter {
                GameState::Playing
            } else {
                old(self).state
            },
            final(self).mode == if actions.map_sound {
                match old(self).mode {
                    Mode::TwoD => Mode::ThreeD,
                    Mode::ThreeD => Mode::TwoD,
                }
            } else {
                old(self).mode
            },
            !keys.escape ==> final(self).m_pressed == keys.m,
            !keys.escape ==> final(self).prev_y_pressed == keys.y,
            final(self).player.mouse_control == (old(self).player.mouse_control
                != actions.mouse_sound),
            final(self).player.x == old(self).player.x,
            final(self).player.y == old(self).player.y,
            final(self).player.a == old(self).player.a,
            final(self).player.fov == old(self).player.fov,
            final(self).player.move_speed == old(self).player.move_speed,
            final(self).player.run_multiplier == old(self).player.run_multiplier,
            final(self).player.sound_on == old(self).player.sound_on,
            final(self).framebuffer == old(self).framebuffer,
            final(self).maze == old(self).maze,
            final(self).maze_opt == old(self).maze_opt,
            final(self).fps_counter == old(self).fps_counter,
            final(self).current_fps == old(self).current_fps,
    {
        let mut actions = FrameActions { skip: false, map_sound: false, mouse_sound: false };
        if keys.escape {
            actions.skip = true;
            return actions;
        }
        if keys.enter {
            self.state = GameState::Playing;
        }
        match self.player.get_current_tile(&self.maze, self.block_size) {
            Some(tile) => {
                if tile == GOAL {
                    self.state = GameState::EndScreen;
                }
            },
            None => {},
        }
        if keys.m {
            if !self.m_pressed {
                self.mode = match self.mode {
                    Mode::TwoD => Mode::ThreeD,
                    Mode::ThreeD => Mode::TwoD,
                };
                self.m_pressed = true;
                actions.map_sound = true;
            }
        } else {
            self.m_pressed = false;
        }
        if keys.y && !self.prev_y_pressed {
            actions.mouse_sound = true;
            self.player.mouse_control = !self.player.mouse_control;
        }
        self.prev_y_pressed = keys.y;
        actions
    }

    /// The angles of the rays of the first-person view, one per column of
    /// the surface.
    pub fn view_angles(&self) -> (angles: Vec<i64>)
        requires
            self.wf(),
        ensures
            angles@.len() == self.framebuffer.width,
            forall|i: int|
                0 <= i < angles@.len() ==> #[trigger] angles@[i] == self.player.a - self.player.fov
                    / 2 + self.player.fov * i / (self.framebuffer.width as int),
    {
        self.player.ray_angles(self.framebuffer.width)
    }

    /// The angles of the sightlines on the map.
    pub fn map_angles(&self) -> (angles: Vec<i64>)
        requires
            self.wf(),
        ensures
            angles@.len() == MAP_RAYS,
            forall|i: int|
                0 <= i < MAP_RAYS ==> #[trigger] angles@[i] == self.player.a - self.player.fov / 2
                    + self.player.fov * i / (MAP_RAYS as int),
    {
        self.player.ray_angles(MAP_RAYS)
    }

    /// Block size of the map that the playing screen shows.
    pub fn map_block_size(&self) -> (scale: usize)
        ensures
            scale == self.map_scale(),
    {
        match self.mode {
            Mode::ThreeD => self.block_siz2d,
            Mode::TwoD => self.block_size,
        }
    }

    /// The player's position on the map that the playing screen shows, in
    /// fixed-point units: where the rays of the map start.
    pub fn map_position(&self) -> (place: (i64, i64))
        requires
            self.wf(),
        ensures
            (place.0 as int, place.1 as int) == self.map_place(),
    {
        proof {
            let x = self.player.x as int;
            let y = self.player.y as int;
            assert(self.block_size == 30 && self.block_siz2d == 5);
            assert(x * 30 / 30 == x && y * 30 / 30 == y);
            assert(x * self.block_size == x * 30 && y * self.block_size == y * 30);
            assert(x * self.block_siz2d == x * 5 && y * self.block_siz2d == y * 5);
        }
        match self.mode {
            Mode::ThreeD => (scale_down(self.player.x), scale_down(self.player.y)),
            Mode::TwoD => (self.player.x, self.player.y),
        }
    }

    /// Draws the playing screen over a cleared surface: the first-person
    /// view of `view_rays` under the small map, or the map alone with the
    /// sightlines of `map_rays`. The rays start where the player stands;
    /// their directions are the caller's.
    pub fn render_playing(
        &mut self,
        view_rays: &Vec<Ray>,
        map_rays: &Vec<Ray>,
        textures: &Textures,
        camera: &Camera,
    )
        requires
            old(self).wf(),
            0 < camera.step,
            old(self).rays_fit(view_rays@, map_rays@),
        ensures
            old(self).is_playing_frame(*final(self), view_rays@, map_rays@, *textures, *camera),
            final(self).block_size == old(self).block_size,
            final(self).block_siz2d == old(self).block_siz2d,
    {
        let place: (i64, i64) = self.map_position();
        let ghost ink = self.framebuffer.current_color;
        self.framebuffer.clear();
        let ghost cleared = self.framebuffer;
        proof {
            assert forall|px: int, py: int| cleared.contains(px, py) implies (#[trigger] cleared.pixel(
                px,
                py,
            )) == cleared.background_color by {
                cleared.lemma_pixel_index(px, py);
            }
        }
        match self.mode {
            Mode::ThreeD => {
                let options = CastOptions {
                    step: camera.step,
                    stop_at_markers: camera.stop_at_markers,
                    draw_line: false,
                };
                render3d(
                    &mut self.framebuffer,
                    view_rays,
                    &self.maze,
                    self.block_size,
                    textures,
                    camera,
                );
                render2d(
                    &mut self.framebuffer,
                    &self.maze,
                    self.block_siz2d,
                    place,
                    map_rays,
                    &options,
                );
            },
            Mode::TwoD => {
                let options = CastOptions {
                    step: camera.step,
                    stop_at_markers: camera.stop_at_markers,
                    draw_line: true,
                };
                render2d(
                    &mut self.framebuffer,
                    &self.maze,
                    self.block_size,
                    place,
                    map_rays,
                    &options,
                );
            },
        }
    }

    /// Draws the welcome or the end screen: the image over a cleared
    /// surface, its top left corner in that of the surface.
    pub fn render_screen(&mut self, image: &DynamicImage)
        requires
            old(self).framebuffer.wf(),
        ensures
            final(self).framebuffer.wf(),
            final(self).framebuffer.same_frame(&old(self).framebuffer),
            forall|px: int, py: int| #![trigger final(self).framebuffer.pixel(px, py)]
                old(self).framebuffer.contains(px, py) ==> final(self).framebuffer.pixel(px, py)
                    == screen_pixel(old(self).framebuffer.background_color, *image, px, py),
            final(self).state == old(self).state,
            final(self).player == old(self).player,
            final(self).maze == old(self).maze,
            final(self).maze_opt == old(self).maze_opt,
            final(self).mode == old(self).mode,
            final(self).fps_counter == old(self).fps_counter,
            final(self).current_fps == old(self).current_fps,
            final(self).prev_y_pressed == old(self).prev_y_pressed,
            final(self).m_pressed == old(self).m_pressed,
            final(self).block_size == old(self).block_size,
            final(self).block_siz2d == old(self).block_siz2d,
    {
        self.framebuffer.clear();
        let ghost cleared = self.framebuffer;
        proof {
            assert forall|px: int, py: int| cleared.contains(px, py) implies (#[trigger] cleared.pixel(
                px,
                py,
            )) == cleared.background_color by {
                cleared.lemma_pixel_index(px, py);
            }
        }
        self.framebuffer.draw_image(image, 0, 0);
    }

    /// Writes the frame rate in white at `(220, 10)`: the digits of
    /// `FPS: ` and the rate, of which only the digits show.
    pub fn draw_fps(&mut self)
        requires
            old(self).framebuffer.wf(),
        ensures
            final(self).framebuffer.wf(),
            final(self).framebuffer.width == old(self).framebuffer.width,
            final(self).framebuffer.height == old(self).framebuffer.height,
            final(self).framebuffer.background_color == old(self).framebuffer.background_color,
            final(self).framebuffer.current_color == WHITE,
            forall|px: int, py: int| #![trigger final(self).framebuffer.pixel(px, py)]
                old(self).framebuffer.contains(px, py) ==> final(self).framebuffer.pixel(px, py)
                    == if text_covers(
                    fps_label(old(self).current_fps as nat),
                    fps_label(old(self).current_fps as nat).len() as int,
                    px - 220,
                    py - 10,
                ) {
                    WHITE
                } else {
                    old(self).framebuffer.pixel(px, py)
                },
            final(self).state == old(self).state,
            final(self).player == old(self).player,
            final(self).maze == old(self).maze,
            final(self).maze_opt == old(self).maze_opt,
            final(self).mode == old(self).mode,
            final(self).fps_counter == old(self).fps_counter,
            final(self).current_fps == old(self).current_fps,
            final(self).prev_y_pressed == old(self).prev_y_pressed,
            final(self).m_pressed == old(self).m_pressed,
            final(self).block_size == old(self).block_size,
            final(self).block_siz2d == old(self).block_siz2d,
    {
        let mut label: Vec<char> = Vec::new();
        label.push('F');
        label.push('P');
        label.push('S');
        label.push(':');
        label.push(' ');
        assert(label@ == seq!['F', 'P', 'S', ':', ' ']);
        push_decimal(&mut label, self.current_fps);
        self.framebuffer.set_current_color(WHITE);
        self.framebuffer.draw_glyphs(220, 10, &label);
    }

    /// Draws the screen of the game's state over a cleared surface: the
    /// welcome image, the playing screen or the end image.
    pub fn render(
        &mut self,
        screens: &Screens,
        view_rays: &Vec<Ray>,
        map_rays: &Vec<Ray>,
        textures: &Textures,
        camera: &Camera,
    )
        requires
            old(self).wf(),
            old(self).state == GameState::Playing ==> 0 < camera.step && old(self).rays_fit(
                view_rays@,
                map_rays@,
            ),
        ensures
            final(self).wf(),
            old(self).state == GameState::Playing ==> old(self).is_playing_frame(
                *final(self),
                view_rays@,
                map_rays@,
                *textures,
                *camera,
            ),
            old(self).state != GameState::Playing ==> final(self).framebuffer.same_frame(
                &old(self).framebuffer,
            ),
            old(self).state != GameState::Playing ==> forall|px: int, py: int| #![trigger final(self).framebuffer.pixel(px, py)]
                old(self).framebuffer.contains(px, py) ==> final(self).framebuffer.pixel(px, py)
                    == screen_pixel(
                    old(self).framebuffer.background_color,
                    if old(self).state == GameState::WelcomeScreen {
                        screens.title
                    } else {
                        screens.end
                    },
                    px,
                    py,
                ),
            final(self).state == old(self).state,
            final(self).player == old(self).player,
            final(self).maze == old(self).maze,
            final(self).maze_opt == old(self).maze_opt,
            final(self).mode == old(self).mode,
            final(self).fps_counter == old(self).fps_counter,
            final(self).current_fps == old(self).current_fps,
            final(self).prev_y_pressed == old(self).prev_y_pressed,
            final(self).m_pressed == old(self).m_pressed,
    {
        match self.state {
            GameState::Playing => self.render_playing(view_rays, map_rays, textures, camera),
            GameState::WelcomeScreen => self.render_screen(&screens.title),
            GameState::EndScreen => self.render_screen(&screens.end),
        }
    }

    /// Counts a frame; where a second has passed since the count began,
    /// the count becomes the frame rate and begins anew.
    pub fn count_frame(&mut self, second_passed: bool)
        ensures
            final(self).current_fps == if second_passed {
                counted(old(self).fps_counter)
            } else {
                old(self).current_fps
            },
            final(self).fps_counter == if second_passed {
                0
            } else {
                counted(old(self).fps_counter)
            },
            final(self).state == old(self).state,
            final(self).player == old(self).player,
            final(self).framebuffer == old(self).framebuffer,
            final(self).maze == old(self).maze,
            final(self).maze_opt == old(self).maze_opt,
            final(self).mode == old(self).mode,
            final(self).prev_y_pressed == old(self).prev_y_pressed,
            final(self).m_pressed == old(self).m_pressed,
            final(self).block_size == old(self).block_size,
            final(self).block_siz2d == old(self).block_siz2d,
    {
        if self.fps_counter < usize::MAX {
            self.fps_counter = self.fps_counter + 1;
        }
        if second_passed {
            self.current_fps = self.fps_counter;
            self.fps_counter = 0;
        }
    }
}

/// The character of a decimal digit.
pub open spec fn digit_char(d: nat) -> char {
    (48 + d) as u8 as char
}

/// A number in decimal digits, the highest first.
pub open spec fn decimal(n: nat) -> Seq<char>
    decreases n,
{
    if n < 10 {
        seq![digit_char(n)]
    } else {
        decimal(n / 10).push(digit_char(n % 10))
    }
}

/// The text that shows a frame rate: `FPS: ` and the rate in decimal.
pub open spec fn fps_label(fps: nat) -> Seq<char> {
    seq!['F', 'P', 'S', ':', ' '] + decimal(fps)
}

/// Appends a number in decimal digits.
fn push_decimal(text: &mut Vec<char>, n: usize)
    ensures
        final(text)@ == old(text)@ + decimal(n as nat),
    decreases n,
{
    if n >= 10 {
        push_decimal(text, n / 10);
    }
    let ghost before = text@;
    text.push((48u8 + (n % 10) as u8) as char);
    proof {
        if n >= 10 {
            assert(text@ == old(text)@ + decimal(n as nat));
        } else {
            assert(text@ == old(text)@ + seq![digit_char(n as nat)]);
        }
    }
}

/// Colour of pixel `(px, py)` of a welcome or end screen: the image, read
/// as RGBA of 8 bits, over the background where the image reaches, the
/// background elsewhere.
pub open spec fn screen_pixel(background: u32, image: DynamicImage, px: int, py: int) -> u32 {
    if px < image_width(image) && py < image_height(image) {
        blend_over(background, rgba8_pixel(image, px as u32, py as u32))
    } else {
        background
    }
}

/// A frame count after one more frame; it stops at the largest number.
pub open spec fn counted(frames: usize) -> usize {
    if frames < usize::MAX {
        (frames + 1) as usize
    } else {
        frames
    }
}

/// Whether the player of the game stands on the goal cell.
pub open spec fn on_goal(game: Game) -> bool {
    in_grid(
        grid_of(&game.maze),
        game.block_size as int,
        game.player.x as int / SUBUNITS as int,
        game.player.y as int / SUBUNITS as int,
    ) && tag_at(
        grid_of(&game.maze),
        game.block_size as int,
        game.player.x as int / SUBUNITS as int,
        game.player.y as int / SUBUNITS as int,
    ) == GOAL
}

/// A coordinate of the full map brought to the small map: times
/// `MAP_BLOCK_SIZE`, over `BLOCK_SIZE`, rounded down.
fn scale_down(v: i64) -> (scaled: i64)
    ensures
        scaled == v * MAP_BLOCK_SIZE / BLOCK_SIZE as int,
{
    floor_div(v as i128 * 5, 30) as i64
}

/// A grid that fits at one block size fits at any smaller one.
pub proof fn lemma_span_smaller_blocks(grid: Seq<Seq<char>>, large: int, small: int, limit: int)
    requires
        0 <= small <= large,
        span_within(grid, large, limit),
    ensures
        span_within(grid, small, limit),
{
    assert(grid.len() * small <= grid.len() * large) by (nonlinear_arith)
        requires 0 <= small <= large, 0 <= grid.len();
    assert forall|j: int| 0 <= j < grid.len() implies (#[trigger] grid[j]).len() * small <= limit by {
        assert(grid[j].len() * small <= grid[j].len() * large) by (nonlinear_arith)
            requires 0 <= small <= large, 0 <= grid[j].len();
    }
}

/// Rendering is repeatable. Two games that agree on all but what their
/// surfaces hold, drawn with the same rays, textures and camera, end with
/// the same surface: a frame is a function of the player, the grid and the
/// surface's size and background, whatever the surface showed before. The
/// map shown alone paints cells of unknown tags in the draw colour, so
/// there the two surfaces have to agree on that colour too.
pub proof fn lemma_render_repeatable(
    first: Game,
    first_after: Game,
    second: Game,
    second_after: Game,
    view_rays: Seq<Ray>,
    map_rays: Seq<Ray>,
    textures: Textures,
    camera: Camera,
)
    requires
        first.wf(),
        second.wf(),
        first.player == second.player,
        first.maze == second.maze,
        first.mode == second.mode,
        first.framebuffer.width == second.framebuffer.width,
        first.framebuffer.height == second.framebuffer.height,
        first.framebuffer.background_color == second.framebuffer.background_color,
        first.mode == Mode::TwoD ==> first.framebuffer.current_color
            == second.framebuffer.current_color,
        first.is_playing_frame(first_after, view_rays, map_rays, textures, camera),
        second.is_playing_frame(second_after, view_rays, map_rays, textures, camera),
    ensures
        first_after.framebuffer.buffer@ == second_after.framebuffer.buffer@,
        first_after.framebuffer.current_color == second_after.framebuffer.current_color,
{
    let a = first_after.framebuffer;
    let b = second_after.framebuffer;
    let w = a.width as int;
    let h = a.height as int;
    assert(a.buffer@.len() == b.buffer@.len());
    assert forall|i: int| 0 <= i < a.buffer@.len() implies a.buffer@[i] == b.buffer@[i] by {
        if w == 0 {
            assert(w * h == 0) by (nonlinear_arith)
                requires w == 0;
        }
        let x = i % w;
        let y = i / w;
        assert(i == y * w + x && 0 <= x < w && 0 <= y) by (nonlinear_arith)
            requires 0 < w, 0 <= i, x == i % w, y == i / w;
        assert(y < h) by (nonlinear_arith)
            requires y * w + x < w * h, 0 <= x, 0 < w;
        assert(first.playing_pixel(x, y, view_rays, map_rays, textures, camera)
            == second.playing_pixel(x, y, view_rays, map_rays, textures, camera));
        assert(a.pixel(x, y) == a.buffer@[i]);
        assert(b.pixel(x, y) == b.buffer@[i]);
    }
    assert(a.buffer@ =~= b.buffer@);
}

/// Two frames in a row, with nothing changed between them, show the same:
/// drawing the playing screen again over what it drew leaves the surface as
/// it is. For the map shown alone the draw colour before the first frame
/// has to be the one that a frame leaves.
pub proof fn lemma_next_frame_same(
    before: Game,
    once: Game,
    twice: Game,
    view_rays: Seq<Ray>,
    map_rays: Seq<Ray>,
    textures: Textures,
    camera: Camera,
)
    requires
        before.wf(),
        before.mode == Mode::TwoD ==> before.framebuffer.current_color == if map_rays.len() > 0 {
            WHITE
        } else {
            PLAYER_COLOR
        },
        before.is_playing_frame(once, view_rays, map_rays, textures, camera),
        once.is_playing_frame(twice, view_rays, map_rays, textures, camera),
    ensures
        twice.framebuffer.buffer@ == once.framebuffer.buffer@,
{
    lemma_render_repeatable(before, once, once, twice, view_rays, map_rays, textures, camera);
}

} // verus!
