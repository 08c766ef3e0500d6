//! The player: a position in fixed-point units, a heading and a field of
//! view in microradians, and the rules by which key and mouse input turn
//! and move it.

use vstd::prelude::*;
use crate::caster::{in_grid, tag_at, unit_like, SUBUNITS};
use crate::maze::{grid_of, is_passable, passable_tag};

verus! {

/// A full turn in microradians.
pub const FULL_TURN: i64 = 6_283_185;

/// Largest angle, either way, that a player holds: it keeps every sum of
/// angles inside the machine integers.
pub const MAX_ANGLE: i64 = 0x1000_0000_0000_0000;

/// What one frame of the A or D key turns the player by: pi / 70.
pub const KEY_TURN: i64 = 44_880;

/// What one frame of the mouse outside the centre zone turns the player
/// by: 0.05 rad.
pub const MOUSE_TURN: i64 = 50_000;

/// Left edge of the centre zone of the window, in fixed-point units: 40%
/// of 1080 pixels.
pub const CENTER_ZONE_LEFT: i64 = 432 * 65536;

/// Right edge of the centre zone of the window, in fixed-point units: 60%
/// of 1080 pixels.
pub const CENTER_ZONE_RIGHT: i64 = 648 * 65536;

/// The input of one frame.
#[derive(Clone, Copy, Debug)]
pub struct Controls {
    /// The A key: turn left.
    pub turn_left: bool,
    /// The D key: turn right.
    pub turn_right: bool,
    /// The W key: walk forwards.
    pub forward: bool,
    /// The S key: walk backwards.
    pub backward: bool,
    /// The left shift key: run.
    pub run: bool,
    /// Column of the mouse in the window, in fixed-point units, if the
    /// mouse is over it.
    pub mouse_x: Option<i64>,
    /// Whether the walking sound, if it was started, has run out.
    pub sound_ended: bool,
}

/// What the walking sound is to do after a frame.
#[derive(Clone, Copy, Debug, PartialEq, Eq, Structural)]
pub enum SoundAction {
    /// Leave it as it is.
    Keep,
    /// Start the loop.
    Start,
    /// Stop the loop.
    Stop,
}

/// The player. The position is in fixed-point units, `SUBUNITS` per pixel,
/// in the space of the grid, where a cell is `block_size` pixels wide.
pub struct Player {
    pub x: i64,
    pub y: i64,
    /// Heading in microradians; 0 looks along the x axis.
    pub a: i64,
    /// Field of view in microradians.
    pub fov: i64,
    /// Pixels walked per frame.
    pub move_speed: u32,
    /// How many times faster the player runs than walks.
    pub run_multiplier: u32,
    /// Whether the mouse turns the player.
    pub mouse_control: bool,
    /// Whether the walking sound was started and not stopped since.
    pub sound_on: bool,
}

/// An angle brought into one turn: the remainder of its division by a full
/// turn.
pub open spec fn normalized(angle: int) -> int {
    angle % (FULL_TURN as int)
}

/// The heading that a player holds for the angle: the angle itself up to
/// `MAX_ANGLE` either way, beyond that the angle brought into one turn.
pub open spec fn held(angle: int) -> int {
    if -MAX_ANGLE <= angle <= MAX_ANGLE {
        angle
    } else {
        normalized(angle)
    }
}

/// What the mouse adds to the heading in one frame.
pub open spec fn mouse_turn(mouse_control: bool, mouse_x: Option<i64>) -> int {
    if mouse_control && mouse_x.is_some() {
        if mouse_x.unwrap() < CENTER_ZONE_LEFT {
            -MOUSE_TURN as int
        } else if mouse_x.unwrap() > CENTER_ZONE_RIGHT {
            MOUSE_TURN as int
        } else {
            0
        }
    } else {
        0
    }
}

/// What the keys add to the heading in one frame.
pub open spec fn key_turn(controls: Controls) -> int {
    (if controls.turn_left {
        -KEY_TURN as int
    } else {
        0
    }) + (if controls.turn_right {
        KEY_TURN as int
    } else {
        0
    })
}

/// Pixels that the player covers in one frame.
pub open spec fn speed_of(move_speed: u32, run_multiplier: u32, run: bool) -> int {
    if run {
        move_speed * run_multiplier
    } else {
        move_speed as int
    }
}

/// Whether a player at the fixed-point position `(x, y)` stands on a cell
/// that can be walked through.
pub open spec fn can_stand(grid: Seq<Seq<char>>, block_size: int, x: int, y: int) -> bool {
    &&& i64::MIN <= x <= i64::MAX
    &&& i64::MIN <= y <= i64::MAX
    &&& in_grid(grid, block_size, x / (SUBUNITS as int), y / (SUBUNITS as int))
    &&& passable_tag(tag_at(grid, block_size, x / (SUBUNITS as int), y / (SUBUNITS as int)))
}

/// Where a walk of one frame ends and whether it ran its course. A step
/// forwards is tried first and then a step backwards, each only where its
/// key is down; the first step that would end on a cell that cannot be
/// walked through ends the walk where the player then stands.
pub open spec fn walk(
    grid: Seq<Seq<char>>,
    block_size: int,
    x: int,
    y: int,
    dx: int,
    dy: int,
    speed: int,
    forward: bool,
    backward: bool,
) -> (int, int, Option<bool>) {
    let fx = x + dx * speed;
    let fy = y + dy * speed;
    if forward && !can_stand(grid, block_size, fx, fy) {
        (x, y, None)
    } else {
        let (mx, my) = if forward {
            (fx, fy)
        } else {
            (x, y)
        };
        let bx = mx - dx * speed;
        let by = my - dy * speed;
        if backward && !can_stand(grid, block_size, bx, by) {
            (mx, my, None)
        } else if backward {
            (bx, by, Some(true))
        } else {
            (mx, my, Some(forward))
        }
    }
}

/// What the walking sound is to do after a walk: nothing where the walk
/// was cut short; start where the player moved and no sound is on; stop
/// where the player stood, a sound is on and it has not run out.
pub open spec fn sound_after(moved: Option<bool>, sound_on: bool, sound_ended: bool) -> SoundAction {
    match moved {
        None => SoundAction::Keep,
        Some(true) => if sound_on {
            SoundAction::Keep
        } else {
            SoundAction::Start
        },
        Some(false) => if sound_on && !sound_ended {
            SoundAction::Stop
        } else {
            SoundAction::Keep
        },
    }
}

impl Player {
    /// The heading and the field of view are no larger than `MAX_ANGLE`,
    /// either way.
    pub open spec fn wf(&self) -> bool {
        &&& -MAX_ANGLE <= self.a <= MAX_ANGLE
        &&& -MAX_ANGLE <= self.fov <= MAX_ANGLE
    }

    /// A player at the fixed-point position `(x, y)` with heading `a` and
    /// field of view `fov`, walking 3 pixels per frame, running twice as
    /// fast, the mouse not in control.
    pub fn new(x: i64, y: i64, a: i64, fov: i64) -> (player: Player)
        ensures
            player.x == x,
            player.y == y,
            player.a == a,
            player.fov == fov,
            player.move_speed == 3,
            player.run_multiplier == 2,
            !player.mouse_control,
            !player.sound_on,
    {
        Player {
            x,
            y,
            a,
            fov,
            move_speed: 3,
            run_multiplier: 2,
            mouse_control: false,
            sound_on: false,
        }
    }

    /// Turns the player by what the mouse and the keys of one frame ask
    /// for. The heading is the sum, as long as a player can hold it.
    pub fn turn(&mut self, controls: &Controls)
        requires
            old(self).wf(),
        ensures
            final(self).wf(),
            final(self).a == held(
                old(self).a + mouse_turn(old(self).mouse_control, controls.mouse_x) + key_turn(
                    *controls,
                ),
            ),
            final(self).x == old(self).x,
            final(self).y == old(self).y,
            final(self).fov == old(self).fov,
            final(self).move_speed == old(self).move_speed,
            final(self).run_multiplier == old(self).run_multiplier,
            final(self).mouse_control == old(self).mouse_control,
            final(self).sound_on == old(self).sound_on,
    {
        let mut a: i64 = self.a;
        if self.mouse_control {
            if let Some(mouse_x) = controls.mouse_x {
                if mouse_x < CENTER_ZONE_LEFT {
                    a = a - MOUSE_TURN;
                } else if mouse_x > CENTER_ZONE_RIGHT {
                    a = a + MOUSE_TURN;
                }
            }
        }
        if controls.turn_left {
            a = a - KEY_TURN;
        }
        if controls.turn_right {
            a = a + KEY_TURN;
        }
        self.a = if -MAX_ANGLE <= a && a <= MAX_ANGLE {
            a
        } else {
            wrap_angle(a)
        };
    }

    /// The angle of the ray number `i` of `n` that fan out over the field
    /// of view, in microradians: `a - fov / 2 + fov * i / n`, each quotient
    /// rounded down.
    pub fn ray_angle(&self, i: usize, n: usize) -> (angle: i64)
        requires
            self.wf(),
            i < n,
        ensures
            angle == self.a - self.fov / 2 + self.fov * i / (n as int),
    {
        let fov: i128 = self.fov as i128;
        assert(-(0x1000_0000_0000_0000 * 0xFFFF_FFFF_FFFF_FFFF) <= fov * i <= 0x1000_0000_0000_0000
            * 0xFFFF_FFFF_FFFF_FFFF) by (nonlinear_arith)
            requires
                -0x1000_0000_0000_0000 <= fov <= 0x1000_0000_0000_0000,
                0 <= i <= 0xFFFF_FFFF_FFFF_FFFF,
        ;
        let half: i128 = floor_div(fov, 2);
        let part: i128 = floor_div(fov * i as i128, n as i128);
        proof {
            let q = (fov * i) / (n as int);
            assert(fov * i == q * n + (fov * i) % (n as int) && 0 <= (fov * i) % (n as int) < n)
                by (nonlinear_arith)
                requires 0 < n, q == (fov * i) / (n as int);
            if fov >= 0 {
                assert(0 <= fov * i <= fov * n) by (nonlinear_arith)
                    requires 0 <= fov, 0 <= i < n;
                assert(0 <= q <= fov) by (nonlinear_arith)
                    requires
                        0 <= fov * i <= fov * n,
                        0 < n,
                        fov * i == q * n + (fov * i) % (n as int),
                        0 <= (fov * i) % (n as int) < n,
                ;
            } else {
                assert(fov * n <= fov * i <= 0) by (nonlinear_arith)
                    requires fov < 0, 0 <= i < n;
                assert(fov <= q <= 0) by (nonlinear_arith)
                    requires
                        fov * n <= fov * i <= 0,
                        0 < n,
                        fov * i == q * n + (fov * i) % (n as int),
                        0 <= (fov * i) % (n as int) < n,
                ;
            }
        }
        (self.a as i128 - half + part) as i64
    }

    /// The angles of `n` rays that fan out over the field of view, from
    /// the left edge of the view on.
    pub fn ray_angles(&self, n: usize) -> (angles: Vec<i64>)
        requires
            self.wf(),
        ensures
            angles@.len() == n,
            forall|i: int|
                0 <= i < n ==> #[trigger] angles@[i] == self.a - self.fov / 2 + self.fov * i / (
                n as int),
    {
        let mut angles: Vec<i64> = Vec::new();
        let mut i: usize = 0;
        while i < n
            invariant
                i <= n,
                self.wf(),
                angles@.len() == i,
                forall|j: int|
                    0 <= j < i ==> #[trigger] angles@[j] == self.a - self.fov / 2 + self.fov * j / (
                    n as int),
            decreases n - i,
        {
            angles.push(self.ray_angle(i, n));
            i += 1;
        }
        angles
    }

    /// The tag of the cell that the player stands on, or `None` outside
    /// the grid.
    pub fn get_current_tile(&self, maze: &Vec<Vec<char>>, block_size: usize) -> (tile: Option<char>)
        requires
            0 < block_size,
        ensures
            tile.is_some() == in_grid(
                grid_of(maze),
                block_size as int,
                self.x as int / SUBUNITS as int,
                self.y as int / SUBUNITS as int,
            ),
            tile.is_some() ==> tile.unwrap() == tag_at(
                grid_of(maze),
                block_size as int,
                self.x as int / SUBUNITS as int,
                self.y as int / SUBUNITS as int,
            ),
    {
        tile_at(maze, block_size, self.x, self.y)
    }

    /// Moves the player by what the keys of one frame ask for, along the
    /// direction `(dx, dy)` of its heading, and says what the walking sound
    /// is to do.
    pub fn process_events(
        &mut self,
        controls: &Controls,
        dx: i64,
        dy: i64,
        maze: &Vec<Vec<char>>,
        block_size: usize,
    ) -> (action: SoundAction)
        requires
            0 < block_size,
            unit_like(dx as int, dy as int),
        ensures
            final(self).x == walk(
                grid_of(maze),
                block_size as int,
                old(self).x as int,
                old(self).y as int,
                dx as int,
                dy as int,
                speed_of(old(self).move_speed, old(self).run_multiplier, controls.run),
                controls.forward,
                controls.backward,
            ).0,
            final(self).y == walk(
                grid_of(maze),
                block_size as int,
                old(self).x as int,
                old(self).y as int,
                dx as int,
                dy as int,
                speed_of(old(self).move_speed, old(self).run_multiplier, controls.run),
                controls.forward,
                controls.backward,
            ).1,
            action == sound_after(
                walk(
                    grid_of(maze),
                    block_size as int,
                    old(self).x as int,
                    old(self).y as int,
                    dx as int,
                    dy as int,
                    speed_of(old(self).move_speed, old(self).run_multiplier, controls.run),
                    controls.forward,
                    controls.backward,
                ).2,
                old(self).sound_on,
                controls.sound_ended,
            ),
            final(self).sound_on == match action {
                SoundAction::Keep => old(self).sound_on,
                SoundAction::Start => true,
                SoundAction::Stop => false,
            },
            final(self).a == old(self).a,
            final(self).fov == old(self).fov,
            final(self).move_speed == old(self).move_speed,
            final(self).run_multiplier == old(self).run_multiplier,
            final(self).mouse_control == old(self).mouse_control,
    {
        let speed: u64 = if controls.run {
            assert(self.move_speed * self.run_multiplier <= 0xFFFF_FFFF * 0xFFFF_FFFF)
                by (nonlinear_arith)
                requires 0 <= self.move_speed <= 0xFFFF_FFFF, 0 <= self.run_multiplier
                    <= 0xFFFF_FFFF;
            self.move_speed as u64 * self.run_multiplier as u64
        } else {
            self.move_speed as u64
        };
        let mut moved: bool = false;
        if controls.forward {
            match step_to(maze, block_size, self.x, self.y, dx, dy, speed, false) {
                None => {
                    return SoundAction::Keep;
                },
                Some((nx, ny)) => {
                    self.x = nx;
                    self.y = ny;
                    moved = true;
                },
            }
        }
        if controls.backward {
            match step_to(maze, block_size, self.x, self.y, dx, dy, speed, true) {
                None => {
                    return SoundAction::Keep;
                },
                Some((nx, ny)) => {
                    self.x = nx;
                    self.y = ny;
                    moved = true;
                },
            }
        }
        if moved {
            if !self.sound_on {
                self.sound_on = true;
                return SoundAction::Start;
            }
        } else if self.sound_on && !controls.sound_ended {
            self.sound_on = false;
            return SoundAction::Stop;
        }
        SoundAction::Keep
    }
}

/// The quotient of a division by a positive number, rounded down.
pub fn floor_div(num: i128, den: i128) -> (quotient: i128)
    requires
        0 < den,
        i128::MIN < num,
    ensures
        quotient == num / den,
{
    if num >= 0 {
        num / den
    } else {
        let q: i128 = (-num) / den;
        let r: i128 = (-num) % den;
        proof {
            let m = -(num as int);
            let d = den as int;
            let qi = q as int;
            let ri = r as int;
            assert(m == qi * d + ri && 0 <= ri < d) by (nonlinear_arith)
                requires 0 < d, qi == m / d, ri == m % d, 0 <= m;
            if ri == 0 {
                assert(-m == (-qi) * d + 0) by (nonlinear_arith)
                    requires m == qi * d + ri, ri == 0;
                vstd::arithmetic::div_mod::lemma_fundamental_div_mod_converse(-m, d, -qi, 0);
            } else {
                assert(-m == (-qi - 1) * d + (d - ri)) by (nonlinear_arith)
                    requires m == qi * d + ri;
                vstd::arithmetic::div_mod::lemma_fundamental_div_mod_converse(
                    -m,
                    d,
                    -qi - 1,
                    d - ri,
                );
            }
        }
        if r == 0 {
            -q
        } else {
            -q - 1
        }
    }
}

/// An angle brought into one turn.
pub fn wrap_angle(angle: i64) -> (wrapped: i64)
    ensures
        wrapped == normalized(angle as int),
        0 <= wrapped < FULL_TURN,
{
    if angle >= 0 {
        angle % FULL_TURN
    } else {
        FULL_TURN - 1 - (-(angle + 1)) % FULL_TURN
    }
}

/// The row and column of the cell that holds the fixed-point position
/// `(x, y)`, or `None` where a coordinate is negative.
fn cell_of(block_size: usize, x: i64, y: i64) -> (cell: Option<(u64, u64)>)
    requires
        0 < block_size,
    ensures
        cell.is_some() == (x >= 0 && y >= 0),
        cell.is_some() ==> cell.unwrap().0 == (y as int / SUBUNITS as int) / (block_size as int)
            && cell.unwrap().1 == (x as int / SUBUNITS as int) / (block_size as int),
        cell.is_none() ==> (y as int / SUBUNITS as int) / (block_size as int) < 0 || (x as int
            / SUBUNITS as int) / (block_size as int) < 0,
{
    let ghost px = x as int / SUBUNITS as int;
    let ghost py = y as int / SUBUNITS as int;
    if x < 0 || y < 0 {
        proof {
            if x < 0 {
                assert(px < 0);
                assert(px / (block_size as int) < 0) by (nonlinear_arith)
                    requires px < 0, 0 < block_size;
            } else {
                assert(py < 0);
                assert(py / (block_size as int) < 0) by (nonlinear_arith)
                    requires py < 0, 0 < block_size;
            }
        }
        return None;
    }
    let col: u64 = (x / SUBUNITS) as u64 / block_size as u64;
    let row: u64 = (y / SUBUNITS) as u64 / block_size as u64;
    Some((row, col))
}

/// The tag of the cell that holds the fixed-point position `(x, y)`, or
/// `None` outside the grid.
fn tile_at(maze: &Vec<Vec<char>>, block_size: usize, x: i64, y: i64) -> (tile: Option<char>)
    requires
        0 < block_size,
    ensures
        tile.is_some() == in_grid(
            grid_of(maze),
            block_size as int,
            x as int / SUBUNITS as int,
            y as int / SUBUNITS as int,
        ),
        tile.is_some() ==> tile.unwrap() == tag_at(
            grid_of(maze),
            block_size as int,
            x as int / SUBUNITS as int,
            y as int / SUBUNITS as int,
        ),
{
    match cell_of(block_size, x, y) {
        None => None,
        Some((row, col)) => {
            if row >= maze.len() as u64 {
                return None;
            }
            let cells: &Vec<char> = &maze[row as usize];
            if col >= cells.len() as u64 {
                return None;
            }
            Some(cells[col as usize])
        },
    }
}

/// Where one step of `speed` pixels along `(dx, dy)`, or against it, takes
/// a player from `(x, y)`, or `None` where it would end on a cell that
/// cannot be walked through.
fn step_to(
    maze: &Vec<Vec<char>>,
    block_size: usize,
    x: i64,
    y: i64,
    dx: i64,
    dy: i64,
    speed: u64,
    back: bool,
) -> (to: Option<(i64, i64)>)
    requires
        0 < block_size,
        unit_like(dx as int, dy as int),
    ensures
        to.is_some() == can_stand(
            grid_of(maze),
            block_size as int,
            if back { x - dx * speed } else { x + dx * speed },
            if back { y - dy * speed } else { y + dy * speed },
        ),
        to.is_some() ==> to.unwrap().0 == (if back { x - dx * speed } else { x + dx * speed })
            && to.unwrap().1 == (if back { y - dy * speed } else { y + dy * speed }),
{
    assert(-(65536 * 0xFFFF_FFFF_FFFF_FFFF) <= dx * speed <= 65536 * 0xFFFF_FFFF_FFFF_FFFF && -(
    65536 * 0xFFFF_FFFF_FFFF_FFFF) <= dy * speed <= 65536 * 0xFFFF_FFFF_FFFF_FFFF)
        by (nonlinear_arith)
        requires
            -65536 <= dx <= 65536,
            -65536 <= dy <= 65536,
            0 <= speed <= 0xFFFF_FFFF_FFFF_FFFF,
    ;
    let sx: i128 = dx as i128 * speed as i128;
    let sy: i128 = dy as i128 * speed as i128;
    let nx: i128 = if back {
        x as i128 - sx
    } else {
        x as i128 + sx
    };
    let ny: i128 = if back {
        y as i128 - sy
    } else {
        y as i128 + sy
    };
    if nx < i64::MIN as i128 || nx > i64::MAX as i128 || ny < i64::MIN as i128 || ny > i64::MAX as i128 {
        return None;
    }
    match cell_of(block_size, nx as i64, ny as i64) {
        None => None,
        Some((row, col)) => if row < maze.len() as u64 && col < maze[row as usize].len() as u64
            && is_passable(maze, row as usize, col as usize) {
            Some((nx as i64, ny as i64))
        } else {
            None
        },
    }
}

} // verus!
