//! A first-person raycasting renderer for grid mazes, on integer arithmetic.
//!
//! World coordinates are whole pixels; ray origins and directions are
//! fixed-point values. Every function carries a contract over the pixel
//! surface, the grid and the ray that Verus proves.

pub mod framebuffer;
pub mod maze;
pub mod caster;
pub mod textures;
pub mod shading;
pub mod projection;
pub mod renderer;
pub mod player;
pub mod game;
