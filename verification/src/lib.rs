//! A voxel world with water, light and workers that find their way across it.
//!
//! The library holds the world's rules: the cube grid and its water and light,
//! path finding and the workers' tasks, the isometric projection and the
//! rasterising of cube faces into a screen buffer. Windowing, image files and
//! the game loop stand outside it.

use vstd::prelude::*;

pub mod agents;
pub mod animation;
pub mod events;
pub mod frame;
pub mod game;
pub mod grid;
pub mod input;
pub mod laws;
pub mod render;
pub mod resources;
pub mod view;
pub mod water;
pub mod world_generation;

verus! {

/// Screen size in pixels.
pub const SCREEN_WIDTH: usize = 2000;
pub const SCREEN_HEIGHT: usize = 1200;
pub const SCREEN_Y_OFFSET: usize = SCREEN_HEIGHT / 4;
pub const SCREEN_X_OFFSET: usize = SCREEN_WIDTH / 4;

/// A cube sprite is a square of `TILE_WIDTH` pixels.
pub const TILE_WIDTH: usize = 24;
pub const TILE_HALF_WIDTH: usize = TILE_WIDTH / 2;

/// The world is `GRID_WIDTH` cubes along x and y and `GRID_HEIGHT` cubes along z.
pub const GRID_HEIGHT: usize = 60;
pub const GRID_WIDTH: usize = 300;

/// The part of the world drawn at once.
pub const VIEW_HEIGHT: usize = 20;
pub const VIEW_WIDTH: usize = 60;

/// Cube types.
pub const EMPTY_CUBE: u8 = 255;
pub const STONE_CUBE: u8 = 0;
pub const MUD_CUBE: u8 = 1;
pub const GRASS_CUBE: u8 = 2;
pub const PLOUGHED_CUBE: u8 = 4;
pub const WATER_CUBE: u8 = 6;
pub const LANTERN_CUBE: u8 = 7;

/// A position in the world: x, y and height z.
pub type Pos = (usize, usize, usize);

/// The four directions the camera can look from.
#[derive(PartialEq, Eq, Structural, Clone, Copy, Debug)]
pub enum Compass {
    North,
    South,
    East,
    West,
}

} // verus!
