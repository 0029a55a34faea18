//! Maze generation for a grid-based arcade arena.
//!
//! A maze of `width` by `height` cells lives on a doubled grid of
//! `2 * height + 1` rows and `2 * width + 1` columns. Odd/odd positions are
//! the cells, the positions between two cells are wall slots, and the outer
//! border is solid wall. Carving is a randomized depth-first search that
//! opens one wall slot for every cell it discovers, which yields a perfect
//! maze: the open passages form a spanning tree over the cells.
//!
//! [`Maze::new`] and [`Maze::generate`] carve at random. What they draw is
//! a script, one order of the four directions for each cell, and the maze
//! is a function of that script: [`Maze::carve_with`] carves by a script
//! given to it, and [`Maze::delete_walls_with`] runs the deletion pass of
//! the loopy mode by decisions given to it. [`Maze::walls`] places the
//! standing walls around the origin.
//!
//! Randomness comes from the `rand` crate. What is assumed of it without
//! proof is stated in the module `random`.

pub mod carve;
pub mod config;
pub mod count;
pub mod deletion;
pub mod error;
pub mod generate;
pub mod grid;
pub mod lineage;
pub mod maze;
pub mod opening;
pub mod paths;
pub mod position;
pub mod random;
pub mod search;
pub mod text;
pub mod theorems;
pub mod tree;
pub mod walls;

pub use config::{Chance, MazeConfig};
pub use error::MazeError;
pub use grid::{PASSAGE, WALL};
pub use maze::{is_order, Maze};
pub use position::{Direction, Position};
pub use random::{
    accept_odd, lowest_odd, rand_odd_between, shuffled_directions, ODD_DRAW_LIMIT,
};
pub use walls::{Toward, WallPlacement};
