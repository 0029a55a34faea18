//! Generation at random: carving by shuffled direction orders, then the
//! deletion pass in loopy mode.

use vstd::prelude::*;
use rand::rngs::ThreadRng;
use crate::carve::{carved_grid, is_script};
use crate::config::MazeConfig;
use crate::deletion::lemma_deleted_connected;
use crate::error::MazeError;
use crate::grid::Grid;
use crate::maze::{dimensions_fit, lemma_area_exceeds, script_of, valid_dimensions, Maze};
use crate::position::Direction;
use crate::random::draw_orders;

verus! {

/// Whether `grid` can come out of generation: carving by some script,
/// followed in loopy mode by a deletion pass with some decisions.
pub open spec fn is_generated(grid: Grid, width: int, height: int, loopy: bool) -> bool {
    exists|script: Seq<Seq<Direction>>, decisions: Seq<bool>|
        is_script(script, width, height) && grid == #[trigger] generated_grid(
            width,
            height,
            loopy,
            script,
            decisions,
        )
}

/// The maze that a script and the decisions of a deletion pass generate.
pub open spec fn generated_grid(
    width: int,
    height: int,
    loopy: bool,
    script: Seq<Seq<Direction>>,
    decisions: Seq<bool>,
) -> Grid {
    if loopy {
        carved_grid(width, height, script).deleted(decisions)
    } else {
        carved_grid(width, height, script)
    }
}

impl Maze {
    /// Generates a maze of `width` by `height` cells: carves a perfect
    /// maze and, in loopy mode, deletes interior walls at random.
    ///
    /// All randomness is drawn from `rng`: one shuffle of the four
    /// directions for each cell, then one decision for each interior wall
    /// slot in loopy mode.
    pub fn generate(width: usize, height: usize, config: &MazeConfig, rng: &mut ThreadRng) -> (made:
        Result<Maze, MazeError>)
        ensures
            match made {
                Ok(maze) => {
                    &&& valid_dimensions(width as int, height as int)
                    &&& maze.wf()
                    &&& maze@.width == width
                    &&& maze@.height == height
                    &&& is_generated(maze@, width as int, height as int, config.loopy)
                    &&& !config.loopy || config.deletion_chance@.0 == 0 ==> maze@.is_perfect()
                    &&& maze@.connected()
                    &&& maze@.open_passages() >= width * height - 1
                },
                Err(error) => error == MazeError::InvalidDimensions && !valid_dimensions(
                    width as int,
                    height as int,
                ),
            },
    {
        if !dimensions_fit(width, height) {
            return Err(MazeError::InvalidDimensions);
        }
        proof {
            lemma_area_exceeds(width as int, height as int);
        }
        let orders = draw_orders(rng, width * height);
        let ghost script = script_of(orders@);
        match Maze::carve_with(width, height, &orders) {
            Ok(carved) => {
                let mut maze = carved;
                let ghost perfect = maze@;
                if config.loopy {
                    maze.delete_random_walls(config.deletion_chance, rng);
                    proof {
                        let decisions = choose|decisions: Seq<bool>|
                            decisions.len() == perfect.interior_slots() && maze@
                                == #[trigger] perfect.deleted(decisions);
                        lemma_deleted_connected(perfect, decisions);
                        assert(maze@ == generated_grid(
                            width as int,
                            height as int,
                            true,
                            script,
                            decisions,
                        ));
                    }
                } else {
                    proof {
                        assert(maze@ == generated_grid(
                            width as int,
                            height as int,
                            false,
                            script,
                            Seq::<bool>::empty(),
                        ));
                    }
                }
                Ok(maze)
            },
            Err(error) => Err(error),
        }
    }

    /// Carves a perfect maze of `width` by `height` cells at random.
    ///
    /// Randomness comes from the generator that `rand` keeps for the
    /// calling thread: one shuffle of the four directions for each cell.
    pub fn new(width: usize, height: usize) -> (made: Result<Maze, MazeError>)
        ensures
            match made {
                Ok(maze) => {
                    &&& valid_dimensions(width as int, height as int)
                    &&& maze.wf()
                    &&& maze@.width == width
                    &&& maze@.height == height
                    &&& maze@.is_perfect()
                    &&& exists|script: Seq<Seq<Direction>>|
                        is_script(script, width as int, height as int) && maze@
                            == #[trigger] carved_grid(width as int, height as int, script)
                },
                Err(error) => error == MazeError::InvalidDimensions && !valid_dimensions(
                    width as int,
                    height as int,
                ),
            },
    {
        let mut rng = rand::thread_rng();
        let made = Maze::generate(width, height, &MazeConfig::perfect(), &mut rng);
        proof {
            if made is Ok {
                let maze = made->Ok_0;
                let (script, decisions) = choose|script: Seq<Seq<Direction>>, decisions: Seq<bool>|
                    is_script(script, width as int, height as int) && maze@
                        == #[trigger] generated_grid(
                        width as int,
                        height as int,
                        false,
                        script,
                        decisions,
                    );
                assert(maze@ == carved_grid(width as int, height as int, script));
            }
        }
        made
    }
}

} // verus!
