use std::collections::VecDeque;
use tank_maze::{is_order, Direction, Maze, MazeError, Position, PASSAGE, WALL};

const UP: Direction = Direction::Up;
const LEFT: Direction = Direction::Left;
const RIGHT: Direction = Direction::Right;
const DOWN: Direction = Direction::Down;
const ORDER: [Direction; 4] = [UP, LEFT, RIGHT, DOWN];

fn grid(maze: &Maze) -> Vec<Vec<u8>> {
    (0..maze.rows())
        .map(|r| (0..maze.cols()).map(|c| maze.get(Position { x: c, y: r }).unwrap()).collect())
        .collect()
}

fn open_interior_slots(grid: &[Vec<u8>]) -> usize {
    let rows = grid.len();
    let cols = grid[0].len();
    let mut count = 0;
    for r in 1..rows - 1 {
        for c in 1..cols - 1 {
            if r % 2 != c % 2 && grid[r][c] == PASSAGE {
                count += 1;
            }
        }
    }
    count
}

fn reached_cells(grid: &[Vec<u8>]) -> usize {
    let rows = grid.len() as i64;
    let cols = grid[0].len() as i64;
    let mut seen = vec![vec![false; grid[0].len()]; grid.len()];
    let mut queue = VecDeque::new();
    seen[1][1] = true;
    queue.push_back((1i64, 1i64));
    let mut count = 0;
    while let Some((r, c)) = queue.pop_front() {
        count += 1;
        for (dr, dc) in [(1i64, 0i64), (-1, 0), (0, 1), (0, -1)] {
            let (wr, wc) = (r + dr, c + dc);
            let (nr, nc) = (r + 2 * dr, c + 2 * dc);
            if nr < 0 || nc < 0 || nr >= rows || nc >= cols {
                continue;
            }
            if grid[wr as usize][wc as usize] == PASSAGE && !seen[nr as usize][nc as usize] {
                seen[nr as usize][nc as usize] = true;
                queue.push_back((nr, nc));
            }
        }
    }
    count
}

fn assert_well_formed(grid: &[Vec<u8>], width: usize, height: usize) {
    assert_eq!(grid.len(), 2 * height + 1);
    for (r, row) in grid.iter().enumerate() {
        assert_eq!(row.len(), 2 * width + 1);
        for (c, value) in row.iter().enumerate() {
            assert!(*value == WALL || *value == PASSAGE);
            if r == 0 || c == 0 || r == 2 * height || c == 2 * width {
                assert_eq!(*value, WALL, "border at row {} column {}", r, c);
            }
            if r % 2 == 1 && c % 2 == 1 {
                assert_eq!(*value, PASSAGE, "cell at row {} column {}", r, c);
            }
            if r % 2 == 0 && c % 2 == 0 {
                assert_eq!(*value, WALL, "post at row {} column {}", r, c);
            }
        }
    }
}

fn assert_perfect(maze: &Maze, width: usize, height: usize) {
    let grid = grid(maze);
    assert_well_formed(&grid, width, height);
    assert_eq!(reached_cells(&grid), width * height);
    assert_eq!(open_interior_slots(&grid), width * height - 1);
}

#[test]
fn single_cell_maze_keeps_all_four_walls() {
    let maze = Maze::new(1, 1).unwrap();
    assert_eq!(maze.width(), 1);
    assert_eq!(maze.height(), 1);
    assert_eq!(grid(&maze), vec![vec![1, 1, 1], vec![1, 0, 1], vec![1, 1, 1]]);
}

#[test]
fn single_cell_maze_reads_one_order() {
    let maze = Maze::carve_with(1, 1, &vec![[DOWN, RIGHT, LEFT, UP]]).unwrap();
    assert_eq!(grid(&maze), vec![vec![1, 1, 1], vec![1, 0, 1], vec![1, 1, 1]]);
}

#[test]
fn scripted_carving_of_two_by_two() {
    let maze = Maze::carve_with(2, 2, &vec![ORDER; 4]).unwrap();
    assert_eq!(
        grid(&maze),
        vec![
            vec![1, 1, 1, 1, 1],
            vec![1, 0, 1, 0, 1],
            vec![1, 0, 1, 0, 1],
            vec![1, 0, 0, 0, 1],
            vec![1, 1, 1, 1, 1],
        ]
    );
}

#[test]
fn scripted_carving_of_three_by_three() {
    let maze = Maze::carve_with(3, 3, &vec![ORDER; 9]).unwrap();
    assert_eq!(
        grid(&maze),
        vec![
            vec![1, 1, 1, 1, 1, 1, 1],
            vec![1, 0, 1, 0, 0, 0, 1],
            vec![1, 0, 1, 0, 1, 1, 1],
            vec![1, 0, 1, 0, 0, 0, 1],
            vec![1, 0, 1, 1, 1, 0, 1],
            vec![1, 0, 0, 0, 0, 0, 1],
            vec![1, 1, 1, 1, 1, 1, 1],
        ]
    );
}

#[test]
fn another_order_carves_another_maze() {
    let maze = Maze::carve_with(3, 3, &vec![[RIGHT, UP, LEFT, DOWN]; 9]).unwrap();
    assert_eq!(
        grid(&maze),
        vec![
            vec![1, 1, 1, 1, 1, 1, 1],
            vec![1, 0, 0, 0, 0, 0, 1],
            vec![1, 1, 1, 1, 1, 0, 1],
            vec![1, 0, 0, 0, 1, 0, 1],
            vec![1, 0, 1, 1, 1, 0, 1],
            vec![1, 0, 0, 0, 0, 0, 1],
            vec![1, 1, 1, 1, 1, 1, 1],
        ]
    );
}

#[test]
fn each_cell_probes_in_its_own_order() {
    let orders = vec![
        [DOWN, RIGHT, UP, LEFT],
        [RIGHT, DOWN, LEFT, UP],
        [UP, LEFT, RIGHT, DOWN],
        [LEFT, UP, RIGHT, DOWN],
        [UP, RIGHT, DOWN, LEFT],
        [DOWN, LEFT, RIGHT, UP],
    ];
    let maze = Maze::carve_with(3, 2, &orders).unwrap();
    assert_eq!(maze.width(), 3);
    assert_eq!(maze.height(), 2);
    assert_eq!(
        grid(&maze),
        vec![
            vec![1, 1, 1, 1, 1, 1, 1],
            vec![1, 0, 0, 0, 0, 0, 1],
            vec![1, 1, 1, 1, 1, 0, 1],
            vec![1, 0, 0, 0, 0, 0, 1],
            vec![1, 1, 1, 1, 1, 1, 1],
        ]
    );
}

#[test]
fn corridors_of_one_cell_width() {
    let tall = Maze::carve_with(1, 3, &vec![ORDER; 3]).unwrap();
    assert_eq!(
        grid(&tall),
        vec![
            vec![1, 1, 1],
            vec![1, 0, 1],
            vec![1, 0, 1],
            vec![1, 0, 1],
            vec![1, 0, 1],
            vec![1, 0, 1],
            vec![1, 1, 1],
        ]
    );
    let wide = Maze::carve_with(3, 1, &vec![ORDER; 3]).unwrap();
    assert_eq!(
        grid(&wide),
        vec![vec![1, 1, 1, 1, 1, 1, 1], vec![1, 0, 0, 0, 0, 0, 1], vec![1, 1, 1, 1, 1, 1, 1]]
    );
}

#[test]
fn same_script_carves_the_same_maze() {
    let orders = vec![[LEFT, DOWN, UP, RIGHT]; 35];
    let first = Maze::carve_with(7, 5, &orders).unwrap();
    let second = Maze::carve_with(7, 5, &orders).unwrap();
    assert_eq!(grid(&first), grid(&second));
    assert_perfect(&first, 7, 5);
}

#[test]
fn orders_beyond_one_for_each_cell_are_not_read() {
    let mut longer = vec![ORDER; 9];
    longer.push([DOWN, DOWN, DOWN, DOWN]);
    longer.push([RIGHT, LEFT, UP, DOWN]);
    let first = Maze::carve_with(3, 3, &vec![ORDER; 9]).unwrap();
    let second = Maze::carve_with(3, 3, &longer).unwrap();
    assert_eq!(grid(&first), grid(&second));
}

#[test]
fn random_mazes_are_perfect() {
    let sizes = [(1, 1), (1, 2), (2, 1), (2, 2), (3, 3), (5, 7), (9, 5), (10, 10), (31, 17)];
    for (width, height) in sizes {
        let maze = Maze::new(width, height).unwrap();
        assert_eq!(maze.width(), width);
        assert_eq!(maze.height(), height);
        assert_eq!(maze.rows(), 2 * height + 1);
        assert_eq!(maze.cols(), 2 * width + 1);
        assert_perfect(&maze, width, height);
    }
}

#[test]
fn random_mazes_differ() {
    let first = grid(&Maze::new(12, 12).unwrap());
    let differs = (0..20).any(|_| grid(&Maze::new(12, 12).unwrap()) != first);
    assert!(differs);
}

#[test]
fn a_large_maze_needs_no_deep_recursion() {
    let maze = Maze::carve_with(400, 300, &vec![ORDER; 120_000]).unwrap();
    assert_perfect(&maze, 400, 300);
}

#[test]
fn zero_width_is_rejected() {
    assert_eq!(Maze::new(0, 3).err(), Some(MazeError::InvalidDimensions));
    assert_eq!(Maze::carve_with(0, 3, &vec![ORDER; 3]).err(), Some(MazeError::InvalidDimensions));
}

#[test]
fn zero_height_is_rejected() {
    assert_eq!(Maze::new(3, 0).err(), Some(MazeError::InvalidDimensions));
    assert_eq!(Maze::new(0, 0).err(), Some(MazeError::InvalidDimensions));
}

#[test]
fn a_grid_beyond_memory_is_rejected() {
    assert_eq!(Maze::new(usize::MAX, 1).err(), Some(MazeError::InvalidDimensions));
    assert_eq!(Maze::new(1, usize::MAX / 2).err(), Some(MazeError::InvalidDimensions));
    assert_eq!(
        Maze::new(usize::MAX / 4, usize::MAX / 4).err(),
        Some(MazeError::InvalidDimensions)
    );
}

#[test]
fn a_script_with_too_few_orders_is_rejected() {
    assert_eq!(Maze::carve_with(2, 2, &vec![ORDER; 3]).err(), Some(MazeError::ScriptTooShort));
    assert_eq!(Maze::carve_with(1, 1, &Vec::new()).err(), Some(MazeError::ScriptTooShort));
}

#[test]
fn an_order_that_repeats_a_direction_is_rejected() {
    let mut orders = vec![ORDER; 4];
    orders[3] = [UP, UP, LEFT, RIGHT];
    assert_eq!(Maze::carve_with(2, 2, &orders).err(), Some(MazeError::InvalidOrder));
}

#[test]
fn an_invalid_order_that_no_cell_reads_is_accepted() {
    let mut orders = vec![ORDER; 5];
    orders[4] = [UP, UP, UP, UP];
    assert!(Maze::carve_with(2, 2, &orders).is_ok());
}

#[test]
fn an_order_holds_each_direction() {
    assert!(is_order(&ORDER));
    assert!(is_order(&[DOWN, RIGHT, LEFT, UP]));
    assert!(!is_order(&[UP, LEFT, RIGHT, RIGHT]));
    assert!(!is_order(&[DOWN, DOWN, DOWN, DOWN]));
}

#[test]
fn values_off_the_grid_are_none() {
    let maze = Maze::new(2, 3).unwrap();
    assert_eq!(maze.get(Position { x: 0, y: 0 }), Some(WALL));
    assert_eq!(maze.get(Position { x: 1, y: 1 }), Some(PASSAGE));
    assert_eq!(maze.get(Position { x: 4, y: 6 }), Some(WALL));
    assert_eq!(maze.get(Position { x: 5, y: 6 }), None);
    assert_eq!(maze.get(Position { x: 4, y: 7 }), None);
}

fn simple_paths(
    grid: &[Vec<u8>],
    at: (usize, usize),
    to: (usize, usize),
    seen: &mut Vec<(usize, usize)>,
) -> usize {
    if at == to {
        return 1;
    }
    seen.push(at);
    let mut count = 0;
    let (r, c) = at;
    let steps = [
        (r + 1, c, r + 2, c),
        (r - 1, c, r.wrapping_sub(2), c),
        (r, c + 1, r, c + 2),
        (r, c - 1, r, c.wrapping_sub(2)),
    ];
    for (wr, wc, nr, nc) in steps {
        if grid[wr][wc] == PASSAGE && !seen.contains(&(nr, nc)) {
            count += simple_paths(grid, (nr, nc), to, seen);
        }
    }
    seen.pop();
    count
}

#[test]
fn there_is_one_way_between_any_two_cells() {
    for (width, height) in [(1, 1), (2, 2), (3, 3), (4, 3)] {
        let maze = Maze::new(width, height).unwrap();
        let grid = grid(&maze);
        for from_row in 0..height {
            for from_col in 0..width {
                for to_row in 0..height {
                    for to_col in 0..width {
                        let from = (2 * from_row + 1, 2 * from_col + 1);
                        let to = (2 * to_row + 1, 2 * to_col + 1);
                        assert_eq!(simple_paths(&grid, from, to, &mut Vec::new()), 1);
                    }
                }
            }
        }
    }
}

#[test]
fn a_loop_opens_a_second_way() {
    let mut maze = Maze::carve_with(2, 2, &[ORDER; 4]).unwrap();
    assert_eq!(simple_paths(&grid(&maze), (1, 1), (1, 3), &mut Vec::new()), 1);
    assert_eq!(maze.delete_walls_with(&[true, false, false, false]), Ok(()));
    assert_eq!(simple_paths(&grid(&maze), (1, 1), (1, 3), &mut Vec::new()), 2);
}
