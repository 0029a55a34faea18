use tank_maze::{
    accept_odd, lowest_odd, rand_odd_between, shuffled_directions, Chance, Direction, Maze,
    MazeConfig, MazeError, Position, ODD_DRAW_LIMIT, PASSAGE, WALL,
};

fn cells_of(maze: &Maze) -> Vec<Vec<u8>> {
    (0..maze.rows())
        .map(|r| (0..maze.cols()).map(|c| maze.get(Position { x: c, y: r }).unwrap()).collect())
        .collect()
}

fn open_count(values: &[Vec<u8>]) -> usize {
    let mut count = 0;
    for (r, row) in values.iter().enumerate() {
        for (c, value) in row.iter().enumerate() {
            if r % 2 != c % 2 && *value == PASSAGE {
                count += 1;
            }
        }
    }
    count
}

fn reachable_from_start(values: &[Vec<u8>]) -> usize {
    let rows = values.len();
    let cols = values[0].len();
    let mut seen = vec![vec![false; cols]; rows];
    let mut stack = vec![(1usize, 1usize)];
    seen[1][1] = true;
    let mut count = 0;
    while let Some((r, c)) = stack.pop() {
        count += 1;
        let mut next = Vec::new();
        if r + 2 < rows {
            next.push((r + 1, c, r + 2, c));
        }
        if r >= 3 {
            next.push((r - 1, c, r - 2, c));
        }
        if c + 2 < cols {
            next.push((r, c + 1, r, c + 2));
        }
        if c >= 3 {
            next.push((r, c - 1, r, c - 2));
        }
        for (wr, wc, nr, nc) in next {
            if values[wr][wc] == PASSAGE && !seen[nr][nc] {
                seen[nr][nc] = true;
                stack.push((nr, nc));
            }
        }
    }
    count
}

#[test]
fn generation_without_loops_is_perfect() {
    let mut rng = rand::thread_rng();
    for (width, height) in [(1, 1), (4, 6), (9, 9)] {
        let maze = Maze::generate(width, height, &MazeConfig::perfect(), &mut rng).unwrap();
        let values = cells_of(&maze);
        assert_eq!(open_count(&values), width * height - 1);
        assert_eq!(reachable_from_start(&values), width * height);
    }
}

#[test]
fn loopy_generation_stays_connected_and_closed() {
    let mut rng = rand::thread_rng();
    for _ in 0..10 {
        let maze = Maze::generate(9, 7, &MazeConfig::loopy(), &mut rng).unwrap();
        let values = cells_of(&maze);
        assert!(open_count(&values) >= 9 * 7 - 1);
        assert_eq!(reachable_from_start(&values), 9 * 7);
        for r in 0..values.len() {
            for c in 0..values[r].len() {
                if r == 0 || c == 0 || r == 14 || c == 18 {
                    assert_eq!(values[r][c], WALL);
                }
                if r % 2 == 1 && c % 2 == 1 {
                    assert_eq!(values[r][c], PASSAGE);
                }
            }
        }
    }
}

#[test]
fn loopy_generation_opens_loops() {
    let mut rng = rand::thread_rng();
    let maze = Maze::generate(30, 30, &MazeConfig::loopy(), &mut rng).unwrap();
    assert!(open_count(&cells_of(&maze)) > 30 * 30 - 1);
}

#[test]
fn loopy_generation_with_every_wall_deleted() {
    let mut rng = rand::thread_rng();
    let config = MazeConfig { loopy: true, deletion_chance: Chance::always() };
    let maze = Maze::generate(3, 2, &config, &mut rng).unwrap();
    assert_eq!(
        cells_of(&maze),
        vec![
            vec![1, 1, 1, 1, 1, 1, 1],
            vec![1, 0, 0, 0, 0, 0, 1],
            vec![1, 0, 1, 0, 1, 0, 1],
            vec![1, 0, 0, 0, 0, 0, 1],
            vec![1, 1, 1, 1, 1, 1, 1],
        ]
    );
}

#[test]
fn generation_rejects_empty_dimensions() {
    let mut rng = rand::thread_rng();
    assert_eq!(
        Maze::generate(0, 5, &MazeConfig::loopy(), &mut rng).err(),
        Some(MazeError::InvalidDimensions)
    );
    assert_eq!(
        Maze::generate(5, 0, &MazeConfig::perfect(), &mut rng).err(),
        Some(MazeError::InvalidDimensions)
    );
}

#[test]
fn odd_sampling_returns_odd_values_of_the_range() {
    let mut seen = [false; 11];
    for _ in 0..500 {
        let n = rand_odd_between(5..11);
        assert!(n == 5 || n == 7 || n == 9, "drew {}", n);
        seen[n] = true;
    }
    assert!(seen[5] && seen[7] && seen[9]);
}

#[test]
fn odd_sampling_from_a_range_with_one_odd_value() {
    for _ in 0..50 {
        assert_eq!(rand_odd_between(4..6), 5);
        assert_eq!(rand_odd_between(7..8), 7);
        assert_eq!(rand_odd_between(0..3), 1);
    }
}

#[test]
fn odd_sampling_at_the_top_of_the_range() {
    assert!(ODD_DRAW_LIMIT >= 1);
    for _ in 0..50 {
        assert_eq!(rand_odd_between(usize::MAX - 2..usize::MAX), usize::MAX - 2);
        assert_eq!(rand_odd_between(usize::MAX - 3..usize::MAX), usize::MAX - 2);
    }
}

#[test]
fn shuffled_directions_hold_each_direction_once() {
    let mut rng = rand::thread_rng();
    let mut differs = false;
    for _ in 0..200 {
        let order = shuffled_directions(&mut rng);
        for direction in [Direction::Up, Direction::Left, Direction::Right, Direction::Down] {
            assert_eq!(order.iter().filter(|d| **d == direction).count(), 1);
        }
        if order != [Direction::Up, Direction::Left, Direction::Right, Direction::Down] {
            differs = true;
        }
    }
    assert!(differs);
}

#[test]
fn the_lowest_odd_value_of_a_range() {
    assert_eq!(lowest_odd(&(5..11)), Some(5));
    assert_eq!(lowest_odd(&(4..11)), Some(5));
    assert_eq!(lowest_odd(&(4..6)), Some(5));
    assert_eq!(lowest_odd(&(0..2)), Some(1));
    assert_eq!(lowest_odd(&(usize::MAX - 1..usize::MAX)), None);
    assert_eq!(lowest_odd(&(usize::MAX - 2..usize::MAX)), Some(usize::MAX - 2));
}

#[test]
fn a_range_without_odd_values_has_no_lowest() {
    assert_eq!(lowest_odd(&(4..5)), None);
    assert_eq!(lowest_odd(&(0..1)), None);
    assert_eq!(lowest_odd(&(5..5)), None);
    assert_eq!(lowest_odd(&(7..3)), None);
    assert_eq!(lowest_odd(&(0..0)), None);
}

#[test]
fn only_odd_draws_are_accepted() {
    assert_eq!(accept_odd(7), Some(7));
    assert_eq!(accept_odd(1), Some(1));
    assert_eq!(accept_odd(usize::MAX), Some(usize::MAX));
    assert_eq!(accept_odd(0), None);
    assert_eq!(accept_odd(10), None);
    assert_eq!(accept_odd(usize::MAX - 1), None);
}
