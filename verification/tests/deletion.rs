use tank_maze::{Chance, Direction, Maze, MazeConfig, MazeError, Position, PASSAGE, WALL};

const ORDER: [Direction; 4] =
    [Direction::Up, Direction::Left, Direction::Right, Direction::Down];

fn values(maze: &Maze) -> Vec<Vec<u8>> {
    (0..maze.rows())
        .map(|r| (0..maze.cols()).map(|c| maze.get(Position { x: c, y: r }).unwrap()).collect())
        .collect()
}

fn open_slots(values: &[Vec<u8>]) -> usize {
    let mut count = 0;
    for (r, row) in values.iter().enumerate() {
        for (c, value) in row.iter().enumerate() {
            if r % 2 != c % 2 && *value == PASSAGE {
                count += 1;
            }
        }
    }
    count
}

fn assert_border_and_cells(values: &[Vec<u8>]) {
    let rows = values.len();
    let cols = values[0].len();
    for r in 0..rows {
        for c in 0..cols {
            if r == 0 || c == 0 || r == rows - 1 || c == cols - 1 {
                assert_eq!(values[r][c], WALL);
            }
            if r % 2 == 1 && c % 2 == 1 {
                assert_eq!(values[r][c], PASSAGE);
            }
            if r % 2 == 0 && c % 2 == 0 {
                assert_eq!(values[r][c], WALL);
            }
        }
    }
}

#[test]
fn interior_slots_are_counted() {
    assert_eq!(Maze::new(1, 1).unwrap().interior_slots(), 0);
    assert_eq!(Maze::new(2, 2).unwrap().interior_slots(), 4);
    assert_eq!(Maze::new(3, 3).unwrap().interior_slots(), 12);
    assert_eq!(Maze::new(5, 2).unwrap().interior_slots(), 13);
    assert_eq!(Maze::new(1, 4).unwrap().interior_slots(), 3);
}

#[test]
fn decisions_open_the_slots_of_their_rank() {
    let mut maze = Maze::carve_with(2, 2, &vec![ORDER; 4]).unwrap();
    assert_eq!(maze.delete_walls_with(&vec![true, false, false, true]), Ok(()));
    assert_eq!(
        values(&maze),
        vec![
            vec![1, 1, 1, 1, 1],
            vec![1, 0, 0, 0, 1],
            vec![1, 0, 1, 0, 1],
            vec![1, 0, 0, 0, 1],
            vec![1, 1, 1, 1, 1],
        ]
    );
}

#[test]
fn every_third_decision_on_three_by_three() {
    let mut maze = Maze::carve_with(3, 3, &vec![ORDER; 9]).unwrap();
    let decisions: Vec<bool> = (0..12).map(|k| k % 3 == 0).collect();
    assert_eq!(maze.delete_walls_with(&decisions), Ok(()));
    assert_eq!(
        values(&maze),
        vec![
            vec![1, 1, 1, 1, 1, 1, 1],
            vec![1, 0, 0, 0, 0, 0, 1],
            vec![1, 0, 1, 0, 1, 1, 1],
            vec![1, 0, 1, 0, 0, 0, 1],
            vec![1, 0, 1, 1, 1, 0, 1],
            vec![1, 0, 0, 0, 0, 0, 1],
            vec![1, 1, 1, 1, 1, 1, 1],
        ]
    );
}

#[test]
fn no_decision_changes_nothing() {
    let mut maze = Maze::new(4, 3).unwrap();
    let before = values(&maze);
    let count = maze.interior_slots();
    assert_eq!(maze.delete_walls_with(&vec![false; count]), Ok(()));
    assert_eq!(values(&maze), before);
}

#[test]
fn all_decisions_open_every_interior_slot() {
    let mut maze = Maze::new(4, 3).unwrap();
    let count = maze.interior_slots();
    assert_eq!(maze.delete_walls_with(&vec![true; count]), Ok(()));
    let after = values(&maze);
    assert_border_and_cells(&after);
    assert_eq!(open_slots(&after), count);
}

#[test]
fn too_few_decisions_leave_the_maze_as_it_is() {
    let mut maze = Maze::new(3, 3).unwrap();
    let before = values(&maze);
    assert_eq!(maze.delete_walls_with(&vec![true; 11]), Err(MazeError::ScriptTooShort));
    assert_eq!(values(&maze), before);
}

#[test]
fn decisions_beyond_one_for_each_slot_are_not_read() {
    let mut first = Maze::carve_with(2, 2, &vec![ORDER; 4]).unwrap();
    let mut second = Maze::carve_with(2, 2, &vec![ORDER; 4]).unwrap();
    assert_eq!(first.delete_walls_with(&vec![false, true, false, false]), Ok(()));
    assert_eq!(second.delete_walls_with(&vec![false, true, false, false, true, true]), Ok(()));
    assert_eq!(values(&first), values(&second));
}

#[test]
fn a_chance_of_zero_deletes_nothing() {
    let mut rng = rand::thread_rng();
    let mut maze = Maze::new(6, 6).unwrap();
    let before = values(&maze);
    maze.delete_random_walls(Chance::never(), &mut rng);
    assert_eq!(values(&maze), before);
}

#[test]
fn a_chance_of_one_deletes_every_interior_wall() {
    let mut rng = rand::thread_rng();
    let mut maze = Maze::new(6, 6).unwrap();
    maze.delete_random_walls(Chance::always(), &mut rng);
    let after = values(&maze);
    assert_border_and_cells(&after);
    assert_eq!(open_slots(&after), maze.interior_slots());
    assert_eq!(open_slots(&after), 60);
}

#[test]
fn random_deletion_never_closes_a_passage() {
    let mut rng = rand::thread_rng();
    let chance = Chance::new(3, 10).unwrap();
    for _ in 0..20 {
        let mut maze = Maze::new(8, 5).unwrap();
        let before = values(&maze);
        maze.delete_random_walls(chance, &mut rng);
        let after = values(&maze);
        assert_border_and_cells(&after);
        assert!(open_slots(&after) >= open_slots(&before));
        assert_eq!(open_slots(&before), 39);
        for r in 0..before.len() {
            for c in 0..before[r].len() {
                if before[r][c] == PASSAGE {
                    assert_eq!(after[r][c], PASSAGE);
                }
            }
        }
    }
}

#[test]
fn random_deletion_opens_about_its_share() {
    let mut rng = rand::thread_rng();
    let chance = Chance::new(3, 10).unwrap();
    let mut maze = Maze::new(40, 40).unwrap();
    let standing = maze.interior_slots() - (40 * 40 - 1);
    let before = open_slots(&values(&maze));
    maze.delete_random_walls(chance, &mut rng);
    let opened = open_slots(&values(&maze)) - before;
    let expected = standing * 3 / 10;
    assert!(opened > expected / 2, "opened {} of {}", opened, standing);
    assert!(opened < expected * 2, "opened {} of {}", opened, standing);
}

#[test]
fn a_chance_is_a_ratio_of_at_most_one() {
    assert!(Chance::new(0, 1).is_some());
    assert!(Chance::new(3, 10).is_some());
    assert!(Chance::new(7, 7).is_some());
    assert!(Chance::new(1, 0).is_none());
    assert!(Chance::new(0, 0).is_none());
    assert!(Chance::new(11, 10).is_none());
    let chance = Chance::new(3, 10).unwrap();
    assert_eq!(chance.numerator(), 3);
    assert_eq!(chance.denominator(), 10);
    assert_eq!(Chance::never(), Chance::new(0, 1).unwrap());
    assert_eq!(Chance::always(), Chance::new(1, 1).unwrap());
}

#[test]
fn the_deletion_chance_is_three_in_ten() {
    assert!(!MazeConfig::perfect().loopy);
    assert!(MazeConfig::loopy().loopy);
    assert_eq!(MazeConfig::loopy().deletion_chance, Chance::new(3, 10).unwrap());
    assert_eq!(MazeConfig::perfect().deletion_chance, Chance::new(3, 10).unwrap());
}

#[test]
fn open_passages_are_counted() {
    let mut maze = Maze::carve_with(3, 3, &vec![ORDER; 9]).unwrap();
    assert_eq!(maze.open_passages(), 8);
    let decisions: Vec<bool> = (0..12).map(|k| k == 0 || k == 1 || k == 4).collect();
    assert_eq!(maze.delete_walls_with(&decisions), Ok(()));
    assert_eq!(maze.open_passages(), 10);
    assert_eq!(open_slots(&values(&maze)), 10);
    let single = Maze::new(1, 1).unwrap();
    assert_eq!(single.open_passages(), 0);
}

#[test]
fn a_perfect_maze_has_one_passage_fewer_than_cells() {
    for (width, height) in [(2, 2), (6, 3), (11, 9)] {
        let maze = Maze::new(width, height).unwrap();
        assert_eq!(maze.open_passages(), width * height - 1);
    }
}
