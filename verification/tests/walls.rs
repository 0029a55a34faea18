use tank_maze::{Direction, Maze, Position, Toward, WallPlacement, WALL};

const ORDER: [Direction; 4] =
    [Direction::Up, Direction::Left, Direction::Right, Direction::Down];

fn wall(x: i64, y: i64, toward: Toward) -> WallPlacement {
    WallPlacement { x, y, toward }
}

fn standing_slots(maze: &Maze) -> Vec<(usize, usize)> {
    let mut slots = Vec::new();
    for r in 0..maze.rows() {
        for c in 0..maze.cols() {
            if r % 2 != c % 2 && maze.get(Position { x: c, y: r }) == Some(WALL) {
                slots.push((r, c));
            }
        }
    }
    slots
}

#[test]
fn walls_of_a_single_cell() {
    let maze = Maze::carve_with(1, 1, &vec![ORDER]).unwrap();
    assert_eq!(
        maze.walls(),
        vec![
            wall(0, -1, Toward::Horizontal),
            wall(0, 1, Toward::Horizontal),
            wall(-1, 0, Toward::Vertical),
            wall(1, 0, Toward::Vertical),
        ]
    );
}

#[test]
fn walls_of_a_scripted_maze() {
    let maze = Maze::carve_with(2, 2, &vec![ORDER; 4]).unwrap();
    assert_eq!(
        maze.walls(),
        vec![
            wall(-1, -2, Toward::Horizontal),
            wall(1, -2, Toward::Horizontal),
            wall(-1, 2, Toward::Horizontal),
            wall(1, 2, Toward::Horizontal),
            wall(-2, -1, Toward::Vertical),
            wall(0, -1, Toward::Vertical),
            wall(2, -1, Toward::Vertical),
            wall(-2, 1, Toward::Vertical),
            wall(2, 1, Toward::Vertical),
        ]
    );
}

#[test]
fn walls_of_three_by_three_in_order() {
    let maze = Maze::carve_with(3, 3, &vec![ORDER; 9]).unwrap();
    assert_eq!(
        maze.walls(),
        vec![
            wall(-2, -3, Toward::Horizontal),
            wall(0, -3, Toward::Horizontal),
            wall(2, -3, Toward::Horizontal),
            wall(2, -1, Toward::Horizontal),
            wall(0, 1, Toward::Horizontal),
            wall(-2, 3, Toward::Horizontal),
            wall(0, 3, Toward::Horizontal),
            wall(2, 3, Toward::Horizontal),
            wall(-3, -2, Toward::Vertical),
            wall(-1, -2, Toward::Vertical),
            wall(3, -2, Toward::Vertical),
            wall(-3, 0, Toward::Vertical),
            wall(-1, 0, Toward::Vertical),
            wall(3, 0, Toward::Vertical),
            wall(-3, 2, Toward::Vertical),
            wall(3, 2, Toward::Vertical),
        ]
    );
}

#[test]
fn there_is_one_wall_for_each_standing_slot() {
    for _ in 0..10 {
        let maze = Maze::new(3, 3).unwrap();
        assert_eq!(maze.rows(), 7);
        assert_eq!(maze.cols(), 7);
        let walls = maze.walls();
        let slots = standing_slots(&maze);
        assert_eq!(walls.len(), slots.len());
        assert_eq!(walls.len(), 24 - 8);
        for (r, c) in slots {
            let toward = if r % 2 == 0 { Toward::Horizontal } else { Toward::Vertical };
            assert!(walls.contains(&wall(c as i64 - 3, r as i64 - 3, toward)));
        }
    }
}

#[test]
fn each_wall_runs_as_its_slot_does() {
    let maze = Maze::new(3, 3).unwrap();
    for placed in maze.walls() {
        let row = (placed.y + 3) as usize;
        let col = (placed.x + 3) as usize;
        assert_eq!(maze.get(Position { x: col, y: row }), Some(WALL));
        match placed.toward {
            Toward::Horizontal => assert!(row % 2 == 0 && col % 2 == 1),
            Toward::Vertical => assert!(row % 2 == 1 && col % 2 == 0),
        }
    }
}

#[test]
fn centres_lie_around_the_origin() {
    let maze = Maze::new(3, 3).unwrap();
    let walls = maze.walls();
    let length = 50.0f32;
    let centres: Vec<(f32, f32)> =
        walls.iter().map(|w| (w.x as f32 * length / 2.0, w.y as f32 * length / 2.0)).collect();
    let least_x = centres.iter().map(|c| c.0).fold(f32::INFINITY, f32::min);
    let most_x = centres.iter().map(|c| c.0).fold(f32::NEG_INFINITY, f32::max);
    let least_y = centres.iter().map(|c| c.1).fold(f32::INFINITY, f32::min);
    let most_y = centres.iter().map(|c| c.1).fold(f32::NEG_INFINITY, f32::max);
    assert_eq!(least_x, -75.0);
    assert_eq!(most_x, 75.0);
    assert_eq!(least_y, -75.0);
    assert_eq!(most_y, 75.0);
    for placed in &walls {
        let on_border = placed.x.abs() == 3 || placed.y.abs() == 3;
        if on_border {
            assert!(walls.contains(&wall(-placed.x, -placed.y, placed.toward)));
        }
    }
}

#[test]
fn a_wider_maze_is_centred_too() {
    let maze = Maze::new(5, 2).unwrap();
    let walls = maze.walls();
    assert_eq!(walls.iter().map(|w| w.x).min(), Some(-5));
    assert_eq!(walls.iter().map(|w| w.x).max(), Some(5));
    assert_eq!(walls.iter().map(|w| w.y).min(), Some(-2));
    assert_eq!(walls.iter().map(|w| w.y).max(), Some(2));
}
