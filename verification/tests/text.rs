use tank_maze::{Direction, Maze};

const ORDER: [Direction; 4] =
    [Direction::Up, Direction::Left, Direction::Right, Direction::Down];

#[test]
fn text_of_a_single_cell() {
    let maze = Maze::carve_with(1, 1, &vec![ORDER]).unwrap();
    assert_eq!(maze.to_text(), "000\n0#0\n000\n");
}

#[test]
fn text_of_a_scripted_maze() {
    let maze = Maze::carve_with(3, 3, &vec![ORDER; 9]).unwrap();
    assert_eq!(
        maze.to_text(),
        "0000000\n0#0###0\n0#0#000\n0#0###0\n0#000#0\n0#####0\n0000000\n"
    );
}

#[test]
fn text_has_one_line_for_each_row() {
    let maze = Maze::new(4, 2).unwrap();
    let text = maze.to_text();
    let lines: Vec<&str> = text.lines().collect();
    assert_eq!(lines.len(), 5);
    for line in lines {
        assert_eq!(line.len(), 9);
        assert!(line.chars().all(|ch| ch == '#' || ch == '0'));
    }
    assert!(text.ends_with('\n'));
}
