use raycaster::maze::cell;
use raycaster::maze::is_rectangular;
use raycaster::maze::parse_maze;
use raycaster::maze::wall_kind;
use raycaster::maze::Maze;

fn rows(maze: &Maze) -> Vec<String> {
    maze.iter().map(|row| row.iter().collect()).collect()
}

#[test]
fn maze_has_a_row_for_each_line() {
    let maze = parse_maze(&b"+-+\n| |\n+-+\n".to_vec());
    assert_eq!(rows(&maze), vec!["+-+", "| |", "+-+"]);
    assert!(is_rectangular(&maze));
    // The last line may end with the text.
    assert_eq!(rows(&parse_maze(&b"+-+\n|g|".to_vec())), vec!["+-+", "|g|"]);
    assert_eq!(rows(&parse_maze(&b"x".to_vec())), vec!["x"]);
    assert!(parse_maze(&Vec::new()).is_empty());
}

#[test]
fn maze_lines_may_end_with_a_carriage_return() {
    assert_eq!(rows(&parse_maze(&b"+-+\r\n| |\r\n".to_vec())), vec!["+-+", "| |"]);
    assert_eq!(rows(&parse_maze(&b"+-+\r".to_vec())), vec!["+-+"]);
    // Only the one at the end of a line is left out.
    assert_eq!(rows(&parse_maze(&b"+\r+\r\r\n".to_vec())), vec!["+\r+\r"]);
}

#[test]
fn empty_lines_are_empty_rows() {
    let maze = parse_maze(&b"\n++\n\n+\n".to_vec());
    assert_eq!(rows(&maze), vec!["", "++", "", "+"]);
    assert!(!is_rectangular(&maze));
    assert_eq!(rows(&parse_maze(&b"\n".to_vec())), vec![""]);
    assert_eq!(rows(&parse_maze(&b"\r\n\r\n".to_vec())), vec!["", ""]);
}

#[test]
fn cells_are_looked_up_by_column_and_row() {
    let maze = parse_maze(&b"+-\n g|\n".to_vec());
    assert_eq!(cell(&maze, 0, 0), Some('+'));
    assert_eq!(cell(&maze, 1, 0), Some('-'));
    assert_eq!(cell(&maze, 2, 0), None);
    assert_eq!(cell(&maze, 2, 1), Some('|'));
    assert_eq!(cell(&maze, 0, 2), None);
    assert_eq!(cell(&maze, -1, 0), None);
    assert_eq!(cell(&maze, 0, -1), None);
    assert_eq!(cell(&maze, i128::MAX, i128::MIN), None);
    assert!(!is_rectangular(&maze));
    assert!(!is_rectangular(&Vec::new()));
    assert!(!is_rectangular(&vec![Vec::new()]));
    assert!(is_rectangular(&vec![vec![' ']]));
}

#[test]
fn three_kinds_are_walls() {
    assert!(wall_kind('+') && wall_kind('-') && wall_kind('|'));
    assert!(!wall_kind(' ') && !wall_kind('g') && !wall_kind('x'));
}
