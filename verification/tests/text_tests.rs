use amaze::types::{CoordXY, Direction, Maze, WIDTH};

fn at(x: usize, y: usize) -> CoordXY {
    CoordXY::new(x as u8, y as u8).unwrap()
}

const SMALL: &str = "\
    +   +   +   +   +\n\
    |                \n\
    +   +   +   +   +\n\
    |                \n\
    +   +   +   +   +\n\
    |                \n\
    +---+---+   +   +\n\
    |       |        \n\
    +---+---+---+---+\n";

const MARKED: &str = "\
    +---+---+---+---+\n\
    |     G     | S |\n\
    +   +---+   +   +\n\
    |   | S         |\n\
    +   +   +---+   +\n\
    |             G |\n\
    +   +   +   +   +\n\
    |       |       |\n\
    +---+---+---+---+\n";

#[test]
fn text_width_is_told_from_the_length() {
    assert_eq!(Maze::text_width(130 * 65), Some(32));
    assert_eq!(Maze::text_width(66 * 33), Some(16));
    assert_eq!(Maze::text_width(38 * 19), Some(9));
    assert_eq!(Maze::text_width(34 * 17), Some(8));
    assert_eq!(Maze::text_width(18 * 9), Some(4));
    assert_eq!(Maze::text_width(0), None);
    assert_eq!(Maze::text_width(18 * 9 + 1), None);
    assert_eq!(Maze::text_width(18 * 9 - 1), None);
    assert_eq!(Maze::text_width(2 * 18 * 9 - 1), None);
    assert_eq!(Maze::text_width(SMALL.len()), Some(4));
}

#[test]
fn load_sets_the_marked_walls_on_both_sides() {
    let maze = Maze::load_from_str(SMALL);
    assert!(maze.cell(at(0, 0)).north());
    assert!(maze.cell(at(0, 1)).south());
    assert!(maze.cell(at(1, 0)).north());
    assert!(maze.cell(at(1, 1)).south());
    assert!(maze.cell(at(1, 0)).east());
    assert!(maze.cell(at(2, 0)).west());
    assert!(maze.cell(at(0, 0)).west());
    assert!(maze.cell(at(0, 0)).south());
    assert!(!maze.cell(at(0, 0)).east());
    assert!(!maze.cell(at(2, 0)).north());
    assert!(!maze.cell(at(3, 0)).east());
    assert!(!maze.cell(at(3, 3)).north());
    assert!(maze.cell(at(0, 3)).west());
    assert_eq!(maze.start, at(0, 0));
    assert_eq!(maze.goal, at(7, 7));
}

#[test]
fn load_leaves_the_rest_of_the_grid_as_new() {
    let maze = Maze::load_from_str(SMALL);
    let fresh = Maze::new(at(0, 0), at(7, 7));
    for y in 0..WIDTH {
        for x in 0..WIDTH {
            if x > 4 || y > 4 {
                assert_eq!(maze.cell(at(x, y)), fresh.cell(at(x, y)));
            }
        }
    }
}

#[test]
fn load_takes_the_last_marker_read() {
    let maze = Maze::load_from_str(MARKED);
    assert_eq!(maze.start, at(1, 2));
    assert_eq!(maze.goal, at(3, 1));
    assert!(maze.cell(at(0, 3)).north());
    assert!(maze.cell(at(3, 3)).east());
    assert!(maze.cell(at(2, 3)).east());
    assert!(maze.cell(at(3, 3)).west());
    assert!(maze.cell(at(1, 2)).north());
    assert!(maze.cell(at(1, 3)).south());
    assert!(maze.cell(at(1, 2)).west());
    assert!(maze.cell(at(0, 2)).east());
    assert!(maze.cell(at(2, 1)).north());
    assert!(maze.cell(at(1, 0)).east());
    assert!(!maze.cell(at(1, 1)).west());
}

#[test]
fn written_maze_has_the_expected_lines() {
    let mut maze = Maze::new(at(1, WIDTH - 1), at(2, WIDTH - 1));
    maze.set_cell_state(at(0, WIDTH - 2), Direction::North, true);
    maze.set_cell_state(at(0, WIDTH - 1), Direction::East, true);
    let text = maze.to_string();
    assert_eq!(text.len(), (4 * WIDTH + 2) * (2 * WIDTH + 1));
    let lines: Vec<&str> = text.split('\n').collect();
    assert_eq!(lines.len(), 2 * WIDTH + 2);
    assert_eq!(lines[2 * WIDTH + 1], "");
    assert_eq!(lines[0], format!("{}+", "+---".repeat(WIDTH)));
    assert_eq!(
        lines[1],
        format!("|   | S   G {}|", "    ".repeat(WIDTH - 3))
    );
    assert_eq!(lines[2], format!("+---{}+", "+   ".repeat(WIDTH - 1)));
    assert_eq!(lines[3], format!("|   {}|", "    ".repeat(WIDTH - 1)));
    assert_eq!(lines[2 * WIDTH], format!("{}+", "+---".repeat(WIDTH)));
}

#[test]
fn written_maze_shows_the_start_where_start_and_goal_meet() {
    let maze = Maze::new(at(0, 0), at(0, 0));
    let text = maze.to_string();
    let lines: Vec<&str> = text.split('\n').collect();
    assert_eq!(
        lines[2 * WIDTH - 1],
        format!("| S {}|", "    ".repeat(WIDTH - 1))
    );
    assert!(!text.contains('G'));
}

#[test]
fn dump_then_load_keeps_walls_and_markers() {
    let mut maze = Maze::new(at(2, 3), at(5, 1));
    maze.set_cell_state(at(3, 3), Direction::North, true);
    maze.set_cell_state(at(3, 3), Direction::East, true);
    maze.set_cell_state(at(0, 7), Direction::East, true);
    maze.set_cell_state(at(WIDTH - 1, WIDTH - 1), Direction::South, true);
    let text = maze.to_string();
    assert_eq!(Maze::text_width(text.len()), Some(WIDTH));
    let back = Maze::load_from_str(&text);
    assert_eq!(back.start, at(2, 3));
    assert_eq!(back.goal, at(5, 1));
    for y in 0..WIDTH {
        for x in 0..WIDTH {
            assert_eq!(maze.cell(at(x, y)), back.cell(at(x, y)));
        }
    }
    assert_eq!(back.to_string(), text);
}
