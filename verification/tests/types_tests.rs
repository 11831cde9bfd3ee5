use amaze::types::{Cell, Coord1D, CoordXY, Direction, Error, Maze, VectorXY};

#[test]
fn direction_inverted() {
    assert_eq!(Direction::North.inverted(), Direction::South);
    assert_eq!(Direction::East.inverted(), Direction::West);
    assert_eq!(Direction::South.inverted(), Direction::North);
    assert_eq!(Direction::West.inverted(), Direction::East);
    assert_eq!(Direction::North.inverted().inverted(), Direction::North);
    assert_eq!(Direction::East.inverted().inverted(), Direction::East);
}

#[test]
fn direction_from_vector_xy() {
    assert_eq!(
        Direction::North,
        VectorXY { x: 0, y: 1 }.try_into().unwrap()
    );
    assert_eq!(Direction::East, VectorXY { x: 1, y: 0 }.try_into().unwrap());
    assert_eq!(
        Direction::South,
        VectorXY { x: 0, y: -1 }.try_into().unwrap()
    );
    assert_eq!(
        Direction::West,
        VectorXY { x: -1, y: 0 }.try_into().unwrap()
    );
}

#[test]
fn direction_from_vector_xy_invalid_vector() {
    let direction: Result<Direction, Error> = VectorXY { x: 2, y: 3 }.try_into();
    assert!(direction.is_err());
    assert_eq!(direction.err(), Some(Error::InvalidVector));
}

#[test]
fn coord_1d() {
    assert_eq!(Coord1D::new(0).unwrap().value(), 0);
}

#[test]
fn coord_1d_out_of_range() {
    assert_eq!(Coord1D::new(255), Err(Error::OutOfRange));
}

#[test]
fn coord_xy_new() {
    let c = CoordXY::new(0, 1).unwrap();
    assert_eq!(c.x(), Coord1D::new(0).unwrap());
    assert_eq!(c.y(), Coord1D::new(1).unwrap());
}

#[test]
fn coord_xy_new_out_of_range() {
    assert_eq!(CoordXY::new(0, 255), Err(Error::OutOfRange));
}

#[test]
fn coord_xy_add() {
    assert_eq!(
        CoordXY::new(0, 0).unwrap() + Direction::North.into(),
        Ok(CoordXY::new(0, 1).unwrap())
    );
    assert_eq!(
        CoordXY::new(0, 0).unwrap() + Direction::East.into(),
        Ok(CoordXY::new(1, 0).unwrap())
    );
}

#[test]
fn coord_xy_add_out_of_range() {
    assert_eq!(
        CoordXY::new(0, 0).unwrap() + Direction::West.into(),
        Err(Error::OutOfRange)
    );
    assert_eq!(
        CoordXY::new(0, 0).unwrap() + Direction::South.into(),
        Err(Error::OutOfRange)
    );
    assert_eq!(
        CoordXY::new(Coord1D::MAX, 0).unwrap() + Direction::East.into(),
        Err(Error::OutOfRange)
    );
    assert_eq!(
        CoordXY::new(0, Coord1D::MAX).unwrap() + Direction::North.into(),
        Err(Error::OutOfRange)
    );
}

#[test]
fn coord_xy_sub() {
    assert_eq!(
        CoordXY::new(2, 1).unwrap() - CoordXY::new(1, 0).unwrap(),
        VectorXY { x: 1, y: 1 }
    );
    assert_eq!(
        CoordXY::new(1, 0).unwrap() - CoordXY::new(1, 2).unwrap(),
        VectorXY { x: 0, y: -2 }
    );
}

#[test]
fn direction_into_vector_xy() {
    assert_eq!(VectorXY { x: 0, y: 1 }, Direction::North.into());
    assert_eq!(VectorXY { x: 1, y: 0 }, Direction::East.into());
    assert_eq!(VectorXY { x: 0, y: -1 }, Direction::South.into());
    assert_eq!(VectorXY { x: -1, y: 0 }, Direction::West.into());
}

#[test]
fn cell_state_by_direction() {
    let mut cell = Cell::new();
    cell.set_east(true);
    assert!(cell.state_by_direction(Direction::East));
    assert!(!cell.state_by_direction(Direction::North));
}

#[test]
fn cell_check_by_direction() {
    let mut cell = Cell::new();
    cell.set_check_east(true);
    assert!(cell.check_by_direction(Direction::East));
    assert!(!cell.check_by_direction(Direction::North));
}

#[test]
fn cell_set_state_by_direction() {
    let mut cell = Cell::new();
    cell.set_state_by_direction(Direction::East, true);
    assert!(cell.east());
    cell.set_state_by_direction(Direction::East, false);
    assert!(!cell.east());
}

#[test]
fn cell_set_check_by_direction() {
    let mut cell = Cell::new();
    cell.set_check_by_direction(Direction::East, true);
    assert!(cell.check_east());
    cell.set_check_by_direction(Direction::East, false);
    assert!(!cell.check_east());
}

#[test]
fn maze_new() {
    let maze = Maze::new(CoordXY::new(0, 0).unwrap(), CoordXY::new(1, 1).unwrap());
    assert_eq!(maze.start, CoordXY::new(0, 0).unwrap());
    assert_eq!(maze.goal, CoordXY::new(1, 1).unwrap());
    assert!(!maze.data[0].north());
    assert!(!maze.data[0].east());
    assert!(maze.data[0].south());
    assert!(maze.data[0].west());
}

#[test]
fn maze_cell() {
    let mut maze = Maze::new(CoordXY::new(0, 0).unwrap(), CoordXY::new(7, 7).unwrap());
    maze.data[0].set_north(true);
    let mut cell = maze.cell(CoordXY::new(0, 0).unwrap());
    assert!(cell.north());
    cell.set_east(true);
    // Since `cell` is just a copy, set_east does not reach the cell in the maze
    assert!(!maze.cell(CoordXY::new(0, 0).unwrap()).east());
}

#[test]
fn maze_mutable_cell() {
    let mut maze = Maze::new(CoordXY::new(0, 0).unwrap(), CoordXY::new(7, 7).unwrap());
    maze.data[0].set_north(true);
    let cell = maze.mutable_cell(CoordXY::new(0, 0).unwrap());
    assert!(cell.north());
    cell.set_east(true);
    // Since `cell` is a mutable reference, set_east reaches the cell in the maze
    assert!(maze.mutable_cell(CoordXY::new(0, 0).unwrap()).east());
}

#[test]
fn maze_set_cell_state() {
    let mut maze = Maze::new(CoordXY::new(0, 0).unwrap(), CoordXY::new(7, 7).unwrap());
    maze.set_cell_state(CoordXY::new(0, 0).unwrap(), Direction::North, true);
    assert!(maze
        .cell_by_x_y(Coord1D::new(0).unwrap(), Coord1D::new(0).unwrap())
        .north());
    assert!(maze
        .cell_by_x_y(Coord1D::new(0).unwrap(), Coord1D::new(1).unwrap())
        .south());
}

const MAZE_STR: &str = "\
    +   +   +   +   +\n\
    |                \n\
    +   +   +   +   +\n\
    |                \n\
    +   +   +   +   +\n\
    |                \n\
    +---+---+   +   +\n\
    |       |        \n\
    +---+---+---+---+\n";

#[test]
fn maze_load() {
    let maze = Maze::load_from_str(MAZE_STR);
    assert!(maze
        .cell_by_x_y(Coord1D::new(0).unwrap(), Coord1D::new(0).unwrap())
        .north());
    assert!(maze
        .cell_by_x_y(Coord1D::new(1).unwrap(), Coord1D::new(0).unwrap())
        .north());
    assert!(maze
        .cell_by_x_y(Coord1D::new(1).unwrap(), Coord1D::new(0).unwrap())
        .east());
}
