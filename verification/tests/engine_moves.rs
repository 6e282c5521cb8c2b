use shift_puzzle::board::Board;
use shift_puzzle::direction::{Direction, Sign};
use shift_puzzle::engine::{apply_move, try_apply_move, MoveError};

fn board_3x3_two_tiles() -> Board {
    // grid[2][0] = 2 (x = 0, y = 2) and grid[0][0] = 2 (x = 0, y = 0)
    let mut b = Board::new(3, 3);
    b.set_cell(0, 2, 2);
    b.set_cell(0, 0, 2);
    b
}

#[test]
fn pair_cancel_downward() {
    // the tile at (0, 2) steps its own value (2) down onto (0, 0); equal
    // values cancel exactly and the origin is cleared
    let mut b = board_3x3_two_tiles();
    let r = apply_move(&mut b, 0, 2, Direction::Down, Sign::Subtract);
    assert_eq!(r, Ok((0, 0)));
    assert_eq!(b.get_cell(0, 0), 0);
    assert_eq!(b.get_cell(0, 2), 0);
    for y in 0..3 {
        for x in 0..3 {
            assert_eq!(b.get_cell(x, y), 0);
        }
    }
}

#[test]
fn pair_cancel_upward_mirror() {
    let mut b = board_3x3_two_tiles();
    let r = apply_move(&mut b, 0, 0, Direction::Up, Sign::Subtract);
    assert_eq!(r, Ok((0, 2)));
    assert_eq!(b.get_cell(0, 2), 0);
    assert_eq!(b.get_cell(0, 0), 0);
}

#[test]
fn step_onto_empty_cell_is_invalid() {
    // stepping 2 right from (0, 2) reaches (2, 2), which is empty
    let mut b = board_3x3_two_tiles();
    let r = apply_move(&mut b, 0, 2, Direction::Right, Sign::Subtract);
    assert_eq!(r, Err(MoveError::ActionInvalid));
    assert_eq!(b.get_cell(0, 2), 2);
    assert_eq!(b.get_cell(0, 0), 2);
}

#[test]
fn step_off_grid_is_invalid() {
    // stepping 2 up from (0, 2) would leave the 3-row grid
    let mut b = board_3x3_two_tiles();
    let r = apply_move(&mut b, 0, 2, Direction::Up, Sign::Subtract);
    assert_eq!(r, Err(MoveError::ActionInvalid));
    let r = apply_move(&mut b, 0, 2, Direction::Left, Sign::Subtract);
    assert_eq!(r, Err(MoveError::ActionInvalid));
}

#[test]
fn empty_origin_is_rejected() {
    let mut b = board_3x3_two_tiles();
    let r = apply_move(&mut b, 1, 1, Direction::Up, Sign::Subtract);
    assert_eq!(r, Err(MoveError::EmptyCell));
}

#[test]
fn origin_outside_grid_is_rejected() {
    let mut b = board_3x3_two_tiles();
    assert_eq!(
        apply_move(&mut b, 3, 0, Direction::Up, Sign::Subtract),
        Err(MoveError::OutOfBounds)
    );
    assert_eq!(
        apply_move(&mut b, 0, 3, Direction::Down, Sign::Add),
        Err(MoveError::OutOfBounds)
    );
}

#[test]
fn add_move_sums_target() {
    let mut b = Board::new(6, 1);
    b.set_cell(0, 0, 2);
    b.set_cell(2, 0, 3);
    let r = apply_move(&mut b, 0, 0, Direction::Right, Sign::Add);
    assert_eq!(r, Ok((2, 0)));
    assert_eq!(b.get_cell(2, 0), 5);
    assert_eq!(b.get_cell(0, 0), 0);
}

#[test]
fn subtract_move_takes_absolute_difference() {
    let mut b = Board::new(6, 1);
    b.set_cell(0, 0, 5);
    b.set_cell(5, 0, 2);
    let r = apply_move(&mut b, 0, 0, Direction::Right, Sign::Subtract);
    assert_eq!(r, Ok((5, 0)));
    assert_eq!(b.get_cell(5, 0), 3);
    assert_eq!(b.get_cell(0, 0), 0);
}

#[test]
fn reapplying_a_move_hits_the_cleared_origin() {
    // the first application clears (0, 2); the identical request then fails
    let mut b = board_3x3_two_tiles();
    assert_eq!(apply_move(&mut b, 0, 2, Direction::Down, Sign::Subtract), Ok((0, 0)));
    assert_eq!(
        apply_move(&mut b, 0, 2, Direction::Down, Sign::Subtract),
        Err(MoveError::EmptyCell)
    );
}

#[test]
fn overflowing_add_is_refused_without_mutation() {
    let mut b = Board::new(3, 1);
    b.set_cell(0, 0, 1);
    b.set_cell(1, 0, usize::MAX);
    let r = try_apply_move(&mut b, 0, 0, Direction::Right, Sign::Add);
    assert_eq!(r, None);
    assert_eq!(b.get_cell(0, 0), 1);
    assert_eq!(b.get_cell(1, 0), usize::MAX);
    // the same tiles combine fine subtractively
    let r = try_apply_move(&mut b, 0, 0, Direction::Right, Sign::Subtract);
    assert_eq!(r, Some(Ok((1, 0))));
    assert_eq!(b.get_cell(1, 0), usize::MAX - 1);
}

#[test]
fn opposite_directions_pair_up() {
    assert_eq!(Direction::Up.opposite(), Direction::Down);
    assert_eq!(Direction::Down.opposite(), Direction::Up);
    assert_eq!(Direction::Left.opposite(), Direction::Right);
    assert_eq!(Direction::Right.opposite(), Direction::Left);
}
