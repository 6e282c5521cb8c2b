use vstd::prelude::*;

verus! {

/// The four directions a tile value can be shifted in. `Up` increases the row
/// index `y`, `Right` increases the column index `x`; `Down` and `Left`
/// decrease them.
#[derive(Clone, Copy, Debug, PartialEq, Eq, Structural)]
pub enum Direction {
    Up,
    Right,
    Down,
    Left,
}

/// Whether a move folds the shifted value into its target by addition or by
/// absolute subtraction.
#[derive(Clone, Copy, Debug, PartialEq, Eq, Structural)]
pub enum Sign {
    Add,
    Subtract,
}

/// One entry of the generator's solve trace: the cell to act on, the direction
/// to shift it in, and whether the move adds or subtracts.
#[derive(Clone, Copy, Debug, PartialEq, Eq, Structural)]
pub struct SolveStep {
    pub x: usize,
    pub y: usize,
    pub direction: Direction,
    pub sign: Sign,
}

impl Direction {
    /// The direction that steps back where this one stepped.
    pub open spec fn spec_opposite(self) -> Direction {
        match self {
            Direction::Up => Direction::Down,
            Direction::Right => Direction::Left,
            Direction::Down => Direction::Up,
            Direction::Left => Direction::Right,
        }
    }

    pub fn opposite(self) -> (r: Direction)
        ensures
            r == self.spec_opposite(),
    {
        match self {
            Direction::Up => Direction::Down,
            Direction::Right => Direction::Left,
            Direction::Down => Direction::Up,
            Direction::Left => Direction::Right,
        }
    }
}

/// Column reached by stepping `len` cells from column `x` in direction `d`
/// (unbounded integer arithmetic; the result may lie outside any grid).
pub open spec fn step_x(x: int, len: int, d: Direction) -> int {
    match d {
        Direction::Up => x,
        Direction::Right => x + len,
        Direction::Down => x,
        Direction::Left => x - len,
    }
}

/// Row reached by stepping `len` cells from row `y` in direction `d`.
pub open spec fn step_y(y: int, len: int, d: Direction) -> int {
    match d {
        Direction::Up => y + len,
        Direction::Right => y,
        Direction::Down => y - len,
        Direction::Left => y,
    }
}

/// Stepping `len` cells from `(x, y)` in direction `d` stays on a `w` by `h`
/// grid.
pub open spec fn step_in_bounds(w: int, h: int, x: int, y: int, len: int, d: Direction) -> bool {
    &&& 0 <= step_x(x, len, d) < w
    &&& 0 <= step_y(y, len, d) < h
}

/// Law: stepping back in the opposite direction returns to the start.
pub proof fn lemma_step_opposite(x: int, y: int, len: int, d: Direction)
    ensures
        step_x(step_x(x, len, d), len, d.spec_opposite()) == x,
        step_y(step_y(y, len, d), len, d.spec_opposite()) == y,
{
}

/// The cell `len` steps from `(x, y)` in direction `d`, or `None` when that
/// cell lies outside the `w` by `h` grid.
pub fn step(w: usize, h: usize, x: usize, y: usize, len: usize, d: Direction) -> (r: Option<
    (usize, usize),
>)
    requires
        x < w,
        y < h,
    ensures
        match r {
            Some(t) => {
                &&& step_in_bounds(w as int, h as int, x as int, y as int, len as int, d)
                &&& t.0 == step_x(x as int, len as int, d)
                &&& t.1 == step_y(y as int, len as int, d)
            },
            None => !step_in_bounds(w as int, h as int, x as int, y as int, len as int, d),
        },
{
    match d {
        Direction::Up => {
            if len <= h - 1 - y {
                Some((x, y + len))
            } else {
                None
            }
        },
        Direction::Right => {
            if len <= w - 1 - x {
                Some((x + len, y))
            } else {
                None
            }
        },
        Direction::Down => {
            if len <= y {
                Some((x, y - len))
            } else {
                None
            }
        },
        Direction::Left => {
            if len <= x {
                Some((x - len, y))
            } else {
                None
            }
        },
    }
}

} // verus!
