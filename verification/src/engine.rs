use crate::board::{grid_wf, Board};
use crate::direction::{step, step_in_bounds, step_x, step_y, Direction, Sign};
use vstd::pervasive::unreached;
use vstd::prelude::*;

verus! {

/// Why a move request was rejected. Validation precedes every mutation, so a
/// rejected move leaves the board exactly as it was.
#[derive(Clone, Copy, Debug, PartialEq, Eq, Structural)]
pub enum MoveError {
    /// The origin coordinate lies outside the grid.
    OutOfBounds,
    /// The origin cell holds no tile.
    EmptyCell,
    /// No tile lies the required distance away in the requested direction
    /// (the target is off the grid, or the target cell is empty).
    ActionInvalid,
}

/// |a - b|.
pub open spec fn abs_diff(a: int, b: int) -> int {
    if a >= b {
        a - b
    } else {
        b - a
    }
}

/// Validation of a move request against grid `g` (`w` by `h`): the target
/// cell on success, or the error, checked in the order the rules give them.
pub open spec fn move_target(
    g: Seq<Seq<usize>>,
    w: int,
    h: int,
    x1: int,
    y1: int,
    d: Direction,
) -> Result<(int, int), MoveError> {
    if !(0 <= x1 < w && 0 <= y1 < h) {
        Err(MoveError::OutOfBounds)
    } else if g[y1][x1] == 0 {
        Err(MoveError::EmptyCell)
    } else {
        let v = g[y1][x1] as int;
        if !step_in_bounds(w, h, x1, y1, v, d) {
            Err(MoveError::ActionInvalid)
        } else if g[step_y(y1, v, d)][step_x(x1, v, d)] == 0 {
            Err(MoveError::ActionInvalid)
        } else {
            Ok((step_x(x1, v, d), step_y(y1, v, d)))
        }
    }
}

/// The grid after a legal move from `(x1, y1)` onto `(x2, y2)`: the origin's
/// value is folded into the target (added, or subtracted absolutely), then the
/// origin is cleared.
pub open spec fn moved_grid(
    g: Seq<Seq<usize>>,
    x1: int,
    y1: int,
    x2: int,
    y2: int,
    s: Sign,
) -> Seq<Seq<usize>> {
    let v = g[y1][x1] as int;
    let t = g[y2][x2] as int;
    let nv = if s == Sign::Add {
        t + v
    } else {
        abs_diff(t, v)
    };
    let g1 = g.update(y2, g[y2].update(x2, nv as usize));
    g1.update(y1, g1[y1].update(x1, 0usize))
}

/// An `Add` move's new target value fits in `usize` (trivially true for any
/// rejected request and for every `Subtract`).
pub open spec fn add_fits(
    g: Seq<Seq<usize>>,
    w: int,
    h: int,
    x1: int,
    y1: int,
    d: Direction,
    s: Sign,
) -> bool {
    (s == Sign::Add) ==> match move_target(g, w, h, x1, y1, d) {
        Ok(t) => g[t.1][t.0] + g[y1][x1] <= usize::MAX,
        Err(_) => true,
    }
}

/// Validate one move request and apply it in place, or reject it unchanged.
/// Returns `None` (board untouched) exactly when the request is a legal `Add`
/// whose new target value would not fit in `usize`.
pub fn try_apply_move(
    board: &mut Board,
    x1: usize,
    y1: usize,
    direction: Direction,
    sign: Sign,
) -> (r: Option<Result<(usize, usize), MoveError>>)
    requires
        old(board).wf(),
    ensures
        final(board).wf(),
        final(board).spec_width() == old(board).spec_width(),
        final(board).spec_height() == old(board).spec_height(),
        r is Some <==> add_fits(
            old(board)@,
            old(board).spec_width() as int,
            old(board).spec_height() as int,
            x1 as int,
            y1 as int,
            direction,
            sign,
        ),
        r is None ==> final(board)@ == old(board)@,
        (match r {
            Some(Err(e)) => {
                &&& Err::<(int, int), MoveError>(e) == move_target(
                    old(board)@,
                    old(board).spec_width() as int,
                    old(board).spec_height() as int,
                    x1 as int,
                    y1 as int,
                    direction,
                )
                &&& final(board)@ == old(board)@
            },
            Some(Ok(t)) => {
                &&& Ok::<(int, int), MoveError>((t.0 as int, t.1 as int)) == move_target(
                    old(board)@,
                    old(board).spec_width() as int,
                    old(board).spec_height() as int,
                    x1 as int,
                    y1 as int,
                    direction,
                )
                &&& final(board)@ == moved_grid(
                    old(board)@,
                    x1 as int,
                    y1 as int,
                    t.0 as int,
                    t.1 as int,
                    sign,
                )
                &&& final(board).cell(x1 as int, y1 as int) == 0
                &&& final(board).cell(t.0 as int, t.1 as int) as int == (if sign == Sign::Add {
                    old(board).cell(t.0 as int, t.1 as int) + old(board).cell(x1 as int, y1 as int)
                } else {
                    abs_diff(
                        old(board).cell(t.0 as int, t.1 as int) as int,
                        old(board).cell(x1 as int, y1 as int) as int,
                    )
                })
                &&& forall|i: int, j: int|
                    0 <= i < old(board).spec_width() && 0 <= j < old(board).spec_height()
                        && !(i == x1 && j == y1) && !(i == t.0 && j == t.1)
                        ==> final(board).cell(i, j) == old(board).cell(i, j)
            },
            None => true,
        }),
{
    let w = board.width();
    let h = board.height();
    if !(x1 < w && y1 < h) {
        return Some(Err(MoveError::OutOfBounds));
    }
    let v = board.get_cell(x1, y1);
    if v == 0 {
        return Some(Err(MoveError::EmptyCell));
    }
    match step(w, h, x1, y1, v, direction) {
        None => Some(Err(MoveError::ActionInvalid)),
        Some((x2, y2)) => {
            let t = board.get_cell(x2, y2);
            if t == 0 {
                Some(Err(MoveError::ActionInvalid))
            } else {
                proof {
                    assert((x2 as int, y2 as int) != (x1 as int, y1 as int));
                }
                if sign == Sign::Add {
                    if t > usize::MAX - v {
                        return None;
                    }
                    board.set_cell(x2, y2, t + v);
                    board.set_cell(x1, y1, 0);
                    Some(Ok((x2, y2)))
                } else {
                    let nv = if t >= v {
                        t - v
                    } else {
                        v - t
                    };
                    board.set_cell(x2, y2, nv);
                    board.set_cell(x1, y1, 0);
                    Some(Ok((x2, y2)))
                }
            }
        },
    }
}

/// Validate one move request and apply it in place, or reject it unchanged.
/// On success the returned coordinate is the target cell that absorbed the
/// shifted value; the origin cell is cleared.
pub fn apply_move(
    board: &mut Board,
    x1: usize,
    y1: usize,
    direction: Direction,
    sign: Sign,
) -> (r: Result<(usize, usize), MoveError>)
    requires
        old(board).wf(),
        add_fits(
            old(board)@,
            old(board).spec_width() as int,
            old(board).spec_height() as int,
            x1 as int,
            y1 as int,
            direction,
            sign,
        ),
    ensures
        final(board).wf(),
        final(board).spec_width() == old(board).spec_width(),
        final(board).spec_height() == old(board).spec_height(),
        (match r {
            Err(e) => {
                &&& Err::<(int, int), MoveError>(e) == move_target(
                    old(board)@,
                    old(board).spec_width() as int,
                    old(board).spec_height() as int,
                    x1 as int,
                    y1 as int,
                    direction,
                )
                &&& final(board)@ == old(board)@
            },
            Ok(t) => {
                &&& Ok::<(int, int), MoveError>((t.0 as int, t.1 as int)) == move_target(
                    old(board)@,
                    old(board).spec_width() as int,
                    old(board).spec_height() as int,
                    x1 as int,
                    y1 as int,
                    direction,
                )
                &&& final(board)@ == moved_grid(
                    old(board)@,
                    x1 as int,
                    y1 as int,
                    t.0 as int,
                    t.1 as int,
                    sign,
                )
                &&& final(board).cell(x1 as int, y1 as int) == 0
                &&& final(board).cell(t.0 as int, t.1 as int) as int == (if sign == Sign::Add {
                    old(board).cell(t.0 as int, t.1 as int) + old(board).cell(x1 as int, y1 as int)
                } else {
                    abs_diff(
                        old(board).cell(t.0 as int, t.1 as int) as int,
                        old(board).cell(x1 as int, y1 as int) as int,
                    )
                })
                &&& forall|i: int, j: int|
                    0 <= i < old(board).spec_width() && 0 <= j < old(board).spec_height()
                        && !(i == x1 && j == y1) && !(i == t.0 && j == t.1)
                        ==> final(board).cell(i, j) == old(board).cell(i, j)
            },
        }),
{
    match try_apply_move(board, x1, y1, direction, sign) {
        Some(res) => res,
        None => unreached(),
    }
}

/// Law: a successful move clears its origin, so submitting any move from the
/// same origin again, against the grid the first one produced, is rejected
/// with `EmptyCell`.
pub proof fn lemma_reapply_fails(
    g: Seq<Seq<usize>>,
    w: int,
    h: int,
    x1: int,
    y1: int,
    d: Direction,
    s: Sign,
    d2: Direction,
)
    requires
        grid_wf(g, w, h),
    ensures
        match move_target(g, w, h, x1, y1, d) {
            Ok(t) => move_target(moved_grid(g, x1, y1, t.0, t.1, s), w, h, x1, y1, d2)
                == Err::<(int, int), MoveError>(MoveError::EmptyCell),
            Err(_) => true,
        },
{
    match move_target(g, w, h, x1, y1, d) {
        Ok(t) => {
            let g2 = moved_grid(g, x1, y1, t.0, t.1, s);
            assert(g2[y1][x1] == 0);
        },
        Err(_) => {},
    }
}

/// Law: a pair's recorded solve step cancels the pair. If `(x1, y1)` holds a
/// tile of value `v` and the cell `v` steps away in direction `d` holds `v`
/// too, then the move `(x1, y1, d, Subtract)` is legal and leaves both cells
/// empty.
pub proof fn lemma_pair_step_cancels(g: Seq<Seq<usize>>, w: int, h: int, x1: int, y1: int, d: Direction)
    requires
        grid_wf(g, w, h),
        0 <= x1 < w,
        0 <= y1 < h,
        g[y1][x1] > 0,
        step_in_bounds(w, h, x1, y1, g[y1][x1] as int, d),
        g[step_y(y1, g[y1][x1] as int, d)][step_x(x1, g[y1][x1] as int, d)] == g[y1][x1],
    ensures
        ({
            let v = g[y1][x1] as int;
            let x2 = step_x(x1, v, d);
            let y2 = step_y(y1, v, d);
            &&& move_target(g, w, h, x1, y1, d) == Ok::<(int, int), MoveError>((x2, y2))
            &&& moved_grid(g, x1, y1, x2, y2, Sign::Subtract)[y1][x1] == 0
            &&& moved_grid(g, x1, y1, x2, y2, Sign::Subtract)[y2][x2] == 0
        }),
{
    let v = g[y1][x1] as int;
    let x2 = step_x(x1, v, d);
    let y2 = step_y(y1, v, d);
    assert(!(x2 == x1 && y2 == y1));
    assert(abs_diff(g[y2][x2] as int, v) == 0);
}

} // verus!
