use crate::board::{grid_wf, grid_nonzero, grid_sum, lemma_grid_counts_update, lemma_row_counts_update, lemma_zero_grid_counts, Board};
use crate::direction::{step_in_bounds, step_x, step_y, Direction, Sign, SolveStep};
use crate::engine::abs_diff;
use crate::rng::{new_rng, rng_below};
use vstd::prelude::*;

verus! {

/// Largest accepted difficulty level. A machine bound, far above any level a
/// session reaches: it keeps every intermediate quantity of generation (board
/// area, tile values grown by merges) well inside `usize`, even a 32-bit one.
pub const MAX_LEVEL: usize = 30000;

/// Candidate draws the generator grants each placement before giving up.
/// Placement is rejection sampling with no natural bound; the ceiling turns
/// the (accepted, vanishingly unlikely) risk of an endless retry loop into a
/// reported failure.
pub const MAX_ATTEMPTS: usize = 100000;

/// Generation failure: some placement ran out of its candidate budget.
#[derive(Clone, Copy, Debug, PartialEq, Eq, Structural)]
pub enum GenError {
    GenerationExhausted,
}

/// Target number of placements before board sizing:
/// `3 + (level - 75)` above level 150, else `3 + level / 2`.
pub open spec fn initial_spawns(level: int) -> int {
    3 + if level > 150 {
        level - 75
    } else {
        level / 2
    }
}

/// The sizing loop: grow the height by 1 (the width tracks it at a truncated
/// 16:9) until the area holds twice the spawn count, paying 2 spawns for each
/// growth step; yields the final `(spawns, height)`. Bigger boards are
/// deliberately sparser.
pub open spec fn settle(spawns: int, height: int) -> (int, int)
    decreases spawns,
{
    let width = height * 16 / 9;
    if 2 <= spawns && width * height < spawns * 2 {
        settle(spawns - 2, height + 1)
    } else {
        (spawns, height)
    }
}

/// Number of placements a level's board receives.
pub open spec fn spawn_count(level: int) -> int {
    settle(initial_spawns(level), 5).0
}

/// Height of a level's board.
pub open spec fn board_height(level: int) -> int {
    settle(initial_spawns(level), 5).1
}

/// Width of a level's board.
pub open spec fn board_width(level: int) -> int {
    board_height(level) * 16 / 9
}

/// One accepted placement, witnessed by its origin `(x1, y1)`, direction `d`
/// and step length `len`. A pair writes `len` into two empty cells and records
/// the subtractive move that cancels them. A merge writes `len` into an empty
/// target, folds `len` into the occupied origin (added, or subtracted
/// absolutely), and records at the target the opposite direction and the
/// chosen sign — forced to `Add` when the subtracted origin was smaller than
/// `len`, even though the board still received the absolute difference.
pub open spec fn placement_witness(
    old_g: Seq<Seq<usize>>,
    new_g: Seq<Seq<usize>>,
    w: int,
    h: int,
    gen_pair: bool,
    s: SolveStep,
    x1: int,
    y1: int,
    d: Direction,
    len: int,
) -> bool {
    let x2 = step_x(x1, len, d);
    let y2 = step_y(y1, len, d);
    &&& 0 <= x1 < w
    &&& 0 <= y1 < h
    &&& 1 <= len
    &&& step_in_bounds(w, h, x1, y1, len, d)
    &&& forall|i: int, j: int|
        0 <= i < w && 0 <= j < h && !(i == x1 && j == y1) && !(i == x2 && j == y2)
            ==> new_g[j][i] == old_g[j][i]
    &&& if gen_pair {
        &&& old_g[y1][x1] == 0
        &&& old_g[y2][x2] == 0
        &&& new_g[y1][x1] as int == len
        &&& new_g[y2][x2] as int == len
        &&& s == (SolveStep {
            x: x1 as usize,
            y: y1 as usize,
            direction: d,
            sign: Sign::Subtract,
        })
    } else {
        let v = old_g[y1][x1] as int;
        &&& v != 0
        &&& v != len
        &&& old_g[y2][x2] == 0
        &&& new_g[y2][x2] as int == len
        &&& ((new_g[y1][x1] as int == v + len && s.sign == Sign::Add) || (new_g[y1][x1] as int
            == abs_diff(v, len) && s.sign == (if v < len {
            Sign::Add
        } else {
            Sign::Subtract
        })))
        &&& s.x as int == x2
        &&& s.y as int == y2
        &&& s.direction == d.spec_opposite()
    }
}

/// The step from `old_g` to `new_g` is an accepted placement that `s` records.
pub open spec fn placement_made(
    old_g: Seq<Seq<usize>>,
    new_g: Seq<Seq<usize>>,
    w: int,
    h: int,
    gen_pair: bool,
    s: SolveStep,
) -> bool {
    exists|x1: int, y1: int, d: Direction, len: int|
        placement_witness(old_g, new_g, w, h, gen_pair, s, x1, y1, d, len)
}

/// The grid with `h` rows of `w` empty cells.
pub open spec fn empty_grid(w: int, h: int) -> Seq<Seq<usize>> {
    Seq::new(h as nat, |y: int| Seq::new(w as nat, |x: int| 0usize))
}

/// The grids a trace builds: `g` arises from `g0` by one accepted placement
/// per trace entry, applied in placement order, the entry recording its
/// placement; the very first placement is a pair.
pub open spec fn placements_built(
    trace: Seq<SolveStep>,
    g0: Seq<Seq<usize>>,
    g: Seq<Seq<usize>>,
    w: int,
    h: int,
) -> bool
    decreases trace.len(),
{
    if trace.len() == 0 {
        g == g0
    } else {
        exists|mid: Seq<Seq<usize>>, gen_pair: bool|
            {
                &&& placements_built(trace.drop_last(), g0, mid, w, h)
                &&& #[trigger] placement_made(mid, g, w, h, gen_pair, trace.last())
                &&& (trace.len() == 1 ==> gen_pair)
            }
    }
}

/// Law: a pair placement fills exactly two empty cells, a merge exactly one,
/// and either changes the sum of all cells by an even amount.
pub proof fn lemma_placement_counts(
    old_g: Seq<Seq<usize>>,
    new_g: Seq<Seq<usize>>,
    w: int,
    h: int,
    gen_pair: bool,
    s: SolveStep,
    x1: int,
    y1: int,
    d: Direction,
    len: int,
)
    requires
        grid_wf(old_g, w, h),
        grid_wf(new_g, w, h),
        placement_witness(old_g, new_g, w, h, gen_pair, s, x1, y1, d, len),
    ensures
        grid_nonzero(new_g) == grid_nonzero(old_g) + (if gen_pair {
            2int
        } else {
            1int
        }),
        (grid_sum(new_g) - grid_sum(old_g)) % 2 == 0,
{
    let x2 = step_x(x1, len, d);
    let y2 = step_y(y1, len, d);
    assert(!(x1 == x2 && y1 == y2));
    let a = new_g[y1][x1];
    let b = new_g[y2][x2];
    let r1 = old_g[y1].update(x1, a);
    let g1 = old_g.update(y1, r1);
    let r2 = g1[y2].update(x2, b);
    let g2 = g1.update(y2, r2);
    assert(old_g[y1].len() == w);
    assert(old_g[y2].len() == w);
    assert(g1[y2][x2] == old_g[y2][x2]);
    assert forall|j: int| 0 <= j < h implies new_g[j] =~= g2[j] by {
        assert(new_g[j].len() == w);
        assert forall|i: int| 0 <= i < w implies new_g[j][i] == g2[j][i] by {
            if i == x1 && j == y1 {
            } else if i == x2 && j == y2 {
            } else {
                assert(new_g[j][i] == old_g[j][i]);
            }
        }
    }
    assert(new_g =~= g2);
    lemma_row_counts_update(old_g[y1], x1, a);
    lemma_grid_counts_update(old_g, y1, r1);
    lemma_row_counts_update(g1[y2], x2, b);
    lemma_grid_counts_update(g1, y2, r2);
    if gen_pair {
        assert(a as int == len && b as int == len);
    } else {
        let v = old_g[y1][x1] as int;
        assert(b as int == len);
        assert(a != 0);
        assert((a as int == v + len) || (a as int == abs_diff(v, len)));
    }
}

/// Law: a placement never leaves a written cell empty, and every freshly
/// filled cell holds exactly the step length that placed it. (An occupied
/// merge origin is folded, not placed: it keeps a positive value, but not
/// necessarily the step length.)
pub proof fn lemma_placement_cells(
    old_g: Seq<Seq<usize>>,
    new_g: Seq<Seq<usize>>,
    w: int,
    h: int,
    gen_pair: bool,
    s: SolveStep,
    x1: int,
    y1: int,
    d: Direction,
    len: int,
)
    requires
        placement_witness(old_g, new_g, w, h, gen_pair, s, x1, y1, d, len),
    ensures
        forall|i: int, j: int|
            0 <= i < w && 0 <= j < h && #[trigger] new_g[j][i] != old_g[j][i]
                ==> new_g[j][i] >= 1,
        forall|i: int, j: int|
            0 <= i < w && 0 <= j < h && old_g[j][i] == 0 && #[trigger] new_g[j][i] != 0
                ==> new_g[j][i] as int == len,
{
}

/// Whether a drawn candidate is accepted: a pair wants its origin and target
/// both empty; a merge wants an occupied origin whose value differs from the
/// step length, and an empty target.
pub open spec fn candidate_accepted(
    g: Seq<Seq<usize>>,
    gen_pair: bool,
    x1: int,
    y1: int,
    d: Direction,
    len: int,
) -> bool {
    let x2 = step_x(x1, len, d);
    let y2 = step_y(y1, len, d);
    if gen_pair {
        g[y1][x1] == 0 && g[y2][x2] == 0
    } else {
        g[y1][x1] != 0 && g[y1][x1] as int != len && g[y2][x2] == 0
    }
}

/// Decide one drawn candidate and apply it if acceptable. Every random draw is
/// an argument, so the outcome is pinned exactly: the candidate is taken if
/// and only if `candidate_accepted` holds, and on a merge the coin picks the
/// branch — `coin` folds the absolute difference into the origin, `!coin`
/// adds, each with the sign rule the solve trace records.
#[verifier::rlimit(100)]
fn try_place(
    board: &mut Board,
    gen_pair: bool,
    x1: usize,
    y1: usize,
    d: Direction,
    len: usize,
    coin: bool,
) -> (r: Option<SolveStep>)
    requires
        old(board).wf(),
        x1 < old(board).spec_width(),
        y1 < old(board).spec_height(),
        1 <= len,
        step_in_bounds(
            old(board).spec_width() as int,
            old(board).spec_height() as int,
            x1 as int,
            y1 as int,
            len as int,
            d,
        ),
        forall|i: int, j: int|
            0 <= i < old(board).spec_width() && 0 <= j < old(board).spec_height()
                ==> #[trigger] old(board).cell(i, j) + old(board).spec_width() + old(
                board,
            ).spec_height() <= usize::MAX,
        len <= old(board).spec_width() + old(board).spec_height(),
    ensures
        final(board).wf(),
        final(board).spec_width() == old(board).spec_width(),
        final(board).spec_height() == old(board).spec_height(),
        r is Some <==> candidate_accepted(
            old(board)@,
            gen_pair,
            x1 as int,
            y1 as int,
            d,
            len as int,
        ),
        match r {
            Some(s) => {
                &&& placement_witness(
                    old(board)@,
                    final(board)@,
                    old(board).spec_width() as int,
                    old(board).spec_height() as int,
                    gen_pair,
                    s,
                    x1 as int,
                    y1 as int,
                    d,
                    len as int,
                )
                &&& (!gen_pair ==> (if coin {
                    final(board).cell(x1 as int, y1 as int) as int == abs_diff(
                        old(board).cell(x1 as int, y1 as int) as int,
                        len as int,
                    ) && s.sign == (if (old(board).cell(x1 as int, y1 as int) as int) < len as int {
                        Sign::Add
                    } else {
                        Sign::Subtract
                    })
                } else {
                    final(board).cell(x1 as int, y1 as int) == old(board).cell(x1 as int, y1 as int)
                        + len && s.sign == Sign::Add
                }))
            },
            None => final(board)@ == old(board)@,
        },
{
    let w = board.width();
    let h = board.height();
    let (x2, y2) = match d {
        Direction::Up => (x1, y1 + len),
        Direction::Right => (x1 + len, y1),
        Direction::Down => (x1, y1 - len),
        Direction::Left => (x1 - len, y1),
    };
    proof {
        assert(x2 as int == step_x(x1 as int, len as int, d));
        assert(y2 as int == step_y(y1 as int, len as int, d));
        assert(!(x2 == x1 && y2 == y1));
    }
    if gen_pair {
        if board.get_cell(x1, y1) == 0 && board.get_cell(x2, y2) == 0 {
            board.set_cell(x1, y1, len);
            board.set_cell(x2, y2, len);
            Some(SolveStep { x: x1, y: y1, direction: d, sign: Sign::Subtract })
        } else {
            None
        }
    } else {
        let v = board.get_cell(x1, y1);
        if v != 0 && v != len && board.get_cell(x2, y2) == 0 {
            board.set_cell(x2, y2, len);
            let sign: Sign;
            if coin {
                let nv = if v >= len {
                    v - len
                } else {
                    len - v
                };
                board.set_cell(x1, y1, nv);
                sign = if v < len {
                    Sign::Add
                } else {
                    Sign::Subtract
                };
            } else {
                board.set_cell(x1, y1, v + len);
                sign = Sign::Add;
            }
            Some(SolveStep { x: x2, y: y2, direction: d.opposite(), sign })
        } else {
            None
        }
    }
}

/// Draw candidates until one is accepted or the attempt budget runs out. On
/// acceptance the board has gained exactly one placement, every written cell
/// holds the (positive) value the placement gave it, and the returned step
/// records the move addressing it.
#[verifier::rlimit(100)]
fn place_one(board: &mut Board, rng: &mut rand::rngs::ThreadRng, gen_pair: bool) -> (r: Option<
    SolveStep,
>)
    requires
        old(board).wf(),
        forall|i: int, j: int|
            0 <= i < old(board).spec_width() && 0 <= j < old(board).spec_height()
                ==> #[trigger] old(board).cell(i, j) + old(board).spec_width() + old(
                board,
            ).spec_height() <= usize::MAX,
    ensures
        final(board).wf(),
        final(board).spec_width() == old(board).spec_width(),
        final(board).spec_height() == old(board).spec_height(),
        match r {
            Some(s) => {
                &&& placement_made(
                    old(board)@,
                    final(board)@,
                    old(board).spec_width() as int,
                    old(board).spec_height() as int,
                    gen_pair,
                    s,
                )
                &&& s.x < old(board).spec_width()
                &&& s.y < old(board).spec_height()
                &&& forall|i: int, j: int|
                    0 <= i < old(board).spec_width() && 0 <= j < old(board).spec_height()
                        ==> #[trigger] final(board).cell(i, j) <= old(board).cell(i, j) + old(
                        board,
                    ).spec_width() + old(board).spec_height()
                &&& forall|i: int, j: int|
                    0 <= i < old(board).spec_width() && 0 <= j < old(board).spec_height()
                        && #[trigger] final(board).cell(i, j) != old(board).cell(i, j)
                        ==> final(board).cell(i, j) >= 1
                &&& final(board).cell(s.x as int, s.y as int) >= 1
                &&& grid_nonzero(final(board)@) == grid_nonzero(old(board)@) + (if gen_pair {
                    2int
                } else {
                    1int
                })
                &&& (grid_sum(final(board)@) - grid_sum(old(board)@)) % 2 == 0
            },
            None => final(board)@ == old(board)@,
        },
{
    let w = board.width();
    let h = board.height();
    let mut attempt: usize = 0;
    while attempt < MAX_ATTEMPTS
        invariant
            attempt <= MAX_ATTEMPTS,
            board.wf(),
            board@ == old(board)@,
            w == board.spec_width(),
            h == board.spec_height(),
            board.spec_width() == old(board).spec_width(),
            board.spec_height() == old(board).spec_height(),
            forall|i: int, j: int|
                0 <= i < w && 0 <= j < h ==> #[trigger] board.cell(i, j) + w + h <= usize::MAX,
        decreases MAX_ATTEMPTS - attempt,
    {
        attempt = attempt + 1;
        let x1 = rng_below(rng, w);
        let y1 = rng_below(rng, h);
        let dir_idx = rng_below(rng, 4);
        let d = if dir_idx == 0 {
            Direction::Up
        } else if dir_idx == 1 {
            Direction::Right
        } else if dir_idx == 2 {
            Direction::Down
        } else {
            Direction::Left
        };
        let avail = match d {
            Direction::Up => h - 1 - y1,
            Direction::Right => w - 1 - x1,
            Direction::Down => y1,
            Direction::Left => x1,
        };
        if avail == 0 {
            continue ;
        }
        let len = 1 + rng_below(rng, avail);
        let coin = rng_below(rng, 2) == 0;
        proof {
            assert(step_in_bounds(w as int, h as int, x1 as int, y1 as int, len as int, d));
            assert(len <= w + h);
        }
        let ghost pre = *board;
        match try_place(board, gen_pair, x1, y1, d, len, coin) {
            Some(s) => {
                proof {
                    assert(pre@ == old(board)@);
                    assert(placement_witness(
                        old(board)@,
                        board@,
                        w as int,
                        h as int,
                        gen_pair,
                        s,
                        x1 as int,
                        y1 as int,
                        d,
                        len as int,
                    ));
                    assert forall|i: int, j: int| 0 <= i < w && 0 <= j < h implies #[trigger] board.cell(
                        i,
                        j,
                    ) <= old(board).cell(i, j) + w + h by {
                        assert(board.cell(i, j) == board@[j][i]);
                        assert(old(board).cell(i, j) == old(board)@[j][i]);
                        assert(pre.cell(i, j) == old(board)@[j][i]);
                    }
                    assert forall|i: int, j: int|
                        0 <= i < w && 0 <= j < h && #[trigger] board.cell(i, j) != old(board).cell(
                            i,
                            j,
                        ) implies board.cell(i, j) >= 1 by {
                        assert(board.cell(i, j) == board@[j][i]);
                        assert(old(board).cell(i, j) == old(board)@[j][i]);
                    }
                    assert(board.cell(s.x as int, s.y as int) >= 1);
                    lemma_placement_counts(
                        old(board)@,
                        board@,
                        w as int,
                        h as int,
                        gen_pair,
                        s,
                        x1 as int,
                        y1 as int,
                        d,
                        len as int,
                    );
                }
                return Some(s);
            },
            None => {
                proof {
                    assert forall|i: int, j: int| 0 <= i < w && 0 <= j < h implies #[trigger] board.cell(
                        i,
                        j,
                    ) + w + h <= usize::MAX by {
                        assert(board.cell(i, j) == pre.cell(i, j));
                    }
                }
            },
        }
    }
    None
}

/// Build a level: size the board from the requested difficulty, place tiles
/// until the spawn budget is used, and record one solve step per placement, in
/// placement order. On success the board has the dimensions the sizing policy
/// gives the level, the trace holds exactly one step per placement (its cells
/// all on the board), and the area is at least twice the placement count.
/// `Err(GenerationExhausted)` reports that some placement's random candidate
/// budget ran out; which draws come back is random, so success cannot be
/// promised.
pub fn generate_level(level: usize) -> (r: Result<(Board, Vec<SolveStep>), GenError>)
    requires
        level <= MAX_LEVEL,
    ensures
        match r {
            Ok(bt) => {
                &&& bt.0.wf()
                &&& bt.0.spec_height() as int == board_height(level as int)
                &&& bt.0.spec_width() as int == board_width(level as int)
                &&& bt.1@.len() == spawn_count(level as int)
                &&& 2 * bt.1@.len() <= bt.0.spec_width() * bt.0.spec_height()
                &&& forall|k: int|
                    0 <= k < bt.1@.len()
                        ==> (#[trigger] bt.1@[k]).x < bt.0.spec_width() && bt.1@[k].y
                        < bt.0.spec_height()
                &&& forall|a: int, b: int|
                    0 <= a < bt.0.spec_width() && 0 <= b < bt.0.spec_height()
                        ==> #[trigger] bt.0.cell(a, b) <= bt.1@.len() * (bt.0.spec_width()
                        + bt.0.spec_height())
                &&& placements_built(
                    bt.1@,
                    empty_grid(bt.0.spec_width() as int, bt.0.spec_height() as int),
                    bt.0@,
                    bt.0.spec_width() as int,
                    bt.0.spec_height() as int,
                )
                &&& forall|k: int|
                    0 <= k < bt.1@.len()
                        ==> bt.0.cell((#[trigger] bt.1@[k]).x as int, bt.1@[k].y as int) >= 1
                &&& bt.1@.len() + 1 <= grid_nonzero(bt.0@)
                &&& grid_nonzero(bt.0@) <= 2 * bt.1@.len()
                &&& grid_sum(bt.0@) % 2 == 0
            },
            Err(e) => e == GenError::GenerationExhausted,
        },
{
    let mut spawns: usize = 3 + (if level > 150 {
        level - 75
    } else {
        level / 2
    });
    let ghost s0: int = spawns as int;
    proof {
        assert(level as int / 2 <= level as int) by (nonlinear_arith)
            requires
                level as int >= 0,
        ;
        assert(s0 == initial_spawns(level as int));
        assert(s0 <= 3 + MAX_LEVEL);
    }
    let mut height: usize = 5;
    let mut width: usize = height * 16 / 9;
    let mut area: usize = width * height;
    while area < spawns * 2
        invariant
            5 <= height,
            width == height * 16 / 9,
            area == width * height,
            2 * height + spawns == 10 + s0,
            3 <= spawns,
            s0 <= 3 + MAX_LEVEL,
            settle(spawns as int, height as int) == settle(s0, 5),
        decreases spawns,
    {
        proof {
            assert(height <= height * 16 / 9 <= 2 * height) by (nonlinear_arith)
                requires
                    height as int >= 0,
            ;
            assert(width * height >= height * height) by (nonlinear_arith)
                requires
                    width >= height,
                    height as int >= 0,
            ;
            assert(height * height >= 25) by (nonlinear_arith)
                requires
                    height >= 5,
            ;
            assert(spawns >= 13);
            assert(settle(spawns as int, height as int) == settle(
                spawns as int - 2,
                height as int + 1,
            ));
        }
        spawns = spawns - 2;
        height = height + 1;
        width = height * 16 / 9;
        proof {
            assert(height <= width <= 2 * height) by (nonlinear_arith)
                requires
                    width == height * 16 / 9,
                    height as int >= 0,
            ;
            assert(height <= 15010);
            assert(width <= 30020);
            vstd::arithmetic::mul::lemma_mul_upper_bound(
                width as int,
                30020,
                height as int,
                15010,
            );
            assert(width * height <= 30020 * 15010);
        }
        area = width * height;
    }
    proof {
        assert(settle(spawns as int, height as int) == (spawns as int, height as int));
        assert(spawns as int == spawn_count(level as int));
        assert(height as int == board_height(level as int));
        assert(height <= 15010);
        assert(height <= width <= 2 * height) by (nonlinear_arith)
            requires
                width == height * 16 / 9,
                height as int >= 0,
        ;
        assert(spawns <= s0);
    }
    let mut board = Board::new(width, height);
    let mut rng = new_rng();
    let mut trace: Vec<SolveStep> = Vec::new();
    let ghost cap: int = width as int + height as int;
    let ghost g0: Seq<Seq<usize>> = empty_grid(width as int, height as int);
    proof {
        assert forall|x: int, y: int|
            0 <= y < board@.len() && 0 <= x < board@[y].len()
                implies #[trigger] board@[y][x] == 0 by {
            assert(board.cell(x, y) == 0);
        }
        lemma_zero_grid_counts(board@);
        assert(board@ =~~= g0);
    }
    proof {
        assert(spawns as int + 1 <= 30004);
        assert(cap <= 45030);
        vstd::arithmetic::mul::lemma_mul_upper_bound(spawns as int + 1, 30004, cap, 45030);
        assert((spawns as int + 1) * cap <= usize::MAX);
    }
    for i in 0..spawns
        invariant
            board.wf(),
            board.spec_width() == width,
            board.spec_height() == height,
            1 <= width,
            1 <= height,
            cap == width + height,
            (spawns as int + 1) * cap <= usize::MAX,
            trace@.len() == i,
            forall|k: int|
                0 <= k < i ==> (#[trigger] trace@[k]).x < width && trace@[k].y < height,
            forall|a: int, b: int|
                0 <= a < width && 0 <= b < height ==> #[trigger] board.cell(a, b) <= i * cap,
            3 <= spawns,
            placements_built(trace@, g0, board@, width as int, height as int),
            g0 == empty_grid(width as int, height as int),
            forall|k: int|
                0 <= k < i
                    ==> board.cell((#[trigger] trace@[k]).x as int, trace@[k].y as int) >= 1,
            i == 0 ==> grid_nonzero(board@) == 0,
            1 <= i ==> i + 1 <= grid_nonzero(board@) && grid_nonzero(board@) <= 2 * (i as int),
            grid_sum(board@) % 2 == 0,
    {
        let gen_pair = i == 0 || rng_below(&mut rng, 5) == 0;
        proof {
            assert((i as int) * cap <= (spawns as int) * cap) by (nonlinear_arith)
                requires
                    0 <= i as int <= spawns as int,
                    cap >= 0,
            ;
            assert((spawns as int) * cap + cap == (spawns as int + 1) * cap) by (nonlinear_arith);
            assert(forall|a: int, b: int|
                0 <= a < width && 0 <= b < height
                    ==> #[trigger] board.cell(a, b) + width + height <= usize::MAX);
        }
        let ghost pre = board;
        match place_one(&mut board, &mut rng, gen_pair) {
            Some(s) => {
                proof {
                    assert((i as int + 1) * cap == (i as int) * cap + cap) by (nonlinear_arith);
                    assert(forall|a: int, b: int|
                        0 <= a < width && 0 <= b < height
                            ==> #[trigger] board.cell(a, b) <= (i as int + 1) * cap);
                }
                let ghost pre_trace = trace@;
                trace.push(s);
                proof {
                    assert(trace@ == pre_trace.push(s));
                    assert(trace@.drop_last() =~= pre_trace);
                    assert(trace@.last() == s);
                    assert(placements_built(pre_trace, g0, pre@, width as int, height as int));
                    assert(placement_made(
                        pre@,
                        board@,
                        width as int,
                        height as int,
                        gen_pair,
                        trace@.last(),
                    ));
                    assert(placements_built(trace@, g0, board@, width as int, height as int));
                    assert forall|k: int|
                        0 <= k < trace@.len() implies board.cell(
                        (#[trigger] trace@[k]).x as int,
                        trace@[k].y as int,
                    ) >= 1 by {
                        if k < i as int {
                            assert(trace@[k] == pre_trace[k]);
                            let tx = trace@[k].x as int;
                            let ty = trace@[k].y as int;
                            assert(pre.cell(tx, ty) >= 1);
                            assert(board.cell(tx, ty) <= pre.cell(tx, ty) + width + height);
                            if board.cell(tx, ty) != pre.cell(tx, ty) {
                                assert(board.cell(tx, ty) >= 1);
                            }
                        } else {
                            assert(trace@[k] == s);
                        }
                    }
                    assert(grid_nonzero(board@) == grid_nonzero(pre@) + (if gen_pair {
                        2int
                    } else {
                        1int
                    }));
                    assert(grid_sum(board@) % 2 == 0);
                }
            },
            None => {
                return Err(GenError::GenerationExhausted);
            },
        }
    }
    Ok((board, trace))
}

} // verus!
