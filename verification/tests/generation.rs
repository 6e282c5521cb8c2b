use shift_puzzle::gen_level::generate_level;

// The sizing policy, restated independently: target spawn count from the
// level, then grow a 16:9 board until its area is twice the spawn count,
// paying 2 spawns per growth step.
fn expected_sizing(level: usize) -> (usize, usize, usize) {
    let mut spawns = 3 + if level > 150 { level - 75 } else { level / 2 };
    let mut height = 5;
    let mut width = height * 16 / 9;
    while width * height < spawns * 2 {
        spawns -= 2;
        height += 1;
        width = height * 16 / 9;
    }
    (spawns, width, height)
}

#[test]
fn dimensions_follow_the_sizing_policy() {
    for level in [0usize, 1, 10, 100, 150, 151, 300, 1000] {
        let (board, trace) = generate_level(level).expect("generation failed");
        let (spawns, width, height) = expected_sizing(level);
        assert_eq!(board.width(), width);
        assert_eq!(board.height(), height);
        assert_eq!(trace.len(), spawns);
    }
}

#[test]
fn area_holds_twice_the_spawn_count_for_all_levels() {
    for level in 0..=300usize {
        let (board, trace) = generate_level(level).expect("generation failed");
        assert!(board.width() * board.height() >= 2 * trace.len());
    }
}

#[test]
fn trace_steps_lie_on_the_board() {
    let (board, trace) = generate_level(100).expect("generation failed");
    for s in &trace {
        assert!(s.x < board.width());
        assert!(s.y < board.height());
    }
}

#[test]
fn placements_leave_bounded_positive_tiles() {
    let (board, trace) = generate_level(200).expect("generation failed");
    let w = board.width();
    let h = board.height();
    let mut nonzero = 0;
    let mut sum: usize = 0;
    for y in 0..h {
        for x in 0..w {
            let v = board.get_cell(x, y);
            if v != 0 {
                nonzero += 1;
            }
            sum += v;
            // no placement can push a cell beyond one step length per spawn
            assert!(v <= trace.len() * (w + h));
        }
    }
    // the first placement is a pair (two fresh tiles), every later one adds
    // one or two fresh tiles, and no placement erases a tile
    assert!(nonzero >= trace.len() + 1);
    assert!(nonzero <= 2 * trace.len());
    // every placement moves the total by an even amount, starting from zero
    assert!(sum % 2 == 0);
}

#[test]
fn trace_steps_address_tiles_of_the_returned_board() {
    let (board, trace) = generate_level(100).expect("generation failed");
    for s in &trace {
        assert!(board.get_cell(s.x, s.y) >= 1);
    }
}
