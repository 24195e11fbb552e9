use mastermind::color::Color;
use mastermind::mastermind::MasterMind;
use mastermind::solver::{candidate_count, memory_estimate, Solver, SolverStep};

#[test]
fn single_peg_solved_within_eight_steps() {
    for _ in 0..20 {
        let mut game = MasterMind::new(1);
        let mut solver = Solver::new(1);
        assert_eq!(solver.remaining(), 8);
        let mut steps = 0;
        loop {
            let before = solver.remaining();
            let r = solver.step(&mut game);
            steps += 1;
            assert_eq!(solver.remaining(), before - 1);
            match r {
                SolverStep::Solved(res) => {
                    assert!(res.valid);
                    assert_eq!(res.good, 1);
                    break;
                }
                SolverStep::Searching(res) => assert_eq!(res.good, 0),
                SolverStep::Exhausted => panic!("secret lost"),
            }
        }
        assert!(steps <= 8);
        assert_eq!(game.tries, steps);
    }
}

#[test]
fn space_shrinks_every_step() {
    let mut game = MasterMind::new(3);
    let mut solver = Solver::new(3);
    assert_eq!(solver.remaining(), 512);
    loop {
        let before = solver.remaining();
        match solver.step(&mut game) {
            SolverStep::Solved(_) => break,
            SolverStep::Searching(_) => assert!(solver.remaining() < before),
            SolverStep::Exhausted => panic!("secret lost"),
        }
    }
}

#[test]
fn filter_keeps_codes_at_least_as_close() {
    let secret = vec![Color::Red, Color::Green];
    let mut game = MasterMind::with_secret(secret.clone());
    let mut solver = Solver::new(2);
    let mut index = None;
    for i in 0..64 {
        let mut probe_game = MasterMind::with_secret(secret.clone());
        let mut probe = Solver::new(2);
        if let SolverStep::Searching(res) = probe.step_at(&mut probe_game, i) {
            if res.guess == vec![Color::Red, Color::Blue] {
                index = Some(i);
                break;
            }
        }
    }
    let r = solver.step_at(&mut game, index.unwrap());
    match r {
        SolverStep::Searching(res) => {
            assert_eq!(res.good, 1);
            assert_eq!(res.wrong, 1);
            assert_eq!(res.guess, vec![Color::Red, Color::Blue]);
        }
        _ => panic!("expected a search step"),
    }
    // Codes starting with Red (7 left besides Red-Blue) or ending with Blue (7 others).
    assert_eq!(solver.remaining(), 14);
    assert_eq!(game.tries, 1);
}

#[test]
fn step_without_gain_only_removes_the_guess() {
    let mut game = MasterMind::with_secret(vec![Color::Red, Color::Green]);
    let mut solver = Solver::new(2);
    let mut seen_zero = false;
    while !seen_zero {
        let before = solver.remaining();
        match solver.step(&mut game) {
            SolverStep::Searching(res) => {
                if res.good == 0 {
                    seen_zero = true;
                    assert_eq!(solver.remaining(), before - 1);
                }
            }
            SolverStep::Solved(_) => break,
            SolverStep::Exhausted => panic!("secret lost"),
        }
    }
}

#[test]
fn exhausted_once_nothing_is_left() {
    let mut game = MasterMind::with_secret(vec![Color::Cyan]);
    let mut solver = Solver::new(1);
    let mut solved = 0;
    for _ in 0..8 {
        if let SolverStep::Solved(_) = solver.step_at(&mut game, 0) {
            solved += 1;
        }
    }
    assert_eq!(solved, 1);
    assert_eq!(solver.remaining(), 0);
    assert!(matches!(solver.step(&mut game), SolverStep::Exhausted));
    assert_eq!(game.tries, 8);
}

#[test]
fn candidate_count_is_power_of_eight() {
    assert_eq!(candidate_count(0), Some(1));
    assert_eq!(candidate_count(1), Some(8));
    assert_eq!(candidate_count(4), Some(4096));
    assert_eq!(candidate_count(8), Some(16_777_216));
    assert_eq!(candidate_count(21), Some(1usize << 63));
    assert_eq!(candidate_count(22), None);
    assert_eq!(candidate_count(100), None);
}

#[test]
fn memory_estimate_formula() {
    let outer = std::mem::size_of::<Vec<Vec<Color>>>();
    let code = std::mem::size_of::<Vec<Color>>();
    let color = std::mem::size_of::<Color>();
    assert_eq!(memory_estimate(4096, 4), Some(outer * 4096 * code * color * 4 / 8));
    assert_eq!(memory_estimate(0, 4), Some(0));
    assert_eq!(memory_estimate(usize::MAX, 4), None);
}
