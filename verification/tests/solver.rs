use nshogi::io::ToSfen;
use nshogi::solver::{dfs, mate_1ply, DfPnSolver};
use nshogi::state::State;
use nshogi::types::Move;

const MATE_1: [&str; 5] = [
    "4k4/9/4P4/9/9/9/9/9/K8 b G2r2b3g4s4n4l17p 1",
    "4k4/9/4S4/9/9/9/9/9/K8 b G2r2b3g3s4n4l18p 1",
    "k8/9/1G7/9/9/9/9/9/8K b G2r2b2g4s4n4l18p 1",
    "7nk/9/6G1P/9/9/9/9/9/K8 b G2r2b2g4s3n4l17p 1",
    "6snk/7b1/6G1P/9/9/9/9/9/K8 b GN2rb2g3s2n4l17p 1",
];

const MATE_3: [&str; 2] = [
    "9/4k4/9/4P4/9/9/9/9/K8 b 2G2r2b2g4s4n4l17p 1",
    "9/4k4/9/4S4/9/9/9/9/K8 b 2G2r2b2g3s4n4l18p 1",
];

const MATE_5: [&str; 3] = [
    "9/9/4k4/9/4P4/9/9/9/K8 b 3G2r2bg4s4n4l17p 1",
    "9/9/4k4/9/4S4/9/9/9/K8 b 3G2r2bg3s4n4l18p 1",
    "9/9/7k1/9/7P1/9/9/9/K8 b R3Gr2bg4s4n4l17p 1",
];

const MATE_7: [&str; 3] = [
    "9/9/9/4k4/9/4P4/9/9/K8 b 4G2r2b4s4n4l17p 1",
    "9/9/9/4k4/9/4S4/9/9/K8 b 4G2r2b3s4n4l18p 1",
    "9/9/9/6k2/9/6P2/9/9/K8 b R4Gr2b4s4n4l17p 1",
];

const MATE_9: [&str; 3] = [
    "9/9/9/4k4/9/4P4/9/9/K8 b 2R3G2bg4s4n4l17p 1",
    "9/9/7k1/9/7P1/9/9/9/K8 b RB2Grb2g4s4n4l17p 1",
    "9/9/9/8k/9/8P/9/9/K8 b 2R3G2bg4s4n4l17p 1",
];

const MATE_11: [&str; 2] = [
    "9/9/9/9/8k/9/8P/9/K8 b 2R3G2bg4s4n4l17p 1",
    "9/9/9/7k1/9/7P1/9/9/K8 b 2R3G2bg4s4n4l17p 1",
];

fn state_of(line: &str) -> State {
    State::from_sfen(line).expect("Couldn't create state object from a sfen line.")
}

/// Plays the line and tells whether it is made of legal moves, the moves of
/// the first player all giving check, and ends with the other side mated.
fn ends_in_mate(state: &mut State, line: &[Move]) -> bool {
    let mut ok = !line.is_empty() && line.len() % 2 == 1;
    let mut played = 0;
    for (i, m) in line.iter().enumerate() {
        if !state.generate_legal_moves_nowily().contains(m) {
            ok = false;
            break;
        }
        state.do_move(*m);
        played += 1;
        if i % 2 == 0 && !state.is_in_check() {
            ok = false;
            break;
        }
    }
    if ok {
        ok = state.is_in_check() && state.generate_legal_moves_nowily().is_empty();
    }
    for _ in 0..played {
        state.undo_move();
    }
    ok
}

#[test]
fn dfs_mate_1_ply() {
    for line in MATE_1 {
        let mut state = state_of(line);
        let checkmate_move = dfs(&mut state, 1);
        assert!(!checkmate_move.is_none());
    }
}

#[test]
fn dfs_mate_3_ply() {
    for line in MATE_3 {
        let mut state = state_of(line);
        let checkmate_move = dfs(&mut state, 3);
        assert!(!checkmate_move.is_none());
    }
}

#[test]
fn dfs_mate_5_ply() {
    for line in MATE_5 {
        let mut state = state_of(line);
        let checkmate_move = dfs(&mut state, 5);
        assert!(!checkmate_move.is_none());
    }
}

#[test]
fn dfpn_mate_1_ply() {
    let mut solver = DfPnSolver::new(64);
    for line in MATE_1 {
        let mut state = state_of(line);
        let checkmate_move = solver.solve(&mut state, 100000, 0, false);
        assert!(!checkmate_move.is_none());
    }
}

#[test]
fn dfpn_mate_3_ply() {
    let mut solver = DfPnSolver::new(64);
    for line in MATE_3 {
        let mut state = state_of(line);
        let checkmate_move = solver.solve(&mut state, 100000, 0, false);
        assert!(!checkmate_move.is_none());
    }
}

#[test]
fn dfpn_mate_5_ply() {
    let mut solver = DfPnSolver::new(64);
    for line in MATE_5 {
        let mut state = state_of(line);
        let checkmate_move = solver.solve(&mut state, 100000, 0, false);
        assert!(!checkmate_move.is_none());
    }
}

#[test]
fn dfpn_mate_7_ply() {
    let mut solver = DfPnSolver::new(64);
    for line in MATE_7 {
        let mut state = state_of(line);
        let checkmate_move = solver.solve(&mut state, 100000, 0, false);
        assert!(!checkmate_move.is_none());
    }
}

#[test]
fn dfpn_mate_9_ply() {
    let mut solver = DfPnSolver::new(64);
    for line in MATE_9 {
        let mut state = state_of(line);
        let checkmate_move = solver.solve(&mut state, 100000, 0, false);
        assert!(!checkmate_move.is_none());
    }
}

#[test]
fn dfpn_mate_11_ply() {
    let mut solver = DfPnSolver::new(64);
    for line in MATE_11 {
        let mut state = state_of(line);
        let checkmate_move = solver.solve(&mut state, 100000, 0, false);
        assert!(!checkmate_move.is_none());
    }
}

#[test]
fn dfpn_strict_mate_11_ply() {
    let mut solver = DfPnSolver::new(64);
    for line in MATE_11 {
        let mut state = state_of(line);
        let checkmate_move = solver.solve(&mut state, 100000, 0, true);
        assert!(!checkmate_move.is_none());
    }
}

#[test]
fn dfs_finds_no_mate_below_its_length() {
    for line in MATE_3 {
        assert!(dfs(&mut state_of(line), 1).is_none());
        assert!(dfs(&mut state_of(line), 2).is_none());
    }
    for line in MATE_5 {
        assert!(dfs(&mut state_of(line), 3).is_none());
        assert!(dfs(&mut state_of(line), 4).is_none());
    }
    for line in MATE_7 {
        assert!(dfs(&mut state_of(line), 5).is_none());
    }
    assert!(dfs(&mut state_of(MATE_1[0]), 0).is_none());
    assert!(dfs(&mut state_of(MATE_1[0]), -3).is_none());
}

#[test]
fn a_mate_of_nine_plies_is_no_shorter() {
    let mut state = state_of(MATE_9[1]);
    assert!(dfs(&mut state, 7).is_none());
    let mut solver = DfPnSolver::new(16);
    assert!(solver.solve(&mut state, 100000, 7, false).is_none());
    let found = solver.solve_with_pv(&mut state, 100000, 9, false);
    assert_eq!(9, found.len());
    assert!(ends_in_mate(&mut state, &found));
}

#[test]
fn dfs_mate_7_ply() {
    for line in MATE_7 {
        let mut state = state_of(line);
        assert!(!dfs(&mut state, 7).is_none());
    }
}

#[test]
fn dfs_answers_with_the_known_first_moves() {
    let mut state = state_of("9/9/4k4/9/4P4/9/9/9/K8 b 3G2r2bg4s4n4l17p 1");
    assert_eq!("G*5d", dfs(&mut state, 5).to_sfen());
    let mut state = state_of("4k4/9/4P4/9/9/9/9/9/K8 b G2r2b3g4s4n4l17p 1");
    assert_eq!("G*5b", dfs(&mut state, 1).to_sfen());
}

#[test]
fn dfpn_answers_with_the_known_first_moves() {
    let mut solver = DfPnSolver::new(64);
    let mut state = state_of("9/9/4k4/9/4P4/9/9/9/K8 b 3G2r2bg4s4n4l17p 1");
    assert_eq!("G*5d", solver.solve(&mut state, 0, 0, false).to_sfen());
    let mut state = state_of("4k4/9/4P4/9/9/9/9/9/K8 b G2r2b3g4s4n4l17p 1");
    let line = solver.solve_with_pv(&mut state, 0, 0, false);
    let texts: Vec<String> = line.iter().map(|m| m.to_sfen()).collect();
    assert_eq!(vec!["G*5b"], texts);
}

#[test]
fn solvers_agree_on_the_corpus() {
    let mut solver = DfPnSolver::new(16);
    let corpus: [(&[&str], usize); 4] = [(&MATE_1, 1), (&MATE_3, 3), (&MATE_5, 5), (&MATE_7, 7)];
    for (lines, n) in corpus {
        for line in lines {
            let mut state = state_of(line);
            let by_dfs = dfs(&mut state, n as i32);
            assert!(!by_dfs.is_none());
            let found = solver.solve_with_pv(&mut state, 100000, n as i32, false);
            assert_eq!(n, found.len());
            assert!(ends_in_mate(&mut state, &found));
            assert_eq!(line.to_string(), state.to_sfen());
        }
    }
}

fn lines_end_in_mate(lines: &[&str], n: usize) {
    let mut solver = DfPnSolver::new(16);
    for line in lines {
        let mut state = state_of(line);
        let found = solver.solve_with_pv(&mut state, 100000, n as i32, false);
        assert!(!found.is_empty());
        assert!(found.len() <= n);
        assert!(ends_in_mate(&mut state, &found));
        let first = solver.solve(&mut state, 100000, n as i32, false);
        assert!(!first.is_none());
        let strict = solver.solve_with_pv(&mut state, 100000, 0, true);
        assert!(ends_in_mate(&mut state, &strict));
        assert_eq!(line.to_string(), state.to_sfen());
    }
}

#[test]
fn dfpn_lines_of_nine_plies_end_in_mate() {
    lines_end_in_mate(&MATE_9, 9);
}

#[test]
fn dfpn_lines_of_eleven_plies_end_in_mate() {
    lines_end_in_mate(&MATE_11, 11);
}

#[test]
fn dfpn_within_a_depth_below_the_mate_finds_nothing() {
    let mut solver = DfPnSolver::new(16);
    for line in MATE_5 {
        let mut state = state_of(line);
        assert!(solver.solve(&mut state, 100000, 3, false).is_none());
        assert!(solver.solve_with_pv(&mut state, 100000, 4, false).is_empty());
    }
    for line in MATE_7 {
        let mut state = state_of(line);
        assert!(solver.solve(&mut state, 100000, 5, false).is_none());
    }
}

#[test]
fn no_mate_is_found_from_the_starting_position() {
    let mut state = state_of("startpos");
    for depth in 0..6 {
        assert!(dfs(&mut state, depth).is_none());
    }
    assert!(mate_1ply(&mut state).is_none());
    let mut solver = DfPnSolver::new(64);
    assert!(solver.solve(&mut state, 0, 0, false).is_none());
    assert!(solver.solve(&mut state, 0, 0, true).is_none());
    assert!(solver.solve(&mut state, 1000, 7, false).is_none());
    assert!(solver.solve_with_pv(&mut state, 0, 0, false).is_empty());
    assert_eq!(0, state.get_ply());
    assert_eq!(
        "lnsgkgsnl/1r5b1/ppppppppp/9/9/9/PPPPPPPPP/1B5R1/LNSGKGSNL b - 1",
        state.to_sfen()
    );
}

#[test]
fn no_mate_is_found_after_some_opening_moves() {
    let mut state = state_of("startpos moves 7g7f 3c3d 8h2b+ 3a2b");
    assert!(dfs(&mut state, 3).is_none());
    let mut solver = DfPnSolver::new(1);
    assert!(solver.solve(&mut state, 20000, 0, false).is_none());
    assert_eq!(4, state.get_ply());
}

#[test]
fn a_search_that_runs_out_of_nodes_finds_nothing() {
    let mut solver = DfPnSolver::new(0);
    for line in MATE_9 {
        let mut state = state_of(line);
        assert!(solver.solve(&mut state, 1, 0, false).is_none());
        assert!(solver.solve(&mut state, 10, 0, true).is_none());
    }
}

#[test]
fn a_mate_in_one_is_found_whatever_the_budget() {
    let mut solver = DfPnSolver::new(0);
    for line in MATE_1 {
        let mut state = state_of(line);
        let first = solver.solve(&mut state, 1, 1, true);
        assert!(!first.is_none());
        assert!(ends_in_mate(&mut state, &[first]));
        let by_detector = mate_1ply(&mut state);
        assert!(ends_in_mate(&mut state, &[by_detector]));
    }
    for line in MATE_3 {
        assert!(mate_1ply(&mut state_of(line)).is_none());
    }
}

#[test]
fn a_pawn_may_not_be_dropped_to_mate() {
    // A pawn on 1b would mate; a lance there does.
    let mut state = state_of("8k/9/5B1G1/9/9/9/9/9/K8 b LP2rb3g4s4n3l17p 1");
    assert!(Move::from_sfen(&state, "P*1b").is_err());
    assert!(Move::from_sfen(&state, "P*1c").is_ok());
    assert_eq!("L*1b", mate_1ply(&mut state).to_sfen());
    assert_eq!("L*1b", dfs(&mut state, 1).to_sfen());
    let texts: Vec<String> = state.generate_legal_moves_nowily().iter().map(|m| m.to_sfen()).collect();
    assert!(!texts.contains(&"P*1b".to_string()));
    assert!(texts.contains(&"L*1b".to_string()));
}

#[test]
fn a_solver_can_be_used_again() {
    let mut solver = DfPnSolver::new(1);
    for _ in 0..3 {
        for line in MATE_5 {
            let mut state = state_of(line);
            assert!(!solver.solve(&mut state, 100000, 0, false).is_none());
        }
        let mut state = state_of("startpos");
        assert!(solver.solve(&mut state, 100000, 0, false).is_none());
    }
}
