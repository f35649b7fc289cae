use nshogi::io::{ToCSA, ToSfen};
use nshogi::state::State;
use nshogi::types::{CSAParseError, Move};

const START: &str = "P1-KY-KE-GI-KI-OU-KI-GI-KE-KY\nP2 * -HI *  *  *  *  * -KA * \nP3-FU-FU-FU-FU-FU-FU-FU-FU-FU\nP4 *  *  *  *  *  *  *  *  * \nP5 *  *  *  *  *  *  *  *  * \nP6 *  *  *  *  *  *  *  *  * \nP7+FU+FU+FU+FU+FU+FU+FU+FU+FU\nP8 * +KA *  *  *  *  * +HI * \nP9+KY+KE+GI+KI+OU+KI+GI+KE+KY\n";

#[test]
fn a_game_is_written_with_its_first_position_and_its_moves() {
    let state = State::from_sfen("startpos moves 2g2f").unwrap();
    assert_eq!(format!("{}+\n+2726FU\n", START), state.to_csa());
    let state = State::from_sfen("startpos").unwrap();
    assert_eq!(format!("{}+\n", START), state.to_csa());
}

#[test]
fn a_position_is_written_with_the_side_to_move() {
    let state = State::from_sfen("startpos moves 2g2f").unwrap();
    assert_eq!(
        "P1-KY-KE-GI-KI-OU-KI-GI-KE-KY\nP2 * -HI *  *  *  *  * -KA * \nP3-FU-FU-FU-FU-FU-FU-FU-FU-FU\nP4 *  *  *  *  *  *  *  *  * \nP5 *  *  *  *  *  *  *  *  * \nP6 *  *  *  *  *  *  * +FU * \nP7+FU+FU+FU+FU+FU+FU+FU * +FU\nP8 * +KA *  *  *  *  * +HI * \nP9+KY+KE+GI+KI+OU+KI+GI+KE+KY\n-\n",
        state.get_position().to_csa()
    );
}

#[test]
fn stands_and_promoted_pieces_are_written() {
    let state = State::from_sfen("startpos moves 7g7f 3c3d 8h2b+ 3a2b B*5e").unwrap();
    assert_eq!(
        "P1-KY-KE-GI-KI-OU-KI * -KE-KY\nP2 * -HI *  *  *  *  * -GI * \nP3-FU-FU-FU-FU-FU-FU * -FU-FU\nP4 *  *  *  *  *  * -FU *  * \nP5 *  *  *  * +KA *  *  *  * \nP6 *  * +FU *  *  *  *  *  * \nP7+FU+FU * +FU+FU+FU+FU+FU+FU\nP8 *  *  *  *  *  *  * +HI * \nP9+KY+KE+GI+KI+OU+KI+GI+KE+KY\nP-00KA\n-\n",
        state.get_position().to_csa()
    );
    assert_eq!(
        format!("{}+\n+7776FU\n-3334FU\n+8822UM\n-3122GI\n+0055KA\n", START),
        state.to_csa()
    );
    let held = State::from_sfen("9/9/4k4/9/4P4/9/9/9/K8 b 3G2r2bg4s4n4l17p 1").unwrap();
    let text = held.to_csa();
    assert!(text.contains("P+00KI00KI00KI\n"));
    assert!(text.contains(
        "P-00HI00HI00KA00KA00KI00GI00GI00GI00GI00KE00KE00KE00KE00KY00KY00KY00KY00FU00FU00FU00FU00FU00FU00FU00FU00FU00FU00FU00FU00FU00FU00FU00FU00FU\n+\n"
    ));
    let promoted = State::from_sfen("kgsnlbrp1/+s+n+l+p5/5+P+L+N+S/1PRBLNSGK/9/9/9/9/9 b G7Pg7p 1").unwrap();
    let text = promoted.to_csa();
    assert!(text.starts_with("P1-OU-KI-GI-KE-KY-KA-HI-FU * \nP2-NG-NK-NY-TO *  *  *  *  * \nP3 *  *  *  *  * +TO+NY+NK+NG\n"));
}

#[test]
fn what_is_written_is_read_back() {
    for text in [
        "startpos",
        "startpos moves 2g2f",
        "startpos moves 7g7f 3c3d 8h2b+ 3a2b B*5e",
        "9/9/4k4/9/4P4/9/9/9/K8 b 3G2r2bg4s4n4l17p 1",
        "kgsnlbrp1/+s+n+l+p5/5+P+L+N+S/1PRBLNSGK/9/9/9/9/9 b G7Pg7p 1",
        "4k4/9/9/9/9/9/9/9/K3L4 w 2R2B4G4S4N3Lp17P 1 moves P*5e 5i5e",
    ] {
        let state = State::from_sfen(text).unwrap();
        let csa = state.to_csa();
        let again = State::from_csa(&csa).unwrap();
        assert_eq!(csa, again.to_csa());
        assert_eq!(state.to_sfen(), again.to_sfen());
        assert_eq!(state.get_hash(), again.get_hash());
        assert_eq!(state.get_ply(), again.get_ply());
    }
}

#[test]
fn moves_are_written_and_read_in_their_state() {
    let mut state = State::from_sfen("startpos moves 7g7f 3c3d").unwrap();
    let m = Move::from_csa(&state, "+8822UM").unwrap();
    assert_eq!("8h2b+", m.to_sfen());
    assert_eq!("+8822UM", m.to_csa(&state));
    let plain = Move::from_csa(&state, "+8822KA").unwrap();
    assert_eq!("8h2b", plain.to_sfen());
    assert_eq!("+8822KA", plain.to_csa(&state));
    state.do_move(m);
    let back = Move::from_csa(&state, "-3122GI").unwrap();
    assert_eq!("3a2b", back.to_sfen());
    state.do_move(back);
    let drop = Move::from_csa(&state, "+0055KA").unwrap();
    assert_eq!("B*5e", drop.to_sfen());
    assert_eq!("+0055KA", drop.to_csa(&state));
    for m in state.generate_legal_moves_nowily() {
        assert_eq!(m, Move::from_csa(&state, &m.to_csa(&state)).unwrap());
    }
    assert_eq!("%KACHI", Move::win().to_csa(&state));
    assert_eq!("%ERROR", Move::none().to_csa(&state));
}

#[test]
fn texts_that_are_no_move_are_errors() {
    let state = State::from_sfen("startpos").unwrap();
    for text in ["", "+2726", "-2726FU", "+2726KY", "+2726TO", "+2725FU", "+0055FU", "+2726FU\n", "+2726fu", "2726FU+", "+2g2fFU", "%KACHI", "+2726FUU"] {
        match Move::from_csa(&state, text) {
            Err(CSAParseError::RuntimeError(_)) => {}
            Err(CSAParseError::InternalError(_)) => panic!("an internal error for {:?}", text),
            Ok(_) => panic!("{:?} was read", text),
        }
    }
    assert!(Move::from_csa(&state, "+2726FU").is_ok());
}

#[test]
fn texts_that_are_no_game_are_errors() {
    let good = format!("{}+\n+2726FU\n", START);
    assert!(State::from_csa(&good).is_ok());
    let mut bad: Vec<String> = vec![
        String::new(),
        "invalid".to_string(),
        START.to_string(),
        format!("{}+", START),
        format!("{}x\n", START),
        format!("{}+\n+2726FU", START),
        format!("{}+\n+2726FU\n\n", START),
        format!("{}+\n-2726FU\n", START),
        format!("{}+\n+2725FU\n", START),
        format!("{}P+00FU\n+\n", START),
        format!("{}P+\n+\n", START).replace("P7+FU", "P7 * ").replace("P+\n", "P+00KI\n"),
        format!(" {}+\n", START),
        good.replace("P1", "P2"),
        good.replace("-OU", "-KI"),
        good.replace("-OU", "-ou"),
        good.replace(" * -HI", " *  * "),
        good.replace("P5 * ", "P5* "),
    ];
    bad.push(good.replace("\n", "\r\n"));
    for text in bad {
        match State::from_csa(&text) {
            Err(CSAParseError::RuntimeError(_)) => {}
            Err(CSAParseError::InternalError(_)) => panic!("an internal error for {:?}", text),
            Ok(_) => panic!("{:?} was read", text),
        }
    }
    // An empty hand line reads as an empty stand.
    assert!(State::from_csa(&format!("{}P+\n+\n", START)).is_ok());
}
