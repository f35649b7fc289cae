use nshogi::io::ToSfen;
use nshogi::state::State;
use nshogi::types::{Move, MoveGetError, Repetition};
use nshogi::zobrist::position_hash;

fn texts(moves: &[Move]) -> Vec<String> {
    let mut v: Vec<String> = moves.iter().map(|m| m.to_sfen()).collect();
    v.sort();
    v
}

fn play(state: &mut State, moves: &[&str]) {
    for text in moves {
        let m = Move::from_sfen(state, text).unwrap();
        state.do_move(m);
    }
}

#[test]
fn no_move_is_generated_twice() {
    for text in [
        "startpos",
        "startpos moves 7g7f 3c3d 8h2b+ 3a2b",
        "9/9/4k4/9/4P4/9/9/9/K8 b 3G2r2bg4s4n4l17p 1",
        "kgsnlbrp1/+s+n+l+p5/5+P+L+N+S/1PRBLNSGK/9/9/9/9/9 b G7Pg7p 1",
    ] {
        let state = State::from_sfen(text).unwrap();
        for moves in [state.generate_legal_moves(), state.generate_legal_moves_nowily()] {
            let mut seen: Vec<u32> = moves.iter().map(|m| m.value()).collect();
            seen.sort();
            seen.dedup();
            assert_eq!(moves.len(), seen.len());
        }
    }
}

#[test]
fn the_moves_come_in_the_order_of_their_values() {
    for text in [
        "startpos",
        "startpos moves 7g7f 3c3d 8h2b+ 3a2b",
        "9/9/4k4/9/4P4/9/9/9/K8 b 3G2r2bg4s4n4l17p 1",
    ] {
        let state = State::from_sfen(text).unwrap();
        for moves in [state.generate_legal_moves(), state.generate_legal_moves_nowily()] {
            for pair in moves.windows(2) {
                assert!(pair[0].value() < pair[1].value());
            }
            let again = State::from_sfen(text).unwrap().clone();
            assert!(again.generate_legal_moves_nowily().len() >= moves.len());
        }
        assert_eq!(state.generate_legal_moves_nowily(), state.clone().generate_legal_moves_nowily());
    }
}

#[test]
fn a_second_pawn_may_not_be_dropped_on_a_file() {
    let state = State::from_sfen("4k4/9/4P4/9/9/9/9/9/K8 b GP2r2b3g4s4n4l16p 1").unwrap();
    for rank in ["b", "d", "e", "f", "g", "h", "i"] {
        assert!(Move::from_sfen(&state, &format!("P*5{}", rank)).is_err());
        assert!(Move::from_sfen(&state, &format!("G*5{}", rank)).is_ok());
        assert!(Move::from_sfen(&state, &format!("P*4{}", rank)).is_ok());
    }
}

#[test]
fn a_piece_may_not_be_dropped_where_it_could_never_move() {
    let black = State::from_sfen("4k4/9/9/9/9/9/9/9/K8 b GSNLP2r2b3g3s3n3l17p 1").unwrap();
    assert!(Move::from_sfen(&black, "P*4a").is_err());
    assert!(Move::from_sfen(&black, "L*4a").is_err());
    assert!(Move::from_sfen(&black, "N*4a").is_err());
    assert!(Move::from_sfen(&black, "N*4b").is_err());
    assert!(Move::from_sfen(&black, "P*4b").is_ok());
    assert!(Move::from_sfen(&black, "L*4b").is_ok());
    assert!(Move::from_sfen(&black, "N*4c").is_ok());
    assert!(Move::from_sfen(&black, "S*4a").is_ok());
    assert!(Move::from_sfen(&black, "G*4a").is_ok());
    assert!(Move::from_sfen(&black, "G*5a").is_err());
    assert!(Move::from_sfen(&black, "G*9i").is_err());
    assert!(Move::from_sfen(&black, "R*5e").is_err());
    let white = State::from_sfen("4k4/9/9/9/9/9/9/9/K8 w 2R2B3G3S3N3L17Pgsnlp 1").unwrap();
    assert!(Move::from_sfen(&white, "P*4i").is_err());
    assert!(Move::from_sfen(&white, "L*4i").is_err());
    assert!(Move::from_sfen(&white, "N*4h").is_err());
    assert!(Move::from_sfen(&white, "N*4g").is_ok());
    assert!(Move::from_sfen(&white, "P*4h").is_ok());
    assert!(Move::from_sfen(&white, "P*4a").is_ok());
}

#[test]
fn promotion_is_offered_in_the_zone_and_forced_at_its_end() {
    let state = State::from_sfen("4k4/1P7/9/2P1L4/7N1/9/9/9/K8 b 2r2b4g4s3n3l16p 1").unwrap();
    // A pawn that reaches the last rank promotes.
    assert!(Move::from_sfen(&state, "8b8a").is_err());
    assert!(Move::from_sfen(&state, "8b8a+").is_ok());
    // A pawn that enters the zone may promote.
    assert!(Move::from_sfen(&state, "7d7c").is_ok());
    assert!(Move::from_sfen(&state, "7d7c+").is_ok());
    // A lance may stop short of the zone, promote in it, and must promote on
    // the last rank; it does not jump over the king.
    assert!(Move::from_sfen(&state, "5d5c").is_ok());
    assert!(Move::from_sfen(&state, "5d5c+").is_ok());
    assert!(Move::from_sfen(&state, "5d5b").is_ok());
    assert!(Move::from_sfen(&state, "5d5b+").is_ok());
    assert!(Move::from_sfen(&state, "5d5a").is_ok() == false);
    // A knight that lands on the third rank may promote.
    assert!(Move::from_sfen(&state, "2e1c").is_ok());
    assert!(Move::from_sfen(&state, "2e1c+").is_ok());
    assert!(Move::from_sfen(&state, "2e3c+").is_ok());
    // Outside the zone nothing promotes.
    assert!(Move::from_sfen(&State::from_sfen("startpos").unwrap(), "2g2f+").is_err());
}

#[test]
fn the_wily_list_leaves_out_the_dominated_moves_only() {
    let state = State::from_sfen("4k4/1P7/9/2P1L4/7N1/9/9/9/K8 b 2r2b4g4s3n3l16p 1").unwrap();
    let all = texts(&state.generate_legal_moves_nowily());
    let wily = texts(&state.generate_legal_moves());
    let left_out: Vec<String> = all.iter().filter(|t| !wily.contains(t)).cloned().collect();
    // The pawn that enters the zone unpromoted, and the lance that reaches
    // the second rank unpromoted.
    assert_eq!(vec!["5d5b".to_string(), "7d7c".to_string()], left_out);
    for t in &wily {
        assert!(all.contains(t));
    }
    assert!(wily.contains(&"5d5c".to_string()));
    assert!(wily.contains(&"2e1c".to_string()));
}

#[test]
fn bishops_and_rooks_promote_in_the_wily_list() {
    let state = State::from_sfen("startpos moves 7g7f 3c3d").unwrap();
    let all = texts(&state.generate_legal_moves_nowily());
    let wily = texts(&state.generate_legal_moves());
    assert!(all.contains(&"8h2b".to_string()));
    assert!(all.contains(&"8h2b+".to_string()));
    assert!(!wily.contains(&"8h2b".to_string()));
    assert!(wily.contains(&"8h2b+".to_string()));
    assert_eq!(all.len(), wily.len() + 2);
}

#[test]
fn a_king_may_not_stay_in_check() {
    // The lance on 5i checks along the file.
    let state = State::from_sfen("4k4/9/9/9/9/9/9/9/K3L4 w 2R2B4G4S4N3L18P 1").unwrap();
    assert!(state.is_in_check());
    let moves = texts(&state.generate_legal_moves_nowily());
    assert_eq!(vec!["5a4a", "5a4b", "5a6a", "5a6b"], moves);
}

#[test]
fn a_check_may_be_blocked_by_a_drop() {
    let state = State::from_sfen("4k4/9/9/9/9/9/9/9/K3L4 w 2R2B4G4S4N3Lp17P 1").unwrap();
    let moves = texts(&state.generate_legal_moves_nowily());
    assert_eq!(
        vec!["5a4a", "5a4b", "5a6a", "5a6b", "P*5b", "P*5c", "P*5d", "P*5e", "P*5f", "P*5g", "P*5h"],
        moves
    );
}

#[test]
fn a_pinned_piece_may_not_leave_its_line() {
    // The gold on 5b stands between the king and the lance.
    let state = State::from_sfen("4k4/4g4/9/9/9/9/9/9/K3L4 w 2R2B3G4S4N3L18P 1").unwrap();
    assert!(!state.is_in_check());
    let moves = texts(&state.generate_legal_moves_nowily());
    assert!(moves.contains(&"5b5c".to_string()));
    assert!(!moves.contains(&"5b4b".to_string()));
    assert!(!moves.contains(&"5b6b".to_string()));
    assert!(!moves.contains(&"5b4c".to_string()));
    assert!(moves.contains(&"5a4a".to_string()));
}

#[test]
fn a_side_without_a_move_is_mated_or_stalemated() {
    let mated = State::from_sfen("4k4/4G4/4P4/9/9/9/9/9/K8 w 2r2b3g4s4n4l17p 1").unwrap();
    assert!(mated.is_in_check());
    assert!(mated.generate_legal_moves_nowily().is_empty());
    assert!(mated.generate_legal_moves().is_empty());
    let stalemated = State::from_sfen("6G1k/9/7G1/9/9/9/9/9/K8 w 2R2B2G4S4N4L18P 1").unwrap();
    assert!(!stalemated.is_in_check());
    assert!(stalemated.generate_legal_moves_nowily().is_empty());
    assert!(stalemated.generate_legal_moves().is_empty());
    let start = State::from_sfen("startpos").unwrap();
    assert!(!start.is_in_check());
    assert_eq!(30, start.generate_legal_moves_nowily().len());
}

#[test]
fn taking_back_restores_every_field() {
    let mut state = State::from_sfen("startpos moves 7g7f 3c3d").unwrap();
    let before = state.to_sfen();
    let position = state.get_position().to_sfen();
    let hash = state.get_hash();
    let side = state.get_side_to_move();
    for m in state.generate_legal_moves_nowily() {
        state.do_move(m);
        assert_ne!(hash, state.get_hash());
        assert_ne!(side, state.get_side_to_move());
        assert_eq!(3, state.get_ply());
        for reply in state.generate_legal_moves_nowily() {
            state.do_move(reply);
            assert_eq!(side, state.get_side_to_move());
            state.undo_move();
        }
        state.undo_move();
        assert_eq!(before, state.to_sfen());
        assert_eq!(position, state.get_position().to_sfen());
        assert_eq!(hash, state.get_hash());
        assert_eq!(side, state.get_side_to_move());
        assert_eq!(2, state.get_ply());
    }
}

#[test]
fn the_hash_kept_agrees_with_the_hash_computed() {
    let mut state = State::from_sfen("startpos").unwrap();
    assert_eq!(position_hash(&state.get_position()), state.get_hash());
    let line = ["7g7f", "3c3d", "8h2b+", "3a2b", "B*5e", "B*3c", "5e3c+", "2b3c", "2g2f", "B*5e"];
    for (i, text) in line.iter().enumerate() {
        let m = Move::from_sfen(&state, text).unwrap();
        state.do_move(m);
        assert_eq!(position_hash(&state.get_position()), state.get_hash());
        if i % 3 == 2 {
            state.undo_move();
            assert_eq!(position_hash(&state.get_position()), state.get_hash());
            state.do_move(m);
            assert_eq!(position_hash(&state.get_position()), state.get_hash());
        }
    }
    // The same position reached by another order of moves has the same hash.
    let a = State::from_sfen("startpos moves 7g7f 3c3d 2g2f 8c8d").unwrap();
    let b = State::from_sfen("startpos moves 2g2f 8c8d 7g7f 3c3d").unwrap();
    assert_eq!(a.get_hash(), b.get_hash());
    let c = State::from_sfen("startpos moves 2g2f 8c8d 7g7f").unwrap();
    assert_ne!(a.get_hash(), c.get_hash());
}

#[test]
fn the_history_is_kept_and_asked_for_by_ply() {
    let mut state = State::from_sfen("startpos").unwrap();
    assert!(matches!(state.get_history_move(0), Err(MoveGetError::OutOfIndex)));
    assert!(matches!(state.get_last_move(), Err(MoveGetError::OutOfIndex)));
    let first = Move::from_sfen(&state, "2g2f").unwrap();
    state.do_move(first);
    let second = Move::from_sfen(&state, "8c8d").unwrap();
    state.do_move(second);
    assert_eq!(first, state.get_history_move(0).unwrap());
    assert_eq!(second, state.get_history_move(1).unwrap());
    assert_eq!(second, state.get_last_move().unwrap());
    assert!(state.get_history_move(2).is_err());
    assert!(state.get_history_move(65535).is_err());
    state.undo_move();
    assert_eq!(first, state.get_last_move().unwrap());
    assert!(state.get_history_move(1).is_err());
}

#[test]
fn a_clone_is_a_state_of_its_own() {
    let mut state = State::from_sfen("startpos moves 7g7f").unwrap();
    let copy = state.clone();
    play(&mut state, &["3c3d", "8h2b+"]);
    assert_eq!(1, copy.get_ply());
    assert_eq!(3, state.get_ply());
    assert_ne!(copy.get_hash(), state.get_hash());
    let mut copy = copy;
    play(&mut copy, &["3c3d", "8h2b+"]);
    assert_eq!(copy.get_hash(), state.get_hash());
    assert_eq!(copy.to_sfen(), state.to_sfen());
}

#[test]
fn a_position_that_comes_again_is_a_repetition() {
    let mut state = State::from_sfen("startpos").unwrap();
    assert_eq!(Repetition::NO_REPETITION(), state.get_repetition());
    play(&mut state, &["5i5h", "5a5b"]);
    assert_eq!(Repetition::NO_REPETITION(), state.get_repetition());
    play(&mut state, &["5h5i"]);
    assert_eq!(Repetition::NO_REPETITION(), state.get_repetition());
    play(&mut state, &["5b5a"]);
    assert_eq!(Repetition::REPETITION(), state.get_repetition());
    play(&mut state, &["5i5h"]);
    assert_eq!(Repetition::REPETITION(), state.get_repetition());
    play(&mut state, &["1c1d"]);
    assert_eq!(Repetition::NO_REPETITION(), state.get_repetition());
    state.undo_move();
    assert_eq!(Repetition::REPETITION(), state.get_repetition());
}

#[test]
fn a_chase_by_checks_is_lost_by_the_chaser() {
    let mut state = State::from_sfen("7k1/9/9/9/9/9/9/9/K7R b r2b4g4s4n4l18p 1").unwrap();
    play(&mut state, &["1i2i", "2a1a", "2i1i", "1a2a"]);
    // Black, to move, gave check with every move of the round.
    assert_eq!(Repetition::LOSS_REPETITION(), state.get_repetition());
    play(&mut state, &["1i2i"]);
    // White, to move, was checked by every move of the round.
    assert_eq!(Repetition::WIN_REPETITION(), state.get_repetition());
}

#[test]
fn the_same_board_with_other_stands_is_superior_or_inferior() {
    let mut state = State::from_sfen("4k4/9/9/4g4/9/9/9/9/K8 b 2R2B3G4S4N4L18P 1").unwrap();
    play(&mut state, &["G*5e", "5d5e", "9i8i", "5e5d", "8i8h", "5a4a", "8h9i", "4a5a"]);
    // The board of the beginning, but black holds a gold less.
    assert_eq!(Repetition::INFERIOR_REPETITION(), state.get_repetition());
    play(&mut state, &["G*5e"]);
    // The board after the first move, but white holds a gold more.
    assert_eq!(Repetition::SUPERIOR_REPETITION(), state.get_repetition());
}

#[test]
fn a_win_may_be_declared_with_the_king_and_enough_in_the_zone() {
    let enough = State::from_sfen("+P+P+P+PK+P+P+P+P/RR5BB/9/9/9/9/9/9/4k4 b 4g4s4n4l10p 1").unwrap();
    assert!(enough.can_declare());
    // One point short.
    let short = State::from_sfen("+P+P+P+PK+P+P+P1/RR5BB/9/9/9/9/9/9/4k4 b 4g4s4n4l11p 1").unwrap();
    assert!(!short.can_declare());
    // Pieces held count too.
    let held = State::from_sfen("+P+P+P+PK+P+P+P1/RR5BB/9/9/9/9/9/9/4k4 b G3g4s4n4l11p 1").unwrap();
    assert!(held.can_declare());
    // Too few pieces in the zone, whatever they count.
    let few = State::from_sfen("4K4/RR5BB/+P+P+P+P1+P3/9/9/9/9/9/4k4 b 4G4S4g 1");
    assert!(few.is_err());
    let few = State::from_sfen("4K4/RR5BB/+P+P+P+P1+P3/9/9/9/9/9/4k4 b 4G4S4N4L13P 1").unwrap();
    assert!(!few.can_declare());
    // White needs a point less.
    let white = State::from_sfen("4K4/9/9/9/9/9/9/rr5bb/+p+p+p+pk+p+p+p1 w 4G4S4N4L11P 1").unwrap();
    assert!(white.can_declare());
    // Not with the king in check.
    let checked = State::from_sfen("+P+P+P+PK+P+P+P+P/RR2g2BB/9/9/9/9/9/9/4k4 b 3g4s4n4l10p 1").unwrap();
    assert!(checked.is_in_check());
    assert!(!checked.can_declare());
    assert!(!State::from_sfen("startpos").unwrap().can_declare());
}
