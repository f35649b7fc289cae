use nshogi::io::ToSfen;
use nshogi::state::State;
use nshogi::types::{Color, Move, Piece, PieceType, SfenParseError, Square};

const START: &str = "lnsgkgsnl/1r5b1/ppppppppp/9/9/9/PPPPPPPPP/1B5R1/LNSGKGSNL b - 1";

#[test]
fn the_starting_position_is_written_in_full() {
    let state = State::from_sfen("startpos").unwrap();
    assert_eq!(START, state.to_sfen());
    assert_eq!(START, state.get_position().to_sfen());
    assert_eq!(START, state.get_initial_position().to_sfen());
}

#[test]
fn a_move_is_appended_to_the_starting_layout() {
    let mut state = State::from_sfen("startpos").unwrap();
    let m = Move::from_sfen(&state, "2g2f").unwrap();
    state.do_move(m);
    assert_eq!(format!("{} moves 2g2f", START), state.to_sfen());
    assert_eq!(
        "lnsgkgsnl/1r5b1/ppppppppp/9/9/7P1/PPPPPPP1P/1B5R1/LNSGKGSNL w - 1",
        state.get_position().to_sfen()
    );
    assert_eq!(START, state.get_initial_position().to_sfen());
}

#[test]
fn every_first_move_round_trips() {
    let state = State::from_sfen("startpos").unwrap();
    for m in state.generate_legal_moves_nowily() {
        let mut next = state.clone();
        next.do_move(m);
        let text = next.to_sfen();
        assert_eq!(format!("{} moves {}", START, m.to_sfen()), text);
        let again = State::from_sfen(&text).unwrap();
        assert_eq!(text, again.to_sfen());
        assert_eq!(next.get_hash(), again.get_hash());
        assert_eq!(1, again.get_ply());
        assert_eq!(m, again.get_last_move().unwrap());
    }
}

#[test]
fn a_game_given_with_moves_is_played() {
    let state = State::from_sfen("startpos moves 7g7f 3c3d 8h2b+ 3a2b").unwrap();
    assert_eq!(4, state.get_ply());
    assert_eq!(Color::BLACK(), state.get_side_to_move());
    assert_eq!(format!("{} moves 7g7f 3c3d 8h2b+ 3a2b", START), state.to_sfen());
    assert_eq!(
        "lnsgkg1nl/1r5s1/pppppp1pp/6p2/9/2P6/PP1PPPPPP/7R1/LNSGKGSNL b Bb 1",
        state.get_position().to_sfen()
    );
    let pos = state.get_position();
    assert_eq!(1, pos.get_stand_count(Color::BLACK(), PieceType::BISHOP()));
    assert_eq!(1, pos.get_stand_count(Color::WHITE(), PieceType::BISHOP()));
    assert_eq!(0, pos.get_stand_count(Color::BLACK(), PieceType::PAWN()));
    assert_eq!(0, pos.get_stand_count(Color::NO_COLOR(), PieceType::BISHOP()));
    assert_eq!(0, pos.get_stand_count(Color::BLACK(), PieceType::KING()));
    assert_eq!(Piece::WHITE_SILVER(), pos.piece_on(Square::SQ_2B()));
    assert_eq!(Piece::EMPTY(), pos.piece_on(Square::SQ_8H()));
    assert_eq!(Piece::EMPTY(), pos.piece_on(Square::SQ_INVALID()));
    let initial = state.get_initial_position();
    assert_eq!(Piece::BLACK_BISHOP(), initial.piece_on(Square::SQ_8H()));
}

#[test]
fn a_position_with_stands_round_trips() {
    for text in [
        "9/9/4k4/9/4P4/9/9/9/K8 b 3G2r2bg4s4n4l17p 1",
        "kgsnlbrp1/+s+n+l+p5/5+P+L+N+S/1PRBLNSGK/9/9/9/9/9 b G7Pg7p 1",
        "4k4/9/9/9/9/9/9/9/4K4 w 2R2B4G4S4N4L18P 1",
        "4k4/9/9/9/9/9/9/9/4K4 b 2r2b4g4s4n4l18p 1",
        "lnsgkg1nl/1r5s1/pppppp1pp/6p2/9/2P6/PP1PPPPPP/7R1/LNSGKGSNL b Bb 1",
    ] {
        let state = State::from_sfen(text).unwrap();
        assert_eq!(text, state.to_sfen());
        assert_eq!(text, state.get_position().to_sfen());
        assert_eq!(0, state.get_ply());
    }
}

#[test]
fn stands_are_read_in_any_order_and_written_in_one() {
    let state = State::from_sfen("9/9/4k4/9/4P4/9/9/9/K8 b GGG17p4l4n4sg2b2r 7").unwrap();
    assert_eq!("9/9/4k4/9/4P4/9/9/9/K8 b 3G2r2bg4s4n4l17p 1", state.to_sfen());
    let pos = state.get_position();
    assert_eq!(3, pos.get_stand_count(Color::BLACK(), PieceType::GOLD()));
    assert_eq!(17, pos.get_stand_count(Color::WHITE(), PieceType::PAWN()));
    assert_eq!(Color::BLACK(), pos.get_side_to_move());
}

#[test]
fn the_promoted_pieces_are_read() {
    let state =
        State::from_sfen("kgsnlbrp1/+s+n+l+p5/5+P+L+N+S/1PRBLNSGK/9/9/9/9/9 b G7Pg7p 1").unwrap();
    let pos = state.get_position();
    assert_eq!(Piece::WHITE_KING(), pos.piece_on(Square::SQ_9A()));
    assert_eq!(Piece::WHITE_PRO_SILVER(), pos.piece_on(Square::SQ_9B()));
    assert_eq!(Piece::WHITE_PRO_PAWN(), pos.piece_on(Square::SQ_6B()));
    assert_eq!(Piece::BLACK_PRO_PAWN(), pos.piece_on(Square::SQ_4C()));
    assert_eq!(Piece::BLACK_PRO_SILVER(), pos.piece_on(Square::SQ_1C()));
    assert_eq!(Piece::BLACK_KING(), pos.piece_on(Square::SQ_1D()));
    assert_eq!(Piece::BLACK_ROOK(), pos.piece_on(Square::SQ_7D()));
    assert_eq!(Piece::WHITE_PAWN(), pos.piece_on(Square::SQ_2A()));
    assert_eq!(7, pos.get_stand_count(Color::BLACK(), PieceType::PAWN()));
    assert_eq!(1, pos.get_stand_count(Color::WHITE(), PieceType::GOLD()));
}

#[test]
fn texts_that_are_no_position_are_errors() {
    for text in [
        "",
        "invalid",
        "startpo",
        "startposx",
        "startpos ",
        "startpos moves ",
        "startpos  moves 7g7f",
        "startpos moves 7g7f ",
        "startpos moves 7g7e",
        "startpos moves 7g7f 7f7e",
        "startpos move 7g7f",
        "lnsgkgsnl/1r5b1/ppppppppp/9/9/9/PPPPPPPPP/1B5R1/LNSGKGSNL b -",
        "lnsgkgsnl/1r5b1/ppppppppp/9/9/9/PPPPPPPPP/1B5R1/LNSGKGSNL b - x",
        "lnsgkgsnl/1r5b1/ppppppppp/9/9/9/PPPPPPPPP/1B5R1/LNSGKGSNL x - 1",
        "lnsgkgsnl/1r5b1/ppppppppp/9/9/9/PPPPPPPPP/1B5R1/LNSGKGSNL b  1",
        "lnsgkgsnl/1r5b1/ppppppppp/9/9/9/PPPPPPPPP/1B5R1 b - 1",
        "lnsgkgsnl/1r5b1/ppppppppp/9/9/9/PPPPPPPPP/1B5R1/LNSGKGSNL/9 b - 1",
        "lnsgkgsnl/1r5b1/ppppppppp/9/9/9/PPPPPPPPP/1B5R1/LNSGKGSN b - 1",
        "lnsgkgsnl/1r5b1/ppppppppp/9/9/9/PPPPPPPPP/1B5R1/LNSGKGSNLL b - 1",
        "lnsgkgsnl/1r5b1/ppppppppp/9/9/9/PPPPPPPPP/1B5R1/LNSGKGSNL b P 1",
        "lnsgkgsnl/1r5b1/ppppppppp/9/9/9/PPPPPPPPP/1B5R1/LNSG1GSNL b - 1",
        "lnsgkgsnl/1r5b1/ppppppppp/9/9/9/PPPPPPPPP/1B5R1/LNSGKGSNK b - 1",
        "lnsgkgsnl/1r5b1/ppppppppp/9/9/9/PPPPPPPPP/1B5R1/LNS+GKGSNL b - 1",
        "lnsgkgsnl/1r5b1/ppppppppp/9/9/9/PPPPPPPPP/1B5R1/LNSGKGSNX b - 1",
        "lnsgkgsnl/1r5b1/ppppppppp/0/9/9/PPPPPPPPP/1B5R1/LNSGKGSNL b - 1",
        "9/9/4k4/9/4P4/9/9/9/K8 b 3G2r2bg4s4n4l16p 1",
        "9/9/4k4/9/4P4/9/9/9/K8 b 3G2r2bg4s4n4l19p 1",
        "9/9/4k4/9/4P4/9/9/9/K8 b 3G2r2bg4s4n4l17pk 1",
        "9/9/4k4/9/4P4/9/9/9/K8 b 3G2r2bg4s4n4l017p 1",
    ] {
        match State::from_sfen(text) {
            Err(SfenParseError::RuntimeError(_)) => {}
            Err(SfenParseError::InternalError(_)) => panic!("an internal error for {:?}", text),
            Ok(_) => panic!("{:?} was read", text),
        }
    }
}

#[test]
fn the_word_for_moves_may_stand_alone() {
    let state = State::from_sfen("startpos moves").unwrap();
    assert_eq!(0, state.get_ply());
    assert_eq!(START, state.to_sfen());
}

#[test]
fn texts_that_are_no_legal_move_are_errors() {
    let state = State::from_sfen("startpos").unwrap();
    for text in ["", "2g", "2g2", "2g2e", "2g2f+", "2f2e", "5a5b", "P*5e", "2g2fx", "2g2f ", "0g0f", "2j2f", "none", "win", "G*5e+"] {
        match Move::from_sfen(&state, text) {
            Err(SfenParseError::RuntimeError(_)) => {}
            Err(SfenParseError::InternalError(_)) => panic!("an internal error for {:?}", text),
            Ok(_) => panic!("{:?} was read", text),
        }
    }
    for m in state.generate_legal_moves_nowily() {
        assert_eq!(m, Move::from_sfen(&state, &m.to_sfen()).unwrap());
    }
}
