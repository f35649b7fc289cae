use nshogi::io::ToSfen;
use nshogi::state::State;
use nshogi::types::{Color, Move, Piece, PieceType, Repetition, Square};

#[test]
fn codes_of_colors_kinds_and_pieces() {
    assert_eq!(0, Color::BLACK().value());
    assert_eq!(1, Color::WHITE().value());
    assert_eq!(2, Color::NO_COLOR().value());
    assert_eq!(0, PieceType::EMPTY().value());
    assert_eq!(1, PieceType::PAWN().value());
    assert_eq!(7, PieceType::GOLD().value());
    assert_eq!(8, PieceType::KING().value());
    assert_eq!(9, PieceType::PRO_PAWN().value());
    assert_eq!(14, PieceType::PRO_ROOK().value());
    assert_eq!(0, Piece::EMPTY().value());
    assert_eq!(1, Piece::BLACK_PAWN().value());
    assert_eq!(14, Piece::BLACK_PRO_ROOK().value());
    assert_eq!(17, Piece::WHITE_PAWN().value());
    assert_eq!(24, Piece::WHITE_KING().value());
    assert_eq!(30, Piece::WHITE_PRO_ROOK().value());
    assert_eq!(0, Repetition::NO_REPETITION().value());
    assert_eq!(5, Repetition::INFERIOR_REPETITION().value());
    assert_ne!(Color::BLACK(), Color::WHITE());
    assert_eq!(Piece::BLACK_GOLD(), Piece::BLACK_GOLD());
}

#[test]
fn codes_of_squares() {
    assert_eq!(0, Square::SQ_1I().value());
    assert_eq!(8, Square::SQ_1A().value());
    assert_eq!(9, Square::SQ_2I().value());
    assert_eq!(12, Square::SQ_2F().value());
    assert_eq!(40, Square::SQ_5E().value());
    assert_eq!(80, Square::SQ_9A().value());
    assert_eq!(82, Square::SQ_INVALID().value());
    let all = Square::all();
    assert_eq!(81, all.len());
    for (i, sq) in all.iter().enumerate() {
        assert_eq!(i as i8, sq.value());
    }
}

#[test]
fn parts_of_a_board_move() {
    let state = State::from_sfen("startpos").unwrap();
    let m = Move::from_sfen(&state, "2g2f").unwrap();
    assert_eq!(Square::SQ_2G(), m.from());
    assert_eq!(Square::SQ_2F(), m.to());
    assert_eq!(PieceType::PAWN(), m.piece_type());
    assert_eq!(PieceType::EMPTY(), m.capture_piece_type());
    assert!(!m.is_dropping());
    assert!(!m.is_promoting());
    assert!(!m.is_none());
    assert!(!m.is_win());
    assert_eq!("2g2f", m.to_sfen());
    assert_eq!(m, Move::from_sfen(&state, "2g2f").unwrap());
    assert_ne!(m, Move::from_sfen(&state, "7g7f").unwrap());
}

#[test]
fn parts_of_a_capture_with_promotion() {
    let state = State::from_sfen("startpos moves 7g7f 3c3d").unwrap();
    let m = Move::from_sfen(&state, "8h2b+").unwrap();
    assert_eq!(Square::SQ_8H(), m.from());
    assert_eq!(Square::SQ_2B(), m.to());
    assert_eq!(PieceType::BISHOP(), m.piece_type());
    assert_eq!(PieceType::BISHOP(), m.capture_piece_type());
    assert!(m.is_promoting());
    assert!(!m.is_dropping());
    assert_eq!("8h2b+", m.to_sfen());
    let plain = Move::from_sfen(&state, "8h2b").unwrap();
    assert!(!plain.is_promoting());
    assert_ne!(m, plain);
    assert_ne!(m.value(), plain.value());
}

#[test]
fn parts_of_a_drop() {
    let state = State::from_sfen("startpos moves 7g7f 3c3d 8h2b+ 3a2b").unwrap();
    let m = Move::from_sfen(&state, "B*5e").unwrap();
    assert!(m.is_dropping());
    assert!(!m.is_promoting());
    assert_eq!(Square::SQ_INVALID(), m.from());
    assert_eq!(Square::SQ_5E(), m.to());
    assert_eq!(PieceType::BISHOP(), m.piece_type());
    assert_eq!(PieceType::EMPTY(), m.capture_piece_type());
    assert_eq!("B*5e", m.to_sfen());
}

#[test]
fn the_reserved_moves() {
    let none = Move::none();
    let win = Move::win();
    assert!(none.is_none());
    assert!(!none.is_win());
    assert!(win.is_win());
    assert!(!win.is_none());
    assert!(!win.is_dropping());
    assert_ne!(none, win);
    assert_eq!(0, none.value());
    assert_eq!("none", none.to_sfen());
    assert_eq!("win", win.to_sfen());
    let state = State::from_sfen("startpos").unwrap();
    for m in state.generate_legal_moves_nowily() {
        assert_ne!(m, none);
        assert_ne!(m, win);
    }
}
