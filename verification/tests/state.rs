use nshogi::state::State;
use nshogi::types::{Color, Move, Piece, Square};

#[test]
fn get_initial_state() {
    let result = State::from_sfen("startpos");
    assert!(result.is_ok());
}

#[test]
fn move_from_sfen() {
    let mut state = State::from_sfen("startpos").unwrap();
    let m = Move::from_sfen(&state, "2g2f").unwrap();

    // Check do_move is completed successfully.
    state.do_move(m);

    assert_eq!(
        Piece::BLACK_PAWN(),
        state.get_position().piece_on(Square::SQ_2F())
    );
}

#[test]
fn initial_state_sfen_moves() {
    let state = State::from_sfen("startpos").unwrap();

    let moves = state.generate_legal_moves();

    let sfen_moves = vec![
        "1g1f", "2g2f", "3g3f", "4g4f", "5g5f", "6g6f", "7g7f", "8g8f", "9g9f", "1i1h", "2h1h",
        "2h3h", "2h4h", "2h5h", "2h6h", "2h7h", "3i3h", "3i4h", "4i3h", "4i4h", "4i5h", "5i4h",
        "5i5h", "5i6h", "6i5h", "6i6h", "6i7h", "7i6h", "7i7h", "9i9h",
    ]
    .into_iter()
    .map(|sfen| {
        let result = Move::from_sfen(&state, sfen);
        assert!(result.is_ok());
        result.unwrap()
    });

    for m in sfen_moves {
        assert!(moves.contains(&m));
    }
}

#[test]
fn initial_position() {
    let state = State::from_sfen("startpos").unwrap();

    assert_eq!(Color::BLACK(), state.get_position().get_side_to_move());

    assert_eq!(30, state.generate_legal_moves().len());

    assert_eq!(
        Piece::WHITE_LANCE(),
        state.get_position().piece_on(Square::SQ_9A())
    );
    assert_eq!(
        Piece::WHITE_KNIGHT(),
        state.get_position().piece_on(Square::SQ_8A())
    );
    assert_eq!(
        Piece::WHITE_SILVER(),
        state.get_position().piece_on(Square::SQ_7A())
    );
    assert_eq!(
        Piece::WHITE_GOLD(),
        state.get_position().piece_on(Square::SQ_6A())
    );
    assert_eq!(
        Piece::WHITE_KING(),
        state.get_position().piece_on(Square::SQ_5A())
    );
    assert_eq!(
        Piece::WHITE_GOLD(),
        state.get_position().piece_on(Square::SQ_4A())
    );
    assert_eq!(
        Piece::WHITE_SILVER(),
        state.get_position().piece_on(Square::SQ_3A())
    );
    assert_eq!(
        Piece::WHITE_KNIGHT(),
        state.get_position().piece_on(Square::SQ_2A())
    );
    assert_eq!(
        Piece::WHITE_LANCE(),
        state.get_position().piece_on(Square::SQ_1A())
    );
    assert_eq!(Piece::EMPTY(), state.get_position().piece_on(Square::SQ_9B()));
    assert_eq!(
        Piece::WHITE_ROOK(),
        state.get_position().piece_on(Square::SQ_8B())
    );
    assert_eq!(Piece::EMPTY(), state.get_position().piece_on(Square::SQ_7B()));
    assert_eq!(Piece::EMPTY(), state.get_position().piece_on(Square::SQ_6B()));
    assert_eq!(Piece::EMPTY(), state.get_position().piece_on(Square::SQ_5B()));
    assert_eq!(Piece::EMPTY(), state.get_position().piece_on(Square::SQ_4B()));
    assert_eq!(Piece::EMPTY(), state.get_position().piece_on(Square::SQ_3B()));
    assert_eq!(
        Piece::WHITE_BISHOP(),
        state.get_position().piece_on(Square::SQ_2B())
    );
    assert_eq!(Piece::EMPTY(), state.get_position().piece_on(Square::SQ_1B()));
    assert_eq!(
        Piece::WHITE_PAWN(),
        state.get_position().piece_on(Square::SQ_9C())
    );
    assert_eq!(
        Piece::WHITE_PAWN(),
        state.get_position().piece_on(Square::SQ_8C())
    );
    assert_eq!(
        Piece::WHITE_PAWN(),
        state.get_position().piece_on(Square::SQ_7C())
    );
    assert_eq!(
        Piece::WHITE_PAWN(),
        state.get_position().piece_on(Square::SQ_6C())
    );
    assert_eq!(
        Piece::WHITE_PAWN(),
        state.get_position().piece_on(Square::SQ_5C())
    );
    assert_eq!(
        Piece::WHITE_PAWN(),
        state.get_position().piece_on(Square::SQ_4C())
    );
    assert_eq!(
        Piece::WHITE_PAWN(),
        state.get_position().piece_on(Square::SQ_3C())
    );
    assert_eq!(
        Piece::WHITE_PAWN(),
        state.get_position().piece_on(Square::SQ_2C())
    );
    assert_eq!(
        Piece::WHITE_PAWN(),
        state.get_position().piece_on(Square::SQ_1C())
    );
    assert_eq!(Piece::EMPTY(), state.get_position().piece_on(Square::SQ_9D()));
    assert_eq!(Piece::EMPTY(), state.get_position().piece_on(Square::SQ_8D()));
    assert_eq!(Piece::EMPTY(), state.get_position().piece_on(Square::SQ_7D()));
    assert_eq!(Piece::EMPTY(), state.get_position().piece_on(Square::SQ_6D()));
    assert_eq!(Piece::EMPTY(), state.get_position().piece_on(Square::SQ_5D()));
    assert_eq!(Piece::EMPTY(), state.get_position().piece_on(Square::SQ_4D()));
    assert_eq!(Piece::EMPTY(), state.get_position().piece_on(Square::SQ_3D()));
    assert_eq!(Piece::EMPTY(), state.get_position().piece_on(Square::SQ_2D()));
    assert_eq!(Piece::EMPTY(), state.get_position().piece_on(Square::SQ_1D()));
    assert_eq!(Piece::EMPTY(), state.get_position().piece_on(Square::SQ_9E()));
    assert_eq!(Piece::EMPTY(), state.get_position().piece_on(Square::SQ_8E()));
    assert_eq!(Piece::EMPTY(), state.get_position().piece_on(Square::SQ_7E()));
    assert_eq!(Piece::EMPTY(), state.get_position().piece_on(Square::SQ_6E()));
    assert_eq!(Piece::EMPTY(), state.get_position().piece_on(Square::SQ_5E()));
    assert_eq!(Piece::EMPTY(), state.get_position().piece_on(Square::SQ_4E()));
    assert_eq!(Piece::EMPTY(), state.get_position().piece_on(Square::SQ_3E()));
    assert_eq!(Piece::EMPTY(), state.get_position().piece_on(Square::SQ_2E()));
    assert_eq!(Piece::EMPTY(), state.get_position().piece_on(Square::SQ_1E()));
    assert_eq!(Piece::EMPTY(), state.get_position().piece_on(Square::SQ_9F()));
    assert_eq!(Piece::EMPTY(), state.get_position().piece_on(Square::SQ_8F()));
    assert_eq!(Piece::EMPTY(), state.get_position().piece_on(Square::SQ_7F()));
    assert_eq!(Piece::EMPTY(), state.get_position().piece_on(Square::SQ_6F()));
    assert_eq!(Piece::EMPTY(), state.get_position().piece_on(Square::SQ_5F()));
    assert_eq!(Piece::EMPTY(), state.get_position().piece_on(Square::SQ_4F()));
    assert_eq!(Piece::EMPTY(), state.get_position().piece_on(Square::SQ_3F()));
    assert_eq!(Piece::EMPTY(), state.get_position().piece_on(Square::SQ_2F()));
    assert_eq!(Piece::EMPTY(), state.get_position().piece_on(Square::SQ_1F()));
    assert_eq!(
        Piece::BLACK_PAWN(),
        state.get_position().piece_on(Square::SQ_9G())
    );
    assert_eq!(
        Piece::BLACK_PAWN(),
        state.get_position().piece_on(Square::SQ_8G())
    );
    assert_eq!(
        Piece::BLACK_PAWN(),
        state.get_position().piece_on(Square::SQ_7G())
    );
    assert_eq!(
        Piece::BLACK_PAWN(),
        state.get_position().piece_on(Square::SQ_6G())
    );
    assert_eq!(
        Piece::BLACK_PAWN(),
        state.get_position().piece_on(Square::SQ_5G())
    );
    assert_eq!(
        Piece::BLACK_PAWN(),
        state.get_position().piece_on(Square::SQ_4G())
    );
    assert_eq!(
        Piece::BLACK_PAWN(),
        state.get_position().piece_on(Square::SQ_3G())
    );
    assert_eq!(
        Piece::BLACK_PAWN(),
        state.get_position().piece_on(Square::SQ_2G())
    );
    assert_eq!(
        Piece::BLACK_PAWN(),
        state.get_position().piece_on(Square::SQ_1G())
    );
    assert_eq!(Piece::EMPTY(), state.get_position().piece_on(Square::SQ_9H()));
    assert_eq!(
        Piece::BLACK_BISHOP(),
        state.get_position().piece_on(Square::SQ_8H())
    );
    assert_eq!(Piece::EMPTY(), state.get_position().piece_on(Square::SQ_7H()));
    assert_eq!(Piece::EMPTY(), state.get_position().piece_on(Square::SQ_6H()));
    assert_eq!(Piece::EMPTY(), state.get_position().piece_on(Square::SQ_5H()));
    assert_eq!(Piece::EMPTY(), state.get_position().piece_on(Square::SQ_4H()));
    assert_eq!(Piece::EMPTY(), state.get_position().piece_on(Square::SQ_3H()));
    assert_eq!(
        Piece::BLACK_ROOK(),
        state.get_position().piece_on(Square::SQ_2H())
    );
    assert_eq!(Piece::EMPTY(), state.get_position().piece_on(Square::SQ_1H()));
    assert_eq!(
        Piece::BLACK_LANCE(),
        state.get_position().piece_on(Square::SQ_9I())
    );
    assert_eq!(
        Piece::BLACK_KNIGHT(),
        state.get_position().piece_on(Square::SQ_8I())
    );
    assert_eq!(
        Piece::BLACK_SILVER(),
        state.get_position().piece_on(Square::SQ_7I())
    );
    assert_eq!(
        Piece::BLACK_GOLD(),
        state.get_position().piece_on(Square::SQ_6I())
    );
    assert_eq!(
        Piece::BLACK_KING(),
        state.get_position().piece_on(Square::SQ_5I())
    );
    assert_eq!(
        Piece::BLACK_GOLD(),
        state.get_position().piece_on(Square::SQ_4I())
    );
    assert_eq!(
        Piece::BLACK_SILVER(),
        state.get_position().piece_on(Square::SQ_3I())
    );
    assert_eq!(
        Piece::BLACK_KNIGHT(),
        state.get_position().piece_on(Square::SQ_2I())
    );
    assert_eq!(
        Piece::BLACK_LANCE(),
        state.get_position().piece_on(Square::SQ_1I())
    );
}

#[test]
fn invalid_state() {
    let result = State::from_sfen("invalid");
    assert!(result.is_err());
}

#[test]
fn do_and_undo() {
    let result = State::from_sfen("startpos");
    assert!(result.is_ok());

    let mut state = result.unwrap();

    let moves = state.generate_legal_moves();

    for m in moves {
        // Check do and undo work correctly.
        state.do_move(m);
        state.undo_move();
    }
}

#[test]
fn perft() {
    fn brute_force(state: &mut State, limit: u32) -> u64 {
        if limit == 0 {
            1
        } else {
            let moves = state.generate_legal_moves_nowily();

            if limit == 1 {
                moves.len() as u64
            } else {
                let mut sum = 0u64;

                for m in moves {
                    state.do_move(m);
                    sum += brute_force(state, limit - 1);
                    state.undo_move();
                }

                sum
            }
        }
    }

    let mut state = State::from_sfen("startpos").unwrap();

    assert_eq!(30, brute_force(&mut state, 1));
    assert_eq!(900, brute_force(&mut state, 2));
    assert_eq!(25470, brute_force(&mut state, 3));
    assert_eq!(719731, brute_force(&mut state, 4));
    assert_eq!(19861490, brute_force(&mut state, 5));
}
