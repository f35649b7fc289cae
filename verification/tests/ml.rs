use nshogi::ml::{feature_plane, move_to_index, FeatureType, Plane, INDEX_COUNT};
use nshogi::state::State;
use nshogi::types::{Move, Piece, Square};

fn cells_of(state: &State, feature: FeatureType) -> Vec<f32> {
    match feature_plane(state, 1024, feature) {
        Plane::Cells(cells) => cells.iter().map(|set| if *set { 1.0f32 } else { 0.0f32 }).collect(),
        _ => panic!("a plane of cells was expected"),
    }
}

fn ratio_of(state: &State, max_ply: u16, feature: FeatureType) -> (u32, u32) {
    match feature_plane(state, max_ply, feature) {
        Plane::Ratio(top, bottom) => (top, bottom),
        _ => panic!("a plane of one number was expected"),
    }
}

#[test]
pub fn make_feature_vector_color() {
    let state = State::from_sfen("startpos").unwrap();
    let feature_types = vec![FeatureType::BLACK(), FeatureType::WHITE()];

    let mut fv: Vec<f32> = Vec::new();
    for feature in &feature_types {
        fv.extend(cells_of(&state, *feature));
    }
    assert_eq!(feature_types.len() * 81, fv.len());
    assert!(fv[0..81].iter().all(|v| { *v == 1.0f32 }));
    assert!(fv[81..81 * 2].iter().all(|v| { *v == 0.0f32 }));
}

#[test]
pub fn make_feature_vector_piece() {
    let piece_and_feature_type = vec![
        (Piece::BLACK_PAWN(), FeatureType::MY_PAWN()),
        (Piece::BLACK_LANCE(), FeatureType::MY_LANCE()),
        (Piece::BLACK_KNIGHT(), FeatureType::MY_KNIGHT()),
        (Piece::BLACK_SILVER(), FeatureType::MY_SILVER()),
        (Piece::BLACK_BISHOP(), FeatureType::MY_BISHOP()),
        (Piece::BLACK_ROOK(), FeatureType::MY_ROOK()),
        (Piece::BLACK_GOLD(), FeatureType::MY_GOLD()),
        (Piece::BLACK_KING(), FeatureType::MY_KING()),
        (Piece::BLACK_PRO_PAWN(), FeatureType::MY_PRO_PAWN()),
        (Piece::BLACK_PRO_LANCE(), FeatureType::MY_PRO_LANCE()),
        (Piece::BLACK_PRO_KNIGHT(), FeatureType::MY_PRO_KNIGHT()),
        (Piece::BLACK_PRO_SILVER(), FeatureType::MY_PRO_SILVER()),
        (Piece::BLACK_PRO_BISHOP(), FeatureType::MY_PRO_BISHOP()),
        (Piece::BLACK_PRO_ROOK(), FeatureType::MY_PRO_ROOK()),
        (Piece::WHITE_PAWN(), FeatureType::OP_PAWN()),
        (Piece::WHITE_LANCE(), FeatureType::OP_LANCE()),
        (Piece::WHITE_KNIGHT(), FeatureType::OP_KNIGHT()),
        (Piece::WHITE_SILVER(), FeatureType::OP_SILVER()),
        (Piece::WHITE_BISHOP(), FeatureType::OP_BISHOP()),
        (Piece::WHITE_ROOK(), FeatureType::OP_ROOK()),
        (Piece::WHITE_GOLD(), FeatureType::OP_GOLD()),
        (Piece::WHITE_KING(), FeatureType::OP_KING()),
        (Piece::WHITE_PRO_PAWN(), FeatureType::OP_PRO_PAWN()),
        (Piece::WHITE_PRO_LANCE(), FeatureType::OP_PRO_LANCE()),
        (Piece::WHITE_PRO_KNIGHT(), FeatureType::OP_PRO_KNIGHT()),
        (Piece::WHITE_PRO_SILVER(), FeatureType::OP_PRO_SILVER()),
        (Piece::WHITE_PRO_BISHOP(), FeatureType::OP_PRO_BISHOP()),
        (Piece::WHITE_PRO_ROOK(), FeatureType::OP_PRO_ROOK()),
    ];

    let state =
        State::from_sfen("kgsnlbrp1/+s+n+l+p5/5+P+L+N+S/1PRBLNSGK/9/9/9/9/9 b G7Pg7p 1").unwrap();
    let feature_types: Vec<FeatureType> = piece_and_feature_type.iter().map(|v| v.1).collect();

    let mut fv: Vec<f32> = Vec::new();
    for feature in &feature_types {
        fv.extend(cells_of(&state, *feature));
    }
    assert_eq!(feature_types.len() * 81, fv.len());

    for (i, v) in piece_and_feature_type.iter().enumerate() {
        for sq in Square::all() {
            if state.get_position().piece_on(sq) == v.0 {
                assert_eq!(1.0f32, fv[i * 81 + sq.value() as usize]);
            } else {
                assert_eq!(0.0f32, fv[i * 81 + sq.value() as usize]);
            }
        }
    }
}

#[test]
fn codes_of_the_feature_types() {
    assert_eq!(0, FeatureType::BLACK().value());
    assert_eq!(2, FeatureType::MY_PAWN().value());
    assert_eq!(17, FeatureType::MY_ROOK_AND_PRO_ROOK().value());
    assert_eq!(34, FeatureType::MY_STAND_PAWN1().value());
    assert_eq!(62, FeatureType::MY_STAND_ROOK2().value());
    assert_eq!(92, FeatureType::CHECK().value());
    assert_eq!(107, FeatureType::OP_ATTACK().value());
}

#[test]
fn planes_of_the_side_to_move_turn_with_it() {
    let state = State::from_sfen("startpos moves 7g7f").unwrap();
    assert!(cells_of(&state, FeatureType::BLACK()).iter().all(|v| *v == 0.0));
    assert!(cells_of(&state, FeatureType::WHITE()).iter().all(|v| *v == 1.0));
    let mine = cells_of(&state, FeatureType::MY_PAWN());
    let theirs = cells_of(&state, FeatureType::OP_PAWN());
    for sq in Square::all() {
        let p = state.get_position().piece_on(sq);
        assert_eq!(p == Piece::WHITE_PAWN(), mine[sq.value() as usize] == 1.0);
        assert_eq!(p == Piece::BLACK_PAWN(), theirs[sq.value() as usize] == 1.0);
    }
    assert_eq!(1.0, theirs[Square::SQ_7F().value() as usize]);
    assert_eq!(0.0, theirs[Square::SQ_7G().value() as usize]);
}

#[test]
fn planes_of_the_stands_the_check_and_the_files() {
    let state = State::from_sfen("4k4/9/9/9/9/9/4P4/9/K3L4 w 2R2B4G4S4N3L3p14P 1").unwrap();
    let all = |f: FeatureType| cells_of(&state, f).iter().all(|v| *v == 1.0);
    let none = |f: FeatureType| cells_of(&state, f).iter().all(|v| *v == 0.0);
    // White, to move, holds three pawns; black holds fourteen and the rest.
    assert!(all(FeatureType::MY_STAND_PAWN1()));
    assert!(all(FeatureType::MY_STAND_PAWN3()));
    assert!(none(FeatureType::MY_STAND_PAWN4()));
    assert!(none(FeatureType::MY_STAND_GOLD1()));
    assert!(all(FeatureType::OP_STAND_PAWN9()));
    assert!(all(FeatureType::OP_STAND_LANCE3()));
    assert!(none(FeatureType::OP_STAND_LANCE4()));
    assert!(all(FeatureType::OP_STAND_GOLD4()));
    assert!(all(FeatureType::OP_STAND_ROOK2()));
    assert!(all(FeatureType::OP_STAND_BISHOP2()));
    assert!(none(FeatureType::CHECK()));
    assert!(none(FeatureType::RULE_DECLARE27()));
    // No pawn of white stands on any file; one of black stands on file 5.
    assert!(all(FeatureType::NO_MY_PAWN_FILE()));
    let files = cells_of(&state, FeatureType::NO_OP_PAWN_FILE());
    for sq in Square::all() {
        let on_five = sq.value() / 9 == 4;
        assert_eq!(!on_five, files[sq.value() as usize] == 1.0);
    }
    let checked = State::from_sfen("4k4/9/9/9/9/9/9/9/K3L4 w 2R2B4G4S4N3L18P 1").unwrap();
    assert!(cells_of(&checked, FeatureType::CHECK()).iter().all(|v| *v == 1.0));
    let attacked = cells_of(&checked, FeatureType::OP_ATTACK());
    assert_eq!(1.0, attacked[Square::SQ_5A().value() as usize]);
    assert_eq!(1.0, attacked[Square::SQ_5H().value() as usize]);
    assert_eq!(0.0, attacked[Square::SQ_4A().value() as usize]);
    let mine = cells_of(&checked, FeatureType::MY_ATTACK());
    assert_eq!(1.0, mine[Square::SQ_4A().value() as usize]);
    assert_eq!(0.0, mine[Square::SQ_5A().value() as usize]);
}

#[test]
fn planes_of_one_number() {
    let state = State::from_sfen("startpos moves 7g7f 3c3d 8h2b+").unwrap();
    assert_eq!((3, 512), ratio_of(&state, 512, FeatureType::PROGRESS()));
    assert_eq!((1, 512), ratio_of(&state, 512, FeatureType::PROGRESS_UNIT()));
    // White is to move: nothing of it stands in its zone or on its stand.
    assert_eq!((0, 27), ratio_of(&state, 512, FeatureType::MY_DECLARATION_SCORE()));
    // Black has its horse in its zone and a bishop on its stand.
    assert_eq!((10, 27), ratio_of(&state, 512, FeatureType::OP_DECLARATION_SCORE()));
    assert_eq!((22, 54), ratio_of(&state, 512, FeatureType::MY_PIECE_SCORE()));
    assert_eq!((32, 54), ratio_of(&state, 512, FeatureType::OP_PIECE_SCORE()));
    let start = State::from_sfen("startpos").unwrap();
    assert_eq!((0, 28), ratio_of(&start, 1, FeatureType::MY_DECLARATION_SCORE()));
    assert_eq!((27, 54), ratio_of(&start, 1, FeatureType::MY_PIECE_SCORE()));
    assert_eq!((27, 54), ratio_of(&start, 1, FeatureType::OP_PIECE_SCORE()));
    assert!(matches!(feature_plane(&start, 1, FeatureType::MY_DRAW_VALUE()), Plane::MyDraw));
    assert!(matches!(feature_plane(&start, 1, FeatureType::OP_DRAW_VALUE()), Plane::OpDraw));
}

#[test]
fn every_legal_move_has_an_index_of_its_own() {
    for text in [
        "startpos",
        "startpos moves 7g7f",
        "startpos moves 7g7f 3c3d 8h2b+ 3a2b",
        "startpos moves 7g7f 3c3d 8h2b+",
        "9/9/4k4/9/4P4/9/9/9/K8 b 3G2r2bg4s4n4l17p 1",
        "kgsnlbrp1/+s+n+l+p5/5+P+L+N+S/1PRBLNSGK/9/9/9/9/9 b G7Pg7p 1",
        "4k4/1P7/9/2P1L4/7N1/9/9/9/K8 b 2r2b4g4s3n3l16p 1",
        "4k4/9/9/9/9/9/9/9/K3L4 w 2R2B4G4S4N3Lp17P 1",
    ] {
        let state = State::from_sfen(text).unwrap();
        let moves = state.generate_legal_moves_nowily();
        let mut seen: Vec<usize> = moves.iter().map(|m| move_to_index(&state, m)).collect();
        assert!(seen.iter().all(|i| *i < INDEX_COUNT));
        seen.sort();
        seen.dedup();
        assert_eq!(moves.len(), seen.len());
    }
}

#[test]
fn indices_of_some_moves() {
    let state = State::from_sfen("startpos").unwrap();
    // A step straight ahead to 2f.
    assert_eq!(12, move_to_index(&state, &Move::from_sfen(&state, "2g2f").unwrap()));
    // The rook's slide to its left has the same plane whatever its length.
    let near = move_to_index(&state, &Move::from_sfen(&state, "2h3h").unwrap());
    let far = move_to_index(&state, &Move::from_sfen(&state, "2h7h").unwrap());
    assert_eq!(2 * 81 + 19, near);
    assert_eq!(2 * 81 + 55, far);
    let state = State::from_sfen("startpos moves 7g7f").unwrap();
    // White sees the board turned: its step ahead to 3d is a step to 7f.
    assert_eq!(57, move_to_index(&state, &Move::from_sfen(&state, "3c3d").unwrap()));
    let state = State::from_sfen("startpos moves 7g7f 3c3d").unwrap();
    let plain = move_to_index(&state, &Move::from_sfen(&state, "8h2b").unwrap());
    let promoting = move_to_index(&state, &Move::from_sfen(&state, "8h2b+").unwrap());
    assert_eq!(7 * 81 + 16, plain);
    assert_eq!(17 * 81 + 16, promoting);
    let state = State::from_sfen("startpos moves 7g7f 3c3d 8h2b+ 3a2b").unwrap();
    assert_eq!(24 * 81 + 40, move_to_index(&state, &Move::from_sfen(&state, "B*5e").unwrap()));
    assert_eq!(INDEX_COUNT, move_to_index(&state, &Move::none()));
    assert_eq!(INDEX_COUNT, move_to_index(&state, &Move::win()));
}
