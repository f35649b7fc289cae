use nshogi::bitboard::{attacks_of, Bitboard};
use nshogi::state::State;
use nshogi::types::{Color, PieceType, Square};

fn squares_of(b: &Bitboard) -> Vec<i8> {
    Square::all().into_iter().filter(|sq| b.contains(*sq)).map(|sq| sq.value()).collect()
}

fn set_of(squares: &[Square]) -> Bitboard {
    let mut b = Bitboard::empty();
    for sq in squares {
        b = b.union(&Bitboard::of_square(*sq));
    }
    b
}

#[test]
fn sets_of_squares() {
    let empty = Bitboard::empty();
    assert!(empty.is_empty());
    assert_eq!(Square::SQ_INVALID(), empty.first());
    assert!(squares_of(&empty).is_empty());
    let full = Bitboard::full();
    assert!(!full.is_empty());
    assert_eq!(81, squares_of(&full).len());
    assert_eq!(Square::SQ_1I(), full.first());
    assert!(full.complement().is_empty());
    assert_eq!(81, squares_of(&empty.complement()).len());
    assert!(!full.contains(Square::SQ_INVALID()));
    assert!(Bitboard::of_square(Square::SQ_INVALID()).is_empty());
    let a = set_of(&[Square::SQ_1I(), Square::SQ_5E(), Square::SQ_8B(), Square::SQ_9A()]);
    let b = set_of(&[Square::SQ_5E(), Square::SQ_8A(), Square::SQ_9A()]);
    assert_eq!(vec![0, 40, 70, 80], squares_of(&a));
    assert_eq!(vec![40, 71, 80], squares_of(&b));
    assert_eq!(vec![0, 40, 70, 71, 80], squares_of(&a.union(&b)));
    assert_eq!(vec![40, 80], squares_of(&a.intersection(&b)));
    assert_eq!(77, squares_of(&a.complement()).len());
    assert!(a.intersection(&a.complement()).is_empty());
    assert_eq!(Square::SQ_1I(), a.first());
    assert_eq!(Square::SQ_5E(), b.first());
    assert_eq!(Square::SQ_8B(), set_of(&[Square::SQ_8B(), Square::SQ_9A()]).first());
    assert_eq!(Square::SQ_9A(), Bitboard::of_square(Square::SQ_9A()).first());
    assert_eq!(vec![63, 64], squares_of(&set_of(&[Square::SQ_8I(), Square::SQ_8H()])));
    assert_eq!(vec![12, 40], squares_of(&Bitboard::of_square(Square::SQ_5E()).with(12)));
}

#[test]
fn attacks_of_the_stepping_pieces() {
    let none = Bitboard::empty();
    let at = Square::SQ_5E();
    let of = |kind: PieceType, color: Color| squares_of(&attacks_of(kind, color, at, &none));
    assert_eq!(vec![41], of(PieceType::PAWN(), Color::BLACK()));
    assert_eq!(vec![39], of(PieceType::PAWN(), Color::WHITE()));
    assert_eq!(vec![33, 51], of(PieceType::KNIGHT(), Color::BLACK()));
    assert_eq!(vec![29, 47], of(PieceType::KNIGHT(), Color::WHITE()));
    assert_eq!(vec![30, 32, 41, 48, 50], of(PieceType::SILVER(), Color::BLACK()));
    assert_eq!(vec![30, 32, 39, 48, 50], of(PieceType::SILVER(), Color::WHITE()));
    assert_eq!(vec![31, 32, 39, 41, 49, 50], of(PieceType::GOLD(), Color::BLACK()));
    assert_eq!(vec![30, 31, 39, 41, 48, 49], of(PieceType::GOLD(), Color::WHITE()));
    assert_eq!(vec![30, 31, 32, 39, 41, 48, 49, 50], of(PieceType::KING(), Color::BLACK()));
    for kind in [PieceType::PRO_PAWN(), PieceType::PRO_LANCE(), PieceType::PRO_KNIGHT(), PieceType::PRO_SILVER()] {
        assert_eq!(of(PieceType::GOLD(), Color::BLACK()), of(kind, Color::BLACK()));
        assert_eq!(of(PieceType::GOLD(), Color::WHITE()), of(kind, Color::WHITE()));
    }
    assert!(of(PieceType::EMPTY(), Color::BLACK()).is_empty());
    assert!(of(PieceType::KING(), Color::NO_COLOR()).is_empty());
    assert!(squares_of(&attacks_of(PieceType::KING(), Color::BLACK(), Square::SQ_INVALID(), &none)).is_empty());
    // At the edge the squares off the board are left out.
    assert_eq!(vec![1, 9, 10], squares_of(&attacks_of(PieceType::KING(), Color::BLACK(), Square::SQ_1I(), &none)));
    assert!(squares_of(&attacks_of(PieceType::PAWN(), Color::BLACK(), Square::SQ_1A(), &none)).is_empty());
    assert!(squares_of(&attacks_of(PieceType::KNIGHT(), Color::BLACK(), Square::SQ_1B(), &none)).is_empty());
}

#[test]
fn attacks_of_the_sliding_pieces() {
    let none = Bitboard::empty();
    let at = Square::SQ_5E();
    assert_eq!(
        vec![41, 42, 43, 44],
        squares_of(&attacks_of(PieceType::LANCE(), Color::BLACK(), at, &none))
    );
    assert_eq!(
        vec![36, 37, 38, 39],
        squares_of(&attacks_of(PieceType::LANCE(), Color::WHITE(), at, &none))
    );
    let rook = attacks_of(PieceType::ROOK(), Color::BLACK(), at, &none);
    assert_eq!(vec![4, 13, 22, 31, 36, 37, 38, 39, 41, 42, 43, 44, 49, 58, 67, 76], squares_of(&rook));
    let bishop = attacks_of(PieceType::BISHOP(), Color::WHITE(), at, &none);
    assert_eq!(vec![0, 8, 10, 16, 20, 24, 30, 32, 48, 50, 56, 60, 64, 70, 72, 80], squares_of(&bishop));
    assert!(rook.intersection(&bishop).is_empty());
    let dragon = attacks_of(PieceType::PRO_ROOK(), Color::BLACK(), at, &none);
    assert_eq!(20, squares_of(&dragon).len());
    let horse = attacks_of(PieceType::PRO_BISHOP(), Color::BLACK(), at, &none);
    assert_eq!(20, squares_of(&horse).len());
    assert_eq!(
        squares_of(&attacks_of(PieceType::KING(), Color::BLACK(), at, &none)),
        squares_of(&dragon.intersection(&horse))
    );
    // A slide ends on the first occupied square.
    let blockers = set_of(&[Square::SQ_5C(), Square::SQ_5G(), Square::SQ_3E(), Square::SQ_6E()]);
    let blocked = attacks_of(PieceType::ROOK(), Color::BLACK(), at, &blockers);
    assert_eq!(vec![22, 31, 38, 39, 41, 42, 49], squares_of(&blocked));
    let lance = attacks_of(PieceType::LANCE(), Color::BLACK(), at, &blockers);
    assert_eq!(vec![41, 42], squares_of(&lance));
}

#[test]
fn sets_of_a_position() {
    let state = State::from_sfen("startpos").unwrap();
    let pos = state.get_position();
    let all = pos.occupied();
    let black = pos.occupied_by(Color::BLACK());
    let white = pos.occupied_by(Color::WHITE());
    assert_eq!(40, squares_of(&all).len());
    assert_eq!(20, squares_of(&black).len());
    assert_eq!(20, squares_of(&white).len());
    assert!(black.intersection(&white).is_empty());
    assert_eq!(squares_of(&all), squares_of(&black.union(&white)));
    assert!(pos.occupied_by(Color::NO_COLOR()).is_empty());
    assert!(black.contains(Square::SQ_2G()));
    assert!(white.contains(Square::SQ_2C()));
    // The rook on 2h looks along its rank up to the knight's pawn and the
    // silver's neighbour, and along its file up to the pawn and the knight.
    assert_eq!(
        vec![1, 9, 11, 19, 28, 37, 46, 55, 64],
        squares_of(&pos.attacks_from(Square::SQ_2H()))
    );
    assert_eq!(vec![12], squares_of(&pos.attacks_from(Square::SQ_2G())));
    assert!(pos.attacks_from(Square::SQ_5E()).is_empty());
    assert!(pos.attacks_from(Square::SQ_INVALID()).is_empty());
    let by_black = pos.attacked_squares(Color::BLACK());
    let by_white = pos.attacked_squares(Color::WHITE());
    assert!(pos.attacked_squares(Color::NO_COLOR()).is_empty());
    // Every legal move goes to a square that the mover attacks.
    for m in state.generate_legal_moves_nowily() {
        assert!(by_black.contains(m.to()));
        assert!(pos.attacks_from(m.from()).contains(m.to()));
    }
    assert!(by_black.contains(Square::SQ_5F()));
    assert!(!by_black.contains(Square::SQ_5E()));
    assert!(by_white.contains(Square::SQ_5D()));
    assert_eq!(squares_of(&by_black).len(), squares_of(&by_white).len());
    for sq in Square::all() {
        let mut by_some = false;
        for from in Square::all() {
            if black.contains(from) && pos.attacks_from(from).contains(sq) {
                by_some = true;
            }
        }
        assert_eq!(by_some, by_black.contains(sq));
    }
}
