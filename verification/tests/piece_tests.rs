use bitchess::piece::{occupied, Piece, PieceType, Side};
use bitchess::position::Position;

#[test]
fn piece_numbers_round_trip() {
    for side in [Side::White, Side::Black] {
        for role in [PieceType::Pawn, PieceType::Rook, PieceType::Knight, PieceType::Bishop, PieceType::Queen, PieceType::King] {
            let p = Piece::new(role, side);
            assert_eq!(Piece::from_u8(p.as_u8()), p);
        }
    }
    assert_eq!(Piece::black(PieceType::Queen).as_u8(), 12);
    assert_eq!(Piece::white(PieceType::Knight).as_u8(), 2);
}

#[test]
fn piece_letters() {
    assert_eq!(Piece::white(PieceType::Knight).as_char(), 'n');
    assert_eq!(Piece::black(PieceType::Knight).as_char(), 'N');
    assert_eq!(Piece::black(PieceType::King).as_char(), 'K');
}

#[test]
fn sides() {
    assert_eq!(Side::White.opposite(), Side::Black);
    assert_eq!(Side::Black.home_y(), 7);
    assert_eq!(Side::Black.pers_y(1), 6);
    assert_eq!(Side::White.pers_y(1), 1);
    assert_eq!(PieceType::Queen.index(), 4);
    assert_eq!(PieceType::Rook.with_side(Side::Black), Piece::black(PieceType::Rook));
    assert_eq!(Piece::white(PieceType::Pawn).filter_side(Side::Black), None);
    assert_eq!(Piece::white(PieceType::Pawn).filter_side(Side::White), Some(Piece::white(PieceType::Pawn)));
}

#[test]
fn occupied_squares() {
    assert!(occupied(0x8000_0000_0000_0000, Position::from_index(63)));
    assert!(!occupied(0x8000_0000_0000_0000, Position::from_index(62)));
}
