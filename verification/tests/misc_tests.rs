use bitchess::board::BoardState;
use bitchess::engine::evaluate::Outcome;
use bitchess::engine::incremental_rating::IncrementalRating;
use bitchess::moving::{Move, MoveType};
use bitchess::perft_data::PerftData;
use bitchess::piece::{Piece, PieceType, Side};
use bitchess::position::Position;

fn sq(name: &str) -> Position {
    Position::from_str(name).unwrap()
}

#[test]
fn perft_data_counts_kinds() {
    let mut d = PerftData::new();
    d.add_normal(Move::new(sq("e5"), sq("d6"), MoveType::EnPassant, None));
    d.add_normal(Move::new(sq("e1"), sq("g1"), MoveType::ShortCastle, None));
    d.add_normal(Move::new(sq("a7"), sq("b8"), MoveType::Promotion(PieceType::Queen), Some(Piece::black(PieceType::Rook))));
    d.add_check();
    d.add_checkmate();
    assert_eq!(d.nodes, 3);
    assert_eq!(d.captures, 2);
    assert_eq!(d.en_passant, 1);
    assert_eq!(d.castles, 1);
    assert_eq!(d.promotions, 1);
    assert_eq!(d.checks, 2);
    assert_eq!(d.checkmates, 1);
}

#[test]
fn outcomes() {
    assert!(!Outcome::Ongoing.is_game_over());
    assert!(Outcome::WhiteWon.is_game_over());
    assert!(Outcome::BlackWon.is_game_over());
    assert!(Outcome::Stalemate.is_game_over());
}

#[test]
fn incremental_ratings() {
    let mut r = IncrementalRating::default();
    r.set_material(Side::White, 39);
    r.set_material(Side::Black, -30);
    r.set_positional(Side::White, 5);
    assert_eq!(r.material(Side::White), 39);
    assert_eq!(r.positional(Side::Black), 0);
    assert_eq!(r.sum(), 14);
    let before = r;
    let mut delta = IncrementalRating::default();
    delta.set_positional(Side::Black, -7);
    r.add_mut(&delta);
    assert_eq!(r.positional(Side::Black), -7);
    r.sub_mut(&delta);
    assert_eq!(r, before);
}

#[test]
fn incremental_rating_operators() {
    let mut a = IncrementalRating::default();
    a.set_material(Side::White, 900);
    a.set_positional(Side::Black, -12);
    let mut b = IncrementalRating::default();
    b.set_material(Side::White, -100);
    b.set_material(Side::Black, 320);
    let c = a + b;
    assert_eq!(c.material(Side::White), 800);
    assert_eq!(c.material(Side::Black), 320);
    assert_eq!(c.positional(Side::Black), -12);
    assert_eq!(c.sum(), 1108);
    let d = c - b;
    assert_eq!(d, a);
    let e = a - a;
    assert_eq!(e, IncrementalRating::default());
}

#[test]
fn texts_of_pieces_squares_and_moves() {
    assert_eq!(Piece::white(PieceType::Queen).to_string(), "q");
    assert_eq!(Piece::black(PieceType::Knight).to_string(), "N");
    assert_eq!(sq("a1").to_string(), "a1");
    assert_eq!(sq("h8").to_string(), "h8");
    assert_eq!(Position::from_str(&sq("e4").to_string()), Some(sq("e4")));
    let quiet = Move::new(sq("g1"), sq("f3"), MoveType::Normal(PieceType::Knight), None);
    assert_eq!(quiet.to_string(), "Ng1f3");
    let push = Move::new(sq("e2"), sq("e4"), MoveType::Normal(PieceType::Pawn), None);
    assert_eq!(push.to_string(), "e2e4");
    let take = Move::new(sq("d4"), sq("e5"), MoveType::Normal(PieceType::Pawn), Some(Piece::black(PieceType::Bishop)));
    assert_eq!(take.to_string(), "d4xBe5");
    let promote = Move::new(sq("a7"), sq("b8"), MoveType::Promotion(PieceType::Queen), Some(Piece::black(PieceType::Rook)));
    assert_eq!(promote.to_string(), "a7xRb8=Q");
    assert_eq!(Move::new(sq("e1"), sq("g1"), MoveType::ShortCastle, None).to_string(), "O-O");
    assert_eq!(Move::new(sq("e8"), sq("c8"), MoveType::LongCastle, None).to_string(), "O-O-O");
    let ep = Move::new(sq("e5"), sq("d6"), MoveType::EnPassant, None);
    assert_eq!(ep.to_string(), "e5d6");
}

#[test]
fn board_diagram() {
    let b = BoardState::default();
    assert_eq!(
        b.to_string(),
        "\nRNBQKBNR\nPPPPPPPP\n        \n        \n        \n        \npppppppp\nrnbqkbnr"
    );
}

#[test]
fn move_keys() {
    let quiet = Move::new(sq("g1"), sq("f3"), MoveType::Normal(PieceType::Knight), None);
    assert_eq!(quiet.hash_key(), 2 << 8 | 6 << 16 | 21 << 24);
    let take = Move::new(sq("d4"), sq("e5"), MoveType::Normal(PieceType::Pawn), Some(Piece::black(PieceType::Bishop)));
    assert_eq!(take.hash_key(), 27 << 16 | 36 << 24 | 247u64 << 32 | 3u64 << 40);
    let take_white_pawn = Move::new(sq("d5"), sq("e4"), MoveType::Normal(PieceType::Pawn), Some(Piece::white(PieceType::Pawn)));
    let push = Move::new(sq("d5"), sq("e4"), MoveType::Normal(PieceType::Pawn), None);
    assert_ne!(take_white_pawn.hash_key(), push.hash_key());
    let promote = Move::new(sq("a7"), sq("a8"), MoveType::Promotion(PieceType::Queen), None);
    assert_eq!(promote.hash_key(), 1 | 4 << 8 | 48 << 16 | 56 << 24);
    let castle = Move::new(sq("e1"), sq("g1"), MoveType::ShortCastle, None);
    assert_eq!(castle.hash_key(), 3 | 4 << 16 | 6 << 24);
}

#[test]
fn squares_from_numbers() {
    assert_eq!(Position::try_from(63u8), Ok(sq("h8")));
    assert_eq!(Position::try_from(64u8), Err(()));
    assert_eq!(Position::try_from((4u8, 3u8)), Ok(sq("e4")));
    assert_eq!(Position::try_from((8u8, 0u8)), Err(()));
    assert_eq!(Position::try_from((0u8, 8u8)), Err(()));
}

#[test]
fn uci_move_texts() {
    let push = Move::new(sq("e2"), sq("e4"), MoveType::Normal(PieceType::Pawn), None);
    assert_eq!(push.uci_text(), "e2e4");
    let promote = Move::new(sq("a7"), sq("b8"), MoveType::Promotion(PieceType::Knight), Some(Piece::black(PieceType::Rook)));
    assert_eq!(promote.uci_text(), "a7b8n");
    let castle = Move::new(sq("e8"), sq("c8"), MoveType::LongCastle, None);
    assert_eq!(castle.uci_text(), "e8c8");
}
