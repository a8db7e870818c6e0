use bitchess::board::SearchBoard;
use bitchess::hashers::{bishop_magic_hashers, rook_magic_hashers};
use bitchess::magic_bitboards::MagicMover;
use bitchess::moving::{Move, MoveType};
use bitchess::piece::{PieceType, Side};
use bitchess::position::Position;
use bitchess::search_data::{CheckPath, PinState};
use bitchess::tables::init_tables;
use bitchess::zobrist::{default_seed, ZobristRandom};

fn sq(name: &str) -> Position {
    Position::from_str(name).unwrap()
}

fn board(fen: &str) -> SearchBoard {
    SearchBoard::from_fen(fen, &ZobristRandom::seeded_init(&default_seed()))
}

#[test]
fn start_position_has_twenty_moves() {
    let tables = init_tables().unwrap();
    let b = SearchBoard::default();
    let (pin, check) = b.state.legal_data(&tables);
    assert_eq!(pin, PinState { diagonal_1: 0, diagonal_2: 0, x_aligned: 0, y_aligned: 0, can_en_passant: false });
    assert_eq!(check, CheckPath::NoCheck);
    let moves = b.find_all_moves(pin, check, false, &tables);
    assert_eq!(moves.len(), 20);
    assert_eq!(moves[0], Move::new(sq("b1"), sq("a3"), MoveType::Normal(PieceType::Knight), None));
    assert!(b.find_all_moves(pin, check, true, &tables).is_empty());
}

#[test]
fn a_check_is_found_and_blocked() {
    let tables = init_tables().unwrap();
    let b = board("4k3/8/8/8/8/8/3R4/r3K3 w - - 0 1");
    let (pin, check) = b.state.legal_data(&tables);
    assert!(check.is_check());
    // The rook on a1 checks along the first rank: a1 to d1.
    assert_eq!(check, CheckPath::Blockable(0x0f));
    let moves = b.find_all_moves(pin, check, false, &tables);
    assert!(moves.contains(&Move::new(sq("d2"), sq("d1"), MoveType::Normal(PieceType::Rook), None)));
    assert!(!moves.contains(&Move::new(sq("d2"), sq("d5"), MoveType::Normal(PieceType::Rook), None)));
    assert!(b.state.is_in_check(&tables));
}

#[test]
fn two_checks_leave_only_the_king() {
    let tables = init_tables().unwrap();
    let b = board("4k3/8/8/8/8/5n2/3R4/r3K3 w - - 0 1");
    let (pin, check) = b.state.legal_data(&tables);
    assert_eq!(check, CheckPath::Multiple);
    let moves = b.find_all_moves(pin, check, false, &tables);
    assert!(moves.iter().all(|m| m.piece_type() == PieceType::King));
}

#[test]
fn a_pinned_piece_stays_on_its_line() {
    let tables = init_tables().unwrap();
    let b = board("4k3/4r3/8/8/8/8/4R3/4K3 w - - 0 1");
    let (pin, check) = b.state.legal_data(&tables);
    assert_eq!(check, CheckPath::NoCheck);
    assert_eq!(pin.choose_relevant(sq("e2")) & sq("e7").as_mask(), sq("e7").as_mask());
    let moves = b.find_all_moves(pin, check, false, &tables);
    assert!(moves.contains(&Move::new(sq("e2"), sq("e7"), MoveType::Normal(PieceType::Rook), Some(bitchess::piece::Piece::black(PieceType::Rook)))));
    assert!(!moves.contains(&Move::new(sq("e2"), sq("d2"), MoveType::Normal(PieceType::Rook), None)));
}

#[test]
fn en_passant_is_found() {
    let tables = init_tables().unwrap();
    let b = board("4k3/8/8/3pP3/8/8/8/4K3 w - d6 0 1");
    let (pin, check) = b.state.legal_data(&tables);
    assert!(pin.can_en_passant);
    let moves = b.find_all_moves(pin, check, false, &tables);
    assert!(moves.contains(&Move::new(sq("e5"), sq("d6"), MoveType::EnPassant, None)));
    let takes = b.find_all_moves(pin, check, true, &tables);
    assert_eq!(takes, vec![Move::new(sq("e5"), sq("d6"), MoveType::EnPassant, None)]);
}

#[test]
fn en_passant_that_opens_the_rank_is_refused() {
    let tables = init_tables().unwrap();
    let b = board("8/8/8/K2pP2r/8/8/8/4k3 w - d6 0 1");
    let (pin, _) = b.state.legal_data(&tables);
    assert!(!pin.can_en_passant);
}

#[test]
fn castling_through_attack_is_refused() {
    let tables = init_tables().unwrap();
    let b = board("4k3/8/8/8/8/8/8/R3K2R w KQ - 0 1");
    let (pin, check) = b.state.legal_data(&tables);
    let moves = b.find_all_moves(pin, check, false, &tables);
    assert!(moves.contains(&Move::new(sq("e1"), sq("c1"), MoveType::LongCastle, None)));
    assert!(moves.contains(&Move::new(sq("e1"), sq("g1"), MoveType::ShortCastle, None)));
    let attacked = board("4k3/8/8/8/8/5r2/8/R3K2R w KQ - 0 1");
    let (pin, check) = attacked.state.legal_data(&tables);
    let moves = attacked.find_all_moves(pin, check, false, &tables);
    assert!(moves.contains(&Move::new(sq("e1"), sq("c1"), MoveType::LongCastle, None)));
    assert!(!moves.contains(&Move::new(sq("e1"), sq("g1"), MoveType::ShortCastle, None)));
}

#[test]
fn attacked_squares() {
    let tables = init_tables().unwrap();
    let b = SearchBoard::default();
    let by_black = b.state.get_attacked(Side::Black, &tables);
    assert_eq!(by_black & 0x0000_FF00_0000_0000, 0x0000_FF00_0000_0000);
    assert_eq!(by_black & 0x0000_0000_FFFF_FFFF, 0);
    assert!(!b.state.can_be_taken(sq("e4"), Side::Black, &tables));
    assert!(b.state.can_be_taken(sq("c3"), Side::White, &tables));
    assert!(!b.state.is_in_check(&tables));
}

#[test]
fn promotions_come_in_fours() {
    let tables = init_tables().unwrap();
    let b = board("4k3/1P6/8/8/8/8/8/4K3 w - - 0 1");
    let (pin, check) = b.state.legal_data(&tables);
    let moves = b.find_all_moves(pin, check, false, &tables);
    let promos: Vec<_> = moves.iter().filter(|m| m.from == sq("b7")).map(|m| m.move_type).collect();
    assert_eq!(
        promos,
        vec![
            MoveType::Promotion(PieceType::Queen),
            MoveType::Promotion(PieceType::Rook),
            MoveType::Promotion(PieceType::Knight),
            MoveType::Promotion(PieceType::Bishop)
        ]
    );
}

#[test]
fn pseudo_moves_of_the_start_position() {
    let b = SearchBoard::default();
    let pseudo = b.find_all_pseudo(Side::White);
    // 16 pawn moves, 4 knight moves, and steps and slides onto the side's own pieces.
    assert!(pseudo.len() >= 20);
    assert!(b.is_attacked_by(sq("f3"), Side::White));
    assert!(!b.is_attacked_by(sq("e4"), Side::White));
    assert!(b.is_attacked(sq("e1")) == false);
    assert_eq!(b.get_attacked_pseudo(Side::White) & 0xFF_0000, 0xFF_0000);
}

#[test]
fn magic_tables_are_built() {
    assert!(bitchess::magic_bitboards::test_rook_indices());
    let tables = init_tables().unwrap();
    let rook = tables.magic.get_rook(sq("a1"), 0);
    assert_eq!(rook.bitboard & sq("a7").as_mask(), sq("a7").as_mask());
    let bishop = tables.magic.get_bishop(sq("d4"), sq("f6").as_mask());
    assert_eq!(bishop.bitboard & sq("g7").as_mask(), 0);
    assert_eq!(bishop.bitboard & sq("f6").as_mask(), sq("f6").as_mask());
}

#[test]
fn hashers_that_are_not_magic_are_refused() {
    assert!(MagicMover::init(rook_magic_hashers(), bishop_magic_hashers()).is_some());
    // Every blocker set of a1 hashed to the same slot: different slides collide.
    let mut rook = rook_magic_hashers();
    rook[0].magic = 0;
    assert!(MagicMover::init(rook, bishop_magic_hashers()).is_none());
    // A mask that leaves out a square that matters.
    let mut bishop = bishop_magic_hashers();
    bishop[27].premask &= !sq("f6").as_mask();
    assert!(MagicMover::init(rook_magic_hashers(), bishop).is_none());
    // A shift of the whole word.
    let mut rook = rook_magic_hashers();
    rook[63].shift = 64;
    assert!(MagicMover::init(rook, bishop_magic_hashers()).is_none());
}
