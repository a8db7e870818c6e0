use bitchess::board::{BoardState, SearchBoard};
use bitchess::moving::{Move, MoveType, Unmove};
use bitchess::piece::{Piece, PieceType, Side};
use bitchess::position::Position;
use bitchess::zobrist::{default_seed, ZobristRandom};

const START: &str = "rnbqkbnr/pppppppp/8/8/8/8/PPPPPPPP/RNBQKBNR w KQkq - 0 1";

fn sq(name: &str) -> Position {
    Position::from_str(name).unwrap()
}

fn keys() -> ZobristRandom {
    ZobristRandom::seeded_init(&default_seed())
}

#[test]
fn start_fen_is_the_default_board() {
    let k = keys();
    assert_eq!(SearchBoard::from_fen(START, &k), SearchBoard::default());
    assert_eq!(BoardState::from_fen(START, &k), BoardState::default());
    assert_eq!(SearchBoard::from_fen(START, &k), SearchBoard::start(&k));
    assert_eq!(BoardState::from_fen(START, &k), BoardState::start(&k));
    let other = ZobristRandom::seeded_init(&[7u8; 32]);
    let s = SearchBoard::start(&other);
    assert_eq!(s, SearchBoard::from_fen(START, &other));
    let mut full = s.state;
    other.hash_board(&mut full);
    assert_eq!(full.zobrist, s.state.zobrist);
}

#[test]
fn keys_are_placed_in_field_order() {
    let draws: Vec<u64> = (0..837u64).map(|i| i * 3 + 1).collect();
    let k = ZobristRandom::from_draws(&draws);
    assert_eq!(k.piece_boards[0][0], 1);
    assert_eq!(k.piece_boards[2][5], (64 * 2 + 5) * 3 + 1);
    assert_eq!(k.piece_boards[11][63], 767 * 3 + 1);
    assert_eq!(k.en_passant_squares[0], 768 * 3 + 1);
    assert_eq!(k.en_passant_squares[63], 831 * 3 + 1);
    assert_eq!(k.black_castle_rights, [832 * 3 + 1, 833 * 3 + 1]);
    assert_eq!(k.white_castle_rights, [834 * 3 + 1, 835 * 3 + 1]);
    assert_eq!(k.black, 836 * 3 + 1);
}

#[test]
fn fen_fields_are_read() {
    let k = keys();
    let b = SearchBoard::from_fen("4k3/8/8/3pP3/8/8/8/4K2R w K d6 17 40", &k);
    assert_eq!(b.state.side, Side::White);
    assert_eq!(b.state.en_passant_square, Some(sq("d6")));
    assert_eq!(b.state.white_castling, (false, true));
    assert_eq!(b.state.black_castling, (false, false));
    assert_eq!(b.halfmove_clock, 17);
    assert_eq!(b.state.white_king, sq("e1"));
    assert_eq!(b.state.black_king, sq("e8"));
    assert_eq!(b.state.get_piece_at(sq("h1")), Some(Piece::white(PieceType::Rook)));
    assert_eq!(b.state.get_piece_at(sq("d5")), Some(Piece::black(PieceType::Pawn)));
}

#[test]
fn bad_fens_are_refused() {
    let k = keys();
    assert!(BoardState::try_from_fen("", &k).is_none());
    assert!(BoardState::try_from_fen("8/8/8/8/8/8/8/8 w - - 0 1", &k).is_none());
    assert!(BoardState::try_from_fen("4k3/8/8/8/8/8/8/4K3 x - - 0 1", &k).is_none());
    assert!(SearchBoard::try_from_fen("4k3/8/8/8/8/8/8/4K3 w - - 300 1", &k).is_none());
    assert!(SearchBoard::try_from_fen("4k3/8/8/8/8/8/8/4K3 w - - 0 1", &k).is_some());
}

#[test]
fn make_then_unmake_restores_the_board() {
    let k = keys();
    let mut board = SearchBoard::default();
    let before = board;
    let mov = Move::new(sq("e2"), sq("e4"), MoveType::Normal(PieceType::Pawn), None);
    let unmove = Unmove::new(&mov, &board);
    board.make(&mov, &k);
    assert_eq!(board.state.side, Side::Black);
    assert_eq!(board.state.en_passant_square, Some(sq("e3")));
    assert_eq!(board.state.get_piece_at(sq("e4")), Some(Piece::white(PieceType::Pawn)));
    assert_eq!(board.state.get_piece_at(sq("e2")), None);
    assert_eq!(board.halfmove_clock, 0);
    board.unmake(unmove);
    assert_eq!(board, before);
}

#[test]
fn castling_moves_the_rook() {
    let k = keys();
    let mut board = SearchBoard::from_fen("r3k2r/8/8/8/8/8/8/R3K2R w KQkq - 3 1", &k);
    let before = board;
    let mov = Move::new(sq("e1"), sq("g1"), MoveType::ShortCastle, None);
    let unmove = Unmove::new(&mov, &board);
    board.make(&mov, &k);
    assert_eq!(board.state.get_piece_at(sq("f1")), Some(Piece::white(PieceType::Rook)));
    assert_eq!(board.state.get_piece_at(sq("h1")), None);
    assert_eq!(board.state.white_king, sq("g1"));
    assert_eq!(board.state.white_castling, (false, false));
    assert_eq!(board.state.black_castling, (true, true));
    assert_eq!(board.halfmove_clock, 4);
    board.unmake(unmove);
    assert_eq!(board, before);
}

#[test]
fn en_passant_takes_the_pawn_beside() {
    let k = keys();
    let mut board = SearchBoard::from_fen("4k3/8/8/3pP3/8/8/8/4K3 w - d6 0 1", &k);
    let before = board;
    let mov = Move::from_string(&board.state, "e5 d6").unwrap();
    assert_eq!(mov, Move::new(sq("e5"), sq("d6"), MoveType::EnPassant, None));
    let unmove = Unmove::new(&mov, &board);
    board.make(&mov, &k);
    assert_eq!(board.state.get_piece_at(sq("d5")), None);
    assert_eq!(board.state.get_piece_at(sq("d6")), Some(Piece::white(PieceType::Pawn)));
    board.unmake(unmove);
    assert_eq!(board, before);
}

#[test]
fn moves_from_strings() {
    let k = keys();
    let board = BoardState::from_fen("r3k2r/1P6/8/8/8/8/8/R3K2R w KQkq - 0 1", &k);
    assert_eq!(Move::from_string(&board, "e1 c1"), Some(Move::new(sq("e1"), sq("c1"), MoveType::LongCastle, None)));
    assert_eq!(Move::from_string(&board, "e1 g1"), Some(Move::new(sq("e1"), sq("g1"), MoveType::ShortCastle, None)));
    assert_eq!(
        Move::from_string(&board, "b7 a8"),
        Some(Move::new(sq("b7"), sq("a8"), MoveType::Promotion(PieceType::Queen), Some(Piece::black(PieceType::Rook))))
    );
    assert_eq!(Move::from_string(&board, "b7 c8"), None);
    assert_eq!(Move::from_string(&board, "a1 a5"), Some(Move::new(sq("a1"), sq("a5"), MoveType::Normal(PieceType::Rook), None)));
    assert_eq!(Move::from_string(&board, "c3 c4"), None);
    assert_eq!(Move::from_string(&board, "a1"), None);
    assert_eq!(Move::from_string(&board, "a1 z9"), None);
}

#[test]
fn move_parts() {
    let m = Move::new(sq("e7"), sq("e5"), MoveType::Normal(PieceType::Pawn), None);
    assert!(m.is_pawn_starter());
    assert_eq!(m.en_passant_square(), sq("e6"));
    assert_eq!(m.piece_type(), PieceType::Pawn);
    assert_eq!(m.promote_to(), None);
    let p = Move::new(sq("a7"), sq("a8"), MoveType::Promotion(PieceType::Knight), None);
    assert_eq!(p.piece_type(), PieceType::Pawn);
    assert_eq!(p.promote_to(), Some(PieceType::Knight));
    assert!(!p.is_pawn_starter());
    assert_eq!(Move::new(sq("e1"), sq("c1"), MoveType::LongCastle, None).piece_type(), PieceType::King);
}

#[test]
fn default_board_pieces() {
    let b = BoardState::default();
    assert_eq!(b.find_king(Side::White), sq("e1"));
    assert_eq!(b.find_king(Side::Black), sq("e8"));
    assert_eq!(b.get_bitboard(Piece::white(PieceType::Pawn)), 0xFF00);
    assert_eq!(b.side_bitboards(Side::Black).combined(), 0xFFFF_0000_0000_0000);
    assert_eq!(b.side_castle_rights(Side::White), (true, true));
    assert_eq!(b.side_king(Side::Black), sq("e8"));
}

#[test]
fn zobrist_hash_of_default_board() {
    let k = keys();
    let mut b = BoardState::default();
    let h = b.zobrist;
    b.zobrist = 0;
    k.hash_board(&mut b);
    assert_eq!(b.zobrist, h);
    let mut other = BoardState::default();
    other.side = Side::Black;
    k.hash_board(&mut other);
    assert_ne!(other.zobrist, h);
}

#[test]
fn quiet_moves_keep_the_full_hash() {
    let k = keys();
    let mut b = SearchBoard::from_fen(START, &k);
    let moves = [
        Move::new(sq("g1"), sq("f3"), MoveType::Normal(PieceType::Knight), None),
        Move::new(sq("g8"), sq("f6"), MoveType::Normal(PieceType::Knight), None),
        Move::new(sq("b1"), sq("c3"), MoveType::Normal(PieceType::Knight), None),
        Move::new(sq("b8"), sq("c6"), MoveType::Normal(PieceType::Knight), None),
        Move::new(sq("a1"), sq("b1"), MoveType::Normal(PieceType::Rook), None),
        Move::new(sq("h8"), sq("g8"), MoveType::Normal(PieceType::Rook), None),
        Move::new(sq("e2"), sq("e3"), MoveType::Normal(PieceType::Pawn), None),
    ];
    for m in moves {
        b.make(&m, &k);
        let mut full = b.state;
        full.zobrist = 0;
        k.hash_board(&mut full);
        assert_eq!(b.state.zobrist, full.zobrist);
    }
    assert_eq!(b.state.white_castling, (false, true));
    assert_eq!(b.state.black_castling, (true, false));
}

fn squares_agree(b: &BoardState) -> bool {
    let kinds = [PieceType::Pawn, PieceType::Rook, PieceType::Knight, PieceType::Bishop, PieceType::Queen, PieceType::King];
    for i in 0..64u8 {
        for side in [Side::White, Side::Black] {
            for kind in kinds {
                let piece = if side == Side::White { Piece::white(kind) } else { Piece::black(kind) };
                let set = b.get_bitboard(piece) & (1u64 << i) != 0;
                if set != (b.board.board[i as usize] == Some(piece)) {
                    return false;
                }
            }
        }
    }
    b.board.board[b.white_king.index as usize] == Some(Piece::white(PieceType::King))
        && b.board.board[b.black_king.index as usize] == Some(Piece::black(PieceType::King))
}

#[test]
fn legal_moves_keep_the_board_consistent_and_unmake_restores_it() {
    let k = keys();
    let tables = bitchess::tables::init_tables().unwrap();
    for fen in [START, "r3k2r/p1ppqpb1/bn2pnp1/3PN3/1p2P3/2N2Q1p/PPPBBPPP/R3K2R w KQkq - 0 1",
        "rnbqkbnr/ppp1p1pp/8/3pPp2/8/8/PPPP1PPP/RNBQKBNR w KQkq f6 0 3", "4k3/1P6/8/8/8/8/6p1/4K2R b K - 0 1"] {
        let b = SearchBoard::from_fen(fen, &k);
        assert!(squares_agree(&b.state));
        let (pin, check) = b.state.legal_data(&tables);
        let moves = b.find_all_moves(pin, check, false, &tables);
        assert!(!moves.is_empty());
        for m in moves {
            let mut c = b;
            let unmove = Unmove::new(&m, &c);
            c.make(&m, &k);
            assert!(squares_agree(&c.state), "{:?} in {}", m, fen);
            c.unmake(unmove);
            assert_eq!(c, b);
        }
    }
}

#[test]
fn fen_kings_stand_where_they_are_recorded() {
    let k = keys();
    // Two white kings: the first from a1 on is the recorded one.
    let b = SearchBoard::from_fen("k7/8/8/8/8/8/8/K6K w - - 0 1", &k);
    assert_eq!(b.state.side_king(Side::White), sq("a1"));
    assert_eq!(b.state.side_king(Side::Black), sq("a8"));
    assert_eq!(b.state.board.board[0], Some(Piece::white(PieceType::King)));
    assert_eq!(b.state.board.board[56], Some(Piece::black(PieceType::King)));
    // Each piece on its own square: the mailbox and the bitboards agree.
    let s = SearchBoard::from_fen(START, &k);
    for i in 0..64usize {
        for side in [Side::White, Side::Black] {
            let boards = if side == Side::White { s.state.white.state } else { s.state.black.state };
            for (code, t) in [PieceType::Pawn, PieceType::Rook, PieceType::Knight, PieceType::Bishop, PieceType::Queen, PieceType::King]
                .into_iter()
                .enumerate()
            {
                let set = boards[code] & (1u64 << i) != 0;
                let here = s.state.board.board[i] == Some(Piece { side, piece_type: t });
                assert_eq!(set, here);
            }
        }
    }
}
