use bitchess::board::SearchBoard;
use bitchess::engine::evaluate::{eval_material, eval_score, evaluate, rate_move, Outcome};
use bitchess::engine::play::Game;
use bitchess::engine::searcher::SearchContext;
use bitchess::engine::transposition_table::{NodeType, TranspositionTable};
use bitchess::engine::weights::EvalWeights;
use bitchess::engine::{add_board_to_repetition, is_draw_repetition, who2move};
use bitchess::moving::{Move, MoveType};
use bitchess::piece::{Piece, PieceType, Side};
use bitchess::position::Position;
use bitchess::tables::init_tables;
use bitchess::zobrist::{default_seed, ZobristRandom};
use std::collections::HashMap;

const START: &str = "rnbqkbnr/pppppppp/8/8/8/8/PPPPPPPP/RNBQKBNR w KQkq - 0 1";

fn sq(name: &str) -> Position {
    Position::from_str(name).unwrap()
}

fn keys() -> ZobristRandom {
    ZobristRandom::seeded_init(&default_seed())
}

/// Conventional piece values, material only.
fn weights() -> EvalWeights {
    EvalWeights {
        pawn_value: 100,
        rook_value: 500,
        knight_value: 320,
        bishop_value: 330,
        queen_value: 900,
        king_value: 20000,
        material_weight: 1,
        positional_weight: 1,
        pawn_positional: [0; 64],
        rook_positional: [0; 64],
        knight_positional: [0; 64],
        bishop_positional: [0; 64],
        queen_positional: [0; 64],
        king_positional: [0; 64],
    }
}

fn game(fen: &str) -> Game {
    Game::from_fen(fen, init_tables().expect("the magic numbers are magic"), keys(), weights())
}

#[test]
pub fn white_mate_in_one() {
    let mut game = game("8/8/8/3K4/7k/8/6R1/5R2 w - - 0 1");
    let moves: Vec<_> = game.find_best_moves(3).unwrap();
    println!("{:#?}", moves);

    let moves: Vec<_> = moves.into_iter().map(|e| e.0).collect();

    let stockfish_move = Move::new(
        Position::from_str("f1").unwrap(),
        Position::from_str("h1").unwrap(),
        MoveType::Normal(PieceType::Rook),
        None,
    );
    assert!(moves.contains(&stockfish_move));
    let outcome = game.make_best_move(3);
    assert_eq!(outcome, Outcome::WhiteWon);
}

#[test]
pub fn black_mate_in_one() {
    let mut game = game("8/8/8/3k4/7K/8/6r1/5r2 b - - 0 1");
    let moves: Vec<_> = game.find_best_moves(3).unwrap();
    println!("{}: {}", moves[1].0.from.index, moves[1].1);

    let moves: Vec<_> = moves.into_iter().map(|e| e.0).collect();

    let stockfish_move = Move::new(
        Position::from_str("f1").unwrap(),
        Position::from_str("h1").unwrap(),
        MoveType::Normal(PieceType::Rook),
        None,
    );
    assert!(moves.contains(&stockfish_move));
    let outcome = game.make_best_move(3);
    assert_eq!(outcome, Outcome::BlackWon);
}

#[test]
fn the_mate_is_ranked_first() {
    let mut game = game("8/8/8/3K4/7k/8/6R1/5R2 w - - 0 1");
    let best = game.find_best_move(3).unwrap();
    assert_eq!(best.0, Move::new(sq("f1"), sq("h1"), MoveType::Normal(PieceType::Rook), None));
    assert_eq!(best.1, i64::MAX - 10000 + 300);
    let moves = game.find_best_moves(3).unwrap();
    for pair in moves.windows(2) {
        assert!(pair[0].1 >= pair[1].1);
    }
    assert_eq!(game.outcome(), Outcome::Ongoing);
}

#[test]
fn finished_games_stay_finished() {
    let mut game = game("8/8/8/3K4/7k/8/6R1/5R2 w - - 0 1");
    assert_eq!(game.make_best_move(2), Outcome::WhiteWon);
    assert!(game.find_best_moves(2).is_none());
    assert!(game.find_best_move(2).is_none());
    assert_eq!(game.make_best_move(2), Outcome::WhiteWon);
    let any = Move::new(sq("d5"), sq("d6"), MoveType::Normal(PieceType::King), None);
    assert_eq!(game.make_move(&any), Some(Outcome::WhiteWon));
}

#[test]
fn games_start_as_the_position_stands() {
    assert_eq!(game(START).outcome(), Outcome::Ongoing);
    assert_eq!(game("7k/5Q2/6K1/8/8/8/8/8 b - - 0 1").outcome(), Outcome::Stalemate);
    assert_eq!(game("7k/6Q1/6K1/8/8/8/8/8 b - - 0 1").outcome(), Outcome::WhiteWon);
    assert_eq!(game("4k3/8/8/8/8/8/8/4K3 w - - 50 80").outcome(), Outcome::Stalemate);
}

#[test]
fn illegal_moves_are_refused() {
    let mut game = game(START);
    let before = *game.get_board();
    let jump = Move::new(sq("e2"), sq("e5"), MoveType::Normal(PieceType::Pawn), None);
    assert_eq!(game.make_move(&jump), None);
    assert_eq!(*game.get_board(), before);
    let push = Move::new(sq("e2"), sq("e4"), MoveType::Normal(PieceType::Pawn), None);
    assert_eq!(game.make_move(&push), Some(Outcome::Ongoing));
    assert_eq!(game.get_board().state.side, Side::Black);
    assert_eq!(game.get_board().state.board.board[sq("e4").index as usize], Some(Piece::white(PieceType::Pawn)));
}

#[test]
fn third_repetition_draws() {
    let mut game = game(START);
    let out = Move::new(sq("g1"), sq("f3"), MoveType::Normal(PieceType::Knight), None);
    let back = Move::new(sq("f3"), sq("g1"), MoveType::Normal(PieceType::Knight), None);
    let out_b = Move::new(sq("g8"), sq("f6"), MoveType::Normal(PieceType::Knight), None);
    let back_b = Move::new(sq("f6"), sq("g8"), MoveType::Normal(PieceType::Knight), None);
    for _ in 0..2 {
        assert_eq!(game.outcome(), Outcome::Ongoing);
        assert_eq!(game.make_move(&out), Some(Outcome::Ongoing));
        assert_eq!(game.make_move(&out_b), Some(Outcome::Ongoing));
        assert_eq!(game.make_move(&back), Some(Outcome::Ongoing));
        assert_eq!(game.make_move(&back_b), Some(Outcome::Ongoing));
    }
    // The position after the white knight's first jump is reached for the third time.
    assert_eq!(game.make_move(&out), Some(Outcome::Stalemate));
    assert_eq!(game.outcome(), Outcome::Stalemate);
    assert_eq!(game.make_move(&out_b), Some(Outcome::Stalemate));
}

#[test]
fn repetitions_are_counted() {
    let k = keys();
    let board = SearchBoard::from_fen(START, &k);
    let mut reps: HashMap<u64, u8> = HashMap::new();
    assert!(!is_draw_repetition(&board, &reps));
    add_board_to_repetition(&mut reps, &board);
    add_board_to_repetition(&mut reps, &board);
    assert!(!is_draw_repetition(&board, &reps));
    add_board_to_repetition(&mut reps, &board);
    assert!(is_draw_repetition(&board, &reps));
    assert_eq!(reps.get(&board.state.zobrist), Some(&3));
    assert_eq!(who2move(Side::White), 1);
    assert_eq!(who2move(Side::Black), -1);
}

#[test]
fn static_evaluation() {
    let k = keys();
    let tables = init_tables().unwrap();
    let w = weights();
    let reps: HashMap<u64, u8> = HashMap::new();
    let start = SearchBoard::from_fen(START, &k);
    assert_eq!(evaluate(&start, &reps, 0, &tables, &w), 20);
    // White is a rook up and has 14 king and rook moves (a slider walks six squares at most,
    // so the rook stops at a7).
    let up = SearchBoard::from_fen("4k3/8/8/8/8/8/8/R3K3 w - - 0 1", &k);
    assert_eq!(evaluate(&up, &reps, 0, &tables, &w), 500 + 14);
    let up_black = SearchBoard::from_fen("4k3/8/8/8/8/8/8/R3K3 b - - 0 1", &k);
    assert_eq!(evaluate(&up_black, &reps, 0, &tables, &w), -500 + 5);
    let stalemate = SearchBoard::from_fen("7k/5Q2/6K1/8/8/8/8/8 b - - 0 1", &k);
    assert_eq!(evaluate(&stalemate, &reps, 0, &tables, &w), -1000);
    let mated = SearchBoard::from_fen("7k/6Q1/6K1/8/8/8/8/8 b - - 0 1", &k);
    assert_eq!(evaluate(&mated, &reps, 2, &tables, &w), -(i64::MAX - 10000 + 200));
}

#[test]
fn move_ratings() {
    let w = weights();
    let take = Move::new(sq("d4"), sq("e5"), MoveType::Normal(PieceType::Pawn), Some(Piece::black(PieceType::Queen)));
    assert_eq!(rate_move(&take, Side::White, &w), 900);
    let quiet = Move::new(sq("d2"), sq("d4"), MoveType::Normal(PieceType::Pawn), None);
    assert_eq!(rate_move(&quiet, Side::White, &w), 0);
    let promote = Move::new(sq("a7"), sq("a8"), MoveType::Promotion(PieceType::Queen), None);
    assert_eq!(rate_move(&promote, Side::White, &w), 810_000);
    let castle = Move::new(sq("e1"), sq("g1"), MoveType::ShortCastle, None);
    assert_eq!(rate_move(&castle, Side::White, &w), 20000);
    let ep = Move::new(sq("e5"), sq("d6"), MoveType::EnPassant, None);
    assert_eq!(rate_move(&ep, Side::White, &w), 1_000_000);
}

#[test]
fn a_search_below_one_move() {
    let k = keys();
    let tables = init_tables().unwrap();
    let w = weights();
    let board = SearchBoard::from_fen("8/8/8/3K4/7k/8/6R1/5R2 w - - 0 1", &k);
    let mate = Move::new(sq("f1"), sq("h1"), MoveType::Normal(PieceType::Rook), None);
    let mut ctx = SearchContext::new(board, HashMap::new(), mate, TranspositionTable::new(), &k);
    assert_eq!(ctx.board().state.side, Side::Black);
    let (m, score) = ctx.evaluate(1, 1, &tables, &k, &w);
    assert_eq!(m, mate);
    assert_eq!(score, i64::MAX - 10000 + 100);
    assert_eq!(ctx.evaluated_move, mate);
    assert_eq!(*ctx.board(), {
        let mut b = board;
        b.make(&mate, &k);
        b
    });
}

#[test]
fn stored_scores_are_found() {
    let mut tt = TranspositionTable::new();
    tt.insert(7, 40, 3, NodeType::PV);
    assert_eq!(tt.get(7, 3, -100, 100), Some(40));
    assert_eq!(tt.get(7, 4, -100, 100), None);
    assert_eq!(tt.get(8, 3, -100, 100), None);
    assert_eq!(tt.len(), 1);
}

/// Piece values and positional tables that differ from square to square.
fn uneven_weights() -> EvalWeights {
    let mut w = weights();
    for i in 0..64 {
        w.pawn_positional[i] = (i as i64) * 3 - 50;
        w.knight_positional[i] = (i as i64 % 8) * 7 - (i as i64 / 8);
        w.bishop_positional[i] = 11 - (i as i64);
        w.rook_positional[i] = (i as i64 * 13) % 17;
        w.queen_positional[i] = (i as i64 % 5) - 2;
        w.king_positional[i] = 63 - 2 * (i as i64);
    }
    w.positional_weight = 3;
    w.material_weight = 2;
    w
}

#[test]
fn swapping_colours_negates_the_scores() {
    let k = keys();
    let w = uneven_weights();
    // The second board is the first mirrored across the middle rank with the colours swapped.
    let a = SearchBoard::from_fen("r3k2r/p1ppqpb1/bn2pnp1/3PN3/1p2P3/2N2Q1p/PPPBBPPP/R3K2R w KQkq - 0 1", &k);
    let b = SearchBoard::from_fen("r3k2r/pppbbppp/2n2q1P/1P2p3/3pn3/BN2PNP1/P1PPQPB1/R3K2R b KQkq - 0 1", &k);
    assert_ne!(eval_score(&a, &w), 0);
    assert_eq!(eval_score(&b, &w), -eval_score(&a, &w));
    assert_eq!(eval_material(&b, &w), -eval_material(&a, &w));
    let start = SearchBoard::start(&k);
    assert_eq!(eval_score(&start, &w), 0);
    assert_eq!(eval_material(&start, &w), 0);
    let up = SearchBoard::from_fen("4k3/8/8/8/8/8/8/R3K3 w - - 0 1", &k);
    assert_eq!(eval_material(&up, &w), 1000);
}

#[test]
fn a_search_past_the_fifty_move_rule_scores_a_draw() {
    let k = keys();
    let tables = init_tables().unwrap();
    let w = weights();
    // The mate of `a_search_below_one_move`, but with the halfmove clock past fifty: the game
    // is drawn before the mate counts.
    let board = SearchBoard::from_fen("8/8/8/3K4/7k/8/6R1/5R2 w - - 60 1", &k);
    let mate = Move::new(sq("f1"), sq("h1"), MoveType::Normal(PieceType::Rook), None);
    let mut ctx = SearchContext::new(board, HashMap::new(), mate, TranspositionTable::new(), &k);
    assert_eq!(ctx.board().halfmove_clock, 61);
    let (m, score) = ctx.evaluate(1, 1, &tables, &k, &w);
    assert_eq!(m, mate);
    assert_eq!(score, 1000);
    let mut shallow = SearchContext::new(board, HashMap::new(), mate, TranspositionTable::new(), &k);
    let (_, score0) = shallow.evaluate(0, 0, &tables, &k, &w);
    assert_eq!(score0, 1000);
}

#[test]
fn a_search_without_a_depth_runs_until_the_game_ends() {
    let k = keys();
    let tables = init_tables().unwrap();
    let w = weights();
    // A negative depth never reaches the leaves: each line is searched until the game ends,
    // here by the fifty-move rule right after black's answer.
    let board = SearchBoard::from_fen("7k/8/8/8/8/8/8/R3K3 w - - 48 1", &k);
    let step = Move::new(sq("e1"), sq("d1"), MoveType::Normal(PieceType::King), None);
    let mut ctx = SearchContext::new(board, HashMap::new(), step, TranspositionTable::new(), &k);
    assert_eq!(ctx.board().halfmove_clock, 49);
    let (m, score) = ctx.evaluate(-1, -1, &tables, &k, &w);
    assert_eq!(m, step);
    assert_eq!(score, -1000);
}
