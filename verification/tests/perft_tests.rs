use bitchess::board::SearchBoard;
use bitchess::perft::{generators_agree, perft, perft_copy, pseudo_perft};
use bitchess::perft_data::PerftData;
use bitchess::tables::init_tables;
use bitchess::zobrist::{default_seed, ZobristRandom};

fn nodes(data: &[PerftData]) -> Vec<u32> {
    data.iter().map(|d| d.nodes).collect()
}

fn run(fen: &str, depth: usize) -> (Vec<PerftData>, Vec<PerftData>) {
    let tables = init_tables().expect("the magic numbers are magic");
    let keys = ZobristRandom::seeded_init(&default_seed());
    let board = SearchBoard::from_fen(fen, &keys);
    (perft(board, depth, &tables, &keys), perft_copy(board, depth, &tables, &keys))
}

#[test]
fn start_position_counts() {
    let tables = init_tables().expect("the magic numbers are magic");
    let keys = ZobristRandom::seeded_init(&default_seed());
    let results = perft(SearchBoard::default(), 3, &tables, &keys);
    assert_eq!(nodes(&results), vec![20, 400, 8902]);
    assert_eq!(results[2].captures, 34);
    assert_eq!(results[2].castles, 0);
    assert_eq!(results[2].promotions, 0);
    assert_eq!(results[2].en_passant, 0);
}

#[test]
fn start_position_copy_counts() {
    let tables = init_tables().expect("the magic numbers are magic");
    let keys = ZobristRandom::seeded_init(&default_seed());
    let results = perft_copy(SearchBoard::default(), 3, &tables, &keys);
    assert_eq!(nodes(&results), vec![20, 400, 8902]);
}

#[test]
fn start_position_from_fen_counts() {
    let (a, b) = run("rnbqkbnr/pppppppp/8/8/8/8/PPPPPPPP/RNBQKBNR w KQkq - 0 1", 3);
    assert_eq!(nodes(&a), vec![20, 400, 8902]);
    assert_eq!(a, b);
}

#[test]
fn kiwipete_counts() {
    let (a, b) = run("r3k2r/p1ppqpb1/bn2pnp1/3PN3/1p2P3/2N2Q1p/PPPBBPPP/R3K2R w KQkq - 0 1", 2);
    assert_eq!(nodes(&a), vec![48, 2039]);
    assert_eq!(a[0].captures, 8);
    assert_eq!(a[0].castles, 2);
    assert_eq!(a[1].captures, 351);
    assert_eq!(a[1].en_passant, 1);
    assert_eq!(a[1].castles, 91);
    assert_eq!(a, b);
}

#[test]
fn sliders_reach_six_squares() {
    // A rook or queen walks at most six squares along a line; the seventh is not generated.
    let (a, _) = run("r3k2r/Pppp1ppp/1b3nbN/nP6/BBP1P3/q4N2/Pp1P2PP/R2Q1RK1 w kq - 0 1", 2);
    assert_eq!(nodes(&a), vec![6, 263]);
}

#[test]
fn pins_seen_within_six_squares() {
    // The rook on h5 stands seven squares from the king on a5, so the pawn on b5 counts as free.
    let (a, _) = run("8/2p5/3p4/KP5r/1R3p1k/8/4P1P1/8 w - - 0 1", 1);
    assert_eq!(nodes(&a), vec![15]);
}

#[test]
fn zero_depth_counts_nothing() {
    let tables = init_tables().expect("the magic numbers are magic");
    let keys = ZobristRandom::seeded_init(&default_seed());
    assert!(perft(SearchBoard::default(), 0, &tables, &keys).is_empty());
}

#[test]
fn pseudo_legal_perft_of_the_start_position() {
    let keys = ZobristRandom::seeded_init(&default_seed());
    let r = pseudo_perft(SearchBoard::default(), 3, &keys);
    assert_eq!(r.len(), 3);
    assert_eq!(r[0].nodes, 20);
    assert_eq!(r[1].nodes, 400);
    assert_eq!(r[2].nodes, 8902);
    assert_eq!(r[2].captures, 34);
    assert_eq!(r[2].checks, 12);
    assert_eq!(r[2].checkmates, 0);
    assert_eq!(r[0].checks, 0);
}

#[test]
fn pseudo_legal_moves_and_legal_moves() {
    let tables = init_tables().expect("the magic numbers are magic");
    let keys = ZobristRandom::seeded_init(&default_seed());
    assert!(generators_agree(&SearchBoard::default(), &tables, &keys));
    let kiwipete = SearchBoard::from_fen("r3k2r/p1ppqpb1/bn2pnp1/3PN3/1p2P3/2N2Q1p/PPPBBPPP/R3K2R w KQkq - 0 1", &keys);
    assert!(generators_agree(&kiwipete, &tables, &keys));
    // The rook on h5 reaches b5 only by walking seven squares, which the lookup tables do not.
    let far = SearchBoard::from_fen("8/2p5/3p4/KP5r/1R3p1k/8/4P1P1/8 w - - 0 1", &keys);
    assert!(!generators_agree(&far, &tables, &keys));
}

#[test]
fn a_mate_is_counted_as_a_check_and_a_mate() {
    let keys = ZobristRandom::seeded_init(&default_seed());
    let b = SearchBoard::from_fen("7k/8/6K1/8/8/8/8/5Q2 w - - 0 1", &keys);
    let r = pseudo_perft(b, 1, &keys);
    assert!(r[0].checkmates >= 1);
    assert!(r[0].checks >= r[0].checkmates);
}
