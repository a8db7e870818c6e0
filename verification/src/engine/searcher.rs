//! Alpha-beta search with a transposition table, repetition detection and a quiescence
//! search over captures.
use crate::board::SearchBoard;
use crate::engine::evaluate::{
    Outcome, board_outcome, evaluate, evaluate_outcome, move_rating, outcome_of, outcome_score, rate_move, static_score,
};
use crate::engine::sorting::{insert_by_key, sort_by_key, sort_entries};
use crate::engine::{is_draw_repetition, times_seen};
use crate::engine::transposition_table::{NodeType, TTableEntry, TranspositionTable, usable_score};
use crate::engine::weights::EvalWeights;
use crate::moving::{Move, Unmove};
use crate::perft::{after, lemma_view_injective, made, node_ok, unmake_safe};
use crate::piece::Side;
use crate::search::{checks_of, generation_check, generation_ok, moves_in, moves_valid};
use crate::tables::MoveTables;
use crate::zobrist::ZobristRandom;
use std::collections::HashMap;
use vstd::prelude::*;

verus! {

broadcast use vstd::std_specs::hash::group_hash_axioms;

/// A search's state as values: the board, how often each position was reached, the
/// transposition table and the count of searched nodes.
pub struct SearchModel {
    pub board: SearchBoard,
    pub reps: Map<u64, u8>,
    pub tt: Map<u64, TTableEntry>,
    pub nodes: u32,
}

/// A score the search can negate: above the smallest `i64`.
pub open spec fn in_range(s: int) -> bool {
    i64::MIN + 1 <= s <= i64::MAX
}

/// Every stored score can be negated.
pub open spec fn tt_ok(tt: Map<u64, TTableEntry>) -> bool {
    forall|k: u64| #[trigger] tt.contains_key(k) ==> in_range(tt[k].score as int)
}

/// Every position was reached fewer than 255 times, so one more visit can be counted.
pub open spec fn reps_ok(reps: Map<u64, u8>) -> bool {
    forall|k: u64| #[trigger] reps.contains_key(k) ==> reps[k] < 255
}

/// Two tables of visits that count every position the same.
pub open spec fn same_counts(a: Map<u64, u8>, b: Map<u64, u8>) -> bool {
    forall|k: u64| #[trigger] times_seen(a, k) == times_seen(b, k)
}

/// The stored score of position `z` that a search to `depth` in (`alpha`, `beta`) can use.
pub open spec fn tt_lookup(tt: Map<u64, TTableEntry>, z: u64, depth: i32, alpha: i64, beta: i64) -> Option<i64> {
    if tt.contains_key(z) { usable_score(tt[z], depth, alpha, beta) } else { None }
}

/// One more node, unless the count is full.
pub open spec fn counted_node(nodes: u32) -> u32 {
    if nodes < u32::MAX { (nodes + 1) as u32 } else { nodes }
}

/// The negated size of a score.
pub open spec fn neg_abs(e: i64) -> i64 {
    if e < 0 { e } else { (-e) as i64 }
}

/// The moves keyed for ordering: most promising first.
pub open spec fn keyed(ms: Seq<Move>, side: Side, w: EvalWeights) -> Seq<(i64, Move)> {
    ms.map_values(|m: Move| ((-move_rating(m, side, w)) as i64, m))
}

/// The moves in the order the search tries them: by falling rating, equal ratings in their
/// generated order.
pub open spec fn ordered(ms: Seq<Move>, side: Side, w: EvalWeights) -> Seq<Move> {
    sort_by_key(keyed(ms, side, w)).map_values(|e: (i64, Move)| e.1)
}

/// Whether the game is drawn by rule in `b`: fifty moves without capture or pawn move, or the
/// position reached for the third time.
pub open spec fn drawn_by_rule(b: SearchBoard, reps: Map<u64, u8>) -> bool {
    b.halfmove_clock >= 50 || (reps.contains_key(b.state.zobrist) && reps[b.state.zobrist] == 3)
}

/// The hashes of the positions that `reps` counts as reached.
pub open spec fn seen_keys(reps: Map<u64, u8>) -> Set<u64> {
    reps.dom().filter(|k: u64| reps[k] > 0)
}

/// How many hashes are not yet counted as reached. A line of the search stops at a position
/// reached before, so no line runs deeper than this.
pub open spec fn unseen(reps: Map<u64, u8>) -> nat {
    (0x1_0000_0000_0000_0000 - seen_keys(reps).len()) as nat
}

/// The search from a position, `depth` plies deep, in the window (`alpha`, `beta`), as
/// `inner_node` gives it with room for every line.
pub open spec fn search_node(
    m: SearchModel,
    depth: int,
    alpha: i64,
    beta: i64,
    keys: ZobristRandom,
    w: EvalWeights,
    limit: nat,
) -> (i64, SearchModel) {
    inner_node(m, depth, unseen(m.reps), alpha, beta, keys, w, limit)
}

/// The search from a position, `depth` plies deep, in the window (`alpha`, `beta`), with room
/// for lines of `fuel` more positions: a usable stored score; at depth 0 the quiescence
/// search; -1000 for a game drawn by rule; nothing to search (0) in a position that
/// `generation_ok` refuses; the outcome's negated size when the game is over; else the moves
/// in order, counting one node. A negative depth never reaches 0: its lines end only where the
/// game ends or a position repeats.
pub open spec fn inner_node(
    m: SearchModel,
    depth: int,
    fuel: nat,
    alpha: i64,
    beta: i64,
    keys: ZobristRandom,
    w: EvalWeights,
    limit: nat,
) -> (i64, SearchModel)
    decreases fuel, 1nat, 0nat,
{
    let z = m.board.state.zobrist;
    match tt_lookup(m.tt, z, depth as i32, alpha, beta) {
        Some(s) => (s, m),
        None => if depth == 0 {
            q_node(m, 0, alpha, beta, keys, w, limit)
        } else if drawn_by_rule(m.board, m.reps) {
            (-1000i64, m)
        } else if !generation_ok(m.board.state) {
            (0, m)
        } else {
            let st = m.board.state;
            let moves = ordered(moves_in(st, false), st.side, w);
            match outcome_score(board_outcome(m.board, m.reps), depth as i32) {
                Some(e) => (neg_abs(e), m),
                None => inner_moves(
                    SearchModel { nodes: counted_node(m.nodes), ..m },
                    z,
                    moves,
                    0,
                    depth,
                    fuel,
                    alpha,
                    beta,
                    (i64::MIN + 1) as i64,
                    NodeType::UpperBound,
                    keys,
                    w,
                    limit,
                ),
            }
        },
    }
}

/// What one move of a node's move loop gives: the node's result at once, or the state to go
/// on with, with the new `alpha`, best score and node kind.
pub enum Step {
    Done(i64, SearchModel),
    Next(SearchModel, i64, i64, NodeType),
}

/// One move `mov` of the move loop of the node with hash `z`: a position reached before scores
/// 0 at once; else the search below it, then the position's visit is taken back and the board
/// restored; a score at or above `beta` stores a lower bound and returns `beta`; one above
/// `alpha` raises it and makes the node exact. With no room left for a deeper position the
/// node ends with 0.
pub open spec fn inner_step(
    m: SearchModel,
    z: u64,
    mov: Move,
    depth: int,
    fuel: nat,
    alpha: i64,
    beta: i64,
    eval: i64,
    nt: NodeType,
    keys: ZobristRandom,
    w: EvalWeights,
    limit: nat,
) -> Step
    decreases fuel, 0nat, 0nat,
{
    if depth == 0 {
        Step::Done(alpha, m)
    } else {
        let b1 = after(m.board, mov, keys);
        let z1 = b1.state.zobrist;
        let c = times_seen(m.reps, z1);
        if c + 1 > 1 || fuel == 0 {
            Step::Done(0, m)
        } else {
            let (s, m2) = inner_node(
                SearchModel { board: b1, reps: m.reps.insert(z1, (c + 1) as u8), ..m },
                depth - 1,
                (fuel - 1) as nat,
                (-beta) as i64,
                (-alpha) as i64,
                keys,
                w,
                limit,
            );
            let score = (-s) as i64;
            let eval2 = if score > eval { score } else { eval };
            let m3 = SearchModel {
                board: m.board,
                reps: m2.reps.insert(z1, (times_seen(m2.reps, z1) - 1) as u8),
                tt: m2.tt,
                nodes: m2.nodes,
            };
            if eval2 >= beta {
                Step::Done(beta, SearchModel {
                    tt: m3.tt.insert(z, TTableEntry { depth: depth as i32, score: eval2, node_type: NodeType::LowerBound }),
                    ..m3
                })
            } else if alpha < eval2 {
                Step::Next(m3, eval2, eval2, NodeType::PV)
            } else {
                Step::Next(m3, alpha, eval2, nt)
            }
        }
    }
}

/// The search over the moves from index `i` on, with the best score so far `eval` and the
/// node's kind so far `nt`; at the end the best score is stored and `alpha` returned.
pub open spec fn inner_moves(
    m: SearchModel,
    z: u64,
    moves: Seq<Move>,
    i: int,
    depth: int,
    fuel: nat,
    alpha: i64,
    beta: i64,
    eval: i64,
    nt: NodeType,
    keys: ZobristRandom,
    w: EvalWeights,
    limit: nat,
) -> (i64, SearchModel)
    decreases fuel, 0nat, moves.len() - i + 1,
{
    if i < 0 || i >= moves.len() || depth == 0 {
        (alpha, SearchModel { tt: m.tt.insert(z, TTableEntry { depth: depth as i32, score: eval, node_type: nt }), ..m })
    } else {
        match inner_step(m, z, moves[i], depth, fuel, alpha, beta, eval, nt, keys, w, limit) {
            Step::Done(r, m2) => (r, m2),
            Step::Next(m2, a2, e2, nt2) => inner_moves(m2, z, moves, i + 1, depth, fuel, a2, beta, e2, nt2, keys, w, limit),
        }
    }
}

/// Whether the score of outcome `o`, `depth` plies from the leaves, can be taken: a won game
/// at most 100 plies (a black win fewer than 100) above the leaves and at most 21474836 below
/// them. Elsewhere the win's score leaves the range of `i64`.
pub open spec fn outcome_fits(o: Outcome, depth: int) -> bool {
    &&& o is WhiteWon ==> -21474836 <= depth <= 100
    &&& o is BlackWon ==> -21474836 <= depth <= 99
}

/// Whether the search of `inner_node` meets no won game whose score leaves the range of `i64`
/// and no depth below the smallest `i32`: every node it reaches, with the state it reaches it
/// in, is either searched below or ends in an outcome that `outcome_fits` at its depth.
pub open spec fn safe_node(
    m: SearchModel,
    depth: int,
    fuel: nat,
    alpha: i64,
    beta: i64,
    keys: ZobristRandom,
    w: EvalWeights,
    limit: nat,
) -> bool
    decreases fuel, 1nat, 0nat,
{
    let z = m.board.state.zobrist;
    if tt_lookup(m.tt, z, depth as i32, alpha, beta) is Some || depth == 0 || drawn_by_rule(m.board, m.reps)
        || !generation_ok(m.board.state) {
        true
    } else {
        let st = m.board.state;
        let o = board_outcome(m.board, m.reps);
        if o is Ongoing {
            safe_moves(
                SearchModel { nodes: counted_node(m.nodes), ..m },
                z,
                ordered(moves_in(st, false), st.side, w),
                0,
                depth,
                fuel,
                alpha,
                beta,
                (i64::MIN + 1) as i64,
                NodeType::UpperBound,
                keys,
                w,
                limit,
            )
        } else {
            outcome_fits(o, depth)
        }
    }
}

/// Whether the search below move `mov` of `inner_step` is safe; see `safe_node`.
pub open spec fn safe_step(
    m: SearchModel,
    mov: Move,
    depth: int,
    fuel: nat,
    alpha: i64,
    beta: i64,
    keys: ZobristRandom,
    w: EvalWeights,
    limit: nat,
) -> bool
    decreases fuel, 0nat, 0nat,
{
    if depth == 0 {
        true
    } else {
        let b1 = after(m.board, mov, keys);
        let z1 = b1.state.zobrist;
        let c = times_seen(m.reps, z1);
        c + 1 > 1 || fuel == 0 || (depth - 1 >= i32::MIN && safe_node(
            SearchModel { board: b1, reps: m.reps.insert(z1, (c + 1) as u8), ..m },
            depth - 1,
            (fuel - 1) as nat,
            (-beta) as i64,
            (-alpha) as i64,
            keys,
            w,
            limit,
        ))
    }
}

/// Whether the moves of `inner_moves` from index `i` on are searched safely, each in the state
/// the moves before it leave; see `safe_node`.
pub open spec fn safe_moves(
    m: SearchModel,
    z: u64,
    moves: Seq<Move>,
    i: int,
    depth: int,
    fuel: nat,
    alpha: i64,
    beta: i64,
    eval: i64,
    nt: NodeType,
    keys: ZobristRandom,
    w: EvalWeights,
    limit: nat,
) -> bool
    decreases fuel, 0nat, moves.len() - i + 1,
{
    if i < 0 || i >= moves.len() || depth == 0 {
        true
    } else {
        &&& safe_step(m, moves[i], depth, fuel, alpha, beta, keys, w, limit)
        &&& match inner_step(m, z, moves[i], depth, fuel, alpha, beta, eval, nt, keys, w, limit) {
            Step::Done(_, _) => true,
            Step::Next(m2, a2, e2, nt2) => safe_moves(m2, z, moves, i + 1, depth, fuel, a2, beta, e2, nt2, keys, w, limit),
        }
    }
}

/// Whether the search of `search_node` is safe; see `safe_node`.
pub open spec fn safe_search(
    m: SearchModel,
    depth: int,
    alpha: i64,
    beta: i64,
    keys: ZobristRandom,
    w: EvalWeights,
    limit: nat,
) -> bool {
    safe_node(m, depth, unseen(m.reps), alpha, beta, keys, w, limit)
}

/// A search fewer than 100 plies deep meets no won game whose score leaves the range of `i64`.
pub proof fn lemma_shallow_search_safe(
    m: SearchModel,
    depth: int,
    alpha: i64,
    beta: i64,
    keys: ZobristRandom,
    w: EvalWeights,
    limit: nat,
)
    requires
        0 <= depth <= 99,
    ensures
        safe_search(m, depth, alpha, beta, keys, w, limit),
{
    lemma_shallow_node_safe(m, depth, unseen(m.reps), alpha, beta, keys, w, limit);
}

/// A node fewer than 100 plies deep is safe with any room; see `lemma_shallow_search_safe`.
proof fn lemma_shallow_node_safe(
    m: SearchModel,
    depth: int,
    fuel: nat,
    alpha: i64,
    beta: i64,
    keys: ZobristRandom,
    w: EvalWeights,
    limit: nat,
)
    requires
        0 <= depth <= 99,
    ensures
        safe_node(m, depth, fuel, alpha, beta, keys, w, limit),
    decreases fuel, 1nat, 0nat,
{
    let z = m.board.state.zobrist;
    if !(tt_lookup(m.tt, z, depth as i32, alpha, beta) is Some || depth == 0 || drawn_by_rule(m.board, m.reps)
        || !generation_ok(m.board.state)) {
        let st = m.board.state;
        if board_outcome(m.board, m.reps) is Ongoing {
            lemma_shallow_moves_safe(
                SearchModel { nodes: counted_node(m.nodes), ..m },
                z,
                ordered(moves_in(st, false), st.side, w),
                0,
                depth,
                fuel,
                alpha,
                beta,
                (i64::MIN + 1) as i64,
                NodeType::UpperBound,
                keys,
                w,
                limit,
            );
        }
    }
}

/// The move loop of a search fewer than 100 plies deep is safe; see `lemma_shallow_search_safe`.
proof fn lemma_shallow_moves_safe(
    m: SearchModel,
    z: u64,
    moves: Seq<Move>,
    i: int,
    depth: int,
    fuel: nat,
    alpha: i64,
    beta: i64,
    eval: i64,
    nt: NodeType,
    keys: ZobristRandom,
    w: EvalWeights,
    limit: nat,
)
    requires
        0 <= depth <= 99,
    ensures
        safe_moves(m, z, moves, i, depth, fuel, alpha, beta, eval, nt, keys, w, limit),
    decreases fuel, 0nat, moves.len() - i + 1,
{
    if !(i < 0 || i >= moves.len() || depth == 0) {
        let b1 = after(m.board, moves[i], keys);
        let z1 = b1.state.zobrist;
        let c = times_seen(m.reps, z1);
        if c + 1 <= 1 && fuel > 0 {
            lemma_shallow_node_safe(
                SearchModel { board: b1, reps: m.reps.insert(z1, (c + 1) as u8), ..m },
                depth - 1,
                (fuel - 1) as nat,
                (-beta) as i64,
                (-alpha) as i64,
                keys,
                w,
                limit,
            );
        }
        assert(safe_step(m, moves[i], depth, fuel, alpha, beta, keys, w, limit));
        match inner_step(m, z, moves[i], depth, fuel, alpha, beta, eval, nt, keys, w, limit) {
            Step::Done(_, _) => {},
            Step::Next(m2, a2, e2, nt2) => {
                lemma_shallow_moves_safe(m2, z, moves, i + 1, depth, fuel, a2, beta, e2, nt2, keys, w, limit);
            },
        }
    }
}

/// Every set of hashes has at most as many members as there are `u64` values.
proof fn lemma_hash_set_bound(s: Set<u64>)
    requires
        s.finite(),
    ensures
        s.len() <= 0x1_0000_0000_0000_0000,
{
    let f = |i: int| i as u64;
    let r = vstd::set_lib::set_int_range(0, 0x1_0000_0000_0000_0000);
    vstd::set_lib::lemma_int_range(0, 0x1_0000_0000_0000_0000);
    vstd::set_lib::lemma_map_size_bound(r, r.map(f), f);
    assert forall|k: u64| s.contains(k) implies #[trigger] r.map(f).contains(k) by {
        assert(r.contains(k as int) && f(k as int) == k);
    }
    vstd::set_lib::lemma_len_subset(s, r.map(f));
}

/// Counting a first visit of `z` leaves one hash fewer unseen.
proof fn lemma_unseen_visit(reps: Map<u64, u8>, z: u64)
    requires
        reps.dom().finite(),
        times_seen(reps, z) == 0,
    ensures
        unseen(reps) > 0,
        unseen(reps.insert(z, 1u8)) == unseen(reps) - 1,
        reps.insert(z, 1u8).dom().finite(),
{
    let r2 = reps.insert(z, 1u8);
    assert(seen_keys(r2) =~= seen_keys(reps).insert(z));
    assert(!seen_keys(reps).contains(z));
    lemma_hash_set_bound(seen_keys(r2));
}

/// Tables that count every position the same leave the same hashes unseen.
proof fn lemma_unseen_same(a: Map<u64, u8>, b: Map<u64, u8>)
    requires
        same_counts(a, b),
    ensures
        unseen(a) == unseen(b),
{
    assert forall|k: u64| #[trigger] seen_keys(a).contains(k) == seen_keys(b).contains(k) by {
        assert(times_seen(a, k) == times_seen(b, k));
    }
    assert(seen_keys(a) =~= seen_keys(b));
}

/// The quiescence search `desc` plies below the main search, up to `limit`: one node counted;
/// a usable stored score; -1000 for a game drawn by rule; at the limit the static score (0
/// where `generation_ok` fails); nothing to search (0) in a position that `generation_ok`
/// refuses; the outcome's negated size when the position has no capture and that ends the
/// game by the captures-only count; else the captures in order.
pub open spec fn q_node(
    m: SearchModel,
    desc: nat,
    alpha: i64,
    beta: i64,
    keys: ZobristRandom,
    w: EvalWeights,
    limit: nat,
) -> (i64, SearchModel)
    decreases limit - desc, 1nat, 0nat,
{
    let m0 = SearchModel { nodes: counted_node(m.nodes), ..m };
    let z = m.board.state.zobrist;
    match tt_lookup(m0.tt, z, (-desc) as i32, alpha, beta) {
        Some(s) => (s, m0),
        None => if drawn_by_rule(m0.board, m0.reps) {
            (-1000i64, m0)
        } else if desc >= limit {
            if generation_ok(m0.board.state) {
                (static_score(m0.board, m0.reps, (-desc) as i32, w) as i64, m0)
            } else {
                (0, m0)
            }
        } else if !generation_ok(m0.board.state) {
            (0, m0)
        } else {
            let st = m.board.state;
            let caps = moves_in(st, true);
            let moves = ordered(caps, st.side, w);
            match outcome_score(outcome_of(m.board, caps.len() > 0, !(checks_of(st) is NoCheck), m.reps), (-desc) as i32) {
                Some(e) => (neg_abs(e), m0),
                None => q_moves(m0, z, moves, 0, desc, alpha, beta, (i64::MIN + 1) as i64, NodeType::UpperBound, keys, w, limit),
            }
        },
    }
}

/// One capture `mov` of the quiescence move loop; as `inner_step`, the search below being the
/// quiescence search one ply deeper and the stored depth `-desc`.
pub open spec fn q_step(
    m: SearchModel,
    z: u64,
    mov: Move,
    desc: nat,
    alpha: i64,
    beta: i64,
    eval: i64,
    nt: NodeType,
    keys: ZobristRandom,
    w: EvalWeights,
    limit: nat,
) -> Step
    decreases limit - desc, 0nat, 0nat,
{
    if desc >= limit {
        Step::Done(alpha, m)
    } else {
        let b1 = after(m.board, mov, keys);
        let z1 = b1.state.zobrist;
        let c = times_seen(m.reps, z1);
        if c + 1 > 1 {
            Step::Done(0, m)
        } else {
            let (s, m2) = q_node(
                SearchModel { board: b1, reps: m.reps.insert(z1, (c + 1) as u8), ..m },
                desc + 1,
                (-beta) as i64,
                (-alpha) as i64,
                keys,
                w,
                limit,
            );
            let score = (-s) as i64;
            let eval2 = if score > eval { score } else { eval };
            let m3 = SearchModel {
                board: m.board,
                reps: m2.reps.insert(z1, (times_seen(m2.reps, z1) - 1) as u8),
                tt: m2.tt,
                nodes: m2.nodes,
            };
            if eval2 >= beta {
                Step::Done(beta, SearchModel {
                    tt: m3.tt.insert(z, TTableEntry { depth: (-desc) as i32, score: eval2, node_type: NodeType::LowerBound }),
                    ..m3
                })
            } else if alpha < eval2 {
                Step::Next(m3, eval2, eval2, NodeType::PV)
            } else {
                Step::Next(m3, alpha, eval2, nt)
            }
        }
    }
}

/// The quiescence search over the captures from index `i` on; as `inner_moves`, the stored
/// depth being `-desc`.
pub open spec fn q_moves(
    m: SearchModel,
    z: u64,
    moves: Seq<Move>,
    i: int,
    desc: nat,
    alpha: i64,
    beta: i64,
    eval: i64,
    nt: NodeType,
    keys: ZobristRandom,
    w: EvalWeights,
    limit: nat,
) -> (i64, SearchModel)
    decreases limit - desc, 0nat, moves.len() - i + 1,
{
    if i < 0 || i >= moves.len() || desc >= limit {
        (alpha, SearchModel { tt: m.tt.insert(z, TTableEntry { depth: (-desc) as i32, score: eval, node_type: nt }), ..m })
    } else {
        match q_step(m, z, moves[i], desc, alpha, beta, eval, nt, keys, w, limit) {
            Step::Done(r, m2) => (r, m2),
            Step::Next(m2, a2, e2, nt2) => q_moves(m2, z, moves, i + 1, desc, a2, beta, e2, nt2, keys, w, limit),
        }
    }
}

/// The legal moves of `board` in the order the search tries them, whether the side to move is
/// in check, and how many moves there are.
fn ordered_moves(board: &SearchBoard, only_takes: bool, tables: &MoveTables, w: &EvalWeights) -> (r: (Vec<Move>, bool, usize))
    requires
        tables.wf(),
        w.wf(),
        generation_ok(board.state),
    ensures
        r.0@ == ordered(moves_in(board.state, only_takes), board.state.side, *w),
        moves_valid(r.0@),
        r.1 == !(checks_of(board.state) is NoCheck),
        r.2 == moves_in(board.state, only_takes).len(),
{
    let (pin_state, check_paths) = board.state.legal_data(tables);
    let is_check = check_paths.is_check();
    let moves = board.find_all_moves(pin_state, check_paths, only_takes, tables);
    let ghost ms = moves@;
    proof {
        let st = board.state;
        let wk = choose|i: int| 0 <= i < 64 && crate::board_repr::is_king_of(#[trigger] st.board.board[i], st.side);
        crate::perft::lemma_first_king_bound(st.board.board@, st.side, wk);
        crate::search::lemma_legal_moves_on_board(st, pin_state, check_paths, only_takes);
    }
    let side = board.state.side;
    let mut keyed_moves: Vec<(i64, Move)> = Vec::new();
    let mut i: usize = 0;
    while i < moves.len()
        invariant
            i <= moves@.len(),
            w.wf(),
            moves@ == ms,
            moves_valid(ms),
            keyed_moves@ == keyed(ms, side, *w).take(i as int),
        decreases moves@.len() - i,
    {
        let m = moves[i];
        let k = rate_move(&m, side, w);
        keyed_moves.push((-k, m));
        assert(keyed_moves@ =~= keyed(ms, side, *w).take(i + 1));
        i += 1;
    }
    assert(keyed(ms, side, *w).take(ms.len() as int) =~= keyed(ms, side, *w));
    let sorted = sort_entries(&keyed_moves);
    let ghost p = |e: (i64, Move)| e.1.from.valid() && e.1.to.valid();
    proof {
        let ks = keyed(ms, side, *w);
        assert forall|k: int| 0 <= k < ks.len() implies p(#[trigger] ks[k]) by {
            assert(ks[k].1 == ms[k]);
        }
        crate::engine::sorting::lemma_sort_keeps(ks, p);
    }
    let mut out: Vec<Move> = Vec::new();
    let mut j: usize = 0;
    while j < sorted.len()
        invariant
            j <= sorted@.len(),
            out@ == sorted@.take(j as int).map_values(|e: (i64, Move)| e.1),
        decreases sorted@.len() - j,
    {
        out.push(sorted[j].1);
        assert(out@ =~= sorted@.take(j + 1).map_values(|e: (i64, Move)| e.1));
        j += 1;
    }
    proof {
        assert(sorted@.take(sorted@.len() as int) =~= sorted@);
        assert forall|k: int| 0 <= k < out@.len() implies (#[trigger] out@[k]).from.valid() && out@[k].to.valid() by {
            assert(p(sorted@[k]));
        }
    }
    (out, is_check, moves.len())
}

/// The search below one move from the root: the board after it, the visits of positions, the
/// transposition table and the count of searched nodes.
pub struct SearchContext {
    pub board: SearchBoard,
    pub repetitions: HashMap<u64, u8>,
    pub evaluated_move: Move,
    pub ttable: TranspositionTable,
    pub nodes_searched: u32,
    pub quiescence_depth_limit: i32,
}

impl SearchContext {
    /// The search's state as values.
    pub open spec fn model(&self) -> SearchModel {
        SearchModel { board: self.board, reps: self.repetitions@, tt: self.ttable@, nodes: self.nodes_searched }
    }

    /// Stored scores can be negated, visits can be counted, and the quiescence search goes two
    /// plies deep.
    pub open spec fn wf(&self) -> bool {
        &&& tt_ok(self.ttable@)
        &&& reps_ok(self.repetitions@)
        &&& self.quiescence_depth_limit == 2
    }

    /// The search after `evaluated_move` is made on `board`.
    pub fn new(
        board: SearchBoard,
        repetitions: HashMap<u64, u8>,
        evaluated_move: Move,
        ttable: TranspositionTable,
        keys: &ZobristRandom,
    ) -> (r: Self)
        requires
            crate::board::can_make(board@, evaluated_move),
        ensures
            r.board == after(board, evaluated_move, *keys),
            r.repetitions@ == repetitions@,
            r.ttable@ == ttable@,
            r.evaluated_move == evaluated_move,
            r.nodes_searched == 0,
            r.quiescence_depth_limit == 2,
    {
        let mut board = board;
        let ghost b0 = board;
        board.make(&evaluated_move, keys);
        proof {
            lemma_view_injective(board, after(b0, evaluated_move, *keys));
        }
        Self { board, repetitions, evaluated_move, nodes_searched: 0, ttable, quiescence_depth_limit: 2 }
    }

    pub fn board(&self) -> (r: &SearchBoard)
        ensures
            *r == self.board,
    {
        &self.board
    }

    /// The evaluated move and its score for the side that made it: the negated score of the
    /// search `min_depth` plies deep over the full window.
    pub fn evaluate(&mut self, min_depth: i32, _max_depth: i32, tables: &MoveTables, keys: &ZobristRandom, w: &EvalWeights) -> (r: (Move, i64))
        requires
            old(self).wf(),
            tables.wf(),
            w.wf(),
            safe_search(old(self).model(), min_depth as int, (i64::MIN + 1) as i64, i64::MAX, *keys, *w, 2),
        ensures
            final(self).wf(),
            r.0 == old(self).evaluated_move,
            r.1 == -search_node(old(self).model(), min_depth as int, (i64::MIN + 1) as i64, i64::MAX, *keys, *w, 2).0,
            final(self).model() == search_node(old(self).model(), min_depth as int, (i64::MIN + 1) as i64, i64::MAX, *keys, *w, 2).1,
            final(self).evaluated_move == old(self).evaluated_move,
            final(self).board == old(self).board,
            same_counts(final(self).repetitions@, old(self).repetitions@),
            in_range(-r.1),
    {
        let eval = self.evaluate_inner(min_depth, i64::MIN + 1, i64::MAX, tables, keys, w);
        (self.evaluated_move, -eval)
    }

    /// Restores the board after `mov` was made on it: by taking the move back when that is
    /// known to restore it, else from the copy `saved`.
    fn restore(&mut self, saved: SearchBoard, unmove: Unmove, safe: bool, keys: &ZobristRandom)
        requires
            unmove.mov.from.valid(),
            unmove.mov.to.valid(),
            safe ==> crate::board::can_unmake_after(saved@, *unmove.mov) && crate::board::can_make(saved@, *unmove.mov),
            safe ==> old(self).board@ == crate::board::make_model(saved@, *unmove.mov, *keys),
            unmove.en_passant_square == saved.state.en_passant_square,
            unmove.white_castling == saved.state.white_castling,
            unmove.black_castling == saved.state.black_castling,
            unmove.zobrist == saved.state.zobrist,
            unmove.halfmove_clock == saved.halfmove_clock,
        ensures
            final(self).board == saved,
            final(self).repetitions@ == old(self).repetitions@,
            final(self).ttable@ == old(self).ttable@,
            final(self).nodes_searched == old(self).nodes_searched,
            final(self).evaluated_move == old(self).evaluated_move,
            final(self).quiescence_depth_limit == old(self).quiescence_depth_limit,
    {
        if safe {
            self.board.unmake(unmove);
            proof {
                crate::board::lemma_make_unmake(saved, *unmove.mov, *keys);
                lemma_view_injective(self.board, saved);
            }
        } else {
            self.board = saved;
        }
    }


    /// One move of a node's move loop; see `inner_step`. The result says whether the node is
    /// done, with its score, or else the new `alpha`, best score and node kind.
    fn inner_step_exec(
        &mut self,
        mov: Move,
        z: u64,
        depth: i32,
        alpha: i64,
        beta: i64,
        eval: i64,
        nt: NodeType,
        tables: &MoveTables,
        keys: &ZobristRandom,
        w: &EvalWeights,
    ) -> (r: (bool, i64, i64, NodeType))
        requires
            old(self).wf(),
            tables.wf(),
            w.wf(),
            depth != 0,
            safe_step(old(self).model(), mov, depth as int, unseen(old(self).repetitions@), alpha, beta, *keys, *w, 2),
            in_range(alpha as int),
            in_range(beta as int),
            in_range(eval as int),
            node_ok(old(self).board),
            mov.from.valid(),
            mov.to.valid(),
        ensures
            final(self).wf(),
            in_range(r.1 as int),
            in_range(r.2 as int),
            final(self).board == old(self).board,
            same_counts(final(self).repetitions@, old(self).repetitions@),
            final(self).evaluated_move == old(self).evaluated_move,
            match inner_step(old(self).model(), z, mov, depth as int, unseen(old(self).repetitions@), alpha, beta, eval, nt, *keys, *w, 2) {
                Step::Done(v, m2) => r.0 && r.1 == v && final(self).model() == m2,
                Step::Next(m2, a2, e2, nt2) => !r.0 && r.1 == a2 && r.2 == e2 && r.3 == nt2 && final(self).model() == m2,
            },
        decreases unseen(old(self).repetitions@), 0int,
    {
        let ghost model0 = self.model();
        let saved = self.board;
        let safe = unmake_safe(&self.board, &mov);
        let unmove = Unmove::new(&mov, &self.board);
        self.board.make(&mov, keys);
        proof {
            lemma_view_injective(self.board, after(saved, mov, *keys));
        }
        let z1 = self.board.state.zobrist;
        let c: u8 = match self.repetitions.get(&z1) {
            Some(c) => *c,
            None => 0,
        };
        self.repetitions.insert(z1, c + 1);
        if c + 1 > 1 {
            self.repetitions.insert(z1, c);
            self.restore(saved, unmove, safe, keys);
            proof {
                assert(self.repetitions@ =~= model0.reps);
            }
            return (true, 0, eval, nt);
        }
        let ghost reps1 = self.repetitions@;
        proof {
            lemma_unseen_visit(model0.reps, z1);
        }
        let s = self.evaluate_inner(depth - 1, -beta, -alpha, tables, keys, w);
        let score = -s;
        let eval2 = if score > eval { score } else { eval };
        let c2: u8 = match self.repetitions.get(&z1) {
            Some(c) => *c,
            None => 0,
        };
        assert(times_seen(reps1, z1) == 1);
        self.repetitions.insert(z1, c2 - 1);
        self.restore(saved, unmove, safe, keys);
        proof {
            lemma_counts_back(model0.reps, reps1, self.repetitions@, z1);
        }
        if eval2 >= beta {
            self.ttable.insert(z, eval2, depth, NodeType::LowerBound);
            return (true, beta, eval2, NodeType::LowerBound);
        }
        if alpha < eval2 {
            (false, eval2, eval2, NodeType::PV)
        } else {
            (false, alpha, eval2, nt)
        }
    }

    /// The search `depth` plies deep in the window (`alpha`, `beta`); see `inner_node`.
    #[verifier::rlimit(60)]
    fn evaluate_inner(&mut self, depth: i32, alpha: i64, beta: i64, tables: &MoveTables, keys: &ZobristRandom, w: &EvalWeights) -> (r: i64)
        requires
            old(self).wf(),
            tables.wf(),
            w.wf(),
            safe_search(old(self).model(), depth as int, alpha, beta, *keys, *w, 2),
            in_range(alpha as int),
            in_range(beta as int),
        ensures
            final(self).wf(),
            in_range(r as int),
            final(self).board == old(self).board,
            same_counts(final(self).repetitions@, old(self).repetitions@),
            final(self).evaluated_move == old(self).evaluated_move,
            (r, final(self).model()) == search_node(old(self).model(), depth as int, alpha, beta, *keys, *w, 2),
        decreases unseen(old(self).repetitions@), 1int,
    {
        let z = self.board.state.zobrist;
        if let Some(s) = self.ttable.get(z, depth, alpha, beta) {
            return s;
        }
        if depth == 0 {
            return self.quiesce(0, alpha, beta, tables, keys, w);
        }
        if self.board.halfmove_clock >= 50 || is_draw_repetition(&self.board, &self.repetitions) {
            return -1000;
        }
        if !generation_check(&self.board.state) {
            return 0;
        }
        let (moves, is_check, count) = ordered_moves(&self.board, false, tables, w);
        if let Some(eval) = evaluate_outcome(&self.board, &self.repetitions, count > 0, is_check, depth) {
            return if eval < 0 { eval } else { -eval };
        }
        if self.nodes_searched < u32::MAX {
            self.nodes_searched += 1;
        }
        let mut eval: i64 = i64::MIN + 1;
        let mut node_type = NodeType::UpperBound;
        let mut a = alpha;
        let ghost fuel = unseen(old(self).repetitions@);
        let ghost goal = inner_node(old(self).model(), depth as int, fuel, alpha, beta, *keys, *w, 2);
        assert(goal == inner_moves(self.model(), z, moves@, 0, depth as int, fuel, alpha, beta, eval, node_type, *keys, *w, 2));
        let mut i: usize = 0;
        while i < moves.len()
            invariant
                i <= moves@.len(),
                self.wf(),
                tables.wf(),
                w.wf(),
                depth != 0,
                in_range(a as int),
                in_range(beta as int),
                in_range(eval as int),
                self.board == old(self).board,
                node_ok(self.board),
                z == self.board.state.zobrist,
                moves_valid(moves@),
                same_counts(self.repetitions@, old(self).repetitions@),
                self.evaluated_move == old(self).evaluated_move,
                fuel == unseen(old(self).repetitions@),
                inner_moves(self.model(), z, moves@, i as int, depth as int, fuel, a, beta, eval, node_type, *keys, *w, 2) == goal,
                safe_moves(self.model(), z, moves@, i as int, depth as int, fuel, a, beta, eval, node_type, *keys, *w, 2),
                goal == inner_node(old(self).model(), depth as int, fuel, alpha, beta, *keys, *w, 2),
            decreases moves@.len() - i,
        {
            let ghost before = self.repetitions@;
            proof {
                lemma_inner_moves_unfold(self.model(), z, moves@, i as int, depth as int, fuel, a, beta, eval, node_type, *keys, *w, 2);
                lemma_unseen_same(self.repetitions@, old(self).repetitions@);
            }
            let (done, v, e2, nt2) = self.inner_step_exec(moves[i], z, depth, a, beta, eval, node_type, tables, keys, w);
            proof {
                lemma_same_counts_trans(self.repetitions@, before, old(self).repetitions@);
            }
            if done {
                return v;
            }
            a = v;
            eval = e2;
            node_type = nt2;
            i += 1;
        }
        proof {
            lemma_inner_moves_unfold(self.model(), z, moves@, i as int, depth as int, fuel, a, beta, eval, node_type, *keys, *w, 2);
        }
        self.ttable.insert(z, eval, depth, node_type);
        a
    }

    /// One capture of the quiescence move loop; see `q_step`.
    fn q_step_exec(
        &mut self,
        mov: Move,
        z: u64,
        descended: i32,
        alpha: i64,
        beta: i64,
        eval: i64,
        nt: NodeType,
        tables: &MoveTables,
        keys: &ZobristRandom,
        w: &EvalWeights,
    ) -> (r: (bool, i64, i64, NodeType))
        requires
            old(self).wf(),
            tables.wf(),
            w.wf(),
            0 <= descended < 2,
            in_range(alpha as int),
            in_range(beta as int),
            in_range(eval as int),
            node_ok(old(self).board),
            mov.from.valid(),
            mov.to.valid(),
        ensures
            final(self).wf(),
            in_range(r.1 as int),
            in_range(r.2 as int),
            final(self).board == old(self).board,
            same_counts(final(self).repetitions@, old(self).repetitions@),
            final(self).evaluated_move == old(self).evaluated_move,
            match q_step(old(self).model(), z, mov, descended as nat, alpha, beta, eval, nt, *keys, *w, 2) {
                Step::Done(v, m2) => r.0 && r.1 == v && final(self).model() == m2,
                Step::Next(m2, a2, e2, nt2) => !r.0 && r.1 == a2 && r.2 == e2 && r.3 == nt2 && final(self).model() == m2,
            },
        decreases 2 - descended, 0int,
    {
        let ghost model0 = self.model();
        let saved = self.board;
        let safe = unmake_safe(&self.board, &mov);
        let unmove = Unmove::new(&mov, &self.board);
        self.board.make(&mov, keys);
        proof {
            lemma_view_injective(self.board, after(saved, mov, *keys));
        }
        let z1 = self.board.state.zobrist;
        let c: u8 = match self.repetitions.get(&z1) {
            Some(c) => *c,
            None => 0,
        };
        self.repetitions.insert(z1, c + 1);
        if c + 1 > 1 {
            self.repetitions.insert(z1, c);
            self.restore(saved, unmove, safe, keys);
            proof {
                assert(self.repetitions@ =~= model0.reps);
            }
            return (true, 0, eval, nt);
        }
        let ghost reps1 = self.repetitions@;
        let s = self.quiesce(descended + 1, -beta, -alpha, tables, keys, w);
        let score = -s;
        let eval2 = if score > eval { score } else { eval };
        let c2: u8 = match self.repetitions.get(&z1) {
            Some(c) => *c,
            None => 0,
        };
        assert(times_seen(reps1, z1) == 1);
        self.repetitions.insert(z1, c2 - 1);
        self.restore(saved, unmove, safe, keys);
        proof {
            lemma_counts_back(model0.reps, reps1, self.repetitions@, z1);
        }
        if eval2 >= beta {
            self.ttable.insert(z, eval2, -descended, NodeType::LowerBound);
            return (true, beta, eval2, NodeType::LowerBound);
        }
        if alpha < eval2 {
            (false, eval2, eval2, NodeType::PV)
        } else {
            (false, alpha, eval2, nt)
        }
    }

    /// The quiescence search `descended` plies below the main search; see `q_node`.
    fn quiesce(&mut self, descended: i32, alpha: i64, beta: i64, tables: &MoveTables, keys: &ZobristRandom, w: &EvalWeights) -> (r: i64)
        requires
            old(self).wf(),
            tables.wf(),
            w.wf(),
            0 <= descended <= 2,
            in_range(alpha as int),
            in_range(beta as int),
        ensures
            final(self).wf(),
            in_range(r as int),
            final(self).board == old(self).board,
            same_counts(final(self).repetitions@, old(self).repetitions@),
            final(self).evaluated_move == old(self).evaluated_move,
            (r, final(self).model()) == q_node(old(self).model(), descended as nat, alpha, beta, *keys, *w, 2),
        decreases 2 - descended, 1int,
    {
        if self.nodes_searched < u32::MAX {
            self.nodes_searched += 1;
        }
        let z = self.board.state.zobrist;
        if let Some(s) = self.ttable.get(z, -descended, alpha, beta) {
            return s;
        }
        if self.board.halfmove_clock >= 50 || is_draw_repetition(&self.board, &self.repetitions) {
            return -1000;
        }
        if descended == self.quiescence_depth_limit {
            if !generation_check(&self.board.state) {
                return 0;
            }
            return evaluate(&self.board, &self.repetitions, -descended, tables, w);
        }
        if !generation_check(&self.board.state) {
            return 0;
        }
        let (moves, is_check, count) = ordered_moves(&self.board, true, tables, w);
        if let Some(eval) = evaluate_outcome(&self.board, &self.repetitions, count > 0, is_check, -descended) {
            return if eval < 0 { eval } else { -eval };
        }
        let mut eval: i64 = i64::MIN + 1;
        let mut node_type = NodeType::UpperBound;
        let mut a = alpha;
        let ghost goal = q_node(old(self).model(), descended as nat, alpha, beta, *keys, *w, 2);
        assert(goal == q_moves(self.model(), z, moves@, 0, descended as nat, alpha, beta, eval, node_type, *keys, *w, 2));
        let mut i: usize = 0;
        while i < moves.len()
            invariant
                i <= moves@.len(),
                self.wf(),
                tables.wf(),
                w.wf(),
                0 <= descended < 2,
                in_range(a as int),
                in_range(beta as int),
                in_range(eval as int),
                self.board == old(self).board,
                node_ok(self.board),
                z == self.board.state.zobrist,
                moves_valid(moves@),
                same_counts(self.repetitions@, old(self).repetitions@),
                self.evaluated_move == old(self).evaluated_move,
                q_moves(self.model(), z, moves@, i as int, descended as nat, a, beta, eval, node_type, *keys, *w, 2) == goal,
                goal == q_node(old(self).model(), descended as nat, alpha, beta, *keys, *w, 2),
            decreases moves@.len() - i,
        {
            let ghost before = self.repetitions@;
            proof {
                lemma_q_moves_unfold(self.model(), z, moves@, i as int, descended as nat, a, beta, eval, node_type, *keys, *w, 2);
            }
            let (done, v, e2, nt2) = self.q_step_exec(moves[i], z, descended, a, beta, eval, node_type, tables, keys, w);
            proof {
                lemma_same_counts_trans(self.repetitions@, before, old(self).repetitions@);
            }
            if done {
                return v;
            }
            a = v;
            eval = e2;
            node_type = nt2;
            i += 1;
        }
        proof {
            lemma_q_moves_unfold(self.model(), z, moves@, i as int, descended as nat, a, beta, eval, node_type, *keys, *w, 2);
        }
        self.ttable.insert(z, eval, -descended, node_type);
        a
    }
}

/// One step of a node's move loop, unfolded.
proof fn lemma_inner_moves_unfold(
    m: SearchModel, z: u64, moves: Seq<Move>, i: int, depth: int, fuel: nat, alpha: i64, beta: i64, eval: i64,
    nt: NodeType, keys: ZobristRandom, w: EvalWeights, limit: nat,
)
    ensures
        0 <= i < moves.len() && depth != 0 ==> inner_moves(m, z, moves, i, depth, fuel, alpha, beta, eval, nt, keys, w, limit)
            == match inner_step(m, z, moves[i], depth, fuel, alpha, beta, eval, nt, keys, w, limit) {
                Step::Done(r, m2) => (r, m2),
                Step::Next(m2, a2, e2, nt2) => inner_moves(m2, z, moves, i + 1, depth, fuel, a2, beta, e2, nt2, keys, w, limit),
            },
        i >= moves.len() ==> inner_moves(m, z, moves, i, depth, fuel, alpha, beta, eval, nt, keys, w, limit)
            == (alpha, SearchModel { tt: m.tt.insert(z, TTableEntry { depth: depth as i32, score: eval, node_type: nt }), ..m }),
        0 <= i < moves.len() && depth != 0 ==> safe_moves(m, z, moves, i, depth, fuel, alpha, beta, eval, nt, keys, w, limit)
            == (safe_step(m, moves[i], depth, fuel, alpha, beta, keys, w, limit)
            && match inner_step(m, z, moves[i], depth, fuel, alpha, beta, eval, nt, keys, w, limit) {
                Step::Done(_, _) => true,
                Step::Next(m2, a2, e2, nt2) => safe_moves(m2, z, moves, i + 1, depth, fuel, a2, beta, e2, nt2, keys, w, limit),
            }),
{
}

/// One step of a quiescence move loop, unfolded.
proof fn lemma_q_moves_unfold(
    m: SearchModel, z: u64, moves: Seq<Move>, i: int, desc: nat, alpha: i64, beta: i64, eval: i64,
    nt: NodeType, keys: ZobristRandom, w: EvalWeights, limit: nat,
)
    ensures
        0 <= i < moves.len() && desc < limit ==> q_moves(m, z, moves, i, desc, alpha, beta, eval, nt, keys, w, limit)
            == match q_step(m, z, moves[i], desc, alpha, beta, eval, nt, keys, w, limit) {
                Step::Done(r, m2) => (r, m2),
                Step::Next(m2, a2, e2, nt2) => q_moves(m2, z, moves, i + 1, desc, a2, beta, e2, nt2, keys, w, limit),
            },
        i >= moves.len() ==> q_moves(m, z, moves, i, desc, alpha, beta, eval, nt, keys, w, limit)
            == (alpha, SearchModel { tt: m.tt.insert(z, TTableEntry { depth: (-desc) as i32, score: eval, node_type: nt }), ..m }),
{
}

/// Counting a visit of `z1` and taking it back leaves the counts as they were.
proof fn lemma_counts_back(reps0: Map<u64, u8>, reps1: Map<u64, u8>, reps2: Map<u64, u8>, z1: u64)
    requires
        times_seen(reps0, z1) == 0,
        reps1 == reps0.insert(z1, 1u8),
        exists|r: Map<u64, u8>| same_counts(r, reps1) && reps2 == #[trigger] r.insert(z1, (times_seen(r, z1) - 1) as u8),
    ensures
        same_counts(reps2, reps0),
{
    let r = choose|r: Map<u64, u8>| same_counts(r, reps1) && reps2 == #[trigger] r.insert(z1, (times_seen(r, z1) - 1) as u8);
    assert forall|k: u64| #[trigger] times_seen(reps2, k) == times_seen(reps0, k) by {
        assert(times_seen(r, k) == times_seen(reps1, k));
    }
}

proof fn lemma_same_counts_trans(a: Map<u64, u8>, b: Map<u64, u8>, c: Map<u64, u8>)
    requires
        same_counts(a, b),
        same_counts(b, c),
    ensures
        same_counts(a, c),
{
    assert forall|k: u64| #[trigger] times_seen(a, k) == times_seen(c, k) by {
        assert(times_seen(a, k) == times_seen(b, k));
    }
}

} // verus!
