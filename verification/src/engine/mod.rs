//! The search engine's pieces: outcomes, repetitions, incremental ratings and the
//! transposition table.
use crate::board::SearchBoard;
use crate::piece::Side;
use std::collections::HashMap;
use vstd::prelude::*;

pub mod evaluate;
pub mod weights;
pub mod incremental_rating;
pub mod play;
pub mod searcher;
pub mod sorting;
pub mod transposition_table;

verus! {

broadcast use vstd::std_specs::hash::group_hash_axioms;

/// The sign of a side's view of a score: 1 for white, -1 for black.
pub fn who2move(side: Side) -> (r: i64)
    ensures
        r == (if side == Side::White { 1int } else { -1int }),
{
    match side {
        Side::White => 1,
        Side::Black => -1,
    }
}

/// How often each position, by its Zobrist hash, has been reached.
pub open spec fn times_seen(repetitions: Map<u64, u8>, zobrist: u64) -> u8 {
    if repetitions.contains_key(zobrist) { repetitions[zobrist] } else { 0 }
}

/// Whether the position of `board` has been reached exactly three times.
pub fn is_draw_repetition(board: &SearchBoard, repetitions: &HashMap<u64, u8>) -> (r: bool)
    ensures
        r == (repetitions@.contains_key(board.state.zobrist) && repetitions@[board.state.zobrist] == 3),
{
    match repetitions.get(&board.state.zobrist) {
        Some(repetition) => *repetition == 3,
        None => false,
    }
}

/// Counts one more visit of the position of `board`; it must have been seen fewer than 255
/// times.
pub fn add_board_to_repetition(repetitions: &mut HashMap<u64, u8>, board: &SearchBoard)
    requires
        times_seen(old(repetitions)@, board.state.zobrist) < 255,
    ensures
        final(repetitions)@ == old(repetitions)@.insert(board.state.zobrist,
            (times_seen(old(repetitions)@, board.state.zobrist) + 1) as u8),
{
    let count = match repetitions.get(&board.state.zobrist) {
        Some(c) => *c,
        None => 0,
    };
    repetitions.insert(board.state.zobrist, count + 1);
}

} // verus!
