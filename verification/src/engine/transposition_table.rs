//! The transposition table: scores of positions already searched, by Zobrist hash.
use std::collections::HashMap;
use vstd::prelude::*;

verus! {

broadcast use vstd::std_specs::hash::group_hash_axioms;

/// What a stored score is: exact, an upper bound, or a lower bound.
#[derive(Clone, Copy, PartialEq, Eq, Debug, Structural)]
pub enum NodeType {
    PV,
    UpperBound,
    LowerBound,
}

/// A score stored for a position, with the depth it was searched to.
#[derive(Clone, Copy, PartialEq, Eq, Debug, Structural)]
pub struct TTableEntry {
    pub depth: i32,
    pub score: i64,
    pub node_type: NodeType,
}

/// The entries of the table, by Zobrist hash.
pub struct TranspositionTable {
    table: HashMap<u64, TTableEntry>,
}

impl View for TranspositionTable {
    type V = Map<u64, TTableEntry>;

    closed spec fn view(&self) -> Map<u64, TTableEntry> {
        self.table@
    }
}

/// The score an entry gives for a search to `depth` in the window (`alpha`, `beta`): its
/// score when it was searched at least as deep and is exact, a lower bound at or above `beta`,
/// or an upper bound at or below `alpha`.
pub open spec fn usable_score(entry: TTableEntry, depth: i32, alpha: i64, beta: i64) -> Option<i64> {
    if entry.depth >= depth {
        match entry.node_type {
            NodeType::PV => Some(entry.score),
            NodeType::LowerBound => if entry.score >= beta { Some(entry.score) } else { None },
            NodeType::UpperBound => if entry.score <= alpha { Some(entry.score) } else { None },
        }
    } else {
        None
    }
}

impl TranspositionTable {
    pub fn new() -> (r: Self)
        ensures
            r@ == Map::<u64, TTableEntry>::empty(),
    {
        Self { table: HashMap::new() }
    }

    /// Stores a score for the position with hash `zobrist`, replacing what was there.
    pub fn insert(&mut self, zobrist: u64, score: i64, depth: i32, node_type: NodeType)
        ensures
            final(self)@ == old(self)@.insert(zobrist, TTableEntry { depth, score, node_type }),
    {
        self.table.insert(zobrist, TTableEntry { score, depth, node_type });
    }

    /// The stored score of the position with hash `zobrist` that a search to `depth` in the
    /// window (`alpha`, `beta`) can use; see `usable_score`.
    pub fn get(&self, zobrist: u64, depth: i32, alpha: i64, beta: i64) -> (r: Option<i64>)
        ensures
            r == (if self@.contains_key(zobrist) { usable_score(self@[zobrist], depth, alpha, beta) } else { None }),
    {
        let entry = match self.table.get(&zobrist) {
            Some(e) => *e,
            None => return None,
        };
        if entry.depth >= depth {
            match entry.node_type {
                NodeType::PV => Some(entry.score),
                NodeType::LowerBound => if entry.score >= beta { Some(entry.score) } else { None },
                NodeType::UpperBound => if entry.score <= alpha { Some(entry.score) } else { None },
            }
        } else {
            None
        }
    }

    /// The number of positions stored.
    pub fn len(&self) -> (r: usize)
        ensures
            r == self@.len(),
    {
        self.table.len()
    }
}

/// A lookup right after a store finds what was stored: the score the new entry allows.
pub proof fn lemma_get_after_insert(
    table: Map<u64, TTableEntry>,
    zobrist: u64,
    score: i64,
    depth: i32,
    node_type: NodeType,
    search_depth: i32,
    alpha: i64,
    beta: i64,
)
    ensures
        ({
            let after = table.insert(zobrist, TTableEntry { depth, score, node_type });
            &&& after.contains_key(zobrist)
            &&& usable_score(after[zobrist], search_depth, alpha, beta)
                == usable_score(TTableEntry { depth, score, node_type }, search_depth, alpha, beta)
        }),
{
}

} // verus!
