//! Counters of a perft run at one depth.
use crate::moving::{Move, MoveType};
use vstd::prelude::*;

verus! {

/// How many moves, captures, en passant captures, castles, promotions, checks and mates were
/// counted.
#[derive(Clone, Copy, Debug, PartialEq, Eq, Structural)]
pub struct PerftData {
    pub nodes: u32,
    pub captures: u32,
    pub en_passant: u32,
    pub castles: u32,
    pub promotions: u32,
    pub checks: u32,
    pub checkmates: u32,
}

/// Whether a move counts as a capture: it takes a piece, or it is en passant.
pub open spec fn counts_capture(m: Move) -> nat {
    (if m.take is Some { 1nat } else { 0nat }) + (if m.move_type is EnPassant { 1nat } else { 0nat })
}

/// The counters after one more move `m`.
pub open spec fn counted(d: PerftData, m: Move) -> PerftData {
    PerftData {
        nodes: (d.nodes + 1) as u32,
        captures: (d.captures + counts_capture(m)) as u32,
        en_passant: if m.move_type is EnPassant { (d.en_passant + 1) as u32 } else { d.en_passant },
        castles: if m.move_type is LongCastle || m.move_type is ShortCastle { (d.castles + 1) as u32 } else { d.castles },
        promotions: if m.move_type is Promotion { (d.promotions + 1) as u32 } else { d.promotions },
        ..d
    }
}

/// Counting `m` stays within the counters' range.
pub open spec fn can_count(d: PerftData, m: Move) -> bool {
    &&& d.nodes < u32::MAX
    &&& d.captures + counts_capture(m) <= u32::MAX
    &&& d.en_passant < u32::MAX
    &&& d.castles < u32::MAX
    &&& d.promotions < u32::MAX
}

/// Counting a move adds one node, and one promotion exactly when the move is a promotion,
/// whether or not it takes a piece; one capture for a move that takes a piece and another for
/// en passant, and one castle for either castling.
pub proof fn lemma_counted_kinds(d: PerftData, m: Move)
    requires
        can_count(d, m),
    ensures
        counted(d, m).nodes == d.nodes + 1,
        counted(d, m).promotions == d.promotions + (if m.move_type is Promotion { 1int } else { 0int }),
        counted(d, m).en_passant == d.en_passant + (if m.move_type == MoveType::EnPassant { 1int } else { 0int }),
        counted(d, m).castles == d.castles + (if m.move_type == MoveType::LongCastle || m.move_type == MoveType::ShortCastle {
            1int
        } else {
            0int
        }),
        counted(d, m).captures == d.captures + (if m.take is Some { 1int } else { 0int }) + (if m.move_type
            == MoveType::EnPassant { 1int } else { 0int }),
        counted(d, m).checks == d.checks,
        counted(d, m).checkmates == d.checkmates,
{
}

impl PerftData {
    /// All counters at zero.
    pub open spec fn zero() -> PerftData {
        PerftData { nodes: 0, captures: 0, en_passant: 0, castles: 0, promotions: 0, checks: 0, checkmates: 0 }
    }

    pub fn new() -> (r: Self)
        ensures
            r == PerftData::zero(),
    {
        PerftData { nodes: 0, captures: 0, en_passant: 0, castles: 0, promotions: 0, checks: 0, checkmates: 0 }
    }

    /// Counts a move: a node, a capture if it takes, and its kind.
    pub fn add_normal(&mut self, mov: Move)
        requires
            can_count(*old(self), mov),
        ensures
            *final(self) == counted(*old(self), mov),
    {
        self.nodes += 1;
        if mov.take.is_some() {
            self.captures += 1;
        }
        match mov.move_type {
            MoveType::EnPassant => {
                self.en_passant += 1;
                self.captures += 1;
            },
            MoveType::LongCastle | MoveType::ShortCastle => self.castles += 1,
            MoveType::Promotion(_) => self.promotions += 1,
            _ => {},
        }
    }

    /// Counts a check.
    pub fn add_check(&mut self)
        requires
            old(self).checks < u32::MAX,
        ensures
            *final(self) == (PerftData { checks: (old(self).checks + 1) as u32, ..*old(self) }),
    {
        self.checks += 1
    }

    /// Counts a mate, which is also a check.
    pub fn add_checkmate(&mut self)
        requires
            old(self).checks < u32::MAX,
            old(self).checkmates < u32::MAX,
        ensures
            *final(self) == (PerftData {
                checks: (old(self).checks + 1) as u32,
                checkmates: (old(self).checkmates + 1) as u32,
                ..*old(self)
            }),
    {
        self.checks += 1;
        self.checkmates += 1
    }
}

} // verus!
