//! The numbers the evaluation is made of: piece values, positional tables and weights.
use crate::piece::{Piece, PieceType, Side};
use crate::position::Position;
use vstd::prelude::*;

verus! {

/// Piece values, a positional table per kind of piece (seen from white, square a1 first) and
/// the weights of material and position.
#[derive(Clone, Copy, Debug)]
pub struct EvalWeights {
    pub pawn_value: i64,
    pub rook_value: i64,
    pub knight_value: i64,
    pub bishop_value: i64,
    pub queen_value: i64,
    pub king_value: i64,
    pub material_weight: i64,
    pub positional_weight: i64,
    pub pawn_positional: [i64; 64],
    pub rook_positional: [i64; 64],
    pub knight_positional: [i64; 64],
    pub bishop_positional: [i64; 64],
    pub queen_positional: [i64; 64],
    pub king_positional: [i64; 64],
}

/// The largest size of a value or a positional entry.
pub open spec fn value_bound() -> int {
    100_000
}

/// The largest size of a weight.
pub open spec fn weight_bound() -> int {
    100
}

/// Every entry of a table is at most `value_bound` in size.
pub open spec fn table_bounded(t: [i64; 64]) -> bool {
    forall|i: int| 0 <= i < 64 ==> -value_bound() <= #[trigger] t[i] <= value_bound()
}

impl EvalWeights {
    /// Values and table entries at most `value_bound` in size, weights at most `weight_bound`.
    pub open spec fn wf(self) -> bool {
        &&& -value_bound() <= self.pawn_value <= value_bound()
        &&& -value_bound() <= self.rook_value <= value_bound()
        &&& -value_bound() <= self.knight_value <= value_bound()
        &&& -value_bound() <= self.bishop_value <= value_bound()
        &&& -value_bound() <= self.queen_value <= value_bound()
        &&& -value_bound() <= self.king_value <= value_bound()
        &&& -weight_bound() <= self.material_weight <= weight_bound()
        &&& -weight_bound() <= self.positional_weight <= weight_bound()
        &&& table_bounded(self.pawn_positional)
        &&& table_bounded(self.rook_positional)
        &&& table_bounded(self.knight_positional)
        &&& table_bounded(self.bishop_positional)
        &&& table_bounded(self.queen_positional)
        &&& table_bounded(self.king_positional)
    }

    /// The value of a kind of piece.
    pub open spec fn value_of(self, t: PieceType) -> i64 {
        match t {
            PieceType::Pawn => self.pawn_value,
            PieceType::Rook => self.rook_value,
            PieceType::Knight => self.knight_value,
            PieceType::Bishop => self.bishop_value,
            PieceType::Queen => self.queen_value,
            PieceType::King => self.king_value,
        }
    }

    /// The positional table of a kind of piece.
    pub open spec fn table_of(self, t: PieceType) -> [i64; 64] {
        match t {
            PieceType::Pawn => self.pawn_positional,
            PieceType::Rook => self.rook_positional,
            PieceType::Knight => self.knight_positional,
            PieceType::Bishop => self.bishop_positional,
            PieceType::Queen => self.queen_positional,
            PieceType::King => self.king_positional,
        }
    }

    /// The positional entry of `piece` on `pos`: the table read from the piece's own side, a
    /// black piece's rank mirrored.
    pub open spec fn raw_positional(self, piece: Piece, pos: Position) -> i64 {
        let row = if piece.side == Side::White { pos.row() } else { 7 - pos.row() };
        self.table_of(piece.piece_type)[Position::at(pos.col(), row).index as int]
    }
}

} // verus!
