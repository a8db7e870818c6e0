//! The two ways the board is stored: six bitboards per side, and one entry per square.
use crate::bits::{is_set, lemma_bit_ops, lemma_sq};
use crate::piece::{Piece, PieceType, Side};
use crate::position::Position;
use vstd::prelude::*;

verus! {

pub const PAWN: usize = 0;
pub const ROOK: usize = 1;
pub const KNIGHT: usize = 2;
pub const BISHOP: usize = 3;
pub const QUEEN: usize = 4;
pub const KING: usize = 5;

/// One side's pieces: a bitboard each for pawns, rooks, knights, bishops, queens and the king.
#[derive(Clone, Copy, Debug, PartialEq, Eq)]
pub struct Bitboards {
    pub state: [u64; 6],
}

/// The kind of the first bitboard, in kind order, that holds square `i`.
pub open spec fn role_at(state: [u64; 6], i: u64) -> Option<PieceType> {
    if is_set(state[0], i) {
        Some(PieceType::Pawn)
    } else if is_set(state[1], i) {
        Some(PieceType::Rook)
    } else if is_set(state[2], i) {
        Some(PieceType::Knight)
    } else if is_set(state[3], i) {
        Some(PieceType::Bishop)
    } else if is_set(state[4], i) {
        Some(PieceType::Queen)
    } else if is_set(state[5], i) {
        Some(PieceType::King)
    } else {
        None
    }
}

/// The union of six bitboards.
pub open spec fn union6(s: [u64; 6]) -> u64 {
    s[0] | s[1] | s[2] | s[3] | s[4] | s[5]
}

impl Bitboards {
    /// The kind of piece on `pos`: that of the first bitboard, in kind order, holding it.
    pub fn get_role_at_position(&self, pos: Position) -> (r: Option<PieceType>)
        requires
            pos.valid(),
        ensures
            r == role_at(self.state, pos.index as u64),
    {
        let mask = pos.as_mask();
        if self.state[0] & mask != 0 {
            return Some(PieceType::Pawn);
        } else if self.state[1] & mask != 0 {
            return Some(PieceType::Rook);
        } else if self.state[2] & mask != 0 {
            return Some(PieceType::Knight);
        } else if self.state[3] & mask != 0 {
            return Some(PieceType::Bishop);
        } else if self.state[4] & mask != 0 {
            return Some(PieceType::Queen);
        } else if self.state[5] & mask != 0 {
            return Some(PieceType::King);
        } else {
            None
        }
    }

    /// The first bitboard, in kind order, that holds `pos`, to be changed in place.
    pub fn get_containing_bitboard_mut(&mut self, pos: Position) -> (r: Option<&mut u64>)
        requires
            pos.valid(),
        ensures
            match role_at(old(self).state, pos.index as u64) {
                None => r is None && *final(self) == *old(self),
                Some(t) => r matches Some(b) && *b == old(self).state[t.code() as int]
                    && final(self).state@ == old(self).state@.update(t.code() as int, *final(b)),
            },
    {
        let mask = pos.as_mask();
        if self.state[0] & mask != 0 {
            Some(&mut self.state[0])
        } else if self.state[1] & mask != 0 {
            Some(&mut self.state[1])
        } else if self.state[2] & mask != 0 {
            Some(&mut self.state[2])
        } else if self.state[3] & mask != 0 {
            Some(&mut self.state[3])
        } else if self.state[4] & mask != 0 {
            Some(&mut self.state[4])
        } else if self.state[5] & mask != 0 {
            Some(&mut self.state[5])
        } else {
            None
        }
    }

    /// The bitboard of kind `piece_type`, to be changed in place.
    pub fn get_bitboard_mut(&mut self, piece_type: PieceType) -> (r: &mut u64)
        ensures
            *r == old(self).state[piece_type.code() as int],
            final(self).state@ == old(self).state@.update(piece_type.code() as int, *final(r)),
    {
        &mut self.state[piece_type.index()]
    }

    /// The bitboard of kind `piece_type`.
    pub fn get_bitboard(&self, piece_type: PieceType) -> (r: u64)
        ensures
            r == self.state[piece_type.code() as int],
    {
        self.state[piece_type.index()]
    }

    /// All squares that hold a piece of this side.
    pub fn combined(&self) -> (r: u64)
        ensures
            r == union6(self.state),
    {
        self.state[0] | self.state[1] | self.state[2] | self.state[3] | self.state[4]
            | self.state[5]
    }

    /// The pawn bitboard, to be changed in place.
    pub fn pawn_mut(&mut self) -> (r: &mut u64)
        ensures
            *r == old(self).state[0],
            final(self).state@ == old(self).state@.update(0, *final(r)),
    {
        &mut self.state[0]
    }

    /// The rook bitboard, to be changed in place.
    pub fn rook_mut(&mut self) -> (r: &mut u64)
        ensures
            *r == old(self).state[1],
            final(self).state@ == old(self).state@.update(1, *final(r)),
    {
        &mut self.state[1]
    }
}

/// The board as one entry per square.
#[derive(Clone, Copy, Debug, PartialEq, Eq)]
pub struct BoardRepr {
    pub board: [Option<Piece>; 64],
}

/// The piece that two sides' bitboards put on square `i`, when at most one of them holds it.
pub open spec fn merged_at(white: [u64; 6], black: [u64; 6], i: u64) -> Option<Piece> {
    match (role_at(white, i), role_at(black, i)) {
        (Some(t), _) => Some(Piece { side: Side::White, piece_type: t }),
        (None, Some(t)) => Some(Piece { side: Side::Black, piece_type: t }),
        (None, None) => None,
    }
}

/// No square is held by both sides.
pub open spec fn sides_disjoint(white: [u64; 6], black: [u64; 6]) -> bool {
    forall|i: u64| i < 64 ==> !(#[trigger] role_at(white, i) is Some && role_at(black, i) is Some)
}

/// Whether `board[i]` is the king of `side`.
pub open spec fn is_king_of(p: Option<Piece>, side: Side) -> bool {
    p == Some(Piece { side, piece_type: PieceType::King })
}

impl BoardRepr {
    /// The piece on `index`.
    pub fn get(&self, index: Position) -> (r: Option<Piece>)
        requires
            index.valid(),
        ensures
            r == self.board[index.index as int],
    {
        self.board[index.index as usize]
    }

    /// The board that two sides' bitboards describe; no square may be held by both.
    pub fn from_bitboards(white: Bitboards, black: Bitboards) -> (r: Self)
        requires
            sides_disjoint(white.state, black.state),
        ensures
            forall|i: int|
                0 <= i < 64 ==> #[trigger] r.board[i] == merged_at(white.state, black.state, i as u64),
    {
        let mut board: [Option<Piece>; 64] = [None; 64];
        let mut index: u8 = 0;
        while index < 64
            invariant
                index <= 64,
                sides_disjoint(white.state, black.state),
                forall|i: int|
                    0 <= i < index ==> #[trigger] board[i] == merged_at(white.state, black.state, i as u64),
            decreases 64 - index,
        {
            let pos = Position::from_index(index);
            let cell = match (white.get_role_at_position(pos), black.get_role_at_position(pos)) {
                (Some(i), _) => Some(Piece::white(i)),
                (None, Some(i)) => Some(Piece::black(i)),
                (None, None) => None,
            };
            assert(!(role_at(white.state, index as u64) is Some && role_at(black.state, index as u64) is Some));
            board[index as usize] = cell;
            index += 1;
        }
        Self { board }
    }

    /// The first square, counted from a1, that holds the king of `side`; there must be one.
    pub fn find_king(&self, side: Side) -> (r: Position)
        requires
            exists|i: int| 0 <= i < 64 && is_king_of(#[trigger] self.board[i], side),
        ensures
            r.valid(),
            is_king_of(self.board[r.index as int], side),
            forall|j: int| 0 <= j < r.index ==> !is_king_of(#[trigger] self.board[j], side),
    {
        let mut index: u8 = 0;
        while index < 64
            invariant
                index <= 64,
                exists|i: int| 0 <= i < 64 && is_king_of(#[trigger] self.board[i], side),
                forall|j: int| 0 <= j < index ==> !is_king_of(#[trigger] self.board[j], side),
            decreases 64 - index,
        {
            if let Some(piece) = self.board[index as usize] {
                if piece.side == side && piece.piece_type == PieceType::King {
                    return Position::from_index(index);
                }
            }
            index += 1;
        }
        proof {
            let w = choose|i: int| 0 <= i < 64 && is_king_of(#[trigger] self.board[i], side);
            assert(!is_king_of(self.board[w], side));
        }
        Position::from_index(0)
    }
}

} // verus!
