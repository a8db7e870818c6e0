//! A square's content and a move in plain form, and the conversions both ways.
use crate::moving::{Move, MoveType};
use crate::piece::{Piece, PieceType, Side};
use crate::position::Position;
use vstd::prelude::*;
use vstd::std_specs::convert::FromSpecImpl;
use vstd::std_specs::convert::FromSpec;

verus! {

/// What a square holds: nothing, or one of the twelve pieces.
#[derive(Clone, Copy, PartialEq, Eq, Debug, Structural)]
pub enum SimplePieceRepr {
    Nothing,
    WhitePawn,
    WhiteRook,
    WhiteKnight,
    WhiteBishop,
    WhiteQueen,
    WhiteKing,
    BlackPawn,
    BlackRook,
    BlackKnight,
    BlackBishop,
    BlackQueen,
    BlackKing,
}

/// The plain form of a square's content.
pub open spec fn repr_of(value: Option<Piece>) -> SimplePieceRepr {
    match value {
        None => SimplePieceRepr::Nothing,
        Some(p) => match (p.side, p.piece_type) {
            (Side::White, PieceType::Pawn) => SimplePieceRepr::WhitePawn,
            (Side::White, PieceType::Rook) => SimplePieceRepr::WhiteRook,
            (Side::White, PieceType::Knight) => SimplePieceRepr::WhiteKnight,
            (Side::White, PieceType::Bishop) => SimplePieceRepr::WhiteBishop,
            (Side::White, PieceType::Queen) => SimplePieceRepr::WhiteQueen,
            (Side::White, PieceType::King) => SimplePieceRepr::WhiteKing,
            (Side::Black, PieceType::Pawn) => SimplePieceRepr::BlackPawn,
            (Side::Black, PieceType::Rook) => SimplePieceRepr::BlackRook,
            (Side::Black, PieceType::Knight) => SimplePieceRepr::BlackKnight,
            (Side::Black, PieceType::Bishop) => SimplePieceRepr::BlackBishop,
            (Side::Black, PieceType::Queen) => SimplePieceRepr::BlackQueen,
            (Side::Black, PieceType::King) => SimplePieceRepr::BlackKing,
        },
    }
}

/// The square's content that a plain form stands for.
pub open spec fn content_of(value: SimplePieceRepr) -> Option<Piece> {
    let w = |t: PieceType| Some(Piece { side: Side::White, piece_type: t });
    let b = |t: PieceType| Some(Piece { side: Side::Black, piece_type: t });
    match value {
        SimplePieceRepr::Nothing => None,
        SimplePieceRepr::WhitePawn => w(PieceType::Pawn),
        SimplePieceRepr::WhiteRook => w(PieceType::Rook),
        SimplePieceRepr::WhiteKnight => w(PieceType::Knight),
        SimplePieceRepr::WhiteBishop => w(PieceType::Bishop),
        SimplePieceRepr::WhiteQueen => w(PieceType::Queen),
        SimplePieceRepr::WhiteKing => w(PieceType::King),
        SimplePieceRepr::BlackPawn => b(PieceType::Pawn),
        SimplePieceRepr::BlackRook => b(PieceType::Rook),
        SimplePieceRepr::BlackKnight => b(PieceType::Knight),
        SimplePieceRepr::BlackBishop => b(PieceType::Bishop),
        SimplePieceRepr::BlackQueen => b(PieceType::Queen),
        SimplePieceRepr::BlackKing => b(PieceType::King),
    }
}

impl From<Option<Piece>> for SimplePieceRepr {
    fn from(value: Option<Piece>) -> (r: Self) {
        let Some(piece) = value else {
            return SimplePieceRepr::Nothing;
        };
        match piece.side {
            Side::White => match piece.piece_type {
                PieceType::Pawn => SimplePieceRepr::WhitePawn,
                PieceType::Rook => SimplePieceRepr::WhiteRook,
                PieceType::Knight => SimplePieceRepr::WhiteKnight,
                PieceType::Bishop => SimplePieceRepr::WhiteBishop,
                PieceType::Queen => SimplePieceRepr::WhiteQueen,
                PieceType::King => SimplePieceRepr::WhiteKing,
            },
            Side::Black => match piece.piece_type {
                PieceType::Pawn => SimplePieceRepr::BlackPawn,
                PieceType::Rook => SimplePieceRepr::BlackRook,
                PieceType::Knight => SimplePieceRepr::BlackKnight,
                PieceType::Bishop => SimplePieceRepr::BlackBishop,
                PieceType::Queen => SimplePieceRepr::BlackQueen,
                PieceType::King => SimplePieceRepr::BlackKing,
            },
        }
    }
}

impl FromSpecImpl<Option<Piece>> for SimplePieceRepr {
    open spec fn obeys_from_spec() -> bool {
        true
    }

    open spec fn from_spec(v: Option<Piece>) -> SimplePieceRepr {
        repr_of(v)
    }
}

impl From<SimplePieceRepr> for Option<Piece> {
    fn from(value: SimplePieceRepr) -> (r: Self) {
        match value {
            SimplePieceRepr::Nothing => None,
            SimplePieceRepr::WhitePawn => Some(Piece::white(PieceType::Pawn)),
            SimplePieceRepr::WhiteRook => Some(Piece::white(PieceType::Rook)),
            SimplePieceRepr::WhiteKnight => Some(Piece::white(PieceType::Knight)),
            SimplePieceRepr::WhiteBishop => Some(Piece::white(PieceType::Bishop)),
            SimplePieceRepr::WhiteQueen => Some(Piece::white(PieceType::Queen)),
            SimplePieceRepr::WhiteKing => Some(Piece::white(PieceType::King)),
            SimplePieceRepr::BlackPawn => Some(Piece::black(PieceType::Pawn)),
            SimplePieceRepr::BlackRook => Some(Piece::black(PieceType::Rook)),
            SimplePieceRepr::BlackKnight => Some(Piece::black(PieceType::Knight)),
            SimplePieceRepr::BlackBishop => Some(Piece::black(PieceType::Bishop)),
            SimplePieceRepr::BlackQueen => Some(Piece::black(PieceType::Queen)),
            SimplePieceRepr::BlackKing => Some(Piece::black(PieceType::King)),
        }
    }
}

impl FromSpecImpl<SimplePieceRepr> for Option<Piece> {
    open spec fn obeys_from_spec() -> bool {
        true
    }

    open spec fn from_spec(v: SimplePieceRepr) -> Option<Piece> {
        content_of(v)
    }
}

/// A move with the taken piece in plain form.
#[derive(Clone, Copy, PartialEq, Eq, Debug, Structural)]
pub struct FFIMove {
    pub move_type: MoveType,
    pub from: Position,
    pub to: Position,
    pub take: SimplePieceRepr,
}

impl From<Move> for FFIMove {
    fn from(value: Move) -> (r: Self) {
        Self { move_type: value.move_type, from: value.from, to: value.to, take: SimplePieceRepr::from(value.take) }
    }
}

impl FromSpecImpl<Move> for FFIMove {
    open spec fn obeys_from_spec() -> bool {
        true
    }

    open spec fn from_spec(v: Move) -> FFIMove {
        FFIMove { move_type: v.move_type, from: v.from, to: v.to, take: repr_of(v.take) }
    }
}

impl From<FFIMove> for Move {
    fn from(value: FFIMove) -> (r: Self) {
        Self { move_type: value.move_type, from: value.from, to: value.to, take: Option::<Piece>::from(value.take) }
    }
}

impl FromSpecImpl<FFIMove> for Move {
    open spec fn obeys_from_spec() -> bool {
        true
    }

    open spec fn from_spec(v: FFIMove) -> Move {
        Move { move_type: v.move_type, from: v.from, to: v.to, take: content_of(v.take) }
    }
}

/// A move survives the trip to its plain form and back.
pub proof fn lemma_ffi_move_round_trip(m: Move)
    ensures
        <Move as FromSpec<FFIMove>>::from_spec(<FFIMove as FromSpec<Move>>::from_spec(m)) == m,
{
}

} // verus!
