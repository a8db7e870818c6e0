//! Pieces, their kinds and the two sides.
use crate::bits::is_set;
use crate::position::Position;
use vstd::prelude::*;

verus! {

/// The six kinds of chess piece.
#[derive(Clone, Copy, PartialEq, Eq, Debug, Hash, Structural)]
pub enum PieceType {
    Pawn,
    Rook,
    Knight,
    Bishop,
    Queen,
    King,
}

/// The two players.
#[derive(Clone, Copy, PartialEq, Eq, Debug, Hash, Structural)]
pub enum Side {
    White,
    Black,
}

/// A piece of one side.
#[derive(Clone, Copy, PartialEq, Eq, Debug, Hash, Structural)]
pub struct Piece {
    pub side: Side,
    pub piece_type: PieceType,
}

impl PieceType {
    /// The number of the kind: pawn 0, rook 1, knight 2, bishop 3, queen 4, king 5.
    pub open spec fn code(self) -> u8 {
        match self {
            PieceType::Pawn => 0,
            PieceType::Rook => 1,
            PieceType::Knight => 2,
            PieceType::Bishop => 3,
            PieceType::Queen => 4,
            PieceType::King => 5,
        }
    }

    /// The kind with number `c`, for `c < 6`.
    pub open spec fn from_code(c: u8) -> PieceType {
        if c == 0 {
            PieceType::Pawn
        } else if c == 1 {
            PieceType::Rook
        } else if c == 2 {
            PieceType::Knight
        } else if c == 3 {
            PieceType::Bishop
        } else if c == 4 {
            PieceType::Queen
        } else {
            PieceType::King
        }
    }

    /// The number of the kind, as an index into a side's bitboards.
    pub fn index(self) -> (r: usize)
        ensures
            r == self.code(),
            r < 6,
    {
        match self {
            PieceType::Pawn => 0,
            PieceType::Rook => 1,
            PieceType::Knight => 2,
            PieceType::Bishop => 3,
            PieceType::Queen => 4,
            PieceType::King => 5,
        }
    }

    /// This kind as a piece of `side`.
    pub fn with_side(self, side: Side) -> (r: Piece)
        ensures
            r == (Piece { side, piece_type: self }),
    {
        Piece::new(self, side)
    }
}

impl Side {
    /// The number of the side: white 0, black 8.
    pub open spec fn code(self) -> u8 {
        match self {
            Side::White => 0,
            Side::Black => 8,
        }
    }

    /// The other side.
    pub fn opposite(self) -> (r: Side)
        ensures
            r != self,
    {
        match self {
            Side::White => Side::Black,
            Side::Black => Side::White,
        }
    }

    /// The rank on which the side's pieces start: 0 for white, 7 for black.
    pub fn home_y(self) -> (r: u8)
        ensures
            r == (if self == Side::White { 0u8 } else { 7u8 }),
    {
        match self {
            Side::White => 0,
            Side::Black => 7,
        }
    }

    /// The rank `rank` counted from the side's own home rank.
    pub fn pers_y(self, rank: u8) -> (r: u8)
        requires
            self == Side::Black ==> rank <= 7,
        ensures
            r == (if self == Side::White { rank as int } else { 7 - rank }),
    {
        match self {
            Side::White => rank,
            Side::Black => 7 - rank,
        }
    }
}

/// Whether `repr` is the number of some piece: a kind number plus a side number.
pub open spec fn is_piece_code(repr: u8) -> bool {
    repr < 6 || (8 <= repr && repr < 14)
}

impl Piece {
    /// The number of the piece: its side's number plus its kind's number.
    pub open spec fn code(self) -> u8 {
        (self.side.code() + self.piece_type.code()) as u8
    }

    /// The piece with number `repr`.
    pub open spec fn from_code(repr: u8) -> Piece {
        if repr < 8 {
            Piece { side: Side::White, piece_type: PieceType::from_code(repr) }
        } else {
            Piece { side: Side::Black, piece_type: PieceType::from_code((repr - 8) as u8) }
        }
    }

    pub fn new(piece_type: PieceType, side: Side) -> (r: Self)
        ensures
            r == (Piece { side, piece_type }),
    {
        Self { side, piece_type }
    }

    pub fn white(piece_type: PieceType) -> (r: Self)
        ensures
            r == (Piece { side: Side::White, piece_type }),
    {
        Self { side: Side::White, piece_type }
    }

    pub fn black(piece_type: PieceType) -> (r: Self)
        ensures
            r == (Piece { side: Side::Black, piece_type }),
    {
        Self { side: Side::Black, piece_type }
    }

    pub fn role(self) -> (r: PieceType)
        ensures
            r == self.piece_type,
    {
        self.piece_type
    }

    pub fn side(self) -> (r: Side)
        ensures
            r == self.side,
    {
        self.side
    }

    /// The piece's number: the side's number (0 or 8) plus the kind's number (0 to 5).
    pub fn as_u8(self) -> (r: u8)
        ensures
            r == self.code(),
            is_piece_code(r),
    {
        let s: u8 = match self.side {
            Side::White => 0,
            Side::Black => 8,
        };
        let t: u8 = match self.piece_type {
            PieceType::Pawn => 0,
            PieceType::Rook => 1,
            PieceType::Knight => 2,
            PieceType::Bishop => 3,
            PieceType::Queen => 4,
            PieceType::King => 5,
        };
        s + t
    }

    /// The piece with number `repr`; the number must belong to a piece.
    pub fn from_u8(repr: u8) -> (r: Self)
        requires
            is_piece_code(repr),
        ensures
            r == Piece::from_code(repr),
    {
        match repr {
            8 => Self::black(PieceType::Pawn),
            9 => Self::black(PieceType::Rook),
            10 => Self::black(PieceType::Knight),
            11 => Self::black(PieceType::Bishop),
            12 => Self::black(PieceType::Queen),
            13 => Self::black(PieceType::King),
            0 => Self::white(PieceType::Pawn),
            1 => Self::white(PieceType::Rook),
            2 => Self::white(PieceType::Knight),
            3 => Self::white(PieceType::Bishop),
            4 => Self::white(PieceType::Queen),
            _ => Self::white(PieceType::King),
        }
    }

    /// The piece itself when it belongs to `side`, else nothing.
    pub fn filter_side(self, side: Side) -> (r: Option<Self>)
        ensures
            r == (if self.side == side { Some(self) } else { None::<Piece> }),
    {
        if self.side == side {
            return Some(self);
        }
        None
    }

    /// The letter of the piece: lower case for white, upper case for black.
    pub fn as_char(self) -> (r: char)
        ensures
            r == piece_letter(self),
    {
        let c = match self.piece_type {
            PieceType::Pawn => 'p',
            PieceType::Rook => 'r',
            PieceType::Knight => 'n',
            PieceType::Bishop => 'b',
            PieceType::Queen => 'q',
            PieceType::King => 'k',
        };
        match self.side {
            Side::White => c,
            Side::Black => match self.piece_type {
                PieceType::Pawn => 'P',
                PieceType::Rook => 'R',
                PieceType::Knight => 'N',
                PieceType::Bishop => 'B',
                PieceType::Queen => 'Q',
                PieceType::King => 'K',
            },
        }
    }
}

/// The letter that stands for a piece: white pieces in lower case, black in upper case.
pub open spec fn piece_letter(p: Piece) -> char {
    let lower = match p.piece_type {
        PieceType::Pawn => 'p',
        PieceType::Rook => 'r',
        PieceType::Knight => 'n',
        PieceType::Bishop => 'b',
        PieceType::Queen => 'q',
        PieceType::King => 'k',
    };
    let upper = match p.piece_type {
        PieceType::Pawn => 'P',
        PieceType::Rook => 'R',
        PieceType::Knight => 'N',
        PieceType::Bishop => 'B',
        PieceType::Queen => 'Q',
        PieceType::King => 'K',
    };
    if p.side == Side::White {
        lower
    } else {
        upper
    }
}

/// Decoding a piece's number gives the piece back, and every piece number is some piece's.
pub proof fn lemma_piece_code_roundtrip(p: Piece, repr: u8)
    ensures
        is_piece_code(p.code()),
        Piece::from_code(p.code()) == p,
        is_piece_code(repr) ==> Piece::from_code(repr).code() == repr,
{
}

/// Whether the square `pos` is set in `bitboard`.
pub fn occupied(bitboard: u64, pos: Position) -> (r: bool)
    requires
        pos.valid(),
    ensures
        r == is_set(bitboard, pos.index as u64),
{
    bitboard & (1u64 << pos.index()) != 0
}

/// The letter of a kind of piece: P, R, N, B, Q or K.
pub open spec fn kind_letter(k: PieceType) -> char {
    match k {
        PieceType::Pawn => 'P',
        PieceType::Rook => 'R',
        PieceType::Knight => 'N',
        PieceType::Bishop => 'B',
        PieceType::Queen => 'Q',
        PieceType::King => 'K',
    }
}

/// The letter of `k`; see `kind_letter`.
pub fn kind_char(k: PieceType) -> (r: char)
    ensures
        r == kind_letter(k),
{
    match k {
        PieceType::Pawn => 'P',
        PieceType::Rook => 'R',
        PieceType::Knight => 'N',
        PieceType::Bishop => 'B',
        PieceType::Queen => 'Q',
        PieceType::King => 'K',
    }
}

impl Piece {
    /// The piece as text: its letter.
    pub fn to_string(&self) -> (r: String)
        ensures
            r@ == seq![piece_letter(*self)],
    {
        let mut cs: Vec<char> = Vec::new();
        cs.push(self.as_char());
        assert(cs@ =~= seq![piece_letter(*self)]);
        crate::text::string_from_chars(&cs)
    }
}

} // verus!
