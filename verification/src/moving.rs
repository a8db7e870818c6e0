//! Moves, and what is needed to take one back.
use crate::board::{BoardState, SearchBoard};
use crate::fen::{chars_of, field, field_bounds, field_start, has_field, space_from};
use crate::piece::{Piece, PieceType, kind_char, kind_letter};
use crate::position::name_of;
use crate::position::Position;
use vstd::prelude::*;

verus! {

/// What kind of move a move is.
#[derive(Clone, Copy, PartialEq, Eq, Debug, Hash, Structural)]
pub enum MoveType {
    Normal(PieceType),
    Promotion(PieceType),
    LongCastle,
    ShortCastle,
    EnPassant,
}

/// A move from one square to another, with the piece it takes, if any.
#[derive(Clone, Copy, PartialEq, Eq, Debug, Hash, Structural)]
pub struct Move {
    pub move_type: MoveType,
    pub from: Position,
    pub to: Position,
    pub take: Option<Piece>,
}

/// What a board held before a move, so that the move can be taken back.
pub struct Unmove<'a> {
    pub mov: &'a Move,
    pub en_passant_square: Option<Position>,
    pub white_castling: (bool, bool),
    pub black_castling: (bool, bool),
    pub zobrist: u64,
    pub halfmove_clock: u8,
}

impl<'a> Unmove<'a> {
    /// Records what `state` holds before `mov` is made on it.
    pub fn new(mov: &'a Move, state: &SearchBoard) -> (r: Self)
        ensures
            r.mov == mov,
            r.en_passant_square == state.state.en_passant_square,
            r.white_castling == state.state.white_castling,
            r.black_castling == state.state.black_castling,
            r.zobrist == state.state.zobrist,
            r.halfmove_clock == state.halfmove_clock,
    {
        Self {
            mov,
            en_passant_square: state.state.en_passant_square,
            white_castling: state.state.white_castling,
            black_castling: state.state.black_castling,
            zobrist: state.state.zobrist,
            halfmove_clock: state.halfmove_clock,
        }
    }
}

impl Move {
    /// The kind of piece that moves: the promoting pawn, the castling king, the capturing pawn.
    pub open spec fn moved_kind(self) -> PieceType {
        match self.move_type {
            MoveType::Normal(role) => role,
            MoveType::Promotion(_) => PieceType::Pawn,
            MoveType::LongCastle => PieceType::King,
            MoveType::ShortCastle => PieceType::King,
            MoveType::EnPassant => PieceType::Pawn,
        }
    }

    /// The move goes two ranks: down for a pawn that moves down, up otherwise.
    pub open spec fn two_ranks(self) -> bool {
        if self.moved_kind() == PieceType::Pawn && self.from.row() > self.to.row() {
            self.from.row() - self.to.row() == 2
        } else {
            self.to.row() - self.from.row() == 2
        }
    }

    pub fn new(from: Position, to: Position, move_type: MoveType, take: Option<Piece>) -> (r: Self)
        ensures
            r == (Move { move_type, from, to, take }),
    {
        Self { from, to, move_type, take }
    }

    pub fn to(&self) -> (r: Position)
        ensures
            r == self.to,
    {
        self.to
    }

    pub fn from(&self) -> (r: Position)
        ensures
            r == self.from,
    {
        self.from
    }

    /// The kind of piece that moves.
    pub fn piece_type(&self) -> (r: PieceType)
        ensures
            r == self.moved_kind(),
    {
        match self.move_type {
            MoveType::Normal(role) => role,
            MoveType::Promotion(_) => PieceType::Pawn,
            MoveType::LongCastle => PieceType::King,
            MoveType::ShortCastle => PieceType::King,
            MoveType::EnPassant => PieceType::Pawn,
        }
    }

    /// The kind a promotion makes, for a promotion.
    pub fn promote_to(&self) -> (r: Option<PieceType>)
        ensures
            r == (match self.move_type {
                MoveType::Promotion(p) => Some(p),
                _ => None::<PieceType>,
            }),
    {
        match self.move_type {
            MoveType::Promotion(promote) => Some(promote),
            _ => None,
        }
    }

    /// Whether the move goes two ranks: a pawn's first double step.
    pub fn is_pawn_starter(&self) -> (r: bool)
        requires
            self.moved_kind() == PieceType::Pawn || self.from.row() <= self.to.row(),
        ensures
            r == self.two_ranks(),
    {
        if self.piece_type() == PieceType::Pawn && self.from().y() > self.to().y() {
            return self.from().y() - self.to().y() == 2;
        }
        self.to().y() - self.from().y() == 2
    }

    /// The square halfway between the two squares of the move.
    pub fn en_passant_square(&self) -> (r: Position)
        requires
            self.from.index + self.to.index <= 255,
        ensures
            r.index == (self.from.index + self.to.index) / 2,
    {
        Position::from_index((self.from().index() + self.to().index()) / 2)
    }
}

/// The square that the characters `cs` name: a file letter `a`-`h`, then a rank digit `1`-`8`.
pub open spec fn square_name(cs: Seq<char>) -> Option<Position> {
    if cs.len() == 2 && 97 <= (cs[0] as int) <= 104 && 49 <= (cs[1] as int) <= 56 {
        Some(Position { index: ((cs[0] as int - 97) + (cs[1] as int - 49) * 8) as u8 })
    } else {
        None
    }
}

/// The move that `cs`, two square names split by a space, describes in `board`: nothing when
/// a name is missing or bad or the first square is empty, or for a pawn moving sideways onto an
/// empty square without an en passant square. A king moving two squares castles (long onto the
/// c-file); a pawn moving sideways onto an empty square takes en passant; a pawn reaching the
/// last rank becomes a queen.
pub open spec fn parse_move(board: BoardState, cs: Seq<char>) -> Option<Move> {
    if !has_field(cs, 1) {
        None
    } else {
        match (square_name(field(cs, 0)), square_name(field(cs, 1))) {
            (Some(start), Some(end)) => match board.board.board[start.index as int] {
                None => None,
                Some(piece) => {
                    let role = piece.piece_type;
                    let take = board.board.board[end.index as int];
                    let d = start.index - end.index;
                    if role == PieceType::King && (d == 2 || d == -2) {
                        Some(Move {
                            move_type: if end.col() == 2 { MoveType::LongCastle } else { MoveType::ShortCastle },
                            from: start,
                            to: end,
                            take,
                        })
                    } else if role == PieceType::Pawn && take is None && end.col() != start.col() {
                        if board.en_passant_square is Some {
                            Some(Move { move_type: MoveType::EnPassant, from: start, to: end, take })
                        } else {
                            None
                        }
                    } else if role == PieceType::Pawn && (end.row() == 0 || end.row() == 7) {
                        Some(Move { move_type: MoveType::Promotion(PieceType::Queen), from: start, to: end, take })
                    } else {
                        Some(Move { move_type: MoveType::Normal(role), from: start, to: end, take })
                    }
                },
            },
            _ => None,
        }
    }
}

/// The file a letter `a`-`h` names.
fn file_of(c: char) -> (r: Option<u8>)
    ensures
        r == (if 97 <= (c as int) <= 104 { Some((c as int - 97) as u8) } else { None::<u8> }),
{
    match c {
        'a' => Some(0),
        'b' => Some(1),
        'c' => Some(2),
        'd' => Some(3),
        'e' => Some(4),
        'f' => Some(5),
        'g' => Some(6),
        'h' => Some(7),
        _ => None,
    }
}

/// The rank a digit `1`-`8` names.
fn rank_of(c: char) -> (r: Option<u8>)
    ensures
        r == (if 49 <= (c as int) <= 56 { Some((c as int - 49) as u8) } else { None::<u8> }),
{
    match c {
        '1' => Some(0),
        '2' => Some(1),
        '3' => Some(2),
        '4' => Some(3),
        '5' => Some(4),
        '6' => Some(5),
        '7' => Some(6),
        '8' => Some(7),
        _ => None,
    }
}

/// The square named by `cs[lo..hi]`.
fn square_at(cs: &Vec<char>, lo: usize, hi: usize) -> (r: Option<Position>)
    requires
        lo <= hi <= cs@.len(),
    ensures
        r == square_name(cs@.subrange(lo as int, hi as int)),
        r matches Some(p) ==> p.valid(),
{
    if hi - lo != 2 {
        return None;
    }
    let x = file_of(cs[lo])?;
    let y = rank_of(cs[lo + 1])?;
    Some(Position::from_index(x + y * 8))
}

impl Move {
    /// The move that `s` ("e2 e4") describes in `board`; see `parse_move`.
    pub fn from_string(board: &BoardState, s: &str) -> (r: Option<Self>)
        ensures
            r == parse_move(*board, s@),
    {
        let cs = chars_of(s);
        let (lo0, hi0) = match field_bounds(&cs, 0) {
            Some(b) => b,
            None => {
                assert(field_start(cs@, 0) == 0);
                return None;
            },
        };
        let (lo1, hi1) = field_bounds(&cs, 1)?;
        let start = square_at(&cs, lo0, hi0);
        let end = square_at(&cs, lo1, hi1);
        let Some(start) = start else {
            return None;
        };
        let Some(end) = end else {
            return None;
        };
        let Some(piece) = board.get_piece_at(start) else {
            return None;
        };
        let piece = piece.role();
        let take = board.get_piece_at(end);
        let diff: u8 = if start.index >= end.index { start.index - end.index } else { end.index - start.index };
        let move_type = if piece == PieceType::King && diff == 2 {
            if end.x() == 2 {
                MoveType::LongCastle
            } else {
                MoveType::ShortCastle
            }
        } else if piece == PieceType::Pawn && take.is_none() && end.x() != start.x() {
            if board.en_passant_square.is_some() {
                MoveType::EnPassant
            } else {
                return None;
            }
        } else if piece == PieceType::Pawn && (end.y() == 0 || end.y() == 7) {
            MoveType::Promotion(PieceType::Queen)
        } else {
            MoveType::Normal(piece)
        };
        Some(Self { move_type, from: start, to: end, take })
    }
}

/// The text of a move: castling as O-O or O-O-O; else the moved piece's letter (none for a
/// pawn or a promotion), the first square's name, `x` and the taken piece's letter when it
/// takes, the second square's name, and `=` with the new piece's letter for a promotion.
pub open spec fn move_text(m: Move) -> Seq<char> {
    match m.move_type {
        MoveType::ShortCastle => seq!['O', '-', 'O'],
        MoveType::LongCastle => seq!['O', '-', 'O', '-', 'O'],
        _ => {
            let prefix = match m.move_type {
                MoveType::Normal(k) => if k == PieceType::Pawn { Seq::empty() } else { seq![kind_letter(k)] },
                _ => Seq::empty(),
            };
            let take = match m.take {
                Some(p) => seq!['x', kind_letter(p.piece_type)],
                None => Seq::empty(),
            };
            let suffix = match m.move_type {
                MoveType::Promotion(k) => seq!['=', kind_letter(k)],
                _ => Seq::empty(),
            };
            prefix + name_of(m.from) + take + name_of(m.to) + suffix
        },
    }
}

impl Move {
    /// The move as text; see `move_text`.
    pub fn to_string(&self) -> (r: String)
        requires
            self.from.valid(),
            self.to.valid(),
        ensures
            r@ == move_text(*self),
    {
        let mut cs: Vec<char> = Vec::new();
        match self.move_type {
            MoveType::ShortCastle => {
                cs.push('O');
                cs.push('-');
                cs.push('O');
            },
            MoveType::LongCastle => {
                cs.push('O');
                cs.push('-');
                cs.push('O');
                cs.push('-');
                cs.push('O');
            },
            _ => {
                if let MoveType::Normal(k) = self.move_type {
                    if k != PieceType::Pawn {
                        cs.push(kind_char(k));
                    }
                }
                let ghost prefix = cs@;
                self.from.push_name(&mut cs);
                let ghost with_from = cs@;
                if let Some(p) = self.take {
                    cs.push('x');
                    cs.push(kind_char(p.piece_type));
                }
                let ghost with_take = cs@;
                self.to.push_name(&mut cs);
                let ghost with_to = cs@;
                if let MoveType::Promotion(k) = self.move_type {
                    cs.push('=');
                    cs.push(kind_char(k));
                }
                proof {
                    let take = match self.take {
                        Some(p) => seq!['x', kind_letter(p.piece_type)],
                        None => Seq::<char>::empty(),
                    };
                    let suffix = match self.move_type {
                        MoveType::Promotion(k) => seq!['=', kind_letter(k)],
                        _ => Seq::<char>::empty(),
                    };
                    assert(with_take =~= with_from + take);
                    assert(cs@ =~= with_to + suffix);
                }
            },
        }
        assert(cs@ =~= move_text(*self));
        crate::text::string_from_chars(&cs)
    }
}

/// The kind of a move and the piece kind it names, as the two low bytes of its key: 0 and the
/// moved piece for a plain move, 1 and the new piece for a promotion, 2 for long castling, 3
/// for short castling, 4 for en passant.
pub open spec fn kind_bytes(t: MoveType) -> (u64, u64) {
    match t {
        MoveType::Normal(k) => (0, k.code() as u64),
        MoveType::Promotion(k) => (1, k.code() as u64),
        MoveType::LongCastle => (2, 0),
        MoveType::ShortCastle => (3, 0),
        MoveType::EnPassant => (4, 0),
    }
}

/// What a move takes, as the two high bytes of its key: nothing as zeros, else the complement
/// of the taken piece's side number (0 white, 8 black) and its kind.
pub open spec fn take_bytes(t: Option<Piece>) -> (u64, u64) {
    match t {
        Some(p) => ((255 - p.side.code()) as u64, p.piece_type.code() as u64),
        None => (0, 0),
    }
}

/// The number that identifies a move, byte by byte from the lowest: its kind and piece kind
/// (see `kind_bytes`), its two squares, and what it takes (see `take_bytes`).
pub open spec fn move_key(m: Move) -> u64 {
    let (b0, b1) = kind_bytes(m.move_type);
    let (b4, b5) = take_bytes(m.take);
    b0 | (b1 << 8u64) | ((m.from.index as u64) << 16u64) | ((m.to.index as u64) << 24u64) | (b4 << 32u64) | (b5 << 40u64)
}

/// Six bytes packed from the lowest give each byte back.
proof fn lemma_unpack(b0: u64, b1: u64, b2: u64, b3: u64, b4: u64, b5: u64)
    by (bit_vector)
    requires
        b0 < 256,
        b1 < 256,
        b2 < 256,
        b3 < 256,
        b4 < 256,
        b5 < 256,
    ensures
        (b0 | (b1 << 8u64) | (b2 << 16u64) | (b3 << 24u64) | (b4 << 32u64) | (b5 << 40u64)) & 0xff == b0,
        ((b0 | (b1 << 8u64) | (b2 << 16u64) | (b3 << 24u64) | (b4 << 32u64) | (b5 << 40u64)) >> 8u64) & 0xff == b1,
        ((b0 | (b1 << 8u64) | (b2 << 16u64) | (b3 << 24u64) | (b4 << 32u64) | (b5 << 40u64)) >> 16u64) & 0xff == b2,
        ((b0 | (b1 << 8u64) | (b2 << 16u64) | (b3 << 24u64) | (b4 << 32u64) | (b5 << 40u64)) >> 24u64) & 0xff == b3,
        ((b0 | (b1 << 8u64) | (b2 << 16u64) | (b3 << 24u64) | (b4 << 32u64) | (b5 << 40u64)) >> 32u64) & 0xff == b4,
        ((b0 | (b1 << 8u64) | (b2 << 16u64) | (b3 << 24u64) | (b4 << 32u64) | (b5 << 40u64)) >> 40u64) & 0xff == b5,
{
}

/// Different moves have different keys.
pub proof fn lemma_move_key_injective(m1: Move, m2: Move)
    requires
        move_key(m1) == move_key(m2),
    ensures
        m1 == m2,
{
    let (a0, a1) = kind_bytes(m1.move_type);
    let (a4, a5) = take_bytes(m1.take);
    let (c0, c1) = kind_bytes(m2.move_type);
    let (c4, c5) = take_bytes(m2.take);
    lemma_unpack(a0, a1, m1.from.index as u64, m1.to.index as u64, a4, a5);
    lemma_unpack(c0, c1, m2.from.index as u64, m2.to.index as u64, c4, c5);
    assert(a0 == c0 && a1 == c1 && a4 == c4 && a5 == c5);
    assert(m1.from.index == m2.from.index && m1.to.index == m2.to.index);
    assert(m1.move_type == m2.move_type);
    assert(m1.take == m2.take);
}

impl Move {
    /// The move's key; see `move_key`.
    pub fn hash_key(&self) -> (r: u64)
        ensures
            r == move_key(*self),
    {
        let (b0, b1): (u64, u64) = match self.move_type {
            MoveType::Normal(k) => (0, k.index() as u64),
            MoveType::Promotion(k) => (1, k.index() as u64),
            MoveType::LongCastle => (2, 0),
            MoveType::ShortCastle => (3, 0),
            MoveType::EnPassant => (4, 0),
        };
        let (b4, b5): (u64, u64) = match self.take {
            Some(p) => (255 - match p.side {
                crate::piece::Side::White => 0u64,
                crate::piece::Side::Black => 8u64,
            }, p.piece_type.index() as u64),
            None => (0, 0),
        };
        b0 | (b1 << 8u64) | ((self.from.index as u64) << 16u64) | ((self.to.index as u64) << 24u64) | (b4 << 32u64) | (b5 << 40u64)
    }
}

/// The lower-case letter that a UCI move gives a promotion to `k`: q, r, b or n; none for a
/// pawn or a king.
pub open spec fn promotion_text(k: PieceType) -> Seq<char> {
    match k {
        PieceType::Queen => seq!['q'],
        PieceType::Rook => seq!['r'],
        PieceType::Bishop => seq!['b'],
        PieceType::Knight => seq!['n'],
        _ => Seq::empty(),
    }
}

/// A move as UCI writes it: the two squares' names, then the promotion's letter.
pub open spec fn uci_move_text(m: Move) -> Seq<char> {
    name_of(m.from) + name_of(m.to) + match m.move_type {
        MoveType::Promotion(k) => promotion_text(k),
        _ => Seq::empty(),
    }
}

impl Move {
    /// The move as UCI writes it; see `uci_move_text`.
    pub fn uci_text(&self) -> (r: String)
        requires
            self.from.valid(),
            self.to.valid(),
        ensures
            r@ == uci_move_text(*self),
    {
        let mut cs: Vec<char> = Vec::new();
        self.from.push_name(&mut cs);
        self.to.push_name(&mut cs);
        let ghost names = cs@;
        if let MoveType::Promotion(k) = self.move_type {
            match k {
                PieceType::Queen => cs.push('q'),
                PieceType::Rook => cs.push('r'),
                PieceType::Bishop => cs.push('b'),
                PieceType::Knight => cs.push('n'),
                _ => {},
            }
        }
        assert(cs@ =~= uci_move_text(*self));
        crate::text::string_from_chars(&cs)
    }
}

} // verus!
