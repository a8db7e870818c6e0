//! The board: pieces as bitboards and as squares, side to move, castling and en passant, the
//! Zobrist hash, and making and taking back moves.
use crate::board_repr::{BoardRepr, Bitboards, is_king_of, merged_at, role_at, sides_disjoint};
use crate::bits::is_set;
use crate::moving::{Move, MoveType, Unmove};
use crate::piece::{Piece, PieceType, Side};
use crate::position::Position;
use crate::zobrist::{ZobristHash, ZobristRandom, default_seed, ep_toggled, lemma_mask_hash_two, lemma_pieces_hash_delta, piece_slot, slot_board};
use crate::engine::evaluate::{lemma_start_balanced, material_score, positional_score};
use crate::engine::weights::EvalWeights;
use vstd::prelude::*;

verus! {

/// Everything about a position but the halfmove clock.
#[derive(Clone, Copy, PartialEq, Eq, Debug)]
pub struct BoardState {
    pub black: Bitboards,
    pub white: Bitboards,
    pub board: BoardRepr,
    pub side: Side,
    pub en_passant_square: Option<Position>,
    /// (long, short)
    pub white_castling: (bool, bool),
    /// (long, short)
    pub black_castling: (bool, bool),
    pub zobrist: u64,
    pub white_king: Position,
    pub black_king: Position,
}

/// A position as the search keeps it: the board state and the halfmove clock.
#[derive(Clone, Copy, PartialEq, Eq, Debug)]
pub struct SearchBoard {
    pub state: BoardState,
    pub halfmove_clock: u8,
}

/// A position as mathematical values.
#[verifier::ext_equal]
pub struct BoardModel {
    pub white: Seq<u64>,
    pub black: Seq<u64>,
    pub squares: Seq<Option<Piece>>,
    pub side: Side,
    pub en_passant: Option<Position>,
    pub white_castling: (bool, bool),
    pub black_castling: (bool, bool),
    pub zobrist: u64,
    pub white_king: Position,
    pub black_king: Position,
    pub halfmove_clock: u8,
}

impl View for SearchBoard {
    type V = BoardModel;

    open spec fn view(&self) -> BoardModel {
        BoardModel {
            white: self.state.white.state@,
            black: self.state.black.state@,
            squares: self.state.board.board@,
            side: self.state.side,
            en_passant: self.state.en_passant_square,
            white_castling: self.state.white_castling,
            black_castling: self.state.black_castling,
            zobrist: self.state.zobrist,
            white_king: self.state.white_king,
            black_king: self.state.black_king,
            halfmove_clock: self.halfmove_clock,
        }
    }
}

/// The other side.
pub open spec fn other(s: Side) -> Side {
    if s == Side::White {
        Side::Black
    } else {
        Side::White
    }
}

/// The bitboards of `side`.
pub open spec fn bbs_of(st: BoardState, side: Side) -> [u64; 6] {
    if side == Side::White {
        st.white.state
    } else {
        st.black.state
    }
}

/// The home rank of a side: 0 for white, 7 for black.
pub open spec fn home(s: Side) -> int {
    if s == Side::White {
        0
    } else {
        7
    }
}

/// The square of the pawn that an en passant capture by `side` onto `to` takes.
pub open spec fn ep_victim(side: Side, to: Position) -> Position {
    Position::at(to.col(), if side == Side::White { 4 } else { 3 })
}

/// The square a double pawn step from `from` by `side` passes over.
pub open spec fn ep_passed(side: Side, from: Position) -> Position {
    Position::at(from.col(), if side == Side::White { 2 } else { 5 })
}

/// The rook squares of `side` that castling rights belong to: long first.
pub open spec fn home_rook(side: Side, n: int) -> Position {
    Position::at(if n == 0 { 0 } else { 7 }, home(side))
}

/// First xor of a move on bitboard `k` of side `s`: the moving piece leaves and arrives.
pub open spec fn delta_piece(m: Move, ally: Side, s: Side, k: int) -> u64 {
    if s == ally && k == m.moved_kind().code() {
        m.from.mask() | m.to.mask()
    } else {
        0
    }
}

/// Second xor: the taken piece leaves.
pub open spec fn delta_take(m: Move, s: Side, k: int) -> u64 {
    match m.take {
        Some(t) => if t.side == s && t.piece_type.code() == k {
            m.to.mask()
        } else {
            0
        },
        None => 0,
    }
}

/// Third xor: the promoted pawn leaves, or the castling rook moves.
pub open spec fn delta_special(m: Move, ally: Side, s: Side, k: int) -> u64 {
    let h = (home(ally) * 8) as u64;
    match m.move_type {
        MoveType::Promotion(_) => if s == ally && k == 0 {
            m.to.mask()
        } else {
            0
        },
        MoveType::LongCastle => if s == ally && k == 1 {
            9u64 << h
        } else {
            0
        },
        MoveType::ShortCastle => if s == ally && k == 1 {
            0xa0u64 << h
        } else {
            0
        },
        _ => 0,
    }
}

/// Fourth xor: the promoted piece arrives.
pub open spec fn delta_promoted(m: Move, ally: Side, s: Side, k: int) -> u64 {
    match m.move_type {
        MoveType::Promotion(p) => if s == ally && k == p.code() {
            m.to.mask()
        } else {
            0
        },
        _ => 0,
    }
}

/// The pawn that en passant takes: xor when the move is made, `|` when it is taken back.
pub open spec fn delta_ep(m: Move, ally: Side, s: Side, k: int) -> u64 {
    if m.move_type == MoveType::EnPassant && s == other(ally) && k == 0 {
        ep_victim(ally, m.to).mask()
    } else {
        0
    }
}

/// Bitboard `k` of side `s` after `ally` makes move `m`.
pub open spec fn make_bits(x: u64, m: Move, ally: Side, s: Side, k: int) -> u64 {
    ((((x ^ delta_piece(m, ally, s, k)) ^ delta_take(m, s, k)) ^ delta_special(m, ally, s, k))
        ^ delta_promoted(m, ally, s, k)) ^ delta_ep(m, ally, s, k)
}

/// Bitboard `k` of side `s` after `ally`'s move `m` is taken back.
pub open spec fn unmake_bits(y: u64, m: Move, ally: Side, s: Side, k: int) -> u64 {
    ((((y ^ delta_piece(m, ally, s, k)) ^ delta_take(m, s, k)) ^ delta_special(m, ally, s, k))
        ^ delta_promoted(m, ally, s, k)) | delta_ep(m, ally, s, k)
}

/// The castling rights of `side`.
pub open spec fn rights_of(b: BoardModel, side: Side) -> (bool, bool) {
    if side == Side::White {
        b.white_castling
    } else {
        b.black_castling
    }
}

/// A move by `ally` from `from` drops the right of a rook that stood on `from`; the hash
/// loses that right's key if it was held.
pub open spec fn drop_rook_right(
    keys: ZobristRandom,
    ally: Side,
    r: (bool, bool),
    sq: Position,
    z: u64,
) -> ((bool, bool), u64) {
    if sq == home_rook(ally, 0) {
        ((false, r.1), if r.0 { z ^ keys.castle_key(ally, 0) } else { z })
    } else if sq == home_rook(ally, 1) {
        ((r.0, false), if r.1 { z ^ keys.castle_key(ally, 1) } else { z })
    } else {
        (r, z)
    }
}

/// The hash after dropping both rights of `side` that are held.
pub open spec fn drop_both_rights(keys: ZobristRandom, side: Side, r: (bool, bool), z: u64) -> u64 {
    let z1 = if r.0 { z ^ keys.castle_key(side, 0) } else { z };
    if r.1 { z1 ^ keys.castle_key(side, 1) } else { z1 }
}

/// Whether a move resets the halfmove clock: a capture, a double pawn step or en passant.
pub open spec fn resets_clock(m: Move) -> bool {
    m.take is Some || (m.move_type == MoveType::Normal(PieceType::Pawn) && m.two_ranks())
        || m.move_type == MoveType::EnPassant
}

/// The en passant square after move `m` by `ally`: the square passed by a double pawn step.
pub open spec fn ep_after(m: Move, ally: Side) -> Option<Position> {
    if m.move_type == MoveType::Normal(PieceType::Pawn) && m.two_ranks() {
        Some(ep_passed(ally, m.from))
    } else {
        None
    }
}

/// The squares after move `m` by `ally`.
pub open spec fn make_squares(sq: Seq<Option<Piece>>, m: Move, ally: Side) -> Seq<Option<Piece>> {
    let fi = m.from.index as int;
    let ti = m.to.index as int;
    let h = home(ally) * 8;
    let s1 = sq.update(fi, None).update(ti, sq[fi]);
    match m.move_type {
        MoveType::Promotion(p) => s1.update(ti, Some(Piece { side: ally, piece_type: p })),
        MoveType::LongCastle => s1.update(h, None).update(h + 3, s1[h]),
        MoveType::ShortCastle => s1.update(h + 7, None).update(h + 5, s1[h + 7]),
        MoveType::EnPassant => s1.update(ep_victim(ally, m.to).index as int, None),
        _ => s1,
    }
}

/// The squares after `ally`'s move `m` is taken back.
pub open spec fn unmake_squares(sq: Seq<Option<Piece>>, m: Move, ally: Side) -> Seq<Option<Piece>> {
    let fi = m.from.index as int;
    let ti = m.to.index as int;
    let h = home(ally) * 8;
    let s1 = sq.update(ti, m.take).update(fi, sq[ti]);
    match m.move_type {
        MoveType::Promotion(_) => s1.update(fi, Some(Piece { side: ally, piece_type: PieceType::Pawn })),
        MoveType::LongCastle => s1.update(h + 3, None).update(h, s1[h + 3]),
        MoveType::ShortCastle => s1.update(h + 5, None).update(h + 7, s1[h + 5]),
        MoveType::EnPassant => s1.update(
            ep_victim(ally, m.to).index as int,
            Some(Piece { side: other(ally), piece_type: PieceType::Pawn }),
        ),
        _ => s1,
    }
}

/// The position after the side to move makes `m`, with Zobrist keys `keys`.
pub open spec fn make_model(b: BoardModel, m: Move, keys: ZobristRandom) -> BoardModel {
    let ally = b.side;
    let enemy = other(ally);
    let piece = Piece { side: ally, piece_type: m.moved_kind() };
    let new_ep = ep_after(m, ally);
    let z0 = (b.zobrist ^ keys.piece_key(piece, m.from)) ^ keys.piece_key(piece, m.to);
    let z1 = ep_toggled(keys, z0, ally, b.en_passant, new_ep);
    let z2 = z1 ^ keys.black;
    let (ar1, z3) = drop_rook_right(keys, ally, rights_of(b, ally), m.from, z2);
    let (er1, z4) = drop_rook_right(keys, enemy, rights_of(b, enemy), m.to, z3);
    let is_king = m.moved_kind() == PieceType::King;
    let ar2 = if is_king { (false, false) } else { ar1 };
    let z5 = if is_king { drop_both_rights(keys, ally, ar1, z4) } else { z4 };
    BoardModel {
        white: Seq::new(6, |k: int| make_bits(b.white[k], m, ally, Side::White, k)),
        black: Seq::new(6, |k: int| make_bits(b.black[k], m, ally, Side::Black, k)),
        squares: make_squares(b.squares, m, ally),
        side: enemy,
        en_passant: new_ep,
        white_castling: if ally == Side::White { ar2 } else { er1 },
        black_castling: if ally == Side::White { er1 } else { ar2 },
        zobrist: z5,
        white_king: if is_king && ally == Side::White { m.to } else { b.white_king },
        black_king: if is_king && ally == Side::Black { m.to } else { b.black_king },
        halfmove_clock: if resets_clock(m) { 0 } else { (b.halfmove_clock + 1) as u8 },
    }
}

/// Making a move that takes a piece, or takes en passant, sets the halfmove clock to 0; a move
/// by a piece other than a pawn that takes nothing adds one to it.
pub proof fn lemma_make_clock(b: BoardModel, m: Move, keys: ZobristRandom)
    ensures
        m.take is Some ==> make_model(b, m, keys).halfmove_clock == 0,
        m.move_type == MoveType::EnPassant ==> make_model(b, m, keys).halfmove_clock == 0,
        m.take is None && m.moved_kind() != PieceType::Pawn && b.halfmove_clock < 255
            ==> make_model(b, m, keys).halfmove_clock == b.halfmove_clock + 1,
{
}

/// Making a plain move or a promotion passes the turn, empties the square moved from and puts
/// on the square moved to the piece that moved, or for a promotion the new piece of the mover's
/// colour; every other square keeps its piece. A king move records the king on its new square.
pub proof fn lemma_make_places_piece(b: BoardModel, m: Move, keys: ZobristRandom)
    requires
        b.squares.len() == 64,
        m.from.valid(),
        m.to.valid(),
        m.from != m.to,
        m.move_type is Normal || m.move_type is Promotion,
    ensures
        make_model(b, m, keys).side == other(b.side),
        make_model(b, m, keys).squares.len() == 64,
        make_model(b, m, keys).squares[m.from.index as int] is None,
        make_model(b, m, keys).squares[m.to.index as int] == (match m.move_type {
            MoveType::Promotion(p) => Some(Piece { side: b.side, piece_type: p }),
            _ => b.squares[m.from.index as int],
        }),
        forall|i: int| 0 <= i < 64 && i != m.from.index && i != m.to.index
            ==> #[trigger] make_model(b, m, keys).squares[i] == b.squares[i],
        m.move_type == MoveType::Normal(PieceType::King) ==> (if b.side == Side::White {
            make_model(b, m, keys).white_king == m.to && make_model(b, m, keys).black_king == b.black_king
        } else {
            make_model(b, m, keys).black_king == m.to && make_model(b, m, keys).white_king == b.white_king
        }),
{
}

/// After a pawn's double step from its starting rank the en passant square is the square it
/// passed over; after any move other than a pawn's plain move there is none.
pub proof fn lemma_make_en_passant(b: BoardModel, m: Move, keys: ZobristRandom)
    requires
        m.from.valid(),
        m.to.valid(),
    ensures
        m.move_type == MoveType::Normal(PieceType::Pawn) && b.side == Side::White && m.from.row() == 1 && m.to.row() == 3
            ==> make_model(b, m, keys).en_passant == Some(Position::at(m.from.col(), 2)),
        m.move_type == MoveType::Normal(PieceType::Pawn) && b.side == Side::Black && m.from.row() == 6 && m.to.row() == 4
            ==> make_model(b, m, keys).en_passant == Some(Position::at(m.from.col(), 5)),
        m.move_type != MoveType::Normal(PieceType::Pawn) ==> make_model(b, m, keys).en_passant is None,
{
}

/// Castling rights after a move: a king move gives up both of the mover's rights; a move from
/// a corner of the mover's home rank gives up the right on that side, and a move onto a corner
/// of the other side's home rank takes that side's right there; rights of corners the move
/// does not touch stay.
pub proof fn lemma_make_castling_rights(b: BoardModel, m: Move, keys: ZobristRandom)
    ensures
        ({
            let ally = b.side;
            let enemy = other(ally);
            let after = make_model(b, m, keys);
            let mine = rights_of(after, ally);
            let theirs = rights_of(after, enemy);
            &&& m.moved_kind() == PieceType::King ==> mine == (false, false)
            &&& m.from == Position::at(0, home(ally)) ==> !mine.0
            &&& m.from == Position::at(7, home(ally)) ==> !mine.1
            &&& m.moved_kind() != PieceType::King && m.from != Position::at(0, home(ally)) ==> mine.0 == rights_of(b, ally).0
            &&& m.moved_kind() != PieceType::King && m.from != Position::at(7, home(ally)) ==> mine.1 == rights_of(b, ally).1
            &&& m.to == Position::at(0, home(enemy)) ==> !theirs.0
            &&& m.to == Position::at(7, home(enemy)) ==> !theirs.1
            &&& m.to != Position::at(0, home(enemy)) ==> theirs.0 == rights_of(b, enemy).0
            &&& m.to != Position::at(7, home(enemy)) ==> theirs.1 == rights_of(b, enemy).1
        }),
{
}

/// The position after the last move, `u.mov`, is taken back, with what `u` saved.
pub open spec fn unmake_model(b: BoardModel, u: Unmove) -> BoardModel {
    let ally = other(b.side);
    let m = *u.mov;
    let is_king = m.moved_kind() == PieceType::King;
    BoardModel {
        white: Seq::new(6, |k: int| unmake_bits(b.white[k], m, ally, Side::White, k)),
        black: Seq::new(6, |k: int| unmake_bits(b.black[k], m, ally, Side::Black, k)),
        squares: unmake_squares(b.squares, m, ally),
        side: ally,
        en_passant: u.en_passant_square,
        white_castling: u.white_castling,
        black_castling: u.black_castling,
        zobrist: u.zobrist,
        white_king: if is_king && ally == Side::White { m.from } else { b.white_king },
        black_king: if is_king && ally == Side::Black { m.from } else { b.black_king },
        halfmove_clock: u.halfmove_clock,
    }
}

/// What `make` needs: the move's squares on the board, an en passant square on the board, and
/// room on the halfmove clock when the move does not reset it.
pub open spec fn can_make(b: BoardModel, m: Move) -> bool {
    &&& m.from.valid()
    &&& m.to.valid()
    &&& b.en_passant matches Some(e) ==> e.valid()
    &&& !resets_clock(m) ==> b.halfmove_clock < 255
}

proof fn lemma_zero_ops()
    by (bit_vector)
    ensures
        forall|y: u64| #[trigger] (y ^ 0) == y,
        forall|y: u64| #[trigger] (y | 0) == y,
{
}

impl BoardState {
    pub fn side(&self) -> (r: Side)
        ensures
            r == self.side,
    {
        self.side
    }

    /// Where the king of `side` is recorded to stand.
    pub fn side_king(&self, side: Side) -> (r: Position)
        ensures
            r == (if side == Side::White { self.white_king } else { self.black_king }),
    {
        match side {
            Side::White => self.white_king,
            Side::Black => self.black_king,
        }
    }

    /// Where the king of `side` is recorded to stand, to be changed in place.
    pub fn side_king_mut(&mut self, side: Side) -> (r: &mut Position)
        ensures
            *r == (if side == Side::White { old(self).white_king } else { old(self).black_king }),
            side == Side::White ==> *final(self) == (BoardState { white_king: *final(r), ..*old(self) }),
            side == Side::Black ==> *final(self) == (BoardState { black_king: *final(r), ..*old(self) }),
    {
        match side {
            Side::White => &mut self.white_king,
            Side::Black => &mut self.black_king,
        }
    }

    /// The first square, counted from a1, that holds the king of `side`; there must be one.
    pub fn find_king(&self, side: Side) -> (r: Position)
        requires
            exists|i: int| 0 <= i < 64 && is_king_of(#[trigger] self.board.board[i], side),
        ensures
            r.valid(),
            is_king_of(self.board.board[r.index as int], side),
            forall|j: int| 0 <= j < r.index ==> !is_king_of(#[trigger] self.board.board[j], side),
    {
        self.board.find_king(side)
    }

    /// The bitboard of `piece`.
    pub fn get_bitboard(&self, piece: Piece) -> (r: u64)
        ensures
            r == (if piece.side == Side::White { self.white } else { self.black }).state[piece.piece_type.code() as int],
    {
        match piece.side {
            Side::White => self.white.get_bitboard(piece.piece_type),
            Side::Black => self.black.get_bitboard(piece.piece_type),
        }
    }

    /// The bitboard of `piece`, to be changed in place.
    pub fn get_bitboard_mut(&mut self, piece: Piece) -> (r: &mut u64)
        ensures
            *r == (if piece.side == Side::White { old(self).white } else { old(self).black }).state[piece.piece_type.code() as int],
            piece.side == Side::White ==> final(self).white.state@ == old(self).white.state@.update(piece.piece_type.code() as int, *final(r))
                && *final(self) == (BoardState { white: final(self).white, ..*old(self) }),
            piece.side == Side::Black ==> final(self).black.state@ == old(self).black.state@.update(piece.piece_type.code() as int, *final(r))
                && *final(self) == (BoardState { black: final(self).black, ..*old(self) }),
    {
        match piece.side {
            Side::White => self.white.get_bitboard_mut(piece.piece_type),
            Side::Black => self.black.get_bitboard_mut(piece.piece_type),
        }
    }

    /// The piece on `pos`.
    pub fn get_piece_at(&self, pos: Position) -> (r: Option<Piece>)
        requires
            pos.valid(),
        ensures
            r == self.board.board[pos.index as int],
    {
        self.board.get(pos)
    }

    /// The castling rights of `side`, to be changed in place.
    pub fn side_castle_rights_mut(&mut self, side: Side) -> (r: &mut (bool, bool))
        ensures
            *r == (if side == Side::White { old(self).white_castling } else { old(self).black_castling }),
            side == Side::White ==> *final(self) == (BoardState { white_castling: *final(r), ..*old(self) }),
            side == Side::Black ==> *final(self) == (BoardState { black_castling: *final(r), ..*old(self) }),
    {
        match side {
            Side::White => &mut self.white_castling,
            Side::Black => &mut self.black_castling,
        }
    }

    /// The castling rights (long, short) of `side`.
    pub fn side_castle_rights(&self, side: Side) -> (r: (bool, bool))
        ensures
            r == (if side == Side::White { self.white_castling } else { self.black_castling }),
    {
        match side {
            Side::White => self.white_castling,
            Side::Black => self.black_castling,
        }
    }

    /// The bitboards of `side`, to be changed in place.
    pub fn side_bitboards_mut(&mut self, side: Side) -> (r: &mut Bitboards)
        ensures
            *r == (if side == Side::White { old(self).white } else { old(self).black }),
            side == Side::White ==> *final(self) == (BoardState { white: *final(r), ..*old(self) }),
            side == Side::Black ==> *final(self) == (BoardState { black: *final(r), ..*old(self) }),
    {
        match side {
            Side::White => &mut self.white,
            Side::Black => &mut self.black,
        }
    }

    /// The bitboards of `side`.
    pub fn side_bitboards(&self, side: Side) -> (r: &Bitboards)
        ensures
            *r == (if side == Side::White { self.white } else { self.black }),
    {
        match side {
            Side::White => &self.white,
            Side::Black => &self.black,
        }
    }

    fn xor_bits(&mut self, side: Side, k: usize, mask: u64)
        requires
            k < 6,
        ensures
            *final(self) == (BoardState { white: final(self).white, black: final(self).black, ..*old(self) }),
            final(self).white.state@ == (if side == Side::White {
                old(self).white.state@.update(k as int, old(self).white.state[k as int] ^ mask)
            } else {
                old(self).white.state@
            }),
            final(self).black.state@ == (if side == Side::Black {
                old(self).black.state@.update(k as int, old(self).black.state[k as int] ^ mask)
            } else {
                old(self).black.state@
            }),
    {
        match side {
            Side::White => {
                self.white.state[k] = self.white.state[k] ^ mask;
            },
            Side::Black => {
                self.black.state[k] = self.black.state[k] ^ mask;
            },
        }
    }

    fn or_bits(&mut self, side: Side, k: usize, mask: u64)
        requires
            k < 6,
        ensures
            *final(self) == (BoardState { white: final(self).white, black: final(self).black, ..*old(self) }),
            final(self).white.state@ == (if side == Side::White {
                old(self).white.state@.update(k as int, old(self).white.state[k as int] | mask)
            } else {
                old(self).white.state@
            }),
            final(self).black.state@ == (if side == Side::Black {
                old(self).black.state@.update(k as int, old(self).black.state[k as int] | mask)
            } else {
                old(self).black.state@
            }),
    {
        match side {
            Side::White => {
                self.white.state[k] = self.white.state[k] | mask;
            },
            Side::Black => {
                self.black.state[k] = self.black.state[k] | mask;
            },
        }
    }
}


impl BoardState {
    /// Moves the pieces of `mov` by the side to move on the squares.
    fn make_squares_of(&mut self, mov: &Move)
        requires
            mov.from.valid(),
            mov.to.valid(),
        ensures
            final(self).board.board@ == make_squares(old(self).board.board@, *mov, old(self).side),
            *final(self) == (BoardState { board: final(self).board, ..*old(self) }),
    {
        let ally_side = self.side;
        let fi = mov.from.index as usize;
        let ti = mov.to.index as usize;
        let moved = self.board.board[fi];
        self.board.board[fi] = None;
        self.board.board[ti] = moved;
        let hs: usize = (ally_side.home_y() as usize) * 8;
        match mov.move_type {
            MoveType::Promotion(p) => {
                self.board.board[ti] = Some(p.with_side(ally_side));
            },
            MoveType::LongCastle => {
                let rook = self.board.board[hs];
                self.board.board[hs] = None;
                self.board.board[3 + hs] = rook;
            },
            MoveType::ShortCastle => {
                let rook = self.board.board[7 + hs];
                self.board.board[7 + hs] = None;
                self.board.board[5 + hs] = rook;
            },
            MoveType::EnPassant => {
                let ep_pawn = mov.to.with_y(ally_side.pers_y(4)).unwrap();
                self.board.board[ep_pawn.index as usize] = None;
            },
            _ => {},
        }
    }

    /// Xors the squares of `mov` by the side to move into the bitboards.
    fn make_bits_of(&mut self, mov: &Move)
        requires
            mov.from.valid(),
            mov.to.valid(),
        ensures
            final(self).white.state@ == Seq::new(6, |k: int| make_bits(old(self).white.state[k], *mov, old(self).side, Side::White, k)),
            final(self).black.state@ == Seq::new(6, |k: int| make_bits(old(self).black.state[k], *mov, old(self).side, Side::Black, k)),
            *final(self) == (BoardState { white: final(self).white, black: final(self).black, ..*old(self) }),
    {
        proof {
            lemma_zero_ops();
        }
        let ghost w0 = self.white.state@;
        let ghost b0 = self.black.state@;
        let ally_side = self.side;
        let tm = mov.to.as_mask();
        self.xor_bits(ally_side, mov.piece_type().index(), mov.from.as_mask() | tm);
        if let Some(taken) = mov.take {
            self.xor_bits(taken.side, taken.piece_type.index(), tm);
        }
        let ghost w2 = self.white.state@;
        let ghost b2 = self.black.state@;
        assert forall|k: int| 0 <= k < 6 implies #[trigger] w2[k] == (w0[k] ^ delta_piece(*mov, ally_side, Side::White, k)) ^ delta_take(*mov, Side::White, k) by {}
        assert forall|k: int| 0 <= k < 6 implies #[trigger] b2[k] == (b0[k] ^ delta_piece(*mov, ally_side, Side::Black, k)) ^ delta_take(*mov, Side::Black, k) by {}
        let h: u64 = (ally_side.home_y() as u64) * 8;
        match mov.move_type {
            MoveType::Promotion(p) => {
                self.xor_bits(ally_side, 0, tm);
                self.xor_bits(ally_side, p.index(), tm);
            },
            MoveType::LongCastle => {
                self.xor_bits(ally_side, 1, 9u64 << h);
            },
            MoveType::ShortCastle => {
                self.xor_bits(ally_side, 1, 0xa0u64 << h);
            },
            MoveType::EnPassant => {
                let ep_pawn = mov.to.with_y(ally_side.pers_y(4)).unwrap();
                self.xor_bits(ally_side.opposite(), 0, ep_pawn.as_mask());
            },
            _ => {},
        }
        assert(self.white.state@ =~= Seq::new(6, |k: int| make_bits(w0[k], *mov, ally_side, Side::White, k)));
        assert(self.black.state@ =~= Seq::new(6, |k: int| make_bits(b0[k], *mov, ally_side, Side::Black, k)));
    }

    /// Updates castling rights, the king's square and the hash's castling keys after `mov`
    /// by `ally`, starting from hash `z`.
    fn make_rights_of(&mut self, mov: &Move, keys: &ZobristRandom, ally_side: Side)
        requires
            mov.from.valid(),
            mov.to.valid(),
        ensures
            ({
                let b = BoardModel { side: ally_side, ..SearchBoard { state: *old(self), halfmove_clock: 0 }@ };
                let (ar1, z3) = drop_rook_right(*keys, ally_side, rights_of(b, ally_side), mov.from, old(self).zobrist);
                let (er1, z4) = drop_rook_right(*keys, other(ally_side), rights_of(b, other(ally_side)), mov.to, z3);
                let is_king = mov.moved_kind() == PieceType::King;
                let ar2 = if is_king { (false, false) } else { ar1 };
                let z5 = if is_king { drop_both_rights(*keys, ally_side, ar1, z4) } else { z4 };
                &&& final(self).zobrist == z5
                &&& final(self).white_castling == (if ally_side == Side::White { ar2 } else { er1 })
                &&& final(self).black_castling == (if ally_side == Side::White { er1 } else { ar2 })
                &&& final(self).white_king == (if is_king && ally_side == Side::White { mov.to } else { old(self).white_king })
                &&& final(self).black_king == (if is_king && ally_side == Side::Black { mov.to } else { old(self).black_king })
            }),
            final(self).white == old(self).white,
            final(self).black == old(self).black,
            final(self).board == old(self).board,
            final(self).side == old(self).side,
            final(self).en_passant_square == old(self).en_passant_square,
    {
        let from = mov.from;
        let to = mov.to;
        let enemy_side = ally_side.opposite();
        let ally_rook_long = Position::new(0, ally_side.home_y());
        let ally_rook_short = Position::new(7, ally_side.home_y());
        if from == ally_rook_long {
            if self.side_castle_rights(ally_side).0 {
                self.zobrist.update_long_castle(keys, ally_side);
            }
            self.side_castle_rights_mut(ally_side).0 = false;
        } else if from == ally_rook_short {
            if self.side_castle_rights(ally_side).1 {
                self.zobrist.update_short_castle(keys, ally_side);
            }
            self.side_castle_rights_mut(ally_side).1 = false;
        }
        let enemy_rook_long = Position::new(0, enemy_side.home_y());
        let enemy_rook_short = Position::new(7, enemy_side.home_y());
        if to == enemy_rook_long {
            if self.side_castle_rights(enemy_side).0 {
                self.zobrist.update_long_castle(keys, enemy_side);
            }
            self.side_castle_rights_mut(enemy_side).0 = false;
        } else if to == enemy_rook_short {
            if self.side_castle_rights(enemy_side).1 {
                self.zobrist.update_short_castle(keys, enemy_side);
            }
            self.side_castle_rights_mut(enemy_side).1 = false;
        }
        if mov.piece_type() == PieceType::King {
            *self.side_king_mut(ally_side) = to;
            if self.side_castle_rights(ally_side).0 {
                self.side_castle_rights_mut(ally_side).0 = false;
                self.zobrist.update_long_castle(keys, ally_side);
            }
            if self.side_castle_rights(ally_side).1 {
                self.side_castle_rights_mut(ally_side).1 = false;
                self.zobrist.update_short_castle(keys, ally_side);
            }
        }
    }
}

impl SearchBoard {
    /// Makes `mov` for the side to move, keeping the Zobrist hash up to date with `keys`.
    pub fn make(&mut self, mov: &Move, keys: &ZobristRandom)
        requires
            can_make(old(self)@, *mov),
        ensures
            final(self)@ == make_model(old(self)@, *mov, *keys),
    {
        let ghost b = self@;
        let ally_side = self.state.side;
        let piece = mov.piece_type();
        let from = mov.from;
        let to = mov.to;

        self.state.zobrist.update(keys, piece.with_side(ally_side), from);
        self.state.zobrist.update(keys, piece.with_side(ally_side), to);
        self.state.make_squares_of(mov);
        self.state.make_bits_of(mov);

        let mut increment_halfmove = mov.take.is_none();
        let mut updated_ep: Option<Position> = None;
        match mov.move_type {
            MoveType::Normal(PieceType::Pawn) => {
                if mov.is_pawn_starter() {
                    increment_halfmove = false;
                    updated_ep = Some(from.with_y(ally_side.pers_y(2)).unwrap());
                }
            },
            MoveType::EnPassant => {
                increment_halfmove = false;
            },
            _ => {},
        }
        if increment_halfmove {
            self.halfmove_clock = self.halfmove_clock + 1;
        } else {
            self.halfmove_clock = 0;
        }

        let before = self.state.en_passant_square;
        self.state.zobrist.update_ep_square(keys, ally_side, before, updated_ep);
        self.state.en_passant_square = updated_ep;
        self.state.zobrist.switch_side(keys);
        self.state.make_rights_of(mov, keys, ally_side);
        self.state.side = self.state.side.opposite();
        assert(self@.white =~= make_model(b, *mov, *keys).white);
        assert(self@.black =~= make_model(b, *mov, *keys).black);
        assert(self@ =~= make_model(b, *mov, *keys));
    }
}


impl BoardState {
    /// Puts the pieces of `ally`'s move `mov` back on the squares.
    fn unmake_squares_of(&mut self, mov: &Move, ally_side: Side)
        requires
            mov.from.valid(),
            mov.to.valid(),
        ensures
            final(self).board.board@ == unmake_squares(old(self).board.board@, *mov, ally_side),
            *final(self) == (BoardState { board: final(self).board, ..*old(self) }),
    {
        let fi = mov.from.index as usize;
        let ti = mov.to.index as usize;
        let arrived = self.board.board[ti];
        self.board.board[ti] = mov.take;
        self.board.board[fi] = arrived;
        let hs: usize = (ally_side.home_y() as usize) * 8;
        match mov.move_type {
            MoveType::Promotion(_) => {
                self.board.board[fi] = Some(PieceType::Pawn.with_side(ally_side));
            },
            MoveType::LongCastle => {
                let rook = self.board.board[3 + hs];
                self.board.board[3 + hs] = None;
                self.board.board[hs] = rook;
            },
            MoveType::ShortCastle => {
                let rook = self.board.board[5 + hs];
                self.board.board[5 + hs] = None;
                self.board.board[7 + hs] = rook;
            },
            MoveType::EnPassant => {
                let ep_pawn = mov.to.with_y(ally_side.pers_y(4)).unwrap();
                self.board.board[ep_pawn.index as usize] = Some(
                    PieceType::Pawn.with_side(ally_side.opposite()),
                );
            },
            _ => {},
        }
    }

    /// Xors `ally`'s move `mov` back out of the bitboards and restores a pawn taken en passant.
    fn unmake_bits_of(&mut self, mov: &Move, ally_side: Side)
        requires
            mov.from.valid(),
            mov.to.valid(),
        ensures
            final(self).white.state@ == Seq::new(6, |k: int| unmake_bits(old(self).white.state[k], *mov, ally_side, Side::White, k)),
            final(self).black.state@ == Seq::new(6, |k: int| unmake_bits(old(self).black.state[k], *mov, ally_side, Side::Black, k)),
            *final(self) == (BoardState { white: final(self).white, black: final(self).black, ..*old(self) }),
    {
        proof {
            lemma_zero_ops();
        }
        let ghost w0 = self.white.state@;
        let ghost b0 = self.black.state@;
        let tm = mov.to.as_mask();
        self.xor_bits(ally_side, mov.piece_type().index(), mov.from.as_mask() | tm);
        if let Some(taken) = mov.take {
            self.xor_bits(taken.side, taken.piece_type.index(), tm);
        }
        let ghost w2 = self.white.state@;
        let ghost b2 = self.black.state@;
        assert forall|k: int| 0 <= k < 6 implies #[trigger] w2[k] == (w0[k] ^ delta_piece(*mov, ally_side, Side::White, k)) ^ delta_take(*mov, Side::White, k) by {}
        assert forall|k: int| 0 <= k < 6 implies #[trigger] b2[k] == (b0[k] ^ delta_piece(*mov, ally_side, Side::Black, k)) ^ delta_take(*mov, Side::Black, k) by {}
        let h: u64 = (ally_side.home_y() as u64) * 8;
        match mov.move_type {
            MoveType::Promotion(p) => {
                self.xor_bits(ally_side, 0, tm);
                self.xor_bits(ally_side, p.index(), tm);
            },
            MoveType::LongCastle => {
                self.xor_bits(ally_side, 1, 9u64 << h);
            },
            MoveType::ShortCastle => {
                self.xor_bits(ally_side, 1, 0xa0u64 << h);
            },
            MoveType::EnPassant => {
                let ep_pawn = mov.to.with_y(ally_side.pers_y(4)).unwrap();
                self.or_bits(ally_side.opposite(), 0, ep_pawn.as_mask());
            },
            _ => {},
        }
        assert(self.white.state@ =~= Seq::new(6, |k: int| unmake_bits(w0[k], *mov, ally_side, Side::White, k)));
        assert(self.black.state@ =~= Seq::new(6, |k: int| unmake_bits(b0[k], *mov, ally_side, Side::Black, k)));
    }
}

impl SearchBoard {
    /// Takes back the last move, `unmove.mov`, restoring what `unmove` saved.
    pub fn unmake(&mut self, unmove: Unmove)
        requires
            unmove.mov.from.valid(),
            unmove.mov.to.valid(),
        ensures
            final(self)@ == unmake_model(old(self)@, unmove),
    {
        let ghost b = self@;
        self.state.side = self.state.side.opposite();
        let ally_side = self.state.side;
        let mov = unmove.mov;
        self.state.unmake_bits_of(mov, ally_side);
        self.state.unmake_squares_of(mov, ally_side);
        if mov.piece_type() == PieceType::King {
            *self.state.side_king_mut(ally_side) = mov.from;
        }
        self.state.en_passant_square = unmove.en_passant_square;
        self.state.white_castling = unmove.white_castling;
        self.state.black_castling = unmove.black_castling;
        self.state.zobrist = unmove.zobrist;
        self.halfmove_clock = unmove.halfmove_clock;
        assert(self@.white =~= unmake_model(b, unmove).white);
        assert(self@.black =~= unmake_model(b, unmove).black);
        assert(self@ =~= unmake_model(b, unmove));
    }
}


/// What taking a move back needs of the position it was made in: the taken piece stood on the
/// target square; a promoting pawn, an en passant victim and an empty square for the castling
/// rook stood where the move says; the castling rook's squares are not the move's own; a
/// moving king stood where the board records it.
pub open spec fn can_unmake_after(b: BoardModel, m: Move) -> bool {
    let ally = b.side;
    let fi = m.from.index as int;
    let ti = m.to.index as int;
    let h = home(ally) * 8;
    let e = ep_victim(ally, m.to);
    &&& fi != ti ==> b.squares[ti] == m.take
    &&& m.move_type matches MoveType::Promotion(_) ==> b.squares[fi] == Some(Piece { side: ally, piece_type: PieceType::Pawn })
    &&& m.move_type == MoveType::LongCastle ==> b.squares[h + 3] is None && fi != h && fi != h + 3 && ti != h && ti != h + 3
    &&& m.move_type == MoveType::ShortCastle ==> b.squares[h + 5] is None && fi != h + 7 && fi != h + 5 && ti != h + 7 && ti != h + 5
    &&& m.move_type == MoveType::EnPassant ==> {
        &&& b.squares[e.index as int] == Some(Piece { side: other(ally), piece_type: PieceType::Pawn })
        &&& e.index != fi && e.index != ti
        &&& crate::bits::is_set(if ally == Side::White { b.black[0] } else { b.white[0] }, e.index as u64)
    }
    &&& m.moved_kind() == PieceType::King ==> m.from == (if ally == Side::White { b.white_king } else { b.black_king })
}

proof fn lemma_xor_chain_undo(x: u64, a: u64, b: u64, c: u64, d: u64, e: u64)
    by (bit_vector)
    requires
        x & e == e,
    ensures
        ((((((((((x ^ a) ^ b) ^ c) ^ d) ^ e) ^ a) ^ b) ^ c) ^ d) | e) == x,
{
}

proof fn lemma_single_bit(x: u64, i: u64)
    by (bit_vector)
    requires
        i < 64,
    ensures
        (x & (1u64 << i) != 0) == (x & (1u64 << i) == (1u64 << i)),
        x & 0 == 0,
{
}

/// Whether move `m` in `b` drops black's long castling right: black holds it and a white move
/// lands on a8, or black moves from a8 or moves its king.
pub open spec fn drops_black_long(b: BoardModel, m: Move) -> bool {
    &&& b.black_castling.0
    &&& if b.side == Side::White {
        m.to == home_rook(Side::Black, 0)
    } else {
        m.from == home_rook(Side::Black, 0) || m.moved_kind() == PieceType::King
    }
}

/// Whether making `m` in `b` keeps the hash equal to the full hash of the position: a plain
/// move of a piece to another square that takes nothing and is no double pawn step, in a
/// position without an en passant square, that leaves black's long castling right as it was.
/// (Make hashes a capture without the taken piece, a promotion, castling, en passant and the en
/// passant square otherwise than the full hash does, and black's long right with a key of its
/// own where the full hash uses black's short key.)
pub open spec fn keeps_full_hash(b: BoardModel, m: Move) -> bool {
    &&& m.move_type is Normal
    &&& m.take is None
    &&& m.from.valid()
    &&& m.to.valid()
    &&& m.from != m.to
    &&& !(m.moved_kind() == PieceType::Pawn && m.two_ranks())
    &&& b.en_passant is None
    &&& !drops_black_long(b, m)
}

/// The castling and side part of the full hash, xor-ed onto `h`; black's long right takes
/// black's short key.
pub open spec fn rights_chain(h: u64, w0: bool, w1: bool, b0: bool, b1: bool, black: bool, wk0: u64, wk1: u64, bk1: u64, bl: u64) -> u64 {
    let h2 = if w0 { h ^ wk0 } else { h };
    let h3 = if w1 { h2 ^ wk1 } else { h2 };
    let h4 = if b0 { h3 ^ bk1 } else { h3 };
    let h5 = if b1 { h4 ^ bk1 } else { h4 };
    if black { h5 ^ bl } else { h5 }
}

/// The long right after a move from or onto a rook square: dropped when the square is the
/// long rook's.
pub open spec fn drop0(on_long: bool, r0: bool) -> bool {
    if on_long { false } else { r0 }
}

/// The short right after a move from or onto a rook square: dropped when the square is the
/// short rook's.
pub open spec fn drop1(on_long: bool, on_short: bool, r1: bool) -> bool {
    if on_long { r1 } else if on_short { false } else { r1 }
}

/// The hash after a right held on the rook square is dropped.
pub open spec fn drop_hash(on_long: bool, on_short: bool, r0: bool, r1: bool, z: u64, k0: u64, k1: u64) -> u64 {
    if on_long {
        if r0 { z ^ k0 } else { z }
    } else if on_short {
        if r1 { z ^ k1 } else { z }
    } else {
        z
    }
}

/// The hash after both held rights are dropped.
pub open spec fn both_hash(r0: bool, r1: bool, z: u64, k0: u64, k1: u64) -> u64 {
    let z1 = if r0 { z ^ k0 } else { z };
    if r1 { z1 ^ k1 } else { z1 }
}

proof fn lemma_white_move_hash(
    h0: u64, kf: u64, kt: u64, wk0: u64, wk1: u64, bk0: u64, bk1: u64, bl: u64,
    wc0: bool, wc1: bool, bc0: bool, bc1: bool, fa: bool, fh: bool, ta: bool, th: bool, king: bool,
)
    requires
        !(bc0 && ta),
    ensures
        rights_chain(h0 ^ (kf ^ kt), if king { false } else { drop0(fa, wc0) }, if king { false } else { drop1(fa, fh, wc1) },
            drop0(ta, bc0), drop1(ta, th, bc1), true, wk0, wk1, bk1, bl)
        == ({
            let z2 = ((rights_chain(h0, wc0, wc1, bc0, bc1, false, wk0, wk1, bk1, bl) ^ kf) ^ kt) ^ bl;
            let z3 = drop_hash(fa, fh, wc0, wc1, z2, wk0, wk1);
            let z4 = drop_hash(ta, th, bc0, bc1, z3, bk0, bk1);
            if king { both_hash(drop0(fa, wc0), drop1(fa, fh, wc1), z4, wk0, wk1) } else { z4 }
        }),
{
    if king {
        lemma_white_king_hash(h0, kf, kt, wk0, wk1, bk0, bk1, bl, wc0, wc1, bc0, bc1, fa, fh, ta, th);
    } else {
        lemma_white_plain_hash(h0, kf, kt, wk0, wk1, bk0, bk1, bl, wc0, wc1, bc0, bc1, fa, fh, ta, th);
    }
}

proof fn lemma_white_king_hash(
    h0: u64, kf: u64, kt: u64, wk0: u64, wk1: u64, bk0: u64, bk1: u64, bl: u64,
    wc0: bool, wc1: bool, bc0: bool, bc1: bool, fa: bool, fh: bool, ta: bool, th: bool,
)
    requires
        !(bc0 && ta),
    ensures
        rights_chain(h0 ^ (kf ^ kt), false, false, drop0(ta, bc0), drop1(ta, th, bc1), true, wk0, wk1, bk1, bl)
        == both_hash(drop0(fa, wc0), drop1(fa, fh, wc1), drop_hash(ta, th, bc0, bc1,
            drop_hash(fa, fh, wc0, wc1, ((rights_chain(h0, wc0, wc1, bc0, bc1, false, wk0, wk1, bk1, bl) ^ kf) ^ kt) ^ bl,
            wk0, wk1), bk0, bk1), wk0, wk1),
{
    if fa {
        lemma_white_king_from_long(h0, kf, kt, wk0, wk1, bk0, bk1, bl, wc0, wc1, bc0, bc1, ta, th);
    } else if fh {
        lemma_white_king_from_short(h0, kf, kt, wk0, wk1, bk0, bk1, bl, wc0, wc1, bc0, bc1, ta, th);
    } else {
        lemma_white_king_elsewhere(h0, kf, kt, wk0, wk1, bk0, bk1, bl, wc0, wc1, bc0, bc1, ta, th);
    }
}

#[verifier::rlimit(100)]
proof fn lemma_white_king_from_long(
    h0: u64, kf: u64, kt: u64, wk0: u64, wk1: u64, bk0: u64, bk1: u64, bl: u64,
    wc0: bool, wc1: bool, bc0: bool, bc1: bool, ta: bool, th: bool,
)
    by (bit_vector)
    requires
        !(bc0 && ta),
    ensures
        rights_chain(h0 ^ (kf ^ kt), false, false, drop0(ta, bc0), drop1(ta, th, bc1), true, wk0, wk1, bk1, bl)
        == both_hash(drop0(true, wc0), drop1(true, false, wc1), drop_hash(ta, th, bc0, bc1,
            drop_hash(true, false, wc0, wc1, ((rights_chain(h0, wc0, wc1, bc0, bc1, false, wk0, wk1, bk1, bl) ^ kf) ^ kt) ^ bl,
            wk0, wk1), bk0, bk1), wk0, wk1),
{
}

#[verifier::rlimit(100)]
proof fn lemma_white_king_from_short(
    h0: u64, kf: u64, kt: u64, wk0: u64, wk1: u64, bk0: u64, bk1: u64, bl: u64,
    wc0: bool, wc1: bool, bc0: bool, bc1: bool, ta: bool, th: bool,
)
    by (bit_vector)
    requires
        !(bc0 && ta),
    ensures
        rights_chain(h0 ^ (kf ^ kt), false, false, drop0(ta, bc0), drop1(ta, th, bc1), true, wk0, wk1, bk1, bl)
        == both_hash(drop0(false, wc0), drop1(false, true, wc1), drop_hash(ta, th, bc0, bc1,
            drop_hash(false, true, wc0, wc1, ((rights_chain(h0, wc0, wc1, bc0, bc1, false, wk0, wk1, bk1, bl) ^ kf) ^ kt) ^ bl,
            wk0, wk1), bk0, bk1), wk0, wk1),
{
}

#[verifier::rlimit(100)]
proof fn lemma_white_king_elsewhere(
    h0: u64, kf: u64, kt: u64, wk0: u64, wk1: u64, bk0: u64, bk1: u64, bl: u64,
    wc0: bool, wc1: bool, bc0: bool, bc1: bool, ta: bool, th: bool,
)
    by (bit_vector)
    requires
        !(bc0 && ta),
    ensures
        rights_chain(h0 ^ (kf ^ kt), false, false, drop0(ta, bc0), drop1(ta, th, bc1), true, wk0, wk1, bk1, bl)
        == both_hash(drop0(false, wc0), drop1(false, false, wc1), drop_hash(ta, th, bc0, bc1,
            drop_hash(false, false, wc0, wc1, ((rights_chain(h0, wc0, wc1, bc0, bc1, false, wk0, wk1, bk1, bl) ^ kf) ^ kt) ^ bl,
            wk0, wk1), bk0, bk1), wk0, wk1),
{
}

#[verifier::rlimit(100)]
proof fn lemma_white_plain_hash(
    h0: u64, kf: u64, kt: u64, wk0: u64, wk1: u64, bk0: u64, bk1: u64, bl: u64,
    wc0: bool, wc1: bool, bc0: bool, bc1: bool, fa: bool, fh: bool, ta: bool, th: bool,
)
    by (bit_vector)
    requires
        !(bc0 && ta),
    ensures
        rights_chain(h0 ^ (kf ^ kt), drop0(fa, wc0), drop1(fa, fh, wc1), drop0(ta, bc0), drop1(ta, th, bc1), true, wk0, wk1, bk1, bl)
        == drop_hash(ta, th, bc0, bc1,
            drop_hash(fa, fh, wc0, wc1, ((rights_chain(h0, wc0, wc1, bc0, bc1, false, wk0, wk1, bk1, bl) ^ kf) ^ kt) ^ bl,
            wk0, wk1), bk0, bk1),
{
}

#[verifier::rlimit(100)]
proof fn lemma_black_move_hash(
    h0: u64, kf: u64, kt: u64, wk0: u64, wk1: u64, bk0: u64, bk1: u64, bl: u64,
    wc0: bool, wc1: bool, bc0: bool, bc1: bool, fa: bool, fh: bool, ta: bool, th: bool, king: bool,
)
    by (bit_vector)
    requires
        !(bc0 && (fa || king)),
    ensures
        rights_chain(h0 ^ (kf ^ kt), drop0(ta, wc0), drop1(ta, th, wc1),
            if king { false } else { drop0(fa, bc0) }, if king { false } else { drop1(fa, fh, bc1) }, false, wk0, wk1, bk1, bl)
        == ({
            let z2 = ((rights_chain(h0, wc0, wc1, bc0, bc1, true, wk0, wk1, bk1, bl) ^ kf) ^ kt) ^ bl;
            let z3 = drop_hash(fa, fh, bc0, bc1, z2, bk0, bk1);
            let z4 = drop_hash(ta, th, wc0, wc1, z3, wk0, wk1);
            if king { both_hash(drop0(fa, bc0), drop1(fa, fh, bc1), z4, bk0, bk1) } else { z4 }
        }),
{
}

proof fn lemma_xor_zeros(y: u64, d: u64)
    by (bit_vector)
    ensures
        ((((y ^ 0u64) ^ 0u64) ^ 0u64) ^ 0u64) ^ 0u64 == y,
        ((((y ^ d) ^ 0u64) ^ 0u64) ^ 0u64) ^ 0u64 == y ^ d,
{
}

/// Make keeps the hash the full hash of the position, on the moves that `keeps_full_hash`
/// admits: when `c` is `b` after `m` and `b` holds its full hash, so does `c`.
pub proof fn lemma_make_keeps_full_hash(b: SearchBoard, c: SearchBoard, m: Move, keys: ZobristRandom)
    requires
        keeps_full_hash(b@, m),
        b.state.zobrist == keys.hash_of(b.state),
        c@ == make_model(b@, m, keys),
    ensures
        c.state.zobrist == keys.hash_of(c.state),
{
    broadcast use vstd::array::group_array_axioms;

    let ally = b.state.side;
    let kind = m.moved_kind();
    let piece = Piece { side: ally, piece_type: kind };
    let slot = piece_slot(piece);
    let f = m.from.index as u64;
    let t = m.to.index as u64;
    let d = (1u64 << f) | (1u64 << t);
    let (w, bk, w2, bk2) = (b.state.white.state, b.state.black.state, c.state.white.state, c.state.black.state);
    assert(m.from.mask() | m.to.mask() == d);
    assert forall|k: int| 0 <= k < 6 implies #[trigger] w2[k] == make_bits(w[k], m, ally, Side::White, k) by {
        assert(w2[k] == c@.white[k]);
    }
    assert forall|k: int| 0 <= k < 6 implies #[trigger] bk2[k] == make_bits(bk[k], m, ally, Side::Black, k) by {
        assert(bk2[k] == c@.black[k]);
    }
    assert forall|x: int| 0 <= x < 12 && x != slot implies #[trigger] slot_board(w2, bk2, x) == slot_board(w, bk, x) by {
        if x < 6 {
            lemma_xor_zeros(w[x], d);
        } else {
            lemma_xor_zeros(bk[x - 6], d);
        }
    }
    if ally == Side::White {
        lemma_xor_zeros(w[kind.code() as int], d);
    } else {
        lemma_xor_zeros(bk[kind.code() as int], d);
    }
    assert(slot_board(w2, bk2, slot) == slot_board(w, bk, slot) ^ d);
    lemma_pieces_hash_delta(keys, w, bk, w2, bk2, slot, d, 768);
    lemma_mask_hash_two(keys, slot, f, t, 768);
    let kf = keys.piece_key(piece, m.from);
    let kt = keys.piece_key(piece, m.to);
    let h0 = keys.pieces_hash(w, bk, 768);
    assert(keys.pieces_hash(w2, bk2, 768) == h0 ^ (kf ^ kt));
    let enemy = other(ally);
    let fa = m.from == home_rook(ally, 0);
    let fh = m.from == home_rook(ally, 1);
    let ta = m.to == home_rook(enemy, 0);
    let th = m.to == home_rook(enemy, 1);
    let king = kind == PieceType::King;
    let (wk0, wk1, bl0, bl1, blk) = (keys.white_castle_rights[0], keys.white_castle_rights[1],
        keys.black_castle_rights[0], keys.black_castle_rights[1], keys.black);
    let (wc0, wc1, bc0, bc1) = (b.state.white_castling.0, b.state.white_castling.1, b.state.black_castling.0,
        b.state.black_castling.1);
    if ally == Side::White {
        assert(b.state.zobrist == rights_chain(h0, wc0, wc1, bc0, bc1, false, wk0, wk1, bl1, blk));
        lemma_white_move_hash(h0, kf, kt, wk0, wk1, bl0, bl1, blk, wc0, wc1, bc0, bc1, fa, fh, ta, th, king);
    } else {
        assert(b.state.zobrist == rights_chain(h0, wc0, wc1, bc0, bc1, true, wk0, wk1, bl1, blk));
        lemma_black_move_hash(h0, kf, kt, wk0, wk1, bl0, bl1, blk, wc0, wc1, bc0, bc1, fa, fh, ta, th, king);
    }
}

/// The bitboard of piece `p` in `b`.
pub open spec fn board_of(b: BoardModel, p: Piece) -> u64 {
    if p.side == Side::White { b.white[p.piece_type.code() as int] } else { b.black[p.piece_type.code() as int] }
}

/// Whether the mailbox and the bitboards of `b` agree: a square holds a piece exactly when
/// that piece's bitboard has the square.
pub open spec fn squares_agree(b: BoardModel) -> bool {
    &&& b.white.len() == 6
    &&& b.black.len() == 6
    &&& b.squares.len() == 64
    &&& forall|i: u64, p: Piece| i < 64 ==> (b.squares[i as int] == Some(p) <==> #[trigger] is_set(board_of(b, p), i))
}

/// Whether the recorded king squares of `b` hold the kings.
pub open spec fn kings_in_place(b: BoardModel) -> bool {
    &&& b.white_king.valid()
    &&& b.black_king.valid()
    &&& b.squares[b.white_king.index as int] == Some(Piece { side: Side::White, piece_type: PieceType::King })
    &&& b.squares[b.black_king.index as int] == Some(Piece { side: Side::Black, piece_type: PieceType::King })
}

/// Whether move `m` fits the board `b`: its squares differ and lie on the board, the piece it
/// moves stands on its first square (a king on its recorded square), and it takes what stands on its second square (a piece
/// other than a king, or nothing); castling has its rook in the corner and
/// the rook's square next to the king empty, neither touched by the king's two squares; en
/// passant lands on an empty square and takes the other side's pawn beside it.
pub open spec fn fits(b: BoardModel, m: Move) -> bool {
    let ally = b.side;
    let fi = m.from.index as int;
    let ti = m.to.index as int;
    let h = home(ally) * 8;
    &&& m.from.valid()
    &&& m.to.valid()
    &&& fi != ti
    &&& b.squares[fi] == Some(Piece { side: ally, piece_type: m.moved_kind() })
    &&& m.moved_kind() == PieceType::King ==> m.from == (if ally == Side::White { b.white_king } else { b.black_king })
    &&& m.take matches Some(t) ==> t.piece_type != PieceType::King
    &&& match m.move_type {
        MoveType::Normal(_) => b.squares[ti] == m.take,
        MoveType::Promotion(_) => b.squares[ti] == m.take,
        MoveType::LongCastle => {
            &&& m.take is None
            &&& b.squares[ti] is None
            &&& b.squares[h] == Some(Piece { side: ally, piece_type: PieceType::Rook })
            &&& b.squares[h + 3] is None
            &&& fi != h && fi != h + 3 && ti != h && ti != h + 3
        },
        MoveType::ShortCastle => {
            &&& m.take is None
            &&& b.squares[ti] is None
            &&& b.squares[h + 7] == Some(Piece { side: ally, piece_type: PieceType::Rook })
            &&& b.squares[h + 5] is None
            &&& fi != h + 7 && fi != h + 5 && ti != h + 7 && ti != h + 5
        },
        MoveType::EnPassant => {
            let e = ep_victim(ally, m.to).index as int;
            &&& m.take is None
            &&& b.squares[ti] is None
            &&& b.squares[e] == Some(Piece { side: other(ally), piece_type: PieceType::Pawn })
            &&& e != fi && e != ti
        },
    }
}

proof fn lemma_two_bits(a: u64, c: u64, i: u64)
    by (bit_vector)
    requires
        a < 64,
        c < 64,
        i < 64,
    ensures
        is_set((1u64 << a) | (1u64 << c), i) == (i == a || i == c),
        is_set(1u64 << a, i) == (i == a),
        !is_set(0u64, i),
{
}

proof fn lemma_rook_bits(h: u64, i: u64)
    by (bit_vector)
    requires
        h == 0 || h == 56,
        i < 64,
    ensures
        is_set(9u64 << h, i) == (i == h || i == h + 3),
        is_set(0xa0u64 << h, i) == (i == h + 5 || i == h + 7),
{
}

proof fn lemma_xor5(x: u64, a: u64, b: u64, c: u64, d: u64, e: u64, i: u64)
    requires
        i < 64,
    ensures
        is_set((((x ^ a) ^ b) ^ c) ^ d ^ e, i)
            == (is_set(x, i) != is_set(a, i) != is_set(b, i) != is_set(c, i) != is_set(d, i) != is_set(e, i)),
{
    crate::bits::lemma_bit_ops(x, a, i);
    crate::bits::lemma_bit_ops(x ^ a, b, i);
    crate::bits::lemma_bit_ops((x ^ a) ^ b, c, i);
    crate::bits::lemma_bit_ops(((x ^ a) ^ b) ^ c, d, i);
    crate::bits::lemma_bit_ops((((x ^ a) ^ b) ^ c) ^ d, e, i);
}

/// Making a move that fits the board keeps the mailbox and the bitboards in agreement and the
/// recorded kings on the kings' squares; the other side is then to move, the first square is
/// empty and the second holds a piece of the side that moved.
pub proof fn lemma_make_keeps_squares(b: BoardModel, m: Move, keys: ZobristRandom)
    requires
        squares_agree(b),
        kings_in_place(b),
        fits(b, m),
    ensures
        squares_agree(make_model(b, m, keys)),
        kings_in_place(make_model(b, m, keys)),
        make_model(b, m, keys).side == other(b.side),
        make_model(b, m, keys).squares[m.from.index as int] is None,
        make_model(b, m, keys).squares[m.to.index as int] matches Some(p) && p.side == b.side,
{
    let c = make_model(b, m, keys);
    let ally = b.side;
    let f = m.from.index as u64;
    let t = m.to.index as u64;
    let h = (home(ally) * 8) as u64;
    let e = ep_victim(ally, m.to);
    assert(e.valid()) by {
        assert(m.to.col() < 8);
    }
    assert forall|i: u64, p: Piece| i < 64 implies (c.squares[i as int] == Some(p) <==> #[trigger] is_set(board_of(c, p), i)) by {
        let k = p.piece_type.code() as int;
        let x = board_of(b, p);
        assert(board_of(c, p) == make_bits(x, m, ally, p.side, k));
        lemma_xor5(x, delta_piece(m, ally, p.side, k), delta_take(m, p.side, k), delta_special(m, ally, p.side, k),
            delta_promoted(m, ally, p.side, k), delta_ep(m, ally, p.side, k), i);
        lemma_two_bits(f, t, i);
        lemma_two_bits(t, t, i);
        lemma_two_bits(e.index as u64, e.index as u64, i);
        lemma_rook_bits(h, i);
        assert(b.squares[i as int] == Some(p) <==> is_set(x, i));
    }
}

/// A move that fits the board can be taken back after it is made.
pub proof fn lemma_fits_can_unmake(b: BoardModel, m: Move)
    requires
        squares_agree(b),
        fits(b, m),
    ensures
        can_unmake_after(b, m),
{
    if m.move_type == MoveType::EnPassant {
        let e = ep_victim(b.side, m.to);
        let pawn = Piece { side: other(b.side), piece_type: PieceType::Pawn };
        assert(e.valid()) by {
            assert(m.to.col() < 8);
        }
        assert(is_set(board_of(b, pawn), e.index as u64));
    }
}

/// Making a move that fits the board and taking it back, with what the position held before,
/// gives the position again.
pub proof fn lemma_make_unmake_fitting(board: SearchBoard, m: Move, keys: ZobristRandom)
    requires
        squares_agree(board@),
        fits(board@, m),
        can_make(board@, m),
    ensures
        unmake_model(
            make_model(board@, m, keys),
            Unmove {
                mov: &m,
                en_passant_square: board.state.en_passant_square,
                white_castling: board.state.white_castling,
                black_castling: board.state.black_castling,
                zobrist: board.state.zobrist,
                halfmove_clock: board.halfmove_clock,
            },
        ) == board@,
{
    lemma_fits_can_unmake(board@, m);
    lemma_make_unmake(board, m, keys);
}

/// Taking back a move restores the position it was made in: making `m` and then taking it
/// back, with what the position held before, gives the position again.
pub proof fn lemma_make_unmake(board: SearchBoard, m: Move, keys: ZobristRandom)
    requires
        can_make(board@, m),
        can_unmake_after(board@, m),
    ensures
        unmake_model(
            make_model(board@, m, keys),
            Unmove {
                mov: &m,
                en_passant_square: board.state.en_passant_square,
                white_castling: board.state.white_castling,
                black_castling: board.state.black_castling,
                zobrist: board.state.zobrist,
                halfmove_clock: board.halfmove_clock,
            },
        ) == board@,
{
    let b = board@;
    let u = Unmove {
        mov: &m,
        en_passant_square: board.state.en_passant_square,
        white_castling: board.state.white_castling,
        black_castling: board.state.black_castling,
        zobrist: board.state.zobrist,
        halfmove_clock: board.halfmove_clock,
    };
    let after = make_model(b, m, keys);
    let back = unmake_model(after, u);
    let ally = b.side;
    let e = ep_victim(ally, m.to);
    lemma_single_bit(b.white[0], e.index as u64);
    lemma_single_bit(b.black[0], e.index as u64);
    assert forall|k: int| 0 <= k < 6 implies #[trigger] back.white[k] == b.white[k] by {
        let x = b.white[k];
        lemma_single_bit(x, e.index as u64);
        lemma_xor_chain_undo(
            x,
            delta_piece(m, ally, Side::White, k),
            delta_take(m, Side::White, k),
            delta_special(m, ally, Side::White, k),
            delta_promoted(m, ally, Side::White, k),
            delta_ep(m, ally, Side::White, k),
        );
    }
    assert forall|k: int| 0 <= k < 6 implies #[trigger] back.black[k] == b.black[k] by {
        let x = b.black[k];
        lemma_single_bit(x, e.index as u64);
        lemma_xor_chain_undo(
            x,
            delta_piece(m, ally, Side::Black, k),
            delta_take(m, Side::Black, k),
            delta_special(m, ally, Side::Black, k),
            delta_promoted(m, ally, Side::Black, k),
            delta_ep(m, ally, Side::Black, k),
        );
    }
    assert(back.white =~= b.white);
    assert(back.black =~= b.black);
    assert(back.squares =~= b.squares);
    assert(back =~= b);
}

proof fn lemma_start_bits(i: u64)
    by (bit_vector)
    requires
        i < 64,
    ensures
        !((is_set(0xFF00u64, i) || is_set(0x81u64, i) || is_set(0x42u64, i) || is_set(0x24u64, i)
            || is_set(0x8u64, i) || is_set(0x10u64, i))
            && (is_set(0xFF000000000000u64, i) || is_set(0x8100000000000000u64, i) || is_set(0x4200000000000000u64, i)
            || is_set(0x2400000000000000u64, i) || is_set(0x800000000000000u64, i) || is_set(0x1000000000000000u64, i))),
{
}

/// The two sides of the starting position hold no square in common.
proof fn lemma_start_disjoint(w: [u64; 6], b: [u64; 6])
    requires
        w@ == seq![0xFF00u64, 0x81, 0x42, 0x24, 0x8, 0x10],
        b@ == seq![0xFF000000000000u64, 0x8100000000000000, 0x4200000000000000, 0x2400000000000000, 0x800000000000000, 0x1000000000000000],
    ensures
        sides_disjoint(w, b),
{
    assert(w[0] == w@[0] && w[1] == w@[1] && w[2] == w@[2] && w[3] == w@[3] && w[4] == w@[4] && w[5] == w@[5]);
    assert(b[0] == b@[0] && b[1] == b@[1] && b[2] == b@[2] && b[3] == b@[3] && b[4] == b@[4] && b[5] == b@[5]);
    assert forall|i: u64| i < 64 implies !(#[trigger] role_at(w, i) is Some && role_at(b, i) is Some) by {
        lemma_start_bits(i);
    }
}

/// No square of the starting position is held by two of its twelve bitboards.
pub(crate) proof fn lemma_start_one_piece(i: u64)
    by (bit_vector)
    requires
        i < 64,
    ensures
        !(is_set(0xFF00u64, i) && is_set(0x81u64, i)),
        !(is_set(0xFF00u64, i) && is_set(0x42u64, i)),
        !(is_set(0xFF00u64, i) && is_set(0x24u64, i)),
        !(is_set(0xFF00u64, i) && is_set(0x8u64, i)),
        !(is_set(0xFF00u64, i) && is_set(0x10u64, i)),
        !(is_set(0xFF00u64, i) && is_set(0xFF000000000000u64, i)),
        !(is_set(0xFF00u64, i) && is_set(0x8100000000000000u64, i)),
        !(is_set(0xFF00u64, i) && is_set(0x4200000000000000u64, i)),
        !(is_set(0xFF00u64, i) && is_set(0x2400000000000000u64, i)),
        !(is_set(0xFF00u64, i) && is_set(0x800000000000000u64, i)),
        !(is_set(0xFF00u64, i) && is_set(0x1000000000000000u64, i)),
        !(is_set(0x81u64, i) && is_set(0x42u64, i)),
        !(is_set(0x81u64, i) && is_set(0x24u64, i)),
        !(is_set(0x81u64, i) && is_set(0x8u64, i)),
        !(is_set(0x81u64, i) && is_set(0x10u64, i)),
        !(is_set(0x81u64, i) && is_set(0xFF000000000000u64, i)),
        !(is_set(0x81u64, i) && is_set(0x8100000000000000u64, i)),
        !(is_set(0x81u64, i) && is_set(0x4200000000000000u64, i)),
        !(is_set(0x81u64, i) && is_set(0x2400000000000000u64, i)),
        !(is_set(0x81u64, i) && is_set(0x800000000000000u64, i)),
        !(is_set(0x81u64, i) && is_set(0x1000000000000000u64, i)),
        !(is_set(0x42u64, i) && is_set(0x24u64, i)),
        !(is_set(0x42u64, i) && is_set(0x8u64, i)),
        !(is_set(0x42u64, i) && is_set(0x10u64, i)),
        !(is_set(0x42u64, i) && is_set(0xFF000000000000u64, i)),
        !(is_set(0x42u64, i) && is_set(0x8100000000000000u64, i)),
        !(is_set(0x42u64, i) && is_set(0x4200000000000000u64, i)),
        !(is_set(0x42u64, i) && is_set(0x2400000000000000u64, i)),
        !(is_set(0x42u64, i) && is_set(0x800000000000000u64, i)),
        !(is_set(0x42u64, i) && is_set(0x1000000000000000u64, i)),
        !(is_set(0x24u64, i) && is_set(0x8u64, i)),
        !(is_set(0x24u64, i) && is_set(0x10u64, i)),
        !(is_set(0x24u64, i) && is_set(0xFF000000000000u64, i)),
        !(is_set(0x24u64, i) && is_set(0x8100000000000000u64, i)),
        !(is_set(0x24u64, i) && is_set(0x4200000000000000u64, i)),
        !(is_set(0x24u64, i) && is_set(0x2400000000000000u64, i)),
        !(is_set(0x24u64, i) && is_set(0x800000000000000u64, i)),
        !(is_set(0x24u64, i) && is_set(0x1000000000000000u64, i)),
        !(is_set(0x8u64, i) && is_set(0x10u64, i)),
        !(is_set(0x8u64, i) && is_set(0xFF000000000000u64, i)),
        !(is_set(0x8u64, i) && is_set(0x8100000000000000u64, i)),
        !(is_set(0x8u64, i) && is_set(0x4200000000000000u64, i)),
        !(is_set(0x8u64, i) && is_set(0x2400000000000000u64, i)),
        !(is_set(0x8u64, i) && is_set(0x800000000000000u64, i)),
        !(is_set(0x8u64, i) && is_set(0x1000000000000000u64, i)),
        !(is_set(0x10u64, i) && is_set(0xFF000000000000u64, i)),
        !(is_set(0x10u64, i) && is_set(0x8100000000000000u64, i)),
        !(is_set(0x10u64, i) && is_set(0x4200000000000000u64, i)),
        !(is_set(0x10u64, i) && is_set(0x2400000000000000u64, i)),
        !(is_set(0x10u64, i) && is_set(0x800000000000000u64, i)),
        !(is_set(0x10u64, i) && is_set(0x1000000000000000u64, i)),
        !(is_set(0xFF000000000000u64, i) && is_set(0x8100000000000000u64, i)),
        !(is_set(0xFF000000000000u64, i) && is_set(0x4200000000000000u64, i)),
        !(is_set(0xFF000000000000u64, i) && is_set(0x2400000000000000u64, i)),
        !(is_set(0xFF000000000000u64, i) && is_set(0x800000000000000u64, i)),
        !(is_set(0xFF000000000000u64, i) && is_set(0x1000000000000000u64, i)),
        !(is_set(0x8100000000000000u64, i) && is_set(0x4200000000000000u64, i)),
        !(is_set(0x8100000000000000u64, i) && is_set(0x2400000000000000u64, i)),
        !(is_set(0x8100000000000000u64, i) && is_set(0x800000000000000u64, i)),
        !(is_set(0x8100000000000000u64, i) && is_set(0x1000000000000000u64, i)),
        !(is_set(0x4200000000000000u64, i) && is_set(0x2400000000000000u64, i)),
        !(is_set(0x4200000000000000u64, i) && is_set(0x800000000000000u64, i)),
        !(is_set(0x4200000000000000u64, i) && is_set(0x1000000000000000u64, i)),
        !(is_set(0x2400000000000000u64, i) && is_set(0x800000000000000u64, i)),
        !(is_set(0x2400000000000000u64, i) && is_set(0x1000000000000000u64, i)),
        !(is_set(0x800000000000000u64, i) && is_set(0x1000000000000000u64, i)),
{
}

proof fn lemma_start_kings()
    by (bit_vector)
    ensures
        is_set(0x10u64, 4u64),
        is_set(0x1000000000000000u64, 60u64),
{
}

/// In the starting position the mailbox and the bitboards agree and the kings stand on their
/// recorded squares.
proof fn lemma_start_agree(st: BoardState)
    requires
        st.white.state@ == seq![0xFF00u64, 0x81, 0x42, 0x24, 0x8, 0x10],
        st.black.state@ == seq![0xFF000000000000u64, 0x8100000000000000, 0x4200000000000000, 0x2400000000000000,
            0x800000000000000, 0x1000000000000000],
        forall|i: int| 0 <= i < 64 ==> #[trigger] st.board.board[i] == merged_at(st.white.state, st.black.state, i as u64),
        st.white_king == Position::at(4, 0),
        st.black_king == Position::at(4, 7),
    ensures
        squares_agree(SearchBoard { state: st, halfmove_clock: 0 }@),
        kings_in_place(SearchBoard { state: st, halfmove_clock: 0 }@),
{
    let b = SearchBoard { state: st, halfmove_clock: 0 }@;
    let w = st.white.state;
    let k = st.black.state;
    assert(w[0] == w@[0] && w[1] == w@[1] && w[2] == w@[2] && w[3] == w@[3] && w[4] == w@[4] && w[5] == w@[5]);
    assert(k[0] == k@[0] && k[1] == k@[1] && k[2] == k@[2] && k[3] == k@[3] && k[4] == k@[4] && k[5] == k@[5]);
    assert forall|i: u64, p: Piece| i < 64 implies (b.squares[i as int] == Some(p) <==> #[trigger] is_set(board_of(b, p), i)) by {
        lemma_start_one_piece(i);
        assert(b.squares[i as int] == merged_at(w, k, i));
    }
    lemma_start_kings();
    assert(st.white_king.index == 4 && st.black_king.index == 60);
    assert(b.squares[4] == Some(Piece { side: Side::White, piece_type: PieceType::King })) by {
        lemma_start_one_piece(4);
        assert(b.squares[4] == merged_at(w, k, 4u64));
        assert(role_at(w, 4u64) == Some(PieceType::King));
    }
    assert(b.squares[60] == Some(Piece { side: Side::Black, piece_type: PieceType::King })) by {
        lemma_start_one_piece(60);
        assert(b.squares[60] == merged_at(w, k, 60u64));
        assert(role_at(w, 60u64) is None);
        assert(role_at(k, 60u64) == Some(PieceType::King));
    }
}

impl BoardState {
    /// The starting position, hashed with `keys`.
    pub fn start(keys: &ZobristRandom) -> (r: Self)
        ensures
            r.white.state@ == seq![0xFF00u64, 0x81, 0x42, 0x24, 0x8, 0x10],
            r.black.state@ == seq![0xFF000000000000u64, 0x8100000000000000, 0x4200000000000000, 0x2400000000000000,
                0x800000000000000, 0x1000000000000000],
            forall|i: int| 0 <= i < 64 ==> #[trigger] r.board.board[i] == merged_at(r.white.state, r.black.state, i as u64),
            r.side == Side::White,
            r.en_passant_square is None,
            r.white_castling == (true, true),
            r.black_castling == (true, true),
            r.white_king == Position::at(4, 0),
            r.black_king == Position::at(4, 7),
            r.zobrist == keys.hash_of(r),
    {
        let black = Bitboards {
            state: [0xFF000000000000, 0x8100000000000000, 0x4200000000000000, 0x2400000000000000,
                0x800000000000000, 0x1000000000000000],
        };
        let white = Bitboards { state: [0xFF00, 0x81, 0x42, 0x24, 0x8, 0x10] };
        proof {
            lemma_start_disjoint(white.state, black.state);
        }
        let mut state = BoardState {
            white_king: Position::new(4, 0),
            black_king: Position::new(4, 7),
            board: BoardRepr::from_bitboards(white, black),
            black,
            white,
            side: Side::White,
            black_castling: (true, true),
            white_castling: (true, true),
            en_passant_square: None,
            zobrist: 0,
        };
        keys.hash_board(&mut state);
        state
    }
}

impl Default for BoardState {
    /// The starting position, hashed with the keys drawn from the default seed; see `start`.
    fn default() -> (r: Self)
        ensures
            r.white.state@ == seq![0xFF00u64, 0x81, 0x42, 0x24, 0x8, 0x10],
            r.black.state@ == seq![0xFF000000000000u64, 0x8100000000000000, 0x4200000000000000, 0x2400000000000000,
                0x800000000000000, 0x1000000000000000],
            forall|i: int| 0 <= i < 64 ==> #[trigger] r.board.board[i] == merged_at(r.white.state, r.black.state, i as u64),
            r.side == Side::White,
            r.en_passant_square is None,
            r.white_castling == (true, true),
            r.black_castling == (true, true),
            r.white_king == Position::at(4, 0),
            r.black_king == Position::at(4, 7),
    {
        let keys = ZobristRandom::seeded_init(&default_seed());
        BoardState::start(&keys)
    }
}

impl SearchBoard {
    /// The starting position with the halfmove clock at zero, hashed with `keys`.
    pub fn start(keys: &ZobristRandom) -> (r: Self)
        ensures
            squares_agree(r@),
            kings_in_place(r@),
            r.state.white.state@ == seq![0xFF00u64, 0x81, 0x42, 0x24, 0x8, 0x10],
            r.state.black.state@ == seq![0xFF000000000000u64, 0x8100000000000000, 0x4200000000000000, 0x2400000000000000,
                0x800000000000000, 0x1000000000000000],
            forall|i: int| 0 <= i < 64 ==> #[trigger] r.state.board.board[i] == merged_at(r.state.white.state, r.state.black.state, i as u64),
            r.state.side == Side::White,
            r.state.en_passant_square is None,
            r.state.white_castling == (true, true),
            r.state.black_castling == (true, true),
            r.state.white_king == Position::at(4, 0),
            r.state.black_king == Position::at(4, 7),
            r.halfmove_clock == 0,
            r.state.zobrist == keys.hash_of(r.state),
            forall|w: EvalWeights| #[trigger] material_score(r.state, w) == 0 && positional_score(r.state, w) == 0,
    {
        let state = BoardState::start(keys);
        proof {
            lemma_start_agree(state);
            assert forall|w: EvalWeights| #[trigger] material_score(state, w) == 0 && positional_score(state, w) == 0 by {
                lemma_start_balanced(state, w);
            }
        }
        SearchBoard { state, halfmove_clock: 0 }
    }
}

impl Default for SearchBoard {
    /// The starting position with the halfmove clock at zero.
    fn default() -> (r: Self)
        ensures
            r.state.white.state@ == seq![0xFF00u64, 0x81, 0x42, 0x24, 0x8, 0x10],
            r.state.black.state@ == seq![0xFF000000000000u64, 0x8100000000000000, 0x4200000000000000, 0x2400000000000000,
                0x800000000000000, 0x1000000000000000],
            forall|i: int| 0 <= i < 64 ==> #[trigger] r.state.board.board[i] == merged_at(r.state.white.state, r.state.black.state, i as u64),
            r.state.side == Side::White,
            r.state.en_passant_square is None,
            r.state.white_castling == (true, true),
            r.state.black_castling == (true, true),
            r.state.white_king == Position::at(4, 0),
            r.state.black_king == Position::at(4, 7),
            r.halfmove_clock == 0,
            forall|w: EvalWeights| #[trigger] material_score(r.state, w) == 0 && positional_score(r.state, w) == 0,
    {
        let state = BoardState::default();
        proof {
            assert forall|w: EvalWeights| #[trigger] material_score(state, w) == 0 && positional_score(state, w) == 0 by {
                lemma_start_balanced(state, w);
            }
        }
        SearchBoard { state, halfmove_clock: 0 }
    }
}

/// One rank of a board diagram: for each file, the letter of the piece there or a space.
pub open spec fn rank_text(sq: Seq<Option<Piece>>, y: int) -> Seq<char> {
    Seq::new(8, |x: int| match sq[y * 8 + x] {
        Some(p) => crate::piece::piece_letter(p),
        None => ' ',
    })
}

/// The first `k` ranks of a board diagram, from the eighth down, each after a line break.
pub open spec fn diagram_rows(sq: Seq<Option<Piece>>, k: int) -> Seq<char>
    decreases k,
{
    if k <= 0 {
        Seq::empty()
    } else {
        diagram_rows(sq, k - 1) + seq!['\n'] + rank_text(sq, 8 - k)
    }
}

impl BoardState {
    /// The board as a diagram: the eight ranks from the eighth down, each after a line break.
    pub fn to_string(&self) -> (r: String)
        ensures
            r@ == diagram_rows(self.board.board@, 8),
    {
        let mut cs: Vec<char> = Vec::new();
        let mut k: usize = 0;
        while k < 8
            invariant
                k <= 8,
                cs@ == diagram_rows(self.board.board@, k as int),
            decreases 8 - k,
        {
            let y = 7 - k;
            let ghost before = cs@;
            cs.push('\n');
            let mut x: usize = 0;
            while x < 8
                invariant
                    x <= 8,
                    y == 7 - k,
                    k < 8,
                    cs@ == before + seq!['\n'] + rank_text(self.board.board@, y as int).take(x as int),
                decreases 8 - x,
            {
                let c = match self.board.board[y * 8 + x] {
                    Some(p) => p.as_char(),
                    None => ' ',
                };
                cs.push(c);
                assert(cs@ =~= before + seq!['\n'] + rank_text(self.board.board@, y as int).take(x + 1));
                x += 1;
            }
            assert(rank_text(self.board.board@, y as int).take(8) =~= rank_text(self.board.board@, y as int));
            k += 1;
        }
        crate::text::string_from_chars(&cs)
    }
}

} // verus!
