//! Zobrist keys: one random number per piece on each square and per other board feature.
use crate::bits::is_set;
use crate::board::BoardState;
use crate::piece::{Piece, PieceType, Side};
use crate::position::Position;
use rand::rngs::SmallRng;
use vstd::prelude::*;

verus! {

/// The random number generator that the keys are drawn from.
#[verifier::external_type_specification]
#[verifier::external_body]
pub struct ExSmallRng(SmallRng);

/// `SmallRng::from_seed` of `rand`: a generator seeded with `seed`. Nothing is stated of it.
#[verifier::external_body]
fn small_rng_from_seed(seed: [u8; 32]) -> SmallRng {
    <SmallRng as rand::SeedableRng>::from_seed(seed)
}

/// `Rng::random::<u64>` of `rand` on a `SmallRng`: the generator's next 64 bits. Any value can
/// come back, so nothing is stated of it.
#[verifier::external_body]
fn next_random_u64(rng: &mut SmallRng) -> u64 {
    rand::Rng::random::<u64>(rng)
}

/// The seed the engine's keys are drawn with.
pub fn default_seed() -> (r: [u8; 32])
    ensures
        r@ == seq![76u8, 111, 114, 101, 109, 32, 105, 112, 115, 117, 109, 32, 100, 111, 108,
            111, 114, 32, 115, 105, 116, 32, 97, 109, 101, 116, 32, 110, 105, 115, 105, 46],
{
    let r: [u8; 32] = [76u8, 111, 114, 101, 109, 32, 105, 112, 115, 117, 109, 32, 100, 111, 108,
        111, 114, 32, 115, 105, 116, 32, 97, 109, 101, 116, 32, 110, 105, 115, 105, 46];
    assert(r@ =~= seq![76u8, 111, 114, 101, 109, 32, 105, 112, 115, 117, 109, 32, 100, 111, 108,
            111, 114, 32, 115, 105, 116, 32, 97, 109, 101, 116, 32, 110, 105, 115, 105, 46]);
    r
}

/// The keys: for each of the twelve pieces (white pawn to king, then black) one per square,
/// one per en passant square, two castling keys per side and one for black to move.
pub struct ZobristRandom {
    pub piece_boards: [[u64; 64]; 12],
    pub en_passant_squares: [u64; 64],
    pub black_castle_rights: [u64; 2],
    pub white_castle_rights: [u64; 2],
    pub black: u64,
}

/// The number of piece `p` among the twelve: its kind, plus six for black.
pub open spec fn piece_slot(p: Piece) -> int {
    p.piece_type.code() + if p.side == Side::White { 0int } else { 6int }
}

/// The bitboard of slot `b` among the twelve: white's six, then black's six.
pub open spec fn slot_board(white: [u64; 6], black: [u64; 6], b: int) -> u64 {
    if b < 6 {
        white[b]
    } else {
        black[b - 6]
    }
}

/// Whether `k` holds the 837 numbers `d` in field order, element by element: the twelve
/// pieces' keys square by square, the en passant keys, black's castling keys, white's, and the
/// key for black to move.
pub open spec fn places(k: ZobristRandom, d: Seq<u64>) -> bool {
    &&& d.len() == 837
    &&& forall|b: int, s: int| 0 <= b < 12 && 0 <= s < 64 ==> #[trigger] k.piece_boards[b][s] == d[64 * b + s]
    &&& forall|s: int| 0 <= s < 64 ==> #[trigger] k.en_passant_squares[s] == d[768 + s]
    &&& k.black_castle_rights[0] == d[832]
    &&& k.black_castle_rights[1] == d[833]
    &&& k.white_castle_rights[0] == d[834]
    &&& k.white_castle_rights[1] == d[835]
    &&& k.black == d[836]
}

impl ZobristRandom {
    /// The key of piece `p` on square `pos`.
    pub open spec fn piece_key(self, p: Piece, pos: Position) -> u64 {
        self.piece_boards[piece_slot(p)][pos.index as int]
    }

    /// Castling key `n` (0 long, 1 short) of `side`.
    pub open spec fn castle_key(self, side: Side, n: int) -> u64 {
        if side == Side::White {
            self.white_castle_rights[n]
        } else {
            self.black_castle_rights[n]
        }
    }

    /// The xor of the keys of the first `n` (slot, square) pairs, slot by slot, whose square
    /// is set in the slot's bitboard.
    pub open spec fn pieces_hash(self, white: [u64; 6], black: [u64; 6], n: nat) -> u64
        decreases n,
    {
        if n == 0 {
            0
        } else {
            let m = (n - 1) as nat;
            let b = m / 64;
            let s = m % 64;
            let prev = self.pieces_hash(white, black, m);
            if is_set(slot_board(white, black, b as int), s as u64) {
                prev ^ self.piece_boards[b as int][s as int]
            } else {
                prev
            }
        }
    }

    /// The full hash of a board: pieces, en passant square, castling rights, side to move.
    /// Black's long castling right is hashed with black's second key.
    pub open spec fn hash_of(self, state: BoardState) -> u64 {
        let h0 = self.pieces_hash(state.white.state, state.black.state, 768);
        let h1 = match state.en_passant_square {
            Some(e) => h0 ^ self.en_passant_squares[e.index as int],
            None => h0,
        };
        let h2 = if state.white_castling.0 { h1 ^ self.white_castle_rights[0] } else { h1 };
        let h3 = if state.white_castling.1 { h2 ^ self.white_castle_rights[1] } else { h2 };
        let h4 = if state.black_castling.0 { h3 ^ self.black_castle_rights[1] } else { h3 };
        let h5 = if state.black_castling.1 { h4 ^ self.black_castle_rights[1] } else { h4 };
        if state.side == Side::Black {
            h5 ^ self.black
        } else {
            h5
        }
    }

    /// Keys drawn from a `SmallRng` seeded with `seed`, 837 numbers placed by `from_draws`.
    /// What the generator draws depends on the platform, so the result is stated only as some
    /// placing of 837 numbers.
    pub fn seeded_init(seed: &[u8; 32]) -> (r: Self)
        ensures
            exists|d: Seq<u64>| #[trigger] places(r, d),
    {
        let mut rng = small_rng_from_seed(*seed);
        let mut draws: Vec<u64> = Vec::new();
        let mut i: usize = 0;
        while i < 837
            invariant
                i <= 837,
                draws@.len() == i,
            decreases 837 - i,
        {
            draws.push(next_random_u64(&mut rng));
            i += 1;
        }
        let r = Self::from_draws(&draws);
        assert(places(r, draws@));
        r
    }

    /// The keys from 837 numbers in field order, element by element: the twelve pieces' keys
    /// square by square (`d[64 * b + s]`), then the en passant keys, then black's two castling
    /// keys, white's two, and the key for black to move; see `places`.
    pub fn from_draws(d: &Vec<u64>) -> (r: Self)
        requires
            d@.len() == 837,
        ensures
            places(r, d@),
    {
        let mut piece_boards: [[u64; 64]; 12] = [[0u64; 64]; 12];
        let mut b: usize = 0;
        while b < 12
            invariant
                b <= 12,
                d@.len() == 837,
                forall|x: int, y: int| 0 <= x < b && 0 <= y < 64 ==> #[trigger] piece_boards[x][y] == d@[64 * x + y],
            decreases 12 - b,
        {
            let mut row: [u64; 64] = [0u64; 64];
            let mut s: usize = 0;
            while s < 64
                invariant
                    b < 12,
                    s <= 64,
                    d@.len() == 837,
                    forall|y: int| 0 <= y < s ==> #[trigger] row[y] == d@[64 * b + y],
                decreases 64 - s,
            {
                row[s] = d[64 * b + s];
                s += 1;
            }
            piece_boards[b] = row;
            b += 1;
        }
        let mut en_passant_squares: [u64; 64] = [0u64; 64];
        let mut s: usize = 0;
        while s < 64
            invariant
                s <= 64,
                d@.len() == 837,
                forall|y: int| 0 <= y < s ==> #[trigger] en_passant_squares[y] == d@[768 + y],
            decreases 64 - s,
        {
            en_passant_squares[s] = d[768 + s];
            s += 1;
        }
        Self {
            piece_boards,
            en_passant_squares,
            black_castle_rights: [d[832], d[833]],
            white_castle_rights: [d[834], d[835]],
            black: d[836],
        }
    }

    /// Stores in `state` its full hash.
    pub fn hash_board(&self, state: &mut BoardState)
        requires
            old(state).en_passant_square matches Some(e) ==> e.valid(),
        ensures
            *final(state) == (BoardState { zobrist: self.hash_of(*old(state)), ..*old(state) }),
    {
        let mut hash: u64 = 0;
        let mut b: usize = 0;
        while b < 12
            invariant
                b <= 12,
                hash == self.pieces_hash(state.white.state, state.black.state, (b * 64) as nat),
            decreases 12 - b,
        {
            let board: u64 = if b < 6 { state.white.state[b] } else { state.black.state[b - 6] };
            let mut square: usize = 0;
            while square < 64
                invariant
                    b < 12,
                    square <= 64,
                    board == slot_board(state.white.state, state.black.state, b as int),
                    hash == self.pieces_hash(state.white.state, state.black.state, (b * 64 + square) as nat),
                decreases 64 - square,
            {
                proof {
                    let n = (b * 64 + square) as nat;
                    assert((n + 1 - 1) as nat / 64 == b) by (nonlinear_arith)
                        requires n == b * 64 + square, square < 64;
                    assert((n + 1 - 1) as nat % 64 == square) by (nonlinear_arith)
                        requires n == b * 64 + square, square < 64;
                }
                if board & (1u64 << square) != 0 {
                    hash = hash ^ self.piece_boards[b][square];
                }
                square += 1;
            }
            b += 1;
        }
        if let Some(en_passant) = state.en_passant_square {
            hash = hash ^ self.en_passant_squares[en_passant.index as usize];
        }
        if state.white_castling.0 {
            hash = hash ^ self.white_castle_rights[0];
        }
        if state.white_castling.1 {
            hash = hash ^ self.white_castle_rights[1];
        }
        if state.black_castling.0 {
            hash = hash ^ self.black_castle_rights[1];
        }
        if state.black_castling.1 {
            hash = hash ^ self.black_castle_rights[1];
        }
        if state.side == Side::Black {
            hash = hash ^ self.black;
        }
        state.zobrist = hash;
    }

    /// The key of `piece` on `pos`.
    pub fn get_value(&self, piece: Piece, pos: Position) -> (r: u64)
        requires
            pos.valid(),
        ensures
            r == self.piece_key(piece, pos),
    {
        let index: usize = piece.role().index() + match piece.side() {
            Side::White => 0,
            Side::Black => 6,
        };
        self.piece_boards[index][pos.index as usize]
    }

    /// Castling key `N` (0 long, 1 short) of `side`.
    pub fn get_castle_right<const N: usize>(&self, side: Side) -> (r: u64)
        requires
            N < 2,
        ensures
            r == self.castle_key(side, N as int),
    {
        match side {
            Side::White => self.white_castle_rights[N],
            Side::Black => self.black_castle_rights[N],
        }
    }
}

/// Incremental updates of a Zobrist hash.
pub trait ZobristHash {
    /// Toggles `piece` on `pos`.
    fn update(&mut self, keys: &ZobristRandom, piece: Piece, pos: Position)
        requires
            pos.valid(),
    ;

    /// Toggles the short castling right of `side`.
    fn update_short_castle(&mut self, keys: &ZobristRandom, side: Side);

    /// Toggles the long castling right of `side`.
    fn update_long_castle(&mut self, keys: &ZobristRandom, side: Side);

    /// Toggles the side to move.
    fn switch_side(&mut self, keys: &ZobristRandom);

    /// Moves the en passant marker of `side`, kept as that side's pawn, from `before` to `after`.
    fn update_ep_square(
        &mut self,
        keys: &ZobristRandom,
        side: Side,
        before: Option<Position>,
        after: Option<Position>,
    )
        requires
            before matches Some(b) ==> b.valid(),
            after matches Some(a) ==> a.valid(),
    ;
}

/// The hash after toggling the pawn of `side` on `before` and then on `after`, where present.
pub open spec fn ep_toggled(
    keys: ZobristRandom,
    h: u64,
    side: Side,
    before: Option<Position>,
    after: Option<Position>,
) -> u64 {
    let pawn = Piece { side, piece_type: PieceType::Pawn };
    let h1 = match before {
        Some(b) => h ^ keys.piece_key(pawn, b),
        None => h,
    };
    match after {
        Some(a) => h1 ^ keys.piece_key(pawn, a),
        None => h1,
    }
}

impl ZobristHash for u64 {
    fn update(&mut self, keys: &ZobristRandom, piece: Piece, pos: Position)
        ensures
            *final(self) == *old(self) ^ keys.piece_key(piece, pos),
    {
        *self = *self ^ keys.get_value(piece, pos);
    }

    fn update_short_castle(&mut self, keys: &ZobristRandom, side: Side)
        ensures
            *final(self) == *old(self) ^ keys.castle_key(side, 1),
    {
        *self = *self ^ keys.get_castle_right::<1>(side);
    }

    fn update_long_castle(&mut self, keys: &ZobristRandom, side: Side)
        ensures
            *final(self) == *old(self) ^ keys.castle_key(side, 0),
    {
        *self = *self ^ keys.get_castle_right::<0>(side);
    }

    fn switch_side(&mut self, keys: &ZobristRandom)
        ensures
            *final(self) == *old(self) ^ keys.black,
    {
        *self = *self ^ keys.black;
    }

    fn update_ep_square(
        &mut self,
        keys: &ZobristRandom,
        side: Side,
        before: Option<Position>,
        after: Option<Position>,
    )
        ensures
            *final(self) == ep_toggled(*keys, *old(self), side, before, after),
    {
        if let Some(before) = before {
            self.update(keys, Piece { side: side, piece_type: PieceType::Pawn }, before);
        }
        if let Some(after) = after {
            self.update(keys, Piece { side: side, piece_type: PieceType::Pawn }, after);
        }
    }
}

impl ZobristRandom {
    /// The xor of the keys of slot `slot` on the squares of `d`, over the first `n` (slot,
    /// square) pairs.
    pub open spec fn mask_hash(self, slot: int, d: u64, n: nat) -> u64
        decreases n,
    {
        if n == 0 {
            0
        } else {
            let m = (n - 1) as nat;
            let b = m / 64;
            let s = m % 64;
            let prev = self.mask_hash(slot, d, m);
            if b == slot && is_set(d, s as u64) {
                prev ^ self.piece_boards[b as int][s as int]
            } else {
                prev
            }
        }
    }
}

/// Xor-ing a key in or not, on two hashes, is xor-ing it into their xor when exactly one of
/// them takes it.
proof fn lemma_xor_cond(p: u64, q: u64, k: u64, a: bool, c: bool)
    by (bit_vector)
    ensures
        (if a != c { (p ^ q) ^ k } else { p ^ q }) == (if a { p ^ k } else { p }) ^ (if c { q ^ k } else { q }),
        (if a { (p ^ q) ^ k } else { p ^ q }) == (if a { p ^ k } else { p }) ^ q,
{
}

/// Toggling the squares `d` in one of the twelve bitboards changes the pieces' hash by the
/// keys of those squares.
pub proof fn lemma_pieces_hash_delta(
    keys: ZobristRandom,
    w: [u64; 6],
    bl: [u64; 6],
    w2: [u64; 6],
    bl2: [u64; 6],
    slot: int,
    d: u64,
    n: nat,
)
    requires
        0 <= slot < 12,
        n <= 768,
        forall|b: int| 0 <= b < 12 && b != slot ==> #[trigger] slot_board(w2, bl2, b) == slot_board(w, bl, b),
        slot_board(w2, bl2, slot) == slot_board(w, bl, slot) ^ d,
    ensures
        keys.pieces_hash(w2, bl2, n) == keys.pieces_hash(w, bl, n) ^ keys.mask_hash(slot, d, n),
    decreases n,
{
    if n == 0 {
        assert(0u64 ^ 0u64 == 0u64) by (bit_vector);
    } else {
        let m = (n - 1) as nat;
        let b = m / 64;
        let s = m % 64;
        lemma_pieces_hash_delta(keys, w, bl, w2, bl2, slot, d, m);
        let prev = keys.pieces_hash(w, bl, m);
        let mh = keys.mask_hash(slot, d, m);
        let k = keys.piece_boards[b as int][s as int];
        let x = slot_board(w, bl, b as int);
        let set1 = is_set(x, s as u64);
        let dset = is_set(d, s as u64);
        if b == slot {
            crate::bits::lemma_bit_ops(x, d, s as u64);
            lemma_xor_cond(prev, mh, k, set1, dset);
        } else {
            assert(slot_board(w2, bl2, b as int) == x);
            lemma_xor_cond(prev, mh, k, set1, false);
        }
    }
}

/// The keys of two different squares of one slot, over the first `n` (slot, square) pairs.
pub proof fn lemma_mask_hash_two(keys: ZobristRandom, slot: int, f: u64, t: u64, n: nat)
    requires
        0 <= slot < 12,
        f < 64,
        t < 64,
        f != t,
        n <= 768,
    ensures
        keys.mask_hash(slot, (1u64 << f) | (1u64 << t), n)
            == (if slot * 64 + f < n { keys.piece_boards[slot][f as int] } else { 0u64 })
            ^ (if slot * 64 + t < n { keys.piece_boards[slot][t as int] } else { 0u64 }),
    decreases n,
{
    let d = (1u64 << f) | (1u64 << t);
    if n == 0 {
        assert(0u64 ^ 0u64 == 0u64) by (bit_vector);
    } else {
        let m = (n - 1) as nat;
        let b = m / 64;
        let s = m % 64;
        lemma_mask_hash_two(keys, slot, f, t, m);
        crate::bits::lemma_bit_ops(1u64 << f, 1u64 << t, s as u64);
        crate::bits::lemma_sq(s as u64, f);
        crate::bits::lemma_sq(s as u64, t);
        let kf = keys.piece_boards[slot][f as int];
        let kt = keys.piece_boards[slot][t as int];
        let af = slot * 64 + f < m;
        let at = slot * 64 + t < m;
        let prev = keys.mask_hash(slot, d, m);
        assert(prev == (if af { kf } else { 0u64 }) ^ (if at { kt } else { 0u64 }));
        if b == slot && s == f {
            assert(m == slot * 64 + f);
            lemma_xor_swap(kf, kt, at);
        } else if b == slot && s == t {
            assert(m == slot * 64 + t);
            lemma_xor_swap(kt, kf, af);
            lemma_xor_comm_cond(kf, kt, af);
        } else {
            assert(slot * 64 + f < n <==> af);
            assert(slot * 64 + t < n <==> at);
        }
    }
}

proof fn lemma_xor_swap(k: u64, j: u64, c: bool)
    by (bit_vector)
    ensures
        (0u64 ^ (if c { j } else { 0u64 })) ^ k == k ^ (if c { j } else { 0u64 }),
{
}

proof fn lemma_xor_comm_cond(a: u64, b: u64, c: bool)
    by (bit_vector)
    ensures
        (if c { a } else { 0u64 }) ^ b == b ^ (if c { a } else { 0u64 }),
        ((if c { a } else { 0u64 }) ^ 0u64) ^ b == (if c { a } else { 0u64 }) ^ b,
{
}

} // verus!
