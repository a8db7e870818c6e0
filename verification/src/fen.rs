//! Reading positions in Forsyth-Edwards notation.
use crate::bits::is_set;
use crate::board::{BoardState, SearchBoard, kings_in_place, squares_agree};
use crate::board_repr::{Bitboards, BoardRepr, is_king_of};
use crate::piece::{Piece, PieceType, Side};
use crate::position::Position;
use crate::zobrist::ZobristRandom;
use vstd::prelude::*;

verus! {

/// The characters of `s`, in order.
pub fn chars_of(s: &str) -> (r: Vec<char>)
    ensures
        r@ == s@,
{
    broadcast use vstd::string::axiom_spec_iter;
    let mut v: Vec<char> = Vec::new();
    for c in it: s.chars()
        invariant
            v@ == it.seq().take(it.index() as int),
    {
        v.push(c);
    }
    assert(v@ =~= s@);
    v
}

/// The index of the first space at or after `p`, or the length when there is none.
pub open spec fn space_from(cs: Seq<char>, p: int) -> int
    decreases cs.len() - p,
{
    if p < 0 || p >= cs.len() {
        cs.len() as int
    } else if cs[p] == ' ' {
        p
    } else {
        space_from(cs, p + 1)
    }
}

/// Where field `k` of the space-separated fields starts.
pub open spec fn field_start(cs: Seq<char>, k: nat) -> int
    decreases k,
{
    if k == 0 {
        0
    } else {
        space_from(cs, field_start(cs, (k - 1) as nat)) + 1
    }
}

/// Whether there are at least `k + 1` space-separated fields.
pub open spec fn has_field(cs: Seq<char>, k: nat) -> bool {
    field_start(cs, k) <= cs.len()
}

/// Field `k`, the fields being what lies between single spaces.
pub open spec fn field(cs: Seq<char>, k: nat) -> Seq<char> {
    cs.subrange(field_start(cs, k), space_from(cs, field_start(cs, k)))
}

/// The piece that a letter of the placement field stands for: lower case black.
pub open spec fn fen_piece(c: char) -> Option<Piece> {
    let black = |t: PieceType| Some(Piece { side: Side::Black, piece_type: t });
    let white = |t: PieceType| Some(Piece { side: Side::White, piece_type: t });
    if c == 'p' { black(PieceType::Pawn) }
    else if c == 'r' { black(PieceType::Rook) }
    else if c == 'n' { black(PieceType::Knight) }
    else if c == 'b' { black(PieceType::Bishop) }
    else if c == 'q' { black(PieceType::Queen) }
    else if c == 'k' { black(PieceType::King) }
    else if c == 'P' { white(PieceType::Pawn) }
    else if c == 'R' { white(PieceType::Rook) }
    else if c == 'N' { white(PieceType::Knight) }
    else if c == 'B' { white(PieceType::Bishop) }
    else if c == 'Q' { white(PieceType::Queen) }
    else if c == 'K' { white(PieceType::King) }
    else { None }
}

/// The placement field read so far: the file and rank of the next square, the bitboards and
/// the squares.
pub struct FenAcc {
    pub x: int,
    pub y: int,
    pub white: Seq<u64>,
    pub black: Seq<u64>,
    pub squares: Seq<Option<Piece>>,
}

pub open spec fn fen_acc_init() -> FenAcc {
    FenAcc {
        x: 0,
        y: 7,
        white: Seq::new(6, |k: int| 0u64),
        black: Seq::new(6, |k: int| 0u64),
        squares: Seq::new(64, |i: int| None::<Piece>),
    }
}

/// One character of the placement field: a digit skips files, `/` goes down a rank, a letter
/// puts its piece on square file + 8 * rank and moves one file on. Anything else, a `/` below
/// the first rank or a piece beyond h8 spoils the field.
pub open spec fn fen_acc_step(a: FenAcc, c: char) -> Option<FenAcc> {
    let square = a.x + a.y * 8;
    if '1' <= c && c <= '8' {
        Some(FenAcc { x: a.x + (c as int - 48), ..a })
    } else if c == '/' {
        if a.y == 0 {
            None
        } else {
            Some(FenAcc { x: 0, y: a.y - 1, ..a })
        }
    } else {
        match fen_piece(c) {
            Some(p) => if square >= 64 {
                None
            } else {
                let k = p.piece_type.code() as int;
                Some(FenAcc {
                    x: a.x + 1,
                    squares: a.squares.update(square, Some(p)),
                    white: if p.side == Side::White { a.white.update(k, a.white[k] | (1u64 << (square as u64))) } else { a.white },
                    black: if p.side == Side::Black { a.black.update(k, a.black[k] | (1u64 << (square as u64))) } else { a.black },
                    ..a
                })
            },
            None => None,
        }
    }
}

/// The placement field read character by character.
pub open spec fn fen_board(cs: Seq<char>) -> Option<FenAcc>
    decreases cs.len(),
{
    if cs.len() == 0 {
        Some(fen_acc_init())
    } else {
        match fen_board(cs.drop_last()) {
            Some(a) => fen_acc_step(a, cs.last()),
            None => None,
        }
    }
}

/// The bitboard of piece `p` in the placement read so far.
pub open spec fn acc_board(a: FenAcc, p: Piece) -> u64 {
    if p.side == Side::White { a.white[p.piece_type.code() as int] } else { a.black[p.piece_type.code() as int] }
}

/// Whether the squares and the bitboards read so far agree: a square holds a piece exactly
/// when that piece's bitboard has the square; and the next square's rank is on the board.
pub open spec fn acc_agrees(a: FenAcc) -> bool {
    &&& a.white.len() == 6
    &&& a.black.len() == 6
    &&& a.squares.len() == 64
    &&& a.x >= 0
    &&& 0 <= a.y < 8
    &&& forall|i: u64, p: Piece| i < 64 ==> (a.squares[i as int] == Some(p) <==> #[trigger] is_set(acc_board(a, p), i))
}

/// Whether each piece letter of the placement field `cs` lands on a square that no earlier
/// letter filled.
pub open spec fn places_once(cs: Seq<char>) -> bool
    decreases cs.len(),
{
    if cs.len() == 0 {
        true
    } else {
        &&& places_once(cs.drop_last())
        &&& match fen_board(cs.drop_last()) {
            Some(a) => fen_piece(cs.last()) is Some && a.x + a.y * 8 < 64 ==> a.squares[a.x + a.y * 8] is None,
            None => true,
        }
    }
}

/// Setting square `j` of a bitboard adds exactly that square; the empty bitboard has none.
proof fn lemma_set_square(x: u64, i: u64, j: u64)
    by (bit_vector)
    requires
        i < 64,
        j < 64,
    ensures
        is_set(x | (1u64 << j), i) == (is_set(x, i) || i == j),
        !is_set(0u64, i),
{
}

/// A placement field whose pieces each land on an empty square gives squares and bitboards
/// that agree.
pub proof fn lemma_fen_board_agrees(cs: Seq<char>)
    requires
        places_once(cs),
        fen_board(cs) is Some,
    ensures
        acc_agrees(fen_board(cs).unwrap()),
    decreases cs.len(),
{
    if cs.len() == 0 {
        let a = fen_acc_init();
        assert forall|i: u64, p: Piece| i < 64 implies (a.squares[i as int] == Some(p) <==> #[trigger] is_set(acc_board(a, p), i)) by {
            lemma_set_square(0, i, 0);
        }
    } else {
        let a = fen_board(cs.drop_last()).unwrap();
        lemma_fen_board_agrees(cs.drop_last());
        let c = cs.last();
        let b = fen_acc_step(a, c).unwrap();
        if let Some(q) = fen_piece(c) {
            let sq = a.x + a.y * 8;
            let k = q.piece_type.code() as int;
            assert forall|i: u64, p: Piece| i < 64 implies (b.squares[i as int] == Some(p) <==> #[trigger] is_set(acc_board(b, p), i)) by {
                lemma_set_square(acc_board(a, p), i, sq as u64);
                assert(a.squares[i as int] == Some(p) <==> is_set(acc_board(a, p), i));
                if p == q {
                    assert(acc_board(b, p) == acc_board(a, p) | (1u64 << (sq as u64)));
                } else {
                    assert(acc_board(b, p) == acc_board(a, p));
                    if i as int == sq {
                        assert(a.squares[sq] is None);
                    }
                }
            }
        } else {
            assert forall|i: u64, p: Piece| i < 64 implies (b.squares[i as int] == Some(p) <==> #[trigger] is_set(acc_board(b, p), i)) by {
                assert(acc_board(b, p) == acc_board(a, p));
                assert(a.squares[i as int] == Some(p) <==> is_set(acc_board(a, p), i));
            }
        }
    }
}

/// Castling rights read so far: white's and black's (long, short), and whether a `-` ended them.
pub open spec fn fen_rights_step(r: ((bool, bool), (bool, bool), bool), c: char) -> Option<((bool, bool), (bool, bool), bool)> {
    let (w, b, stopped) = r;
    if stopped {
        Some(r)
    } else if c == 'K' || c == 'H' {
        Some(((w.0, true), b, false))
    } else if c == 'Q' || c == 'A' {
        Some(((true, w.1), b, false))
    } else if c == 'k' || c == 'h' {
        Some((w, (b.0, true), false))
    } else if c == 'q' || c == 'a' {
        Some((w, (true, b.1), false))
    } else if c == '-' {
        Some((w, b, true))
    } else {
        None
    }
}

/// The castling field read character by character; it ends at the first `-`.
pub open spec fn fen_rights(cs: Seq<char>) -> Option<((bool, bool), (bool, bool), bool)>
    decreases cs.len(),
{
    if cs.len() == 0 {
        Some(((false, false), (false, false), false))
    } else {
        match fen_rights(cs.drop_last()) {
            Some(r) => fen_rights_step(r, cs.last()),
            None => None,
        }
    }
}

/// Whether `cs` holds the letter `a` or `b` before its first `-`.
pub open spec fn letter_before_stop(cs: Seq<char>, a: char, b: char) -> bool {
    exists|j: int| 0 <= j < cs.len() && (#[trigger] cs[j] == a || cs[j] == b) && forall|k: int| 0 <= k < j ==> cs[k] != '-'
}

/// Whether `cs` holds a `-`.
pub open spec fn has_stop(cs: Seq<char>) -> bool {
    exists|j: int| 0 <= j < cs.len() && #[trigger] cs[j] == '-'
}

/// How `letter_before_stop` and `has_stop` grow by one character.
proof fn lemma_letter_step(cs: Seq<char>, a: char, b: char)
    requires
        cs.len() > 0,
        a != '-',
        b != '-',
    ensures
        letter_before_stop(cs, a, b) == (letter_before_stop(cs.drop_last(), a, b)
            || ((cs.last() == a || cs.last() == b) && !has_stop(cs.drop_last()))),
        has_stop(cs) == (has_stop(cs.drop_last()) || cs.last() == '-'),
{
    let p = cs.drop_last();
    let n = p.len() as int;
    if letter_before_stop(cs, a, b) {
        let j = choose|j: int| 0 <= j < cs.len() && (#[trigger] cs[j] == a || cs[j] == b) && forall|k: int| 0 <= k < j ==> cs[k] != '-';
        if j < n {
            assert(p[j] == cs[j]);
            assert forall|k: int| 0 <= k < j implies p[k] != '-' by {
                assert(p[k] == cs[k]);
            }
            assert(letter_before_stop(p, a, b));
        } else {
            if has_stop(p) {
                let k = choose|k: int| 0 <= k < p.len() && #[trigger] p[k] == '-';
                assert(cs[k] == p[k]);
            }
        }
    }
    if letter_before_stop(p, a, b) {
        let j = choose|j: int| 0 <= j < p.len() && (#[trigger] p[j] == a || p[j] == b) && forall|k: int| 0 <= k < j ==> p[k] != '-';
        assert(cs[j] == p[j]);
        assert forall|k: int| 0 <= k < j implies cs[k] != '-' by {
            assert(p[k] == cs[k]);
        }
    }
    if (cs.last() == a || cs.last() == b) && !has_stop(p) {
        assert forall|k: int| 0 <= k < n implies cs[k] != '-' by {
            assert(p[k] == cs[k]);
            if cs[k] == '-' {
                assert(p[k] == '-');
            }
        }
        assert(cs[n] == a || cs[n] == b);
    }
    if has_stop(cs) {
        let k = choose|k: int| 0 <= k < cs.len() && #[trigger] cs[k] == '-';
        if k < n {
            assert(p[k] == '-');
        }
    }
    if has_stop(p) {
        let k = choose|k: int| 0 <= k < p.len() && #[trigger] p[k] == '-';
        assert(cs[k] == p[k]);
    }
    if cs.last() == '-' {
        assert(cs[n] == '-');
    }
}

/// Reading a castling field gives white the long right exactly when `Q` or `A` comes before
/// any `-`, and the short right for `K` or `H`; black likewise for `q` or `a` (long) and `k`
/// or `h` (short); each pair is (long, short).
pub proof fn lemma_fen_rights_letters(cs: Seq<char>)
    ensures
        fen_rights(cs) matches Some(r) ==> {
            &&& r.0 == (letter_before_stop(cs, 'Q', 'A'), letter_before_stop(cs, 'K', 'H'))
            &&& r.1 == (letter_before_stop(cs, 'q', 'a'), letter_before_stop(cs, 'k', 'h'))
            &&& r.2 == has_stop(cs)
        },
    decreases cs.len(),
{
    if cs.len() > 0 {
        lemma_fen_rights_letters(cs.drop_last());
        lemma_letter_step(cs, 'Q', 'A');
        lemma_letter_step(cs, 'K', 'H');
        lemma_letter_step(cs, 'q', 'a');
        lemma_letter_step(cs, 'k', 'h');
    }
}

/// A position read from FEN has the castling rights its castling field names; see
/// `lemma_fen_rights_letters`.
pub proof fn lemma_fen_position_rights(cs: Seq<char>)
    ensures
        fen_position(cs) matches Some(p) ==> {
            let f = field(cs, 2);
            &&& p.white_castling == (letter_before_stop(f, 'Q', 'A'), letter_before_stop(f, 'K', 'H'))
            &&& p.black_castling == (letter_before_stop(f, 'q', 'a'), letter_before_stop(f, 'k', 'h'))
        },
{
    lemma_fen_rights_letters(field(cs, 2));
}

/// The en passant field: `-` for none, else a file letter and a rank digit (read as the low
/// byte of each character; further characters are ignored).
pub open spec fn fen_ep(cs: Seq<char>) -> Option<Option<Position>> {
    if cs.len() == 1 && cs[0] == '-' {
        Some(None)
    } else if cs.len() < 2 {
        None
    } else {
        let a = cs[0] as u8;
        let b = cs[1] as u8;
        if a < 97 || b < 49 || a - 97 >= 8 || b - 49 >= 8 {
            None
        } else {
            Some(Some(Position::at(a - 97, b - 49)))
        }
    }
}

/// The side to move: exactly `w` or `b`.
pub open spec fn fen_side(cs: Seq<char>) -> Option<Side> {
    if cs.len() == 1 && cs[0] == 'w' {
        Some(Side::White)
    } else if cs.len() == 1 && cs[0] == 'b' {
        Some(Side::Black)
    } else {
        None
    }
}

/// The first square from `i` on that holds the king of `side`, or 64.
pub open spec fn first_king_from(sq: Seq<Option<Piece>>, side: Side, i: int) -> int
    decreases 64 - i,
{
    if i < 0 || i >= 64 {
        64
    } else if is_king_of(sq[i], side) {
        i
    } else {
        first_king_from(sq, side, i + 1)
    }
}

/// The first king of `side` from square `i` on, where there is one, holds a king of `side`.
pub proof fn lemma_first_king_found(sq: Seq<Option<Piece>>, side: Side, i: int)
    requires
        0 <= i,
        first_king_from(sq, side, i) < 64,
    ensures
        i <= first_king_from(sq, side, i),
        is_king_of(sq[first_king_from(sq, side, i)], side),
    decreases 64 - i,
{
    if i < 64 && !is_king_of(sq[i], side) {
        lemma_first_king_found(sq, side, i + 1);
    }
}

/// A position read from a FEN string.
pub struct FenPosition {
    pub white: Seq<u64>,
    pub black: Seq<u64>,
    pub squares: Seq<Option<Piece>>,
    pub side: Side,
    pub en_passant: Option<Position>,
    pub white_castling: (bool, bool),
    pub black_castling: (bool, bool),
    pub white_king: Position,
    pub black_king: Position,
}

/// The position that `cs` describes: at least six space-separated fields, of which the first
/// four are placement, side, castling and en passant, and a king of each side on the board.
pub open spec fn fen_position(cs: Seq<char>) -> Option<FenPosition> {
    if !has_field(cs, 5) {
        None
    } else {
        match (fen_board(field(cs, 0)), fen_side(field(cs, 1)), fen_rights(field(cs, 2)), fen_ep(field(cs, 3))) {
            (Some(a), Some(side), Some(r), Some(ep)) => {
                let wk = first_king_from(a.squares, Side::White, 0);
                let bk = first_king_from(a.squares, Side::Black, 0);
                if wk >= 64 || bk >= 64 {
                    None
                } else {
                    Some(FenPosition {
                        white: a.white,
                        black: a.black,
                        squares: a.squares,
                        side,
                        en_passant: ep,
                        white_castling: r.0,
                        black_castling: r.1,
                        white_king: Position { index: wk as u8 },
                        black_king: Position { index: bk as u8 },
                    })
                }
            },
            _ => None,
        }
    }
}

/// Whether `st` holds the position `p`.
pub open spec fn holds_fen(st: BoardState, p: FenPosition) -> bool {
    &&& st.white.state@ == p.white
    &&& st.black.state@ == p.black
    &&& st.board.board@ == p.squares
    &&& st.side == p.side
    &&& st.en_passant_square == p.en_passant
    &&& st.white_castling == p.white_castling
    &&& st.black_castling == p.black_castling
    &&& st.white_king == p.white_king
    &&& st.black_king == p.black_king
}

/// A decimal number of at most three digits' worth read character by character, capped at 256;
/// `None` once a character is not a digit.
pub open spec fn capped_decimal(cs: Seq<char>) -> Option<int>
    decreases cs.len(),
{
    if cs.len() == 0 {
        Some(0)
    } else {
        match capped_decimal(cs.drop_last()) {
            Some(v) => if '0' <= cs.last() && cs.last() <= '9' {
                let n = v * 10 + (cs.last() as int - 48);
                Some(if n > 256 { 256 } else { n })
            } else {
                None
            },
            None => None,
        }
    }
}

/// A `u8` written in decimal with an optional leading `+`, as `str::parse::<u8>` reads it.
pub open spec fn parse_u8(cs: Seq<char>) -> Option<u8> {
    let digits = if cs.len() > 0 && cs[0] == '+' { cs.drop_first() } else { cs };
    if digits.len() == 0 {
        None
    } else {
        match capped_decimal(digits) {
            Some(v) => if v <= 255 { Some(v as u8) } else { None },
            None => None,
        }
    }
}

proof fn lemma_space_from_bounds(cs: Seq<char>, p: int)
    requires
        0 <= p,
    ensures
        p <= space_from(cs, p) || space_from(cs, p) == cs.len(),
        space_from(cs, p) <= cs.len(),
        space_from(cs, p) >= p ==> forall|j: int| p <= j < space_from(cs, p) ==> cs[j] != ' ',
        space_from(cs, p) < cs.len() ==> cs[space_from(cs, p)] == ' ',
    decreases cs.len() - p,
{
    if p < cs.len() && cs[p] != ' ' {
        lemma_space_from_bounds(cs, p + 1);
    }
}

/// The index of the first space at or after `p`, or the length.
pub(crate) fn find_space(cs: &Vec<char>, p: usize) -> (r: usize)
    requires
        p <= cs@.len(),
    ensures
        r == space_from(cs@, p as int),
        p <= r <= cs@.len(),
{
    let mut i = p;
    while i < cs.len()
        invariant
            p <= i <= cs@.len(),
            space_from(cs@, p as int) == space_from(cs@, i as int),
        decreases cs@.len() - i,
    {
        if cs[i] == ' ' {
            return i;
        }
        i += 1;
    }
    i
}

/// The bounds of field `k`, when there are `k + 1` fields.
pub(crate) fn field_bounds(cs: &Vec<char>, k: usize) -> (r: Option<(usize, usize)>)
    ensures
        r is Some <==> has_field(cs@, k as nat),
        r matches Some((lo, hi)) ==> lo == field_start(cs@, k as nat) && hi == space_from(cs@, lo as int)
            && lo <= hi <= cs@.len(),
{
    let mut start: usize = 0;
    let mut j: usize = 0;
    while j < k
        invariant
            j <= k,
            start == field_start(cs@, j as nat),
            start <= cs@.len(),
        decreases k - j,
    {
        let e = find_space(cs, start);
        if e >= cs.len() {
            proof {
                lemma_field_start_past(cs@, (j + 1) as nat, k as nat);
            }
            return None;
        }
        start = e + 1;
        j += 1;
    }
    let hi = find_space(cs, start);
    Some((start, hi))
}

proof fn lemma_field_start_past(cs: Seq<char>, j: nat, k: nat)
    requires
        j <= k,
        field_start(cs, j) > cs.len(),
    ensures
        field_start(cs, k) > cs.len(),
    decreases k - j,
{
    if j < k {
        assert(field_start(cs, (j + 1) as nat) == space_from(cs, field_start(cs, j)) + 1);
        lemma_field_start_past(cs, (j + 1) as nat, k);
    }
}


/// The piece that a placement letter stands for.
fn piece_of_letter(c: char) -> (r: Option<Piece>)
    ensures
        r == fen_piece(c),
{
    match c {
        'p' => Some(Piece::black(PieceType::Pawn)),
        'r' => Some(Piece::black(PieceType::Rook)),
        'n' => Some(Piece::black(PieceType::Knight)),
        'b' => Some(Piece::black(PieceType::Bishop)),
        'q' => Some(Piece::black(PieceType::Queen)),
        'k' => Some(Piece::black(PieceType::King)),
        'P' => Some(Piece::white(PieceType::Pawn)),
        'R' => Some(Piece::white(PieceType::Rook)),
        'N' => Some(Piece::white(PieceType::Knight)),
        'B' => Some(Piece::white(PieceType::Bishop)),
        'Q' => Some(Piece::white(PieceType::Queen)),
        'K' => Some(Piece::white(PieceType::King)),
        _ => None,
    }
}

proof fn lemma_take_step<T>(s: Seq<T>, n: int)
    requires
        0 <= n < s.len(),
    ensures
        s.take(n + 1).drop_last() =~= s.take(n),
        s.take(n + 1).last() == s[n],
        s.take(n + 1).len() == n + 1,
{
}

/// Reads the placement field `cs[lo..hi]`.
fn read_placement(cs: &Vec<char>, lo: usize, hi: usize) -> (r: Option<(Bitboards, Bitboards, BoardRepr)>)
    requires
        lo <= hi <= cs@.len(),
        hi - lo < 0x1000_0000_0000_0000,
    ensures
        match fen_board(cs@.subrange(lo as int, hi as int)) {
            None => r is None,
            Some(a) => r matches Some((w, b, sq)) && w.state@ == a.white && b.state@ == a.black
                && sq.board@ == a.squares,
        },
{
    let ghost sub = cs@.subrange(lo as int, hi as int);
    let mut white_bits: [u64; 6] = [0; 6];
    let mut black_bits: [u64; 6] = [0; 6];
    let mut temp: [Option<Piece>; 64] = [None; 64];
    let mut x: u64 = 0;
    let mut y: u64 = 7;
    let mut i: usize = lo;
    assert(sub.take(0) =~= Seq::<char>::empty());
    assert(white_bits@ =~= fen_acc_init().white);
    assert(black_bits@ =~= fen_acc_init().black);
    assert(temp@ =~= fen_acc_init().squares);
    while i < hi
        invariant
            lo <= i <= hi,
            hi <= cs@.len(),
            hi - lo < 0x1000_0000_0000_0000,
            sub == cs@.subrange(lo as int, hi as int),
            x <= 8 * (i - lo),
            y <= 7,
            fen_board(sub.take(i - lo)) == Some(FenAcc { x: x as int, y: y as int, white: white_bits@, black: black_bits@, squares: temp@ }),
        decreases hi - i,
    {
        let c = cs[i];
        proof {
            lemma_take_step(sub, i - lo);
        }
        let square: u64 = x + y * 8;
        if c >= '1' && c <= '8' {
            x = x + ((c as u32 - 48) as u64);
        } else if c == '/' {
            if y == 0 {
                proof {
                    lemma_board_spoiled(sub, i - lo + 1);
                }
                return None;
            }
            x = 0;
            y = y - 1;
        } else {
            match piece_of_letter(c) {
                Some(p) => {
                    if square >= 64 {
                        proof {
                            lemma_board_spoiled(sub, i - lo + 1);
                        }
                        return None;
                    }
                    temp[square as usize] = Some(p);
                    let k = p.piece_type.index();
                    match p.side {
                        Side::White => {
                            white_bits[k] = white_bits[k] | (1u64 << square);
                        },
                        Side::Black => {
                            black_bits[k] = black_bits[k] | (1u64 << square);
                        },
                    }
                    x = x + 1;
                },
                None => {
                    proof {
                        lemma_board_spoiled(sub, i - lo + 1);
                    }
                    return None;
                },
            }
        }
        i += 1;
    }
    assert(sub.take(hi - lo) =~= sub);
    Some((Bitboards { state: white_bits }, Bitboards { state: black_bits }, BoardRepr { board: temp }))
}

/// Reads the castling field `cs[lo..hi]`.
fn read_rights(cs: &Vec<char>, lo: usize, hi: usize) -> (r: Option<((bool, bool), (bool, bool))>)
    requires
        lo <= hi <= cs@.len(),
    ensures
        match fen_rights(cs@.subrange(lo as int, hi as int)) {
            None => r is None,
            Some(t) => r == Some((t.0, t.1)),
        },
{
    let ghost sub = cs@.subrange(lo as int, hi as int);
    let mut white_rights = (false, false);
    let mut black_rights = (false, false);
    let mut i: usize = lo;
    assert(sub.take(0) =~= Seq::<char>::empty());
    while i < hi
        invariant
            lo <= i <= hi,
            hi <= cs@.len(),
            sub == cs@.subrange(lo as int, hi as int),
            fen_rights(sub.take(i - lo)) == Some((white_rights, black_rights, false)),
        decreases hi - i,
    {
        let c = cs[i];
        proof {
            lemma_take_step(sub, i - lo);
        }
        if c == 'K' || c == 'H' {
            white_rights.1 = true;
        } else if c == 'Q' || c == 'A' {
            white_rights.0 = true;
        } else if c == 'k' || c == 'h' {
            black_rights.1 = true;
        } else if c == 'q' || c == 'a' {
            black_rights.0 = true;
        } else if c == '-' {
            proof {
                lemma_rights_stopped(sub, i - lo + 1);
            }
            return Some((white_rights, black_rights));
        } else {
            proof {
                lemma_rights_spoiled(sub, i - lo + 1);
            }
            return None;
        }
        i += 1;
    }
    assert(sub.take(hi - lo) =~= sub);
    Some((white_rights, black_rights))
}

proof fn lemma_board_spoiled(s: Seq<char>, n: int)
    requires
        0 <= n <= s.len(),
        fen_board(s.take(n)) is None,
    ensures
        fen_board(s) is None,
    decreases s.len() - n,
{
    if n < s.len() {
        lemma_take_step(s, n);
        lemma_board_spoiled(s, n + 1);
    } else {
        assert(s.take(n) =~= s);
    }
}

proof fn lemma_rights_stopped(s: Seq<char>, n: int)
    requires
        0 <= n <= s.len(),
        fen_rights(s.take(n)) matches Some(t) && t.2,
    ensures
        fen_rights(s) == fen_rights(s.take(n)),
    decreases s.len() - n,
{
    if n < s.len() {
        lemma_take_step(s, n);
        lemma_rights_stopped(s, n + 1);
    } else {
        assert(s.take(n) =~= s);
    }
}

proof fn lemma_rights_spoiled(s: Seq<char>, n: int)
    requires
        0 <= n <= s.len(),
        fen_rights(s.take(n)) is None,
    ensures
        fen_rights(s) is None,
    decreases s.len() - n,
{
    if n < s.len() {
        lemma_take_step(s, n);
        lemma_rights_spoiled(s, n + 1);
    } else {
        assert(s.take(n) =~= s);
    }
}

/// Reads the en passant field `cs[lo..hi]`.
fn read_ep(cs: &Vec<char>, lo: usize, hi: usize) -> (r: Option<Option<Position>>)
    requires
        lo <= hi <= cs@.len(),
    ensures
        r == fen_ep(cs@.subrange(lo as int, hi as int)),
        r matches Some(Some(p)) ==> p.valid(),
{
    let ghost sub = cs@.subrange(lo as int, hi as int);
    if hi - lo == 1 && cs[lo] == '-' {
        return Some(None);
    }
    if hi - lo < 2 {
        return None;
    }
    let a = cs[lo] as u8;
    let b = cs[lo + 1] as u8;
    if a < 97 || b < 49 || a - 97 >= 8 || b - 49 >= 8 {
        return None;
    }
    Some(Some(Position::new(a - 97, b - 49)))
}

/// Reads the side field `cs[lo..hi]`.
fn read_side(cs: &Vec<char>, lo: usize, hi: usize) -> (r: Option<Side>)
    requires
        lo <= hi <= cs@.len(),
    ensures
        r == fen_side(cs@.subrange(lo as int, hi as int)),
{
    let ghost sub = cs@.subrange(lo as int, hi as int);
    if hi - lo == 1 && cs[lo] == 'w' {
        return Some(Side::White);
    }
    if hi - lo == 1 && cs[lo] == 'b' {
        return Some(Side::Black);
    }
    None
}

/// Reads a `u8` from `cs[lo..hi]` as `str::parse::<u8>` does.
fn read_u8(cs: &Vec<char>, lo: usize, hi: usize) -> (r: Option<u8>)
    requires
        lo <= hi <= cs@.len(),
    ensures
        r == parse_u8(cs@.subrange(lo as int, hi as int)),
{
    let ghost sub = cs@.subrange(lo as int, hi as int);
    let mut start = lo;
    if hi > lo && cs[lo] == '+' {
        start = lo + 1;
    }
    let ghost digits = cs@.subrange(start as int, hi as int);
    assert(digits =~= (if sub.len() > 0 && sub[0] == '+' { sub.drop_first() } else { sub }));
    if start == hi {
        return None;
    }
    let mut v: u32 = 0;
    let mut i = start;
    assert(digits.take(0) =~= Seq::<char>::empty());
    while i < hi
        invariant
            start <= i <= hi,
            hi <= cs@.len(),
            digits == cs@.subrange(start as int, hi as int),
            sub == cs@.subrange(lo as int, hi as int),
            digits =~= (if sub.len() > 0 && sub[0] == '+' { sub.drop_first() } else { sub }),
            start < hi,
            v <= 256,
            capped_decimal(digits.take(i - start)) == Some(v as int),
        decreases hi - i,
    {
        let c = cs[i];
        proof {
            lemma_take_step(digits, i - start);
        }
        if c >= '0' && c <= '9' {
            let n = v * 10 + (c as u32 - 48);
            v = if n > 256 { 256 } else { n };
        } else {
            proof {
                lemma_decimal_spoiled(digits, i - start + 1);
                let ds = if sub.len() > 0 && sub[0] == '+' { sub.drop_first() } else { sub };
                assert(ds == digits);
                assert(digits.len() > 0);
            }
            return None;
        }
        i += 1;
    }
    assert(digits.take(hi - start) =~= digits);
    if v <= 255 {
        Some(v as u8)
    } else {
        None
    }
}

proof fn lemma_decimal_spoiled(s: Seq<char>, n: int)
    requires
        0 <= n <= s.len(),
        capped_decimal(s.take(n)) is None,
    ensures
        capped_decimal(s) is None,
    decreases s.len() - n,
{
    if n < s.len() {
        lemma_take_step(s, n);
        lemma_decimal_spoiled(s, n + 1);
    } else {
        assert(s.take(n) =~= s);
    }
}


/// The first square that holds the king of `side`, or 64.
fn first_king(board: &BoardRepr, side: Side) -> (r: u8)
    ensures
        r == first_king_from(board.board@, side, 0),
{
    let mut i: u8 = 0;
    while i < 64
        invariant
            i <= 64,
            first_king_from(board.board@, side, 0) == first_king_from(board.board@, side, i as int),
        decreases 64 - i,
    {
        if let Some(piece) = board.board[i as usize] {
            if piece.side == side && piece.piece_type == PieceType::King {
                return i;
            }
        }
        i += 1;
    }
    64
}

impl BoardState {
    /// The position that `fen` describes, hashed with `keys`; nothing where `fen` is not a
    /// position: fewer than six fields, a bad placement, side, castling or en passant field, or
    /// a side without a king.
    pub fn try_from_fen(fen: &str, keys: &ZobristRandom) -> (r: Option<BoardState>)
        requires
            fen@.len() < 0x1000_0000_0000_0000,
        ensures
            match fen_position(fen@) {
                None => r is None,
                Some(p) => r matches Some(st) && holds_fen(st, p) && st.zobrist == keys.hash_of(st),
            },
    {
        let cs = chars_of(fen);
        let Some((lo0, hi0)) = field_bounds(&cs, 0) else {
            proof {
                lemma_field_start_past(cs@, 0, 5);
            }
            return None;
        };
        let Some((lo1, hi1)) = field_bounds(&cs, 1) else {
            proof {
                lemma_field_start_past(cs@, 1, 5);
            }
            return None;
        };
        let Some((lo2, hi2)) = field_bounds(&cs, 2) else {
            proof {
                lemma_field_start_past(cs@, 2, 5);
            }
            return None;
        };
        let Some((lo3, hi3)) = field_bounds(&cs, 3) else {
            proof {
                lemma_field_start_past(cs@, 3, 5);
            }
            return None;
        };
        if field_bounds(&cs, 5).is_none() {
            return None;
        }
        let Some((white_bits, black_bits, piecewise)) = read_placement(&cs, lo0, hi0) else { return None };
        let Some(active) = read_side(&cs, lo1, hi1) else { return None };
        let Some((white_rights, black_rights)) = read_rights(&cs, lo2, hi2) else { return None };
        let Some(en_passant_square) = read_ep(&cs, lo3, hi3) else { return None };
        let wk = first_king(&piecewise, Side::White);
        let bk = first_king(&piecewise, Side::Black);
        if wk >= 64 || bk >= 64 {
            return None;
        }
        let mut temp_board = BoardState {
            black: black_bits,
            white: white_bits,
            white_king: Position::from_index(wk),
            black_king: Position::from_index(bk),
            board: piecewise,
            side: active,
            en_passant_square,
            white_castling: white_rights,
            black_castling: black_rights,
            zobrist: 0,
        };
        keys.hash_board(&mut temp_board);
        Some(temp_board)
    }

    /// The position that `fen` describes, hashed with `keys`; `fen` must describe one.
    pub fn from_fen(fen: &str, keys: &ZobristRandom) -> (r: Self)
        requires
            fen@.len() < 0x1000_0000_0000_0000,
            fen_position(fen@) is Some,
        ensures
            holds_fen(r, fen_position(fen@).unwrap()),
            r.zobrist == keys.hash_of(r),
    {
        Self::try_from_fen(fen, keys).unwrap()
    }
}

/// The halfmove clock that a FEN string gives: its fifth field as a `u8`.
pub open spec fn fen_clock(cs: Seq<char>) -> Option<u8> {
    parse_u8(field(cs, 4))
}

impl SearchBoard {
    /// The position and halfmove clock that `fen` describes; nothing where `fen` is not a
    /// position or its fifth field is not a `u8`.
    pub fn try_from_fen(fen: &str, keys: &ZobristRandom) -> (r: Option<SearchBoard>)
        requires
            fen@.len() < 0x1000_0000_0000_0000,
        ensures
            match (fen_position(fen@), fen_clock(fen@)) {
                (Some(p), Some(c)) => r matches Some(b) && holds_fen(b.state, p)
                    && b.state.zobrist == keys.hash_of(b.state) && b.halfmove_clock == c && kings_in_place(b@)
                    && (places_once(field(fen@, 0)) ==> squares_agree(b@)),
                _ => r is None,
            },
    {
        proof {
            if let Some(p) = fen_position(fen@) {
                lemma_first_king_found(p.squares, Side::White, 0);
                lemma_first_king_found(p.squares, Side::Black, 0);
                if places_once(field(fen@, 0)) {
                    lemma_fen_board_agrees(field(fen@, 0));
                }
            }
        }
        let state = BoardState::try_from_fen(fen, keys)?;
        let cs = chars_of(fen);
        let (lo, hi) = field_bounds(&cs, 4)?;
        let halfmove_clock = read_u8(&cs, lo, hi)?;
        let board = Self { halfmove_clock, state };
        proof {
            if places_once(field(fen@, 0)) {
                let a = fen_board(field(fen@, 0)).unwrap();
                assert forall|i: u64, p: Piece| i < 64 implies (board@.squares[i as int] == Some(p)
                    <==> #[trigger] is_set(crate::board::board_of(board@, p), i)) by {
                    assert(crate::board::board_of(board@, p) == acc_board(a, p));
                    assert(a.squares[i as int] == Some(p) <==> is_set(acc_board(a, p), i));
                }
            }
        }
        Some(board)
    }

    /// The position and halfmove clock that `fen` describes; `fen` must describe them.
    pub fn from_fen(fen: &str, keys: &ZobristRandom) -> (r: Self)
        requires
            fen@.len() < 0x1000_0000_0000_0000,
            fen_position(fen@) is Some,
            fen_clock(fen@) is Some,
        ensures
            holds_fen(r.state, fen_position(fen@).unwrap()),
            r.state.zobrist == keys.hash_of(r.state),
            r.halfmove_clock == fen_clock(fen@).unwrap(),
            kings_in_place(r@),
            places_once(field(fen@, 0)) ==> squares_agree(r@),
    {
        Self::try_from_fen(fen, keys).unwrap()
    }
}

} // verus!
