//! How a game stands.
use crate::bits::{bit_count, count_ones, is_set, lemma_bit_count_bound, lemma_count_add_square, lemma_count_shift};
use crate::board::{BoardState, SearchBoard, other};
use crate::board_repr::{BISHOP, KNIGHT, PAWN, QUEEN, ROOK, merged_at};
use crate::engine::weights::EvalWeights;
use crate::moving::{Move, MoveType};
use crate::piece::{Piece, PieceType, Side};
use crate::position::Position;
use crate::search::{generation_ok, checks_of, moves_in, lemma_legal_moves_len};
use crate::search_data::{check_candidates, classify, pins_of};
use crate::tables::MoveTables;
use std::collections::HashMap;
use vstd::prelude::*;

verus! {

/// How a game stands: going on, won by one side, or drawn.
#[derive(Clone, Copy, PartialEq, Eq, Debug, Structural)]
pub enum Outcome {
    Ongoing,
    WhiteWon,
    BlackWon,
    Stalemate,
}

impl Outcome {
    /// Whether the game is over: won by either side or drawn.
    pub fn is_game_over(self) -> (r: bool)
        ensures
            r == !(self is Ongoing),
    {
        match self {
            Outcome::WhiteWon | Outcome::BlackWon | Outcome::Stalemate => true,
            Outcome::Ongoing => false,
        }
    }
}

/// How the game stands in `board`: drawn after fifty moves without capture or pawn move or on
/// the third repetition, going on while there are moves, else won by the other side when in
/// check and drawn when not.
pub open spec fn outcome_of(board: SearchBoard, are_there_moves: bool, is_check: bool, repetitions: Map<u64, u8>) -> Outcome {
    if board.halfmove_clock >= 50 || (repetitions.contains_key(board.state.zobrist) && repetitions[board.state.zobrist] == 3) {
        Outcome::Stalemate
    } else if are_there_moves {
        Outcome::Ongoing
    } else if is_check {
        if board.state.side == Side::White { Outcome::BlackWon } else { Outcome::WhiteWon }
    } else {
        Outcome::Stalemate
    }
}

/// How the game stands; see `outcome_of`.
pub fn outcome(board: &SearchBoard, are_there_moves: bool, is_check: bool, repetitions: &HashMap<u64, u8>) -> (r: Outcome)
    ensures
        r == outcome_of(*board, are_there_moves, is_check, repetitions@),
{
    if board.halfmove_clock >= 50 || crate::engine::is_draw_repetition(board, repetitions) {
        return Outcome::Stalemate;
    }
    if are_there_moves {
        return Outcome::Ongoing;
    }
    if is_check {
        match board.state.side {
            Side::White => Outcome::BlackWon,
            Side::Black => Outcome::WhiteWon,
        }
    } else {
        Outcome::Stalemate
    }
}

/// The score of a finished game, `depth` plies from the root: nothing while it goes on; near
/// the largest score for a white win and near the smallest for a black one, the sooner the
/// larger in size; -1000 for a draw.
pub open spec fn outcome_score(o: Outcome, depth: i32) -> Option<i64> {
    match o {
        Outcome::Ongoing => None,
        Outcome::WhiteWon => Some((i64::MAX - 10000 + 100 * depth) as i64),
        Outcome::BlackWon => Some((i64::MIN + 10000 - 100 * depth) as i64),
        Outcome::Stalemate => Some(-1000i64),
    }
}

/// How a game stands: drawn once fifty moves pass without capture or pawn move or a position
/// comes a third time; otherwise going on while there are moves; with no move, lost by the
/// side to move when in check (won by the other side) and drawn when not.
pub proof fn lemma_outcome_meaning(board: SearchBoard, are_there_moves: bool, is_check: bool, reps: Map<u64, u8>)
    ensures
        ({
            let o = outcome_of(board, are_there_moves, is_check, reps);
            let drawn = board.halfmove_clock >= 50 || (reps.contains_key(board.state.zobrist)
                && reps[board.state.zobrist] == 3);
            &&& drawn ==> o is Stalemate
            &&& !drawn && are_there_moves ==> o is Ongoing
            &&& !drawn && !are_there_moves && is_check ==> (o is WhiteWon <==> board.state.side == Side::Black)
                && (o is BlackWon <==> board.state.side == Side::White)
            &&& !drawn && !are_there_moves && !is_check ==> o is Stalemate
        }),
{
}

/// A white win scores above every score of a game that goes on or is drawn, a black win below,
/// and a win found with more plies left (sooner) scores further from zero; a draw scores -1000.
pub proof fn lemma_outcome_score_order(d1: i32, d2: i32)
    requires
        -21474836 <= d1 <= 100,
        -21474836 <= d2 <= 100,
    ensures
        outcome_score(Outcome::WhiteWon, d1).unwrap() > 0,
        outcome_score(Outcome::BlackWon, d1).unwrap() < 0,
        d1 < d2 ==> outcome_score(Outcome::WhiteWon, d1).unwrap() < outcome_score(Outcome::WhiteWon, d2).unwrap(),
        d1 < d2 ==> outcome_score(Outcome::BlackWon, d1).unwrap() > outcome_score(Outcome::BlackWon, d2).unwrap(),
        outcome_score(Outcome::Stalemate, d1) == Some(-1000i64),
        outcome_score(Outcome::Ongoing, d1) is None,
{
}

/// The score of the game's outcome; see `outcome_score`. For a won game the depth's hundredfold
/// must fit in `i32` and stay within 10000.
pub fn evaluate_outcome(
    board: &SearchBoard,
    repetitions: &HashMap<u64, u8>,
    are_there_moves: bool,
    is_check: bool,
    depth: i32,
) -> (r: Option<i64>)
    requires
        outcome_of(*board, are_there_moves, is_check, repetitions@) is WhiteWon
            || outcome_of(*board, are_there_moves, is_check, repetitions@) is BlackWon
            ==> -21474836 <= depth <= 100,
    ensures
        r == outcome_score(outcome_of(*board, are_there_moves, is_check, repetitions@), depth),
{
    match outcome(board, are_there_moves, is_check, repetitions) {
        Outcome::Ongoing => None,
        Outcome::WhiteWon => Some(i64::MAX - 10000 + (100 * depth) as i64),
        Outcome::BlackWon => Some(i64::MIN + 10000 - (100 * depth) as i64),
        Outcome::Stalemate => Some(-1000),
    }
}

/// The value of a kind of piece.
pub fn get_raw_material(piece: PieceType, w: &EvalWeights) -> (r: i64)
    ensures
        r == w.value_of(piece),
{
    match piece {
        PieceType::Pawn => w.pawn_value,
        PieceType::Rook => w.rook_value,
        PieceType::Knight => w.knight_value,
        PieceType::Bishop => w.bishop_value,
        PieceType::Queen => w.queen_value,
        PieceType::King => w.king_value,
    }
}

/// The value of `piece` from white's view, times the material weight.
pub fn get_material(piece: Piece, w: &EvalWeights) -> (r: i64)
    requires
        w.wf(),
    ensures
        r == (if piece.side == Side::White { w.value_of(piece.piece_type) as int } else { -w.value_of(piece.piece_type) }) * w.material_weight,
{
    let v = get_raw_material(piece.role(), w);
    let signed = if let Side::White = piece.side() { v } else { -v };
    assert(-10_000_000 <= signed * w.material_weight <= 10_000_000) by (nonlinear_arith)
        requires -100_000 <= signed <= 100_000, -100 <= w.material_weight <= 100;
    signed * w.material_weight
}

/// The positional entry of `piece` on `pos`; see `EvalWeights::raw_positional`.
pub fn get_raw_positional(piece: Piece, pos: Position, w: &EvalWeights) -> (r: i64)
    requires
        pos.valid(),
    ensures
        r == w.raw_positional(piece, pos),
{
    let lookup_pos = pos.with_y(piece.side().pers_y(pos.y())).unwrap();
    let i = lookup_pos.index() as usize;
    match piece.role() {
        PieceType::Pawn => w.pawn_positional[i],
        PieceType::Rook => w.rook_positional[i],
        PieceType::Knight => w.knight_positional[i],
        PieceType::Bishop => w.bishop_positional[i],
        PieceType::Queen => w.queen_positional[i],
        PieceType::King => w.king_positional[i],
    }
}

/// The positional entry of `piece` on `pos` from white's view, times the positional weight.
pub fn get_positional(piece: Piece, pos: Position, w: &EvalWeights) -> (r: i64)
    requires
        w.wf(),
        pos.valid(),
    ensures
        r == (if piece.side == Side::White { w.raw_positional(piece, pos) as int } else { -w.raw_positional(piece, pos) }) * w.positional_weight,
{
    let v = get_raw_positional(piece, pos, w);
    proof {
        lemma_positional_bound(*w, piece, pos);
    }
    let signed = if let Side::White = piece.side() { v } else { -v };
    assert(-10_000_000 <= signed * w.positional_weight <= 10_000_000) by (nonlinear_arith)
        requires -100_000 <= signed <= 100_000, -100 <= w.positional_weight <= 100;
    signed * w.positional_weight
}

/// A positional entry is at most `value_bound` in size.
pub proof fn lemma_positional_bound(w: EvalWeights, piece: Piece, pos: Position)
    requires
        w.wf(),
        pos.valid(),
    ensures
        -100_000 <= w.raw_positional(piece, pos) <= 100_000,
{
    let row = if piece.side == Side::White { pos.row() } else { 7 - pos.row() };
    let i = Position::at(pos.col(), row).index as int;
    assert(0 <= i < 64);
    let t = w.table_of(piece.piece_type);
    assert(-100_000 <= t[i] <= 100_000);
}

/// The number of pieces on a bitboard.
pub open spec fn pieces(b: u64) -> int {
    bit_count(b, 64) as int
}

/// The material of one side: its pawns, rooks, knights, bishops and queens at their values.
pub open spec fn side_material(s: [u64; 6], w: EvalWeights) -> int {
    pieces(s[0]) * w.pawn_value + pieces(s[1]) * w.rook_value + pieces(s[2]) * w.knight_value
        + pieces(s[3]) * w.bishop_value + pieces(s[4]) * w.queen_value
}

/// White's material less black's, times the material weight.
pub open spec fn material_score(st: BoardState, w: EvalWeights) -> int {
    (side_material(st.white.state, w) - side_material(st.black.state, w)) * w.material_weight
}

/// `n` pieces at value `v` stay within bounds.
proof fn lemma_count_times_value(n: int, v: int)
    by (nonlinear_arith)
    requires
        0 <= n <= 64,
        -100_000 <= v <= 100_000,
    ensures
        -6_400_000 <= n * v <= 6_400_000,
{
}

/// The material of `board`; see `material_score`.
pub fn eval_material(board: &SearchBoard, w: &EvalWeights) -> (r: i64)
    requires
        w.wf(),
    ensures
        r == material_score(board.state, *w),
        -7_000_000_000 <= r <= 7_000_000_000,
{
    let wh = &board.state.white.state;
    let bl = &board.state.black.state;
    proof {
        lemma_bit_count_bound(wh[0], 64);
        lemma_bit_count_bound(wh[1], 64);
        lemma_bit_count_bound(wh[2], 64);
        lemma_bit_count_bound(wh[3], 64);
        lemma_bit_count_bound(wh[4], 64);
        lemma_bit_count_bound(bl[0], 64);
        lemma_bit_count_bound(bl[1], 64);
        lemma_bit_count_bound(bl[2], 64);
        lemma_bit_count_bound(bl[3], 64);
        lemma_bit_count_bound(bl[4], 64);
        lemma_count_times_value(pieces(wh[0]), w.pawn_value as int);
        lemma_count_times_value(pieces(wh[1]), w.rook_value as int);
        lemma_count_times_value(pieces(wh[2]), w.knight_value as int);
        lemma_count_times_value(pieces(wh[3]), w.bishop_value as int);
        lemma_count_times_value(pieces(wh[4]), w.queen_value as int);
        lemma_count_times_value(pieces(bl[0]), w.pawn_value as int);
        lemma_count_times_value(pieces(bl[1]), w.rook_value as int);
        lemma_count_times_value(pieces(bl[2]), w.knight_value as int);
        lemma_count_times_value(pieces(bl[3]), w.bishop_value as int);
        lemma_count_times_value(pieces(bl[4]), w.queen_value as int);
    }
    let mut eval: i64 = 0;
    eval += count_ones(wh[PAWN]) as i64 * w.pawn_value;
    eval += count_ones(wh[ROOK]) as i64 * w.rook_value;
    eval += count_ones(wh[KNIGHT]) as i64 * w.knight_value;
    eval += count_ones(wh[BISHOP]) as i64 * w.bishop_value;
    eval += count_ones(wh[QUEEN]) as i64 * w.queen_value;
    eval -= count_ones(bl[PAWN]) as i64 * w.pawn_value;
    eval -= count_ones(bl[ROOK]) as i64 * w.rook_value;
    eval -= count_ones(bl[KNIGHT]) as i64 * w.knight_value;
    eval -= count_ones(bl[BISHOP]) as i64 * w.bishop_value;
    eval -= count_ones(bl[QUEEN]) as i64 * w.queen_value;
    assert(eval == side_material(board.state.white.state, *w) - side_material(board.state.black.state, *w));
    assert(-70_000_000 <= eval <= 70_000_000);
    assert(-7_000_000_000 <= eval * w.material_weight <= 7_000_000_000) by (nonlinear_arith)
        requires -70_000_000 <= eval <= 70_000_000, -100 <= w.material_weight <= 100;
    eval * w.material_weight
}

/// The positional entries of the pieces on squares 0 to `n - 1`, from white's view.
pub open spec fn positional_upto(st: BoardState, w: EvalWeights, n: int) -> int
    decreases n,
{
    if n <= 0 {
        0
    } else {
        positional_upto(st, w, n - 1) + match st.board.board[n - 1] {
            Some(p) => if p.side == Side::White {
                w.raw_positional(p, Position { index: (n - 1) as u8 }) as int
            } else {
                -w.raw_positional(p, Position { index: (n - 1) as u8 })
            },
            None => 0,
        }
    }
}

/// The position score of `board`: the pieces' positional entries from white's view, times the
/// positional weight.
pub open spec fn positional_score(st: BoardState, w: EvalWeights) -> int {
    positional_upto(st, w, 64) * w.positional_weight
}

/// The position score of `board`; see `positional_score`.
pub fn eval_score(board: &SearchBoard, w: &EvalWeights) -> (r: i64)
    requires
        w.wf(),
    ensures
        r == positional_score(board.state, *w),
        -640_000_000 <= r <= 640_000_000,
{
    let mut positional: i64 = 0;
    let mut index: u8 = 0;
    while index < 64
        invariant
            index <= 64,
            w.wf(),
            positional == positional_upto(board.state, *w, index as int),
            -100_000 * index <= positional <= 100_000 * index,
        decreases 64 - index,
    {
        let pos = Position::from_index(index);
        if let Some(piece) = board.state.board.board[index as usize] {
            let v = get_raw_positional(piece, pos, w);
            proof {
                lemma_positional_bound(*w, piece, pos);
            }
            let sign = crate::engine::who2move(piece.side());
            let term = if sign == 1 { v } else { -v };
            assert(term == v * sign) by (nonlinear_arith)
                requires sign == 1 || sign == -1, term == (if sign == 1 { v as int } else { -v });
            positional += v * sign;
        }
        index += 1;
    }
    assert(-640_000_000 <= positional * w.positional_weight <= 640_000_000) by (nonlinear_arith)
        requires -6_400_000 <= positional <= 6_400_000, -100 <= w.positional_weight <= 100;
    positional * w.positional_weight
}

/// How promising a move of `who_to_move` looks, for ordering the search: a plain move by how
/// much its piece's positional entry grows, times the positional weight, plus the value of
/// what it takes times the material weight; a promotion by the square of the new piece's value;
/// castling 20000; en passant 1000000.
pub open spec fn move_rating(mov: Move, who_to_move: Side, w: EvalWeights) -> int {
    let piece = Piece { side: who_to_move, piece_type: mov.moved_kind() };
    match mov.move_type {
        MoveType::Normal(_) => {
            let e = (w.raw_positional(piece, mov.to) - w.raw_positional(piece, mov.from)) * w.positional_weight;
            match mov.take {
                Some(t) => e + w.value_of(t.piece_type) * w.material_weight,
                None => e,
            }
        },
        MoveType::Promotion(p) => w.value_of(p) * w.value_of(p),
        MoveType::ShortCastle => 20000,
        MoveType::LongCastle => 20000,
        MoveType::EnPassant => 1_000_000,
    }
}

/// How promising a move looks; see `move_rating`.
pub fn rate_move(mov: &Move, who_to_move: Side, w: &EvalWeights) -> (r: i64)
    requires
        w.wf(),
        mov.from.valid(),
        mov.to.valid(),
    ensures
        r == move_rating(*mov, who_to_move, *w),
        -100_000_000 <= r <= 10_000_000_000,
{
    let piece = mov.piece_type().with_side(who_to_move);
    match mov.move_type {
        MoveType::Normal(_) => {
            let from = get_raw_positional(piece, mov.from, w);
            let to = get_raw_positional(piece, mov.to, w);
            proof {
                lemma_positional_bound(*w, piece, mov.from);
                lemma_positional_bound(*w, piece, mov.to);
            }
            let mut eval: i64 = 0;
            eval -= from;
            eval += to;
            assert(-20_000_000 <= eval * w.positional_weight <= 20_000_000) by (nonlinear_arith)
                requires -200_000 <= eval <= 200_000, -100 <= w.positional_weight <= 100;
            eval *= w.positional_weight;
            if let Some(taken) = mov.take {
                let v = get_raw_material(taken.role(), w);
                assert(-10_000_000 <= v * w.material_weight <= 10_000_000) by (nonlinear_arith)
                    requires -100_000 <= v <= 100_000, -100 <= w.material_weight <= 100;
                eval += v * w.material_weight;
            }
            eval
        },
        MoveType::Promotion(promoted_to) => {
            let v = get_raw_material(promoted_to, w);
            assert(0 <= v * v <= 10_000_000_000) by (nonlinear_arith)
                requires -100_000 <= v <= 100_000;
            v * v
        },
        MoveType::ShortCastle => 20000,
        MoveType::LongCastle => 20000,
        MoveType::EnPassant => 1_000_000,
    }
}

/// How the game stands in `board`, with the legal moves and checks there.
pub open spec fn board_outcome(board: SearchBoard, repetitions: Map<u64, u8>) -> Outcome {
    outcome_of(board, moves_in(board.state, false).len() > 0, !(checks_of(board.state) is NoCheck), repetitions)
}

/// The static score of `board` for the side to move, `depth` plies from the root: for a
/// finished game the negated size of its outcome score; else position and material from the
/// mover's view, plus the number of legal moves, less 10 in check.
pub open spec fn static_score(board: SearchBoard, repetitions: Map<u64, u8>, depth: i32, w: EvalWeights) -> int {
    let st = board.state;
    let moves = moves_in(st, false);
    let is_check = !(checks_of(st) is NoCheck);
    match outcome_score(board_outcome(board, repetitions), depth) {
        Some(o) => if o < 0 { o as int } else { -o },
        None => (positional_score(st, w) + material_score(st, w)) * (if st.side == Side::White { 1int } else { -1int })
            + moves.len() - (if is_check { 10int } else { 0int }),
    }
}

/// The static score of `board`; see `static_score`. A won game's depth must keep the size of
/// its score within range.
pub fn evaluate(board: &SearchBoard, repetitions: &HashMap<u64, u8>, depth: i32, tables: &MoveTables, w: &EvalWeights) -> (r: i64)
    requires
        tables.wf(),
        w.wf(),
        generation_ok(board.state),
        board_outcome(*board, repetitions@) is WhiteWon ==> -21474836 <= depth <= 100,
        board_outcome(*board, repetitions@) is BlackWon ==> -21474836 <= depth <= 99,
    ensures
        r == static_score(*board, repetitions@, depth, *w),
        i64::MIN + 1 <= r,
{
    let (pin_state, check_paths) = board.state.legal_data(tables);
    let is_check = check_paths.is_check();
    let moves = board.find_all_moves(pin_state, check_paths, false, tables);
    proof {
        lemma_legal_moves_len(board.state, pin_state, check_paths, false);
    }
    let mut side_dependent = eval_score(board, w);
    side_dependent += eval_material(board, w);
    let mut side_agnostic = moves.len() as i64;
    side_agnostic -= if is_check { 10 } else { 0 };
    if let Some(outcome) = evaluate_outcome(board, repetitions, moves.len() > 0, is_check, depth) {
        let size = if outcome < 0 { -outcome } else { outcome };
        return -size;
    }
    let sign: i64 = if let Side::White = board.state.side { 1 } else { -1 };
    assert(side_dependent * sign == (if sign == 1 { side_dependent as int } else { -side_dependent })) by (nonlinear_arith)
        requires sign == 1 || sign == -1;
    side_dependent * sign + side_agnostic
}

/// Swapping the colours negates the material score: `b` has `a`'s black pieces as white and
/// its white pieces as black.
pub proof fn lemma_material_colour_swap(a: BoardState, b: BoardState, w: EvalWeights)
    requires
        b.white == a.black,
        b.black == a.white,
    ensures
        material_score(b, w) == -material_score(a, w),
{
    let x = side_material(a.white.state, w);
    let y = side_material(a.black.state, w);
    assert((y - x) * w.material_weight == -((x - y) * w.material_weight)) by (nonlinear_arith);
}

/// Adding one piece on a square that its bitboard lacks changes the material score by that
/// piece's value times the material weight: up for a white piece, down for a black one. A king
/// changes nothing.
pub proof fn lemma_material_add_piece(a: BoardState, b: BoardState, p: Piece, i: u64, w: EvalWeights)
    requires
        i < 64,
        !is_set(if p.side == Side::White { a.white.state[p.piece_type.code() as int] } else {
            a.black.state[p.piece_type.code() as int]
        }, i),
        forall|j: int| 0 <= j < 6 ==> #[trigger] b.white.state[j] == (if p.side == Side::White && j == p.piece_type.code() {
            a.white.state[j] | (1u64 << i)
        } else {
            a.white.state[j]
        }),
        forall|j: int| 0 <= j < 6 ==> #[trigger] b.black.state[j] == (if p.side == Side::Black && j == p.piece_type.code() {
            a.black.state[j] | (1u64 << i)
        } else {
            a.black.state[j]
        }),
    ensures
        material_score(b, w) == material_score(a, w) + (if p.piece_type == PieceType::King {
            0int
        } else if p.side == Side::White {
            w.value_of(p.piece_type) * w.material_weight
        } else {
            -(w.value_of(p.piece_type) * w.material_weight)
        }),
{
    let k = p.piece_type.code() as int;
    let x = if p.side == Side::White { a.white.state[k] } else { a.black.state[k] };
    lemma_count_add_square(x, i);
    let aw = a.white.state;
    let ab = a.black.state;
    let bw = b.white.state;
    let bb = b.black.state;
    assert(bw[0] == aw[0] || p.side == Side::White && k == 0);
    assert(forall|j: int| 0 <= j < 6 && !(p.side == Side::White && j == k) ==> #[trigger] bw[j] == aw[j]);
    assert(forall|j: int| 0 <= j < 6 && !(p.side == Side::Black && j == k) ==> #[trigger] bb[j] == ab[j]);
    assert(bw[0] == aw[0] || k == 0);
    assert(bw[1] == aw[1] || k == 1);
    assert(bw[2] == aw[2] || k == 2);
    assert(bw[3] == aw[3] || k == 3);
    assert(bw[4] == aw[4] || k == 4);
    assert(bb[0] == ab[0] || k == 0);
    assert(bb[1] == ab[1] || k == 1);
    assert(bb[2] == ab[2] || k == 2);
    assert(bb[3] == ab[3] || k == 3);
    assert(bb[4] == ab[4] || k == 4);
    let v = if p.piece_type == PieceType::King { 0int } else { w.value_of(p.piece_type) as int };
    let sw = side_material(aw, w);
    let sb = side_material(ab, w);
    let n = pieces(x);
    let val = w.value_of(p.piece_type) as int;
    assert((n + 1) * val == n * val + val) by (nonlinear_arith);
    assert(pieces(x | (1u64 << i)) == n + 1);
    if p.side == Side::White {
        assert(side_material(bb, w) == sb);
        assert(side_material(bw, w) == sw + v);
        assert((sw + v - sb) * w.material_weight == (sw - sb) * w.material_weight + v * w.material_weight) by (nonlinear_arith);
    } else {
        assert(side_material(bw, w) == sw);
        assert(side_material(bb, w) == sb + v);
        assert((sw - (sb + v)) * w.material_weight == (sw - sb) * w.material_weight - v * w.material_weight) by (nonlinear_arith);
    }
}

/// The kings do not count in the material score: boards that differ only in their king
/// bitboards score the same.
pub proof fn lemma_material_ignores_kings(a: BoardState, b: BoardState, w: EvalWeights)
    requires
        forall|k: int| 0 <= k < 5 ==> #[trigger] b.white.state[k] == a.white.state[k] && b.black.state[k] == a.black.state[k],
    ensures
        material_score(b, w) == material_score(a, w),
{
    assert(b.white.state[0] == a.white.state[0] && b.black.state[0] == a.black.state[0]);
    assert(b.white.state[1] == a.white.state[1] && b.black.state[1] == a.black.state[1]);
    assert(b.white.state[2] == a.white.state[2] && b.black.state[2] == a.black.state[2]);
    assert(b.white.state[3] == a.white.state[3] && b.black.state[3] == a.black.state[3]);
    assert(b.white.state[4] == a.white.state[4] && b.black.state[4] == a.black.state[4]);
}

/// The square that square `i` becomes when the board is mirrored across its middle rank.
pub open spec fn mirror_index(i: int) -> int {
    i % 8 + 8 * (7 - i / 8)
}

/// The piece of the other colour.
pub open spec fn flip(p: Option<Piece>) -> Option<Piece> {
    match p {
        Some(q) => Some(Piece { side: other(q.side), piece_type: q.piece_type }),
        None => None,
    }
}

/// Whether `b` is `a` mirrored across the middle rank with the colours swapped.
pub open spec fn colour_mirror(a: BoardState, b: BoardState) -> bool {
    forall|i: int| 0 <= i < 64 ==> b.board.board[mirror_index(i)] == flip(#[trigger] a.board.board[i])
}

/// The positional entry that square `i` adds, from white's view.
pub open spec fn square_term(st: BoardState, w: EvalWeights, i: int) -> int {
    match st.board.board[i] {
        Some(p) => if p.side == Side::White {
            w.raw_positional(p, Position { index: i as u8 }) as int
        } else {
            -w.raw_positional(p, Position { index: i as u8 })
        },
        None => 0,
    }
}

/// The entries of the first `x` squares of rank `y`.
pub open spec fn rank_part(st: BoardState, w: EvalWeights, y: int, x: int) -> int
    decreases x,
{
    if x <= 0 { 0 } else { rank_part(st, w, y, x - 1) + square_term(st, w, 8 * y + x - 1) }
}

/// The entries of the first `k` ranks.
pub open spec fn ranks_upto(st: BoardState, w: EvalWeights, k: int) -> int
    decreases k,
{
    if k <= 0 { 0 } else { ranks_upto(st, w, k - 1) + rank_part(st, w, k - 1, 8) }
}

proof fn lemma_upto_by_ranks(st: BoardState, w: EvalWeights, y: int, x: int)
    requires
        0 <= y,
        0 <= x <= 8,
    ensures
        positional_upto(st, w, 8 * y + x) == ranks_upto(st, w, y) + rank_part(st, w, y, x),
    decreases y, x,
{
    if x == 0 {
        if y > 0 {
            lemma_upto_by_ranks(st, w, y - 1, 8);
        }
    } else {
        lemma_upto_by_ranks(st, w, y, x - 1);
        assert(positional_upto(st, w, 8 * y + x) == positional_upto(st, w, 8 * y + x - 1) + square_term(st, w, 8 * y + x - 1));
    }
}

proof fn lemma_mirror_term(a: BoardState, b: BoardState, w: EvalWeights, y: int, t: int)
    requires
        colour_mirror(a, b),
        0 <= y < 8,
        0 <= t < 8,
    ensures
        square_term(b, w, 8 * (7 - y) + t) == -square_term(a, w, 8 * y + t),
{
    let i = 8 * y + t;
    let j = 8 * (7 - y) + t;
    assert(i % 8 == t && i / 8 == y);
    assert(mirror_index(i) == j);
    assert(b.board.board[j] == flip(a.board.board[i]));
    let pi = Position { index: i as u8 };
    let pj = Position { index: j as u8 };
    assert(pi.col() == t && pi.row() == y);
    assert(pj.col() == t && pj.row() == 7 - y);
}

proof fn lemma_mirror_rank(a: BoardState, b: BoardState, w: EvalWeights, y: int, x: int)
    requires
        colour_mirror(a, b),
        0 <= y < 8,
        0 <= x <= 8,
    ensures
        rank_part(b, w, 7 - y, x) == -rank_part(a, w, y, x),
    decreases x,
{
    if x > 0 {
        lemma_mirror_rank(a, b, w, y, x - 1);
        lemma_mirror_term(a, b, w, y, x - 1);
        assert(8 * (7 - y) + x - 1 == 8 * (7 - y) + (x - 1));
    }
}

/// Mirroring the board across its middle rank and swapping the colours negates the positional
/// score.
pub proof fn lemma_positional_mirror(a: BoardState, b: BoardState, w: EvalWeights)
    requires
        colour_mirror(a, b),
    ensures
        positional_score(b, w) == -positional_score(a, w),
{
    lemma_upto_by_ranks(a, w, 8, 0);
    lemma_upto_by_ranks(b, w, 8, 0);
    lemma_mirror_rank(a, b, w, 0, 8);
    lemma_mirror_rank(a, b, w, 1, 8);
    lemma_mirror_rank(a, b, w, 2, 8);
    lemma_mirror_rank(a, b, w, 3, 8);
    lemma_mirror_rank(a, b, w, 4, 8);
    lemma_mirror_rank(a, b, w, 5, 8);
    lemma_mirror_rank(a, b, w, 6, 8);
    lemma_mirror_rank(a, b, w, 7, 8);
    assert(rank_part(b, w, 7, 8) == -rank_part(a, w, 0, 8));
    assert(rank_part(b, w, 6, 8) == -rank_part(a, w, 1, 8));
    assert(rank_part(b, w, 5, 8) == -rank_part(a, w, 2, 8));
    assert(rank_part(b, w, 4, 8) == -rank_part(a, w, 3, 8));
    assert(rank_part(b, w, 3, 8) == -rank_part(a, w, 4, 8));
    assert(rank_part(b, w, 2, 8) == -rank_part(a, w, 5, 8));
    assert(rank_part(b, w, 1, 8) == -rank_part(a, w, 6, 8));
    assert(rank_part(b, w, 0, 8) == -rank_part(a, w, 7, 8));
    reveal_with_fuel(ranks_upto, 9);
    let s = positional_upto(a, w, 64);
    assert(positional_upto(b, w, 64) == -s);
    assert((-s) * w.positional_weight == -(s * w.positional_weight)) by (nonlinear_arith);
}

/// The starting position's layout: its bitboards, and squares that hold what they say.
pub open spec fn start_layout(st: BoardState) -> bool {
    &&& st.white.state@ == seq![0xFF00u64, 0x81, 0x42, 0x24, 0x8, 0x10]
    &&& st.black.state@ == seq![0xFF000000000000u64, 0x8100000000000000, 0x4200000000000000, 0x2400000000000000,
        0x800000000000000, 0x1000000000000000]
    &&& forall|i: int| 0 <= i < 64 ==> #[trigger] st.board.board[i] == merged_at(st.white.state, st.black.state, i as u64)
}

/// In the starting layout each white bitboard mirrored across the middle rank is the black
/// one of the same kind.
proof fn lemma_start_mirror_square(i: u64, j: u64)
    by (bit_vector)
    requires
        i < 64,
        j == i % 8 + 8 * (7 - i / 8),
    ensures
        is_set(0xFF00u64, i) == is_set(0xFF000000000000u64, j),
        is_set(0x81u64, i) == is_set(0x8100000000000000u64, j),
        is_set(0x42u64, i) == is_set(0x4200000000000000u64, j),
        is_set(0x24u64, i) == is_set(0x2400000000000000u64, j),
        is_set(0x8u64, i) == is_set(0x800000000000000u64, j),
        is_set(0x10u64, i) == is_set(0x1000000000000000u64, j),
        is_set(0xFF000000000000u64, i) == is_set(0xFF00u64, j),
        is_set(0x8100000000000000u64, i) == is_set(0x81u64, j),
        is_set(0x4200000000000000u64, i) == is_set(0x42u64, j),
        is_set(0x2400000000000000u64, i) == is_set(0x24u64, j),
        is_set(0x800000000000000u64, i) == is_set(0x8u64, j),
        is_set(0x1000000000000000u64, i) == is_set(0x10u64, j),
{
}

/// The black bitboards of the starting layout are the white ones shifted up, with nothing
/// shifted out.
proof fn lemma_start_shifts()
    by (bit_vector)
    ensures
        0xFF00u64 << 40u64 == 0xFF000000000000u64,
        0xFF00u64 >> 24u64 == 0,
        0x81u64 << 56u64 == 0x8100000000000000u64,
        0x81u64 >> 8u64 == 0,
        0x42u64 << 56u64 == 0x4200000000000000u64,
        0x42u64 >> 8u64 == 0,
        0x24u64 << 56u64 == 0x2400000000000000u64,
        0x24u64 >> 8u64 == 0,
        0x8u64 << 56u64 == 0x800000000000000u64,
        0x8u64 >> 8u64 == 0,
{
}

/// The starting position is balanced: it is its own colour mirror, and its material and
/// positional scores are 0 whatever the evaluation numbers.
pub proof fn lemma_start_balanced(st: BoardState, w: EvalWeights)
    requires
        start_layout(st),
    ensures
        colour_mirror(st, st),
        material_score(st, w) == 0,
        positional_score(st, w) == 0,
{
    let wh = st.white.state;
    let bl = st.black.state;
    assert(wh[0] == wh@[0] && wh[1] == wh@[1] && wh[2] == wh@[2] && wh[3] == wh@[3] && wh[4] == wh@[4] && wh[5] == wh@[5]);
    assert(bl[0] == bl@[0] && bl[1] == bl@[1] && bl[2] == bl@[2] && bl[3] == bl@[3] && bl[4] == bl@[4] && bl[5] == bl@[5]);
    assert forall|i: int| 0 <= i < 64 implies st.board.board[mirror_index(i)] == flip(#[trigger] st.board.board[i]) by {
        let j = mirror_index(i);
        assert(0 <= j < 64);
        lemma_start_mirror_square(i as u64, j as u64);
        crate::board::lemma_start_one_piece(i as u64);
        assert(st.board.board[j] == merged_at(wh, bl, j as u64));
    }
    lemma_start_shifts();
    lemma_count_shift(0xFF00u64, 40);
    lemma_count_shift(0x81u64, 56);
    lemma_count_shift(0x42u64, 56);
    lemma_count_shift(0x24u64, 56);
    lemma_count_shift(0x8u64, 56);
    assert(side_material(wh, w) == side_material(bl, w));
    assert(material_score(st, w) == 0);
    lemma_positional_mirror(st, st, w);
}

} // verus!
