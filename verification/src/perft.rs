//! Perft: counting the moves of every line to a given depth, per depth.
use crate::board::{SearchBoard, can_make, make_model, can_unmake_after, lemma_make_unmake, other};
use crate::board_repr::is_king_of;
use crate::moving::{Move, Unmove};
use crate::perft_data::{PerftData, can_count, counted};
use crate::piece::{Piece, PieceType, Side};
use crate::search::{legal_moves, pawns_inside, recorded_king, king_square, lemma_legal_moves_on_board, lemma_first_king, moves_valid};
use crate::search_data::{check_candidates, classify, pins_of};
use crate::tables::MoveTables;
use crate::pseudo_moving::{attacked_any, kings_recorded, pseudo_upto};
use crate::zobrist::ZobristRandom;
use vstd::prelude::*;

verus! {

/// Two boards with the same view are the same board.
pub proof fn lemma_view_injective(a: SearchBoard, b: SearchBoard)
    requires
        a@ == b@,
    ensures
        a == b,
{
    broadcast use vstd::array::group_array_axioms;

    assert(a.state.white.state =~= b.state.white.state);
    assert(a.state.black.state =~= b.state.black.state);
    assert(a.state.board.board =~= b.state.board.board);
}

/// The board after the side to move makes `m` on `b`, hashing with `keys`.
pub open spec fn after(b: SearchBoard, m: Move, keys: ZobristRandom) -> SearchBoard {
    choose|c: SearchBoard| c@ == make_model(b@, m, keys)
}

/// What move generation and making a move need of a position: a king of the side to move, no
/// pawn of it on the first or last rank, the recorded king and the en passant square on the
/// board, and room on the halfmove clock.
pub open spec fn node_ok(b: SearchBoard) -> bool {
    &&& crate::search::generation_ok(b.state)
    &&& b.halfmove_clock < 255
}

/// The legal moves in `b`, with the pins and checks of the king where `b` records it.
pub open spec fn node_moves(b: SearchBoard) -> Seq<Move> {
    let k = recorded_king(b.state, b.state.side);
    legal_moves(b.state, pins_of(b.state, k), classify(check_candidates(b.state, k, other(b.state.side))), false)
}

/// The counters with move `m` counted at depth index `i`, when it fits.
pub open spec fn tally(res: Seq<PerftData>, i: int, m: Move) -> Seq<PerftData> {
    if can_count(res[i], m) {
        res.update(i, counted(res[i], m))
    } else {
        res
    }
}

/// The counters after counting every line of `depth` more moves from `b`, where `total` is
/// the depth of the whole run: each move at depth index `total - depth`, after the lines
/// below it. A position that `node_ok` refuses ends its lines.
pub open spec fn perft_node(res: Seq<PerftData>, b: SearchBoard, depth: nat, total: nat, keys: ZobristRandom) -> Seq<PerftData>
    decreases depth, 1nat, 0nat,
{
    if depth == 0 || !node_ok(b) {
        res
    } else {
        perft_moves(res, b, node_moves(b), depth, total, keys)
    }
}

/// The counters after counting the lines that start with the moves `moves` from `b`.
pub open spec fn perft_moves(
    res: Seq<PerftData>,
    b: SearchBoard,
    moves: Seq<Move>,
    depth: nat,
    total: nat,
    keys: ZobristRandom,
) -> Seq<PerftData>
    decreases depth, 0nat, moves.len(),
{
    if depth == 0 || moves.len() == 0 {
        res
    } else {
        let r1 = perft_moves(res, b, moves.drop_last(), depth, total, keys);
        let m = moves.last();
        let r2 = perft_node(r1, after(b, m, keys), (depth - 1) as nat, total, keys);
        tally(r2, total - depth, m)
    }
}

/// The counters of a run of depth `depth` from `b`.
pub open spec fn perft_counts(b: SearchBoard, depth: nat, keys: ZobristRandom) -> Seq<PerftData> {
    perft_node(Seq::new(depth, |i: int| PerftData::zero()), b, depth, depth, keys)
}

/// Whether `node_ok` holds of `b`.
pub(crate) fn node_ok_check(b: &SearchBoard) -> (r: bool)
    ensures
        r == node_ok(*b),
{
    b.halfmove_clock < 255 && crate::search::generation_check(&b.state)
}

/// Counts `mov` at depth index `i`, when it fits.
fn tally_move(results: &mut Vec<PerftData>, i: usize, mov: Move)
    requires
        i < old(results)@.len(),
    ensures
        final(results)@ == tally(old(results)@, i as int, mov),
{
    let mut d = results[i];
    let extra: u64 = (if mov.take.is_some() { 1u64 } else { 0u64 }) + (if let crate::moving::MoveType::EnPassant = mov.move_type { 1u64 } else { 0u64 });
    if d.nodes < u32::MAX && (d.captures as u64) + extra <= u32::MAX as u64 && d.en_passant < u32::MAX
        && d.castles < u32::MAX && d.promotions < u32::MAX {
        d.add_normal(mov);
        results[i] = d;
    }
}

/// The legal moves in `board`, with the facts the search needs of them.
fn moves_of(board: &SearchBoard, tables: &MoveTables) -> (r: Vec<Move>)
    requires
        tables.wf(),
        node_ok(*board),
    ensures
        r@ == node_moves(*board),
        moves_valid(r@),
{
    let (pin, check) = board.state.legal_data(tables);
    let moves = board.find_all_moves(pin, check, false, tables);
    proof {
        let st = board.state;
        let w = choose|i: int| 0 <= i < 64 && is_king_of(#[trigger] st.board.board[i], st.side);
        lemma_first_king_bound(st.board.board@, st.side, w);
        lemma_legal_moves_on_board(st, pin, check, false);
    }
    moves
}

/// A side with a king on square `w` has its first king on the board.
pub proof fn lemma_first_king_bound(sq: Seq<Option<Piece>>, side: Side, w: int)
    requires
        0 <= w < 64,
        is_king_of(sq[w], side),
    ensures
        0 <= crate::fen::first_king_from(sq, side, 0) < 64,
{
    lemma_first_king_le(sq, side, w, 0);
}

proof fn lemma_first_king_le(sq: Seq<Option<Piece>>, side: Side, w: int, i: int)
    requires
        0 <= i <= w < 64,
        is_king_of(sq[w], side),
    ensures
        i <= crate::fen::first_king_from(sq, side, i) <= w,
    decreases w - i,
{
    if i < w && !is_king_of(sq[i], side) {
        lemma_first_king_le(sq, side, w, i + 1);
    }
}

/// Makes `mov` on a copy of `board`.
pub(crate) fn made(board: &SearchBoard, mov: &Move, keys: &ZobristRandom) -> (r: SearchBoard)
    requires
        node_ok(*board),
        mov.from.valid(),
        mov.to.valid(),
    ensures
        r == after(*board, *mov, *keys),
{
    let mut c = *board;
    c.make(mov, keys);
    proof {
        let a = after(*board, *mov, *keys);
        assert(a@ == make_model(board@, *mov, *keys));
        lemma_view_injective(a, c);
    }
    c
}

fn perft_search_copy(board: SearchBoard, results: &mut Vec<PerftData>, depth: usize, total: usize, tables: &MoveTables, keys: &ZobristRandom)
    requires
        tables.wf(),
        old(results)@.len() == total,
        depth <= total,
    ensures
        final(results)@ == perft_node(old(results)@, board, depth as nat, total as nat, *keys),
        final(results)@.len() == total,
    decreases depth,
{
    if depth == 0 || !node_ok_check(&board) {
        return;
    }
    let moves = moves_of(&board, tables);
    let ghost start = results@;
    let mut i: usize = 0;
    assert(moves@.take(0) =~= Seq::<Move>::empty());
    while i < moves.len()
        invariant
            i <= moves@.len(),
            tables.wf(),
            1 <= depth <= total,
            node_ok(board),
            moves_valid(moves@),
            results@.len() == total,
            start == old(results)@,
            results@ == perft_moves(start, board, moves@.take(i as int), depth as nat, total as nat, *keys),
        decreases moves@.len() - i,
    {
        let mov = moves[i];
        assert(moves@.take(i + 1).drop_last() =~= moves@.take(i as int));
        assert(moves@.take(i + 1).last() == mov);
        let board_clone = made(&board, &mov, keys);
        perft_search_copy(board_clone, results, depth - 1, total, tables, keys);
        tally_move(results, total - depth, mov);
        i += 1;
    }
    assert(moves@.take(moves@.len() as int) =~= moves@);
}

/// The zero counters of a run of depth `depth`.
fn zero_counters(depth: usize) -> (r: Vec<PerftData>)
    ensures
        r@ == Seq::new(depth as nat, |i: int| PerftData::zero()),
{
    let mut r: Vec<PerftData> = Vec::new();
    let mut i: usize = 0;
    while i < depth
        invariant
            i <= depth,
            r@ == Seq::new(i as nat, |j: int| PerftData::zero()),
        decreases depth - i,
    {
        r.push(PerftData::new());
        assert(r@ =~= Seq::new((i + 1) as nat, |j: int| PerftData::zero()));
        i += 1;
    }
    r
}

/// The perft counters of `board` for each depth from 1 to `depth`, each line made on a copy
/// of the board.
pub fn perft_copy(board: SearchBoard, depth: usize, tables: &MoveTables, keys: &ZobristRandom) -> (r: Vec<PerftData>)
    requires
        tables.wf(),
    ensures
        r@ == perft_counts(board, depth as nat, *keys),
{
    let mut results = zero_counters(depth);
    perft_search_copy(board, &mut results, depth, depth, tables, keys);
    results
}

/// Whether two squares' contents are the same.
fn same_piece(a: Option<Piece>, b: Option<Piece>) -> (r: bool)
    ensures
        r == (a == b),
{
    match (a, b) {
        (None, None) => true,
        (Some(x), Some(y)) => x.side == y.side && x.piece_type == y.piece_type,
        _ => false,
    }
}

/// Whether `can_unmake_after` holds of `mov` in `board`: what taking the move back after
/// making it needs to restore the board.
pub(crate) fn unmake_safe(board: &SearchBoard, mov: &Move) -> (r: bool)
    requires
        mov.from.valid(),
        mov.to.valid(),
    ensures
        r == can_unmake_after(board@, *mov),
{
    let ally = board.state.side;
    let sq = &board.state.board.board;
    let fi = mov.from.index as usize;
    let ti = mov.to.index as usize;
    let h: usize = if let Side::White = ally { 0 } else { 56 };
    if fi != ti && !same_piece(sq[ti], mov.take) {
        return false;
    }
    match mov.move_type {
        crate::moving::MoveType::Promotion(_) => {
            if !same_piece(sq[fi], Some(Piece { side: ally, piece_type: PieceType::Pawn })) {
                return false;
            }
        },
        crate::moving::MoveType::LongCastle => {
            if sq[h + 3].is_some() || fi == h || fi == h + 3 || ti == h || ti == h + 3 {
                return false;
            }
        },
        crate::moving::MoveType::ShortCastle => {
            if sq[h + 5].is_some() || fi == h + 7 || fi == h + 5 || ti == h + 7 || ti == h + 5 {
                return false;
            }
        },
        crate::moving::MoveType::EnPassant => {
            let victim = crate::position::Position::new(mov.to.x(), if let Side::White = ally { 4 } else { 3 });
            let vi = victim.index as usize;
            let enemy_pawns = board.state.side_bitboards(ally.opposite()).state[0];
            if !same_piece(sq[vi], Some(Piece { side: ally.opposite(), piece_type: PieceType::Pawn })) || vi == fi || vi == ti
                || enemy_pawns & victim.as_mask() == 0 {
                return false;
            }
        },
        _ => {},
    }
    if mov.piece_type() == PieceType::King {
        let k = board.state.side_king(ally);
        if k.index != mov.from.index {
            return false;
        }
    }
    true
}

fn perft_search(board: &mut SearchBoard, results: &mut Vec<PerftData>, depth: usize, total: usize, tables: &MoveTables, keys: &ZobristRandom)
    requires
        tables.wf(),
        old(results)@.len() == total,
        depth <= total,
    ensures
        final(results)@ == perft_node(old(results)@, *old(board), depth as nat, total as nat, *keys),
        final(results)@.len() == total,
        *final(board) == *old(board),
    decreases depth,
{
    if depth == 0 || !node_ok_check(board) {
        return;
    }
    let moves = moves_of(board, tables);
    let ghost start = results@;
    let ghost b0 = *board;
    let mut i: usize = 0;
    assert(moves@.take(0) =~= Seq::<Move>::empty());
    while i < moves.len()
        invariant
            i <= moves@.len(),
            tables.wf(),
            1 <= depth <= total,
            node_ok(b0),
            *board == b0,
            b0 == *old(board),
            moves_valid(moves@),
            results@.len() == total,
            start == old(results)@,
            results@ == perft_moves(start, b0, moves@.take(i as int), depth as nat, total as nat, *keys),
        decreases moves@.len() - i,
    {
        let mov = moves[i];
        assert(moves@.take(i + 1).drop_last() =~= moves@.take(i as int));
        assert(moves@.take(i + 1).last() == mov);
        if unmake_safe(board, &mov) {
            let unmove = Unmove::new(&mov, board);
            board.make(&mov, keys);
            proof {
                lemma_view_injective(*board, after(b0, mov, *keys));
            }
            perft_search(board, results, depth - 1, total, tables, keys);
            board.unmake(unmove);
            proof {
                lemma_make_unmake(b0, mov, *keys);
                lemma_view_injective(*board, b0);
            }
        } else {
            let board_clone = made(board, &mov, keys);
            perft_search_copy(board_clone, results, depth - 1, total, tables, keys);
        }
        tally_move(results, total - depth, mov);
        i += 1;
    }
    assert(moves@.take(moves@.len() as int) =~= moves@);
}

/// The perft counters of `board` for each depth from 1 to `depth`, each line made and taken
/// back on one board; a move that could not be taken back cleanly is made on a copy instead.
pub fn perft(board: SearchBoard, depth: usize, tables: &MoveTables, keys: &ZobristRandom) -> (r: Vec<PerftData>)
    requires
        tables.wf(),
    ensures
        r@ == perft_counts(board, depth as nat, *keys),
{
    let mut board = board;
    let mut results = zero_counters(depth);
    perft_search(&mut board, &mut results, depth, depth, tables, keys);
    results
}

/// What making moves found the pseudo-legal way needs of a position: both kings recorded on
/// the board, an en passant square on the board and room on the halfmove clock.
pub open spec fn pseudo_node_ok(b: SearchBoard) -> bool {
    &&& kings_recorded(b)
    &&& b.state.en_passant_square matches Some(e) ==> e.valid()
    &&& b.halfmove_clock < 255
}

/// Whether the pseudo-legal move `m` of the side to move in `b` stands: its squares are on the
/// board, it takes no piece of its own side, and once it is made its side's king is not
/// attacked.
pub open spec fn stands(b: SearchBoard, m: Move, keys: ZobristRandom) -> bool {
    &&& m.from.valid()
    &&& m.to.valid()
    &&& !(b.state.board.board[m.to.index as int] matches Some(p) && p.side == b.state.side)
    &&& !attacked_any(after(b, m, keys), recorded_king(after(b, m, keys).state, b.state.side))
}

/// The moves among `moves` that stand in `b`.
pub open spec fn standing(b: SearchBoard, moves: Seq<Move>, keys: ZobristRandom) -> Seq<Move> {
    moves.filter(|m: Move| stands(b, m, keys))
}

/// The pseudo-legal moves of the side to move in `b` that stand.
pub open spec fn standing_moves(b: SearchBoard, keys: ZobristRandom) -> Seq<Move> {
    standing(b, pseudo_upto(b, 64, b.state.side), keys)
}

/// The counters with the check that the move leading to `c` gives counted at depth index `i`:
/// a mate when the side to move in `c` has no standing move, else a check; nothing when its
/// king is not attacked or `pseudo_node_ok` refuses `c`, or the counters are full.
pub open spec fn check_tally(res: Seq<PerftData>, i: int, c: SearchBoard, keys: ZobristRandom) -> Seq<PerftData> {
    let d = res[i];
    if pseudo_node_ok(c) && attacked_any(c, recorded_king(c.state, c.state.side)) && d.checks < u32::MAX
        && d.checkmates < u32::MAX {
        if standing_moves(c, keys).len() == 0 {
            res.update(i, PerftData { checks: (d.checks + 1) as u32, checkmates: (d.checkmates + 1) as u32, ..d })
        } else {
            res.update(i, PerftData { checks: (d.checks + 1) as u32, ..d })
        }
    } else {
        res
    }
}

/// The counters after counting every line of `depth` more standing moves from `b`, where
/// `total` is the depth of the whole run: each move at depth index `total - depth`, its check
/// and then the move, before the lines below it. A position that `pseudo_node_ok` refuses
/// ends its lines.
pub open spec fn pseudo_node(res: Seq<PerftData>, b: SearchBoard, depth: nat, total: nat, keys: ZobristRandom) -> Seq<PerftData>
    decreases depth, 1nat, 0nat,
{
    if depth == 0 || !pseudo_node_ok(b) {
        res
    } else {
        pseudo_moves(res, b, standing_moves(b, keys), depth, total, keys)
    }
}

/// The counters after counting the lines that start with the moves `moves` from `b`.
pub open spec fn pseudo_moves(
    res: Seq<PerftData>,
    b: SearchBoard,
    moves: Seq<Move>,
    depth: nat,
    total: nat,
    keys: ZobristRandom,
) -> Seq<PerftData>
    decreases depth, 0nat, moves.len(),
{
    if depth == 0 || moves.len() == 0 {
        res
    } else {
        let r1 = pseudo_moves(res, b, moves.drop_last(), depth, total, keys);
        let m = moves.last();
        let c = after(b, m, keys);
        let r2 = tally(check_tally(r1, total - depth, c, keys), total - depth, m);
        pseudo_node(r2, c, (depth - 1) as nat, total, keys)
    }
}

/// The counters of a pseudo-legal run of depth `depth` from `b`.
pub open spec fn pseudo_counts(b: SearchBoard, depth: nat, keys: ZobristRandom) -> Seq<PerftData> {
    pseudo_node(Seq::new(depth, |i: int| PerftData::zero()), b, depth, depth, keys)
}

/// Whether `pseudo_node_ok` holds of `b`.
fn pseudo_node_check(b: &SearchBoard) -> (r: bool)
    ensures
        r == pseudo_node_ok(*b),
{
    if b.state.white_king.index >= 64 || b.state.black_king.index >= 64 || b.halfmove_clock >= 255 {
        return false;
    }
    match b.state.en_passant_square {
        Some(e) => e.index < 64,
        None => true,
    }
}

/// Whether the move `mov` of the side to move in `board` stands; see `stands`.
fn stands_check(board: &SearchBoard, mov: &Move, keys: &ZobristRandom) -> (r: bool)
    requires
        pseudo_node_ok(*board),
    ensures
        r == stands(*board, *mov, *keys),
{
    if mov.from.index >= 64 || mov.to.index >= 64 {
        return false;
    }
    if let Some(taken) = board.state.get_piece_at(mov.to) {
        if taken.side == board.state.side {
            return false;
        }
    }
    let c = made_pseudo(board, mov, keys);
    let king = c.state.side_king(board.state.side);
    !c.is_attacked(king)
}

/// Makes `mov` on a copy of `board`; both kings stay recorded on the board.
fn made_pseudo(board: &SearchBoard, mov: &Move, keys: &ZobristRandom) -> (r: SearchBoard)
    requires
        pseudo_node_ok(*board),
        mov.from.valid(),
        mov.to.valid(),
    ensures
        r == after(*board, *mov, *keys),
        kings_recorded(r),
{
    let mut c = *board;
    c.make(mov, keys);
    proof {
        let a = after(*board, *mov, *keys);
        assert(a@ == make_model(board@, *mov, *keys));
        lemma_view_injective(a, c);
    }
    c
}

/// The moves among `moves` that stand in `board`.
fn filter_standing(board: &SearchBoard, moves: &Vec<Move>, keys: &ZobristRandom) -> (r: Vec<Move>)
    requires
        pseudo_node_ok(*board),
    ensures
        r@ == standing(*board, moves@, *keys),
{
    let mut out: Vec<Move> = Vec::new();
    let mut i: usize = 0;
    proof {
        reveal(Seq::filter);
        assert(moves@.take(0) =~= Seq::<Move>::empty());
    }
    while i < moves.len()
        invariant
            i <= moves@.len(),
            pseudo_node_ok(*board),
            out@ == standing(*board, moves@.take(i as int), *keys),
        decreases moves@.len() - i,
    {
        let keep = stands_check(board, &moves[i], keys);
        if keep {
            out.push(moves[i]);
        }
        proof {
            reveal(Seq::filter);
            assert(moves@.take(i + 1).drop_last() =~= moves@.take(i as int));
        }
        i += 1;
    }
    assert(moves@.take(moves@.len() as int) =~= moves@);
    out
}

/// The standing pseudo-legal moves of the side to move in `board`.
fn standing_of(board: &SearchBoard, keys: &ZobristRandom) -> (r: Vec<Move>)
    requires
        pseudo_node_ok(*board),
    ensures
        r@ == standing_moves(*board, *keys),
{
    let pseudo = board.find_all_pseudo(board.state.side);
    filter_standing(board, &pseudo, keys)
}

/// Counts, at depth index `i`, the check that the move leading to `c` gives; see `check_tally`.
fn tally_check(results: &mut Vec<PerftData>, i: usize, c: &SearchBoard, keys: &ZobristRandom)
    requires
        i < old(results)@.len(),
    ensures
        final(results)@ == check_tally(old(results)@, i as int, *c, *keys),
{
    let d = results[i];
    if !pseudo_node_check(c) || d.checks == u32::MAX || d.checkmates == u32::MAX {
        return;
    }
    let other_king = c.state.side_king(c.state.side);
    if !c.is_attacked(other_king) {
        return;
    }
    let replies = standing_of(c, keys);
    let mut d = d;
    if replies.len() == 0 {
        d.add_checkmate();
    } else {
        d.add_check();
    }
    results.set(i, d);
}

fn pseudo_search(board: SearchBoard, results: &mut Vec<PerftData>, depth: usize, total: usize, keys: &ZobristRandom)
    requires
        old(results)@.len() == total,
        depth <= total,
    ensures
        final(results)@ == pseudo_node(old(results)@, board, depth as nat, total as nat, *keys),
        final(results)@.len() == total,
    decreases depth,
{
    if depth == 0 || !pseudo_node_check(&board) {
        return;
    }
    let moves = standing_of(&board, keys);
    let ghost start = results@;
    let ghost ms = moves@;
    proof {
        reveal(Seq::filter);
        lemma_standing_stand(board, pseudo_upto(board, 64, board.state.side), *keys);
    }
    let mut i: usize = 0;
    assert(moves@.take(0) =~= Seq::<Move>::empty());
    while i < moves.len()
        invariant
            i <= ms.len(),
            moves@ == ms,
            1 <= depth <= total,
            pseudo_node_ok(board),
            forall|k: int| 0 <= k < ms.len() ==> stands(board, #[trigger] ms[k], *keys),
            results@.len() == total,
            results@ == pseudo_moves(start, board, ms.take(i as int), depth as nat, total as nat, *keys),
        decreases ms.len() - i,
    {
        let mov = moves[i];
        assert(ms.take(i + 1).drop_last() =~= ms.take(i as int));
        assert(ms.take(i + 1).last() == mov);
        assert(stands(board, ms[i as int], *keys));
        let c = made_pseudo(&board, &mov, keys);
        tally_check(results, total - depth, &c, keys);
        tally_move(results, total - depth, mov);
        pseudo_search(c, results, depth - 1, total, keys);
        i += 1;
    }
    assert(ms.take(ms.len() as int) =~= ms);
}

/// Every move that `standing` keeps stands.
proof fn lemma_standing_stand(b: SearchBoard, moves: Seq<Move>, keys: ZobristRandom)
    ensures
        forall|k: int| 0 <= k < standing(b, moves, keys).len() ==> stands(b, #[trigger] standing(b, moves, keys)[k], keys),
    decreases moves.len(),
{
    reveal(Seq::filter);
    if moves.len() > 0 {
        lemma_standing_stand(b, moves.drop_last(), keys);
    }
}

/// The counters of `board` for each depth from 1 to `depth`, with the moves found the
/// pseudo-legal way and kept when they stand (see `stands`), counting the checks and mates
/// they give; each line made on a copy of the board.
pub fn pseudo_perft(board: SearchBoard, depth: usize, keys: &ZobristRandom) -> (r: Vec<PerftData>)
    ensures
        r@ == pseudo_counts(board, depth as nat, *keys),
{
    let mut results = zero_counters(depth);
    pseudo_search(board, &mut results, depth, depth, keys);
    results
}

/// Whether the standing pseudo-legal moves of `board` and its legal moves are the same moves.
pub fn generators_agree(board: &SearchBoard, tables: &MoveTables, keys: &ZobristRandom) -> (r: bool)
    requires
        tables.wf(),
        node_ok(*board),
        pseudo_node_ok(*board),
    ensures
        r == ((forall|i: int| 0 <= i < standing_moves(*board, *keys).len()
            ==> node_moves(*board).contains(#[trigger] standing_moves(*board, *keys)[i]))
            && (forall|j: int| 0 <= j < node_moves(*board).len()
            ==> standing_moves(*board, *keys).contains(#[trigger] node_moves(*board)[j]))),
{
    let filtered = standing_of(board, keys);
    let legal = moves_of(board, tables);
    let mut i: usize = 0;
    while i < filtered.len()
        invariant
            i <= filtered@.len(),
            filtered@ == standing_moves(*board, *keys),
            legal@ == node_moves(*board),
            forall|k: int| 0 <= k < i ==> legal@.contains(#[trigger] filtered@[k]),
        decreases filtered@.len() - i,
    {
        if !contains_move(&legal, &filtered[i]) {
            assert(!node_moves(*board).contains(standing_moves(*board, *keys)[i as int]));
            return false;
        }
        i += 1;
    }
    let mut j: usize = 0;
    while j < legal.len()
        invariant
            j <= legal@.len(),
            filtered@ == standing_moves(*board, *keys),
            legal@ == node_moves(*board),
            forall|k: int| 0 <= k < filtered@.len() ==> legal@.contains(#[trigger] filtered@[k]),
            forall|k: int| 0 <= k < j ==> filtered@.contains(#[trigger] legal@[k]),
        decreases legal@.len() - j,
    {
        if !contains_move(&filtered, &legal[j]) {
            assert(!standing_moves(*board, *keys).contains(node_moves(*board)[j as int]));
            return false;
        }
        j += 1;
    }
    true
}

/// Whether `m` is among `ms`.
pub(crate) fn contains_move(ms: &Vec<Move>, m: &Move) -> (r: bool)
    ensures
        r == ms@.contains(*m),
{
    let mut i: usize = 0;
    while i < ms.len()
        invariant
            i <= ms@.len(),
            forall|j: int| 0 <= j < i ==> ms@[j] != *m,
        decreases ms@.len() - i,
    {
        if ms[i] == *m {
            return true;
        }
        i += 1;
    }
    false
}

/// How many moves of `ms` satisfy `f`.
pub open spec fn count_where(ms: Seq<Move>, f: spec_fn(Move) -> bool) -> nat
    decreases ms.len(),
{
    if ms.len() == 0 {
        0
    } else {
        count_where(ms.drop_last(), f) + (if f(ms.last()) { 1nat } else { 0nat })
    }
}

proof fn lemma_count_where_bound(ms: Seq<Move>, f: spec_fn(Move) -> bool)
    ensures
        count_where(ms, f) <= ms.len(),
    decreases ms.len(),
{
    if ms.len() > 0 {
        lemma_count_where_bound(ms.drop_last(), f);
    }
}

/// Counting the one-move lines of `ms` from zeroed counters gives a node per move, a promotion
/// per promotion, a castle per castling move, an en passant per en passant capture, and a
/// capture per move that takes a piece and another per en passant capture.
proof fn lemma_perft_moves_one(b: SearchBoard, ms: Seq<Move>, keys: ZobristRandom)
    requires
        ms.len() <= 0x1000_0000,
    ensures
        ({
            let r = perft_moves(seq![PerftData::zero()], b, ms, 1, 1, keys);
            &&& r.len() == 1
            &&& r[0].nodes == ms.len()
            &&& r[0].promotions == count_where(ms, |m: Move| m.move_type is Promotion)
            &&& r[0].castles == count_where(ms, |m: Move| m.move_type is LongCastle || m.move_type is ShortCastle)
            &&& r[0].en_passant == count_where(ms, |m: Move| m.move_type is EnPassant)
            &&& r[0].captures == count_where(ms, |m: Move| m.take is Some) + count_where(ms, |m: Move| m.move_type is EnPassant)
            &&& r[0].checks == 0
            &&& r[0].checkmates == 0
        }),
    decreases ms.len(),
{
    if ms.len() > 0 {
        let p = ms.drop_last();
        lemma_perft_moves_one(b, p, keys);
        let fp = |m: Move| m.move_type is Promotion;
        let fc = |m: Move| m.move_type is LongCastle || m.move_type is ShortCastle;
        let fe = |m: Move| m.move_type is EnPassant;
        let ft = |m: Move| m.take is Some;
        lemma_count_where_bound(p, fp);
        lemma_count_where_bound(p, fc);
        lemma_count_where_bound(p, fe);
        lemma_count_where_bound(p, ft);
        let r1 = perft_moves(seq![PerftData::zero()], b, p, 1, 1, keys);
        let m = ms.last();
        assert(perft_node(r1, after(b, m, keys), 0, 1, keys) == r1);
        assert(can_count(r1[0], m));
    }
}

/// A perft run one move deep from a position that move generation can start from counts each
/// legal move once: a node per move, a promotion per promotion whether or not it takes, a
/// castle per castling move, an en passant per en passant capture, a capture per move that
/// takes a piece and another per en passant capture.
pub proof fn lemma_perft_one_deep(b: SearchBoard, keys: ZobristRandom)
    requires
        node_ok(b),
    ensures
        ({
            let r = perft_counts(b, 1, keys);
            let ms = node_moves(b);
            &&& r.len() == 1
            &&& r[0].nodes == ms.len()
            &&& r[0].promotions == count_where(ms, |m: Move| m.move_type is Promotion)
            &&& r[0].castles == count_where(ms, |m: Move| m.move_type is LongCastle || m.move_type is ShortCastle)
            &&& r[0].en_passant == count_where(ms, |m: Move| m.move_type is EnPassant)
            &&& r[0].captures == count_where(ms, |m: Move| m.take is Some) + count_where(ms, |m: Move| m.move_type is EnPassant)
        }),
{
    let st = b.state;
    let k = recorded_king(st, st.side);
    crate::search::lemma_legal_moves_len(st, pins_of(st, k), classify(check_candidates(st, k, other(st.side))), false);
    assert(Seq::new(1, |i: int| PerftData::zero()) =~= seq![PerftData::zero()]);
    lemma_perft_moves_one(b, node_moves(b), keys);
}

} // verus!
