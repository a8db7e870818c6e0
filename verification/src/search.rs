//! Legal moves of each kind of piece, given the pins on the side to move and the checks on
//! its king.
use crate::bits::is_set;
use crate::board::{BoardState, SearchBoard, bbs_of, other};
use crate::board_repr::{BISHOP, KING, KNIGHT, PAWN, QUEEN, ROOK, is_king_of};
use crate::fen::first_king_from;
use crate::search_data::{check_candidates, classify, pins_of};
use crate::search_masks::{masks_of, or_all};
use crate::board_repr::{BoardRepr, union6};
use crate::magic_bitboards::{MagicView, all_valid, bishop_attack, rook_attack};
use crate::moving::{Move, MoveType};
use crate::piece::{Piece, PieceType, Side};
use crate::position::Position;
use crate::search_data::{CheckPath, PinState};
use crate::search_masks::{king_offsets, knight_offsets, pawn_offsets, targets};
use crate::tables::MoveTables;
use vstd::prelude::*;

verus! {

/// Whether `t` is allowed by a restriction to the squares of a bitboard, if there is one.
pub open spec fn block_ok(block: Option<u64>, t: Position) -> bool {
    block matches Some(b) ==> b & t.mask() != 0
}

/// Whether a piece may go to `t`: not onto `avoid`, and onto `block` and `need` where given.
pub open spec fn keeps(t: Position, avoid: u64, block: Option<u64>, need: Option<u64>) -> bool {
    &&& avoid & t.mask() == 0
    &&& block_ok(block, t)
    &&& block_ok(need, t)
}

/// The moves of kind `kind` from `from` to the squares of `ps` that `keeps` admits, in order;
/// each takes what `board` holds on its square when `takes`, nothing otherwise.
pub open spec fn target_moves(
    from: Position,
    ps: Seq<Position>,
    avoid: u64,
    block: Option<u64>,
    need: Option<u64>,
    kind: MoveType,
    board: BoardRepr,
    takes: bool,
) -> Seq<Move>
    decreases ps.len(),
{
    if ps.len() == 0 {
        Seq::empty()
    } else {
        let prev = target_moves(from, ps.drop_last(), avoid, block, need, kind, board, takes);
        let t = ps.last();
        if keeps(t, avoid, block, need) {
            prev.push(Move { move_type: kind, from, to: t, take: if takes { board.board[t.index as int] } else { None } })
        } else {
            prev
        }
    }
}

/// How the pin through a piece and the checks on its king restrict it: no move at all
/// (`None`), any square (`Some(None)`), or only the squares of a bitboard.
pub open spec fn restriction(pin: u64, check: CheckPath) -> Option<Option<u64>> {
    match check {
        CheckPath::Multiple => None,
        CheckPath::NoCheck => Some(if pin == 0 { None } else { Some(pin) }),
        CheckPath::Blockable(c) => if pin == 0 && c == 0 {
            Some(None)
        } else if pin == 0 {
            Some(Some(c))
        } else if c == 0 {
            Some(Some(pin))
        } else {
            None
        },
    }
}

/// The pieces of the side to move in `st`.
pub open spec fn allies_of(st: BoardState) -> u64 {
    union6(bbs_of(st, st.side))
}

/// The pieces of the side not to move in `st`.
pub open spec fn enemies_of(st: BoardState) -> u64 {
    union6(bbs_of(st, other(st.side)))
}

/// The squares a move must take on when only captures are wanted.
pub open spec fn need_of(st: BoardState, only_takes: bool) -> Option<u64> {
    if only_takes { Some(enemies_of(st)) } else { None }
}

/// Every square of a sequence of targets lies on the board.
pub proof fn lemma_targets_valid(p: Position, offs: Seq<crate::position::Offset>)
    ensures
        all_valid(targets(p, offs)),
    decreases offs.len(),
{
    if offs.len() > 0 {
        lemma_targets_valid(p, offs.drop_last());
    }
}

fn block_allows(block: Option<u64>, t: Position) -> (r: bool)
    requires
        t.valid(),
    ensures
        r == block_ok(block, t),
{
    match block {
        Some(b) => b & t.as_mask() != 0,
        None => true,
    }
}

/// Appends the moves of kind `kind` from `from` to the squares of `ps` that `keeps` admits.
fn push_targets(
    moves: &mut Vec<Move>,
    from: Position,
    ps: &Vec<Position>,
    avoid: u64,
    block: Option<u64>,
    need: Option<u64>,
    kind: MoveType,
    board: &BoardRepr,
    takes: bool,
)
    requires
        all_valid(ps@),
    ensures
        final(moves)@ == old(moves)@ + target_moves(from, ps@, avoid, block, need, kind, *board, takes),
{
    let ghost start = moves@;
    let mut i: usize = 0;
    assert(ps@.take(0) =~= Seq::<Position>::empty());
    while i < ps.len()
        invariant
            i <= ps@.len(),
            all_valid(ps@),
            start == old(moves)@,
            moves@ == start + target_moves(from, ps@.take(i as int), avoid, block, need, kind, *board, takes),
        decreases ps@.len() - i,
    {
        let t = ps[i];
        assert(ps@.take(i + 1).drop_last() =~= ps@.take(i as int));
        assert(ps@.take(i + 1).last() == t);
        if avoid & t.as_mask() == 0 && block_allows(block, t) && block_allows(need, t) {
            let take = if takes { board.get(t) } else { None };
            moves.push(Move::new(from, t, kind, take));
        }
        i += 1;
    }
    assert(ps@.take(ps@.len() as int) =~= ps@);
}

/// The restriction on a piece on `pos`; see `restriction`.
fn restriction_of(pin_state: &PinState, pos: Position, check_paths: &CheckPath) -> (r: Option<Option<u64>>)
    requires
        pos.valid(),
    ensures
        r == restriction(pin_state.relevant(pos), *check_paths),
{
    let pin = pin_state.choose_relevant(pos);
    match check_paths {
        CheckPath::Multiple => None,
        CheckPath::NoCheck => Some(if pin == 0 { None } else { Some(pin) }),
        CheckPath::Blockable(c) => {
            let c = *c;
            if pin == 0 && c == 0 {
                Some(None)
            } else if pin == 0 {
                Some(Some(c))
            } else if c == 0 {
                Some(Some(pin))
            } else {
                None
            }
        },
    }
}

/// The legal moves of a knight of the side to move on `pos`.
pub open spec fn knight_moves(st: BoardState, pos: Position, pin: PinState, check: CheckPath, only_takes: bool) -> Seq<Move> {
    let ts = targets(pos, knight_offsets());
    let kind = MoveType::Normal(PieceType::Knight);
    if pin.relevant(pos) != 0 {
        Seq::empty()
    } else {
        match check {
            CheckPath::NoCheck => target_moves(pos, ts, allies_of(st), None, need_of(st, only_takes), kind, st.board, true),
            CheckPath::Blockable(b) => target_moves(pos, ts, allies_of(st), Some(b), need_of(st, only_takes), kind, st.board, true),
            CheckPath::Multiple => Seq::empty(),
        }
    }
}

/// Appends the legal moves of the knight of the side to move on `pos`.
pub fn find_knight(
    moves: &mut Vec<Move>,
    pos: Position,
    state: &SearchBoard,
    pin_state: &PinState,
    check_paths: &CheckPath,
    gen_only_takes: bool,
    tables: &MoveTables,
)
    requires
        tables.wf(),
        pos.valid(),
    ensures
        final(moves)@ == old(moves)@ + knight_moves(state.state, pos, *pin_state, *check_paths, gen_only_takes),
{
    let side = state.state.side();
    let allies = state.state.side_bitboards(side).combined();
    let enemies = state.state.side_bitboards(side.opposite()).combined();
    let need = if gen_only_takes { Some(enemies) } else { None };
    if pin_state.choose_relevant(pos) != 0 {
        return;
    }
    let data = &tables.masks.knight[pos.index as usize].positions;
    proof {
        lemma_targets_valid(pos, knight_offsets());
    }
    let kind = MoveType::Normal(PieceType::Knight);
    match check_paths {
        CheckPath::NoCheck => push_targets(moves, pos, data, allies, None, need, kind, &state.state.board, true),
        CheckPath::Blockable(must_block) => push_targets(moves, pos, data, allies, Some(*must_block), need, kind, &state.state.board, true),
        CheckPath::Multiple => {},
    }
}

/// The castling moves of the king of the side to move on `pos`, long first.
pub open spec fn castle_moves(st: BoardState, pos: Position, attacked: u64) -> Seq<Move> {
    let occupied = allies_of(st) | enemies_of(st);
    let h = if st.side == Side::White { 0u64 } else { 56u64 };
    let rights = if st.side == Side::White { st.white_castling } else { st.black_castling };
    let long = rights.0 && (0xeu64 << h) & occupied == 0 && (0xcu64 << h) & attacked == 0;
    let short = rights.1 && (0x60u64 << h) & (occupied | attacked) == 0;
    let l = if long {
        seq![Move { move_type: MoveType::LongCastle, from: pos, to: Position::at(2, pos.row()), take: None }]
    } else {
        Seq::empty()
    };
    let s = if short {
        seq![Move { move_type: MoveType::ShortCastle, from: pos, to: Position::at(6, pos.row()), take: None }]
    } else {
        Seq::empty()
    };
    l + s
}

/// The legal moves of the king of the side to move on `pos`, with `attacked` the squares the
/// other side attacks.
pub open spec fn king_moves(st: BoardState, pos: Position, check: CheckPath, attacked: u64, only_takes: bool) -> Seq<Move> {
    let steps = target_moves(pos, targets(pos, king_offsets()), allies_of(st) | attacked, None,
        need_of(st, only_takes), MoveType::Normal(PieceType::King), st.board, true);
    if check is NoCheck && !only_takes {
        steps + castle_moves(st, pos, attacked)
    } else {
        steps
    }
}

/// Appends the legal moves of the king of the side to move on `pos`, with `attacked_squares`
/// the squares the other side attacks.
pub fn find_king(
    moves: &mut Vec<Move>,
    pos: Position,
    state: &SearchBoard,
    check_paths: &CheckPath,
    attacked_squares: u64,
    gen_only_takes: bool,
    tables: &MoveTables,
)
    requires
        tables.wf(),
        pos.valid(),
    ensures
        final(moves)@ == old(moves)@ + king_moves(state.state, pos, *check_paths, attacked_squares, gen_only_takes),
{
    let side = state.state.side();
    let allies = state.state.side_bitboards(side).combined();
    let enemies = state.state.side_bitboards(side.opposite()).combined();
    let need = if gen_only_takes { Some(enemies) } else { None };
    let must_avoid = allies | attacked_squares;
    let data = &tables.masks.king[pos.index as usize].positions;
    proof {
        lemma_targets_valid(pos, king_offsets());
    }
    let ghost before = moves@;
    push_targets(moves, pos, data, must_avoid, None, need, MoveType::Normal(PieceType::King), &state.state.board, true);
    let ghost steps = moves@;
    if let CheckPath::NoCheck = check_paths {
        if !gen_only_takes {
            let castle_rights = state.state.side_castle_rights(side);
            let h: u64 = (side.home_y() as u64) * 8;
            let short: u64 = 0x60u64 << h;
            let long_occupy: u64 = 0xeu64 << h;
            let long_attack: u64 = 0xcu64 << h;
            if castle_rights.0 && long_occupy & (allies | enemies) == 0 && long_attack & attacked_squares == 0 {
                moves.push(Move::new(pos, pos.with_x(2).unwrap(), MoveType::LongCastle, None));
            }
            let ghost mid = moves@;
            if castle_rights.1 && short & (allies | enemies | attacked_squares) == 0 {
                moves.push(Move::new(pos, pos.with_x(6).unwrap(), MoveType::ShortCastle, None));
            }
            assert(moves@ =~= steps + castle_moves(state.state, pos, attacked_squares));
        }
    }
}

/// The moves of a slider of kind `role` on `pos` whose reach is `data`: the quiet moves unless
/// only captures are wanted, then the captures.
pub open spec fn slider_moves(
    pos: Position,
    data: MagicView,
    allies: u64,
    block: Option<u64>,
    need: Option<u64>,
    only_takes: bool,
    role: PieceType,
    board: BoardRepr,
) -> Seq<Move> {
    let quiet = if only_takes {
        Seq::empty()
    } else {
        target_moves(pos, data.normal, 0, block, None, MoveType::Normal(role), board, false)
    };
    quiet + target_moves(pos, data.takes + data.ends, allies, block, need, MoveType::Normal(role), board, true)
}

/// The squares a slider on `pos` sees: all pieces, the other side's first.
pub open spec fn occupied_of(st: BoardState) -> u64 {
    enemies_of(st) | allies_of(st)
}

/// The legal moves of a rook of the side to move on `pos`.
pub open spec fn rook_moves(st: BoardState, pos: Position, pin: PinState, check: CheckPath, only_takes: bool) -> Seq<Move> {
    match restriction(pin.relevant(pos), check) {
        None => Seq::empty(),
        Some(block) => slider_moves(pos, rook_attack(pos, occupied_of(st)), allies_of(st), block,
            need_of(st, only_takes), only_takes, PieceType::Rook, st.board),
    }
}

/// The legal moves of a bishop of the side to move on `pos`.
pub open spec fn bishop_moves(st: BoardState, pos: Position, pin: PinState, check: CheckPath, only_takes: bool) -> Seq<Move> {
    match restriction(pin.relevant(pos), check) {
        None => Seq::empty(),
        Some(block) => slider_moves(pos, bishop_attack(pos, occupied_of(st)), allies_of(st), block,
            need_of(st, only_takes), only_takes, PieceType::Bishop, st.board),
    }
}

/// The legal moves of a queen of the side to move on `pos`: along files and ranks, then
/// along diagonals.
pub open spec fn queen_moves(st: BoardState, pos: Position, pin: PinState, check: CheckPath, only_takes: bool) -> Seq<Move> {
    match restriction(pin.relevant(pos), check) {
        None => Seq::empty(),
        Some(block) => slider_moves(pos, rook_attack(pos, occupied_of(st)), allies_of(st), block,
            need_of(st, only_takes), only_takes, PieceType::Queen, st.board)
            + slider_moves(pos, bishop_attack(pos, occupied_of(st)), allies_of(st), block,
            need_of(st, only_takes), only_takes, PieceType::Queen, st.board),
    }
}

/// Appends the moves of a slider of kind `role` on `pos` whose reach is `rook_attack` (or
/// `bishop_attack`) among `all_pieces`.
fn push_slider(
    moves: &mut Vec<Move>,
    pos: Position,
    rook: bool,
    all_pieces: u64,
    allies: u64,
    block: Option<u64>,
    need: Option<u64>,
    gen_only_takes: bool,
    role: PieceType,
    board: &BoardRepr,
    tables: &MoveTables,
)
    requires
        tables.wf(),
        pos.valid(),
    ensures
        final(moves)@ == old(moves)@ + slider_moves(pos,
            if rook { rook_attack(pos, all_pieces) } else { bishop_attack(pos, all_pieces) },
            allies, block, need, gen_only_takes, role, *board),
{
    let data = if rook { tables.magic.get_rook(pos, all_pieces) } else { tables.magic.get_bishop(pos, all_pieces) };
    proof {
        crate::magic_bitboards::lemma_attack_valid(rook, pos, all_pieces);
    }
    let ghost before = moves@;
    if !gen_only_takes {
        push_targets(moves, pos, &data.normal, 0, block, None, MoveType::Normal(role), board, false);
    }
    let ghost mid = moves@;
    let pt = data.possible_takes();
    push_targets(moves, pos, &pt, allies, block, need, MoveType::Normal(role), board, true);
    proof {
        let quiet = if gen_only_takes {
            Seq::empty()
        } else {
            target_moves(pos, data@.normal, 0, block, None, MoveType::Normal(role), *board, false)
        };
        assert(mid == before + quiet);
        assert(moves@ =~= before + slider_moves(pos, data@, allies, block, need, gen_only_takes, role, *board));
    }
}

/// Appends the legal moves of the rook of the side to move on `pos`.
pub fn find_rook(
    moves: &mut Vec<Move>,
    pos: Position,
    state: &SearchBoard,
    pin_state: &PinState,
    check_paths: &CheckPath,
    gen_only_takes: bool,
    tables: &MoveTables,
)
    requires
        tables.wf(),
        pos.valid(),
    ensures
        final(moves)@ == old(moves)@ + rook_moves(state.state, pos, *pin_state, *check_paths, gen_only_takes),
{
    let side = state.state.side();
    let allies = state.state.side_bitboards(side).combined();
    let enemies = state.state.side_bitboards(side.opposite()).combined();
    let all_pieces = enemies | allies;
    let need = if gen_only_takes { Some(enemies) } else { None };
    if let Some(block) = restriction_of(pin_state, pos, check_paths) {
        push_slider(moves, pos, true, all_pieces, allies, block, need, gen_only_takes, PieceType::Rook, &state.state.board, tables);
    }
}

/// Appends the legal moves of the bishop of the side to move on `pos`.
pub fn find_bishop(
    moves: &mut Vec<Move>,
    pos: Position,
    state: &SearchBoard,
    pin_state: &PinState,
    check_paths: &CheckPath,
    gen_only_takes: bool,
    tables: &MoveTables,
)
    requires
        tables.wf(),
        pos.valid(),
    ensures
        final(moves)@ == old(moves)@ + bishop_moves(state.state, pos, *pin_state, *check_paths, gen_only_takes),
{
    let side = state.state.side();
    let allies = state.state.side_bitboards(side).combined();
    let enemies = state.state.side_bitboards(side.opposite()).combined();
    let all_pieces = enemies | allies;
    let need = if gen_only_takes { Some(enemies) } else { None };
    if let Some(block) = restriction_of(pin_state, pos, check_paths) {
        push_slider(moves, pos, false, all_pieces, allies, block, need, gen_only_takes, PieceType::Bishop, &state.state.board, tables);
    }
}

/// Appends the legal moves of the queen of the side to move on `pos`.
pub fn find_queen(
    moves: &mut Vec<Move>,
    pos: Position,
    state: &SearchBoard,
    pin_state: &PinState,
    check_paths: &CheckPath,
    gen_only_takes: bool,
    tables: &MoveTables,
)
    requires
        tables.wf(),
        pos.valid(),
    ensures
        final(moves)@ == old(moves)@ + queen_moves(state.state, pos, *pin_state, *check_paths, gen_only_takes),
{
    let side = state.state.side();
    let allies = state.state.side_bitboards(side).combined();
    let enemies = state.state.side_bitboards(side.opposite()).combined();
    let all_pieces = enemies | allies;
    let need = if gen_only_takes { Some(enemies) } else { None };
    if let Some(block) = restriction_of(pin_state, pos, check_paths) {
        let ghost before = moves@;
        push_slider(moves, pos, true, all_pieces, allies, block, need, gen_only_takes, PieceType::Queen, &state.state.board, tables);
        push_slider(moves, pos, false, all_pieces, allies, block, need, gen_only_takes, PieceType::Queen, &state.state.board, tables);
        assert(moves@ =~= before + queen_moves(state.state, pos, *pin_state, *check_paths, gen_only_takes));
    }
}

/// The moves of a pawn from `from` onto `to`: the four promotions, queen first, onto the first
/// or last rank, a plain move elsewhere.
pub open spec fn pawn_step_moves(from: Position, to: Position, take: Option<Piece>) -> Seq<Move> {
    if to.row() == 0 || to.row() == 7 {
        seq![
            Move { move_type: MoveType::Promotion(PieceType::Queen), from, to, take },
            Move { move_type: MoveType::Promotion(PieceType::Rook), from, to, take },
            Move { move_type: MoveType::Promotion(PieceType::Knight), from, to, take },
            Move { move_type: MoveType::Promotion(PieceType::Bishop), from, to, take },
        ]
    } else {
        seq![Move { move_type: MoveType::Normal(PieceType::Pawn), from, to, take }]
    }
}

/// The captures of a pawn on `from` onto the squares of `ps` allowed by `block`: onto an enemy
/// piece, or en passant onto `ep` when `can_ep`.
pub open spec fn pawn_take_moves(
    from: Position,
    ps: Seq<Position>,
    enemies: u64,
    block: Option<u64>,
    ep: Option<Position>,
    can_ep: bool,
    board: BoardRepr,
) -> Seq<Move>
    decreases ps.len(),
{
    if ps.len() == 0 {
        Seq::empty()
    } else {
        let prev = pawn_take_moves(from, ps.drop_last(), enemies, block, ep, can_ep, board);
        let t = ps.last();
        if !block_ok(block, t) {
            prev
        } else if enemies & t.mask() != 0 {
            prev + pawn_step_moves(from, t, board.board[t.index as int])
        } else if can_ep && ep == Some(t) {
            prev.push(Move { move_type: MoveType::EnPassant, from, to: t, take: None })
        } else {
            prev
        }
    }
}

/// The pushes of a pawn of `side` on `from` among the pieces `all`, allowed by `block`: one
/// step onto an empty square, and from its start rank a second one over it.
pub open spec fn pawn_push_moves(from: Position, side: Side, all: u64, block: Option<u64>) -> Seq<Move> {
    let dy = if side == Side::White { 1int } else { -1int };
    let one = Position::at(from.col(), from.row() + dy);
    let two = Position::at(from.col(), from.row() + 2 * dy);
    let starting = if side == Side::White { from.row() == 1 } else { from.row() == 6 };
    let free = all & one.mask() == 0;
    let first = if free && block_ok(block, one) { pawn_step_moves(from, one, None) } else { Seq::empty() };
    if starting && free && all & two.mask() == 0 && block_ok(block, two) {
        first + pawn_step_moves(from, two, None)
    } else {
        first
    }
}

/// The legal moves of a pawn of the side to move on `pos`: captures, then pushes unless only
/// captures are wanted.
pub open spec fn pawn_moves(st: BoardState, pos: Position, pin: PinState, check: CheckPath, only_takes: bool) -> Seq<Move> {
    match restriction(pin.relevant(pos), check) {
        None => Seq::empty(),
        Some(block) => {
            let takes = pawn_take_moves(pos, targets(pos, pawn_offsets(st.side)), enemies_of(st), block,
                st.en_passant_square, pin.can_en_passant, st.board);
            if only_takes {
                takes
            } else {
                takes + pawn_push_moves(pos, st.side, allies_of(st) | enemies_of(st), block)
            }
        },
    }
}

/// Appends the moves of a pawn from `from` onto `to` taking `take`.
fn gen_pawn_moves(moves: &mut Vec<Move>, from: Position, to: Position, take: Option<Piece>)
    requires
        to.valid(),
    ensures
        final(moves)@ == old(moves)@ + pawn_step_moves(from, to, take),
{
    let ghost before = moves@;
    let y = to.y();
    if y == 0 || y == 7 {
        moves.push(Move::new(from, to, MoveType::Promotion(PieceType::Queen), take));
        moves.push(Move::new(from, to, MoveType::Promotion(PieceType::Rook), take));
        moves.push(Move::new(from, to, MoveType::Promotion(PieceType::Knight), take));
        moves.push(Move::new(from, to, MoveType::Promotion(PieceType::Bishop), take));
    } else {
        moves.push(Move::new(from, to, MoveType::Normal(PieceType::Pawn), take));
    }
    assert(moves@ =~= before + pawn_step_moves(from, to, take));
}

/// Appends the captures of the pawn on `pos` onto the squares of `ps`.
fn push_pawn_takes(
    moves: &mut Vec<Move>,
    pos: Position,
    ps: &Vec<Position>,
    enemies: u64,
    block: Option<u64>,
    ep_square: Option<Position>,
    can_ep: bool,
    board: &BoardRepr,
)
    requires
        all_valid(ps@),
    ensures
        final(moves)@ == old(moves)@ + pawn_take_moves(pos, ps@, enemies, block, ep_square, can_ep, *board),
{
    let ghost start = moves@;
    let mut i: usize = 0;
    assert(ps@.take(0) =~= Seq::<Position>::empty());
    while i < ps.len()
        invariant
            i <= ps@.len(),
            all_valid(ps@),
            start == old(moves)@,
            moves@ == start + pawn_take_moves(pos, ps@.take(i as int), enemies, block, ep_square, can_ep, *board),
        decreases ps@.len() - i,
    {
        let t = ps[i];
        assert(ps@.take(i + 1).drop_last() =~= ps@.take(i as int));
        assert(ps@.take(i + 1).last() == t);
        let ghost prev = moves@;
        if block_allows(block, t) {
            if enemies & t.as_mask() != 0 {
                gen_pawn_moves(moves, pos, t, board.get(t));
                assert(moves@ =~= start + pawn_take_moves(pos, ps@.take(i + 1), enemies, block, ep_square, can_ep, *board));
            } else if can_ep && ep_square == Some(t) {
                moves.push(Move::new(pos, t, MoveType::EnPassant, None));
            }
        }
        i += 1;
    }
    assert(ps@.take(ps@.len() as int) =~= ps@);
}

/// Appends the pushes of the pawn of `side` on `pos` among the pieces `all_pieces`.
fn push_pawn_steps(moves: &mut Vec<Move>, pos: Position, side: Side, all_pieces: u64, block: Option<u64>)
    requires
        8 <= pos.index < 56,
    ensures
        final(moves)@ == old(moves)@ + pawn_push_moves(pos, side, all_pieces, block),
{
    let ghost before = moves@;
    let starting = match side {
        Side::White => pos.y() == 1,
        Side::Black => pos.y() == 6,
    };
    let one = match side {
        Side::White => pos.add_y(1).unwrap(),
        Side::Black => pos.sub_y(1).unwrap(),
    };
    let free = all_pieces & one.as_mask() == 0;
    if free && block_allows(block, one) {
        gen_pawn_moves(moves, pos, one, None);
    }
    if starting && free {
        let two = match side {
            Side::White => one.add_y(1).unwrap(),
            Side::Black => one.sub_y(1).unwrap(),
        };
        if all_pieces & two.as_mask() == 0 && block_allows(block, two) {
            let ghost mid = moves@;
            gen_pawn_moves(moves, pos, two, None);
            assert(moves@ =~= before + pawn_push_moves(pos, side, all_pieces, block));
        }
    }
}

/// Appends the legal moves of the pawn of the side to move on `pos`; the pawn stands on
/// neither the first nor the last rank.
pub fn find_pawn(
    moves: &mut Vec<Move>,
    pos: Position,
    state: &SearchBoard,
    pin_state: &PinState,
    check_paths: &CheckPath,
    gen_only_takes: bool,
    tables: &MoveTables,
)
    requires
        tables.wf(),
        8 <= pos.index < 56,
    ensures
        final(moves)@ == old(moves)@ + pawn_moves(state.state, pos, *pin_state, *check_paths, gen_only_takes),
{
    let side = state.state.side();
    let allies = state.state.side_bitboards(side).combined();
    let enemies = state.state.side_bitboards(side.opposite()).combined();
    let can_ep = pin_state.can_en_passant;
    if let Some(block) = restriction_of(pin_state, pos, check_paths) {
        let ghost before = moves@;
        let table = crate::search_masks::choose_pawn_take_mask(&tables.masks, side);
        let data = &table[pos.index as usize].positions;
        proof {
            lemma_targets_valid(pos, pawn_offsets(side));
        }
        push_pawn_takes(moves, pos, data, enemies, block, state.state.en_passant_square, can_ep, &state.state.board);
        if !gen_only_takes {
            let ghost mid = moves@;
            push_pawn_steps(moves, pos, side, allies | enemies, block);
            assert(moves@ =~= before + pawn_moves(state.state, pos, *pin_state, *check_paths, gen_only_takes));
        }
    }
}

/// The squares a piece of kind `kind` on `p` attacks among the pieces `all`; a pawn attacks
/// as one of `pawn_side`.
pub open spec fn piece_attacks(kind: PieceType, pawn_side: Side, p: Position, all: u64) -> u64 {
    match kind {
        PieceType::Pawn => or_all(masks_of(targets(p, pawn_offsets(pawn_side)))),
        PieceType::Rook => rook_attack(p, all).bitboard,
        PieceType::Knight => or_all(masks_of(targets(p, knight_offsets()))),
        PieceType::Bishop => bishop_attack(p, all).bitboard,
        PieceType::Queen => rook_attack(p, all).bitboard | bishop_attack(p, all).bitboard,
        PieceType::King => or_all(masks_of(targets(p, king_offsets()))),
    }
}

/// The squares a piece of kind `kind` on `pos` attacks among `all`.
pub fn attacks_of(kind: PieceType, pawn_side: Side, pos: Position, all: u64, tables: &MoveTables) -> (r: u64)
    requires
        tables.wf(),
        pos.valid(),
    ensures
        r == piece_attacks(kind, pawn_side, pos, all),
{
    match kind {
        PieceType::Pawn => crate::search_masks::choose_pawn_take_mask(&tables.masks, pawn_side)[pos.index as usize].sum,
        PieceType::Rook => tables.magic.get_rook(pos, all).bitboard,
        PieceType::Knight => tables.masks.knight[pos.index as usize].sum,
        PieceType::Bishop => tables.magic.get_bishop(pos, all).bitboard,
        PieceType::Queen => tables.magic.get_rook(pos, all).bitboard | tables.magic.get_bishop(pos, all).bitboard,
        PieceType::King => tables.masks.king[pos.index as usize].sum,
    }
}

/// The legal moves, but the king's, of the piece of the side to move on square `i`.
pub open spec fn square_moves(st: BoardState, i: int, pin: PinState, check: CheckPath, only_takes: bool) -> Seq<Move> {
    let p = Position { index: i as u8 };
    match st.board.board[i] {
        Some(piece) => if piece.side == st.side {
            match piece.piece_type {
                PieceType::Pawn => pawn_moves(st, p, pin, check, only_takes),
                PieceType::Rook => rook_moves(st, p, pin, check, only_takes),
                PieceType::Knight => knight_moves(st, p, pin, check, only_takes),
                PieceType::Bishop => bishop_moves(st, p, pin, check, only_takes),
                PieceType::Queen => queen_moves(st, p, pin, check, only_takes),
                PieceType::King => Seq::empty(),
            }
        } else {
            Seq::empty()
        },
        None => Seq::empty(),
    }
}

/// The moves of `square_moves` on squares 0 to `n - 1`, in order.
pub open spec fn moves_upto(st: BoardState, n: int, pin: PinState, check: CheckPath, only_takes: bool) -> Seq<Move>
    decreases n,
{
    if n <= 0 {
        Seq::empty()
    } else {
        moves_upto(st, n - 1, pin, check, only_takes) + square_moves(st, n - 1, pin, check, only_takes)
    }
}

/// What the piece of the side not to move on square `i` attacks among `all`.
pub open spec fn square_attacks(st: BoardState, i: int, all: u64) -> u64 {
    match st.board.board[i] {
        Some(piece) => if piece.side != st.side {
            piece_attacks(piece.piece_type, other(st.side), Position { index: i as u8 }, all)
        } else {
            0
        },
        None => 0,
    }
}

/// The union of `square_attacks` on squares 0 to `n - 1`.
pub open spec fn attacks_upto(st: BoardState, n: int, all: u64) -> u64
    decreases n,
{
    if n <= 0 {
        0
    } else {
        attacks_upto(st, n - 1, all) | square_attacks(st, n - 1, all)
    }
}

/// All pieces but the king of the side to move, which does not block an attack on the squares
/// it may step to.
pub open spec fn without_own_king(st: BoardState) -> u64 {
    (union6(st.white.state) | union6(st.black.state)) & !bbs_of(st, st.side)[KING as int]
}

/// The square of the first king of `side`, counted from a1.
pub open spec fn king_square(st: BoardState, side: Side) -> Position {
    Position { index: first_king_from(st.board.board@, side, 0) as u8 }
}

/// The legal moves of the side to move in `st`: the pieces' by square, then the king's.
pub open spec fn legal_moves(st: BoardState, pin: PinState, check: CheckPath, only_takes: bool) -> Seq<Move> {
    moves_upto(st, 64, pin, check, only_takes)
        + king_moves(st, king_square(st, st.side), check, attacks_upto(st, 64, without_own_king(st)), only_takes)
}

/// Each pawn of the side to move stands on neither the first nor the last rank.
pub open spec fn pawns_inside(st: BoardState) -> bool {
    forall|i: int| 0 <= i < 64 && #[trigger] st.board.board[i] == Some(Piece { side: st.side, piece_type: PieceType::Pawn })
        ==> 8 <= i < 56
}

/// The first square holding a king of `side` is the one `first_king_from` names.
pub proof fn lemma_first_king(sq: Seq<Option<Piece>>, side: Side, r: int, i: int)
    requires
        0 <= i <= r < 64,
        is_king_of(sq[r], side),
        forall|j: int| 0 <= j < r ==> !is_king_of(#[trigger] sq[j], side),
    ensures
        first_king_from(sq, side, i) == r,
    decreases r - i,
{
    if i < r {
        lemma_first_king(sq, side, r, i + 1);
    }
}

impl SearchBoard {
    /// The legal moves of the side to move, given its pins and the checks on its king: by
    /// square from a1, then the king's; only captures when `gen_only_takes`.
    pub fn find_all_moves(&self, pin_state: PinState, check_paths: CheckPath, gen_only_takes: bool, tables: &MoveTables) -> (r: Vec<Move>)
        requires
            tables.wf(),
            exists|i: int| 0 <= i < 64 && is_king_of(#[trigger] self.state.board.board[i], self.state.side),
            pawns_inside(self.state),
        ensures
            r@ == legal_moves(self.state, pin_state, check_paths, gen_only_takes),
    {
        let ghost st = self.state;
        let mut moves: Vec<Move> = Vec::new();
        let side = self.state.side();
        let enemy = side.opposite();
        let mut attacked_squares: u64 = 0;
        let all = (self.state.white.combined() | self.state.black.combined())
            & !(self.state.side_bitboards(enemy.opposite()).state[KING]);
        let mut index: u8 = 0;
        while index < 64
            invariant
                index <= 64,
                tables.wf(),
                st == self.state,
                side == st.side,
                enemy == other(side),
                all == without_own_king(st),
                pawns_inside(st),
                moves@ == moves_upto(st, index as int, pin_state, check_paths, gen_only_takes),
                attacked_squares == attacks_upto(st, index as int, all),
            decreases 64 - index,
        {
            let pos = Position::from_index(index);
            let ghost before = moves@;
            let ghost prev_attacked = attacked_squares;
            if let Some(piece) = self.state.board.board[index as usize] {
                if side == piece.side {
                    match piece.piece_type {
                        PieceType::Pawn => find_pawn(&mut moves, pos, self, &pin_state, &check_paths, gen_only_takes, tables),
                        PieceType::Rook => find_rook(&mut moves, pos, self, &pin_state, &check_paths, gen_only_takes, tables),
                        PieceType::Knight => find_knight(&mut moves, pos, self, &pin_state, &check_paths, gen_only_takes, tables),
                        PieceType::Bishop => find_bishop(&mut moves, pos, self, &pin_state, &check_paths, gen_only_takes, tables),
                        PieceType::Queen => find_queen(&mut moves, pos, self, &pin_state, &check_paths, gen_only_takes, tables),
                        PieceType::King => {},
                    }
                } else {
                    attacked_squares = attacked_squares | attacks_of(piece.piece_type, enemy, pos, all, tables);
                }
            }
            assert(moves@ =~= before + square_moves(st, index as int, pin_state, check_paths, gen_only_takes));
            proof {
                if square_attacks(st, index as int, all) == 0 {
                    assert(prev_attacked | 0 == prev_attacked) by (bit_vector);
                }
            }
            index += 1;
        }
        let king_pos = self.state.find_king(side);
        proof {
            lemma_first_king(st.board.board@, side, king_pos.index as int, 0);
        }
        find_king(&mut moves, king_pos, self, &check_paths, attacked_squares, gen_only_takes, tables);
        moves
    }
}

/// Whether a piece of `enemy` attacks `pos` in `st`; a pawn is looked for beside `pos`, one
/// file to the right when white is to move and to the left when black is.
pub open spec fn takeable(st: BoardState, pos: Position, enemy: Side) -> bool {
    let e = bbs_of(st, enemy);
    let a = union6(bbs_of(st, other(enemy)));
    let lookup = if st.side == Side::White { Position::at(pos.col() + 1, pos.row()) } else { Position::at(pos.col() - 1, pos.row()) };
    ||| or_all(masks_of(targets(pos, knight_offsets()))) & e[KNIGHT as int] != 0
    ||| or_all(masks_of(targets(lookup, pawn_offsets(enemy)))) & e[PAWN as int] != 0
    ||| or_all(masks_of(targets(pos, king_offsets()))) & e[KING as int] != 0
    ||| rook_attack(pos, union6(e) | a).bitboard & (e[ROOK as int] | e[QUEEN as int]) != 0
    ||| bishop_attack(pos, union6(e) | a).bitboard & (e[BISHOP as int] | e[QUEEN as int]) != 0
}

/// All pieces but the king of `enemy`'s opponent.
pub open spec fn blockers_for(st: BoardState, enemy: Side) -> u64 {
    (union6(st.white.state) | union6(st.black.state)) & !bbs_of(st, other(enemy))[KING as int]
}

/// The union of what the pieces of the side not to move, on squares 0 to `n - 1`, attack
/// among `all`; pawns attack as ones of `enemy`.
pub open spec fn attacked_upto(st: BoardState, enemy: Side, n: int, all: u64) -> u64
    decreases n,
{
    if n <= 0 {
        0
    } else {
        let p = Position { index: (n - 1) as u8 };
        let prev = attacked_upto(st, enemy, n - 1, all);
        if enemies_of(st) & p.mask() != 0 {
            prev | piece_attacks(st.board.board[n - 1]->0.piece_type, enemy, p, all)
        } else {
            prev
        }
    }
}

/// Each square of the side not to move holds a piece on the board.
pub open spec fn enemies_on_board(st: BoardState) -> bool {
    forall|i: int| 0 <= i < 64 && enemies_of(st) & (Position { index: i as u8 }).mask() != 0
        ==> (#[trigger] st.board.board[i]) is Some
}

/// Where `st` records the king of `side` to stand.
pub open spec fn recorded_king(st: BoardState, side: Side) -> Position {
    if side == Side::White { st.white_king } else { st.black_king }
}

impl BoardState {
    /// Whether a piece of `enemy` attacks `pos`; see `takeable`. The square beside `pos` where
    /// a pawn is looked for must lie on the board.
    pub fn can_be_taken(&self, pos: Position, enemy: Side, tables: &MoveTables) -> (r: bool)
        requires
            tables.wf(),
            pos.valid(),
            self.side == Side::White ==> pos.col() < 7,
            self.side == Side::Black ==> pos.col() > 0,
        ensures
            r == takeable(*self, pos, enemy),
    {
        let enemies = self.side_bitboards(enemy);
        let allies = self.side_bitboards(enemy.opposite()).combined();
        let pawn_lookup_pos = match self.side {
            Side::White => pos.add_x(1).unwrap(),
            Side::Black => pos.sub_x(1).unwrap(),
        };
        let pawn_table = crate::search_masks::choose_pawn_take_mask(&tables.masks, enemy);
        if tables.masks.knight[pos.index as usize].sum & enemies.state[KNIGHT] != 0
            || pawn_table[pawn_lookup_pos.index as usize].sum & enemies.state[PAWN] != 0
            || tables.masks.king[pos.index as usize].sum & enemies.state[KING] != 0
        {
            return true;
        } else if tables.magic.get_rook(pos, enemies.combined() | allies).bitboard & (enemies.state[ROOK] | enemies.state[QUEEN]) != 0
            || tables.magic.get_bishop(pos, enemies.combined() | allies).bitboard & (enemies.state[BISHOP] | enemies.state[QUEEN]) != 0
        {
            return true;
        }
        false
    }

    /// The pins on the side to move and the checks on its king, on the square where the state
    /// records it.
    pub fn legal_data(&self, tables: &MoveTables) -> (r: (PinState, CheckPath))
        requires
            tables.wf(),
            recorded_king(*self, self.side).valid(),
            self.en_passant_square matches Some(e) ==> e.valid(),
        ensures
            r.0 == pins_of(*self, recorded_king(*self, self.side)),
            r.1 == classify(check_candidates(*self, recorded_king(*self, self.side), other(self.side))),
    {
        let side = self.side;
        (
            PinState::find(self, self.side_king(side), tables),
            CheckPath::find(self, self.side_king(side), side.opposite(), tables),
        )
    }

    /// Whether the first king of the side to move, counted from a1, is attacked; see
    /// `takeable`.
    pub fn is_in_check(&self, tables: &MoveTables) -> (r: bool)
        requires
            tables.wf(),
            exists|i: int| 0 <= i < 64 && is_king_of(#[trigger] self.board.board[i], self.side),
            self.side == Side::White ==> king_square(*self, self.side).col() < 7,
            self.side == Side::Black ==> king_square(*self, self.side).col() > 0,
        ensures
            r == takeable(*self, king_square(*self, self.side), other(self.side)),
    {
        let king_pos = self.find_king(self.side());
        proof {
            lemma_first_king(self.board.board@, self.side, king_pos.index as int, 0);
        }
        self.can_be_taken(king_pos, self.side().opposite(), tables)
    }

    /// The squares the pieces of the side not to move attack, pawns attacking as ones of
    /// `enemy`; the king of `enemy`'s opponent does not block. Each square of those pieces
    /// must hold one on the board.
    pub fn get_attacked(&self, enemy: Side, tables: &MoveTables) -> (r: u64)
        requires
            tables.wf(),
            enemies_on_board(*self),
        ensures
            r == attacked_upto(*self, enemy, 64, blockers_for(*self, enemy)),
    {
        let mut attacked_squares: u64 = 0;
        let enemies = self.side_bitboards(self.side().opposite()).combined();
        let all = (self.white.combined() | self.black.combined()) & !(self.side_bitboards(enemy.opposite()).state[KING]);
        let mut index: u8 = 0;
        while index < 64
            invariant
                index <= 64,
                tables.wf(),
                enemies == enemies_of(*self),
                enemies_on_board(*self),
                attacked_squares == attacked_upto(*self, enemy, index as int, all),
            decreases 64 - index,
        {
            let pos = Position::from_index(index);
            if enemies & pos.as_mask() != 0 {
                let piece = self.board.board[index as usize].unwrap();
                attacked_squares = attacked_squares | attacks_of(piece.piece_type, enemy, pos, all, tables);
            }
            index += 1;
        }
        attacked_squares
    }
}

/// Every move of a sequence goes between squares on the board.
pub open spec fn moves_valid(s: Seq<Move>) -> bool {
    forall|j: int| 0 <= j < s.len() ==> (#[trigger] s[j]).from.valid() && s[j].to.valid()
}

proof fn lemma_concat_valid(a: Seq<Move>, b: Seq<Move>)
    requires
        moves_valid(a),
        moves_valid(b),
    ensures
        moves_valid(a + b),
{
    assert forall|j: int| 0 <= j < (a + b).len() implies (#[trigger] (a + b)[j]).from.valid() && (a + b)[j].to.valid() by {
        if j < a.len() {
            assert((a + b)[j] == a[j]);
        } else {
            assert((a + b)[j] == b[j - a.len()]);
        }
    }
}

proof fn lemma_drop_last_valid(ps: Seq<Position>)
    requires
        ps.len() > 0,
        all_valid(ps),
    ensures
        all_valid(ps.drop_last()),
        ps.last().valid(),
{
    assert forall|j: int| 0 <= j < ps.drop_last().len() implies (#[trigger] ps.drop_last()[j]).valid() by {
        assert(ps.drop_last()[j] == ps[j]);
    }
}

proof fn lemma_target_moves_valid(
    from: Position,
    ps: Seq<Position>,
    avoid: u64,
    block: Option<u64>,
    need: Option<u64>,
    kind: MoveType,
    board: BoardRepr,
    takes: bool,
)
    requires
        from.valid(),
        all_valid(ps),
    ensures
        moves_valid(target_moves(from, ps, avoid, block, need, kind, board, takes)),
    decreases ps.len(),
{
    if ps.len() > 0 {
        lemma_drop_last_valid(ps);
        lemma_target_moves_valid(from, ps.drop_last(), avoid, block, need, kind, board, takes);
        let prev = target_moves(from, ps.drop_last(), avoid, block, need, kind, board, takes);
        let t = ps.last();
        let m = Move { move_type: kind, from, to: t, take: if takes { board.board[t.index as int] } else { None } };
        lemma_concat_valid(prev, seq![m]);
        assert(prev.push(m) =~= prev + seq![m]);
    }
}

proof fn lemma_pawn_take_moves_valid(
    from: Position,
    ps: Seq<Position>,
    enemies: u64,
    block: Option<u64>,
    ep: Option<Position>,
    can_ep: bool,
    board: BoardRepr,
)
    requires
        from.valid(),
        all_valid(ps),
    ensures
        moves_valid(pawn_take_moves(from, ps, enemies, block, ep, can_ep, board)),
    decreases ps.len(),
{
    if ps.len() > 0 {
        lemma_drop_last_valid(ps);
        lemma_pawn_take_moves_valid(from, ps.drop_last(), enemies, block, ep, can_ep, board);
        let prev = pawn_take_moves(from, ps.drop_last(), enemies, block, ep, can_ep, board);
        let t = ps.last();
        lemma_concat_valid(prev, pawn_step_moves(from, t, board.board[t.index as int]));
        let m = Move { move_type: MoveType::EnPassant, from, to: t, take: None };
        lemma_concat_valid(prev, seq![m]);
        assert(prev.push(m) =~= prev + seq![m]);
    }
}

proof fn lemma_slider_moves_valid(
    rook: bool,
    pos: Position,
    all: u64,
    allies: u64,
    block: Option<u64>,
    need: Option<u64>,
    only_takes: bool,
    role: PieceType,
    board: BoardRepr,
)
    requires
        pos.valid(),
    ensures
        moves_valid(slider_moves(pos, if rook { rook_attack(pos, all) } else { bishop_attack(pos, all) },
            allies, block, need, only_takes, role, board)),
{
    let data = if rook { rook_attack(pos, all) } else { bishop_attack(pos, all) };
    crate::magic_bitboards::lemma_attack_valid(rook, pos, all);
    lemma_target_moves_valid(pos, data.normal, 0, block, None, MoveType::Normal(role), board, false);
    lemma_target_moves_valid(pos, data.takes + data.ends, allies, block, need, MoveType::Normal(role), board, true);
    let quiet = if only_takes {
        Seq::empty()
    } else {
        target_moves(pos, data.normal, 0, block, None, MoveType::Normal(role), board, false)
    };
    lemma_concat_valid(quiet, target_moves(pos, data.takes + data.ends, allies, block, need, MoveType::Normal(role), board, true));
}

proof fn lemma_square_moves_valid(st: BoardState, i: int, pin: PinState, check: CheckPath, only_takes: bool)
    requires
        0 <= i < 64,
        pawns_inside(st),
    ensures
        moves_valid(square_moves(st, i, pin, check, only_takes)),
{
    let p = Position { index: i as u8 };
    let allies = allies_of(st);
    let need = need_of(st, only_takes);
    match st.board.board[i] {
        Some(piece) => if piece.side == st.side {
            match piece.piece_type {
                PieceType::Pawn => {
                    lemma_targets_valid(p, pawn_offsets(st.side));
                    match restriction(pin.relevant(p), check) {
                        Some(block) => {
                            lemma_pawn_take_moves_valid(p, targets(p, pawn_offsets(st.side)), enemies_of(st), block,
                                st.en_passant_square, pin.can_en_passant, st.board);
                            let takes = pawn_take_moves(p, targets(p, pawn_offsets(st.side)), enemies_of(st), block,
                                st.en_passant_square, pin.can_en_passant, st.board);
                            let dy = if st.side == Side::White { 1int } else { -1int };
                            let one = Position::at(p.col(), p.row() + dy);
                            let two = Position::at(p.col(), p.row() + 2 * dy);
                            let first = pawn_step_moves(p, one, None);
                            let pushes = pawn_push_moves(p, st.side, allies | enemies_of(st), block);
                            if (st.side == Side::White && p.row() == 1) || (st.side == Side::Black && p.row() == 6) {
                                lemma_concat_valid(first, pawn_step_moves(p, two, None));
                            }
                            lemma_concat_valid(Seq::empty(), first);
                            assert(Seq::<Move>::empty() + first =~= first);
                            assert(moves_valid(pushes));
                            lemma_concat_valid(takes, pushes);
                        },
                        None => {},
                    }
                },
                PieceType::Rook => match restriction(pin.relevant(p), check) {
                    Some(block) => lemma_slider_moves_valid(true, p, occupied_of(st), allies, block, need, only_takes, PieceType::Rook, st.board),
                    None => {},
                },
                PieceType::Knight => {
                    lemma_targets_valid(p, knight_offsets());
                    lemma_target_moves_valid(p, targets(p, knight_offsets()), allies, None, need, MoveType::Normal(PieceType::Knight), st.board, true);
                    if let CheckPath::Blockable(b) = check {
                        lemma_target_moves_valid(p, targets(p, knight_offsets()), allies, Some(b), need, MoveType::Normal(PieceType::Knight), st.board, true);
                    }
                },
                PieceType::Bishop => match restriction(pin.relevant(p), check) {
                    Some(block) => lemma_slider_moves_valid(false, p, occupied_of(st), allies, block, need, only_takes, PieceType::Bishop, st.board),
                    None => {},
                },
                PieceType::Queen => match restriction(pin.relevant(p), check) {
                    Some(block) => {
                        lemma_slider_moves_valid(true, p, occupied_of(st), allies, block, need, only_takes, PieceType::Queen, st.board);
                        lemma_slider_moves_valid(false, p, occupied_of(st), allies, block, need, only_takes, PieceType::Queen, st.board);
                        lemma_concat_valid(
                            slider_moves(p, rook_attack(p, occupied_of(st)), allies, block, need, only_takes, PieceType::Queen, st.board),
                            slider_moves(p, bishop_attack(p, occupied_of(st)), allies, block, need, only_takes, PieceType::Queen, st.board),
                        );
                    },
                    None => {},
                },
                PieceType::King => {},
            }
        } else {
        },
        None => {},
    }
}

proof fn lemma_moves_upto_valid(st: BoardState, n: int, pin: PinState, check: CheckPath, only_takes: bool)
    requires
        0 <= n <= 64,
        pawns_inside(st),
    ensures
        moves_valid(moves_upto(st, n, pin, check, only_takes)),
    decreases n,
{
    if n > 0 {
        lemma_moves_upto_valid(st, n - 1, pin, check, only_takes);
        lemma_square_moves_valid(st, n - 1, pin, check, only_takes);
        lemma_concat_valid(moves_upto(st, n - 1, pin, check, only_takes), square_moves(st, n - 1, pin, check, only_takes));
    }
}

/// Every legal move goes from a square on the board to a square on the board, when the side
/// to move has a king and no pawn on the first or last rank.
pub proof fn lemma_legal_moves_on_board(st: BoardState, pin: PinState, check: CheckPath, only_takes: bool)
    requires
        king_square(st, st.side).valid(),
        pawns_inside(st),
    ensures
        moves_valid(legal_moves(st, pin, check, only_takes)),
{
    let k = king_square(st, st.side);
    let attacked = attacks_upto(st, 64, without_own_king(st));
    lemma_moves_upto_valid(st, 64, pin, check, only_takes);
    lemma_targets_valid(k, king_offsets());
    lemma_target_moves_valid(k, targets(k, king_offsets()), allies_of(st) | attacked, None,
        need_of(st, only_takes), MoveType::Normal(PieceType::King), st.board, true);
    let steps = target_moves(k, targets(k, king_offsets()), allies_of(st) | attacked, None,
        need_of(st, only_takes), MoveType::Normal(PieceType::King), st.board, true);
    let cm = castle_moves(st, k, attacked);
    assert(moves_valid(cm));
    lemma_concat_valid(steps, cm);
    lemma_concat_valid(moves_upto(st, 64, pin, check, only_takes), king_moves(st, k, check, attacked, only_takes));
}

proof fn lemma_target_moves_len(
    from: Position,
    ps: Seq<Position>,
    avoid: u64,
    block: Option<u64>,
    need: Option<u64>,
    kind: MoveType,
    board: BoardRepr,
    takes: bool,
)
    ensures
        target_moves(from, ps, avoid, block, need, kind, board, takes).len() <= ps.len(),
    decreases ps.len(),
{
    if ps.len() > 0 {
        lemma_target_moves_len(from, ps.drop_last(), avoid, block, need, kind, board, takes);
    }
}

proof fn lemma_targets_len(p: Position, offs: Seq<crate::position::Offset>)
    ensures
        targets(p, offs).len() <= offs.len(),
    decreases offs.len(),
{
    if offs.len() > 0 {
        lemma_targets_len(p, offs.drop_last());
    }
}

proof fn lemma_pawn_take_moves_len(
    from: Position,
    ps: Seq<Position>,
    enemies: u64,
    block: Option<u64>,
    ep: Option<Position>,
    can_ep: bool,
    board: BoardRepr,
)
    ensures
        pawn_take_moves(from, ps, enemies, block, ep, can_ep, board).len() <= 4 * ps.len(),
    decreases ps.len(),
{
    if ps.len() > 0 {
        lemma_pawn_take_moves_len(from, ps.drop_last(), enemies, block, ep, can_ep, board);
    }
}

proof fn lemma_slider_moves_len(
    rook: bool,
    pos: Position,
    all: u64,
    allies: u64,
    block: Option<u64>,
    need: Option<u64>,
    only_takes: bool,
    role: PieceType,
    board: BoardRepr,
)
    ensures
        slider_moves(pos, if rook { rook_attack(pos, all) } else { bishop_attack(pos, all) },
            allies, block, need, only_takes, role, board).len() <= 24,
{
    let data = if rook { rook_attack(pos, all) } else { bishop_attack(pos, all) };
    if rook {
        crate::magic_bitboards::lemma_slide_size(all & crate::magic_bitboards::rook_relevant(pos), pos,
            crate::magic_bitboards::rook_dirs());
    } else {
        crate::magic_bitboards::lemma_slide_size(all & crate::magic_bitboards::bishop_relevant(pos), pos,
            crate::magic_bitboards::bishop_dirs());
    }
    lemma_target_moves_len(pos, data.normal, 0, block, None, MoveType::Normal(role), board, false);
    lemma_target_moves_len(pos, data.takes + data.ends, allies, block, need, MoveType::Normal(role), board, true);
}

proof fn lemma_square_moves_len(st: BoardState, i: int, pin: PinState, check: CheckPath, only_takes: bool)
    requires
        0 <= i < 64,
    ensures
        square_moves(st, i, pin, check, only_takes).len() <= 48,
{
    let p = Position { index: i as u8 };
    let allies = allies_of(st);
    let need = need_of(st, only_takes);
    match st.board.board[i] {
        Some(piece) => if piece.side == st.side {
            match piece.piece_type {
                PieceType::Pawn => {
                    lemma_targets_len(p, pawn_offsets(st.side));
                    match restriction(pin.relevant(p), check) {
                        Some(block) => lemma_pawn_take_moves_len(p, targets(p, pawn_offsets(st.side)), enemies_of(st), block,
                            st.en_passant_square, pin.can_en_passant, st.board),
                        None => {},
                    }
                },
                PieceType::Rook => match restriction(pin.relevant(p), check) {
                    Some(block) => lemma_slider_moves_len(true, p, occupied_of(st), allies, block, need, only_takes, PieceType::Rook, st.board),
                    None => {},
                },
                PieceType::Knight => {
                    lemma_targets_len(p, knight_offsets());
                    lemma_target_moves_len(p, targets(p, knight_offsets()), allies, None, need, MoveType::Normal(PieceType::Knight), st.board, true);
                    if let CheckPath::Blockable(b) = check {
                        lemma_target_moves_len(p, targets(p, knight_offsets()), allies, Some(b), need, MoveType::Normal(PieceType::Knight), st.board, true);
                    }
                },
                PieceType::Bishop => match restriction(pin.relevant(p), check) {
                    Some(block) => lemma_slider_moves_len(false, p, occupied_of(st), allies, block, need, only_takes, PieceType::Bishop, st.board),
                    None => {},
                },
                PieceType::Queen => match restriction(pin.relevant(p), check) {
                    Some(block) => {
                        lemma_slider_moves_len(true, p, occupied_of(st), allies, block, need, only_takes, PieceType::Queen, st.board);
                        lemma_slider_moves_len(false, p, occupied_of(st), allies, block, need, only_takes, PieceType::Queen, st.board);
                    },
                    None => {},
                },
                PieceType::King => {},
            }
        } else {
        },
        None => {},
    }
}

proof fn lemma_moves_upto_len(st: BoardState, n: int, pin: PinState, check: CheckPath, only_takes: bool)
    requires
        0 <= n <= 64,
    ensures
        moves_upto(st, n, pin, check, only_takes).len() <= 48 * n,
    decreases n,
{
    if n > 0 {
        lemma_moves_upto_len(st, n - 1, pin, check, only_takes);
        lemma_square_moves_len(st, n - 1, pin, check, only_takes);
    }
}

/// There are at most 3082 legal moves in any position: 48 per square and the king's.
pub proof fn lemma_legal_moves_len(st: BoardState, pin: PinState, check: CheckPath, only_takes: bool)
    ensures
        legal_moves(st, pin, check, only_takes).len() <= 3082,
{
    let k = king_square(st, st.side);
    let attacked = attacks_upto(st, 64, without_own_king(st));
    lemma_moves_upto_len(st, 64, pin, check, only_takes);
    lemma_targets_len(k, king_offsets());
    lemma_target_moves_len(k, targets(k, king_offsets()), allies_of(st) | attacked, None,
        need_of(st, only_takes), MoveType::Normal(PieceType::King), st.board, true);
}

/// What move generation needs of a position: a king of the side to move, no pawn of it on
/// the first or last rank, and the recorded king and the en passant square on the board.
pub open spec fn generation_ok(st: BoardState) -> bool {
    &&& exists|i: int| 0 <= i < 64 && is_king_of(#[trigger] st.board.board[i], st.side)
    &&& pawns_inside(st)
    &&& recorded_king(st, st.side).valid()
    &&& st.en_passant_square matches Some(e) ==> e.valid()
}

/// The checks on the side to move's king where `st` records it.
pub open spec fn checks_of(st: BoardState) -> CheckPath {
    classify(check_candidates(st, recorded_king(st, st.side), other(st.side)))
}

/// The legal moves in `st`, with the pins and checks of the king where `st` records it.
pub open spec fn moves_in(st: BoardState, only_takes: bool) -> Seq<Move> {
    legal_moves(st, pins_of(st, recorded_king(st, st.side)), checks_of(st), only_takes)
}

/// Whether `generation_ok` holds of `st`.
pub fn generation_check(st: &BoardState) -> (r: bool)
    ensures
        r == generation_ok(*st),
{
    if let Some(e) = st.en_passant_square {
        if e.index >= 64 {
            return false;
        }
    }
    let side = st.side;
    if st.side_king(side).index >= 64 {
        return false;
    }
    let mut has_king = false;
    let mut i: usize = 0;
    while i < 64
        invariant
            i <= 64,
            side == st.side,
            has_king == exists|j: int| 0 <= j < i && is_king_of(#[trigger] st.board.board[j], side),
            forall|j: int| 0 <= j < i && #[trigger] st.board.board[j] == Some(Piece { side, piece_type: PieceType::Pawn })
                ==> 8 <= j < 56,
        decreases 64 - i,
    {
        if let Some(p) = st.board.board[i] {
            if p.side == side && p.piece_type == PieceType::King {
                has_king = true;
            }
            if p.side == side && p.piece_type == PieceType::Pawn && (i < 8 || i >= 56) {
                return false;
            }
        }
        proof {
            if has_king {
                if !(exists|j: int| 0 <= j < i && is_king_of(#[trigger] st.board.board[j], side)) {
                    assert(is_king_of(st.board.board[i as int], side));
                }
            }
        }
        i += 1;
    }
    has_king
}

/// Whether no move of `ms` castles.
pub open spec fn no_castles(ms: Seq<Move>) -> bool {
    forall|k: int| 0 <= k < ms.len() ==> !((#[trigger] ms[k]).move_type is LongCastle) && !(ms[k].move_type is ShortCastle)
}

proof fn lemma_concat_no_castles(a: Seq<Move>, b: Seq<Move>)
    requires
        no_castles(a),
        no_castles(b),
    ensures
        no_castles(a + b),
{
    assert forall|k: int| 0 <= k < (a + b).len() implies !((#[trigger] (a + b)[k]).move_type is LongCastle)
        && !((a + b)[k].move_type is ShortCastle) by {
        if k < a.len() {
            assert((a + b)[k] == a[k]);
        } else {
            assert((a + b)[k] == b[k - a.len()]);
        }
    }
}

proof fn lemma_target_moves_no_castles(
    from: Position,
    ps: Seq<Position>,
    avoid: u64,
    block: Option<u64>,
    need: Option<u64>,
    kind: MoveType,
    board: BoardRepr,
    takes: bool,
)
    requires
        !(kind is LongCastle),
        !(kind is ShortCastle),
    ensures
        no_castles(target_moves(from, ps, avoid, block, need, kind, board, takes)),
    decreases ps.len(),
{
    if ps.len() > 0 {
        lemma_target_moves_no_castles(from, ps.drop_last(), avoid, block, need, kind, board, takes);
    }
}

proof fn lemma_pawn_take_moves_no_castles(
    from: Position,
    ps: Seq<Position>,
    enemies: u64,
    block: Option<u64>,
    ep: Option<Position>,
    can_ep: bool,
    board: BoardRepr,
)
    ensures
        no_castles(pawn_take_moves(from, ps, enemies, block, ep, can_ep, board)),
    decreases ps.len(),
{
    if ps.len() > 0 {
        lemma_pawn_take_moves_no_castles(from, ps.drop_last(), enemies, block, ep, can_ep, board);
        let prev = pawn_take_moves(from, ps.drop_last(), enemies, block, ep, can_ep, board);
        let t = ps.last();
        lemma_concat_no_castles(prev, pawn_step_moves(from, t, board.board[t.index as int]));
    }
}

proof fn lemma_slider_moves_no_castles(
    pos: Position,
    data: MagicView,
    allies: u64,
    block: Option<u64>,
    need: Option<u64>,
    only_takes: bool,
    role: PieceType,
    board: BoardRepr,
)
    ensures
        no_castles(slider_moves(pos, data, allies, block, need, only_takes, role, board)),
{
    lemma_target_moves_no_castles(pos, data.normal, 0, block, None, MoveType::Normal(role), board, false);
    lemma_target_moves_no_castles(pos, data.takes + data.ends, allies, block, need, MoveType::Normal(role), board, true);
    let quiet = if only_takes {
        Seq::empty()
    } else {
        target_moves(pos, data.normal, 0, block, None, MoveType::Normal(role), board, false)
    };
    lemma_concat_no_castles(quiet, target_moves(pos, data.takes + data.ends, allies, block, need, MoveType::Normal(role), board, true));
}

proof fn lemma_square_moves_no_castles(st: BoardState, i: int, pin: PinState, check: CheckPath, only_takes: bool)
    ensures
        no_castles(square_moves(st, i, pin, check, only_takes)),
{
    let p = Position { index: i as u8 };
    let allies = allies_of(st);
    let need = need_of(st, only_takes);
    if let Some(piece) = st.board.board[i] {
        if piece.side == st.side {
            match piece.piece_type {
                PieceType::Pawn => {
                    if let Some(block) = restriction(pin.relevant(p), check) {
                        lemma_pawn_take_moves_no_castles(p, targets(p, pawn_offsets(st.side)), enemies_of(st), block,
                            st.en_passant_square, pin.can_en_passant, st.board);
                        let takes = pawn_take_moves(p, targets(p, pawn_offsets(st.side)), enemies_of(st), block,
                            st.en_passant_square, pin.can_en_passant, st.board);
                        let dy = if st.side == Side::White { 1int } else { -1int };
                        let one = Position::at(p.col(), p.row() + dy);
                        let two = Position::at(p.col(), p.row() + 2 * dy);
                        let first = pawn_step_moves(p, one, None);
                        lemma_concat_no_castles(first, pawn_step_moves(p, two, None));
                        let pushes = pawn_push_moves(p, st.side, allies | enemies_of(st), block);
                        assert(no_castles(pushes));
                        lemma_concat_no_castles(takes, pushes);
                    }
                },
                PieceType::Rook => if let Some(block) = restriction(pin.relevant(p), check) {
                    lemma_slider_moves_no_castles(p, rook_attack(p, occupied_of(st)), allies, block, need, only_takes,
                        PieceType::Rook, st.board);
                },
                PieceType::Knight => {
                    lemma_target_moves_no_castles(p, targets(p, knight_offsets()), allies, None, need,
                        MoveType::Normal(PieceType::Knight), st.board, true);
                    if let CheckPath::Blockable(b) = check {
                        lemma_target_moves_no_castles(p, targets(p, knight_offsets()), allies, Some(b), need,
                            MoveType::Normal(PieceType::Knight), st.board, true);
                    }
                },
                PieceType::Bishop => if let Some(block) = restriction(pin.relevant(p), check) {
                    lemma_slider_moves_no_castles(p, bishop_attack(p, occupied_of(st)), allies, block, need, only_takes,
                        PieceType::Bishop, st.board);
                },
                PieceType::Queen => if let Some(block) = restriction(pin.relevant(p), check) {
                    lemma_slider_moves_no_castles(p, rook_attack(p, occupied_of(st)), allies, block, need, only_takes,
                        PieceType::Queen, st.board);
                    lemma_slider_moves_no_castles(p, bishop_attack(p, occupied_of(st)), allies, block, need, only_takes,
                        PieceType::Queen, st.board);
                    lemma_concat_no_castles(
                        slider_moves(p, rook_attack(p, occupied_of(st)), allies, block, need, only_takes, PieceType::Queen, st.board),
                        slider_moves(p, bishop_attack(p, occupied_of(st)), allies, block, need, only_takes, PieceType::Queen, st.board),
                    );
                },
                PieceType::King => {},
            }
        }
    }
}

proof fn lemma_moves_upto_no_castles(st: BoardState, n: int, pin: PinState, check: CheckPath, only_takes: bool)
    ensures
        no_castles(moves_upto(st, n, pin, check, only_takes)),
    decreases n,
{
    if n > 0 {
        lemma_moves_upto_no_castles(st, n - 1, pin, check, only_takes);
        lemma_square_moves_no_castles(st, n - 1, pin, check, only_takes);
        lemma_concat_no_castles(moves_upto(st, n - 1, pin, check, only_takes), square_moves(st, n - 1, pin, check, only_takes));
    }
}

/// What the castling masks of the home rank starting at square `h` say of single squares.
proof fn lemma_castle_masks(occ: u64, h: u64, k: u64)
    by (bit_vector)
    requires
        h == 0 || h == 56,
    ensures
        (0xeu64 << h) & occ == 0 && 1 <= k <= 3 ==> !is_set(occ, (h + k) as u64),
        (0xcu64 << h) & occ == 0 && 2 <= k <= 3 ==> !is_set(occ, (h + k) as u64),
        (0x60u64 << h) & occ == 0 && 5 <= k <= 6 ==> !is_set(occ, (h + k) as u64),
{
}

/// The first square of the home rank of `side`.
pub open spec fn home_first(side: Side) -> u64 {
    if side == Side::White { 0 } else { 56 }
}

/// A castling move among the legal moves goes from the king's square two files along its rank,
/// with the side still holding that right and the king not in check. Castling long, the
/// squares between the king and the a-file rook (files b, c and d of the home rank) are empty
/// and the two the king crosses or lands on (c and d) are not attacked; castling short, files
/// f and g are empty and not attacked.
pub proof fn lemma_castles_need_clear_path(st: BoardState, pin: PinState, check: CheckPath, only_takes: bool, m: Move)
    requires
        legal_moves(st, pin, check, only_takes).contains(m),
        m.move_type is LongCastle || m.move_type is ShortCastle,
    ensures
        ({
            let h = home_first(st.side);
            let rights = if st.side == Side::White { st.white_castling } else { st.black_castling };
            let occupied = allies_of(st) | enemies_of(st);
            let attacked = attacks_upto(st, 64, without_own_king(st));
            &&& check is NoCheck
            &&& !only_takes
            &&& m.from == king_square(st, st.side)
            &&& m.take is None
            &&& m.move_type is LongCastle ==> {
                &&& rights.0
                &&& m.to == Position::at(2, m.from.row())
                &&& forall|k: u64| 1 <= k <= 3 ==> !#[trigger] is_set(occupied, (h + k) as u64)
                &&& forall|k: u64| 2 <= k <= 3 ==> !#[trigger] is_set(attacked, (h + k) as u64)
            }
            &&& m.move_type is ShortCastle ==> {
                &&& rights.1
                &&& m.to == Position::at(6, m.from.row())
                &&& forall|k: u64| 5 <= k <= 6 ==> !#[trigger] is_set(occupied, (h + k) as u64) && !is_set(attacked, (h + k) as u64)
            }
        }),
{
    let h = home_first(st.side);
    let occupied = allies_of(st) | enemies_of(st);
    let attacked = attacks_upto(st, 64, without_own_king(st));
    let k0 = king_square(st, st.side);
    let up = moves_upto(st, 64, pin, check, only_takes);
    let steps = target_moves(k0, targets(k0, king_offsets()), allies_of(st) | attacked, None,
        need_of(st, only_takes), MoveType::Normal(PieceType::King), st.board, true);
    let km = king_moves(st, k0, check, attacked, only_takes);
    let all = legal_moves(st, pin, check, only_takes);
    lemma_moves_upto_no_castles(st, 64, pin, check, only_takes);
    lemma_target_moves_no_castles(k0, targets(k0, king_offsets()), allies_of(st) | attacked, None,
        need_of(st, only_takes), MoveType::Normal(PieceType::King), st.board, true);
    let idx = choose|idx: int| 0 <= idx < all.len() && all[idx] == m;
    assert(all == up + km);
    if idx < up.len() {
        assert(all[idx] == up[idx]);
        assert(false);
    }
    let j = idx - up.len();
    assert(km[j] == m);
    if !(check is NoCheck && !only_takes) {
        assert(km == steps);
        assert(false);
    }
    let cm = castle_moves(st, k0, attacked);
    assert(km == steps + cm);
    if j < steps.len() {
        assert(km[j] == steps[j]);
        assert(false);
    }
    assert(cm[j - steps.len()] == m);
    let long = (0xeu64 << h) & occupied == 0 && (0xcu64 << h) & attacked == 0;
    let short = (0x60u64 << h) & (occupied | attacked) == 0;
    if m.move_type is LongCastle {
        assert(long);
        assert forall|k: u64| 1 <= k <= 3 implies !#[trigger] is_set(occupied, (h + k) as u64) by {
            lemma_castle_masks(occupied, h, k);
        }
        assert forall|k: u64| 2 <= k <= 3 implies !#[trigger] is_set(attacked, (h + k) as u64) by {
            lemma_castle_masks(attacked, h, k);
        }
    } else {
        assert(short);
        assert forall|k: u64| 5 <= k <= 6 implies !#[trigger] is_set(occupied, (h + k) as u64)
            && !is_set(attacked, (h + k) as u64) by {
            lemma_castle_masks(occupied | attacked, h, k);
            crate::bits::lemma_bit_ops(occupied, attacked, (h + k) as u64);
        }
    }
}

/// Whether every move of `ms` moves a piece of kind `t` from `p`.
pub open spec fn all_from(ms: Seq<Move>, p: Position, t: PieceType) -> bool {
    forall|k: int| 0 <= k < ms.len() ==> (#[trigger] ms[k]).from == p && ms[k].moved_kind() == t
}

proof fn lemma_concat_all_from(a: Seq<Move>, b: Seq<Move>, p: Position, t: PieceType)
    requires
        all_from(a, p, t),
        all_from(b, p, t),
    ensures
        all_from(a + b, p, t),
{
    assert forall|k: int| 0 <= k < (a + b).len() implies (#[trigger] (a + b)[k]).from == p && (a + b)[k].moved_kind() == t by {
        if k < a.len() {
            assert((a + b)[k] == a[k]);
        } else {
            assert((a + b)[k] == b[k - a.len()]);
        }
    }
}

proof fn lemma_target_moves_from(
    from: Position,
    ps: Seq<Position>,
    avoid: u64,
    block: Option<u64>,
    need: Option<u64>,
    t: PieceType,
    board: BoardRepr,
    takes: bool,
)
    ensures
        all_from(target_moves(from, ps, avoid, block, need, MoveType::Normal(t), board, takes), from, t),
    decreases ps.len(),
{
    if ps.len() > 0 {
        lemma_target_moves_from(from, ps.drop_last(), avoid, block, need, t, board, takes);
    }
}

proof fn lemma_pawn_take_moves_from(
    from: Position,
    ps: Seq<Position>,
    enemies: u64,
    block: Option<u64>,
    ep: Option<Position>,
    can_ep: bool,
    board: BoardRepr,
)
    ensures
        all_from(pawn_take_moves(from, ps, enemies, block, ep, can_ep, board), from, PieceType::Pawn),
    decreases ps.len(),
{
    if ps.len() > 0 {
        lemma_pawn_take_moves_from(from, ps.drop_last(), enemies, block, ep, can_ep, board);
        let prev = pawn_take_moves(from, ps.drop_last(), enemies, block, ep, can_ep, board);
        let t = ps.last();
        lemma_concat_all_from(prev, pawn_step_moves(from, t, board.board[t.index as int]), from, PieceType::Pawn);
    }
}

proof fn lemma_slider_moves_from(
    pos: Position,
    data: MagicView,
    allies: u64,
    block: Option<u64>,
    need: Option<u64>,
    only_takes: bool,
    role: PieceType,
    board: BoardRepr,
)
    ensures
        all_from(slider_moves(pos, data, allies, block, need, only_takes, role, board), pos, role),
{
    lemma_target_moves_from(pos, data.normal, 0, block, None, role, board, false);
    lemma_target_moves_from(pos, data.takes + data.ends, allies, block, need, role, board, true);
    let quiet = if only_takes {
        Seq::empty()
    } else {
        target_moves(pos, data.normal, 0, block, None, MoveType::Normal(role), board, false)
    };
    lemma_concat_all_from(quiet, target_moves(pos, data.takes + data.ends, allies, block, need, MoveType::Normal(role), board, true), pos, role);
}

proof fn lemma_square_moves_from(st: BoardState, i: int, pin: PinState, check: CheckPath, only_takes: bool)
    requires
        0 <= i < 64,
    ensures
        forall|k: int| 0 <= k < square_moves(st, i, pin, check, only_takes).len() ==> {
            let m = #[trigger] square_moves(st, i, pin, check, only_takes)[k];
            &&& m.from == Position { index: i as u8 }
            &&& st.board.board[i] == Some(Piece { side: st.side, piece_type: m.moved_kind() })
        },
{
    let p = Position { index: i as u8 };
    let allies = allies_of(st);
    let need = need_of(st, only_takes);
    if let Some(piece) = st.board.board[i] {
        if piece.side == st.side {
            let t = piece.piece_type;
            match t {
                PieceType::Pawn => {
                    if let Some(block) = restriction(pin.relevant(p), check) {
                        lemma_pawn_take_moves_from(p, targets(p, pawn_offsets(st.side)), enemies_of(st), block,
                            st.en_passant_square, pin.can_en_passant, st.board);
                        let takes = pawn_take_moves(p, targets(p, pawn_offsets(st.side)), enemies_of(st), block,
                            st.en_passant_square, pin.can_en_passant, st.board);
                        let dy = if st.side == Side::White { 1int } else { -1int };
                        let one = Position::at(p.col(), p.row() + dy);
                        let two = Position::at(p.col(), p.row() + 2 * dy);
                        let first = pawn_step_moves(p, one, None);
                        lemma_concat_all_from(first, pawn_step_moves(p, two, None), p, t);
                        let pushes = pawn_push_moves(p, st.side, allies | enemies_of(st), block);
                        assert(all_from(pushes, p, t));
                        lemma_concat_all_from(takes, pushes, p, t);
                    }
                },
                PieceType::Rook => if let Some(block) = restriction(pin.relevant(p), check) {
                    lemma_slider_moves_from(p, rook_attack(p, occupied_of(st)), allies, block, need, only_takes, t, st.board);
                },
                PieceType::Knight => {
                    lemma_target_moves_from(p, targets(p, knight_offsets()), allies, None, need, t, st.board, true);
                    if let CheckPath::Blockable(b) = check {
                        lemma_target_moves_from(p, targets(p, knight_offsets()), allies, Some(b), need, t, st.board, true);
                    }
                },
                PieceType::Bishop => if let Some(block) = restriction(pin.relevant(p), check) {
                    lemma_slider_moves_from(p, bishop_attack(p, occupied_of(st)), allies, block, need, only_takes, t, st.board);
                },
                PieceType::Queen => if let Some(block) = restriction(pin.relevant(p), check) {
                    lemma_slider_moves_from(p, rook_attack(p, occupied_of(st)), allies, block, need, only_takes, t, st.board);
                    lemma_slider_moves_from(p, bishop_attack(p, occupied_of(st)), allies, block, need, only_takes, t, st.board);
                    lemma_concat_all_from(
                        slider_moves(p, rook_attack(p, occupied_of(st)), allies, block, need, only_takes, t, st.board),
                        slider_moves(p, bishop_attack(p, occupied_of(st)), allies, block, need, only_takes, t, st.board),
                        p,
                        t,
                    );
                },
                PieceType::King => {},
            }
            assert(all_from(square_moves(st, i, pin, check, only_takes), p, t));
        }
    }
}

/// Whether every move of `ms` moves a piece of the side to move of `st` of the move's kind from
/// where it stands.
pub open spec fn moves_own_pieces(st: BoardState, ms: Seq<Move>) -> bool {
    forall|k: int| 0 <= k < ms.len() ==> (#[trigger] ms[k]).from.valid()
        && st.board.board[ms[k].from.index as int] == Some(Piece { side: st.side, piece_type: ms[k].moved_kind() })
}

proof fn lemma_concat_own(st: BoardState, a: Seq<Move>, b: Seq<Move>)
    requires
        moves_own_pieces(st, a),
        moves_own_pieces(st, b),
    ensures
        moves_own_pieces(st, a + b),
{
    assert forall|k: int| 0 <= k < (a + b).len() implies (#[trigger] (a + b)[k]).from.valid()
        && st.board.board[(a + b)[k].from.index as int] == Some(Piece { side: st.side, piece_type: (a + b)[k].moved_kind() }) by {
        if k < a.len() {
            assert((a + b)[k] == a[k]);
        } else {
            assert((a + b)[k] == b[k - a.len()]);
        }
    }
}

proof fn lemma_moves_upto_own(st: BoardState, n: int, pin: PinState, check: CheckPath, only_takes: bool)
    requires
        n <= 64,
    ensures
        moves_own_pieces(st, moves_upto(st, n, pin, check, only_takes)),
    decreases n,
{
    if n > 0 {
        lemma_moves_upto_own(st, n - 1, pin, check, only_takes);
        lemma_square_moves_from(st, n - 1, pin, check, only_takes);
        let sm = square_moves(st, n - 1, pin, check, only_takes);
        assert forall|k: int| 0 <= k < sm.len() implies (#[trigger] sm[k]).from.valid()
            && st.board.board[sm[k].from.index as int] == Some(Piece { side: st.side, piece_type: sm[k].moved_kind() }) by {
            assert(sm[k].from == Position { index: (n - 1) as u8 });
        }
        lemma_concat_own(st, moves_upto(st, n - 1, pin, check, only_takes), sm);
    }
}

/// Every legal move moves a piece of the side to move, of the move's kind, from the square it
/// stands on (the king's moves from its first square counted from a1), when that side has a
/// king.
pub proof fn lemma_legal_moves_move_own_pieces(st: BoardState, pin: PinState, check: CheckPath, only_takes: bool)
    requires
        exists|i: int| 0 <= i < 64 && is_king_of(#[trigger] st.board.board[i], st.side),
    ensures
        moves_own_pieces(st, legal_moves(st, pin, check, only_takes)),
{
    let k0 = king_square(st, st.side);
    let attacked = attacks_upto(st, 64, without_own_king(st));
    let wk = choose|i: int| 0 <= i < 64 && is_king_of(#[trigger] st.board.board[i], st.side);
    crate::perft::lemma_first_king_bound(st.board.board@, st.side, wk);
    crate::fen::lemma_first_king_found(st.board.board@, st.side, 0);
    assert(k0.valid());
    assert(st.board.board[k0.index as int] == Some(Piece { side: st.side, piece_type: PieceType::King }));
    lemma_moves_upto_own(st, 64, pin, check, only_takes);
    lemma_target_moves_from(k0, targets(k0, king_offsets()), allies_of(st) | attacked, None,
        need_of(st, only_takes), PieceType::King, st.board, true);
    let steps = target_moves(k0, targets(k0, king_offsets()), allies_of(st) | attacked, None,
        need_of(st, only_takes), MoveType::Normal(PieceType::King), st.board, true);
    let cm = castle_moves(st, k0, attacked);
    assert(all_from(cm, k0, PieceType::King));
    lemma_concat_all_from(steps, cm, k0, PieceType::King);
    let km = king_moves(st, k0, check, attacked, only_takes);
    assert(all_from(km, k0, PieceType::King));
    assert(moves_own_pieces(st, km));
    lemma_concat_own(st, moves_upto(st, 64, pin, check, only_takes), km);
}

/// Whether move `m` keeps the pawn rules of `st`: en passant only onto the en passant square,
/// taking nothing on it; a pawn's other moves promote exactly when they reach the first or
/// last rank; and a promotion makes a queen, rook, knight or bishop.
pub open spec fn keeps_pawn_rules(st: BoardState, m: Move) -> bool {
    &&& m.move_type is EnPassant ==> st.en_passant_square == Some(m.to) && m.take is None
    &&& m.moved_kind() == PieceType::Pawn && !(m.move_type is EnPassant)
        ==> (m.move_type is Promotion <==> (m.to.row() == 0 || m.to.row() == 7))
    &&& m.move_type matches MoveType::Promotion(p) ==> p != PieceType::Pawn && p != PieceType::King
}

/// Whether every move of `ms` keeps the pawn rules of `st`.
pub open spec fn all_keep_pawn_rules(st: BoardState, ms: Seq<Move>) -> bool {
    forall|k: int| 0 <= k < ms.len() ==> keeps_pawn_rules(st, #[trigger] ms[k])
}

proof fn lemma_concat_pawn_rules(st: BoardState, a: Seq<Move>, b: Seq<Move>)
    requires
        all_keep_pawn_rules(st, a),
        all_keep_pawn_rules(st, b),
    ensures
        all_keep_pawn_rules(st, a + b),
{
    assert forall|k: int| 0 <= k < (a + b).len() implies keeps_pawn_rules(st, #[trigger] (a + b)[k]) by {
        if k < a.len() {
            assert((a + b)[k] == a[k]);
        } else {
            assert((a + b)[k] == b[k - a.len()]);
        }
    }
}

proof fn lemma_target_moves_pawn_rules(
    st: BoardState,
    from: Position,
    ps: Seq<Position>,
    avoid: u64,
    block: Option<u64>,
    need: Option<u64>,
    t: PieceType,
    board: BoardRepr,
    takes: bool,
)
    requires
        t != PieceType::Pawn,
    ensures
        all_keep_pawn_rules(st, target_moves(from, ps, avoid, block, need, MoveType::Normal(t), board, takes)),
    decreases ps.len(),
{
    if ps.len() > 0 {
        lemma_target_moves_pawn_rules(st, from, ps.drop_last(), avoid, block, need, t, board, takes);
    }
}

proof fn lemma_pawn_step_pawn_rules(st: BoardState, from: Position, to: Position, take: Option<Piece>)
    ensures
        all_keep_pawn_rules(st, pawn_step_moves(from, to, take)),
{
}

proof fn lemma_pawn_take_moves_pawn_rules(
    st: BoardState,
    from: Position,
    ps: Seq<Position>,
    enemies: u64,
    block: Option<u64>,
    can_ep: bool,
    board: BoardRepr,
)
    ensures
        all_keep_pawn_rules(st, pawn_take_moves(from, ps, enemies, block, st.en_passant_square, can_ep, board)),
    decreases ps.len(),
{
    if ps.len() > 0 {
        lemma_pawn_take_moves_pawn_rules(st, from, ps.drop_last(), enemies, block, can_ep, board);
        let prev = pawn_take_moves(from, ps.drop_last(), enemies, block, st.en_passant_square, can_ep, board);
        let t = ps.last();
        lemma_pawn_step_pawn_rules(st, from, t, board.board[t.index as int]);
        lemma_concat_pawn_rules(st, prev, pawn_step_moves(from, t, board.board[t.index as int]));
    }
}

proof fn lemma_slider_moves_pawn_rules(
    st: BoardState,
    pos: Position,
    data: MagicView,
    allies: u64,
    block: Option<u64>,
    need: Option<u64>,
    only_takes: bool,
    role: PieceType,
    board: BoardRepr,
)
    requires
        role != PieceType::Pawn,
    ensures
        all_keep_pawn_rules(st, slider_moves(pos, data, allies, block, need, only_takes, role, board)),
{
    lemma_target_moves_pawn_rules(st, pos, data.normal, 0, block, None, role, board, false);
    lemma_target_moves_pawn_rules(st, pos, data.takes + data.ends, allies, block, need, role, board, true);
    let quiet = if only_takes {
        Seq::empty()
    } else {
        target_moves(pos, data.normal, 0, block, None, MoveType::Normal(role), board, false)
    };
    lemma_concat_pawn_rules(st, quiet, target_moves(pos, data.takes + data.ends, allies, block, need, MoveType::Normal(role), board, true));
}

proof fn lemma_square_moves_pawn_rules(st: BoardState, i: int, pin: PinState, check: CheckPath, only_takes: bool)
    ensures
        all_keep_pawn_rules(st, square_moves(st, i, pin, check, only_takes)),
{
    let p = Position { index: i as u8 };
    let allies = allies_of(st);
    let need = need_of(st, only_takes);
    if let Some(piece) = st.board.board[i] {
        if piece.side == st.side {
            let t = piece.piece_type;
            match t {
                PieceType::Pawn => {
                    if let Some(block) = restriction(pin.relevant(p), check) {
                        lemma_pawn_take_moves_pawn_rules(st, p, targets(p, pawn_offsets(st.side)), enemies_of(st), block,
                            pin.can_en_passant, st.board);
                        let takes = pawn_take_moves(p, targets(p, pawn_offsets(st.side)), enemies_of(st), block,
                            st.en_passant_square, pin.can_en_passant, st.board);
                        let dy = if st.side == Side::White { 1int } else { -1int };
                        let one = Position::at(p.col(), p.row() + dy);
                        let two = Position::at(p.col(), p.row() + 2 * dy);
                        let first = pawn_step_moves(p, one, None);
                        lemma_pawn_step_pawn_rules(st, p, one, None);
                        lemma_pawn_step_pawn_rules(st, p, two, None);
                        lemma_concat_pawn_rules(st, first, pawn_step_moves(p, two, None));
                        let pushes = pawn_push_moves(p, st.side, allies | enemies_of(st), block);
                        assert(all_keep_pawn_rules(st, pushes));
                        lemma_concat_pawn_rules(st, takes, pushes);
                    }
                },
                PieceType::Rook => if let Some(block) = restriction(pin.relevant(p), check) {
                    lemma_slider_moves_pawn_rules(st, p, rook_attack(p, occupied_of(st)), allies, block, need, only_takes, t, st.board);
                },
                PieceType::Knight => {
                    lemma_target_moves_pawn_rules(st, p, targets(p, knight_offsets()), allies, None, need, t, st.board, true);
                    if let CheckPath::Blockable(b) = check {
                        lemma_target_moves_pawn_rules(st, p, targets(p, knight_offsets()), allies, Some(b), need, t, st.board, true);
                    }
                },
                PieceType::Bishop => if let Some(block) = restriction(pin.relevant(p), check) {
                    lemma_slider_moves_pawn_rules(st, p, bishop_attack(p, occupied_of(st)), allies, block, need, only_takes, t, st.board);
                },
                PieceType::Queen => if let Some(block) = restriction(pin.relevant(p), check) {
                    lemma_slider_moves_pawn_rules(st, p, rook_attack(p, occupied_of(st)), allies, block, need, only_takes, t, st.board);
                    lemma_slider_moves_pawn_rules(st, p, bishop_attack(p, occupied_of(st)), allies, block, need, only_takes, t, st.board);
                    lemma_concat_pawn_rules(st,
                        slider_moves(p, rook_attack(p, occupied_of(st)), allies, block, need, only_takes, t, st.board),
                        slider_moves(p, bishop_attack(p, occupied_of(st)), allies, block, need, only_takes, t, st.board),
                    );
                },
                PieceType::King => {},
            }
        }
    }
}

proof fn lemma_moves_upto_pawn_rules(st: BoardState, n: int, pin: PinState, check: CheckPath, only_takes: bool)
    ensures
        all_keep_pawn_rules(st, moves_upto(st, n, pin, check, only_takes)),
    decreases n,
{
    if n > 0 {
        lemma_moves_upto_pawn_rules(st, n - 1, pin, check, only_takes);
        lemma_square_moves_pawn_rules(st, n - 1, pin, check, only_takes);
        lemma_concat_pawn_rules(st, moves_upto(st, n - 1, pin, check, only_takes), square_moves(st, n - 1, pin, check, only_takes));
    }
}

/// Every legal move keeps the pawn rules: en passant only onto the en passant square; a pawn
/// promotes exactly when it reaches the first or last rank, and only to a queen, rook, knight
/// or bishop.
pub proof fn lemma_legal_moves_keep_pawn_rules(st: BoardState, pin: PinState, check: CheckPath, only_takes: bool)
    ensures
        all_keep_pawn_rules(st, legal_moves(st, pin, check, only_takes)),
{
    let k0 = king_square(st, st.side);
    let attacked = attacks_upto(st, 64, without_own_king(st));
    lemma_moves_upto_pawn_rules(st, 64, pin, check, only_takes);
    lemma_target_moves_pawn_rules(st, k0, targets(k0, king_offsets()), allies_of(st) | attacked, None,
        need_of(st, only_takes), PieceType::King, st.board, true);
    let steps = target_moves(k0, targets(k0, king_offsets()), allies_of(st) | attacked, None,
        need_of(st, only_takes), MoveType::Normal(PieceType::King), st.board, true);
    let cm = castle_moves(st, k0, attacked);
    assert(all_keep_pawn_rules(st, cm));
    lemma_concat_pawn_rules(st, steps, cm);
    lemma_concat_pawn_rules(st, moves_upto(st, 64, pin, check, only_takes), king_moves(st, k0, check, attacked, only_takes));
}

} // verus!
