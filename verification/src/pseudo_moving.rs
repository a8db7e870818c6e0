//! Pseudo-legal moves: every step and slide of the pieces, ignoring pins and checks and
//! taking pieces of either side; a simple generator to hold the legal one against.
use crate::board::SearchBoard;
use crate::board_repr::{BoardRepr, union6};
use crate::magic_bitboards::all_valid;
use crate::moving::{Move, MoveType};
use crate::piece::{Piece, PieceType, Side};
use crate::position::{Offset, Position};
use crate::search::{pawn_step_moves, recorded_king};
use crate::search_masks::{masks_of, or_all, pawn_offsets, targets};
use vstd::prelude::*;

verus! {

/// The rook's directions, in the order they are walked.
pub open spec fn rook_directions() -> Seq<Offset> {
    seq![Offset { x: 1i8, y: 0i8 }, Offset { x: 0i8, y: 1i8 }, Offset { x: -1i8, y: 0i8 }, Offset { x: 0i8, y: -1i8 }]
}

/// The bishop's directions, in the order they are walked.
pub open spec fn bishop_directions() -> Seq<Offset> {
    seq![Offset { x: 1i8, y: 1i8 }, Offset { x: -1i8, y: 1i8 }, Offset { x: -1i8, y: -1i8 }, Offset { x: 1i8, y: -1i8 }]
}

/// The queen's and the king's directions: the rook's, then the bishop's.
pub open spec fn queen_directions() -> Seq<Offset> {
    rook_directions() + bishop_directions()
}

/// The knight's steps, in the order they are tried here.
pub open spec fn knight_directions() -> Seq<Offset> {
    seq![Offset { x: 1i8, y: -2i8 }, Offset { x: 1i8, y: 2i8 }, Offset { x: -1i8, y: -2i8 }, Offset { x: -1i8, y: 2i8 },
        Offset { x: 2i8, y: -1i8 }, Offset { x: 2i8, y: 1i8 }, Offset { x: -2i8, y: -1i8 }, Offset { x: -2i8, y: 1i8 }]
}

fn rook_dirs_array() -> (r: [Offset; 4])
    ensures
        r@ == rook_directions(),
{
    let r = [Offset::new(1, 0), Offset::new(0, 1), Offset::new(-1, 0), Offset::new(0, -1)];
    assert(r@ =~= rook_directions());
    r
}

fn bishop_dirs_array() -> (r: [Offset; 4])
    ensures
        r@ == bishop_directions(),
{
    let r = [Offset::new(1, 1), Offset::new(-1, 1), Offset::new(-1, -1), Offset::new(1, -1)];
    assert(r@ =~= bishop_directions());
    r
}

fn queen_dirs_array() -> (r: [Offset; 8])
    ensures
        r@ == queen_directions(),
{
    let r = [Offset::new(1, 0), Offset::new(0, 1), Offset::new(-1, 0), Offset::new(0, -1),
        Offset::new(1, 1), Offset::new(-1, 1), Offset::new(-1, -1), Offset::new(1, -1)];
    assert(r@ =~= queen_directions());
    r
}

fn knight_dirs_array() -> (r: [Offset; 8])
    ensures
        r@ == knight_directions(),
{
    let r = [Offset::new(1, -2), Offset::new(1, 2), Offset::new(-1, -2), Offset::new(-1, 2),
        Offset::new(2, -1), Offset::new(2, 1), Offset::new(-2, -1), Offset::new(-2, 1)];
    assert(r@ =~= knight_directions());
    r
}

fn pawn_dirs_array(side: Side) -> (r: [Offset; 2])
    ensures
        r@ == pawn_offsets(side),
{
    let r = match side {
        Side::White => [Offset::new(-1, 1), Offset::new(1, 1)],
        Side::Black => [Offset::new(-1, -1), Offset::new(1, -1)],
    };
    assert(r@ =~= pawn_offsets(side));
    r
}

/// Steps no longer than the board in either direction.
pub open spec fn short_steps(offs: Seq<Offset>) -> bool {
    forall|i: int| 0 <= i < offs.len() ==> -8 < #[trigger] offs[i].x < 8 && -8 < offs[i].y < 8
}

/// Steps of at most one square in either direction.
pub open spec fn unit_steps(offs: Seq<Offset>) -> bool {
    forall|i: int| 0 <= i < offs.len() ==> -1 <= #[trigger] offs[i].x <= 1 && -1 <= offs[i].y <= 1
}

/// The squares the steps `offs` reach from `pos`, in order.
fn step_targets(pos: Position, offs: &[Offset]) -> (r: Vec<Position>)
    requires
        pos.valid(),
        short_steps(offs@),
    ensures
        r@ == targets(pos, offs@),
        all_valid(r@),
{
    let mut r: Vec<Position> = Vec::new();
    let mut i: usize = 0;
    assert(offs@.take(0) =~= Seq::<Offset>::empty());
    while i < offs.len()
        invariant
            i <= offs@.len(),
            pos.valid(),
            short_steps(offs@),
            r@ == targets(pos, offs@.take(i as int)),
            all_valid(r@),
        decreases offs@.len() - i,
    {
        assert(offs@.take(i + 1).drop_last() =~= offs@.take(i as int));
        if let Some(t) = pos.with_offset(offs[i]) {
            r.push(t);
        }
        i += 1;
    }
    assert(offs@.take(offs@.len() as int) =~= offs@);
    r
}

/// The moves of kind `role` from `pos` to each square of `ps`, each taking what stands there.
pub open spec fn step_moves(pos: Position, ps: Seq<Position>, role: PieceType, board: BoardRepr) -> Seq<Move>
    decreases ps.len(),
{
    if ps.len() == 0 {
        Seq::empty()
    } else {
        let t = ps.last();
        step_moves(pos, ps.drop_last(), role, board).push(
            Move { move_type: MoveType::Normal(role), from: pos, to: t, take: board.board[t.index as int] },
        )
    }
}

fn push_steps(moves: &mut Vec<Move>, pos: Position, ps: &Vec<Position>, role: PieceType, board: &BoardRepr)
    requires
        all_valid(ps@),
    ensures
        final(moves)@ == old(moves)@ + step_moves(pos, ps@, role, *board),
{
    let ghost start = moves@;
    let mut i: usize = 0;
    assert(ps@.take(0) =~= Seq::<Position>::empty());
    while i < ps.len()
        invariant
            i <= ps@.len(),
            all_valid(ps@),
            start == old(moves)@,
            moves@ == start + step_moves(pos, ps@.take(i as int), role, *board),
        decreases ps@.len() - i,
    {
        let t = ps[i];
        assert(ps@.take(i + 1).drop_last() =~= ps@.take(i as int));
        assert(ps@.take(i + 1).last() == t);
        moves.push(Move::new(pos, t, MoveType::Normal(role), board.get(t)));
        i += 1;
    }
    assert(ps@.take(ps@.len() as int) =~= ps@);
}

/// The step `o` taken `k` times, when it stays shorter than the board.
pub open spec fn scaled(o: Offset, k: int) -> Option<Offset> {
    let p = Offset { x: (o.x * k) as i8, y: (o.y * k) as i8 };
    if p.in_range() { Some(p) } else { None }
}

/// The square `k` steps `dir` away from `pos`, for `k` below 8.
pub open spec fn ray_square(pos: Position, dir: Offset, k: int) -> Option<Position> {
    if k >= 8 {
        None
    } else {
        match scaled(dir, k) {
            Some(o) => pos.offset_target(o),
            None => None,
        }
    }
}

/// The moves of kind `role` from `pos` along `dir`, from step `k` on: each square taking what
/// stands there, up to and with the first that holds a piece.
pub open spec fn ray_moves(pos: Position, dir: Offset, k: int, role: PieceType, board: BoardRepr) -> Seq<Move>
    decreases 8 - k,
{
    if k >= 8 || k < 1 {
        Seq::empty()
    } else {
        match ray_square(pos, dir, k) {
            None => Seq::empty(),
            Some(t) => {
                let m = Move { move_type: MoveType::Normal(role), from: pos, to: t, take: board.board[t.index as int] };
                if board.board[t.index as int] is Some {
                    seq![m]
                } else {
                    seq![m] + ray_moves(pos, dir, k + 1, role, board)
                }
            },
        }
    }
}

/// The moves of kind `role` from `pos` along each of `dirs` in turn.
pub open spec fn rays_moves(pos: Position, dirs: Seq<Offset>, role: PieceType, board: BoardRepr) -> Seq<Move>
    decreases dirs.len(),
{
    if dirs.len() == 0 {
        Seq::empty()
    } else {
        rays_moves(pos, dirs.drop_last(), role, board) + ray_moves(pos, dirs.last(), 1, role, board)
    }
}

/// Appends the moves of kind `role` from `pos` along `dir`.
fn traverse_direction(moves: &mut Vec<Move>, dir: Offset, pos: Position, state: &SearchBoard, role: PieceType)
    requires
        pos.valid(),
        -1 <= dir.x <= 1,
        -1 <= dir.y <= 1,
    ensures
        final(moves)@ == old(moves)@ + ray_moves(pos, dir, 1, role, state.state.board),
{
    let ghost start = moves@;
    let mut mul: i8 = 1;
    while mul < 8
        invariant
            1 <= mul <= 8,
            pos.valid(),
            -1 <= dir.x <= 1,
            -1 <= dir.y <= 1,
            start == old(moves)@,
            moves@ + ray_moves(pos, dir, mul as int, role, state.state.board) == start + ray_moves(pos, dir, 1, role, state.state.board),
        decreases 8 - mul,
    {
        assert(-8 < dir.x * mul < 8 && -8 < dir.y * mul < 8) by (nonlinear_arith)
            requires
                1 <= mul < 8,
                -1 <= dir.x <= 1,
                -1 <= dir.y <= 1,
        ;
        let Some(multiplied_dir) = dir.mul(mul) else {
            assert(moves@ =~= moves@ + ray_moves(pos, dir, mul as int, role, state.state.board));
            return;
        };
        let Some(offset_pos) = pos.with_offset(multiplied_dir) else {
            assert(moves@ =~= moves@ + ray_moves(pos, dir, mul as int, role, state.state.board));
            return;
        };
        let taken = state.state.get_piece_at(offset_pos);
        let ghost before = moves@;
        moves.push(Move::new(pos, offset_pos, MoveType::Normal(role), taken));
        if taken.is_some() {
            assert(moves@ =~= before + ray_moves(pos, dir, mul as int, role, state.state.board));
            return;
        }
        assert(before + ray_moves(pos, dir, mul as int, role, state.state.board)
            =~= moves@ + ray_moves(pos, dir, mul + 1, role, state.state.board));
        mul += 1;
    }
    assert(moves@ =~= moves@ + ray_moves(pos, dir, mul as int, role, state.state.board));
}

/// Appends the moves of kind `role` from `pos` along each of `dirs` in turn.
fn traverse_all(moves: &mut Vec<Move>, dirs: &[Offset], pos: Position, state: &SearchBoard, role: PieceType)
    requires
        pos.valid(),
        unit_steps(dirs@),
    ensures
        final(moves)@ == old(moves)@ + rays_moves(pos, dirs@, role, state.state.board),
{
    let ghost start = moves@;
    let mut i: usize = 0;
    assert(dirs@.take(0) =~= Seq::<Offset>::empty());
    while i < dirs.len()
        invariant
            i <= dirs@.len(),
            pos.valid(),
            unit_steps(dirs@),
            start == old(moves)@,
            moves@ == start + rays_moves(pos, dirs@.take(i as int), role, state.state.board),
        decreases dirs@.len() - i,
    {
        assert(dirs@.take(i + 1).drop_last() =~= dirs@.take(i as int));
        let ghost before = moves@;
        traverse_direction(moves, dirs[i], pos, state, role);
        assert(moves@ =~= start + rays_moves(pos, dirs@.take(i + 1), role, state.state.board));
        i += 1;
    }
    assert(dirs@.take(dirs@.len() as int) =~= dirs@);
}

/// The squares along `dir` from `pos`, from step `k` on, up to and with the first that holds
/// one of `all_pieces`, added to `acc`.
pub open spec fn ray_acc(acc: u64, pos: Position, dir: Offset, k: int, all_pieces: u64) -> u64
    decreases 8 - k,
{
    if k >= 8 || k < 1 {
        acc
    } else {
        match ray_square(pos, dir, k) {
            None => acc,
            Some(t) => {
                let a = acc | t.mask();
                if all_pieces & t.mask() != 0 {
                    a
                } else {
                    ray_acc(a, pos, dir, k + 1, all_pieces)
                }
            },
        }
    }
}

/// The squares along each of `dirs` in turn, added to `acc`.
pub open spec fn rays_acc(acc: u64, pos: Position, dirs: Seq<Offset>, all_pieces: u64) -> u64
    decreases dirs.len(),
{
    if dirs.len() == 0 {
        acc
    } else {
        ray_acc(rays_acc(acc, pos, dirs.drop_last(), all_pieces), pos, dirs.last(), 1, all_pieces)
    }
}

fn ray_bits(start: u64, pos: Position, dir: Offset, all_pieces: u64) -> (r: u64)
    requires
        pos.valid(),
        -1 <= dir.x <= 1,
        -1 <= dir.y <= 1,
    ensures
        r == ray_acc(start, pos, dir, 1, all_pieces),
{
    let mut acc = start;
    let ghost goal = ray_acc(start, pos, dir, 1, all_pieces);
    let mut mult: i8 = 1;
    while mult < 8
        invariant
            1 <= mult <= 8,
            pos.valid(),
            -1 <= dir.x <= 1,
            -1 <= dir.y <= 1,
            ray_acc(acc, pos, dir, mult as int, all_pieces) == goal,
            goal == ray_acc(start, pos, dir, 1, all_pieces),
        decreases 8 - mult,
    {
        assert(-8 < dir.x * mult < 8 && -8 < dir.y * mult < 8) by (nonlinear_arith)
            requires
                1 <= mult < 8,
                -1 <= dir.x <= 1,
                -1 <= dir.y <= 1,
        ;
        let Some(multiplied) = dir.mul(mult) else {
            return acc;
        };
        let Some(off_pos) = pos.with_offset(multiplied) else {
            return acc;
        };
        acc = acc | off_pos.as_mask();
        if all_pieces & off_pos.as_mask() != 0 {
            return acc;
        }
        mult += 1;
    }
    acc
}

/// The squares a slider on `pos` reaches along each of `dirs` among `all_pieces`, the first
/// piece on each ray included.
pub fn simple_traverse(pos: Position, all_pieces: u64, dirs: &[Offset]) -> (r: u64)
    requires
        pos.valid(),
        unit_steps(dirs@),
    ensures
        r == rays_acc(0, pos, dirs@, all_pieces),
{
    let mut acc: u64 = 0;
    let mut i: usize = 0;
    assert(dirs@.take(0) =~= Seq::<Offset>::empty());
    while i < dirs.len()
        invariant
            i <= dirs@.len(),
            pos.valid(),
            unit_steps(dirs@),
            acc == rays_acc(0, pos, dirs@.take(i as int), all_pieces),
        decreases dirs@.len() - i,
    {
        assert(dirs@.take(i + 1).drop_last() =~= dirs@.take(i as int));
        acc = ray_bits(acc, pos, dirs[i], all_pieces);
        i += 1;
    }
    assert(dirs@.take(dirs@.len() as int) =~= dirs@);
    acc
}

/// The union of the squares' masks.
fn fold_masks(ps: &Vec<Position>) -> (r: u64)
    requires
        all_valid(ps@),
    ensures
        r == or_all(masks_of(ps@)),
{
    let mut acc: u64 = 0;
    let mut i: usize = 0;
    assert(masks_of(ps@.take(0)) =~= Seq::<u64>::empty());
    while i < ps.len()
        invariant
            i <= ps@.len(),
            all_valid(ps@),
            acc == or_all(masks_of(ps@.take(i as int))),
        decreases ps@.len() - i,
    {
        assert(masks_of(ps@.take(i + 1)).drop_last() =~= masks_of(ps@.take(i as int)));
        assert(masks_of(ps@.take(i + 1)).last() == ps@[i as int].mask());
        acc = acc | ps[i].as_mask();
        i += 1;
    }
    assert(ps@.take(ps@.len() as int) =~= ps@);
    acc
}

/// The squares a piece of kind `kind` of `attacker` on `p` attacks among `all_pieces`: steps
/// for kings, pawns and knights, rays for the sliders.
pub open spec fn piece_reach(kind: PieceType, attacker: Side, p: Position, all_pieces: u64) -> u64 {
    match kind {
        PieceType::King => or_all(masks_of(targets(p, queen_directions()))),
        PieceType::Pawn => or_all(masks_of(targets(p, pawn_offsets(attacker)))),
        PieceType::Knight => or_all(masks_of(targets(p, knight_directions()))),
        PieceType::Queen => rays_acc(0, p, queen_directions(), all_pieces),
        PieceType::Rook => rays_acc(0, p, rook_directions(), all_pieces),
        PieceType::Bishop => rays_acc(0, p, bishop_directions(), all_pieces),
    }
}

/// The union of what the pieces of `attacker` on squares 0 to `n - 1` of `b` attack.
pub open spec fn reach_upto(b: SearchBoard, attacker: Side, n: int, all_pieces: u64) -> u64
    decreases n,
{
    if n <= 0 {
        0
    } else {
        let prev = reach_upto(b, attacker, n - 1, all_pieces);
        match b.state.board.board[n - 1] {
            Some(pc) => if pc.side == attacker {
                prev | piece_reach(pc.piece_type, attacker, Position { index: (n - 1) as u8 }, all_pieces)
            } else {
                prev
            },
            None => prev,
        }
    }
}

/// All pieces of `b` but the recorded king of the side `attacker` attacks.
pub open spec fn pseudo_blockers(b: SearchBoard, attacker: Side) -> u64 {
    (union6(b.state.white.state) | union6(b.state.black.state))
        & !recorded_king(b.state, crate::board::other(attacker)).mask()
}

/// The squares the pieces of `attacker` attack in `b`.
pub open spec fn attacked_pseudo(b: SearchBoard, attacker: Side) -> u64 {
    reach_upto(b, attacker, 64, pseudo_blockers(b, attacker))
}

/// Whether a piece of `enemy` attacks `pos` in `b`.
pub open spec fn attacked_by(b: SearchBoard, pos: Position, enemy: Side) -> bool {
    attacked_pseudo(b, enemy) & pos.mask() != 0
}

/// Whether the piece on `pos` is attacked by the other side, or, on an empty square, whether
/// either side attacks it.
pub open spec fn attacked_any(b: SearchBoard, pos: Position) -> bool {
    match b.state.board.board[pos.index as int] {
        Some(piece) => attacked_by(b, pos, crate::board::other(piece.side)),
        None => attacked_by(b, pos, Side::White) || attacked_by(b, pos, Side::Black),
    }
}

/// Both kings are recorded on the board.
pub open spec fn kings_recorded(b: SearchBoard) -> bool {
    recorded_king(b.state, Side::White).valid() && recorded_king(b.state, Side::Black).valid()
}

fn reach_of(kind: PieceType, attacker: Side, pos: Position, all_pieces: u64) -> (r: u64)
    requires
        pos.valid(),
    ensures
        r == piece_reach(kind, attacker, pos, all_pieces),
{
    match kind {
        PieceType::King => {
            let d = queen_dirs_array();
            fold_masks(&step_targets(pos, d.as_slice()))
        },
        PieceType::Pawn => {
            let d = pawn_dirs_array(attacker);
            fold_masks(&step_targets(pos, d.as_slice()))
        },
        PieceType::Knight => {
            let d = knight_dirs_array();
            fold_masks(&step_targets(pos, d.as_slice()))
        },
        PieceType::Queen => {
            let d = queen_dirs_array();
            simple_traverse(pos, all_pieces, d.as_slice())
        },
        PieceType::Rook => {
            let d = rook_dirs_array();
            simple_traverse(pos, all_pieces, d.as_slice())
        },
        PieceType::Bishop => {
            let d = bishop_dirs_array();
            simple_traverse(pos, all_pieces, d.as_slice())
        },
    }
}

/// The captures of a pawn on `pos` onto the squares `ts`: onto any piece, or en passant.
pub open spec fn pseudo_pawn_takes(pos: Position, ts: Seq<Position>, board: BoardRepr, ep: Option<Position>) -> Seq<Move>
    decreases ts.len(),
{
    if ts.len() == 0 {
        Seq::empty()
    } else {
        let prev = pseudo_pawn_takes(pos, ts.drop_last(), board, ep);
        let t = ts.last();
        if board.board[t.index as int] is Some {
            prev + pawn_step_moves(pos, t, board.board[t.index as int])
        } else if ep == Some(t) {
            prev.push(Move { move_type: MoveType::EnPassant, from: pos, to: t, take: None })
        } else {
            prev
        }
    }
}

/// The pseudo-legal moves of a pawn of `side` on `pos`: captures, a step onto an empty
/// square, and from the second or seventh rank a second step.
pub open spec fn pseudo_pawn_moves(pos: Position, side: Side, board: BoardRepr, ep: Option<Position>) -> Seq<Move> {
    let yo: i8 = if side == Side::White { 1i8 } else { -1i8 };
    let takes = pseudo_pawn_takes(pos, targets(pos, pawn_offsets(side)), board, ep);
    match pos.offset_target(Offset { x: 0i8, y: yo }) {
        Some(to) => if board.board[to.index as int] is None {
            let second = if pos.row() == 1 || pos.row() == 6 {
                match pos.offset_target(Offset { x: 0i8, y: (2 * yo) as i8 }) {
                    Some(t2) => if board.board[t2.index as int] is None {
                        pawn_step_moves(pos, t2, None)
                    } else {
                        Seq::empty()
                    },
                    None => Seq::empty(),
                }
            } else {
                Seq::empty()
            };
            takes + pawn_step_moves(pos, to, None) + second
        } else {
            takes
        },
        None => takes,
    }
}

fn gen_pawn_moves(moves: &mut Vec<Move>, from: Position, to: Position, take: Option<Piece>)
    requires
        to.valid(),
    ensures
        final(moves)@ == old(moves)@ + pawn_step_moves(from, to, take),
{
    let ghost before = moves@;
    let y = to.y();
    if y == 0 || y == 7 {
        moves.push(Move::new(from, to, MoveType::Promotion(PieceType::Queen), take));
        moves.push(Move::new(from, to, MoveType::Promotion(PieceType::Rook), take));
        moves.push(Move::new(from, to, MoveType::Promotion(PieceType::Knight), take));
        moves.push(Move::new(from, to, MoveType::Promotion(PieceType::Bishop), take));
    } else {
        moves.push(Move::new(from, to, MoveType::Normal(PieceType::Pawn), take));
    }
    assert(moves@ =~= before + pawn_step_moves(from, to, take));
}

/// Appends the pseudo-legal moves of the pawn of `side` on `pos`.
pub fn find_pawn(
    moves: &mut Vec<Move>,
    pos: Position,
    side: Side,
    _allies: u64,
    _enemies: u64,
    all_square_data: &BoardRepr,
    ep_square: Option<Position>,
)
    requires
        pos.valid(),
    ensures
        final(moves)@ == old(moves)@ + pseudo_pawn_moves(pos, side, *all_square_data, ep_square),
{
    let ghost start = moves@;
    let yo: i8 = match side {
        Side::White => 1,
        Side::Black => -1,
    };
    let dirs = pawn_dirs_array(side);
    let ts = step_targets(pos, dirs.as_slice());
    let mut i: usize = 0;
    assert(ts@.take(0) =~= Seq::<Position>::empty());
    while i < ts.len()
        invariant
            i <= ts@.len(),
            all_valid(ts@),
            start == old(moves)@,
            moves@ == start + pseudo_pawn_takes(pos, ts@.take(i as int), *all_square_data, ep_square),
        decreases ts@.len() - i,
    {
        let take_pos = ts[i];
        assert(ts@.take(i + 1).drop_last() =~= ts@.take(i as int));
        assert(ts@.take(i + 1).last() == take_pos);
        if all_square_data.get(take_pos).is_some() {
            let ghost before = moves@;
            gen_pawn_moves(moves, pos, take_pos, all_square_data.get(take_pos));
            assert(moves@ =~= start + pseudo_pawn_takes(pos, ts@.take(i + 1), *all_square_data, ep_square));
        } else if ep_square == Some(take_pos) {
            moves.push(Move::new(pos, take_pos, MoveType::EnPassant, None));
        }
        i += 1;
    }
    assert(ts@.take(ts@.len() as int) =~= ts@);
    let ghost takes = moves@;
    let Some(to) = pos.with_offset(Offset::new(0, yo)) else {
        return;
    };
    if all_square_data.get(to).is_some() {
        return;
    }
    gen_pawn_moves(moves, pos, to, None);
    let ghost first = moves@;
    if pos.y() == 1 || pos.y() == 6 {
        if let Some(to2) = pos.with_offset(Offset::new(0, yo * 2)) {
            if all_square_data.get(to2).is_none() {
                gen_pawn_moves(moves, pos, to2, None);
                assert(moves@ =~= start + pseudo_pawn_moves(pos, side, *all_square_data, ep_square));
                return;
            }
        }
    }
    assert(moves@ =~= start + pseudo_pawn_moves(pos, side, *all_square_data, ep_square));
}

/// Appends the pseudo-legal moves of the knight on `pos`.
pub fn find_knight(moves: &mut Vec<Move>, pos: Position, state: &SearchBoard)
    requires
        pos.valid(),
    ensures
        final(moves)@ == old(moves)@ + step_moves(pos, targets(pos, knight_directions()), PieceType::Knight, state.state.board),
{
    let d = knight_dirs_array();
    let ts = step_targets(pos, d.as_slice());
    push_steps(moves, pos, &ts, PieceType::Knight, &state.state.board);
}

/// The castling moves of the king on `pos` of `b`: none when it is attacked; long when the
/// side to move has the right, b-, c- and d-file squares are empty and c and d are not
/// attacked; short likewise over f and g.
pub open spec fn pseudo_castles(b: SearchBoard, pos: Position) -> Seq<Move> {
    let side = b.state.side;
    let enemy = crate::board::other(side);
    let rights = if side == Side::White { b.state.white_castling } else { b.state.black_castling };
    let all_pieces = union6(b.state.white.state) | union6(b.state.black.state);
    let row = pos.row();
    let long = rights.0 && !attacked_by(b, Position::at(2, row), enemy) && !attacked_by(b, Position::at(3, row), enemy)
        && all_pieces & (Position::at(1, row).mask() | Position::at(2, row).mask() | Position::at(3, row).mask()) == 0;
    let short = rights.1 && !attacked_by(b, Position::at(5, row), enemy) && !attacked_by(b, Position::at(6, row), enemy)
        && all_pieces & (Position::at(5, row).mask() | Position::at(6, row).mask()) == 0;
    if attacked_any(b, pos) {
        Seq::empty()
    } else {
        (if long {
            seq![Move { move_type: MoveType::LongCastle, from: pos, to: Position::at(2, row), take: None }]
        } else {
            Seq::empty()
        }) + (if short {
            seq![Move { move_type: MoveType::ShortCastle, from: pos, to: Position::at(6, row), take: None }]
        } else {
            Seq::empty()
        })
    }
}

/// The pseudo-legal moves of a king on `pos` of `b`: its steps, then castling.
pub open spec fn pseudo_king_moves(b: SearchBoard, pos: Position) -> Seq<Move> {
    step_moves(pos, targets(pos, queen_directions()), PieceType::King, b.state.board) + pseudo_castles(b, pos)
}

/// Appends the pseudo-legal moves of the king on `pos`.
pub fn find_king(moves: &mut Vec<Move>, pos: Position, state: &SearchBoard)
    requires
        pos.valid(),
        kings_recorded(*state),
    ensures
        final(moves)@ == old(moves)@ + pseudo_king_moves(*state, pos),
{
    let ghost start = moves@;
    let d = queen_dirs_array();
    let ts = step_targets(pos, d.as_slice());
    push_steps(moves, pos, &ts, PieceType::King, &state.state.board);
    let ghost steps = moves@;
    let side = state.state.side();
    let castle_rights = state.state.side_castle_rights(side);
    let all_pieces = state.state.side_bitboards(Side::White).combined() | state.state.side_bitboards(Side::Black).combined();
    if !state.is_attacked(pos) {
        let c = pos.with_x(2).unwrap();
        let dd = pos.with_x(3).unwrap();
        let bb = pos.with_x(1).unwrap();
        if castle_rights.0 && !state.is_attacked_by(c, side.opposite()) && !state.is_attacked_by(dd, side.opposite())
            && all_pieces & (bb.as_mask() | c.as_mask() | dd.as_mask()) == 0 {
            moves.push(Move::new(pos, c, MoveType::LongCastle, None));
        }
        let f = pos.with_x(5).unwrap();
        let g = pos.with_x(6).unwrap();
        if castle_rights.1 && !state.is_attacked_by(f, side.opposite()) && !state.is_attacked_by(g, side.opposite())
            && all_pieces & (f.as_mask() | g.as_mask()) == 0 {
            moves.push(Move::new(pos, g, MoveType::ShortCastle, None));
        }
    }
    assert(moves@ =~= start + pseudo_king_moves(*state, pos));
}

/// The pseudo-legal moves of the piece of `side` on square `i` of `b`.
pub open spec fn pseudo_square_moves(b: SearchBoard, i: int, side: Side) -> Seq<Move> {
    let p = Position { index: i as u8 };
    let board = b.state.board;
    match board.board[i] {
        Some(pc) => if pc.side == side {
            match pc.piece_type {
                PieceType::Pawn => pseudo_pawn_moves(p, side, board, b.state.en_passant_square),
                PieceType::Rook => rays_moves(p, rook_directions(), PieceType::Rook, board),
                PieceType::Knight => step_moves(p, targets(p, knight_directions()), PieceType::Knight, board),
                PieceType::Bishop => rays_moves(p, bishop_directions(), PieceType::Bishop, board),
                PieceType::Queen => rays_moves(p, queen_directions(), PieceType::Queen, board),
                PieceType::King => pseudo_king_moves(b, p),
            }
        } else {
            Seq::empty()
        },
        None => Seq::empty(),
    }
}

/// The pseudo-legal moves of `side` on squares 0 to `n - 1`, in order.
pub open spec fn pseudo_upto(b: SearchBoard, n: int, side: Side) -> Seq<Move>
    decreases n,
{
    if n <= 0 {
        Seq::empty()
    } else {
        pseudo_upto(b, n - 1, side) + pseudo_square_moves(b, n - 1, side)
    }
}

impl SearchBoard {
    /// The pseudo-legal moves of `side`, by square from a1.
    pub fn find_all_pseudo(&self, side: Side) -> (r: Vec<Move>)
        requires
            kings_recorded(*self),
        ensures
            r@ == pseudo_upto(*self, 64, side),
    {
        let mut moves: Vec<Move> = Vec::new();
        let allies = self.state.side_bitboards(side).combined();
        let enemies = self.state.side_bitboards(side.opposite()).combined();
        let all_square_data = &self.state.board;
        let mut index: u8 = 0;
        while index < 64
            invariant
                index <= 64,
                kings_recorded(*self),
                all_square_data == &self.state.board,
                moves@ == pseudo_upto(*self, index as int, side),
            decreases 64 - index,
        {
            let i = Position::from_index(index);
            let ghost before = moves@;
            if let Some(found_piece) = self.state.get_piece_at(i) {
                if let Some(own) = found_piece.filter_side(side) {
                    match own.piece_type {
                        PieceType::Pawn => find_pawn(&mut moves, i, side, allies, enemies, all_square_data, self.state.en_passant_square),
                        PieceType::Rook => {
                            let d = rook_dirs_array();
                            traverse_all(&mut moves, d.as_slice(), i, self, PieceType::Rook);
                        },
                        PieceType::Knight => find_knight(&mut moves, i, self),
                        PieceType::Bishop => {
                            let d = bishop_dirs_array();
                            traverse_all(&mut moves, d.as_slice(), i, self, PieceType::Bishop);
                        },
                        PieceType::Queen => {
                            let d = queen_dirs_array();
                            traverse_all(&mut moves, d.as_slice(), i, self, PieceType::Queen);
                        },
                        PieceType::King => find_king(&mut moves, i, self),
                    }
                }
            }
            assert(moves@ =~= before + pseudo_square_moves(*self, index as int, side));
            index += 1;
        }
        moves
    }

    /// The squares the pieces of `attacker` attack; the recorded king of the other side does
    /// not block.
    pub fn get_attacked_pseudo(&self, attacker: Side) -> (r: u64)
        requires
            recorded_king(self.state, crate::board::other(attacker)).valid(),
        ensures
            r == attacked_pseudo(*self, attacker),
    {
        let mut accumulator: u64 = 0;
        let all_pieces = (self.state.side_bitboards(Side::White).combined() | self.state.side_bitboards(Side::Black).combined())
            & !self.state.side_king(attacker.opposite()).as_mask();
        let mut index: u8 = 0;
        while index < 64
            invariant
                index <= 64,
                all_pieces == pseudo_blockers(*self, attacker),
                accumulator == reach_upto(*self, attacker, index as int, all_pieces),
            decreases 64 - index,
        {
            let i = Position::from_index(index);
            if let Some(found_piece) = self.state.get_piece_at(i) {
                if found_piece.filter_side(attacker).is_some() {
                    accumulator = accumulator | reach_of(found_piece.role(), attacker, i, all_pieces);
                }
            }
            index += 1;
        }
        accumulator
    }

    /// Whether a piece of `enemy` attacks `pos`.
    pub fn is_attacked_by(&self, pos: Position, enemy: Side) -> (r: bool)
        requires
            pos.valid(),
            recorded_king(self.state, crate::board::other(enemy)).valid(),
        ensures
            r == attacked_by(*self, pos, enemy),
    {
        self.get_attacked_pseudo(enemy) & pos.as_mask() != 0
    }

    /// Whether the piece on `pos` is attacked by the other side; for an empty square, whether
    /// either side attacks it.
    pub fn is_attacked(&self, pos: Position) -> (r: bool)
        requires
            pos.valid(),
            kings_recorded(*self),
        ensures
            r == attacked_any(*self, pos),
    {
        match self.state.get_piece_at(pos) {
            Some(piece) => self.is_attacked_by(pos, piece.side().opposite()),
            None => self.is_attacked_by(pos, Side::White) || self.is_attacked_by(pos, Side::Black),
        }
    }
}

} // verus!
