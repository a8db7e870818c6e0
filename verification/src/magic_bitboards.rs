//! Rook and bishop moves looked up through magic hashing of the blocking pieces.
use crate::bits::{is_set, lemma_bit_ops, lemma_bits_ext, lemma_sq};
use crate::position::{Offset, Position};
use crate::hashers::{bishop_hasher_at, bishop_magic_hashers, rook_hasher_at, rook_magic_hashers};
use vstd::prelude::*;

verus! {

/// What a sliding piece can do from a square: squares it moves to without taking, squares
/// where it meets a piece, squares at the end of an unblocked ray (a piece may stand there),
/// and the union of them all.
pub struct MagicView {
    pub normal: Seq<Position>,
    pub takes: Seq<Position>,
    pub ends: Seq<Position>,
    pub bitboard: u64,
}

pub open spec fn empty_view() -> MagicView {
    MagicView { normal: Seq::empty(), takes: Seq::empty(), ends: Seq::empty(), bitboard: 0 }
}

pub open spec fn push_opt(s: Seq<Position>, p: Option<Position>) -> Seq<Position> {
    match p {
        Some(q) => s.push(q),
        None => s,
    }
}

pub open spec fn mask_opt(b: u64, p: Option<Position>) -> u64 {
    match p {
        Some(q) => b | q.mask(),
        None => b,
    }
}

/// `off` taken `i` times.
pub open spec fn step(off: Offset, i: int) -> Offset {
    Offset { x: (off.x * i) as i8, y: (off.y * i) as i8 }
}

/// Walks the ray `off` from `start`, one to six steps, after `acc`. Squares not in `blockers`
/// are passed; each passed square but the last of the walk is a plain move, the first blocked
/// square ends the walk as a take, and when no square blocks, the last passed square is an end.
pub open spec fn ray_walk(
    blockers: u64,
    start: Position,
    off: Offset,
    i: int,
    last: Option<Position>,
    acc: MagicView,
) -> MagicView
    decreases 7 - i,
{
    if i >= 7 {
        MagicView { ends: push_opt(acc.ends, last), bitboard: mask_opt(acc.bitboard, last), ..acc }
    } else {
        match start.offset_target(step(off, i)) {
            None => ray_walk(blockers, start, off, i + 1, last, acc),
            Some(next) => if blockers & next.mask() == 0 {
                ray_walk(
                    blockers,
                    start,
                    off,
                    i + 1,
                    Some(next),
                    MagicView { normal: push_opt(acc.normal, last), bitboard: mask_opt(acc.bitboard, last), ..acc },
                )
            } else {
                MagicView {
                    takes: acc.takes.push(next),
                    normal: push_opt(acc.normal, last),
                    bitboard: mask_opt(acc.bitboard | next.mask(), last),
                    ..acc
                }
            },
        }
    }
}

/// The rays `dirs`, in order, from `start` among `blockers`.
pub open spec fn slide(blockers: u64, start: Position, dirs: Seq<Offset>) -> MagicView
    decreases dirs.len(),
{
    if dirs.len() == 0 {
        empty_view()
    } else {
        ray_walk(blockers, start, dirs.last(), 1, None, slide(blockers, start, dirs.drop_last()))
    }
}

/// The rook's rays, in order.
pub open spec fn rook_dirs() -> Seq<Offset> {
    seq![Offset { x: 1i8, y: 0i8 }, Offset { x: -1i8, y: 0i8 }, Offset { x: 0i8, y: -1i8 }, Offset { x: 0i8, y: 1i8 }]
}

/// The bishop's rays, in order.
pub open spec fn bishop_dirs() -> Seq<Offset> {
    seq![Offset { x: 1i8, y: 1i8 }, Offset { x: 1i8, y: -1i8 }, Offset { x: -1i8, y: 1i8 }, Offset { x: -1i8, y: -1i8 }]
}

/// Every ray is a single step in each direction.
pub open spec fn unit_dirs(dirs: Seq<Offset>) -> bool {
    forall|d: int| 0 <= d < dirs.len() ==> -1 <= #[trigger] dirs[d].x <= 1 && -1 <= dirs[d].y <= 1
}

struct MagicDataBuilder {
    normal: Vec<Position>,
    takes: Vec<Position>,
    ends: Vec<Position>,
    bitboard: u64,
}

impl MagicDataBuilder {
    spec fn view(&self) -> MagicView {
        MagicView { normal: self.normal@, takes: self.takes@, ends: self.ends@, bitboard: self.bitboard }
    }

    fn new() -> (r: Self)
        ensures
            r.view() == empty_view(),
    {
        Self { normal: Vec::new(), takes: Vec::new(), ends: Vec::new(), bitboard: 0 }
    }

    fn add_normal(&mut self, data: Position)
        requires
            data.valid(),
        ensures
            final(self).view() == (MagicView { normal: old(self).view().normal.push(data), bitboard: old(self).bitboard | data.mask(), ..old(self).view() }),
    {
        self.normal.push(data);
        self.bitboard = self.bitboard | data.as_mask();
    }

    fn add_take(&mut self, data: Position)
        requires
            data.valid(),
        ensures
            final(self).view() == (MagicView { takes: old(self).view().takes.push(data), bitboard: old(self).bitboard | data.mask(), ..old(self).view() }),
    {
        self.takes.push(data);
        self.bitboard = self.bitboard | data.as_mask();
    }

    fn add_end(&mut self, data: Position)
        requires
            data.valid(),
        ensures
            final(self).view() == (MagicView { ends: old(self).view().ends.push(data), bitboard: old(self).bitboard | data.mask(), ..old(self).view() }),
    {
        self.ends.push(data);
        self.bitboard = self.bitboard | data.as_mask();
    }

    fn finalize(self) -> (r: MagicData)
        ensures
            r@ == self.view(),
    {
        MagicData { normal: self.normal, takes: self.takes, ends: self.ends, bitboard: self.bitboard }
    }
}

/// What a sliding piece can do from one square among given blockers.
#[derive(Debug)]
pub struct MagicData {
    pub normal: Vec<Position>,
    pub takes: Vec<Position>,
    pub ends: Vec<Position>,
    pub bitboard: u64,
}

impl View for MagicData {
    type V = MagicView;

    open spec fn view(&self) -> MagicView {
        MagicView { normal: self.normal@, takes: self.takes@, ends: self.ends@, bitboard: self.bitboard }
    }
}

fn copy_positions(v: &Vec<Position>) -> (r: Vec<Position>)
    ensures
        r@ == v@,
{
    let mut r: Vec<Position> = Vec::new();
    let mut i: usize = 0;
    while i < v.len()
        invariant
            i <= v@.len(),
            r@ == v@.take(i as int),
        decreases v@.len() - i,
    {
        r.push(v[i]);
        assert(r@ =~= v@.take(i + 1));
        i += 1;
    }
    assert(v@.take(v@.len() as int) =~= v@);
    r
}

impl MagicData {
    /// The squares where a piece may be taken: the blocked squares, then the ray ends.
    pub fn possible_takes(&self) -> (r: Vec<Position>)
        ensures
            r@ == self.takes@ + self.ends@,
    {
        let mut r = copy_positions(&self.takes);
        let mut i: usize = 0;
        let ghost t = r@;
        while i < self.ends.len()
            invariant
                i <= self.ends@.len(),
                t == self.takes@,
                r@ == t + self.ends@.take(i as int),
            decreases self.ends@.len() - i,
        {
            r.push(self.ends[i]);
            assert(r@ =~= t + self.ends@.take(i + 1));
            i += 1;
        }
        assert(self.ends@.take(self.ends@.len() as int) =~= self.ends@);
        r
    }

    /// A copy.
    pub fn duplicate(&self) -> (r: MagicData)
        ensures
            r@ == self@,
    {
        MagicData {
            normal: copy_positions(&self.normal),
            takes: copy_positions(&self.takes),
            ends: copy_positions(&self.ends),
            bitboard: self.bitboard,
        }
    }
}

/// Walks one ray into `moves`.
fn walk_ray(moves: &mut MagicDataBuilder, blocker_config: u64, start_pos: Position, offset: Offset)
    requires
        start_pos.valid(),
        -1 <= offset.x <= 1,
        -1 <= offset.y <= 1,
    ensures
        final(moves).view() == ray_walk(blocker_config, start_pos, offset, 1, None, old(moves).view()),
{
    let mut last_non_take: Option<Position> = None;
    let mut i: i8 = 1;
    while i < 7
        invariant
            1 <= i <= 7,
            start_pos.valid(),
            -1 <= offset.x <= 1,
            -1 <= offset.y <= 1,
            last_non_take matches Some(p) ==> p.valid(),
            ray_walk(blocker_config, start_pos, offset, 1, None, old(moves).view())
                == ray_walk(blocker_config, start_pos, offset, i as int, last_non_take, moves.view()),
        decreases 7 - i,
    {
        proof {
            let ii = i as int;
            assert(-6 <= offset.x * ii <= 6) by (nonlinear_arith)
                requires -1 <= offset.x <= 1, 1 <= ii <= 6;
            assert(-6 <= offset.y * ii <= 6) by (nonlinear_arith)
                requires -1 <= offset.y <= 1, 1 <= ii <= 6;
        }
        let multiplied = offset.mul(i).unwrap();
        assert(multiplied == step(offset, i as int));
        if let Some(next) = start_pos.with_offset(multiplied) {
            if blocker_config & next.as_mask() == 0 {
                if let Some(normal) = last_non_take {
                    moves.add_normal(normal);
                }
                last_non_take = Some(next);
            } else {
                moves.add_take(next);
                if let Some(normal) = last_non_take {
                    moves.add_normal(normal);
                }
                return;
            }
        }
        i += 1;
    }
    if let Some(end) = last_non_take {
        moves.add_end(end);
    }
}

/// The moves of a piece on `start_pos` that slides along `offsets` among `blocker_config`.
pub fn slide_blocker_possible_moves(blocker_config: u64, start_pos: Position, offsets: &[Offset]) -> (r: MagicData)
    requires
        start_pos.valid(),
        unit_dirs(offsets@),
    ensures
        r@ == slide(blocker_config, start_pos, offsets@),
{
    let mut moves = MagicDataBuilder::new();
    let mut d: usize = 0;
    assert(offsets@.take(0) =~= Seq::<Offset>::empty());
    while d < offsets.len()
        invariant
            d <= offsets@.len(),
            start_pos.valid(),
            unit_dirs(offsets@),
            moves.view() == slide(blocker_config, start_pos, offsets@.take(d as int)),
        decreases offsets@.len() - d,
    {
        let offset = offsets[d];
        assert(offsets@.take(d + 1).drop_last() =~= offsets@.take(d as int));
        walk_ray(&mut moves, blocker_config, start_pos, offset);
        d += 1;
    }
    assert(offsets@.take(offsets@.len() as int) =~= offsets@);
    moves.finalize()
}

/// The rook's rays, in order.
pub fn rook_offsets() -> (r: [Offset; 4])
    ensures
        r@ == rook_dirs(),
{
    let r = [Offset::new(1, 0), Offset::new(-1, 0), Offset::new(0, -1), Offset::new(0, 1)];
    assert(r@ =~= rook_dirs());
    r
}

/// The bishop's rays, in order.
pub fn bishop_offsets() -> (r: [Offset; 4])
    ensures
        r@ == bishop_dirs(),
{
    let r = [Offset::new(1, 1), Offset::new(1, -1), Offset::new(-1, 1), Offset::new(-1, -1)];
    assert(r@ =~= bishop_dirs());
    r
}


/// A ray walk only adds squares to what it starts with.
proof fn lemma_walk_grows(bl: u64, start: Position, off: Offset, i: int, last: Option<Position>, acc: MagicView, q: u64)
    requires
        q < 64,
        is_set(mask_opt(acc.bitboard, last), q),
    ensures
        is_set(ray_walk(bl, start, off, i, last, acc).bitboard, q),
    decreases 7 - i,
{
    if i < 7 {
        match start.offset_target(step(off, i)) {
            None => {
                lemma_walk_grows(bl, start, off, i + 1, last, acc, q);
            },
            Some(next) => {
                if bl & next.mask() == 0 {
                    let acc2 = MagicView { normal: push_opt(acc.normal, last), bitboard: mask_opt(acc.bitboard, last), ..acc };
                    lemma_bit_ops(acc2.bitboard, next.mask(), q);
                    lemma_walk_grows(bl, start, off, i + 1, Some(next), acc2, q);
                } else {
                    match last {
                        Some(l) => {
                            lemma_bit_ops(acc.bitboard, l.mask(), q);
                            lemma_bit_ops(acc.bitboard, next.mask(), q);
                            lemma_bit_ops(acc.bitboard | next.mask(), l.mask(), q);
                        },
                        None => {
                            lemma_bit_ops(acc.bitboard, next.mask(), q);
                        },
                    }
                }
            },
        }
    } else {
        match last {
            Some(l) => {},
            None => {},
        }
    }
}

/// A ray walk passes only squares it adds.
proof fn lemma_walk_covers_next(bl: u64, start: Position, off: Offset, i: int, last: Option<Position>, acc: MagicView)
    requires
        start.valid(),
        i < 7,
        start.offset_target(step(off, i)) is Some,
    ensures
        is_set(ray_walk(bl, start, off, i, last, acc).bitboard, start.offset_target(step(off, i))->0.index as u64),
{
    let next = start.offset_target(step(off, i))->0;
    let q = next.index as u64;
    crate::position::lemma_at_coords(start.col() + step(off, i).x, start.row() + step(off, i).y);
    lemma_sq(q, q);
    if bl & next.mask() == 0 {
        let acc2 = MagicView { normal: push_opt(acc.normal, last), bitboard: mask_opt(acc.bitboard, last), ..acc };
        lemma_bit_ops(acc2.bitboard, next.mask(), q);
        lemma_walk_grows(bl, start, off, i + 1, Some(next), acc2, q);
    } else {
        lemma_bit_ops(acc.bitboard, next.mask(), q);
        match last {
            Some(l) => {
                lemma_bit_ops(acc.bitboard | next.mask(), l.mask(), q);
            },
            None => {},
        }
    }
}

/// Two blocker sets that agree on every square a ray walk adds give the same walk.
proof fn lemma_walk_agree(k: u64, c: u64, start: Position, off: Offset, i: int, last: Option<Position>, acc: MagicView)
    requires
        start.valid(),
        forall|q: u64| q < 64 && #[trigger] is_set(ray_walk(c, start, off, i, last, acc).bitboard, q) ==> is_set(k, q) == is_set(c, q),
    ensures
        ray_walk(k, start, off, i, last, acc) == ray_walk(c, start, off, i, last, acc),
    decreases 7 - i,
{
    if i < 7 {
        match start.offset_target(step(off, i)) {
            None => {
                assert(ray_walk(c, start, off, i, last, acc) == ray_walk(c, start, off, i + 1, last, acc));
                lemma_walk_agree(k, c, start, off, i + 1, last, acc);
            },
            Some(next) => {
                lemma_walk_covers_next(c, start, off, i, last, acc);
                let q = next.index as u64;
                assert(is_set(k, q) == is_set(c, q));
                if c & next.mask() == 0 {
                    let acc2 = MagicView { normal: push_opt(acc.normal, last), bitboard: mask_opt(acc.bitboard, last), ..acc };
                    lemma_walk_agree(k, c, start, off, i + 1, Some(next), acc2);
                }
            },
        }
    }
}

/// Two blocker sets that agree on every square a slide adds give the same slide.
pub proof fn lemma_slide_agree(k: u64, c: u64, start: Position, dirs: Seq<Offset>)
    requires
        start.valid(),
        forall|q: u64| q < 64 && #[trigger] is_set(slide(c, start, dirs).bitboard, q) ==> is_set(k, q) == is_set(c, q),
    ensures
        slide(k, start, dirs) == slide(c, start, dirs),
    decreases dirs.len(),
{
    if dirs.len() > 0 {
        let prev = slide(c, start, dirs.drop_last());
        assert(slide(c, start, dirs) == ray_walk(c, start, dirs.last(), 1, None, prev));
        assert forall|q: u64| q < 64 && #[trigger] is_set(prev.bitboard, q) implies is_set(k, q) == is_set(c, q) by {
            lemma_walk_grows(c, start, dirs.last(), 1, None, prev, q);
        }
        lemma_slide_agree(k, c, start, dirs.drop_last());
        lemma_walk_agree(k, c, start, dirs.last(), 1, None, prev);
    }
}

/// The squares whose blockers matter to a rook on `pos`: its file and rank without the edges
/// and without `pos`, rank by rank from the second, file square first.
pub open spec fn rook_index_items(pos: Position, i: int) -> Seq<u8> {
    let a = if i != pos.row() { seq![Position::at(pos.col(), i).index] } else { Seq::empty() };
    let b = if i != pos.col() { seq![Position::at(i, pos.row()).index] } else { Seq::empty() };
    a + b
}

pub open spec fn rook_indices_upto(pos: Position, n: int) -> Seq<u8>
    decreases n,
{
    if n <= 1 {
        Seq::empty()
    } else {
        rook_indices_upto(pos, n - 1) + rook_index_items(pos, n - 1)
    }
}

/// The squares whose blockers matter to a bishop on `pos`: its diagonals without the edges.
pub open spec fn bishop_index_items(pos: Position, i: int) -> Seq<u8> {
    let yo = pos.col() - i;
    let y1 = pos.row() - yo;
    let y2 = pos.row() + yo;
    let a = if 0 < y1 < 7 && y1 != y2 { seq![(y1 * 8 + i) as u8] } else { Seq::empty() };
    let b = if 0 < y2 < 7 && y1 != y2 { seq![(y2 * 8 + i) as u8] } else { Seq::empty() };
    a + b
}

pub open spec fn bishop_indices_upto(pos: Position, n: int) -> Seq<u8>
    decreases n,
{
    if n <= 1 {
        Seq::empty()
    } else {
        bishop_indices_upto(pos, n - 1) + bishop_index_items(pos, n - 1)
    }
}

/// The union of the masks of squares given by index.
pub open spec fn index_mask(s: Seq<u8>) -> u64
    decreases s.len(),
{
    if s.len() == 0 {
        0
    } else {
        index_mask(s.drop_last()) | (1u64 << (s.last() as u64))
    }
}

/// The blockers that matter to a rook on `pos`.
pub open spec fn rook_relevant(pos: Position) -> u64 {
    index_mask(rook_indices_upto(pos, 7))
}

/// The blockers that matter to a bishop on `pos`.
pub open spec fn bishop_relevant(pos: Position) -> u64 {
    index_mask(bishop_indices_upto(pos, 7))
}

/// What a rook on `pos` can do among `blockers`.
pub open spec fn rook_attack(pos: Position, blockers: u64) -> MagicView {
    slide(blockers & rook_relevant(pos), pos, rook_dirs())
}

/// What a bishop on `pos` can do among `blockers`.
pub open spec fn bishop_attack(pos: Position, blockers: u64) -> MagicView {
    slide(blockers & bishop_relevant(pos), pos, bishop_dirs())
}

/// The squares whose blockers matter to a rook on `pos`.
fn rook_indices(pos: Position) -> (r: Vec<u8>)
    requires
        pos.valid(),
    ensures
        r@ == rook_indices_upto(pos, 7),
        r@.len() <= 12,
        forall|j: int| 0 <= j < r@.len() ==> #[trigger] r@[j] < 64,
{
    let x = pos.x();
    let y = pos.y();
    let mut indices: Vec<u8> = Vec::new();
    let mut i: u8 = 1;
    while i < 7
        invariant
            1 <= i <= 7,
            pos.valid(),
            x == pos.col(),
            y == pos.row(),
            indices@ == rook_indices_upto(pos, i as int),
            indices@.len() <= 2 * (i - 1),
            forall|j: int| 0 <= j < indices@.len() ==> #[trigger] indices@[j] < 64,
        decreases 7 - i,
    {
        let ghost before = indices@;
        if i != y {
            indices.push(pos.with_y(i).unwrap().index());
        }
        if i != x {
            indices.push(pos.with_x(i).unwrap().index());
        }
        assert(indices@ =~= before + rook_index_items(pos, i as int));
        i += 1;
    }
    indices
}

/// The squares whose blockers matter to a bishop on `pos`.
fn bishop_indices(pos: Position) -> (r: Vec<u8>)
    requires
        pos.valid(),
    ensures
        r@ == bishop_indices_upto(pos, 7),
        r@.len() <= 12,
        forall|j: int| 0 <= j < r@.len() ==> #[trigger] r@[j] < 64,
{
    let mut indices: Vec<u8> = Vec::new();
    let x = pos.x() as i8;
    let y = pos.y() as i8;
    let mut i: i8 = 1;
    while i < 7
        invariant
            1 <= i <= 7,
            pos.valid(),
            x == pos.col(),
            y == pos.row(),
            indices@ == bishop_indices_upto(pos, i as int),
            indices@.len() <= 2 * (i - 1),
            forall|j: int| 0 <= j < indices@.len() ==> #[trigger] indices@[j] < 64,
        decreases 7 - i,
    {
        let ghost before = indices@;
        let yo = x - i;
        let y1 = y - yo;
        let y2 = y + yo;
        if y1 > 0 && y1 < 7 && y1 != y2 {
            indices.push((y1 * 8 + i) as u8);
        }
        if y2 > 0 && y2 < 7 && y1 != y2 {
            indices.push((y2 * 8 + i) as u8);
        }
        assert(indices@ =~= before + bishop_index_items(pos, i as int));
        i += 1;
    }
    indices
}

/// The union of the masks of the squares `indices`.
fn mask_of_indices(indices: &Vec<u8>) -> (r: u64)
    requires
        forall|j: int| 0 <= j < indices@.len() ==> #[trigger] indices@[j] < 64,
    ensures
        r == index_mask(indices@),
{
    let mut r: u64 = 0;
    let mut k: usize = 0;
    assert(indices@.take(0) =~= Seq::<u8>::empty());
    while k < indices.len()
        invariant
            k <= indices@.len(),
            forall|j: int| 0 <= j < indices@.len() ==> #[trigger] indices@[j] < 64,
            r == index_mask(indices@.take(k as int)),
        decreases indices@.len() - k,
    {
        assert(indices@.take(k + 1).drop_last() =~= indices@.take(k as int));
        r = r | (1u64 << indices[k]);
        k += 1;
    }
    assert(indices@.take(indices@.len() as int) =~= indices@);
    r
}

/// The squares among the first `k` of `indices` whose positions are one bits of `c`.
pub open spec fn blockers_upto(indices: Seq<u8>, c: u32, k: int) -> u64
    decreases k,
{
    if k <= 0 {
        0
    } else {
        let prev = blockers_upto(indices, c, k - 1);
        if c & (1u32 << ((k - 1) as u32)) != 0 {
            prev | (1u64 << indices[k - 1])
        } else {
            prev
        }
    }
}

/// Every subset of `indices`, one per number below two to the number of squares: the set for
/// a number holds the squares whose positions are the number's one bits.
pub open spec fn subsets(indices: Seq<u8>) -> Seq<u64> {
    Seq::new((1u32 << (indices.len() as u32)) as nat, |c: int| blockers_upto(indices, c as u32, indices.len() as int))
}

/// Every subset of `indices`; see `subsets`.
fn generate_blockers(indices: &Vec<u8>) -> (r: Vec<u64>)
    requires
        indices@.len() <= 12,
        forall|j: int| 0 <= j < indices@.len() ==> #[trigger] indices@[j] < 64,
    ensures
        r@ == subsets(indices@),
        r@.len() >= 1,
{
    let n = indices.len();
    let count: u32 = 1u32 << (n as u32);
    proof {
        assert(1u32 << (n as u32) >= 1) by (bit_vector)
            requires n <= 12;
    }
    let mut blockers: Vec<u64> = Vec::new();
    let mut combination: u32 = 0;
    while combination < count
        invariant
            n == indices@.len(),
            forall|j: int| 0 <= j < indices@.len() ==> #[trigger] indices@[j] < 64,
            n <= 12,
            count == (1u32 << (n as u32)),
            combination <= count,
            count >= 1,
            blockers@ == subsets(indices@).take(combination as int),
        decreases count - combination,
    {
        let mut bitboard: u64 = 0;
        let mut index: usize = 0;
        while index < n
            invariant
                n == indices@.len(),
                index <= n,
                n <= 12,
                forall|j: int| 0 <= j < indices@.len() ==> #[trigger] indices@[j] < 64,
                bitboard == blockers_upto(indices@, combination, index as int),
            decreases n - index,
        {
            if combination & (1u32 << (index as u32)) != 0 {
                bitboard = bitboard | (1u64 << indices[index]);
            }
            index += 1;
        }
        blockers.push(bitboard);
        assert(blockers@ =~= subsets(indices@).take(combination + 1));
        combination += 1;
    }
    assert(subsets(indices@).take(count as int) =~= subsets(indices@));
    blockers
}

/// A magic hash: the relevant blockers, times the magic number, shifted down.
#[derive(Clone, Copy, Debug)]
pub struct MagicHasher {
    pub premask: u64,
    pub magic: u64,
    pub shift: u8,
}

impl MagicHasher {
    pub open spec fn hash_of(self, blockers: u64) -> u64 {
        (blockers & self.premask).wrapping_mul(self.magic) >> (self.shift as u64)
    }

    pub fn new(premask: u64, magic: u64, shift: u8) -> (r: Self)
        ensures
            r == (MagicHasher { premask, magic, shift }),
    {
        Self { premask, magic, shift }
    }

    fn hash(&self, blockers: u64) -> (r: u64)
        requires
            self.shift < 64,
        ensures
            r == self.hash_of(blockers),
    {
        let b = blockers & self.premask;
        let b = b.wrapping_mul(self.magic);
        b >> (self.shift as u64)
    }
}

/// Whether `hasher` makes a table for a piece on `pos` sliding along `dirs` over the blockers
/// `configs`: a shift below 64, every hash below two to the twentieth, and blockers that share
/// a hash reaching the same squares.
pub open spec fn magic_for(hasher: MagicHasher, pos: Position, dirs: Seq<Offset>, configs: Seq<u64>) -> bool {
    &&& hasher.shift < 64
    &&& forall|k: int| 0 <= k < configs.len() ==> hasher.hash_of(#[trigger] configs[k]) < 0x10_0000
    &&& forall|a: int, b: int| 0 <= a < configs.len() && 0 <= b < configs.len()
        && hasher.hash_of(#[trigger] configs[a]) == hasher.hash_of(#[trigger] configs[b])
        ==> slide(configs[a], pos, dirs).bitboard == slide(configs[b], pos, dirs).bitboard
}

/// The moves of a sliding piece on one square for every hash of its blockers, each with the
/// blockers it was computed for.
struct SquareMagic {
    moves: Vec<Option<(u64, MagicData)>>,
    hasher: MagicHasher,
}

impl SquareMagic {
    /// Every entry holds the slide of the blockers it records.
    spec fn wf(&self, pos: Position, dirs: Seq<Offset>) -> bool {
        &&& self.hasher.shift < 64
        &&& forall|i: int| 0 <= i < self.moves@.len() ==> match #[trigger] self.moves@[i] {
            Some((c, d)) => d@ == slide(c, pos, dirs),
            None => true,
        }
    }

    /// The table for a piece on `pos` sliding along `dirs`, filled for `blocker_configs`;
    /// nothing unless `hasher` is magic for them (see `magic_for`).
    fn new(pos: Position, hasher: MagicHasher, dirs: &[Offset], blocker_configs: &Vec<u64>) -> (r: Option<Self>)
        requires
            pos.valid(),
            unit_dirs(dirs@),
            blocker_configs@.len() >= 1,
        ensures
            r is Some <==> magic_for(hasher, pos, dirs@, blocker_configs@),
            r matches Some(sm) ==> sm.wf(pos, dirs@) && sm.hasher == hasher,
    {
        let ghost cs = blocker_configs@;
        if hasher.shift >= 64 {
            return None;
        }
        let mut highest: u64 = 0;
        let mut i: usize = 0;
        while i < blocker_configs.len()
            invariant
                i <= cs.len(),
                cs == blocker_configs@,
                hasher.shift < 64,
                forall|k: int| 0 <= k < i ==> hasher.hash_of(#[trigger] cs[k]) <= highest,
                highest == 0 || exists|k: int| 0 <= k < i && hasher.hash_of(#[trigger] cs[k]) == highest,
            decreases cs.len() - i,
        {
            let h = hasher.hash(blocker_configs[i]);
            if h > highest {
                highest = h;
            }
            i += 1;
        }
        if highest >= 0x10_0000 {
            proof {
                let k = choose|k: int| 0 <= k < cs.len() && hasher.hash_of(#[trigger] cs[k]) == highest;
                assert(hasher.hash_of(cs[k]) >= 0x10_0000);
            }
            return None;
        }
        let mut magic_moves: Vec<Option<(u64, MagicData)>> = Vec::new();
        let mut j: u64 = 0;
        while j <= highest
            invariant
                j <= highest + 1,
                highest < 0x10_0000,
                magic_moves@.len() == j,
                forall|k: int| 0 <= k < magic_moves@.len() ==> #[trigger] magic_moves@[k] is None,
            decreases highest + 1 - j,
        {
            magic_moves.push(None);
            j += 1;
        }
        let mut i: usize = 0;
        while i < blocker_configs.len()
            invariant
                i <= cs.len(),
                cs == blocker_configs@,
                hasher.shift < 64,
                pos.valid(),
                unit_dirs(dirs@),
                highest < 0x10_0000,
                magic_moves@.len() == highest + 1,
                forall|k: int| 0 <= k < cs.len() ==> hasher.hash_of(#[trigger] cs[k]) <= highest,
                forall|k: int| 0 <= k < magic_moves@.len() ==> match #[trigger] magic_moves@[k] {
                    Some((c, d)) => d@ == slide(c, pos, dirs@)
                        && exists|a: int| 0 <= a < i && #[trigger] cs[a] == c && hasher.hash_of(c) == k,
                    None => true,
                },
                forall|a: int| 0 <= a < i ==> match #[trigger] magic_moves@[hasher.hash_of(cs[a]) as int] {
                    Some((c, d)) => d.bitboard == slide(cs[a], pos, dirs@).bitboard,
                    None => false,
                },
                forall|a: int, b: int| 0 <= a < i && 0 <= b < i
                    && hasher.hash_of(#[trigger] cs[a]) == hasher.hash_of(#[trigger] cs[b])
                    ==> slide(cs[a], pos, dirs@).bitboard == slide(cs[b], pos, dirs@).bitboard,
            decreases cs.len() - i,
        {
            let blocker = blocker_configs[i];
            let possible_move = slide_blocker_possible_moves(blocker, pos, dirs);
            let h = hasher.hash(blocker);
            assert(hasher.hash_of(cs[i as int]) <= highest);
            let slot = h as usize;
            let ghost before = magic_moves@;
            let collided_bitboard: Option<u64> = match &magic_moves[slot] {
                Some((_, collided)) => Some(collided.bitboard),
                None => None,
            };
            match collided_bitboard {
                Some(b) => {
                    let ghost a0 = choose|a: int| 0 <= a < i && #[trigger] cs[a] == before[slot as int].unwrap().0
                        && hasher.hash_of(before[slot as int].unwrap().0) == slot;
                    if b != possible_move.bitboard {
                        proof {
                            assert(hasher.hash_of(cs[a0]) == hasher.hash_of(cs[i as int]));
                        }
                        return None;
                    }
                    proof {
                        assert forall|a: int, b: int| 0 <= a < i + 1 && 0 <= b < i + 1
                            && hasher.hash_of(#[trigger] cs[a]) == hasher.hash_of(#[trigger] cs[b])
                            implies slide(cs[a], pos, dirs@).bitboard == slide(cs[b], pos, dirs@).bitboard by {
                            if a == i && b < i {
                                assert(hasher.hash_of(cs[a0]) == hasher.hash_of(cs[b]));
                            } else if b == i && a < i {
                                assert(hasher.hash_of(cs[a0]) == hasher.hash_of(cs[a]));
                            }
                        }
                    }
                },
                None => {
                    magic_moves.set(slot, Some((blocker, possible_move)));
                    proof {
                        assert forall|a: int| 0 <= a < i implies hasher.hash_of(#[trigger] cs[a]) != slot by {
                            assert(before[hasher.hash_of(cs[a]) as int] is Some);
                        }
                        assert forall|k: int| 0 <= k < magic_moves@.len() implies match #[trigger] magic_moves@[k] {
                            Some((c, d)) => d@ == slide(c, pos, dirs@)
                                && exists|a: int| 0 <= a < i + 1 && #[trigger] cs[a] == c && hasher.hash_of(c) == k,
                            None => true,
                        } by {
                            if k == slot {
                                assert(cs[i as int] == blocker);
                            } else if let Some((c, d)) = before[k] {
                                let a = choose|a: int| 0 <= a < i && #[trigger] cs[a] == c && hasher.hash_of(c) == k;
                                assert(0 <= a < i + 1 && cs[a] == c);
                            }
                        }
                        assert forall|a: int| 0 <= a < i + 1 implies match #[trigger] magic_moves@[hasher.hash_of(cs[a]) as int] {
                            Some((c, d)) => d.bitboard == slide(cs[a], pos, dirs@).bitboard,
                            None => false,
                        } by {
                            if a < i {
                                assert(hasher.hash_of(cs[a]) != slot);
                            }
                        }
                        assert forall|a: int, b: int| 0 <= a < i + 1 && 0 <= b < i + 1
                            && hasher.hash_of(#[trigger] cs[a]) == hasher.hash_of(#[trigger] cs[b])
                            implies slide(cs[a], pos, dirs@).bitboard == slide(cs[b], pos, dirs@).bitboard by {
                            if a == i && b < i {
                                assert(hasher.hash_of(cs[b]) != slot);
                            } else if b == i && a < i {
                                assert(hasher.hash_of(cs[a]) != slot);
                            }
                        }
                    }
                },
            }
            i += 1;
        }
        Some(SquareMagic { moves: magic_moves, hasher })
    }

    /// The moves among `blockers`: the table's entry when its recorded blockers agree with
    /// these on every square the entry reaches, else computed afresh.
    fn get(&self, pos: Position, dirs: &[Offset], blockers: u64) -> (r: MagicData)
        requires
            pos.valid(),
            unit_dirs(dirs@),
            self.wf(pos, dirs@),
        ensures
            r@ == slide(blockers & self.hasher.premask, pos, dirs@),
    {
        let key = blockers & self.hasher.premask;
        let h = self.hasher.hash(blockers);
        if (h as usize) < self.moves.len() {
            if let Some((c, d)) = &self.moves[h as usize] {
                if key & d.bitboard == *c & d.bitboard {
                    proof {
                        assert forall|q: u64| q < 64 && #[trigger] is_set(slide(*c, pos, dirs@).bitboard, q)
                            implies is_set(key, q) == is_set(*c, q) by {
                            lemma_bit_ops(key, d.bitboard, q);
                            lemma_bit_ops(*c, d.bitboard, q);
                        }
                        lemma_slide_agree(key, *c, pos, dirs@);
                    }
                    return d.duplicate();
                }
            }
        }
        slide_blocker_possible_moves(key, pos, dirs)
    }
}

/// Whether the rook hasher `rook` and bishop hasher `bishop` of square `i` look at exactly the
/// blockers that matter there and are magic for every subset of them.
pub open spec fn hashers_ok_at(rook: MagicHasher, bishop: MagicHasher, i: int) -> bool {
    let pos = Position { index: i as u8 };
    &&& rook.premask == rook_relevant(pos)
    &&& magic_for(rook, pos, rook_dirs(), subsets(rook_indices_upto(pos, 7)))
    &&& bishop.premask == bishop_relevant(pos)
    &&& magic_for(bishop, pos, bishop_dirs(), subsets(bishop_indices_upto(pos, 7)))
}

/// Whether the hashers of square `i` among `rook` and `bishop` are magic; see `hashers_ok_at`.
pub open spec fn square_hashers_ok(rook: [MagicHasher; 64], bishop: [MagicHasher; 64], i: int) -> bool {
    hashers_ok_at(rook[i], bishop[i], i)
}

/// Whether the hashers of every square are magic.
pub open spec fn hashers_magic(rook: [MagicHasher; 64], bishop: [MagicHasher; 64]) -> bool {
    forall|i: int| 0 <= i < 64 ==> #[trigger] square_hashers_ok(rook, bishop, i)
}

/// Whether the built-in hashers of every square are magic.
pub open spec fn builtin_hashers_magic() -> bool {
    forall|i: int| 0 <= i < 64 ==> #[trigger] hashers_ok_at(rook_hasher_at(i), bishop_hasher_at(i), i)
}

/// The rook and bishop tables of every square.
pub struct MagicMover {
    rook_magics: Vec<SquareMagic>,
    bishop_magics: Vec<SquareMagic>,
}

impl MagicMover {
    /// Each square has a table whose hash looks at exactly the blockers that matter there.
    pub closed spec fn wf(&self) -> bool {
        &&& self.rook_magics@.len() == 64
        &&& self.bishop_magics@.len() == 64
        &&& forall|i: int| 0 <= i < 64 ==> (#[trigger] self.rook_magics@[i]).wf(Position { index: i as u8 }, rook_dirs())
            && self.rook_magics@[i].hasher.premask == rook_relevant(Position { index: i as u8 })
        &&& forall|i: int| 0 <= i < 64 ==> (#[trigger] self.bishop_magics@[i]).wf(Position { index: i as u8 }, bishop_dirs())
            && self.bishop_magics@[i].hasher.premask == bishop_relevant(Position { index: i as u8 })
    }

    /// The tables for the given hashers; nothing unless they are magic (see
    /// `hashers_magic`).
    pub fn init(rook_hashers: [MagicHasher; 64], bishop_hashers: [MagicHasher; 64]) -> (r: Option<Self>)
        ensures
            r is Some <==> hashers_magic(rook_hashers, bishop_hashers),
            r matches Some(m) ==> m.wf(),
    {
        let rdirs = rook_offsets();
        let bdirs = bishop_offsets();
        let mut rook_magics: Vec<SquareMagic> = Vec::new();
        let mut bishop_magics: Vec<SquareMagic> = Vec::new();
        let mut index: u8 = 0;
        while index < 64
            invariant
                index <= 64,
                rdirs@ == rook_dirs(),
                bdirs@ == bishop_dirs(),
                rook_magics@.len() == index,
                bishop_magics@.len() == index,
                forall|i: int| 0 <= i < index ==> (#[trigger] rook_magics@[i]).wf(Position { index: i as u8 }, rook_dirs())
                    && rook_magics@[i].hasher.premask == rook_relevant(Position { index: i as u8 }),
                forall|i: int| 0 <= i < index ==> (#[trigger] bishop_magics@[i]).wf(Position { index: i as u8 }, bishop_dirs())
                    && bishop_magics@[i].hasher.premask == bishop_relevant(Position { index: i as u8 }),
                forall|i: int| 0 <= i < index ==> #[trigger] square_hashers_ok(rook_hashers, bishop_hashers, i),
            decreases 64 - index,
        {
            let pos = Position::from_index(index);
            let ri = rook_indices(pos);
            if mask_of_indices(&ri) != rook_hashers[index as usize].premask {
                assert(!square_hashers_ok(rook_hashers, bishop_hashers, index as int));
                return None;
            }
            let rb = generate_blockers(&ri);
            let rook = match SquareMagic::new(pos, rook_hashers[index as usize], rdirs.as_slice(), &rb) {
                Some(sm) => sm,
                None => {
                    assert(!square_hashers_ok(rook_hashers, bishop_hashers, index as int));
                    return None;
                },
            };
            let bi = bishop_indices(pos);
            if mask_of_indices(&bi) != bishop_hashers[index as usize].premask {
                assert(!square_hashers_ok(rook_hashers, bishop_hashers, index as int));
                return None;
            }
            let bb = generate_blockers(&bi);
            let bishop = match SquareMagic::new(pos, bishop_hashers[index as usize], bdirs.as_slice(), &bb) {
                Some(sm) => sm,
                None => {
                    assert(!square_hashers_ok(rook_hashers, bishop_hashers, index as int));
                    return None;
                },
            };
            assert(square_hashers_ok(rook_hashers, bishop_hashers, index as int));
            rook_magics.push(rook);
            bishop_magics.push(bishop);
            index += 1;
        }
        Some(Self { rook_magics, bishop_magics })
    }

    /// What a rook on `pos` can do among `blockers`.
    pub fn get_rook(&self, pos: Position, blockers: u64) -> (r: MagicData)
        requires
            self.wf(),
            pos.valid(),
        ensures
            r@ == rook_attack(pos, blockers),
    {
        let dirs = rook_offsets();
        self.rook_magics[pos.index as usize].get(pos, dirs.as_slice(), blockers)
    }

    /// What a bishop on `pos` can do among `blockers`.
    pub fn get_bishop(&self, pos: Position, blockers: u64) -> (r: MagicData)
        requires
            self.wf(),
            pos.valid(),
        ensures
            r@ == bishop_attack(pos, blockers),
    {
        let dirs = bishop_offsets();
        self.bishop_magics[pos.index as usize].get(pos, dirs.as_slice(), blockers)
    }
}


/// Builds the rook and bishop tables from the built-in magic numbers; nothing unless they are
/// magic.
pub fn init_magic_mover() -> (r: Option<MagicMover>)
    ensures
        r is Some <==> builtin_hashers_magic(),
        r matches Some(m) ==> m.wf(),
{
    let rh = rook_magic_hashers();
    let bh = bishop_magic_hashers();
    proof {
        if hashers_magic(rh, bh) {
            assert forall|i: int| 0 <= i < 64 implies #[trigger] hashers_ok_at(rook_hasher_at(i), bishop_hasher_at(i), i) by {
                assert(square_hashers_ok(rh, bh, i));
                assert(rh[i] == rook_hasher_at(i) && bh[i] == bishop_hasher_at(i));
            }
        }
        if builtin_hashers_magic() {
            assert forall|i: int| 0 <= i < 64 implies #[trigger] square_hashers_ok(rh, bh, i) by {
                assert(hashers_ok_at(rook_hasher_at(i), bishop_hasher_at(i), i));
                assert(rh[i] == rook_hasher_at(i) && bh[i] == bishop_hasher_at(i));
            }
        }
    }
    MagicMover::init(rh, bh)
}


/// Every square of a sequence lies on the board.
pub open spec fn all_valid(s: Seq<Position>) -> bool {
    forall|j: int| 0 <= j < s.len() ==> (#[trigger] s[j]).valid()
}

/// Every square of a view lies on the board.
pub open spec fn view_valid(v: MagicView) -> bool {
    all_valid(v.normal) && all_valid(v.takes) && all_valid(v.ends)
}

proof fn lemma_push_valid(s: Seq<Position>, p: Option<Position>)
    requires
        all_valid(s),
        p matches Some(q) ==> q.valid(),
    ensures
        all_valid(push_opt(s, p)),
{
    match p {
        Some(q) => {
            assert forall|j: int| 0 <= j < s.push(q).len() implies (#[trigger] s.push(q)[j]).valid() by {
                if j < s.len() {
                    assert(s.push(q)[j] == s[j]);
                }
            }
        },
        None => {},
    }
}

/// A ray walk only records squares on the board.
proof fn lemma_walk_valid(bl: u64, start: Position, off: Offset, i: int, last: Option<Position>, acc: MagicView)
    requires
        start.valid(),
        last matches Some(l) ==> l.valid(),
        view_valid(acc),
    ensures
        view_valid(ray_walk(bl, start, off, i, last, acc)),
    decreases 7 - i,
{
    if i < 7 {
        match start.offset_target(step(off, i)) {
            None => {
                lemma_walk_valid(bl, start, off, i + 1, last, acc);
            },
            Some(next) => {
                crate::position::lemma_at_coords(start.col() + step(off, i).x, start.row() + step(off, i).y);
                lemma_push_valid(acc.normal, last);
                if bl & next.mask() == 0 {
                    let acc2 = MagicView { normal: push_opt(acc.normal, last), bitboard: mask_opt(acc.bitboard, last), ..acc };
                    lemma_walk_valid(bl, start, off, i + 1, Some(next), acc2);
                } else {
                    lemma_push_valid(acc.takes, Some(next));
                }
            },
        }
    } else {
        lemma_push_valid(acc.ends, last);
    }
}

proof fn lemma_slide_valid(bl: u64, start: Position, dirs: Seq<Offset>)
    requires
        start.valid(),
    ensures
        view_valid(slide(bl, start, dirs)),
    decreases dirs.len(),
{
    if dirs.len() > 0 {
        lemma_slide_valid(bl, start, dirs.drop_last());
        lemma_walk_valid(bl, start, dirs.last(), 1, None, slide(bl, start, dirs.drop_last()));
    }
}

/// Every square a rook or bishop can reach lies on the board.
pub proof fn lemma_attack_valid(rook: bool, pos: Position, blockers: u64)
    requires
        pos.valid(),
    ensures
        ({
            let v = if rook { rook_attack(pos, blockers) } else { bishop_attack(pos, blockers) };
            &&& view_valid(v)
            &&& all_valid(v.takes + v.ends)
        }),
{
    if rook {
        lemma_slide_valid(blockers & rook_relevant(pos), pos, rook_dirs());
    } else {
        lemma_slide_valid(blockers & bishop_relevant(pos), pos, bishop_dirs());
    }
    let v = if rook { rook_attack(pos, blockers) } else { bishop_attack(pos, blockers) };
    assert forall|j: int| 0 <= j < (v.takes + v.ends).len() implies (#[trigger] (v.takes + v.ends)[j]).valid() by {
        if j < v.takes.len() {
            assert((v.takes + v.ends)[j] == v.takes[j]);
        } else {
            assert((v.takes + v.ends)[j] == v.ends[j - v.takes.len()]);
        }
    }
}

/// The squares `test_rook_indices` looks at: the corners, edge middles and centre, row by row.
pub open spec fn rook_sample_squares() -> Seq<Position> {
    seq![Position::at(0, 0), Position::at(4, 0), Position::at(7, 0), Position::at(0, 4), Position::at(4, 4),
        Position::at(7, 4), Position::at(0, 7), Position::at(4, 7), Position::at(7, 7)]
}

/// The rook blockers expected on each of `rook_sample_squares`.
pub open spec fn rook_sample_answers() -> Seq<u64> {
    seq![0x101010101017eu64, 0x1010101010106e, 0x8080808080807e, 0x1017e01010100, 0x10106e10101000,
        0x80807e80808000, 0x7e01010101010100, 0x6e10101010101000, 0x7e80808080808000]
}

/// Whether the rook blockers of each sample square are the expected ones.
pub fn test_rook_indices() -> (r: bool)
    ensures
        r == forall|j: int| 0 <= j < 9 ==> #[trigger] rook_relevant(rook_sample_squares()[j]) == rook_sample_answers()[j],
{
    let test_states = [Position::new(0, 0), Position::new(4, 0), Position::new(7, 0), Position::new(0, 4),
        Position::new(4, 4), Position::new(7, 4), Position::new(0, 7), Position::new(4, 7), Position::new(7, 7)];
    let answers: [u64; 9] = [0x101010101017e, 0x1010101010106e, 0x8080808080807e, 0x1017e01010100, 0x10106e10101000,
        0x80807e80808000, 0x7e01010101010100, 0x6e10101010101000, 0x7e80808080808000];
    assert(test_states@ =~= rook_sample_squares());
    assert(answers@ =~= rook_sample_answers());
    let mut i: usize = 0;
    while i < 9
        invariant
            i <= 9,
            test_states@ == rook_sample_squares(),
            answers@ == rook_sample_answers(),
            forall|j: int| 0 <= j < i ==> #[trigger] rook_relevant(rook_sample_squares()[j]) == rook_sample_answers()[j],
        decreases 9 - i,
    {
        let test = test_states[i];
        assert(test == rook_sample_squares()[i as int]);
        let indices = rook_indices(test);
        if mask_of_indices(&indices) != answers[i] {
            assert(rook_relevant(rook_sample_squares()[i as int]) != rook_sample_answers()[i as int]);
            return false;
        }
        i += 1;
    }
    true
}

/// How many squares a view lists: moves, takes and ends.
pub open spec fn view_size(v: MagicView) -> int {
    (v.normal.len() + v.takes.len() + v.ends.len()) as int
}

proof fn lemma_ray_walk_size(blockers: u64, start: Position, off: Offset, i: int, last: Option<Position>, acc: MagicView)
    requires
        1 <= i <= 7,
    ensures
        view_size(ray_walk(blockers, start, off, i, last, acc)) <= view_size(acc) + (if last is Some { 1int } else { 0int }) + (7 - i),
    decreases 7 - i,
{
    if i < 7 {
        match start.offset_target(step(off, i)) {
            None => lemma_ray_walk_size(blockers, start, off, i + 1, last, acc),
            Some(next) => if blockers & next.mask() == 0 {
                let acc2 = MagicView { normal: push_opt(acc.normal, last), bitboard: mask_opt(acc.bitboard, last), ..acc };
                lemma_ray_walk_size(blockers, start, off, i + 1, Some(next), acc2);
            },
        }
    }
}

/// A slide over `dirs` lists at most six squares per ray.
pub proof fn lemma_slide_size(blockers: u64, start: Position, dirs: Seq<Offset>)
    ensures
        view_size(slide(blockers, start, dirs)) <= 6 * dirs.len(),
    decreases dirs.len(),
{
    if dirs.len() > 0 {
        lemma_slide_size(blockers, start, dirs.drop_last());
        lemma_ray_walk_size(blockers, start, dirs.last(), 1, None, slide(blockers, start, dirs.drop_last()));
    }
}

} // verus!
