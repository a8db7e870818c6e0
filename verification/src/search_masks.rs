//! Precomputed target squares of knights, kings and capturing pawns.
use crate::bits::{is_set, lemma_bit_ops, lemma_sq};
use crate::piece::Side;
use crate::position::{Offset, Position};
use vstd::prelude::*;

verus! {

/// The squares a piece on one square reaches by fixed steps, their masks and their union.
pub struct SingularData {
    pub positions: Vec<Position>,
    pub parts: Vec<u64>,
    pub sum: u64,
}

/// The squares that the steps `offs`, in order, reach from `p` on the board.
pub open spec fn targets(p: Position, offs: Seq<Offset>) -> Seq<Position>
    decreases offs.len(),
{
    if offs.len() == 0 {
        Seq::empty()
    } else {
        let prev = targets(p, offs.drop_last());
        match p.offset_target(offs.last()) {
            Some(t) => prev.push(t),
            None => prev,
        }
    }
}

/// The masks of squares.
pub open spec fn masks_of(ps: Seq<Position>) -> Seq<u64> {
    ps.map_values(|p: Position| p.mask())
}

/// The union of bitboards.
pub open spec fn or_all(s: Seq<u64>) -> u64
    decreases s.len(),
{
    if s.len() == 0 {
        0
    } else {
        or_all(s.drop_last()) | s.last()
    }
}

/// The knight's steps, in the order they are tried.
pub open spec fn knight_offsets() -> Seq<Offset> {
    seq![Offset { x: -2i8, y: -1i8 }, Offset { x: -2i8, y: 1i8 }, Offset { x: -1i8, y: 2i8 }, Offset { x: 1i8, y: 2i8 },
        Offset { x: 2i8, y: 1i8 }, Offset { x: 2i8, y: -1i8 }, Offset { x: 1i8, y: -2i8 }, Offset { x: -1i8, y: -2i8 }]
}

/// The king's steps, in the order they are tried.
pub open spec fn king_offsets() -> Seq<Offset> {
    seq![Offset { x: 0i8, y: 1i8 }, Offset { x: 0i8, y: -1i8 }, Offset { x: 1i8, y: 0i8 }, Offset { x: -1i8, y: 0i8 },
        Offset { x: 1i8, y: 1i8 }, Offset { x: -1i8, y: -1i8 }, Offset { x: -1i8, y: 1i8 }, Offset { x: 1i8, y: -1i8 }]
}

/// The capturing steps of a pawn of `side`.
pub open spec fn pawn_offsets(side: Side) -> Seq<Offset> {
    if side == Side::White {
        seq![Offset { x: -1i8, y: 1i8 }, Offset { x: 1i8, y: 1i8 }]
    } else {
        seq![Offset { x: -1i8, y: -1i8 }, Offset { x: 1i8, y: -1i8 }]
    }
}

impl SingularData {
    /// This holds the squares that `offs` reach from square `index`, their masks and union.
    pub open spec fn describes(&self, index: int, offs: Seq<Offset>) -> bool {
        &&& self.positions@ == targets(Position { index: index as u8 }, offs)
        &&& self.parts@ == masks_of(self.positions@)
        &&& self.sum == or_all(self.parts@)
    }

    /// The squares reached from square `index` by the steps `offs`.
    fn from_offsets(index: usize, offs: &[Offset]) -> (r: Self)
        requires
            index < 64,
            forall|i: int| 0 <= i < offs@.len() ==> -8 < #[trigger] offs@[i].x < 8 && -8 < offs@[i].y < 8,
        ensures
            r.describes(index as int, offs@),
    {
        let pos = Position::from_index(index as u8);
        let mut positions: Vec<Position> = Vec::new();
        let mut parts: Vec<u64> = Vec::new();
        let mut sum: u64 = 0;
        let mut i: usize = 0;
        assert(offs@.take(0) =~= Seq::<Offset>::empty());
        while i < offs.len()
            invariant
                i <= offs@.len(),
                pos.index == index,
                index < 64,
                forall|j: int| 0 <= j < offs@.len() ==> -8 < #[trigger] offs@[j].x < 8 && -8 < offs@[j].y < 8,
                positions@ == targets(pos, offs@.take(i as int)),
                parts@ == masks_of(positions@),
                sum == or_all(parts@),
                forall|j: int| 0 <= j < positions@.len() ==> (#[trigger] positions@[j]).valid(),
            decreases offs@.len() - i,
        {
            let off = offs[i];
            assert(offs@.take(i + 1).drop_last() =~= offs@.take(i as int));
            if let Some(t) = pos.with_offset(off) {
                let m = t.as_mask();
                let ghost old_parts = parts@;
                positions.push(t);
                parts.push(m);
                sum = sum | m;
                assert(parts@.drop_last() =~= old_parts);
                assert(parts@.drop_last() =~= masks_of(positions@.drop_last()));
                assert(parts@ =~= masks_of(positions@));
            }
            i += 1;
        }
        assert(offs@.take(offs@.len() as int) =~= offs@);
        Self { positions, parts, sum }
    }

    /// The squares a knight on square `index` attacks.
    pub fn horse_at_index(index: usize) -> (r: Self)
        requires
            index < 64,
        ensures
            r.describes(index as int, knight_offsets()),
    {
        let offs = [Offset::new(-2, -1), Offset::new(-2, 1), Offset::new(-1, 2), Offset::new(1, 2),
            Offset::new(2, 1), Offset::new(2, -1), Offset::new(1, -2), Offset::new(-1, -2)];
        assert(offs@ =~= knight_offsets());
        Self::from_offsets(index, offs.as_slice())
    }

    /// The squares a king on square `index` attacks.
    pub fn king_at_index(index: usize) -> (r: Self)
        requires
            index < 64,
        ensures
            r.describes(index as int, king_offsets()),
    {
        let offs = [Offset::new(0, 1), Offset::new(0, -1), Offset::new(1, 0), Offset::new(-1, 0),
            Offset::new(1, 1), Offset::new(-1, -1), Offset::new(-1, 1), Offset::new(1, -1)];
        assert(offs@ =~= king_offsets());
        Self::from_offsets(index, offs.as_slice())
    }

    /// The squares a pawn of `side` on square `index` takes on.
    pub fn pawn_takes(index: usize, side: Side) -> (r: Self)
        requires
            index < 64,
        ensures
            r.describes(index as int, pawn_offsets(side)),
    {
        let offs = if let Side::White = side {
            [Offset::new(-1, 1), Offset::new(1, 1)]
        } else {
            [Offset::new(-1, -1), Offset::new(1, -1)]
        };
        assert(offs@ =~= pawn_offsets(side));
        Self::from_offsets(index, offs.as_slice())
    }
}

/// `array_init::array_init` of `array-init`, with the knight data of each square: it calls the
/// initializer on each index 0 to 63 in order and keeps what it returns at that index.
#[verifier::external_body]
fn init_knight_table() -> (r: [SingularData; 64])
    ensures
        forall|i: int| 0 <= i < 64 ==> (#[trigger] r[i]).describes(i, knight_offsets()),
{
    array_init::array_init(|i: usize| SingularData::horse_at_index(i))
}

/// `array_init::array_init` of `array-init`, with the king data of each square.
#[verifier::external_body]
fn init_king_table() -> (r: [SingularData; 64])
    ensures
        forall|i: int| 0 <= i < 64 ==> (#[trigger] r[i]).describes(i, king_offsets()),
{
    array_init::array_init(|i: usize| SingularData::king_at_index(i))
}

/// `array_init::array_init` of `array-init`, with the pawn capture data of `side` on each square.
#[verifier::external_body]
fn init_pawn_table(side: Side) -> (r: [SingularData; 64])
    ensures
        forall|i: int| 0 <= i < 64 ==> (#[trigger] r[i]).describes(i, pawn_offsets(side)),
{
    array_init::array_init(|i: usize| SingularData::pawn_takes(i, side))
}

/// The tables of knight, king and pawn capture targets for every square.
pub struct SearchMasks {
    pub knight: [SingularData; 64],
    pub king: [SingularData; 64],
    pub white_pawn_takes: [SingularData; 64],
    pub black_pawn_takes: [SingularData; 64],
}

impl SearchMasks {
    /// Every entry describes its square.
    pub open spec fn wf(&self) -> bool {
        &&& forall|i: int| 0 <= i < 64 ==> (#[trigger] self.knight[i]).describes(i, knight_offsets())
        &&& forall|i: int| 0 <= i < 64 ==> (#[trigger] self.king[i]).describes(i, king_offsets())
        &&& forall|i: int| 0 <= i < 64 ==> (#[trigger] self.white_pawn_takes[i]).describes(i, pawn_offsets(Side::White))
        &&& forall|i: int| 0 <= i < 64 ==> (#[trigger] self.black_pawn_takes[i]).describes(i, pawn_offsets(Side::Black))
    }

    /// The pawn capture table of `side`.
    pub open spec fn pawn_table(&self, side: Side) -> [SingularData; 64] {
        if side == Side::White {
            self.white_pawn_takes
        } else {
            self.black_pawn_takes
        }
    }
}

/// Builds the tables.
pub fn init_masks() -> (r: SearchMasks)
    ensures
        r.wf(),
{
    SearchMasks {
        knight: init_knight_table(),
        king: init_king_table(),
        white_pawn_takes: init_pawn_table(Side::White),
        black_pawn_takes: init_pawn_table(Side::Black),
    }
}

/// The pawn capture table of `side`.
pub fn choose_pawn_take_mask(masks: &SearchMasks, side: Side) -> (r: &[SingularData; 64])
    ensures
        *r == masks.pawn_table(side),
{
    match side {
        Side::White => &masks.white_pawn_takes,
        Side::Black => &masks.black_pawn_takes,
    }
}

/// The squares of the rooks of `side` at the start: long first.
pub fn choose_home_rook(side: Side) -> (r: [Position; 2])
    ensures
        r[0] == Position::at(0, if side == Side::White { 0 } else { 7 }),
        r[1] == Position::at(7, if side == Side::White { 0 } else { 7 }),
{
    match side {
        Side::White => [Position::new(0, 0), Position::new(7, 0)],
        Side::Black => [Position::new(0, 7), Position::new(7, 7)],
    }
}

/// A square is in the union of the masks of squares exactly when it is one of them.
pub proof fn lemma_or_all_masks(ps: Seq<Position>, i: u64)
    requires
        i < 64,
        forall|j: int| 0 <= j < ps.len() ==> (#[trigger] ps[j]).valid(),
    ensures
        is_set(or_all(masks_of(ps)), i) <==> exists|j: int| 0 <= j < ps.len() && (#[trigger] ps[j]).index == i,
    decreases ps.len(),
{
    if ps.len() == 0 {
        crate::bits::lemma_zero_iff_no_bits(0);
    } else {
        let prev = ps.drop_last();
        assert(masks_of(ps).drop_last() =~= masks_of(prev));
        lemma_or_all_masks(prev, i);
        lemma_bit_ops(or_all(masks_of(prev)), ps.last().mask(), i);
        lemma_sq(i, ps.last().index as u64);
        if is_set(or_all(masks_of(ps)), i) {
            if !is_set(or_all(masks_of(prev)), i) {
                assert(ps[ps.len() - 1].index == i);
            } else {
                let j = choose|j: int| 0 <= j < prev.len() && (#[trigger] prev[j]).index == i;
                assert(ps[j] == prev[j]);
            }
        } else {
            assert forall|j: int| 0 <= j < ps.len() implies (#[trigger] ps[j]).index != i by {
                if j < prev.len() {
                    assert(ps[j] == prev[j]);
                }
            }
        }
    }
}

} // verus!
