//! A rating kept up to date move by move: material and position, per side.
use crate::piece::Side;
use vstd::prelude::*;

verus! {

/// Material and positional scores of each side.
#[derive(PartialEq, Eq, PartialOrd, Ord, Clone, Copy, Debug)]
pub struct IncrementalRating {
    black_material: i64,
    white_material: i64,
    black_positional: i64,
    white_positional: i64,
}

/// The sum of the four scores.
pub open spec fn total(r: IncrementalRating) -> int {
    r.spec_black_material() + r.spec_white_material() + r.spec_black_positional() + r.spec_white_positional()
}

/// Adding `b`'s scores to `a`'s stays within `i64`.
pub open spec fn can_add(a: IncrementalRating, b: IncrementalRating) -> bool {
    &&& i64::MIN <= a.spec_black_material() + b.spec_black_material() <= i64::MAX
    &&& i64::MIN <= a.spec_white_material() + b.spec_white_material() <= i64::MAX
    &&& i64::MIN <= a.spec_white_positional() + b.spec_white_positional() <= i64::MAX
    &&& i64::MIN <= a.spec_black_positional() + b.spec_black_positional() <= i64::MAX
}

/// Taking `b`'s scores from `a`'s stays within `i64`.
pub open spec fn can_sub(a: IncrementalRating, b: IncrementalRating) -> bool {
    &&& i64::MIN <= a.spec_black_material() - b.spec_black_material() <= i64::MAX
    &&& i64::MIN <= a.spec_white_material() - b.spec_white_material() <= i64::MAX
    &&& i64::MIN <= a.spec_white_positional() - b.spec_white_positional() <= i64::MAX
    &&& i64::MIN <= a.spec_black_positional() - b.spec_black_positional() <= i64::MAX
}

impl IncrementalRating {
    pub closed spec fn spec_black_material(self) -> i64 {
        self.black_material
    }

    pub closed spec fn spec_white_material(self) -> i64 {
        self.white_material
    }

    pub closed spec fn spec_black_positional(self) -> i64 {
        self.black_positional
    }

    pub closed spec fn spec_white_positional(self) -> i64 {
        self.white_positional
    }

    /// The material score of `side`.
    pub open spec fn material_of(self, side: Side) -> i64 {
        if side == Side::White { self.spec_white_material() } else { self.spec_black_material() }
    }

    /// The positional score of `side`.
    pub open spec fn positional_of(self, side: Side) -> i64 {
        if side == Side::White { self.spec_white_positional() } else { self.spec_black_positional() }
    }

    /// Sets the material score of `side`.
    pub fn set_material(&mut self, side: Side, val: i64)
        ensures
            final(self).material_of(side) == val,
            final(self).material_of(crate::board::other(side)) == old(self).material_of(crate::board::other(side)),
            final(self).spec_white_positional() == old(self).spec_white_positional(),
            final(self).spec_black_positional() == old(self).spec_black_positional(),
    {
        match side {
            Side::White => self.white_material = val,
            Side::Black => self.black_material = val,
        }
    }

    /// Sets the positional score of `side`.
    pub fn set_positional(&mut self, side: Side, val: i64)
        ensures
            final(self).positional_of(side) == val,
            final(self).positional_of(crate::board::other(side)) == old(self).positional_of(crate::board::other(side)),
            final(self).spec_white_material() == old(self).spec_white_material(),
            final(self).spec_black_material() == old(self).spec_black_material(),
    {
        match side {
            Side::White => self.white_positional = val,
            Side::Black => self.black_positional = val,
        }
    }

    /// The material score of `side`.
    pub fn material(&self, side: Side) -> (r: i64)
        ensures
            r == self.material_of(side),
    {
        match side {
            Side::White => self.white_material,
            Side::Black => self.black_material,
        }
    }

    /// The positional score of `side`.
    pub fn positional(&self, side: Side) -> (r: i64)
        ensures
            r == self.positional_of(side),
    {
        match side {
            Side::White => self.white_positional,
            Side::Black => self.black_positional,
        }
    }

    /// The sum of all four scores, which must fit in `i64` as it is added up.
    pub fn sum(&self) -> (r: i64)
        requires
            i64::MIN <= self.spec_black_material() + self.spec_white_material() <= i64::MAX,
            i64::MIN <= self.spec_black_material() + self.spec_white_material() + self.spec_black_positional() <= i64::MAX,
            i64::MIN <= total(*self) <= i64::MAX,
        ensures
            r == total(*self),
    {
        self.black_material + self.white_material + self.black_positional + self.white_positional
    }

    /// Takes `rhs`'s scores from these, score by score.
    pub fn sub_mut(&mut self, rhs: &Self)
        requires
            can_sub(*old(self), *rhs),
        ensures
            is_difference(*final(self), *old(self), *rhs),
    {
        self.black_material = self.black_material - rhs.black_material;
        self.white_material = self.white_material - rhs.white_material;
        self.white_positional = self.white_positional - rhs.white_positional;
        self.black_positional = self.black_positional - rhs.black_positional;
    }

    /// Adds `rhs`'s scores to these, score by score.
    pub fn add_mut(&mut self, rhs: &Self)
        requires
            can_add(*old(self), *rhs),
        ensures
            is_sum(*final(self), *old(self), *rhs),
    {
        self.black_material = self.black_material + rhs.black_material;
        self.white_material = self.white_material + rhs.white_material;
        self.white_positional = self.white_positional + rhs.white_positional;
        self.black_positional = self.black_positional + rhs.black_positional;
    }
}

impl Default for IncrementalRating {
    fn default() -> (r: Self)
        ensures
            r.spec_black_material() == 0,
            r.spec_white_material() == 0,
            r.spec_black_positional() == 0,
            r.spec_white_positional() == 0,
    {
        Self { black_material: 0, white_material: 0, black_positional: 0, white_positional: 0 }
    }
}

impl core::ops::Add for IncrementalRating {
    type Output = Self;

    /// The scores of both ratings added, score by score.
    fn add(self, rhs: Self) -> (r: Self) {
        Self {
            black_material: self.black_material + rhs.black_material,
            white_material: self.white_material + rhs.white_material,
            black_positional: self.black_positional + rhs.black_positional,
            white_positional: self.white_positional + rhs.white_positional,
        }
    }
}

impl vstd::std_specs::ops::AddSpecImpl for IncrementalRating {
    open spec fn obeys_add_spec() -> bool {
        true
    }

    open spec fn add_req(self, rhs: Self) -> bool {
        can_add(self, rhs)
    }

    open spec fn add_spec(self, rhs: Self) -> Self {
        sum_of(self, rhs)
    }
}

impl core::ops::Sub for IncrementalRating {
    type Output = Self;

    /// The scores of `rhs` taken from these, score by score.
    fn sub(self, rhs: Self) -> (r: Self) {
        Self {
            black_material: self.black_material - rhs.black_material,
            white_material: self.white_material - rhs.white_material,
            black_positional: self.black_positional - rhs.black_positional,
            white_positional: self.white_positional - rhs.white_positional,
        }
    }
}

impl vstd::std_specs::ops::SubSpecImpl for IncrementalRating {
    open spec fn obeys_sub_spec() -> bool {
        true
    }

    open spec fn sub_req(self, rhs: Self) -> bool {
        can_sub(self, rhs)
    }

    open spec fn sub_spec(self, rhs: Self) -> Self {
        difference_of(self, rhs)
    }
}

/// The rating that holds `a`'s scores plus `b`'s.
pub closed spec fn sum_of(a: IncrementalRating, b: IncrementalRating) -> IncrementalRating {
    IncrementalRating {
        black_material: (a.black_material + b.black_material) as i64,
        white_material: (a.white_material + b.white_material) as i64,
        black_positional: (a.black_positional + b.black_positional) as i64,
        white_positional: (a.white_positional + b.white_positional) as i64,
    }
}

/// The rating that holds `a`'s scores minus `b`'s.
pub closed spec fn difference_of(a: IncrementalRating, b: IncrementalRating) -> IncrementalRating {
    IncrementalRating {
        black_material: (a.black_material - b.black_material) as i64,
        white_material: (a.white_material - b.white_material) as i64,
        black_positional: (a.black_positional - b.black_positional) as i64,
        white_positional: (a.white_positional - b.white_positional) as i64,
    }
}

/// Within range, `+` adds and `-` takes away score by score, as `add_mut` and `sub_mut` do.
pub proof fn lemma_operators(a: IncrementalRating, b: IncrementalRating)
    ensures
        can_add(a, b) ==> is_sum(sum_of(a, b), a, b),
        can_sub(a, b) ==> is_difference(difference_of(a, b), a, b),
{
}

/// Whether `c` holds `a`'s scores plus `b`'s, score by score: what `add_mut` leaves.
pub open spec fn is_sum(c: IncrementalRating, a: IncrementalRating, b: IncrementalRating) -> bool {
    &&& c.spec_black_material() == a.spec_black_material() + b.spec_black_material()
    &&& c.spec_white_material() == a.spec_white_material() + b.spec_white_material()
    &&& c.spec_white_positional() == a.spec_white_positional() + b.spec_white_positional()
    &&& c.spec_black_positional() == a.spec_black_positional() + b.spec_black_positional()
}

/// Whether `c` holds `a`'s scores minus `b`'s, score by score: what `sub_mut` leaves.
pub open spec fn is_difference(c: IncrementalRating, a: IncrementalRating, b: IncrementalRating) -> bool {
    &&& c.spec_black_material() == a.spec_black_material() - b.spec_black_material()
    &&& c.spec_white_material() == a.spec_white_material() - b.spec_white_material()
    &&& c.spec_white_positional() == a.spec_white_positional() - b.spec_white_positional()
    &&& c.spec_black_positional() == a.spec_black_positional() - b.spec_black_positional()
}

/// Taking back what was added restores a rating: after `a.add_mut(b)` gives `c`, `c.sub_mut(b)`
/// is defined and gives `a` back.
pub proof fn lemma_add_then_sub(a: IncrementalRating, b: IncrementalRating, c: IncrementalRating, d: IncrementalRating)
    requires
        can_add(a, b),
        is_sum(c, a, b),
        is_difference(d, c, b),
    ensures
        can_sub(c, b),
        d == a,
{
    assert(d.black_material == a.black_material);
    assert(d.white_material == a.white_material);
    assert(d.black_positional == a.black_positional);
    assert(d.white_positional == a.white_positional);
}

} // verus!
