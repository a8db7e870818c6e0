//! Squares of the board and the steps between them.
use crate::bits::sq;
use vstd::prelude::*;
use vstd::string::StringSliceAdditionalSpecFns;

verus! {

/// A step of `x` files and `y` ranks.
#[derive(Clone, Copy, PartialEq, Eq, Debug, Structural)]
pub struct Offset {
    pub x: i8,
    pub y: i8,
}

impl Offset {
    pub fn new(x: i8, y: i8) -> (r: Self)
        ensures
            r == (Offset { x, y }),
    {
        Self { x, y }
    }

    /// Whether both coordinates of the step are shorter than the board.
    pub open spec fn in_range(self) -> bool {
        -8 < self.x < 8 && -8 < self.y < 8
    }

    /// The step taken `rhs` times, when both coordinates stay shorter than the board.
    pub fn mul(self, rhs: i8) -> (r: Option<Self>)
        requires
            -128 < self.x * rhs <= 127,
            -128 < self.y * rhs <= 127,
        ensures
            r == (if (Offset { x: (self.x * rhs) as i8, y: (self.y * rhs) as i8 }).in_range() {
                Some(Offset { x: (self.x * rhs) as i8, y: (self.y * rhs) as i8 })
            } else {
                None::<Offset>
            }),
    {
        let multiplied = Self { x: self.x * rhs, y: self.y * rhs };
        let ax: i8 = if multiplied.x < 0 { -multiplied.x } else { multiplied.x };
        let ay: i8 = if multiplied.y < 0 { -multiplied.y } else { multiplied.y };
        if ax < 8 && ay < 8 {
            return Some(multiplied);
        }
        None
    }
}

/// A square, numbered from 0 (a1) to 63 (h8), file first.
#[derive(Clone, Copy, PartialEq, Eq, Debug, Hash, Structural)]
pub struct Position {
    pub index: u8,
}

proof fn lemma_coords(i: u8)
    by (bit_vector)
    ensures
        i & 7u8 == i % 8,
        i >> 3u8 == i / 8,
{
}

proof fn lemma_compose(x: u8, y: u8)
    by (bit_vector)
    requires
        x < 8,
        y < 8,
    ensures
        x | (y << 3u8) == x + 8 * y,
{
}

impl Position {
    /// The square lies on the board.
    pub open spec fn valid(self) -> bool {
        self.index < 64
    }

    /// The file (0 for a, 7 for h).
    pub open spec fn col(self) -> int {
        (self.index % 8) as int
    }

    /// The rank (0 for the first rank, 7 for the eighth).
    pub open spec fn row(self) -> int {
        (self.index / 8) as int
    }

    /// The square on file `x` and rank `y`.
    pub open spec fn at(x: int, y: int) -> Position {
        Position { index: (x + 8 * y) as u8 }
    }

    /// The square `o` away from this one, when it lies on the board.
    pub open spec fn offset_target(self, o: Offset) -> Option<Position> {
        let nx = self.col() + o.x;
        let ny = self.row() + o.y;
        if 0 <= nx < 8 && 0 <= ny < 8 {
            Some(Position::at(nx, ny))
        } else {
            None
        }
    }

    /// The square's mask.
    pub open spec fn mask(self) -> u64 {
        sq(self.index as u64)
    }

    /// The square named by two bytes: a file letter `a`-`h` then a rank digit `1`-`8`.
    pub open spec fn parse_name(b: Seq<u8>) -> Option<Position> {
        if b.len() == 2 && 97 <= b[0] <= 104 && 49 <= b[1] <= 56 {
            Some(Position { index: ((b[0] - 97) + (b[1] - 49) * 8) as u8 })
        } else {
            None
        }
    }

    /// The square named by `s` ("e4"); nothing when `s` names no square.
    pub fn from_str(s: &str) -> (r: Option<Self>)
        ensures
            r == Position::parse_name(s.spec_bytes()),
            r matches Some(p) ==> p.valid(),
    {
        let bytes = s.as_bytes();
        if bytes.len() != 2 {
            return None;
        }
        let a = bytes[0];
        if !(97 <= a && a <= 104) {
            return None;
        }
        let b = bytes[1];
        if !(49 <= b && b <= 56) {
            return None;
        }
        let output: u8 = (a - 97) + (b - 49) * 8;
        Some(Position::from_index(output))
    }

    /// The square on file `x` and rank `y`.
    pub fn new(x: u8, y: u8) -> (r: Self)
        requires
            x < 8 && y < 8,
        ensures
            r == Position::at(x as int, y as int),
            r.valid(),
            r.col() == x,
            r.row() == y,
    {
        proof {
            lemma_compose(x, y);
        }
        Self { index: x | (y << 3) }
    }

    pub fn from_index(index: u8) -> (r: Self)
        ensures
            r.index == index,
    {
        Self { index }
    }

    pub fn as_tuple(self) -> (r: (u8, u8))
        ensures
            r.0 == self.col(),
            r.1 == self.row(),
    {
        (self.x(), self.y())
    }

    pub fn x(self) -> (r: u8)
        ensures
            r == self.col(),
    {
        proof {
            lemma_coords(self.index);
        }
        self.index & 7
    }

    pub fn y(self) -> (r: u8)
        ensures
            r == self.row(),
    {
        proof {
            lemma_coords(self.index);
        }
        self.index >> 3
    }

    pub fn index(self) -> (r: u8)
        ensures
            r == self.index,
    {
        self.index
    }

    /// The square `offset` away, when it lies on the board.
    pub fn with_offset(self, offset: Offset) -> (r: Option<Self>)
        requires
            self.valid(),
            offset.x != -128,
            offset.y != -128,
        ensures
            r == self.offset_target(offset),
            r matches Some(p) ==> p.valid(),
    {
        let offset_self;
        if offset.x < 0 {
            let ax: i8 = -offset.x;
            offset_self = self.sub_x(ax as u8)?;
        } else {
            offset_self = self.add_x(offset.x as u8)?;
        }
        if offset.y < 0 {
            let ay: i8 = -offset.y;
            offset_self.sub_y(ay as u8)
        } else {
            offset_self.add_y(offset.y as u8)
        }
    }

    /// The square's mask: a bitboard with only this square set.
    pub fn as_mask(&self) -> (r: u64)
        requires
            self.valid(),
        ensures
            r == self.mask(),
    {
        1u64 << self.index
    }

    /// The square on file `x` of this rank, when `x` is a file.
    pub fn with_x(self, x: u8) -> (r: Option<Self>)
        requires
            self.valid(),
        ensures
            r == (if x < 8 { Some(Position::at(x as int, self.row())) } else { None::<Position> }),
            r matches Some(p) ==> p.valid() && p.col() == x && p.row() == self.row(),
    {
        if x >= 8 {
            return None;
        }
        Some(Position::new(x, self.y()))
    }

    /// The square on rank `y` of this file, when `y` is a rank.
    pub fn with_y(self, y: u8) -> (r: Option<Self>)
        requires
            self.valid(),
        ensures
            r == (if y < 8 { Some(Position::at(self.col(), y as int)) } else { None::<Position> }),
            r matches Some(p) ==> p.valid() && p.row() == y && p.col() == self.col(),
    {
        if y >= 8 {
            return None;
        }
        Some(Position::new(self.x(), y))
    }

    pub fn add_x(self, rhs: u8) -> (r: Option<Self>)
        requires
            self.valid(),
        ensures
            r == (if self.col() + rhs < 8 {
                Some(Position::at(self.col() + rhs, self.row()))
            } else {
                None::<Position>
            }),
    {
        let x = self.x().checked_add(rhs)?;
        self.with_x(x)
    }

    pub fn add_y(self, rhs: u8) -> (r: Option<Self>)
        requires
            self.valid(),
        ensures
            r == (if self.row() + rhs < 8 {
                Some(Position::at(self.col(), self.row() + rhs))
            } else {
                None::<Position>
            }),
    {
        let y = self.y().checked_add(rhs)?;
        self.with_y(y)
    }

    pub fn sub_x(self, rhs: u8) -> (r: Option<Self>)
        requires
            self.valid(),
        ensures
            r == (if self.col() - rhs >= 0 {
                Some(Position::at(self.col() - rhs, self.row()))
            } else {
                None::<Position>
            }),
    {
        let x = self.x().checked_sub(rhs)?;
        self.with_x(x)
    }

    pub fn sub_y(self, rhs: u8) -> (r: Option<Self>)
        requires
            self.valid(),
        ensures
            r == (if self.row() - rhs >= 0 {
                Some(Position::at(self.col(), self.row() - rhs))
            } else {
                None::<Position>
            }),
    {
        let y = self.y().checked_sub(rhs)?;
        self.with_y(y)
    }

    /// The square of this rank on the nearer edge file: a for files a-d, h for files e-h.
    pub fn snap_to_side(self) -> (r: Self)
        requires
            self.valid(),
        ensures
            r == Position::at(if self.col() <= 3 { 0 } else { 7 }, self.row()),
    {
        if self.x() <= 3 {
            self.with_x(0).unwrap()
        } else {
            self.with_x(7).unwrap()
        }
    }
}

/// A square built from a file and rank gives them back.
pub proof fn lemma_at_coords(x: int, y: int)
    requires
        0 <= x < 8,
        0 <= y < 8,
    ensures
        Position::at(x, y).valid(),
        Position::at(x, y).col() == x,
        Position::at(x, y).row() == y,
{
}

/// The name of square `p`: its file letter `a`-`h`, then its rank digit `1`-`8`.
pub open spec fn name_of(p: Position) -> Seq<char> {
    seq![(97 + p.col()) as char, (49 + p.row()) as char]
}

/// A square's name names the square.
pub proof fn lemma_name_round_trip(p: Position)
    requires
        p.valid(),
    ensures
        crate::moving::square_name(name_of(p)) == Some(p),
{
    let cs = name_of(p);
    assert(cs[0] as int == 97 + p.col());
    assert(cs[1] as int == 49 + p.row());
    assert(p.col() + p.row() * 8 == p.index);
}

impl Position {
    /// The square's name; see `name_of`.
    pub fn to_string(&self) -> (r: String)
        requires
            self.valid(),
        ensures
            r@ == name_of(*self),
    {
        let mut cs: Vec<char> = Vec::new();
        self.push_name(&mut cs);
        assert(cs@ =~= name_of(*self));
        crate::text::string_from_chars(&cs)
    }

    /// Appends the square's name.
    pub(crate) fn push_name(&self, out: &mut Vec<char>)
        requires
            self.valid(),
        ensures
            final(out)@ == old(out)@ + name_of(*self),
    {
        let x = self.index % 8;
        let y = self.index / 8;
        out.push((97u8 + x) as char);
        out.push((49u8 + y) as char);
        assert(final(out)@ =~= old(out)@ + name_of(*self)) by {
            assert((97u8 + x) as char == (97 + self.col()) as char);
            assert((49u8 + y) as char == (49 + self.row()) as char);
        }
    }
}

impl TryFrom<u8> for Position {
    type Error = ();

    /// The square with index `value`; an error above 63.
    fn try_from(value: u8) -> (r: Result<Self, ()>) {
        if value > 63 {
            return Err(());
        }
        Ok(Self { index: value })
    }
}

impl vstd::std_specs::convert::TryFromSpecImpl<u8> for Position {
    open spec fn obeys_try_from_spec() -> bool {
        true
    }

    open spec fn try_from_spec(value: u8) -> Result<Self, ()> {
        if value > 63 {
            Err(())
        } else {
            Ok(Position { index: value })
        }
    }
}

impl TryFrom<(u8, u8)> for Position {
    type Error = ();

    /// The square on file `value.0` and rank `value.1`; an error when either is above 7.
    fn try_from(value: (u8, u8)) -> (r: Result<Self, ()>) {
        if value.0 > 7 || value.1 > 7 {
            return Err(());
        }
        Ok(Self::new(value.0, value.1))
    }
}

impl vstd::std_specs::convert::TryFromSpecImpl<(u8, u8)> for Position {
    open spec fn obeys_try_from_spec() -> bool {
        true
    }

    open spec fn try_from_spec(value: (u8, u8)) -> Result<Self, ()> {
        if value.0 > 7 || value.1 > 7 {
            Err(())
        } else {
            Ok(Position::at(value.0 as int, value.1 as int))
        }
    }
}

} // verus!
