//! Integer positions and displacements on the hexagonal grid, and the six
//! directions of movement.
use vstd::prelude::*;

verus! {

/// Sign of an integer: -1, 0 or 1.
pub open spec fn sgn(v: int) -> int {
    if v > 0 {
        1
    } else if v < 0 {
        -1
    } else {
        0
    }
}

pub open spec fn iabs(v: int) -> int {
    if v < 0 {
        -v
    } else {
        v
    }
}

/// Hex-aware length of a displacement: along the X, Y and Z (diagonal) axes
/// every step counts as one.
pub open spec fn magnitude(x: int, y: int) -> int {
    if sgn(x) == sgn(y) {
        if iabs(x) >= iabs(y) {
            iabs(x)
        } else {
            iabs(y)
        }
    } else {
        iabs(x) + iabs(y)
    }
}

/// The displacement lies on one of the three axes.
pub open spec fn on_axis(x: int, y: int) -> bool {
    x == 0 || y == 0 || x == y
}

/// `k` times a sign `s` (one of -1, 0, 1), written without multiplication.
pub open spec fn times(s: int, k: int) -> int {
    if s > 0 {
        k
    } else if s < 0 {
        -k
    } else {
        0
    }
}

/// The position `k` steps from `p` along the unit displacement `n`.
pub open spec fn along(p: (int, int), n: (int, int), k: int) -> (int, int) {
    (p.0 + times(n.0, k), p.1 + times(n.1, k))
}

#[derive(Clone, Copy, Debug, PartialEq, Eq, Structural)]
pub enum Color {
    Black,
    White,
}

impl Color {
    pub open spec fn opp(self) -> Color {
        match self {
            Color::Black => Color::White,
            Color::White => Color::Black,
        }
    }

    pub fn opposite(&self) -> (r: Color)
        ensures
            r == self.opp(),
    {
        match self {
            Color::Black => Color::White,
            Color::White => Color::Black,
        }
    }
}

/// Colors by number: Black is 0, White is 1.
impl TryFrom<u8> for Color {
    type Error = ();

    fn try_from(value: u8) -> (r: Result<Color, ()>) {
        if value == 0 {
            Ok(Color::Black)
        } else if value == 1 {
            Ok(Color::White)
        } else {
            Err(())
        }
    }
}

impl vstd::std_specs::convert::TryFromSpecImpl<u8> for Color {
    open spec fn obeys_try_from_spec() -> bool {
        true
    }

    open spec fn try_from_spec(value: u8) -> Result<Color, ()> {
        if value == 0 {
            Ok(Color::Black)
        } else if value == 1 {
            Ok(Color::White)
        } else {
            Err(())
        }
    }
}

/// A cell of the board, addressed as shown below (`*` marks the cells that
/// exist):
///
/// ```md
///               0 1 2 3 4 5 6 7 8
///            #------------------ x
///         0 / * * * * * . . . .
///        1 / * * * * * * . . .
///       2 / * * * * * * * . .
///      3 / * * * * * * * * .
///     4 / * * * * * * * * *
///    5 / . * * * * * * * *
///   6 / . . * * * * * * *
///  7 / . . . * * * * * *
/// 8 / . . . . * * * * *
///  y
/// ```
#[derive(Clone, Copy, Debug, PartialEq, Eq, Structural)]
pub struct Pos2 {
    pub x: i8,
    pub y: i8,
}

impl View for Pos2 {
    type V = (int, int);

    open spec fn view(&self) -> (int, int) {
        (self.x as int, self.y as int)
    }
}

/// The position with the given integer coordinates (which must fit in `i8`).
pub open spec fn pos_at(p: (int, int)) -> Pos2 {
    Pos2 { x: p.0 as i8, y: p.1 as i8 }
}

pub proof fn lemma_pos_at_view(p: Pos2)
    ensures
        pos_at(p@) == p,
{
}

pub open spec fn fits_i8(v: int) -> bool {
    i8::MIN <= v <= i8::MAX
}

/// Both coordinates fit in `i8`.
pub open spec fn fits_pair(q: (int, int)) -> bool {
    fits_i8(q.0) && fits_i8(q.1)
}

impl Pos2 {
    /// The position displaced by `v`.
    pub fn add(self, v: Vec2) -> (r: Pos2)
        requires
            fits_i8(self.x + v.x),
            fits_i8(self.y + v.y),
        ensures
            r@ == (self@.0 + v@.0, self@.1 + v@.1),
            r == pos_at(r@),
    {
        Pos2 { x: self.x + v.x, y: self.y + v.y }
    }

    /// The displacement from `other` to `self`.
    pub fn sub(self, other: Pos2) -> (r: Vec2)
        requires
            fits_i8(self.x - other.x),
            fits_i8(self.y - other.y),
        ensures
            r@ == (self@.0 - other@.0, self@.1 - other@.1),
    {
        Vec2 { x: self.x - other.x, y: self.y - other.y }
    }

    /// The position `k` steps from `self` along the unit displacement `n`.
    pub fn step(self, n: Vec2, k: i8) -> (r: Pos2)
        requires
            -1 <= n.x <= 1,
            -1 <= n.y <= 1,
            fits_i8(along(self@, n@, k as int).0),
            fits_i8(along(self@, n@, k as int).1),
        ensures
            r@ == along(self@, n@, k as int),
            r == pos_at(r@),
    {
        let x = if n.x > 0 {
            self.x + k
        } else if n.x < 0 {
            self.x - k
        } else {
            self.x
        };
        let y = if n.y > 0 {
            self.y + k
        } else if n.y < 0 {
            self.y - k
        } else {
            self.y
        };
        Pos2 { x, y }
    }
}

impl From<(i8, i8)> for Pos2 {
    fn from(v: (i8, i8)) -> (r: Pos2) {
        Pos2 { x: v.0, y: v.1 }
    }
}

impl vstd::std_specs::convert::FromSpecImpl<(i8, i8)> for Pos2 {
    open spec fn obeys_from_spec() -> bool {
        true
    }

    open spec fn from_spec(v: (i8, i8)) -> Pos2 {
        Pos2 { x: v.0, y: v.1 }
    }
}

impl From<(i8, i8)> for Vec2 {
    fn from(v: (i8, i8)) -> (r: Vec2) {
        Vec2 { x: v.0, y: v.1 }
    }
}

impl vstd::std_specs::convert::FromSpecImpl<(i8, i8)> for Vec2 {
    open spec fn obeys_from_spec() -> bool {
        true
    }

    open spec fn from_spec(v: (i8, i8)) -> Vec2 {
        Vec2 { x: v.0, y: v.1 }
    }
}

#[derive(Clone, Copy, Debug, PartialEq, Eq, Structural)]
pub struct Vec2 {
    pub x: i8,
    pub y: i8,
}

impl View for Vec2 {
    type V = (int, int);

    open spec fn view(&self) -> (int, int) {
        (self.x as int, self.y as int)
    }
}

fn signum(v: i8) -> (r: i8)
    ensures
        r == sgn(v as int),
{
    if v > 0 {
        1
    } else if v < 0 {
        -1
    } else {
        0
    }
}

fn abs_of(v: i8) -> (r: i8)
    requires
        v > i8::MIN,
    ensures
        r == iabs(v as int),
{
    if v < 0 {
        -v
    } else {
        v
    }
}

impl Vec2 {
    pub fn new(x: i8, y: i8) -> (r: Vec2)
        ensures
            r.x == x,
            r.y == y,
    {
        Vec2 { x, y }
    }

    /// Hex-aware length; steps along the diagonal Z axis count as one.
    pub fn mag(&self) -> (r: i8)
        requires
            magnitude(self.x as int, self.y as int) <= i8::MAX,
        ensures
            r == magnitude(self.x as int, self.y as int),
    {
        let ax = abs_of(self.x);
        let ay = abs_of(self.y);
        if signum(self.x) == signum(self.y) {
            if ax >= ay {
                ax
            } else {
                ay
            }
        } else {
            ax + ay
        }
    }

    pub fn abs(&self) -> (r: Vec2)
        requires
            self.x > i8::MIN,
            self.y > i8::MIN,
        ensures
            r@ == (iabs(self.x as int), iabs(self.y as int)),
    {
        Vec2 { x: abs_of(self.x), y: abs_of(self.y) }
    }

    /// Component-wise sign.
    pub fn norm(&self) -> (r: Vec2)
        ensures
            r@ == (sgn(self.x as int), sgn(self.y as int)),
    {
        Vec2 { x: signum(self.x), y: signum(self.y) }
    }

    pub fn neg(self) -> (r: Vec2)
        requires
            self.x > i8::MIN,
            self.y > i8::MIN,
        ensures
            r@ == (-self@.0, -self@.1),
    {
        Vec2 { x: -self.x, y: -self.y }
    }

    pub fn mul(self, k: i8) -> (r: Vec2)
        requires
            fits_i8(self.x * k),
            fits_i8(self.y * k),
        ensures
            r@ == (self@.0 * k, self@.1 * k),
    {
        Vec2 { x: self.x * k, y: self.y * k }
    }

    /// The displacement lies on the X, Y or Z axis.
    pub fn is_multiple_of_unit_vec(&self) -> (r: bool)
        ensures
            r == on_axis(self.x as int, self.y as int),
    {
        self.x == 0 || self.y == 0 || self.x == self.y
    }

    /// Cross-product test; the zero displacement is parallel only to itself.
    pub fn is_parallel(&self, other: Vec2) -> (r: bool)
        ensures
            r == (if self@ == (0int, 0int) || other@ == (0int, 0int) {
                self@ == other@
            } else {
                self.x * other.y == self.y * other.x
            }),
    {
        if (self.x == 0 && self.y == 0) || (other.x == 0 && other.y == 0) {
            return self.x == other.x && self.y == other.y;
        }
        let a = self.x as i32;
        let b = self.y as i32;
        let c = other.x as i32;
        let d = other.y as i32;
        assert(-16384 <= a * d <= 16384) by (nonlinear_arith)
            requires
                -128 <= a <= 127,
                -128 <= d <= 127,
        ;
        assert(-16384 <= b * c <= 16384) by (nonlinear_arith)
            requires
                -128 <= b <= 127,
                -128 <= c <= 127,
        ;
        a * d == b * c
    }

    /// The direction whose unit displacement this is, if any.
    pub fn unit_vec(&self) -> (r: Option<Dir>)
        ensures
            r == dir_of(self@),
    {
        if self.x == 1 && self.y == 0 {
            Some(Dir::PosX)
        } else if self.x == -1 && self.y == 0 {
            Some(Dir::NegX)
        } else if self.x == 0 && self.y == 1 {
            Some(Dir::PosY)
        } else if self.x == 0 && self.y == -1 {
            Some(Dir::NegY)
        } else if self.x == 1 && self.y == 1 {
            Some(Dir::PosZ)
        } else if self.x == -1 && self.y == -1 {
            Some(Dir::NegZ)
        } else {
            None
        }
    }
}

/// The direction with unit displacement `v`, if there is one.
pub open spec fn dir_of(v: (int, int)) -> Option<Dir> {
    if v == (1int, 0int) {
        Some(Dir::PosX)
    } else if v == (-1int, 0int) {
        Some(Dir::NegX)
    } else if v == (0int, 1int) {
        Some(Dir::PosY)
    } else if v == (0int, -1int) {
        Some(Dir::NegY)
    } else if v == (1int, 1int) {
        Some(Dir::PosZ)
    } else if v == (-1int, -1int) {
        Some(Dir::NegZ)
    } else {
        None
    }
}

/// The six directions of movement, along the three axes X, Y and Z.
#[derive(Clone, Copy, Debug, PartialEq, Eq, Structural)]
pub enum Dir {
    PosX,
    PosY,
    PosZ,
    NegX,
    NegY,
    NegZ,
}

impl Dir {
    /// The unit displacement of the direction; Z is the sum of X and Y.
    pub open spec fn unit(self) -> (int, int) {
        match self {
            Dir::PosX => (1, 0),
            Dir::PosY => (0, 1),
            Dir::PosZ => (1, 1),
            Dir::NegX => (-1, 0),
            Dir::NegY => (0, -1),
            Dir::NegZ => (-1, -1),
        }
    }

    pub fn vec(&self) -> (r: Vec2)
        ensures
            r@ == self.unit(),
    {
        match self {
            Dir::PosX => Vec2 { x: 1, y: 0 },
            Dir::PosY => Vec2 { x: 0, y: 1 },
            Dir::PosZ => Vec2 { x: 1, y: 1 },
            Dir::NegX => Vec2 { x: -1, y: 0 },
            Dir::NegY => Vec2 { x: 0, y: -1 },
            Dir::NegZ => Vec2 { x: -1, y: -1 },
        }
    }
}

} // verus!
