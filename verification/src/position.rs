//! Fixed-point world positions: a whole-tile coordinate per axis plus a
//! sub-tile offset counted in hundredths of a tile, always kept in `[0, 100)`.

use vstd::arithmetic::div_mod::{lemma_fundamental_div_mod, lemma_fundamental_div_mod_converse};
use vstd::prelude::*;

use crate::utils;

verus! {

/// Number of sub-tile offset units in one whole tile.
pub const UNITS_PER_TILE: u32 = 100;

/// Largest combined (tile * 100 + offset) coordinate a `Position` can hold:
/// `u32::MAX` whole tiles plus 99 hundredths.
pub const MAX_COMBINED: u64 = 429_496_729_599;

/// `MAX_COMBINED` as a specification-level integer.
pub open spec fn max_combined() -> int {
    u32::MAX * 100 + 99
}

/// A sub-tile offset in hundredths of a tile, one value per axis.
#[derive(Clone, Copy, Debug, PartialEq, Eq, Structural)]
pub struct PosOffset {
    x: u32,
    y: u32,
}

/// A world position: whole-tile coordinates plus sub-tile offsets.
///
/// Offsets always lie in `[0, 100)`; an overflowing or negative offset is
/// carried into or borrowed from the tile coordinate on construction, and
/// positions whose combined coordinate would be negative cannot be built.
#[derive(Clone, Copy, Debug, PartialEq, Eq, Structural)]
pub struct Position {
    x: u32,
    y: u32,
    offset: PosOffset,
}

impl Position {
    /// Both offsets lie in `[0, 100)`. Holds of every position that can be
    /// built; stated explicitly so lemmas can assume it of spec values.
    #[verifier::type_invariant]
    pub closed spec fn normalized(self) -> bool {
        self.offset.x < 100 && self.offset.y < 100
    }

    /// Whole-tile x coordinate.
    pub closed spec fn tile_x(self) -> u32 {
        self.x
    }

    /// Whole-tile y coordinate.
    pub closed spec fn tile_y(self) -> u32 {
        self.y
    }

    /// Sub-tile x offset, in hundredths of a tile.
    pub closed spec fn offset_x_spec(self) -> u32 {
        self.offset.x
    }

    /// Sub-tile y offset, in hundredths of a tile.
    pub closed spec fn offset_y_spec(self) -> u32 {
        self.offset.y
    }

    /// Combined x coordinate in hundredths of a tile.
    pub open spec fn cx(self) -> int {
        self.tile_x() * 100 + self.offset_x_spec()
    }

    /// Combined y coordinate in hundredths of a tile.
    pub open spec fn cy(self) -> int {
        self.tile_y() * 100 + self.offset_y_spec()
    }

    /// The well-formed position with the given combined coordinates.
    pub closed spec fn norm(cx: int, cy: int) -> Position {
        Position {
            x: (cx / 100) as u32,
            y: (cy / 100) as u32,
            offset: PosOffset { x: (cx % 100) as u32, y: (cy % 100) as u32 },
        }
    }
}

/// `Position::norm` really does produce the position with the given combined
/// coordinates, with both offsets in `[0, 100)`.
pub proof fn lemma_norm_coords(cx: int, cy: int)
    requires
        0 <= cx <= max_combined(),
        0 <= cy <= max_combined(),
    ensures
        Position::norm(cx, cy).cx() == cx,
        Position::norm(cx, cy).cy() == cy,
        Position::norm(cx, cy).offset_x_spec() < 100,
        Position::norm(cx, cy).offset_y_spec() < 100,
        Position::norm(cx, cy).tile_x() == cx / 100,
        Position::norm(cx, cy).tile_y() == cy / 100,
        Position::norm(cx, cy).offset_x_spec() == cx % 100,
        Position::norm(cx, cy).offset_y_spec() == cy % 100,
        Position::norm(cx, cy).normalized(),
{
    lemma_div_mod_in_range(cx);
    lemma_div_mod_in_range(cy);
}

/// For a combined coordinate in range, the quotient fits a `u32` tile and
/// the remainder is an offset below 100.
proof fn lemma_div_mod_in_range(c: int)
    requires
        0 <= c <= max_combined(),
    ensures
        0 <= c / 100 <= u32::MAX,
        0 <= c % 100 < 100,
        100 * (c / 100) + c % 100 == c,
{
    lemma_fundamental_div_mod(c, 100);
    if c / 100 > u32::MAX {
        assert(100 * (c / 100) >= 100 * (u32::MAX + 1)) by (nonlinear_arith)
            requires
                c / 100 >= u32::MAX + 1,
        ;
    }
    if c / 100 < 0 {
        assert(100 * (c / 100) <= -100) by (nonlinear_arith)
            requires
                c / 100 <= -1,
        ;
    }
}

/// Two normalized positions with equal combined coordinates are the same
/// position.
pub proof fn lemma_position_from_coords(a: Position, b: Position)
    requires
        a.normalized(),
        b.normalized(),
        a.cx() == b.cx(),
        a.cy() == b.cy(),
    ensures
        a == b,
{
    lemma_fundamental_div_mod_converse(a.cx(), 100, a.tile_x() as int, a.offset_x_spec() as int);
    lemma_fundamental_div_mod_converse(b.cx(), 100, b.tile_x() as int, b.offset_x_spec() as int);
    lemma_fundamental_div_mod_converse(a.cy(), 100, a.tile_y() as int, a.offset_y_spec() as int);
    lemma_fundamental_div_mod_converse(b.cy(), 100, b.tile_y() as int, b.offset_y_spec() as int);
}

/// A normalized position is exactly the normalization of its own combined
/// coordinates.
pub proof fn lemma_norm_of_self(p: Position)
    requires
        p.normalized(),
    ensures
        p == Position::norm(p.cx(), p.cy()),
        0 <= p.cx() <= max_combined(),
        0 <= p.cy() <= max_combined(),
{
    assert(p.cx() <= u32::MAX * 100 + 99) by (nonlinear_arith)
        requires
            p.tile_x() <= u32::MAX,
            p.offset_x_spec() < 100,
            p.cx() == p.tile_x() * 100 + p.offset_x_spec(),
    ;
    assert(p.cy() <= u32::MAX * 100 + 99) by (nonlinear_arith)
        requires
            p.tile_y() <= u32::MAX,
            p.offset_y_spec() < 100,
            p.cy() == p.tile_y() * 100 + p.offset_y_spec(),
    ;
    lemma_norm_coords(p.cx(), p.cy());
    lemma_position_from_coords(p, Position::norm(p.cx(), p.cy()));
}

/// Squared Euclidean distance between two positions, in squared hundredths
/// of a tile.
pub open spec fn dist_sq_spec(a: Position, b: Position) -> int {
    utils::abs_diff_spec(a.cx(), b.cx()) * utils::abs_diff_spec(a.cx(), b.cx())
        + utils::abs_diff_spec(a.cy(), b.cy()) * utils::abs_diff_spec(a.cy(), b.cy())
}

/// Euclidean distance between two positions in hundredths of a tile,
/// rounded down to a whole number of units.
pub open spec fn dist_spec(a: Position, b: Position) -> nat {
    utils::sqrt_floor(dist_sq_spec(a, b) as nat)
}

impl Position {
    /// The position at the given tile with a zero offset.
    pub fn new(x: u32, y: u32) -> (r: Self)
        ensures
            r == Position::norm(x * 100, y * 100),
            r.tile_x() == x,
            r.tile_y() == y,
            r.offset_x_spec() == 0,
            r.offset_y_spec() == 0,
    {
        let r = Position { x, y, offset: PosOffset { x: 0, y: 0 } };
        proof {
            assert(x * 100 <= u32::MAX * 100) by (nonlinear_arith)
                requires
                    x <= u32::MAX,
            ;
            assert(y * 100 <= u32::MAX * 100) by (nonlinear_arith)
                requires
                    y <= u32::MAX,
            ;
            lemma_norm_coords(x * 100, y * 100);
            lemma_position_from_coords(r, Position::norm(x * 100, y * 100));
        }
        r
    }

    /// Whole-tile x coordinate.
    pub fn get_x(&self) -> (r: u32)
        ensures
            r == self.tile_x(),
    {
        self.x
    }

    /// Whole-tile y coordinate.
    pub fn get_y(&self) -> (r: u32)
        ensures
            r == self.tile_y(),
    {
        self.y
    }

    /// Sub-tile x offset in hundredths of a tile.
    pub fn offset_x(&self) -> (r: u32)
        ensures
            r == self.offset_x_spec(),
    {
        self.offset.x
    }

    /// Sub-tile y offset in hundredths of a tile.
    pub fn offset_y(&self) -> (r: u32)
        ensures
            r == self.offset_y_spec(),
    {
        self.offset.y
    }

    /// Combined x coordinate in hundredths of a tile.
    pub fn combined_x(&self) -> (r: u64)
        ensures
            r == self.cx(),
            r <= max_combined(),
    {
        proof {
            use_type_invariant(self);
            assert(self.x * 100 <= u32::MAX * 100) by (nonlinear_arith)
                requires
                    self.x <= u32::MAX,
            ;
        }
        self.x as u64 * 100 + self.offset.x as u64
    }

    /// Combined y coordinate in hundredths of a tile.
    pub fn combined_y(&self) -> (r: u64)
        ensures
            r == self.cy(),
            r <= max_combined(),
    {
        proof {
            use_type_invariant(self);
            assert(self.y * 100 <= u32::MAX * 100) by (nonlinear_arith)
                requires
                    self.y <= u32::MAX,
            ;
        }
        self.y as u64 * 100 + self.offset.y as u64
    }

    /// The position with the given combined coordinates.
    pub fn from_combined(cx: u64, cy: u64) -> (r: Self)
        requires
            cx <= max_combined(),
            cy <= max_combined(),
        ensures
            r == Position::norm(cx as int, cy as int),
    {
        proof {
            lemma_div_mod_in_range(cx as int);
            lemma_div_mod_in_range(cy as int);
        }
        Position {
            x: (cx / 100) as u32,
            y: (cy / 100) as u32,
            offset: PosOffset { x: (cx % 100) as u32, y: (cy % 100) as u32 },
        }
    }

    /// The position `(x, y)` displaced by the given offsets, which are in
    /// hundredths of a tile and may be negative or a whole tile or more:
    /// overflow is carried into the tile coordinate and underflow borrowed
    /// from it. A borrow below tile zero has no representation, and neither
    /// has a carry past `u32::MAX` tiles; such inputs are excluded.
    pub fn new_with_offset(x: u32, y: u32, x_off: i64, y_off: i64) -> (r: Self)
        requires
            0 <= x * 100 + x_off,
            x * 100 + x_off <= max_combined(),
            0 <= y * 100 + y_off,
            y * 100 + y_off <= max_combined(),
        ensures
            r == Position::norm(x * 100 + x_off, y * 100 + y_off),
            r.cx() == x * 100 + x_off,
            r.cy() == y * 100 + y_off,
            r.offset_x_spec() < 100,
            r.offset_y_spec() < 100,
    {
        proof {
            assert(x * 100 <= u32::MAX * 100) by (nonlinear_arith)
                requires
                    x <= u32::MAX,
            ;
            assert(y * 100 <= u32::MAX * 100) by (nonlinear_arith)
                requires
                    y <= u32::MAX,
            ;
            lemma_norm_coords(x * 100 + x_off, y * 100 + y_off);
        }
        let cx = (x as i64 * 100 + x_off) as u64;
        let cy = (y as i64 * 100 + y_off) as u64;
        Self::from_combined(cx, cy)
    }

    /// The position whose combined coordinates are the sums of the two
    /// inputs' combined coordinates; offsets are renormalized. Sums past the
    /// largest representable coordinate are excluded.
    pub fn add(&self, other: &Self) -> (r: Self)
        requires
            self.cx() + other.cx() <= max_combined(),
            self.cy() + other.cy() <= max_combined(),
        ensures
            r == Position::norm(self.cx() + other.cx(), self.cy() + other.cy()),
            r.cx() == self.cx() + other.cx(),
            r.cy() == self.cy() + other.cy(),
    {
        let cx = self.combined_x() + other.combined_x();
        let cy = self.combined_y() + other.combined_y();
        proof {
            lemma_norm_coords(cx as int, cy as int);
        }
        Self::from_combined(cx, cy)
    }

    /// Euclidean distance to `other` in hundredths of a tile, rounded down.
    pub fn distance(&self, other: &Self) -> (r: u64)
        ensures
            r == dist_spec(*self, *other),
    {
        utils::uclid_distance(
            self.combined_x(),
            self.combined_y(),
            other.combined_x(),
            other.combined_y(),
        )
    }

    /// Squared Euclidean distance to `other`, in squared hundredths of a
    /// tile.
    pub fn distance_squared(&self, other: &Self) -> (r: u128)
        ensures
            r == dist_sq_spec(*self, *other),
    {
        let cx1 = self.combined_x();
        let cy1 = self.combined_y();
        let cx2 = other.combined_x();
        let cy2 = other.combined_y();
        let dx: u64 = if cx1 >= cx2 {
            cx1 - cx2
        } else {
            cx2 - cx1
        };
        let dy: u64 = if cy1 >= cy2 {
            cy1 - cy2
        } else {
            cy2 - cy1
        };
        proof {
            assert((dx as int) * (dx as int) + (dy as int) * (dy as int) <= u128::MAX)
                by (nonlinear_arith)
                requires
                    0 <= dx < 0x8000000000000000,
                    0 <= dy < 0x8000000000000000,
            ;
        }
        (dx as u128) * (dx as u128) + (dy as u128) * (dy as u128)
    }
}

/// Adding positions is commutative: summing combined coordinates does not
/// depend on the order of the two operands.
pub proof fn lemma_add_commutative(a: Position, b: Position)
    ensures
        Position::norm(a.cx() + b.cx(), a.cy() + b.cy()) == Position::norm(
            b.cx() + a.cx(),
            b.cy() + a.cy(),
        ),
{
}

/// The distance from any position to itself is zero.
pub proof fn lemma_distance_self_is_zero(p: Position)
    ensures
        dist_spec(p, p) == 0,
{
    let d = utils::abs_diff_spec(p.cx(), p.cx());
    assert(d == 0);
    assert(d * d == 0) by (nonlinear_arith)
        requires
            d == 0,
    ;
    assert(dist_sq_spec(p, p) == 0);
}

/// Distance is symmetric in its two arguments.
pub proof fn lemma_distance_symmetric(a: Position, b: Position)
    ensures
        dist_spec(a, b) == dist_spec(b, a),
{
    assert(dist_sq_spec(a, b) == dist_sq_spec(b, a));
}

/// Projects a world position to display pixels: `pixels_per_meter` pixels
/// for each whole tile, rounded to the nearest pixel.
pub fn world_to_display(pos: &Position, pixels_per_meter: u16) -> (r: (u64, u64))
    ensures
        r.0 == (pos.cx() * pixels_per_meter + 50) / 100,
        r.1 == (pos.cy() * pixels_per_meter + 50) / 100,
{
    let cx = pos.combined_x();
    let cy = pos.combined_y();
    proof {
        assert(cx * pixels_per_meter <= max_combined() * u16::MAX) by (nonlinear_arith)
            requires
                0 <= cx <= max_combined(),
                0 <= pixels_per_meter <= u16::MAX,
        ;
        assert(cy * pixels_per_meter <= max_combined() * u16::MAX) by (nonlinear_arith)
            requires
                0 <= cy <= max_combined(),
                0 <= pixels_per_meter <= u16::MAX,
        ;
    }
    ((cx * pixels_per_meter as u64 + 50) / 100, (cy * pixels_per_meter as u64 + 50) / 100)
}

} // verus!
