//! The user-driven selection region: a quadrilateral (four corner points
//! forming two triangles) plus pressed/released flags. The tile world
//! consumes it read-only to flag tiles as selected.

use vstd::prelude::*;

use crate::geom::Pos;

verus! {

/// Triangles with any pair of corner coordinates closer than this (in
/// milli-units) are treated as degenerate: nothing is inside them.
pub const MIN_EDGE: i64 = 5_000;

/// The cross product of the vector giving the line `a -> b` with the
/// vector from `a` to `v`. One side of the line has the opposite sign of
/// the other.
pub open spec fn line_side_spec(a: Pos, b: Pos, v: Pos) -> int {
    (b.x - a.x) * (v.y - a.y) - (b.y - a.y) * (v.x - a.x)
}

/// True when `v` lies inside the triangle `a b c`: the side number of `v`
/// has the same sign for all three edges. Triangles with nearly equal
/// corner coordinates are degenerate and contain nothing.
pub open spec fn inside_triangle_spec(a: Pos, b: Pos, c: Pos, v: Pos) -> bool {
    if degenerate_spec(a, b, c) {
        false
    } else {
        let ab = line_side_spec(a, b, v) >= 0;
        let bc = line_side_spec(b, c, v) >= 0;
        let ca = line_side_spec(c, a, v) >= 0;
        ab == bc && bc == ca
    }
}

/// Some pair of corner coordinates is closer than the minimum edge size.
pub open spec fn degenerate_spec(a: Pos, b: Pos, c: Pos) -> bool {
    ||| abs_lt(a.x as int, b.x as int)
    ||| abs_lt(a.y as int, b.y as int)
    ||| abs_lt(b.x as int, c.x as int)
    ||| abs_lt(b.y as int, c.y as int)
    ||| abs_lt(a.x as int, c.x as int)
    ||| abs_lt(a.y as int, c.y as int)
}

/// The two coordinates differ by less than the minimum edge size.
pub open spec fn abs_lt(u: int, w: int) -> bool {
    -MIN_EDGE < u - w < MIN_EDGE
}

/// The two coordinates differ by less than the minimum edge size.
fn near(u: i64, w: i64) -> (r: bool)
    requires
        -crate::COORD_LIMIT <= u <= crate::COORD_LIMIT,
        -crate::COORD_LIMIT <= w <= crate::COORD_LIMIT,
    ensures
        r == abs_lt(u as int, w as int),
{
    let d = u - w;
    -MIN_EDGE < d && d < MIN_EDGE
}

/// Returns a number telling which side of the line `a -> b` the point `v`
/// is on.
fn line_side(a: Pos, b: Pos, v: Pos) -> (s: i64)
    requires
        a.bounded(),
        b.bounded(),
        v.bounded(),
    ensures
        s == line_side_spec(a, b, v),
{
    let d1 = b.x - a.x;
    let d2 = v.y - a.y;
    let d3 = b.y - a.y;
    let d4 = v.x - a.x;
    proof {
        assert(-4_000_000_000_000_000_000 <= d1 * d2 <= 4_000_000_000_000_000_000)
            by (nonlinear_arith)
            requires
                -2_000_000_000 <= d1 <= 2_000_000_000,
                -2_000_000_000 <= d2 <= 2_000_000_000,
        ;
        assert(-4_000_000_000_000_000_000 <= d3 * d4 <= 4_000_000_000_000_000_000)
            by (nonlinear_arith)
            requires
                -2_000_000_000 <= d3 <= 2_000_000_000,
                -2_000_000_000 <= d4 <= 2_000_000_000,
        ;
    }
    d1 * d2 - d3 * d4
}

/// Returns true when the point `v` is inside the triangle `a b c`.
pub fn inside_triangle(a: Pos, b: Pos, c: Pos, v: Pos) -> (r: bool)
    requires
        a.bounded(),
        b.bounded(),
        c.bounded(),
        v.bounded(),
    ensures
        r == inside_triangle_spec(a, b, c, v),
{
    let degenerate = near(a.x, b.x) || near(a.y, b.y) || near(b.x, c.x) || near(b.y, c.y) || near(
        a.x,
        c.x,
    ) || near(a.y, c.y);
    if degenerate {
        return false;
    }
    let ab = line_side(a, b, v) >= 0;
    let bc = line_side(b, c, v) >= 0;
    let ca = line_side(c, a, v) >= 0;
    ab == bc && bc == ca
}

/// Lifecycle of a selection gesture.
#[derive(Copy, Clone)]
pub enum SelectionState {
    Inactive,
    Selecting,
    Confirmed,
    Cancelled,
}

/// A selection quadrilateral with its input flags. The corner coordinates
/// are driven by the input layer; the simulation only reads them.
pub struct Selection {
    pub coords: [Pos; 4],
    pub pressed: bool,
    pub state: SelectionState,
    pub released: bool,
}

impl Selection {
    /// All four corners are within the world coordinate bounds.
    pub open spec fn wf(self) -> bool {
        forall|i: int| 0 <= i < 4 ==> (#[trigger] self.coords@[i]).bounded()
    }

    /// A position is selected when it falls inside either of the two
    /// triangles the quadrilateral is split into.
    pub open spec fn is_selected_spec(self, p: Pos) -> bool {
        ||| inside_triangle_spec(self.coords@[0], self.coords@[1], self.coords@[2], p)
        ||| inside_triangle_spec(self.coords@[0], self.coords@[2], self.coords@[3], p)
    }

    /// An inactive selection: corners at the origin, nothing pressed.
    pub fn new() -> (s: Selection)
        ensures
            s.wf(),
            !s.pressed,
            s.released,
            s.state is Inactive,
            forall|i: int| 0 <= i < 4 ==> (#[trigger] s.coords@[i]) == (Pos { x: 0, y: 0 }),
    {
        Selection {
            state: SelectionState::Inactive,
            coords: [
                Pos { x: 0, y: 0 },
                Pos { x: 0, y: 0 },
                Pos { x: 0, y: 0 },
                Pos { x: 0, y: 0 },
            ],
            pressed: false,
            released: true,
        }
    }

    /// Tests whether a position falls inside the selection quadrilateral,
    /// via the two-triangle inside-test.
    pub fn is_selected(&self, p: Pos) -> (r: bool)
        requires
            self.wf(),
            p.bounded(),
        ensures
            r == self.is_selected_spec(p),
    {
        inside_triangle(self.coords[0], self.coords[1], self.coords[2], p) || inside_triangle(
            self.coords[0],
            self.coords[2],
            self.coords[3],
            p,
        )
    }
}

} // verus!
