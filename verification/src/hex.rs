//! Axial hexagonal coordinates and the lattice queries built on them.
//!
//! Rings, spirals and lines are computed by the `hexx` crate. What it returns
//! is stated here over `Cell`, the mathematical counterpart of `Hex`.

use crate::lattice::{
    lemma_ring_complete, lemma_ring_distance, lemma_ring_distinct, lemma_spiral_distinct,
    lemma_spiral_first, lemma_spiral_len, lemma_spiral_locate, lemma_spiral_ordered,
    ring_index_of,
};
use vstd::prelude::*;

verus! {

/// Largest magnitude of an axial coordinate, and largest ring radius, that the
/// lattice queries accept. Within it every intermediate value fits an `i32`
/// and converts to single precision without loss.
pub const COORD_LIMIT: i32 = 1_048_576;

/// A cell of the unbounded hexagonal lattice, in axial coordinates.
pub struct Cell {
    pub x: int,
    pub y: int,
}

/// Absolute value of an integer.
pub open spec fn magnitude(v: int) -> int {
    if v < 0 {
        -v
    } else {
        v
    }
}

impl Cell {
    /// The third cubic coordinate.
    pub open spec fn z(self) -> int {
        -self.x - self.y
    }

    /// Coordinate-wise sum.
    pub open spec fn plus(self, other: Cell) -> Cell {
        Cell { x: self.x + other.x, y: self.y + other.y }
    }

    /// Coordinate-wise difference.
    pub open spec fn minus(self, other: Cell) -> Cell {
        Cell { x: self.x - other.x, y: self.y - other.y }
    }

    /// Both coordinates multiplied by `k`.
    pub open spec fn times(self, k: int) -> Cell {
        Cell { x: self.x * k, y: self.y * k }
    }

    /// Number of steps from the origin: the largest cubic coordinate in
    /// magnitude.
    pub open spec fn length(self) -> int {
        let a = magnitude(self.x);
        let b = magnitude(self.y);
        let c = magnitude(self.z());
        if a >= b && a >= c {
            a
        } else if b >= c {
            b
        } else {
            c
        }
    }

    /// Number of steps between two cells.
    pub open spec fn distance(self, other: Cell) -> int {
        self.minus(other).length()
    }
}

/// Largest number of rings that a spiral walk accepts: the walk is held in
/// memory as a whole and grows with the square of the ring count.
pub const SPIRAL_LIMIT: u32 = 1024;

/// An executable hexagonal coordinate.
#[derive(Clone, Copy, PartialEq, Eq, Structural, Hash, Debug)]
pub struct Hex {
    pub x: i32,
    pub y: i32,
}

impl View for Hex {
    type V = Cell;

    open spec fn view(&self) -> Cell {
        Cell { x: self.x as int, y: self.y as int }
    }
}

impl Hex {
    /// Whether both coordinates stay within `COORD_LIMIT` of zero when moved
    /// by up to `margin` steps.
    pub open spec fn within(self, margin: int) -> bool {
        &&& margin - COORD_LIMIT <= self.x <= COORD_LIMIT - margin
        &&& margin - COORD_LIMIT <= self.y <= COORD_LIMIT - margin
    }

    /// Whether both coordinates lie within `COORD_LIMIT` of zero.
    pub open spec fn in_bounds(self) -> bool {
        self.within(0)
    }

    /// The coordinate `(x, y)`.
    pub fn new(x: i32, y: i32) -> (h: Hex)
        ensures
            h.x == x,
            h.y == y,
    {
        Hex { x, y }
    }

    /// Runtime test of `within`.
    pub fn is_within(&self, margin: i32) -> (ok: bool)
        ensures
            ok == self.within(margin as int),
    {
        let low: i64 = margin as i64 - COORD_LIMIT as i64;
        let high: i64 = COORD_LIMIT as i64 - margin as i64;
        low <= self.x as i64 && self.x as i64 <= high && low <= self.y as i64 && self.y as i64
            <= high
    }

    /// Runtime test of `in_bounds`.
    pub fn is_in_bounds(&self) -> (ok: bool)
        ensures
            ok == self.in_bounds(),
    {
        self.is_within(0)
    }
}

/// The six neighbour offsets in the order in which a ring is walked: `(1, 0)`
/// first, then `(0, 1)`, `(-1, 1)`, `(-1, 0)`, `(0, -1)` and `(1, -1)`.
pub open spec fn edge_dir(i: int) -> Cell {
    let j = i % 6;
    if j == 0 {
        Cell { x: 1, y: 0 }
    } else if j == 1 {
        Cell { x: 0, y: 1 }
    } else if j == 2 {
        Cell { x: -1, y: 1 }
    } else if j == 3 {
        Cell { x: -1, y: 0 }
    } else if j == 4 {
        Cell { x: 0, y: -1 }
    } else {
        Cell { x: 1, y: -1 }
    }
}

/// Number of cells on the ring of the given radius.
pub open spec fn ring_len(radius: int) -> nat {
    if radius < 0 {
        0
    } else if radius == 0 {
        1
    } else {
        (6 * radius) as nat
    }
}

/// Cell number `k` on side number `side` of a ring: side `side` starts at the
/// corner `radius` steps from the centre in direction `side` and runs in
/// direction `side + 2`.
pub open spec fn ring_side_cell(center: Cell, radius: int, side: int, k: int) -> Cell {
    center.plus(edge_dir(side).times(radius)).plus(edge_dir(side + 2).times(k))
}

/// Cell number `i` of a ring. A ring of positive radius has six sides of
/// `radius` cells each.
pub open spec fn ring_cell(center: Cell, radius: int, i: int) -> Cell {
    if radius <= 0 {
        center
    } else {
        ring_side_cell(center, radius, i / radius, i % radius)
    }
}

/// The ring of the given radius round `center`, in walking order. It is empty
/// for a negative radius and holds the centre alone for radius zero.
pub open spec fn ring_cells(center: Cell, radius: int) -> Seq<Cell> {
    Seq::new(ring_len(radius), |i: int| ring_cell(center, radius, i))
}

/// The rings of radius `0` up to `rings - 1` round `center`, one after the
/// other, each in its walking order.
pub open spec fn spiral_cells(center: Cell, rings: nat) -> Seq<Cell>
    decreases rings,
{
    if rings == 0 {
        Seq::empty()
    } else {
        spiral_cells(center, (rings - 1) as nat) + ring_cells(center, rings - 1)
    }
}

/// Number of cells on the rings of radius `0` up to `rings - 1`.
pub open spec fn spiral_len(rings: nat) -> nat
    decreases rings,
{
    if rings == 0 {
        0
    } else {
        spiral_len((rings - 1) as nat) + ring_len(rings - 1)
    }
}

/// The cells that `hexx::Hex::line_to` gives for a line between two cells: one
/// cell for each step of the distance, found by interpolating between the two
/// coordinates in single precision and rounding to the nearest cell.
pub uninterp spec fn line_cells(from: Cell, to: Cell) -> Seq<Cell>;

/// The cells that a sequence of coordinates stands for.
pub open spec fn cells_of(hexes: Seq<Hex>) -> Seq<Cell> {
    hexes.map_values(|h: Hex| h@)
}

/// Calls `hexx::Hex::ring`. That function starts at the cell `radius` steps
/// from the centre in its default direction, `(1, 0)`, and walks round the
/// centre by single neighbour steps, `radius` of them in each of the six
/// directions, beginning with `(-1, 1)`. It yields the start and the cell
/// reached by each step but the last: `6 * radius` cells, or the centre alone
/// for radius zero. `lemma_ring_walk` shows that `ring_cells` is this walk.
#[verifier::external_body]
fn hexx_ring(center: Hex, radius: u32) -> (cells: Vec<Hex>)
    requires
        center.within(radius as int),
    ensures
        cells_of(cells@) == ring_cells(center@, radius as int),
{
    hexx::Hex::new(center.x, center.y).ring(radius).map(|h| Hex::new(h.x, h.y)).collect()
}

/// All cells at exactly `radius` steps from `center`, each once, walked from
/// the cell in direction `(1, 0)` through the one in direction `(0, 1)` and on
/// round. No cell for a negative radius, the centre alone for radius zero.
pub fn ring(center: Hex, radius: i32) -> (cells: Vec<Hex>)
    requires
        center.within(radius as int),
    ensures
        cells_of(cells@) == ring_cells(center@, radius as int),
        radius < 0 ==> cells@.len() == 0,
        radius == 0 ==> cells@.len() == 1,
        radius > 0 ==> cells@.len() == 6 * radius,
        forall|i: int| 0 <= i < cells@.len() ==> (#[trigger] cells@[i]).in_bounds(),
        forall|i: int| 0 <= i < cells@.len() ==> center@.distance(#[trigger] cells@[i]@) == radius,
        forall|i: int, j: int|
            0 <= i < j < cells@.len() ==> #[trigger] cells@[i] != #[trigger] cells@[j],
        forall|h: Hex| radius >= 0 && center@.distance(h@) == radius ==> cells@.contains(h),
{
    if radius < 0 {
        let cells: Vec<Hex> = Vec::new();
        assert(cells_of(cells@) =~= ring_cells(center@, radius as int));
        cells
    } else {
        let cells = hexx_ring(center, radius as u32);
        proof {
            let model = ring_cells(center@, radius as int);
            assert(cells_of(cells@).len() == cells@.len());
            assert forall|i: int| 0 <= i < cells@.len() implies #[trigger] cells@[i]@
                == model[i] by {
                assert(cells_of(cells@)[i] == cells@[i]@);
            }
            assert forall|i: int| 0 <= i < cells@.len() implies center@.distance(
                #[trigger] cells@[i]@,
            ) == radius by {
                lemma_ring_distance(center@, radius as int, i);
            }
            assert forall|i: int| 0 <= i < cells@.len() implies (#[trigger] cells@[i]).in_bounds() by {
                lemma_ring_distance(center@, radius as int, i);
            }
            assert forall|i: int, j: int| 0 <= i < j < cells@.len() implies #[trigger] cells@[i]
                != #[trigger] cells@[j] by {
                lemma_ring_distinct(center@, radius as int, i, j);
            }
            assert forall|h: Hex| center@.distance(h@) == radius implies cells@.contains(h) by {
                lemma_ring_complete(center@, radius as int, h@);
                let i = ring_index_of(center@, radius as int, h@);
                assert(cells@[i]@ == h@);
                assert(cells@[i] == h);
            }
        }
        cells
    }
}

/// Calls `hexx::Hex::spiral_range` on the radii `0..rings`. That function
/// collects the ring of each radius of the range in turn, as `hexx::Hex::ring`
/// gives it, and chains them.
#[verifier::external_body]
fn hexx_spiral_range(center: Hex, rings: u32) -> (cells: Vec<Hex>)
    requires
        center.within(rings as int),
        rings <= SPIRAL_LIMIT,
    ensures
        cells_of(cells@) == spiral_cells(center@, rings as nat),
{
    hexx::Hex::new(center.x, center.y).spiral_range(0..rings).map(|h| Hex::new(h.x, h.y)).collect()
}

/// The cells within `rings - 1` steps of `center`, ring by ring outward from
/// the centre itself, each ring in the order of `ring`.
pub fn spiral_range(center: Hex, rings: u32) -> (cells: Vec<Hex>)
    requires
        center.within(rings as int),
        rings <= SPIRAL_LIMIT,
    ensures
        cells_of(cells@) == spiral_cells(center@, rings as nat),
        cells@.len() == spiral_len(rings as nat),
        rings > 0 ==> cells@[0] == center,
        forall|i: int| 0 <= i < cells@.len() ==> center@.distance(#[trigger] cells@[i]@) < rings,
        forall|i: int| 0 <= i < cells@.len() ==> (#[trigger] cells@[i]).in_bounds(),
        forall|i: int, j: int|
            0 <= i <= j < cells@.len() ==> center@.distance(#[trigger] cells@[i]@)
                <= center@.distance(#[trigger] cells@[j]@),
        forall|i: int, j: int|
            0 <= i < j < cells@.len() ==> #[trigger] cells@[i] != #[trigger] cells@[j],
{
    let cells = hexx_spiral_range(center, rings);
    proof {
        let model = spiral_cells(center@, rings as nat);
        lemma_spiral_len(center@, rings as nat);
        assert(cells_of(cells@).len() == cells@.len());
        assert forall|i: int| 0 <= i < cells@.len() implies #[trigger] cells@[i]@ == model[i] by {
            assert(cells_of(cells@)[i] == cells@[i]@);
        }
        if rings > 0 {
            lemma_spiral_first(center@, rings as nat);
            assert(cells@[0]@ == center@);
        }
        assert forall|i: int| 0 <= i < cells@.len() implies center@.distance(
            #[trigger] cells@[i]@,
        ) < rings by {
            lemma_spiral_locate(center@, rings as nat, i);
        }
        assert forall|i: int| 0 <= i < cells@.len() implies (#[trigger] cells@[i]).in_bounds() by {
            lemma_spiral_locate(center@, rings as nat, i);
        }
        assert forall|i: int, j: int| 0 <= i <= j < cells@.len() implies center@.distance(
            #[trigger] cells@[i]@,
        ) <= center@.distance(#[trigger] cells@[j]@) by {
            lemma_spiral_ordered(center@, rings as nat, i, j);
        }
        assert forall|i: int, j: int| 0 <= i < j < cells@.len() implies #[trigger] cells@[i]
            != #[trigger] cells@[j] by {
            lemma_spiral_distinct(center@, rings as nat, i, j);
        }
    }
    cells
}

/// Calls `hexx::Hex::line_to`. That function yields one cell for each of the
/// steps `0..=distance`, where step `0` interpolates to `from` itself and step
/// `distance` to `to` itself; within `COORD_LIMIT` both convert to single
/// precision and back without loss.
#[verifier::external_body]
fn hexx_line_to(from: Hex, to: Hex) -> (line: Vec<Hex>)
    requires
        from.in_bounds(),
        to.in_bounds(),
    ensures
        cells_of(line@) == line_cells(from@, to@),
        line@.len() == from@.distance(to@) + 1,
        line@[0] == from,
        line@[line@.len() - 1] == to,
{
    hexx::Hex::new(from.x, from.y).line_to(hexx::Hex::new(to.x, to.y)).map(
        |h| Hex::new(h.x, h.y),
    ).collect()
}

/// The cells that a straight line from `from` to `to` crosses, both ends
/// included: a single cell where the two are the same.
pub fn line_to(from: Hex, to: Hex) -> (line: Vec<Hex>)
    requires
        from.in_bounds(),
        to.in_bounds(),
    ensures
        cells_of(line@) == line_cells(from@, to@),
        line@.len() == from@.distance(to@) + 1,
        line@[0] == from,
        line@[line@.len() - 1] == to,
        from == to ==> line@ == seq![from],
{
    let line = hexx_line_to(from, to);
    assert(from == to ==> line@ =~= seq![from]);
    line
}

} // verus!
