//! Facts about rings and spirals of the hexagonal lattice.

use crate::hex::{
    edge_dir, ring_cell, ring_cells, ring_len, ring_side_cell, spiral_cells, spiral_len, Cell,
};
use vstd::arithmetic::div_mod::{
    lemma_div_pos_is_pos, lemma_fundamental_div_mod, lemma_fundamental_div_mod_converse,
    lemma_mod_pos_bound, lemma_multiply_divide_lt,
};
use vstd::prelude::*;

verus! {

/// A ring index splits into one of six sides and a place on that side.
pub proof fn lemma_ring_index_parts(radius: int, i: int)
    requires
        radius > 0,
        0 <= i < 6 * radius,
    ensures
        0 <= i / radius < 6,
        0 <= i % radius < radius,
        i == (i / radius) * radius + i % radius,
{
    lemma_fundamental_div_mod(i, radius);
    lemma_mod_pos_bound(i, radius);
    lemma_div_pos_is_pos(i, radius);
    lemma_multiply_divide_lt(i, radius, 6);
    assert(radius * (i / radius) == (i / radius) * radius) by (nonlinear_arith);
}

/// The coordinates of a cell on a side of a ring, written out side by side.
pub proof fn lemma_ring_side_cell(center: Cell, radius: int, side: int, k: int)
    requires
        0 <= side < 6,
    ensures
        side == 0 ==> ring_side_cell(center, radius, side, k) == (Cell {
            x: center.x + radius - k,
            y: center.y + k,
        }),
        side == 1 ==> ring_side_cell(center, radius, side, k) == (Cell {
            x: center.x - k,
            y: center.y + radius,
        }),
        side == 2 ==> ring_side_cell(center, radius, side, k) == (Cell {
            x: center.x - radius,
            y: center.y + radius - k,
        }),
        side == 3 ==> ring_side_cell(center, radius, side, k) == (Cell {
            x: center.x - radius + k,
            y: center.y - k,
        }),
        side == 4 ==> ring_side_cell(center, radius, side, k) == (Cell {
            x: center.x + k,
            y: center.y - radius,
        }),
        side == 5 ==> ring_side_cell(center, radius, side, k) == (Cell {
            x: center.x + radius,
            y: center.y - radius + k,
        }),
{
    let a = edge_dir(side);
    let b = edge_dir(side + 2);
    assert(a.times(radius).x == a.x * radius);
    assert(b.times(k).x == b.x * k);
}

/// Every cell on a side of a ring lies `radius` steps from the centre.
pub proof fn lemma_ring_side_distance(center: Cell, radius: int, side: int, k: int)
    requires
        radius > 0,
        0 <= side < 6,
        0 <= k < radius,
    ensures
        center.distance(ring_side_cell(center, radius, side, k)) == radius,
{
    lemma_ring_side_cell(center, radius, side, k);
}

/// Two places on the sides of one ring hold the same cell only if they are
/// the same place.
pub proof fn lemma_ring_side_injective(
    center: Cell,
    radius: int,
    s1: int,
    k1: int,
    s2: int,
    k2: int,
)
    requires
        radius > 0,
        0 <= s1 < 6,
        0 <= k1 < radius,
        0 <= s2 < 6,
        0 <= k2 < radius,
        ring_side_cell(center, radius, s1, k1) == ring_side_cell(center, radius, s2, k2),
    ensures
        s1 == s2,
        k1 == k2,
{
    lemma_ring_side_cell(center, radius, s1, k1);
    lemma_ring_side_cell(center, radius, s2, k2);
}

/// A ring is a walk of single neighbour steps. It starts `radius` steps from
/// the centre in direction `0`, and from place `i` it goes on in direction
/// `i / radius + 2`: `radius` steps in each direction, the last step left out,
/// which would close the ring.
pub proof fn lemma_ring_walk(center: Cell, radius: int, i: int)
    requires
        radius > 0,
        0 <= i,
        i + 1 < 6 * radius,
    ensures
        ring_cells(center, radius)[0] == center.plus(edge_dir(0).times(radius)),
        ring_cells(center, radius)[i + 1] == ring_cells(center, radius)[i].plus(
            edge_dir(i / radius + 2),
        ),
{
    lemma_ring_index_parts(radius, 0);
    lemma_ring_index_parts(radius, i);
    let side = i / radius;
    let k = i % radius;
    lemma_fundamental_div_mod_converse(0, radius, 0, 0);
    lemma_ring_side_cell(center, radius, 0, 0);
    lemma_ring_side_cell(center, radius, side, k);
    if k + 1 < radius {
        lemma_fundamental_div_mod_converse(i + 1, radius, side, k + 1);
        lemma_ring_side_cell(center, radius, side, k + 1);
    } else {
        assert(i + 1 == (side + 1) * radius) by (nonlinear_arith)
            requires
                i == side * radius + k,
                k + 1 == radius,
        ;
        assert(side + 1 < 6) by (nonlinear_arith)
            requires
                (side + 1) * radius < 6 * radius,
                radius > 0,
        ;
        lemma_fundamental_div_mod_converse(i + 1, radius, side + 1, 0);
        lemma_ring_side_cell(center, radius, side + 1, 0);
    }
}

/// Every cell of a ring lies exactly `radius` steps from its centre.
pub proof fn lemma_ring_distance(center: Cell, radius: int, i: int)
    requires
        0 <= i < ring_len(radius),
    ensures
        center.distance(ring_cells(center, radius)[i]) == radius,
{
    if radius > 0 {
        lemma_ring_index_parts(radius, i);
        lemma_ring_side_distance(center, radius, i / radius, i % radius);
    }
}

/// No cell occurs twice on a ring.
pub proof fn lemma_ring_distinct(center: Cell, radius: int, i: int, j: int)
    requires
        0 <= i < ring_len(radius),
        0 <= j < ring_len(radius),
        i != j,
    ensures
        ring_cells(center, radius)[i] != ring_cells(center, radius)[j],
{
    if radius > 0 {
        lemma_ring_index_parts(radius, i);
        lemma_ring_index_parts(radius, j);
        if ring_cell(center, radius, i) == ring_cell(center, radius, j) {
            lemma_ring_side_injective(
                center,
                radius,
                i / radius,
                i % radius,
                j / radius,
                j % radius,
            );
        }
    }
}

/// The place on the ring round `center` at which `cell` stands, for a cell at
/// `radius` steps from the centre.
pub open spec fn ring_index_of(center: Cell, radius: int, cell: Cell) -> int {
    let dx = cell.x - center.x;
    let dy = cell.y - center.y;
    if radius <= 0 {
        0
    } else if dx + dy == radius && dx > 0 {
        dy
    } else if dy == radius && dx > -radius {
        radius - dx
    } else if dx == -radius && dy > 0 {
        2 * radius + (radius - dy)
    } else if dx + dy == -radius && dx < 0 {
        3 * radius - dy
    } else if dy == -radius && dx < radius {
        4 * radius + dx
    } else {
        5 * radius + (dy + radius)
    }
}

/// Every cell at `radius` steps from the centre stands on the ring, at the
/// place that `ring_index_of` gives.
pub proof fn lemma_ring_complete(center: Cell, radius: int, cell: Cell)
    requires
        radius >= 0,
        center.distance(cell) == radius,
    ensures
        0 <= ring_index_of(center, radius, cell) < ring_len(radius),
        ring_cells(center, radius)[ring_index_of(center, radius, cell)] == cell,
{
    if radius > 0 {
        let dx = cell.x - center.x;
        let dy = cell.y - center.y;
        let i = ring_index_of(center, radius, cell);
        if dx + dy == radius && dx > 0 {
            lemma_fundamental_div_mod_converse(i, radius, 0, dy);
            lemma_ring_side_cell(center, radius, 0, dy);
        } else if dy == radius && dx > -radius {
            lemma_fundamental_div_mod_converse(i, radius, 1, -dx);
            lemma_ring_side_cell(center, radius, 1, -dx);
        } else if dx == -radius && dy > 0 {
            lemma_fundamental_div_mod_converse(i, radius, 2, radius - dy);
            lemma_ring_side_cell(center, radius, 2, radius - dy);
        } else if dx + dy == -radius && dx < 0 {
            lemma_fundamental_div_mod_converse(i, radius, 3, -dy);
            lemma_ring_side_cell(center, radius, 3, -dy);
        } else if dy == -radius && dx < radius {
            lemma_fundamental_div_mod_converse(i, radius, 4, dx);
            lemma_ring_side_cell(center, radius, 4, dx);
        } else {
            lemma_fundamental_div_mod_converse(i, radius, 5, dy + radius);
            lemma_ring_side_cell(center, radius, 5, dy + radius);
        }
    }
}

/// A ring is the set of cells at exactly `radius` steps from its centre.
pub proof fn lemma_ring_is_circle(center: Cell, radius: int, cell: Cell)
    ensures
        ring_cells(center, radius).contains(cell) <==> (radius >= 0 && center.distance(cell)
            == radius),
{
    if ring_cells(center, radius).contains(cell) {
        let i = choose|i: int|
            0 <= i < ring_cells(center, radius).len() && ring_cells(center, radius)[i] == cell;
        lemma_ring_distance(center, radius, i);
    }
    if radius >= 0 && center.distance(cell) == radius {
        lemma_ring_complete(center, radius, cell);
    }
}

/// A spiral of `rings` rings holds `spiral_len(rings)` cells.
pub proof fn lemma_spiral_len(center: Cell, rings: nat)
    ensures
        spiral_cells(center, rings).len() == spiral_len(rings),
    decreases rings,
{
    if rings > 0 {
        lemma_spiral_len(center, (rings - 1) as nat);
    }
}

/// The cell count of a spiral in closed form: one centre and `6 * r` cells
/// for each further radius `r`.
pub proof fn lemma_spiral_len_formula(rings: nat)
    requires
        rings >= 1,
    ensures
        spiral_len(rings) == 3 * rings * (rings - 1) + 1,
    decreases rings,
{
    if rings == 1 {
        assert(spiral_len(0) == 0);
        assert(spiral_len(1) == 1);
    } else {
        lemma_spiral_len_formula((rings - 1) as nat);
        let m = rings - 1;
        assert(spiral_len(rings) == spiral_len(m as nat) + 6 * m);
        assert(3 * m * (m - 1) + 1 + 6 * m == 3 * (m + 1) * m + 1) by (nonlinear_arith);
    }
}

/// A spiral of more rings holds at least as many cells.
pub proof fn lemma_spiral_len_monotone(fewer: nat, more: nat)
    requires
        fewer <= more,
    ensures
        spiral_len(fewer) <= spiral_len(more),
    decreases more,
{
    if fewer < more {
        lemma_spiral_len_monotone(fewer, (more - 1) as nat);
    }
}

/// The radius of the ring on which place `i` of a spiral of `rings` rings
/// stands.
pub open spec fn spiral_ring_of(rings: nat, i: int) -> nat
    decreases rings,
{
    if rings == 0 {
        0
    } else if i >= spiral_len((rings - 1) as nat) {
        (rings - 1) as nat
    } else {
        spiral_ring_of((rings - 1) as nat, i)
    }
}

/// Place `i` of a spiral stands on the ring of radius `spiral_ring_of`, at the
/// place left after the cells of the smaller rings, and so at that many steps
/// from the centre.
pub proof fn lemma_spiral_locate(center: Cell, rings: nat, i: int)
    requires
        0 <= i < spiral_len(rings),
    ensures
        spiral_ring_of(rings, i) < rings,
        spiral_len(spiral_ring_of(rings, i)) <= i < spiral_len(spiral_ring_of(rings, i) + 1),
        spiral_cells(center, rings)[i] == ring_cells(center, spiral_ring_of(rings, i) as int)[i
            - spiral_len(spiral_ring_of(rings, i))],
        center.distance(spiral_cells(center, rings)[i]) == spiral_ring_of(rings, i),
    decreases rings,
{
    let inner = (rings - 1) as nat;
    lemma_spiral_len(center, inner);
    if i >= spiral_len(inner) {
        lemma_ring_distance(center, inner as int, i - spiral_len(inner));
    } else {
        lemma_spiral_locate(center, inner, i);
    }
}

/// A spiral with at least one ring starts at its centre.
pub proof fn lemma_spiral_first(center: Cell, rings: nat)
    requires
        rings > 0,
    ensures
        spiral_len(rings) > 0,
        spiral_cells(center, rings)[0] == center,
{
    lemma_spiral_len_monotone(1, rings);
    assert(spiral_len(1) == spiral_len(0) + ring_len(0));
    lemma_spiral_locate(center, rings, 0);
    let r = spiral_ring_of(rings, 0);
    if r > 0 {
        lemma_spiral_len_monotone(1, r);
    }
}

/// Along a spiral the distance from the centre never decreases.
pub proof fn lemma_spiral_ordered(center: Cell, rings: nat, i: int, j: int)
    requires
        0 <= i <= j < spiral_len(rings),
    ensures
        center.distance(spiral_cells(center, rings)[i]) <= center.distance(
            spiral_cells(center, rings)[j],
        ),
{
    lemma_spiral_locate(center, rings, i);
    lemma_spiral_locate(center, rings, j);
    let a = spiral_ring_of(rings, i);
    let b = spiral_ring_of(rings, j);
    if a > b {
        lemma_spiral_len_monotone(b + 1, a);
    }
}

/// No cell occurs twice in a spiral.
pub proof fn lemma_spiral_distinct(center: Cell, rings: nat, i: int, j: int)
    requires
        0 <= i < spiral_len(rings),
        0 <= j < spiral_len(rings),
        i != j,
    ensures
        spiral_cells(center, rings)[i] != spiral_cells(center, rings)[j],
{
    lemma_spiral_locate(center, rings, i);
    lemma_spiral_locate(center, rings, j);
    let a = spiral_ring_of(rings, i);
    let b = spiral_ring_of(rings, j);
    if a == b {
        assert(spiral_len(a + 1) == spiral_len(a) + ring_len(a as int));
        lemma_ring_distinct(center, a as int, i - spiral_len(a), j - spiral_len(a));
    }
}

} // verus!
