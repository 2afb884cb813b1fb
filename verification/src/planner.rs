//! Destination allocation and path planning for a move order.

use crate::hex::{
    cells_of, line_cells, line_to, spiral_cells, spiral_len, spiral_range, Cell, Hex,
};
use crate::lattice::{lemma_spiral_len, lemma_spiral_len_formula};
use crate::units::{units_of, Path, Unit, UnitView};
use vstd::prelude::*;

verus! {

/// Number of rings round the target that are searched for destinations.
pub const SEARCH_RINGS: u32 = 10;

/// Number of cells on those rings: the most units that one order can move.
pub const CAPACITY: usize = 271;

/// Number of units of `count` that get a destination.
pub open spec fn allocated_count(count: nat) -> nat {
    if count <= CAPACITY {
        count
    } else {
        CAPACITY as nat
    }
}

/// The destinations handed out for `count` units: the first cells of the
/// spiral round the target, one per unit, as far as the search rings reach.
pub open spec fn destination_cells(target: Cell, count: nat) -> Seq<Cell> {
    spiral_cells(target, SEARCH_RINGS as nat).take(allocated_count(count) as int)
}

/// The search rings hold exactly `CAPACITY` cells.
pub proof fn lemma_capacity()
    ensures
        spiral_len(SEARCH_RINGS as nat) == CAPACITY,
{
    lemma_spiral_len_formula(SEARCH_RINGS as nat);
}

/// Picks a destination for each of `count` units that are ordered to `target`.
/// Unit `i` of the order gets cell `i` of the spiral round the target. Units
/// beyond `CAPACITY` get none.
pub fn allocate_destinations(target: Hex, count: usize) -> (destinations: Vec<Hex>)
    requires
        target.within(SEARCH_RINGS as int),
    ensures
        cells_of(destinations@) == destination_cells(target@, count as nat),
        destinations@.len() == allocated_count(count as nat),
        forall|i: int, j: int|
            0 <= i < j < destinations@.len() ==> #[trigger] destinations@[i]
                != #[trigger] destinations@[j],
        forall|i: int|
            0 <= i < destinations@.len() ==> target@.distance(#[trigger] destinations@[i]@)
                < SEARCH_RINGS,
        forall|i: int| 0 <= i < destinations@.len() ==> (#[trigger] destinations@[i]).in_bounds(),
{
    let spiral = spiral_range(target, SEARCH_RINGS);
    proof {
        lemma_spiral_len_formula(SEARCH_RINGS as nat);
    }
    let mut destinations: Vec<Hex> = Vec::new();
    let mut allocated: usize = 0;
    while allocated < count && allocated < spiral.len()
        invariant
            allocated <= count,
            allocated <= spiral@.len(),
            destinations@ == spiral@.take(allocated as int),
        decreases spiral@.len() - allocated,
    {
        destinations.push(spiral[allocated]);
        allocated += 1;
        assert(destinations@ =~= spiral@.take(allocated as int));
    }
    assert(cells_of(destinations@) =~= destination_cells(target@, count as nat));
    destinations
}

/// The test that keeps every cell but `cell`.
pub open spec fn differs_from(cell: Cell) -> spec_fn(Cell) -> bool {
    |c: Cell| c != cell
}

/// The waypoints for a walk from `current` to `dest` along `line`: the cells
/// of the line without the unit's own cell. Where nothing is left although
/// the destination is another cell, the destination alone.
pub open spec fn waypoint_cells(current: Cell, dest: Cell, line: Seq<Cell>) -> Seq<Cell> {
    let kept = line.filter(differs_from(current));
    if kept.len() == 0 && current != dest {
        seq![dest]
    } else {
        kept
    }
}

/// Turns the line from a unit's cell to its destination into the unit's
/// waypoints.
pub fn waypoints_along(current: Hex, dest: Hex, line: &Vec<Hex>) -> (waypoints: Vec<Hex>)
    ensures
        cells_of(waypoints@) == waypoint_cells(current@, dest@, cells_of(line@)),
{
    let ghost cells = cells_of(line@);
    let ghost keep = differs_from(current@);
    let mut waypoints: Vec<Hex> = Vec::new();
    let mut i: usize = 0;
    proof {
        reveal(Seq::filter);
        assert(cells.take(0).filter(keep) =~= Seq::<Cell>::empty());
        assert(cells_of(waypoints@) =~= Seq::<Cell>::empty());
    }
    while i < line.len()
        invariant
            i <= line.len(),
            cells == cells_of(line@),
            keep == differs_from(current@),
            cells_of(waypoints@) == cells.take(i as int).filter(keep),
        decreases line.len() - i,
    {
        let hex = line[i];
        let ghost before = waypoints@;
        proof {
            reveal(Seq::filter);
            assert(cells.take(i + 1).drop_last() =~= cells.take(i as int));
            assert(cells.take(i + 1).last() == hex@);
        }
        if hex != current {
            waypoints.push(hex);
            assert(cells_of(waypoints@) =~= cells_of(before).push(hex@));
        }
        i += 1;
    }
    assert(cells.take(line.len() as int) =~= cells);
    if waypoints.len() == 0 && current != dest {
        waypoints.push(dest);
        assert(cells_of(waypoints@) =~= seq![dest@]);
    }
    waypoints
}

/// Plans the walk of a unit that stands on `current` to `dest`.
pub fn plan_path(current: Hex, dest: Hex) -> (waypoints: Vec<Hex>)
    requires
        current.in_bounds(),
        dest.in_bounds(),
    ensures
        cells_of(waypoints@) == waypoint_cells(current@, dest@, line_cells(current@, dest@)),
        current == dest ==> waypoints@.len() == 0,
        current != dest ==> waypoints@.len() > 0 && waypoints@[waypoints@.len() - 1] == dest,
        waypoints@.len() <= current@.distance(dest@),
        forall|i: int| 0 <= i < waypoints@.len() ==> #[trigger] waypoints@[i] != current,
{
    let line = line_to(current, dest);
    let waypoints = waypoints_along(current, dest, &line);
    proof {
        let cells = cells_of(line@);
        let planned = cells_of(waypoints@);
        assert(planned.len() == waypoints@.len());
        lemma_waypoints_avoid_start(current@, dest@, cells);
        assert(cells.first() == line@[0]@);
        lemma_waypoints_fewer_than_line(current@, dest@, cells);
        assert forall|i: int| 0 <= i < waypoints@.len() implies #[trigger] waypoints@[i]
            != current by {
            assert(planned[i] == waypoints@[i]@);
        }
        if current != dest {
            assert(cells.last() == line@[line@.len() - 1]@);
            lemma_waypoints_reach_destination(current@, dest@, cells);
            assert(planned.last() == waypoints@[waypoints@.len() - 1]@);
        } else {
            reveal_with_fuel(Seq::filter, 2);
            assert(cells =~= seq![current@]);
            assert(cells.drop_last().len() == 0);
        }
    }
    waypoints
}

/// The planned waypoints never hold the unit's own cell, and a unit whose
/// destination is another cell gets at least one waypoint, whatever the line.
pub proof fn lemma_waypoints_avoid_start(current: Cell, dest: Cell, line: Seq<Cell>)
    ensures
        forall|i: int|
            0 <= i < waypoint_cells(current, dest, line).len() ==> #[trigger] waypoint_cells(
                current,
                dest,
                line,
            )[i] != current,
        current != dest ==> waypoint_cells(current, dest, line).len() > 0,
{
    let keep = differs_from(current);
    let kept = line.filter(keep);
    assert forall|i: int| 0 <= i < kept.len() implies #[trigger] kept[i] != current by {
        line.lemma_filter_pred(keep, i);
    }
}

/// Where the line starts on the unit's own cell, there are fewer waypoints
/// than cells on the line.
pub proof fn lemma_waypoints_fewer_than_line(current: Cell, dest: Cell, line: Seq<Cell>)
    requires
        line.len() > 0,
        line.first() == current,
        current != dest ==> line.len() > 1,
    ensures
        waypoint_cells(current, dest, line).len() < line.len(),
{
    let keep = differs_from(current);
    let head = seq![current];
    let rest = line.drop_first();
    assert(line =~= head + rest);
    Seq::filter_distributes_over_add(head, rest, keep);
    rest.lemma_filter_len(keep);
    assert(head.filter(keep).len() == 0) by {
        reveal_with_fuel(Seq::filter, 2);
        assert(head.drop_last().len() == 0);
    }
}

/// Where the line ends at the destination and the destination is another
/// cell than the unit's own, the last waypoint is the destination.
pub proof fn lemma_waypoints_reach_destination(current: Cell, dest: Cell, line: Seq<Cell>)
    requires
        current != dest,
        line.len() > 0,
        line.last() == dest,
    ensures
        waypoint_cells(current, dest, line).len() > 0,
        waypoint_cells(current, dest, line).last() == dest,
{
    reveal(Seq::filter);
}

/// The units after one unit of a move order has been given its path. A unit
/// that is not there, or is fixed, is passed over. The order replaces the
/// unit's waypoints and drops its target.
pub open spec fn order_applied(
    units: Seq<UnitView>,
    id: int,
    current: Cell,
    dest: Cell,
    line: Seq<Cell>,
) -> Seq<UnitView> {
    if 0 <= id < units.len() && !units[id].fixed {
        units.update(
            id,
            UnitView { waypoints: waypoint_cells(current, dest, line), target: None, ..units[id] },
        )
    } else {
        units
    }
}

/// The units after the first `done` units of a move order to `target` have
/// been given their paths, in the order in which they are listed. Each entry
/// of `orders` names a unit and the cell on which it stands.
pub open spec fn orders_applied(
    units: Seq<UnitView>,
    target: Cell,
    orders: Seq<(usize, Hex)>,
    done: nat,
) -> Seq<UnitView>
    decreases done,
{
    if done == 0 {
        units
    } else {
        let j = done - 1;
        let current = orders[j].1@;
        let dest = spiral_cells(target, SEARCH_RINGS as nat)[j];
        order_applied(
            orders_applied(units, target, orders, j as nat),
            orders[j].0 as int,
            current,
            dest,
            line_cells(current, dest),
        )
    }
}

/// A move order changes no unit's selected or fixed flag, and adds and
/// removes no unit.
pub proof fn lemma_orders_keep_flags(
    units: Seq<UnitView>,
    target: Cell,
    orders: Seq<(usize, Hex)>,
    done: nat,
)
    ensures
        orders_applied(units, target, orders, done).len() == units.len(),
        forall|id: int|
            0 <= id < units.len() ==> {
                &&& (#[trigger] orders_applied(units, target, orders, done)[id]).selected
                    == units[id].selected
                &&& orders_applied(units, target, orders, done)[id].fixed == units[id].fixed
            },
    decreases done,
{
    if done > 0 {
        lemma_orders_keep_flags(units, target, orders, (done - 1) as nat);
    }
}

/// A unit that is fixed, or that none of the first `done` entries of a move
/// order names, is left as it was.
pub proof fn lemma_orders_leave_others(
    units: Seq<UnitView>,
    target: Cell,
    orders: Seq<(usize, Hex)>,
    done: nat,
    id: int,
)
    requires
        0 <= id < units.len(),
        units[id].fixed || forall|k: int| 0 <= k < done ==> (#[trigger] orders[k]).0 != id,
    ensures
        orders_applied(units, target, orders, done)[id] == units[id],
    decreases done,
{
    if done > 0 {
        lemma_orders_keep_flags(units, target, orders, (done - 1) as nat);
        lemma_orders_leave_others(units, target, orders, (done - 1) as nat, id);
        assert(orders[done - 1].0 != id || units[id].fixed);
    }
}

/// A mobile unit ends with the path of the last entry that names it among
/// the first `done` entries of a move order: the waypoints of the line from
/// the cell given there to the destination of that entry, and no target.
pub proof fn lemma_orders_last_wins(
    units: Seq<UnitView>,
    target: Cell,
    orders: Seq<(usize, Hex)>,
    done: nat,
    j: int,
)
    requires
        0 <= j < done,
        0 <= orders[j].0 < units.len(),
        !units[orders[j].0 as int].fixed,
        forall|k: int| j < k < done ==> (#[trigger] orders[k]).0 != orders[j].0,
    ensures
        orders_applied(units, target, orders, done)[orders[j].0 as int] == (UnitView {
            waypoints: waypoint_cells(
                orders[j].1@,
                spiral_cells(target, SEARCH_RINGS as nat)[j],
                line_cells(orders[j].1@, spiral_cells(target, SEARCH_RINGS as nat)[j]),
            ),
            target: None,
            ..units[orders[j].0 as int]
        }),
    decreases done,
{
    let before = (done - 1) as nat;
    lemma_orders_keep_flags(units, target, orders, before);
    if j < done - 1 {
        lemma_orders_last_wins(units, target, orders, before, j);
        assert(orders[done - 1].0 != orders[j].0);
    }
}

/// Gives one unit of a move order its path, from the line between its cell
/// and its destination.
pub fn apply_order(units: &mut Vec<Unit>, id: usize, current: Hex, dest: Hex, line: &Vec<Hex>)
    ensures
        units_of(final(units)@) == order_applied(
            units_of(old(units)@),
            id as int,
            current@,
            dest@,
            cells_of(line@),
        ),
{
    if id < units.len() && !units[id].fixed {
        let waypoints = waypoints_along(current, dest, line);
        let path = Path::through(&waypoints);
        let unit = &mut units[id];
        unit.path = path;
        unit.target = None;
        assert(units_of(units@) =~= order_applied(
            units_of(old(units)@),
            id as int,
            current@,
            dest@,
            cells_of(line@),
        )) by {
            assert(units_of(old(units)@)[id as int] == old(units)@[id as int]@);
        }
    } else {
        assert(units_of(old(units)@).len() == old(units)@.len());
        if id < units.len() {
            assert(units_of(old(units)@)[id as int] == old(units)@[id as int]@);
        }
    }
}

/// Carries out a move order to `target`. Each entry of `selected_units` names
/// a participating unit and the cell on which it stands. The units get their
/// destinations in the order of the list, and each gets the waypoints of the
/// line from its cell to its destination. Units beyond `CAPACITY` keep what
/// they had.
pub fn calculate_paths(target: Hex, selected_units: &Vec<(usize, Hex)>, units: &mut Vec<Unit>)
    requires
        target.within(SEARCH_RINGS as int),
        forall|i: int|
            0 <= i < allocated_count(selected_units@.len()) ==> (#[trigger] selected_units@[i]).1.in_bounds(),
    ensures
        units_of(final(units)@) == orders_applied(
            units_of(old(units)@),
            target@,
            selected_units@,
            allocated_count(selected_units@.len()),
        ),
{
    let destinations = allocate_destinations(target, selected_units.len());
    let mut i: usize = 0;
    while i < selected_units.len() && i < destinations.len()
        invariant
            i <= destinations@.len(),
            i <= selected_units@.len(),
            destinations@.len() == allocated_count(selected_units@.len()),
            cells_of(destinations@) == destination_cells(target@, selected_units@.len()),
            forall|j: int|
                0 <= j < destinations@.len() ==> (#[trigger] destinations@[j]).in_bounds(),
            forall|j: int|
                0 <= j < allocated_count(selected_units@.len()) ==> (
                #[trigger] selected_units@[j]).1.in_bounds(),
            units_of(units@) == orders_applied(
                units_of(old(units)@),
                target@,
                selected_units@,
                i as nat,
            ),
        decreases destinations@.len() - i,
    {
        let dest = destinations[i];
        let (id, current) = selected_units[i];
        proof {
            assert(cells_of(destinations@)[i as int] == dest@);
            lemma_spiral_len_formula(SEARCH_RINGS as nat);
            lemma_spiral_len(target@, SEARCH_RINGS as nat);
        }
        let line = line_to(current, dest);
        apply_order(units, id, current, dest, &line);
        i += 1;
    }
}

} // verus!
