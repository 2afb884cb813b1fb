//! The units that a colony starts with.

use crate::hex::{cells_of, ring, ring_cells, Cell, Hex};
use crate::lattice::lemma_ring_side_cell;
use crate::units::{units_of, Unit, UnitView};
use vstd::prelude::*;

verus! {

/// Number of workers that a colony starts with.
pub const WORKERS: usize = 3;

/// A queen as she is spawned.
pub open spec fn fresh_queen() -> UnitView {
    UnitView { selected: false, fixed: true, waypoints: Seq::empty(), target: None }
}

/// A worker as it is spawned.
pub open spec fn fresh_worker() -> UnitView {
    UnitView { selected: false, fixed: false, waypoints: Seq::empty(), target: None }
}

/// The units of a new colony and the cells on whose centres they are put: the
/// queen on the origin, then `WORKERS` workers on the first cells of the ring
/// of radius one round her.
pub fn spawn_units() -> (spawned: (Vec<Unit>, Vec<Hex>))
    ensures
        units_of(spawned.0@) == seq![fresh_queen(), fresh_worker(), fresh_worker(), fresh_worker()],
        spawned.1@ == seq![
            Hex { x: 0, y: 0 },
            Hex { x: 1, y: 0 },
            Hex { x: 0, y: 1 },
            Hex { x: -1i32, y: 1 },
        ],
{
    let origin = Hex::new(0, 0);
    let around = ring(origin, 1);
    let mut units: Vec<Unit> = Vec::new();
    let mut cells: Vec<Hex> = Vec::new();
    units.push(Unit::queen());
    cells.push(origin);
    let mut i: usize = 0;
    while i < WORKERS && i < around.len()
        invariant
            i <= WORKERS,
            around@.len() == 6,
            units@.len() == i + 1,
            cells@.len() == i + 1,
            units@[0]@ == fresh_queen(),
            forall|j: int| 1 <= j <= i ==> (#[trigger] units@[j])@ == fresh_worker(),
            cells@[0] == origin,
            forall|j: int| 1 <= j <= i ==> #[trigger] cells@[j] == around@[j - 1],
        decreases WORKERS - i,
    {
        units.push(Unit::worker());
        cells.push(around[i]);
        i += 1;
    }
    proof {
        let model = ring_cells(origin@, 1);
        assert forall|j: int| 0 <= j < 3 implies (#[trigger] around@[j])@ == model[j] by {
            assert(cells_of(around@)[j] == around@[j]@);
        }
        lemma_ring_side_cell(origin@, 1, 0, 0);
        lemma_ring_side_cell(origin@, 1, 1, 0);
        lemma_ring_side_cell(origin@, 1, 2, 0);
        assert(model[0] == Cell { x: 1, y: 0 });
        assert(model[1] == Cell { x: 0, y: 1 });
        assert(model[2] == Cell { x: -1, y: 1 });
        assert(around@[0]@ == model[0]);
        assert(around@[1]@ == model[1]);
        assert(around@[2]@ == model[2]);
        assert(cells@ =~= seq![
            Hex { x: 0, y: 0 },
            Hex { x: 1, y: 0 },
            Hex { x: 0, y: 1 },
            Hex { x: -1i32, y: 1 },
        ]);
        assert(units_of(units@) =~= seq![
            fresh_queen(),
            fresh_worker(),
            fresh_worker(),
            fresh_worker(),
        ]);
    }
    (units, cells)
}

} // verus!
