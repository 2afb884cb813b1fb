//! Unit records and the per-tick movement state machine.
//!
//! A waypoint is kept as the cell whose centre the unit walks to; the caller
//! turns it into a world position when it moves the unit.

use crate::hex::{cells_of, Cell, Hex};
use std::collections::VecDeque;
use vstd::prelude::*;

verus! {

/// The waypoint that a unit is walking to.
#[derive(Clone, Copy, PartialEq, Eq, Structural, Debug)]
pub struct TargetPosition(pub Hex);

/// The waypoints still ahead of a unit, nearest first.
#[derive(Debug)]
pub struct Path {
    pub waypoints: VecDeque<Hex>,
}

impl View for Path {
    type V = Seq<Cell>;

    open spec fn view(&self) -> Seq<Cell> {
        cells_of(self.waypoints@)
    }
}

impl Default for Path {
    /// A path without waypoints.
    fn default() -> (path: Path)
        ensures
            path@ == Seq::<Cell>::empty(),
    {
        Path::new()
    }
}

impl Path {
    /// A path without waypoints.
    pub fn new() -> (path: Path)
        ensures
            path@ == Seq::<Cell>::empty(),
    {
        let path = Path { waypoints: VecDeque::new() };
        assert(path@ =~= Seq::<Cell>::empty());
        path
    }

    /// A path through the given cells, first to last.
    pub fn through(cells: &Vec<Hex>) -> (path: Path)
        ensures
            path@ == cells_of(cells@),
    {
        let mut waypoints: VecDeque<Hex> = VecDeque::new();
        let mut i: usize = 0;
        while i < cells.len()
            invariant
                i <= cells.len(),
                waypoints@ == cells@.take(i as int),
            decreases cells.len() - i,
        {
            waypoints.push_back(cells[i]);
            i += 1;
            assert(waypoints@ =~= cells@.take(i as int));
        }
        assert(cells@.take(cells.len() as int) =~= cells@);
        Path { waypoints }
    }

    /// The waypoints as a list, nearest first.
    pub fn to_vec(&self) -> (cells: Vec<Hex>)
        ensures
            cells@ == self.waypoints@,
    {
        let mut cells: Vec<Hex> = Vec::new();
        let mut i: usize = 0;
        while i < self.waypoints.len()
            invariant
                i <= self.waypoints.len(),
                cells@ == self.waypoints@.take(i as int),
            decreases self.waypoints.len() - i,
        {
            cells.push(self.waypoints[i]);
            i += 1;
            assert(cells@ =~= self.waypoints@.take(i as int));
        }
        assert(self.waypoints@.take(self.waypoints.len() as int) =~= self.waypoints@);
        cells
    }
}

/// What a unit is, as plain values.
pub struct UnitView {
    pub selected: bool,
    pub fixed: bool,
    pub waypoints: Seq<Cell>,
    pub target: Option<Cell>,
}

/// A unit of the simulation. A fixed unit never moves and never gets a path.
#[derive(Debug)]
pub struct Unit {
    pub selected: bool,
    pub fixed: bool,
    pub path: Path,
    pub target: Option<TargetPosition>,
}

impl View for Unit {
    type V = UnitView;

    open spec fn view(&self) -> UnitView {
        UnitView {
            selected: self.selected,
            fixed: self.fixed,
            waypoints: self.path@,
            target: match self.target {
                Some(t) => Some(t.0@),
                None => None,
            },
        }
    }
}

/// The views of a list of units.
pub open spec fn units_of(units: Seq<Unit>) -> Seq<UnitView> {
    units.map_values(|u: Unit| u@)
}

impl UnitView {
    /// No target and nothing queued.
    pub open spec fn is_idle(self) -> bool {
        self.target is None && self.waypoints.len() == 0
    }

    /// Walking to a target.
    pub open spec fn is_seeking(self) -> bool {
        self.target is Some
    }

    /// Number of waypoints still to reach, the current target included.
    pub open spec fn remaining(self) -> nat {
        if self.target is Some {
            self.waypoints.len() + 1
        } else {
            self.waypoints.len()
        }
    }

    /// The waypoint that the unit walks to on its next tick: its target, or
    /// else the first queued waypoint.
    pub open spec fn goal(self) -> Option<Cell> {
        if self.target is Some {
            self.target
        } else if self.waypoints.len() > 0 {
            Some(self.waypoints[0])
        } else {
            None
        }
    }

    /// The unit once a missing target has been taken from the front of the
    /// queue.
    pub open spec fn acquired(self) -> UnitView {
        if self.target is None && self.waypoints.len() > 0 {
            UnitView {
                target: Some(self.waypoints[0]),
                waypoints: self.waypoints.subrange(1, self.waypoints.len() as int),
                ..self
            }
        } else {
            self
        }
    }

    /// The unit after one tick. `near` says whether the unit stands within the
    /// arrival tolerance of its goal. On arrival the target is dropped and the
    /// next waypoint, if there is one, becomes the target at once.
    pub open spec fn ticked(self, near: bool) -> UnitView {
        if self.fixed {
            self
        } else if self.goal() is Some && near {
            (UnitView { target: None, ..self.acquired() }).acquired()
        } else {
            self.acquired()
        }
    }

    /// What the caller does to the unit's position on that tick.
    pub open spec fn step(self, near: bool) -> StepView {
        if self.fixed {
            StepView::Rest
        } else {
            match self.goal() {
                None => StepView::Rest,
                Some(goal) => if near {
                    StepView::Snap(goal)
                } else {
                    StepView::Advance(goal)
                },
            }
        }
    }
}

/// What a tick asks of the caller, as plain values.
pub enum StepView {
    Rest,
    Snap(Cell),
    Advance(Cell),
}

/// What a tick asks of the caller, who holds the unit's position.
#[derive(Clone, Copy, PartialEq, Eq, Structural, Debug)]
pub enum Step {
    /// Leave the unit where it is.
    Rest,
    /// Put the unit exactly onto the centre of this cell.
    Snap(Hex),
    /// Move the unit towards the centre of this cell and turn it that way.
    Advance(Hex),
}

impl View for Step {
    type V = StepView;

    open spec fn view(&self) -> StepView {
        match *self {
            Step::Rest => StepView::Rest,
            Step::Snap(h) => StepView::Snap(h@),
            Step::Advance(h) => StepView::Advance(h@),
        }
    }
}

impl Unit {
    /// A mobile unit, idle and not selected.
    pub fn worker() -> (unit: Unit)
        ensures
            unit@ == (UnitView {
                selected: false,
                fixed: false,
                waypoints: Seq::empty(),
                target: None,
            }),
    {
        Unit { selected: false, fixed: false, path: Path::new(), target: None }
    }

    /// The fixed unit, idle and not selected.
    pub fn queen() -> (unit: Unit)
        ensures
            unit@ == (UnitView {
                selected: false,
                fixed: true,
                waypoints: Seq::empty(),
                target: None,
            }),
    {
        Unit { selected: false, fixed: true, path: Path::new(), target: None }
    }

    pub fn is_idle(&self) -> (idle: bool)
        ensures
            idle == self@.is_idle(),
    {
        assert(self@.waypoints.len() == self.path.waypoints@.len());
        self.target.is_none() && self.path.waypoints.len() == 0
    }

    pub fn is_seeking(&self) -> (seeking: bool)
        ensures
            seeking == self@.is_seeking(),
    {
        self.target.is_some()
    }

    /// The cell that the unit walks to on its next tick, if any. The caller
    /// measures the distance to its centre to tell whether the unit is near.
    pub fn goal(&self) -> (goal: Option<Hex>)
        ensures
            match goal {
                Some(h) => self@.goal() == Some(h@),
                None => self@.goal() is None,
            },
    {
        assert(self@.waypoints.len() == self.path.waypoints@.len());
        match self.target {
            Some(t) => Some(t.0),
            None => {
                if self.path.waypoints.len() > 0 {
                    assert(self@.waypoints[0] == self.path.waypoints@[0]@);
                    Some(self.path.waypoints[0])
                } else {
                    None
                }
            },
        }
    }

    /// Takes the front of the queue as the target where there is none.
    fn acquire(&mut self)
        ensures
            final(self)@ == old(self)@.acquired(),
    {
        assert(self@.waypoints.len() == self.path.waypoints@.len());
        if self.target.is_none() {
            let ghost before = self.path.waypoints@;
            match self.path.waypoints.pop_front() {
                Some(next) => {
                    self.target = Some(TargetPosition(next));
                    assert(self@.waypoints =~= old(self)@.waypoints.subrange(
                        1,
                        old(self)@.waypoints.len() as int,
                    ));
                    assert(old(self)@.waypoints[0] == before[0]@);
                },
                None => {},
            }
        }
    }

    /// Advances the movement state machine by one tick and says what to do
    /// with the unit's position.
    pub fn tick(&mut self, near: bool) -> (step: Step)
        ensures
            final(self)@ == old(self)@.ticked(near),
            step@ == old(self)@.step(near),
    {
        if self.fixed {
            return Step::Rest;
        }
        self.acquire();
        match self.target {
            None => Step::Rest,
            Some(t) => {
                if near {
                    self.target = None;
                    self.acquire();
                    Step::Snap(t.0)
                } else {
                    Step::Advance(t.0)
                }
            },
        }
    }
}

/// Whether flag number `i` is there and set.
pub open spec fn flag_at(flags: Seq<bool>, i: int) -> bool {
    0 <= i < flags.len() && flags[i]
}

/// One tick of the movement state machine for every unit. `near[i]` says
/// whether unit `i` stands within the arrival tolerance of its goal; a unit
/// without a flag counts as not near. Fixed units are left as they are.
pub fn move_ants(units: &mut Vec<Unit>, near: &Vec<bool>) -> (steps: Vec<Step>)
    ensures
        final(units)@.len() == old(units)@.len(),
        steps@.len() == old(units)@.len(),
        forall|i: int|
            0 <= i < old(units)@.len() ==> {
                &&& (#[trigger] final(units)@[i])@ == old(units)@[i]@.ticked(flag_at(near@, i))
                &&& steps@[i]@ == old(units)@[i]@.step(flag_at(near@, i))
            },
{
    let mut steps: Vec<Step> = Vec::new();
    let mut i: usize = 0;
    while i < units.len()
        invariant
            i <= units@.len(),
            units@.len() == old(units)@.len(),
            steps@.len() == i,
            forall|j: int|
                0 <= j < i ==> {
                    &&& (#[trigger] units@[j])@ == old(units)@[j]@.ticked(flag_at(near@, j))
                    &&& steps@[j]@ == old(units)@[j]@.step(flag_at(near@, j))
                },
            forall|j: int| i <= j < units@.len() ==> #[trigger] units@[j] == old(units)@[j],
        decreases units@.len() - i,
    {
        let is_near = i < near.len() && near[i];
        let step = units[i].tick(is_near);
        steps.push(step);
        i += 1;
    }
    steps
}

/// The unit after a run of ticks, `near[k]` saying whether tick `k` found the
/// unit within the arrival tolerance of its goal.
pub open spec fn after_ticks(unit: UnitView, near: Seq<bool>) -> UnitView
    decreases near.len(),
{
    if near.len() == 0 {
        unit
    } else {
        after_ticks(unit, near.drop_last()).ticked(near.last())
    }
}

/// Number of ticks of a run that found the unit near its goal.
pub open spec fn arrivals(near: Seq<bool>) -> nat
    decreases near.len(),
{
    if near.len() == 0 {
        0
    } else if near.last() {
        arrivals(near.drop_last()) + 1
    } else {
        arrivals(near.drop_last())
    }
}

/// A tick leaves a mobile unit idle or seeking. It takes one waypoint off
/// what the unit has left to reach if the unit is near its goal, and none
/// otherwise. A unit is idle exactly when it has nothing left to reach.
pub proof fn lemma_tick_progress(unit: UnitView, near: bool)
    ensures
        unit.is_idle() <==> unit.remaining() == 0,
        !unit.fixed ==> unit.ticked(near).is_idle() || unit.ticked(near).is_seeking(),
        !unit.fixed && near && unit.remaining() > 0 ==> unit.ticked(near).remaining()
            == unit.remaining() - 1,
        unit.fixed || !near || unit.remaining() == 0 ==> unit.ticked(near).remaining()
            == unit.remaining(),
        unit.ticked(near).selected == unit.selected,
        unit.ticked(near).fixed == unit.fixed,
{
}

/// After a run of ticks a mobile unit has as many waypoints left to reach as
/// it had, less one for each tick that found it near its goal. So it is idle
/// once as many ticks have found it near its goal as it had waypoints to
/// reach, and not before.
pub proof fn lemma_arrivals_reach_idle(unit: UnitView, near: Seq<bool>)
    requires
        !unit.fixed,
    ensures
        !after_ticks(unit, near).fixed,
        arrivals(near) >= unit.remaining() ==> after_ticks(unit, near).remaining() == 0,
        arrivals(near) < unit.remaining() ==> after_ticks(unit, near).remaining()
            == unit.remaining() - arrivals(near),
        after_ticks(unit, near).is_idle() <==> arrivals(near) >= unit.remaining(),
    decreases near.len(),
{
    if near.len() > 0 {
        lemma_arrivals_reach_idle(unit, near.drop_last());
        lemma_tick_progress(after_ticks(unit, near.drop_last()), near.last());
    }
    lemma_tick_progress(after_ticks(unit, near), true);
}

} // verus!
