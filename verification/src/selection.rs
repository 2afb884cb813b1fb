//! Pointer gestures and what they do to the selection.
//!
//! World points are carried through unread. What depends on distances between
//! them comes in as flags: which units a click hit, which units a box holds.

use crate::units::{flag_at, units_of, Unit, UnitView};
use vstd::prelude::*;

verus! {

/// The drag gesture in progress, if any: where it started and where the
/// pointer is now. The two points exist together or not at all.
pub struct SelectionState<P> {
    drag: Option<(P, P)>,
}

impl<P> View for SelectionState<P> {
    type V = Option<(P, P)>;

    closed spec fn view(&self) -> Option<(P, P)> {
        self.drag
    }
}

/// A finished gesture: from press to release.
pub struct Gesture<P> {
    pub start: P,
    pub end: P,
}

/// The start point of a drag, if one is in progress.
pub open spec fn start_of<P>(drag: Option<(P, P)>) -> Option<P> {
    match drag {
        Some(d) => Some(d.0),
        None => None,
    }
}

/// The current point of a drag, if one is in progress.
pub open spec fn current_of<P>(drag: Option<(P, P)>) -> Option<P> {
    match drag {
        Some(d) => Some(d.1),
        None => None,
    }
}

/// The drag after the press and hold events of one frame at point `at`. A press
/// starts a drag at that point. A hold moves the current point of the drag in
/// progress, and does nothing where none is.
pub open spec fn drag_after<P>(
    drag: Option<(P, P)>,
    at: P,
    just_pressed: bool,
    pressed: bool,
) -> Option<(P, P)> {
    let started = if just_pressed {
        Some((at, at))
    } else {
        drag
    };
    if pressed {
        match started {
            Some(d) => Some((d.0, at)),
            None => None,
        }
    } else {
        started
    }
}

impl<P> Default for SelectionState<P> {
    /// No gesture in progress.
    fn default() -> (state: Self)
        ensures
            state@ is None,
    {
        SelectionState { drag: None }
    }
}

impl<P: Copy> SelectionState<P> {
    /// No gesture in progress.
    pub fn new() -> (state: Self)
        ensures
            state@ is None,
    {
        SelectionState { drag: None }
    }

    /// Where the gesture in progress started.
    pub fn start_pos(&self) -> (start: Option<P>)
        ensures
            start == start_of(self@),
    {
        match self.drag {
            Some(d) => Some(d.0),
            None => None,
        }
    }

    /// Where the pointer of the gesture in progress is.
    pub fn drag_current(&self) -> (current: Option<P>)
        ensures
            current == current_of(self@),
    {
        match self.drag {
            Some(d) => Some(d.1),
            None => None,
        }
    }

    /// The two corners of the selection box to draw, while a gesture is in
    /// progress.
    pub fn drag_span(&self) -> (span: Option<(P, P)>)
        ensures
            span == self@,
    {
        self.drag
    }
}

/// Takes in the pointer events of one frame, all at the world point
/// `world_pos`: first a press, then a hold, then a release. A release ends the
/// gesture and hands it out, from where it started to `world_pos`; a release
/// without a gesture in progress counts as one that started at `world_pos`.
pub fn handle_input<P: Copy>(
    state: &mut SelectionState<P>,
    world_pos: P,
    just_pressed: bool,
    pressed: bool,
    just_released: bool,
) -> (gesture: Option<Gesture<P>>)
    ensures
        !just_released ==> gesture is None && final(state)@ == drag_after(
            old(state)@,
            world_pos,
            just_pressed,
            pressed,
        ),
        just_released ==> final(state)@ is None && gesture == Some(
            Gesture {
                start: match drag_after(old(state)@, world_pos, just_pressed, pressed) {
                    Some(d) => d.0,
                    None => world_pos,
                },
                end: world_pos,
            },
        ),
{
    if just_pressed {
        state.drag = Some((world_pos, world_pos));
    }
    if pressed {
        match state.drag {
            Some(d) => {
                state.drag = Some((d.0, world_pos));
            },
            None => {},
        }
    }
    if just_released {
        let start = match state.drag {
            Some(d) => d.0,
            None => world_pos,
        };
        state.drag = None;
        Some(Gesture { start, end: world_pos })
    } else {
        None
    }
}

/// The start and the current point of a gesture are there together or not at
/// all, whatever events came in.
pub proof fn lemma_drag_points_together<P>(state: SelectionState<P>)
    ensures
        start_of(state@) is Some <==> current_of(state@) is Some,
{
}

/// What a click did.
#[derive(Debug, PartialEq, Eq)]
pub enum ClickOutcome {
    /// The click hit this unit, whose selected flag was flipped.
    Toggled(usize),
    /// The click hit no unit: these units, the selected ones, are ordered to
    /// move to the point of the click.
    MoveOrder(Vec<usize>),
    /// The click hit no unit and none is selected.
    Nothing,
}

/// The first of the first `n` flags that is set, if any.
pub open spec fn first_flag(flags: Seq<bool>, n: int) -> Option<int>
    decreases n,
{
    if n <= 0 {
        None
    } else {
        match first_flag(flags, n - 1) {
            Some(i) => Some(i),
            None => if flag_at(flags, n - 1) {
                Some(n - 1)
            } else {
                None
            },
        }
    }
}

/// The indices of the selected units among the first `n`, in rising order.
pub open spec fn selected_ids(units: Seq<UnitView>, n: int) -> Seq<usize>
    decreases n,
{
    if n <= 0 {
        Seq::empty()
    } else if 0 <= n - 1 < units.len() && units[n - 1].selected {
        selected_ids(units, n - 1).push((n - 1) as usize)
    } else {
        selected_ids(units, n - 1)
    }
}

/// A unit with its selected flag flipped.
pub open spec fn toggled(unit: UnitView) -> UnitView {
    UnitView { selected: !unit.selected, ..unit }
}

/// A unit with its selected flag set.
pub open spec fn chosen(unit: UnitView) -> UnitView {
    UnitView { selected: true, ..unit }
}

/// `first_flag` finds the lowest set flag below `n`.
pub proof fn lemma_first_flag(flags: Seq<bool>, n: int)
    ensures
        match first_flag(flags, n) {
            Some(i) => 0 <= i < n && flag_at(flags, i) && forall|j: int|
                0 <= j < i ==> !flag_at(flags, j),
            None => forall|j: int| 0 <= j < n ==> !flag_at(flags, j),
        },
    decreases n,
{
    if n > 0 {
        lemma_first_flag(flags, n - 1);
    }
}

/// `selected_ids` lists exactly the selected units below `n`, each once and
/// in rising order.
pub proof fn lemma_selected_ids(units: Seq<UnitView>, n: int)
    requires
        n <= units.len() <= usize::MAX,
    ensures
        forall|k: int|
            0 <= k < selected_ids(units, n).len() ==> 0 <= (#[trigger] selected_ids(units, n)[k])
                < n && units[selected_ids(units, n)[k] as int].selected,
        forall|k: int, l: int|
            0 <= k < l < selected_ids(units, n).len() ==> selected_ids(units, n)[k]
                < selected_ids(units, n)[l],
        forall|i: int|
            0 <= i < n && units[i].selected ==> exists|k: int|
                0 <= k < selected_ids(units, n).len() && #[trigger] selected_ids(units, n)[k]
                    == i,
    decreases n,
{
    if n > 0 {
        lemma_selected_ids(units, n - 1);
        let before = selected_ids(units, n - 1);
        let now = selected_ids(units, n);
        assert forall|i: int| 0 <= i < n && units[i].selected implies exists|k: int|
            0 <= k < now.len() && #[trigger] now[k] == i by {
            if i < n - 1 {
                let k = choose|k: int| 0 <= k < before.len() && #[trigger] before[k] == i;
                assert(now[k] == i);
            } else {
                assert(now[now.len() - 1] == i);
            }
        }
    }
}

/// Handles a click. `hits[i]` says whether the click fell within the hit
/// radius of unit `i`; a unit without a flag counts as not hit. The first unit
/// hit has its selected flag flipped, and nothing else happens. Where no unit
/// is hit, the selected units are ordered to move, if there are any.
pub fn handle_click(units: &mut Vec<Unit>, hits: &Vec<bool>) -> (outcome: ClickOutcome)
    ensures
        match first_flag(hits@, old(units)@.len() as int) {
            Some(i) => outcome == ClickOutcome::Toggled(i as usize) && units_of(final(units)@)
                == units_of(old(units)@).update(i, toggled(old(units)@[i]@)),
            None => {
                &&& final(units)@ == old(units)@
                &&& match outcome {
                    ClickOutcome::Toggled(_) => false,
                    ClickOutcome::MoveOrder(ids) => ids@.len() > 0 && ids@ == selected_ids(
                        units_of(old(units)@),
                        old(units)@.len() as int,
                    ),
                    ClickOutcome::Nothing => selected_ids(
                        units_of(old(units)@),
                        old(units)@.len() as int,
                    ).len() == 0,
                }
            },
        },
{
    let mut i: usize = 0;
    while i < units.len()
        invariant
            i <= units@.len(),
            units@ == old(units)@,
            first_flag(hits@, i as int) is None,
        decreases units@.len() - i,
    {
        if i < hits.len() && hits[i] {
            let unit = &mut units[i];
            unit.selected = !unit.selected;
            proof {
                assert(units_of(units@) =~= units_of(old(units)@).update(
                    i as int,
                    toggled(old(units)@[i as int]@),
                ));
                lemma_first_flag_stays(hits@, i as int + 1, old(units)@.len() as int);
            }
            return ClickOutcome::Toggled(i);
        }
        i += 1;
    }
    let mut ids: Vec<usize> = Vec::new();
    let mut k: usize = 0;
    while k < units.len()
        invariant
            k <= units@.len(),
            units@ == old(units)@,
            ids@ == selected_ids(units_of(units@), k as int),
        decreases units@.len() - k,
    {
        if units[k].selected {
            ids.push(k);
        }
        assert(units_of(units@)[k as int] == units@[k as int]@);
        k += 1;
    }
    if ids.len() > 0 {
        ClickOutcome::MoveOrder(ids)
    } else {
        ClickOutcome::Nothing
    }
}

/// A set flag found among the first `n` flags is still the first among more.
pub proof fn lemma_first_flag_stays(flags: Seq<bool>, n: int, more: int)
    requires
        n <= more,
        first_flag(flags, n) is Some,
    ensures
        first_flag(flags, more) == first_flag(flags, n),
    decreases more - n,
{
    if n < more {
        lemma_first_flag_stays(flags, n, more - 1);
    }
}

/// Handles a box selection. `inside[i]` says whether unit `i` stands within the
/// box, its edges included; a unit without a flag counts as outside. Every
/// unit inside becomes selected. No unit is deselected.
pub fn handle_box_select(units: &mut Vec<Unit>, inside: &Vec<bool>)
    ensures
        final(units)@.len() == old(units)@.len(),
        forall|i: int|
            0 <= i < old(units)@.len() ==> (#[trigger] final(units)@[i])@ == (if flag_at(
                inside@,
                i,
            ) {
                chosen(old(units)@[i]@)
            } else {
                old(units)@[i]@
            }),
{
    let mut i: usize = 0;
    while i < units.len()
        invariant
            i <= units@.len(),
            units@.len() == old(units)@.len(),
            forall|j: int|
                0 <= j < i ==> (#[trigger] units@[j])@ == (if flag_at(inside@, j) {
                    chosen(old(units)@[j]@)
                } else {
                    old(units)@[j]@
                }),
            forall|j: int| i <= j < units@.len() ==> #[trigger] units@[j] == old(units)@[j],
        decreases units@.len() - i,
    {
        if i < inside.len() && inside[i] {
            let unit = &mut units[i];
            unit.selected = true;
        }
        i += 1;
    }
}

/// Flipping a unit's selected flag twice leaves the unit as it was.
pub proof fn lemma_toggle_twice(unit: UnitView)
    ensures
        toggled(toggled(unit)) == unit,
{
}

/// Setting a unit's selected flag never clears it and changes nothing else.
pub proof fn lemma_chosen_keeps(unit: UnitView)
    ensures
        chosen(unit).selected,
        chosen(unit).fixed == unit.fixed,
        chosen(unit).waypoints == unit.waypoints,
        chosen(unit).target == unit.target,
        unit.selected ==> chosen(unit) == unit,
{
}

} // verus!
