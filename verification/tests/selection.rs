use ant_colony::selection::{
    handle_box_select, handle_click, handle_input, ClickOutcome, SelectionState,
};
use ant_colony::hex::Hex;
use ant_colony::units::{Path, TargetPosition, Unit};

type Point = (f32, f32);

const HIT_RADIUS: f32 = 15.0;

fn distance(a: Point, b: Point) -> f32 {
    ((a.0 - b.0) * (a.0 - b.0) + (a.1 - b.1) * (a.1 - b.1)).sqrt()
}

fn hits(positions: &[Point], click: Point) -> Vec<bool> {
    positions.iter().map(|p| distance(*p, click) < HIT_RADIUS).collect()
}

fn inside(positions: &[Point], start: Point, end: Point) -> Vec<bool> {
    let min = (start.0.min(end.0), start.1.min(end.1));
    let max = (start.0.max(end.0), start.1.max(end.1));
    positions.iter().map(|p| min.0 <= p.0 && p.0 <= max.0 && min.1 <= p.1 && p.1 <= max.1).collect()
}

fn selected(units: &[Unit]) -> Vec<bool> {
    units.iter().map(|u| u.selected).collect()
}

#[test]
fn a_new_state_holds_no_gesture() {
    let state: SelectionState<Point> = SelectionState::new();
    assert_eq!(state.start_pos(), None);
    assert_eq!(state.drag_current(), None);
    assert_eq!(state.drag_span(), None);
}

#[test]
fn the_default_state_holds_no_gesture() {
    let state: SelectionState<Point> = SelectionState::default();
    assert_eq!(state.drag_span(), None);
}

#[test]
fn a_press_records_start_and_current() {
    let mut state: SelectionState<Point> = SelectionState::new();
    let gesture = handle_input(&mut state, (3.0, 4.0), true, true, false);
    assert!(gesture.is_none());
    assert_eq!(state.start_pos(), Some((3.0, 4.0)));
    assert_eq!(state.drag_current(), Some((3.0, 4.0)));
}

#[test]
fn a_hold_moves_only_the_current_point() {
    let mut state: SelectionState<Point> = SelectionState::new();
    handle_input(&mut state, (3.0, 4.0), true, true, false);
    let gesture = handle_input(&mut state, (9.0, -1.0), false, true, false);
    assert!(gesture.is_none());
    assert_eq!(state.start_pos(), Some((3.0, 4.0)));
    assert_eq!(state.drag_current(), Some((9.0, -1.0)));
    assert_eq!(state.drag_span(), Some(((3.0, 4.0), (9.0, -1.0))));
}

#[test]
fn a_hold_without_a_gesture_does_nothing() {
    let mut state: SelectionState<Point> = SelectionState::new();
    let gesture = handle_input(&mut state, (9.0, -1.0), false, true, false);
    assert!(gesture.is_none());
    assert_eq!(state.start_pos(), None);
    assert_eq!(state.drag_current(), None);
}

#[test]
fn a_frame_without_events_changes_nothing() {
    let mut state: SelectionState<Point> = SelectionState::new();
    handle_input(&mut state, (3.0, 4.0), true, true, false);
    let gesture = handle_input(&mut state, (50.0, 50.0), false, false, false);
    assert!(gesture.is_none());
    assert_eq!(state.drag_span(), Some(((3.0, 4.0), (3.0, 4.0))));
}

#[test]
fn a_release_hands_out_the_gesture_and_clears_the_state() {
    let mut state: SelectionState<Point> = SelectionState::new();
    handle_input(&mut state, (0.0, 0.0), true, true, false);
    handle_input(&mut state, (20.0, 30.0), false, true, false);
    let gesture = handle_input(&mut state, (50.0, 50.0), false, false, true).unwrap();
    assert_eq!(gesture.start, (0.0, 0.0));
    assert_eq!(gesture.end, (50.0, 50.0));
    assert_eq!(state.start_pos(), None);
    assert_eq!(state.drag_current(), None);
}

#[test]
fn a_release_without_a_gesture_starts_where_it_ends() {
    let mut state: SelectionState<Point> = SelectionState::new();
    let gesture = handle_input(&mut state, (7.0, 8.0), false, false, true).unwrap();
    assert_eq!(gesture.start, (7.0, 8.0));
    assert_eq!(gesture.end, (7.0, 8.0));
    assert_eq!(state.drag_span(), None);
}

#[test]
fn press_and_release_in_one_frame() {
    let mut state: SelectionState<Point> = SelectionState::new();
    handle_input(&mut state, (1.0, 1.0), true, true, false);
    let gesture = handle_input(&mut state, (2.0, 2.0), true, true, true).unwrap();
    assert_eq!(gesture.start, (2.0, 2.0));
    assert_eq!(gesture.end, (2.0, 2.0));
    assert_eq!(state.drag_span(), None);
}

#[test]
fn start_and_current_are_there_together_through_any_run_of_events() {
    let mut state: SelectionState<Point> = SelectionState::new();
    let mut n: u32 = 12345;
    for step in 0..500 {
        n = n.wrapping_mul(1_103_515_245).wrapping_add(12345);
        let flags = (n >> 16) & 7;
        let at = (step as f32, -(step as f32));
        handle_input(&mut state, at, flags & 1 != 0, flags & 2 != 0, flags & 4 != 0);
        assert_eq!(state.start_pos().is_some(), state.drag_current().is_some());
        if flags & 4 != 0 {
            assert!(state.start_pos().is_none());
        }
    }
}

#[test]
fn click_on_a_selected_unit_toggles_it_off_and_on() {
    let positions = [(100.0, 100.0), (200.0, 100.0)];
    let mut units = vec![Unit::worker(), Unit::worker()];
    units[0].selected = true;
    let click = (109.0, 108.0);
    assert!(distance(positions[0], click) < 15.0);
    let first = handle_click(&mut units, &hits(&positions, click));
    assert_eq!(first, ClickOutcome::Toggled(0));
    assert!(!units[0].selected);
    assert!(!units[1].selected);
    let second = handle_click(&mut units, &hits(&positions, click));
    assert_eq!(second, ClickOutcome::Toggled(0));
    assert!(units[0].selected);
    assert!(!units[1].selected);
}

#[test]
fn a_click_just_outside_the_hit_radius_misses() {
    let positions = [(0.0, 0.0)];
    let mut units = vec![Unit::worker()];
    assert_eq!(handle_click(&mut units, &hits(&positions, (15.0, 0.0))), ClickOutcome::Nothing);
    assert!(!units[0].selected);
    assert_eq!(handle_click(&mut units, &hits(&positions, (14.9, 0.0))), ClickOutcome::Toggled(0));
    assert!(units[0].selected);
}

#[test]
fn the_first_unit_hit_wins() {
    let positions = [(50.0, 0.0), (4.0, 0.0), (0.0, 0.0), (1.0, 1.0)];
    let mut units = vec![Unit::worker(), Unit::worker(), Unit::queen(), Unit::worker()];
    units[3].selected = true;
    let outcome = handle_click(&mut units, &hits(&positions, (0.0, 0.0)));
    assert_eq!(outcome, ClickOutcome::Toggled(1));
    assert_eq!(selected(&units), vec![false, true, false, true]);
}

#[test]
fn a_click_can_select_the_fixed_unit() {
    let mut units = vec![Unit::queen(), Unit::worker()];
    assert_eq!(handle_click(&mut units, &vec![true, true]), ClickOutcome::Toggled(0));
    assert_eq!(selected(&units), vec![true, false]);
}

#[test]
fn a_click_on_empty_ground_orders_the_selected_units_to_move() {
    let mut units = vec![Unit::worker(), Unit::worker(), Unit::queen(), Unit::worker()];
    units[0].selected = true;
    units[2].selected = true;
    units[3].selected = true;
    let outcome = handle_click(&mut units, &vec![false, false, false, false]);
    assert_eq!(outcome, ClickOutcome::MoveOrder(vec![0, 2, 3]));
    assert_eq!(selected(&units), vec![true, false, true, true]);
}

#[test]
fn a_click_on_empty_ground_with_nothing_selected_does_nothing() {
    let mut units = vec![Unit::worker(), Unit::worker()];
    assert_eq!(handle_click(&mut units, &vec![false, false]), ClickOutcome::Nothing);
    assert_eq!(selected(&units), vec![false, false]);
    let mut none: Vec<Unit> = Vec::new();
    assert_eq!(handle_click(&mut none, &vec![true]), ClickOutcome::Nothing);
}

#[test]
fn missing_and_surplus_hit_flags() {
    let mut units = vec![Unit::worker(), Unit::worker(), Unit::worker()];
    units[2].selected = true;
    assert_eq!(handle_click(&mut units, &vec![false]), ClickOutcome::MoveOrder(vec![2]));
    assert_eq!(handle_click(&mut units, &Vec::new()), ClickOutcome::MoveOrder(vec![2]));
    assert_eq!(
        handle_click(&mut units, &vec![false, false, false, true]),
        ClickOutcome::MoveOrder(vec![2])
    );
    assert_eq!(handle_click(&mut units, &vec![false, true]), ClickOutcome::Toggled(1));
}

#[test]
fn drag_box_selects_what_it_holds() {
    let positions =
        [(0.0, 0.0), (50.0, 50.0), (25.0, 10.0), (60.0, 60.0), (50.1, 20.0), (-0.1, 20.0)];
    let mut units: Vec<Unit> = positions.iter().map(|_| Unit::worker()).collect();
    let mut state: SelectionState<Point> = SelectionState::new();
    handle_input(&mut state, (0.0, 0.0), true, true, false);
    let gesture = handle_input(&mut state, (50.0, 50.0), false, false, true).unwrap();
    assert!(distance(gesture.start, gesture.end) >= 5.0);
    handle_box_select(&mut units, &inside(&positions, gesture.start, gesture.end));
    assert_eq!(selected(&units), vec![true, true, true, false, false, false]);
}

#[test]
fn a_box_dragged_backwards_selects_the_same_units() {
    let positions = [(0.0, 0.0), (50.0, 50.0), (25.0, 10.0), (60.0, 60.0)];
    let mut units: Vec<Unit> = positions.iter().map(|_| Unit::worker()).collect();
    handle_box_select(&mut units, &inside(&positions, (50.0, 0.0), (0.0, 50.0)));
    assert_eq!(selected(&units), vec![true, true, true, false]);
}

#[test]
fn box_select_adds_to_the_selection_and_never_deselects() {
    let mut units = vec![Unit::worker(), Unit::worker(), Unit::worker(), Unit::queen()];
    units[0].selected = true;
    units[1].selected = true;
    handle_box_select(&mut units, &vec![false, true, true, true]);
    assert_eq!(selected(&units), vec![true, true, true, true]);
    handle_box_select(&mut units, &vec![false, false, false, false]);
    assert_eq!(selected(&units), vec![true, true, true, true]);
    handle_box_select(&mut units, &Vec::new());
    assert_eq!(selected(&units), vec![true, true, true, true]);
}

#[test]
fn box_select_with_missing_and_surplus_flags() {
    let mut units = vec![Unit::worker(), Unit::worker()];
    handle_box_select(&mut units, &vec![true]);
    assert_eq!(selected(&units), vec![true, false]);
    handle_box_select(&mut units, &vec![false, false, true, true]);
    assert_eq!(selected(&units), vec![true, false]);
}

#[test]
fn selection_leaves_paths_and_targets_alone() {
    let mut units = vec![Unit::worker()];
    units[0].path = Path::through(&vec![Hex::new(1, 2)]);
    units[0].target = Some(TargetPosition(Hex::new(0, 1)));
    handle_click(&mut units, &vec![true]);
    handle_box_select(&mut units, &vec![true]);
    assert_eq!(units[0].path.to_vec(), vec![Hex::new(1, 2)]);
    assert_eq!(units[0].target, Some(TargetPosition(Hex::new(0, 1))));
    assert!(!units[0].fixed);
}
