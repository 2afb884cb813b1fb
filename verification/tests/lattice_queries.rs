use ant_colony::hex::{line_to, ring, spiral_range, Hex};

const DIRS: [(i32, i32); 6] = [(1, 0), (0, 1), (-1, 1), (-1, 0), (0, -1), (1, -1)];

fn steps(a: Hex, b: Hex) -> i32 {
    let dx = (a.x - b.x).abs();
    let dy = (a.y - b.y).abs();
    let dz = (a.x - b.x + a.y - b.y).abs();
    dx.max(dy).max(dz)
}

fn expected_ring(center: Hex, radius: i32) -> Vec<Hex> {
    if radius < 0 {
        return Vec::new();
    }
    if radius == 0 {
        return vec![center];
    }
    let mut cells = Vec::new();
    for side in 0..6usize {
        let corner = DIRS[side];
        let along = DIRS[(side + 2) % 6];
        for k in 0..radius {
            cells.push(Hex::new(
                center.x + corner.0 * radius + along.0 * k,
                center.y + corner.1 * radius + along.1 * k,
            ));
        }
    }
    cells
}

#[test]
fn ring_of_radius_one_walks_the_six_neighbours_in_order() {
    let cells = ring(Hex::new(0, 0), 1);
    let expected = vec![
        Hex::new(1, 0),
        Hex::new(0, 1),
        Hex::new(-1, 1),
        Hex::new(-1, 0),
        Hex::new(0, -1),
        Hex::new(1, -1),
    ];
    assert_eq!(cells, expected);
}

#[test]
fn ring_of_radius_two_is_exact() {
    let cells = ring(Hex::new(3, -5), 2);
    let expected = vec![
        Hex::new(5, -5),
        Hex::new(4, -4),
        Hex::new(3, -3),
        Hex::new(2, -3),
        Hex::new(1, -3),
        Hex::new(1, -4),
        Hex::new(1, -5),
        Hex::new(2, -6),
        Hex::new(3, -7),
        Hex::new(4, -7),
        Hex::new(5, -7),
        Hex::new(5, -6),
    ];
    assert_eq!(cells, expected);
}

#[test]
fn ring_matches_its_model_for_many_centres_and_radii() {
    for &(cx, cy) in &[(0, 0), (7, -3), (-20, 11), (1_048_564, -1_048_564)] {
        for radius in -2..=12 {
            let center = Hex::new(cx, cy);
            assert_eq!(ring(center, radius), expected_ring(center, radius));
        }
    }
}

#[test]
fn ring_cardinality() {
    let center = Hex::new(4, 4);
    assert_eq!(ring(center, -1).len(), 0);
    assert_eq!(ring(center, 0), vec![center]);
    for radius in 1..=20 {
        let cells = ring(center, radius);
        assert_eq!(cells.len(), 6 * radius as usize);
        for cell in &cells {
            assert_eq!(steps(center, *cell), radius);
        }
    }
}

#[test]
fn ring_at_the_coordinate_limit() {
    let center = Hex::new(0, 0);
    assert!(center.is_within(1_048_576));
    let cells = ring(center, 1_048_576);
    assert_eq!(cells.len(), 6 * 1_048_576);
    assert_eq!(cells[0], Hex::new(1_048_576, 0));
    assert_eq!(cells[1_048_576], Hex::new(0, 1_048_576));
    assert_eq!(cells[6 * 1_048_576 - 1], Hex::new(1_048_576, -1));
    assert!(cells.iter().all(|cell| cell.is_in_bounds()));
}

#[test]
fn ring_of_negative_radius_is_empty() {
    assert_eq!(ring(Hex::new(5, 5), -1), Vec::<Hex>::new());
    assert_eq!(ring(Hex::new(5, 5), i32::MIN), Vec::<Hex>::new());
}

#[test]
fn spiral_is_the_rings_in_order() {
    for &(cx, cy) in &[(0, 0), (-6, 2), (100, 100), (-1_048_564, 1_048_564)] {
        let center = Hex::new(cx, cy);
        for rings in 0..=12u32 {
            let mut expected = Vec::new();
            for radius in 0..rings {
                expected.extend(expected_ring(center, radius as i32));
            }
            assert_eq!(spiral_range(center, rings), expected);
        }
    }
}

#[test]
fn spiral_starts_at_centre_and_never_steps_back() {
    let center = Hex::new(2, -9);
    let cells = spiral_range(center, 10);
    assert_eq!(cells.len(), 271);
    assert_eq!(cells[0], center);
    for pair in cells.windows(2) {
        assert!(steps(center, pair[0]) <= steps(center, pair[1]));
    }
    for i in 0..cells.len() {
        for j in (i + 1)..cells.len() {
            assert_ne!(cells[i], cells[j]);
        }
    }
}

#[test]
fn spiral_of_the_most_rings_accepted() {
    let center = Hex::new(1_047_552, -1_047_552);
    assert!(center.is_within(1024));
    let cells = spiral_range(center, 1024);
    assert_eq!(cells.len(), 3 * 1024 * 1023 + 1);
    assert_eq!(cells[0], center);
    assert_eq!(steps(center, cells[cells.len() - 1]), 1023);
    assert!(cells.iter().all(|cell| cell.is_in_bounds()));
}

#[test]
fn spiral_of_no_rings_is_empty() {
    assert_eq!(spiral_range(Hex::new(1, 1), 0), Vec::<Hex>::new());
}

#[test]
fn line_along_an_axis() {
    let line = line_to(Hex::new(0, 0), Hex::new(5, 0));
    let expected: Vec<Hex> = (0..=5).map(|x| Hex::new(x, 0)).collect();
    assert_eq!(line, expected);
}

#[test]
fn line_to_the_same_cell_is_that_cell() {
    let here = Hex::new(-4, 9);
    assert_eq!(line_to(here, here), vec![here]);
}

#[test]
fn line_includes_both_ends_and_has_one_cell_per_step() {
    let ends = [
        (Hex::new(0, 0), Hex::new(3, -7)),
        (Hex::new(-12, 5), Hex::new(8, 8)),
        (Hex::new(1_048_576, -1_048_576), Hex::new(1_048_500, -1_048_570)),
        (Hex::new(-1_048_576, -1_048_576), Hex::new(-1_048_576, -1_048_000)),
    ];
    for &(from, to) in &ends {
        let line = line_to(from, to);
        assert_eq!(line.len() as i32, steps(from, to) + 1);
        assert_eq!(line[0], from);
        assert_eq!(line[line.len() - 1], to);
        for pair in line.windows(2) {
            assert!(steps(pair[0], pair[1]) <= 1);
        }
    }
}

fn next(seed: &mut u64) -> i32 {
    *seed = seed.wrapping_mul(6_364_136_223_846_793_005).wrapping_add(1_442_695_040_888_963_407);
    ((*seed >> 33) % 2_097_153) as i32 - 1_048_576
}

#[test]
fn lines_between_many_pairs_of_cells_keep_their_ends() {
    let mut seed: u64 = 2024;
    for _ in 0..3000 {
        let from = Hex::new(next(&mut seed), next(&mut seed));
        let near = Hex::new(
            (from.x + next(&mut seed) % 40).clamp(-1_048_576, 1_048_576),
            (from.y + next(&mut seed) % 40).clamp(-1_048_576, 1_048_576),
        );
        assert!(from.is_in_bounds() && near.is_in_bounds());
        let line = line_to(from, near);
        assert_eq!(line.len() as i32, steps(from, near) + 1);
        assert_eq!(line[0], from);
        assert_eq!(line[line.len() - 1], near);
    }
    for _ in 0..20 {
        let from = Hex::new(next(&mut seed) / 64, next(&mut seed) / 64);
        let to = Hex::new(next(&mut seed) / 64, next(&mut seed) / 64);
        let line = line_to(from, to);
        assert_eq!(line.len() as i32, steps(from, to) + 1);
        assert_eq!(line[0], from);
        assert_eq!(line[line.len() - 1], to);
    }
}

#[test]
fn rings_round_many_centres_match_their_model() {
    let mut seed: u64 = 77;
    for _ in 0..300 {
        let radius = (next(&mut seed) % 30).abs();
        let center = Hex::new(
            next(&mut seed).clamp(radius - 1_048_576, 1_048_576 - radius),
            next(&mut seed).clamp(radius - 1_048_576, 1_048_576 - radius),
        );
        assert!(center.is_within(radius));
        assert_eq!(ring(center, radius), expected_ring(center, radius));
    }
}

#[test]
fn line_across_the_whole_accepted_range() {
    let from = Hex::new(-1_048_576, -1_048_576);
    let to = Hex::new(1_048_576, 1_048_576);
    let line = line_to(from, to);
    assert_eq!(line.len(), 4_194_305);
    assert_eq!(line[0], from);
    assert_eq!(line[line.len() - 1], to);
}

#[test]
fn bounds_test_agrees_with_the_limit() {
    assert!(Hex::new(1_048_576, -1_048_576).is_in_bounds());
    assert!(!Hex::new(1_048_577, 0).is_in_bounds());
    assert!(!Hex::new(0, -1_048_577).is_in_bounds());
    assert!(Hex::new(1_048_566, -1_048_566).is_within(10));
    assert!(!Hex::new(1_048_567, 0).is_within(10));
    assert!(!Hex::new(0, -1_048_567).is_within(10));
    assert!(!Hex::new(0, 0).is_within(1_048_577));
    assert!(!Hex::new(0, 0).is_within(i32::MAX));
    assert!(Hex::new(2_000_000, 0).is_within(-1_000_000));
    assert!(Hex::new(i32::MAX, i32::MIN).is_within(i32::MIN));
}
