use life::{Cell, Universe};

fn dead(width: u32, height: u32) -> Universe {
    let bytes = ((width as usize) * (height as usize) + 7) / 8;
    Universe::from_seed(width, height, 1, &vec![0u8; bytes]).unwrap()
}

fn brute_force(universe: &Universe, x: u32, y: u32) -> u8 {
    let w = universe.width() as i64;
    let h = universe.height() as i64;
    let mut count = 0;
    for dy in -1i64..=1 {
        for dx in -1i64..=1 {
            if dx == 0 && dy == 0 {
                continue;
            }
            let nx = (x as i64 + dx).rem_euclid(w) as u32;
            let ny = (y as i64 + dy).rem_euclid(h) as u32;
            if universe.get(nx, ny) == Cell::Alive {
                count += 1;
            }
        }
    }
    count
}

fn assert_counters_match(universe: &Universe) {
    for y in 0..universe.height() {
        for x in 0..universe.width() {
            let expected = brute_force(universe, x, y);
            assert_eq!(universe.neighbour_count(x, y), expected, "stored, at ({x}, {y})");
            assert_eq!(universe.alive_neighbour_count(x, y), expected, "counted, at ({x}, {y})");
        }
    }
}

fn counters(universe: &Universe) -> Vec<u8> {
    let mut all = Vec::new();
    for y in 0..universe.height() {
        for x in 0..universe.width() {
            all.push(universe.neighbour_count(x, y));
        }
    }
    all
}

#[test]
fn counters_match_after_a_sequence_of_edits() {
    let mut universe = dead(7, 5);
    let edits = [
        (0, 0, Cell::Alive),
        (6, 4, Cell::Alive),
        (3, 2, Cell::Alive),
        (0, 0, Cell::Dead),
        (6, 0, Cell::Alive),
        (0, 4, Cell::Alive),
        (3, 2, Cell::Alive),
        (3, 3, Cell::Alive),
        (6, 4, Cell::Dead),
        (2, 2, Cell::Dead),
    ];
    assert_counters_match(&universe);
    for (x, y, cell) in edits {
        universe.set(x, y, cell);
        assert_eq!(universe.get(x, y), cell);
        assert_counters_match(&universe);
    }
}

#[test]
fn set_changes_only_the_cell_it_names() {
    let mut universe = dead(4, 3);
    universe.set(2, 1, Cell::Alive);
    for y in 0..3 {
        for x in 0..4 {
            let expected = if (x, y) == (2, 1) { Cell::Alive } else { Cell::Dead };
            assert_eq!(universe.get(x, y), expected);
        }
    }
    assert_eq!(universe.generation(), 0);
}

#[test]
fn setting_twice_leaves_counters_as_after_the_first() {
    let mut universe = dead(6, 6);
    universe.set(2, 3, Cell::Alive);
    let once = counters(&universe);
    universe.set(2, 3, Cell::Alive);
    assert_eq!(counters(&universe), once);

    universe.set(2, 3, Cell::Dead);
    let cleared = counters(&universe);
    assert_eq!(cleared, vec![0u8; 36]);
    universe.set(2, 3, Cell::Dead);
    assert_eq!(counters(&universe), cleared);
}

#[test]
fn birth_in_the_corner_wraps_around_both_edges() {
    let (w, h) = (5u32, 4u32);
    let mut universe = dead(w, h);
    universe.set(0, 0, Cell::Alive);
    let touched = [
        (w - 1, h - 1),
        (w - 1, 0),
        (w - 1, 1),
        (0, h - 1),
        (0, 1),
        (1, h - 1),
        (1, 0),
        (1, 1),
    ];
    for y in 0..h {
        for x in 0..w {
            let expected = if touched.contains(&(x, y)) { 1 } else { 0 };
            assert_eq!(universe.neighbour_count(x, y), expected, "at ({x}, {y})");
        }
    }
}

#[test]
fn death_takes_the_counters_back_down() {
    let mut universe = dead(5, 5);
    universe.set(2, 2, Cell::Alive);
    universe.set(3, 2, Cell::Alive);
    assert_eq!(universe.neighbour_count(2, 1), 2);
    assert_eq!(universe.neighbour_count(2, 2), 1);
    assert_eq!(universe.neighbour_count(4, 2), 1);
    universe.set(2, 2, Cell::Dead);
    assert_eq!(universe.neighbour_count(2, 1), 1);
    assert_eq!(universe.neighbour_count(2, 2), 1);
    assert_eq!(universe.neighbour_count(1, 2), 0);
    assert_counters_match(&universe);
}

#[test]
fn a_single_cell_grid_is_its_own_neighbour_eight_times() {
    let mut universe = dead(1, 1);
    assert_eq!(universe.neighbour_count(0, 0), 0);
    universe.set(0, 0, Cell::Alive);
    assert_eq!(universe.neighbour_count(0, 0), 8);
    assert_eq!(universe.alive_neighbour_count(0, 0), 8);
    universe.set(0, 0, Cell::Dead);
    assert_eq!(universe.neighbour_count(0, 0), 0);
}

#[test]
fn on_a_two_by_two_grid_neighbours_repeat() {
    let mut universe = dead(2, 2);
    universe.set(0, 0, Cell::Alive);
    // (1, 0) is both the left and the right neighbour; (1, 1) is all four
    // diagonal neighbours; the cell itself is no neighbour of itself.
    assert_eq!(universe.neighbour_count(0, 0), 0);
    assert_eq!(universe.neighbour_count(1, 0), 2);
    assert_eq!(universe.neighbour_count(0, 1), 2);
    assert_eq!(universe.neighbour_count(1, 1), 4);
    assert_counters_match(&universe);
}

#[test]
fn on_a_single_row_a_cell_is_above_and_below_itself() {
    let mut universe = dead(4, 1);
    universe.set(1, 0, Cell::Alive);
    assert_eq!(universe.neighbour_count(1, 0), 2);
    assert_eq!(universe.neighbour_count(0, 0), 3);
    assert_eq!(universe.neighbour_count(2, 0), 3);
    assert_eq!(universe.neighbour_count(3, 0), 0);
    assert_counters_match(&universe);
}
