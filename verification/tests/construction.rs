use life::{Cell, ConstructionError, EntropySourceError, Universe};

fn fault(built: Result<Universe, ConstructionError>) -> ConstructionError {
    match built {
        Ok(_) => panic!("construction succeeded"),
        Err(fault) => fault,
    }
}

fn alive_count(universe: &Universe) -> usize {
    let mut alive = 0;
    for y in 0..universe.height() {
        for x in 0..universe.width() {
            if universe.get(x, y) == Cell::Alive {
                alive += 1;
            }
        }
    }
    alive
}

#[test]
fn a_zero_dimension_is_refused() {
    assert_eq!(fault(Universe::new(0, 4, 4)), ConstructionError::ZeroDimension);
    assert_eq!(fault(Universe::new(4, 0, 4)), ConstructionError::ZeroDimension);
    assert_eq!(fault(Universe::new(4, 4, 0)), ConstructionError::ZeroDimension);
    assert_eq!(fault(Universe::from_seed(0, 0, 0, &[])), ConstructionError::ZeroDimension);
    assert_eq!(
        fault(Universe::with_entropy(0, 1, 1, Err(EntropySourceError { code: 5 }))),
        ConstructionError::ZeroDimension
    );
}

#[test]
fn too_many_cells_or_pixels_are_refused() {
    assert_eq!(fault(Universe::new(65536, 65536, 1)), ConstructionError::TooLarge);
    assert_eq!(fault(Universe::new(u32::MAX, u32::MAX, u32::MAX)), ConstructionError::TooLarge);
    assert_eq!(fault(Universe::new(1, 1, 65536)), ConstructionError::TooLarge);
    assert_eq!(fault(Universe::new(4096, 4096, 16)), ConstructionError::TooLarge);
    assert_eq!(fault(Universe::from_seed(65536, 65536, 1, &[0])), ConstructionError::TooLarge);
}

#[test]
fn the_dimensions_are_judged_before_the_seed() {
    assert_eq!(fault(Universe::from_seed(0, 3, 1, &[0, 0, 0])), ConstructionError::ZeroDimension);
}

#[test]
fn a_seed_of_the_wrong_length_is_refused() {
    assert_eq!(fault(Universe::from_seed(3, 3, 1, &[0])), ConstructionError::SeedLength);
    assert_eq!(fault(Universe::from_seed(3, 3, 1, &[0, 0, 0])), ConstructionError::SeedLength);
    assert_eq!(fault(Universe::from_seed(4, 4, 1, &[])), ConstructionError::SeedLength);
    assert_eq!(
        fault(Universe::with_entropy(4, 2, 1, Ok(vec![0, 0]))),
        ConstructionError::SeedLength
    );
    assert!(Universe::from_seed(3, 3, 1, &[0, 0]).is_ok());
    assert!(Universe::from_seed(4, 4, 1, &[0, 0]).is_ok());
    assert!(Universe::from_seed(4, 2, 1, &[0]).is_ok());
}

#[test]
fn seed_bits_are_read_from_the_lowest_bit_of_the_first_byte() {
    let universe = Universe::from_seed(3, 3, 1, &[0b1000_0001, 0b0000_0001]).unwrap();
    let mut alive = Vec::new();
    for y in 0..3 {
        for x in 0..3 {
            if universe.get(x, y) == Cell::Alive {
                alive.push((x, y));
            }
        }
    }
    assert_eq!(alive, vec![(0, 0), (1, 2), (2, 2)]);
    assert_eq!(universe.generation(), 0);
    assert_eq!(universe.entropy_error(), None);
}

#[test]
fn seed_bits_past_the_last_cell_are_ignored() {
    let universe = Universe::from_seed(3, 1, 1, &[0b1111_1010]).unwrap();
    assert_eq!(universe.get(0, 0), Cell::Dead);
    assert_eq!(universe.get(1, 0), Cell::Alive);
    assert_eq!(universe.get(2, 0), Cell::Dead);
    assert_eq!(universe.neighbour_count(0, 0), 3);
    assert_eq!(universe.neighbour_count(1, 0), 2);
    assert_eq!(universe.neighbour_count(2, 0), 3);
}

#[test]
fn the_counters_are_primed_at_construction() {
    let universe = Universe::from_seed(8, 4, 1, &[0xA5, 0x3C, 0x00, 0xFF]).unwrap();
    for y in 0..4 {
        for x in 0..8 {
            assert_eq!(universe.neighbour_count(x, y), universe.alive_neighbour_count(x, y));
        }
    }
    // Above (0, 0) lie three live cells of the last row; to its left lies (7, 0).
    assert_eq!(universe.neighbour_count(0, 0), 4);
}

#[test]
fn a_failed_entropy_source_gives_a_dead_grid_and_is_reported() {
    let failure = EntropySourceError { code: 0x8000_0002 };
    let mut universe = Universe::with_entropy(9, 7, 2, Err(failure)).unwrap();
    assert_eq!(alive_count(&universe), 0);
    assert_eq!(universe.entropy_error(), Some(failure));
    assert_eq!(universe.generation(), 0);
    assert!(universe.canvas().iter().all(|pixel| *pixel == 0xFF00_0000));
    universe.tick();
    assert_eq!(alive_count(&universe), 0);
    assert_eq!(universe.entropy_error(), Some(failure));
}

#[test]
fn entropy_that_arrived_seeds_the_grid() {
    let universe = Universe::with_entropy(4, 2, 1, Ok(vec![0x0F])).unwrap();
    assert_eq!(alive_count(&universe), 4);
    assert_eq!(universe.get(3, 0), Cell::Alive);
    assert_eq!(universe.get(0, 1), Cell::Dead);
    assert_eq!(universe.entropy_error(), None);
}

#[test]
fn a_new_universe_has_the_dimensions_asked_for() {
    let mut universe = Universe::new(12, 9, 3).unwrap();
    assert_eq!(universe.width(), 12);
    assert_eq!(universe.height(), 9);
    assert_eq!(universe.cell_size(), 3);
    assert_eq!(universe.generation(), 0);
    assert_eq!(universe.render(), 0);
    assert_eq!(universe.canvas().len(), 12 * 3 * 9 * 3);
    for y in 0..9 {
        for x in 0..12 {
            assert_eq!(universe.neighbour_count(x, y), universe.alive_neighbour_count(x, y));
        }
    }
}

#[test]
fn a_new_universe_is_seeded_with_random_bits() {
    let universe = Universe::new(64, 64, 1).unwrap();
    match universe.entropy_error() {
        // 4096 random bits that are all zero, or all one, do not happen.
        None => {
            let alive = alive_count(&universe);
            assert!(0 < alive && alive < 4096);
        }
        Some(failure) => {
            assert_ne!(failure.code, 0);
            assert_eq!(alive_count(&universe), 0);
        }
    }
}

#[test]
fn two_new_universes_differ() {
    let first = Universe::new(32, 32, 1).unwrap();
    let second = Universe::new(32, 32, 1).unwrap();
    if first.entropy_error().is_none() && second.entropy_error().is_none() {
        let mut differ = false;
        for y in 0..32 {
            for x in 0..32 {
                differ |= first.get(x, y) != second.get(x, y);
            }
        }
        assert!(differ);
    }
}
