use life::{Cell, Universe};

struct Lcg(u64);

impl Lcg {
    fn byte(&mut self) -> u8 {
        self.0 = self.0.wrapping_mul(6364136223846793005).wrapping_add(1442695040888963407);
        (self.0 >> 33) as u8
    }
}

fn grid_of(universe: &Universe) -> Vec<bool> {
    let mut grid = Vec::new();
    for y in 0..universe.height() {
        for x in 0..universe.width() {
            grid.push(universe.get(x, y) == Cell::Alive);
        }
    }
    grid
}

fn brute_force_step(grid: &[bool], w: i64, h: i64) -> Vec<bool> {
    let mut next = Vec::with_capacity(grid.len());
    for y in 0..h {
        for x in 0..w {
            let mut live = 0;
            for dy in -1i64..=1 {
                for dx in -1i64..=1 {
                    if (dx, dy) != (0, 0) {
                        let nx = (x + dx).rem_euclid(w);
                        let ny = (y + dy).rem_euclid(h);
                        if grid[(ny * w + nx) as usize] {
                            live += 1;
                        }
                    }
                }
            }
            let alive = grid[(y * w + x) as usize];
            next.push(matches!((alive, live), (true, 2) | (true, 3) | (false, 3)));
        }
    }
    next
}

fn assert_follows_brute_force(mut universe: Universe, generations: u32) {
    let w = universe.width() as i64;
    let h = universe.height() as i64;
    let mut expected = grid_of(&universe);
    for generation in 1..=generations {
        universe.tick();
        expected = brute_force_step(&expected, w, h);
        assert_eq!(grid_of(&universe), expected, "generation {generation}");
        assert_eq!(universe.generation(), generation);
    }
    for y in 0..universe.height() {
        for x in 0..universe.width() {
            assert_eq!(universe.neighbour_count(x, y), universe.alive_neighbour_count(x, y));
        }
    }
}

#[test]
fn seeded_ten_by_ten_grids_follow_a_brute_force_simulation_for_sixty_generations() {
    let mut random = Lcg(0x5EED);
    for _ in 0..20 {
        let seed: Vec<u8> = (0..13).map(|_| random.byte()).collect();
        let universe = Universe::from_seed(10, 10, 1, &seed).unwrap();
        assert_follows_brute_force(universe, 60);
    }
}

#[test]
fn a_randomly_built_grid_follows_a_brute_force_simulation() {
    let universe = Universe::new(10, 10, 2).unwrap();
    assert_follows_brute_force(universe, 50);
}

#[test]
fn odd_shapes_follow_a_brute_force_simulation() {
    let mut random = Lcg(7);
    for (w, h) in [(1u32, 1u32), (1, 6), (6, 1), (2, 2), (2, 5), (3, 3), (13, 4)] {
        let bytes = ((w * h + 7) / 8) as usize;
        let seed: Vec<u8> = (0..bytes).map(|_| random.byte()).collect();
        let universe = Universe::from_seed(w, h, 1, &seed).unwrap();
        assert_follows_brute_force(universe, 12);
    }
}

#[test]
fn edits_between_ticks_are_carried_into_the_next_generation() {
    let mut universe = Universe::from_seed(6, 6, 1, &[0u8; 5]).unwrap();
    universe.tick();
    universe.set(1, 1, Cell::Alive);
    universe.set(2, 1, Cell::Alive);
    universe.set(1, 2, Cell::Alive);
    universe.tick();
    // Three cells of a square give birth to the fourth.
    let alive: Vec<usize> =
        grid_of(&universe).iter().enumerate().filter(|(_, a)| **a).map(|(i, _)| i).collect();
    assert_eq!(alive, vec![7, 8, 13, 14]);
    universe.tick();
    let still: Vec<usize> =
        grid_of(&universe).iter().enumerate().filter(|(_, a)| **a).map(|(i, _)| i).collect();
    assert_eq!(still, vec![7, 8, 13, 14]);
    assert_eq!(universe.generation(), 3);
}

#[test]
fn the_rule_for_every_count() {
    for live in 0u8..=8 {
        let survives = if live == 2 || live == 3 { Cell::Alive } else { Cell::Dead };
        let born = if live == 3 { Cell::Alive } else { Cell::Dead };
        assert_eq!(Cell::Alive.next(live), survives, "alive with {live}");
        assert_eq!(Cell::Dead.next(live), born, "dead with {live}");
    }
}
