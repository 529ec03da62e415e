use life::{Cell, Universe};

fn blinker_row() -> Universe {
    // Cells 11, 12 and 13 of a 5 by 5 grid: the middle three of row 2.
    Universe::from_seed(5, 5, 1, &[0x00, 0x38, 0x00, 0x00]).unwrap()
}

fn alive_cells(universe: &Universe) -> Vec<(u32, u32)> {
    let mut alive = Vec::new();
    for y in 0..universe.height() {
        for x in 0..universe.width() {
            if universe.get(x, y) == Cell::Alive {
                alive.push((x, y));
            }
        }
    }
    alive
}

#[test]
fn blinker_turns_vertical_then_back() {
    let mut universe = blinker_row();
    assert_eq!(alive_cells(&universe), vec![(1, 2), (2, 2), (3, 2)]);
    universe.tick();
    assert_eq!(alive_cells(&universe), vec![(2, 1), (2, 2), (2, 3)]);
    assert_eq!(universe.generation(), 1);
    universe.tick();
    assert_eq!(alive_cells(&universe), vec![(1, 2), (2, 2), (3, 2)]);
    assert_eq!(universe.generation(), 2);
}
