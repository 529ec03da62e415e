use life::{Cell, Universe};

const DEAD: u32 = 0xFF00_0000;

#[test]
fn the_framebuffer_has_one_square_block_per_cell() {
    // Cells 1 and 6 of a 4 by 2 grid: (1, 0) and (2, 1).
    let mut universe = Universe::from_seed(4, 2, 3, &[0b0100_0010]).unwrap();
    let pixels = universe.canvas().to_vec();
    assert_eq!(pixels.len(), 4 * 3 * 2 * 3);
    // (1, 0): blue 0 * 255 / 2, green 3 * 176 / 4, red 1 * 255 / 4.
    let first = 0xFF00_0000 | 0 | (132 << 8) | (63 << 16);
    // (2, 1): blue 1 * 255 / 2, green 2 * 176 / 4, red 2 * 255 / 4.
    let second = 0xFF00_0000 | 127 | (88 << 8) | (127 << 16);
    assert_eq!(first, 0xFF3F_8400);
    assert_eq!(second, 0xFF7F_587F);
    for py in 0..6usize {
        for px in 0..12usize {
            let expected = match (px / 3, py / 3) {
                (1, 0) => first,
                (2, 1) => second,
                _ => DEAD,
            };
            assert_eq!(pixels[py * 12 + px], expected, "pixel ({px}, {py})");
        }
    }
}

#[test]
fn a_fresh_universe_is_already_painted() {
    let mut universe = Universe::from_seed(5, 5, 2, &[0x00, 0x38, 0x00, 0x00]).unwrap();
    assert_eq!(universe.render(), 0);
}

#[test]
fn rendering_twice_writes_nothing_the_second_time() {
    let mut universe = Universe::from_seed(5, 5, 4, &[0x00, 0x38, 0x00, 0x00]).unwrap();
    universe.tick();
    // The ends of the row die and the cells above and below the middle are born.
    assert_eq!(universe.render(), 4);
    let first = universe.canvas().to_vec();
    assert_eq!(universe.render(), 0);
    let second = universe.canvas().to_vec();
    assert_eq!(first, second);
}

#[test]
fn an_edit_repaints_one_block() {
    let mut universe = Universe::from_seed(3, 3, 2, &[0, 0]).unwrap();
    let blank = universe.canvas().to_vec();
    assert!(blank.iter().all(|pixel| *pixel == DEAD));
    universe.set(2, 1, Cell::Alive);
    assert_eq!(universe.render(), 1);
    let pixels = universe.canvas().to_vec();
    // (2, 1) of 3 by 3: blue 1 * 255 / 3, green 1 * 176 / 3, red 2 * 255 / 3.
    let colour = 0xFF00_0000 | 85 | (58 << 8) | (170 << 16);
    for py in 0..6usize {
        for px in 0..6usize {
            let expected = if (px / 2, py / 2) == (2, 1) { colour } else { DEAD };
            assert_eq!(pixels[py * 6 + px], expected);
        }
    }
    universe.set(2, 1, Cell::Dead);
    assert_eq!(universe.render(), 1);
    assert_eq!(universe.canvas().to_vec(), blank);
}

#[test]
fn neither_edits_nor_ticks_touch_the_framebuffer() {
    let mut universe = Universe::from_seed(5, 5, 1, &[0x00, 0x38, 0x00, 0x00]).unwrap();
    let shown = universe.canvas().to_vec();
    universe.set(0, 0, Cell::Alive);
    universe.tick();
    // The ends of the row died; (2, 1), (2, 3) and, beside the edit, (1, 1)
    // were born; the edit itself died again. None of it had been drawn.
    assert_eq!(universe.render(), 5);
    assert_ne!(universe.canvas().to_vec(), shown);
}

#[test]
fn every_live_colour_is_opaque_and_differs_from_the_dead_colour() {
    let mut universe = Universe::from_seed(16, 16, 1, &[0xFF; 32]).unwrap();
    let pixels = universe.canvas().to_vec();
    for (i, pixel) in pixels.iter().enumerate() {
        let (x, y) = ((i % 16) as u32, (i / 16) as u32);
        let expected = 0xFF00_0000 | (y * 255 / 16) | (((16 - x) * 176 / 16) << 8) | ((x * 255 / 16) << 16);
        assert_eq!(*pixel, expected);
        assert_ne!(*pixel, DEAD);
    }
}
