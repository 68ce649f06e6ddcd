use rchip::Display;

#[test]
fn display_clear() {
    let mut display = Display::new();

    assert_eq!(display.pixels, [false; 64 * 32]);

    display.pixels = [true; 64 * 32];

    display.clear();

    assert_eq!(display.pixels, [false; 64 * 32]);
}

#[test]
fn toggle_pixels() {
    let mut display = Display::new();

    assert!(!display.toggle_pixel(10, 5));
    assert!(display.toggle_pixel(10, 5));
}

#[test]
fn toggle_pixels_wrapping() {
    let mut display = Display::new();

    assert!(!display.toggle_pixel(64, 0));
    assert!(display.toggle_pixel(0, 0));

    assert!(!display.toggle_pixel(63, 32));
    assert!(display.toggle_pixel(63, 0));
}

#[test]
fn draw_byte() {
    let mut display = Display::new();

    let byte = 0b1100_0000;

    // Draw the byte at (10, 5)
    assert!(!display.draw_byte(10, 5, byte));

    // Check pixel at (10, 5)
    assert!(display.pixels[5 * 64 + 10]);
    // Check pixel at (11, 5)
    assert!(display.pixels[5 * 64 + 11]);

    // Erase the byte at (10, 5)
    assert!(display.draw_byte(10, 5, byte));

    // Check pixel at (10, 5)
    assert!(!display.pixels[5 * 64 + 10]);
    // Check pixel at (11, 5)
    assert!(!display.pixels[5 * 64 + 11]);
}

#[test]
fn draw_sprite() {
    let mut display = Display::new();

    let sprite: &[u8] = &[0b1100_0000, 0b0011_0000];

    // Draw the sprite at (10, 5)
    assert!(!display.draw_sprite(10, 5, sprite));

    // Check pixel at (10, 5)
    assert!(display.pixels[5 * 64 + 10]);
    // Check pixel at (11, 5)
    assert!(display.pixels[5 * 64 + 11]);

    // Check pixel at (12, 6)
    assert!(display.pixels[6 * 64 + 12]);
    // Check pixel at (13, 6)
    assert!(display.pixels[6 * 64 + 13]);

    // Erase the sprite at (10, 5)
    assert!(display.draw_sprite(10, 5, sprite));

    // Check pixel at (10, 5)
    assert!(!display.pixels[5 * 64 + 10]);
    // Check pixel at (11, 5)
    assert!(!display.pixels[5 * 64 + 11]);

    // Check pixel at (12, 6)
    assert!(!display.pixels[6 * 64 + 12]);
    // Check pixel at (13, 6)
    assert!(!display.pixels[6 * 64 + 13]);
}

#[test]
fn get_pixel_wraps_coordinates() {
    let mut display = Display::new();

    display.toggle_pixel(3, 4);

    assert!(display.get_pixel(3, 4));
    assert!(display.get_pixel(3 + 64, 4 + 32));
    assert!(display.get_pixel(3 + 2 * 64, 4 + 5 * 32));
    assert!(!display.get_pixel(4, 3));
    assert_eq!(display.pixels.iter().filter(|lit| **lit).count(), 1);
}

#[test]
fn draw_byte_wraps_to_the_left_edge() {
    let mut display = Display::new();

    // Bits 0 and 7 set: columns 62 and 62 + 7 = 69, which wraps to column 5.
    assert!(!display.draw_byte(62, 31, 0b1000_0001));

    assert!(display.pixels[31 * 64 + 62]);
    assert!(display.pixels[31 * 64 + 5]);
    assert_eq!(display.pixels.iter().filter(|lit| **lit).count(), 2);
}

#[test]
fn draw_sprite_wraps_to_the_top_edge() {
    let mut display = Display::new();

    // Rows 31 and 32; the second wraps to row 0.
    assert!(!display.draw_sprite(0, 31, &[0b1000_0000, 0b0100_0000]));

    assert!(display.pixels[31 * 64]);
    assert!(display.pixels[1]);
    assert_eq!(display.pixels.iter().filter(|lit| **lit).count(), 2);
}

#[test]
fn drawing_over_a_lit_pixel_reports_collision_and_keeps_the_rest() {
    let mut display = Display::new();

    display.toggle_pixel(12, 7);

    // Covers (10, 7), (11, 7), (12, 7): only (12, 7) was lit.
    assert!(display.draw_byte(10, 7, 0b1110_0000));

    assert!(display.pixels[7 * 64 + 10]);
    assert!(display.pixels[7 * 64 + 11]);
    assert!(!display.pixels[7 * 64 + 12]);
}

#[test]
fn redrawing_on_a_blank_screen_erases_and_collides() {
    let mut display = Display::new();
    let sprite: &[u8] = &[0xF0, 0x90, 0x90, 0x90, 0xF0];

    assert!(!display.draw_sprite(20, 10, sprite));
    assert!(display.draw_sprite(20, 10, sprite));
    assert_eq!(display.pixels, [false; 2048]);
}

#[test]
fn redrawing_a_zero_sprite_reports_no_collision() {
    let mut display = Display::new();
    let sprite: &[u8] = &[0x00, 0x00, 0x00];

    assert!(!display.draw_sprite(20, 10, sprite));
    assert!(!display.draw_sprite(20, 10, sprite));
    assert_eq!(display.pixels, [false; 2048]);
}

#[test]
fn a_tall_sprite_whose_rows_meet_can_collide_with_itself() {
    let mut display = Display::new();
    // 33 rows: row 32 lands on the line of row 0 and turns its pixel off again.
    let mut sprite = [0u8; 33];
    sprite[0] = 0x80;
    sprite[32] = 0x80;

    assert!(display.draw_sprite(0, 0, &sprite));
    assert_eq!(display.pixels, [false; 2048]);
}

#[test]
fn drawing_an_empty_sprite_changes_nothing() {
    let mut display = Display::new();
    display.toggle_pixel(1, 1);

    assert!(!display.draw_sprite(1, 1, &[]));
    assert!(display.get_pixel(1, 1));
}

#[test]
fn collision_only_when_a_row_covers_a_lit_pixel() {
    let mut display = Display::new();
    display.toggle_pixel(5, 3);
    display.toggle_pixel(30, 3);

    // Rows at y = 2, 3, 4; row 1 (y = 3) covers columns 0..8 only where bits are set:
    // 0b0000_0100 covers column 5, which is lit.
    assert!(display.draw_sprite(0, 2, &[0xFF, 0b0000_0100, 0xFF]));
    assert!(!display.get_pixel(5, 3));
    assert!(display.get_pixel(30, 3));

    // Same rows, but row 1 now misses column 5 (which is off again) and column 30.
    assert!(!display.draw_sprite(0, 2, &[0x00, 0b0000_0010, 0x00]));
}
