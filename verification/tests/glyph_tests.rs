use raycaster::framebuffer::Framebuffer;
use raycaster::glyphs::{
    decimal_digits_of, dibujar_digitos, dibujar_fps, dibujar_letra, digit_rows, letter_rows,
    mostrar_pantalla_exito, utf8_byte_len,
};

fn lit(fb: &Framebuffer) -> Vec<(usize, usize)> {
    let mut v = Vec::new();
    for y in 0..fb.height {
        for x in 0..fb.width {
            if fb.buffer[y * fb.width + x] != 0 {
                v.push((x, y));
            }
        }
    }
    v
}

#[test]
fn digit_one_shape() {
    let mut fb = Framebuffer::new(10, 10);
    dibujar_digitos(&mut fb, 0, 0, 1);
    assert_eq!(
        lit(&fb),
        vec![(2, 0), (1, 1), (2, 1), (2, 2), (2, 3), (1, 4), (2, 4), (3, 4)]
    );
}

#[test]
fn digit_above_nine_draws_nothing() {
    let mut fb = Framebuffer::new(10, 10);
    dibujar_digitos(&mut fb, 0, 0, 10);
    dibujar_digitos(&mut fb, 0, 0, 255);
    assert!(lit(&fb).is_empty());
}

#[test]
fn digit_is_clipped_at_the_edge() {
    let mut fb = Framebuffer::new(10, 10);
    dibujar_digitos(&mut fb, 8, 8, 8);
    // digit 8: rows 01110, 10001 -> only columns 0..2 and rows 0..2 are on screen
    assert_eq!(lit(&fb), vec![(9, 8), (8, 9)]);
}

#[test]
fn digit_rows_table() {
    assert_eq!(digit_rows(0), [0b01110, 0b10001, 0b10001, 0b10001, 0b01110]);
    assert_eq!(digit_rows(7), [0b11111, 0b00010, 0b00100, 0b01000, 0b10000]);
    assert_eq!(digit_rows(9), [0b01110, 0b10001, 0b01111, 0b00001, 0b01110]);
}

#[test]
fn letter_shapes() {
    assert_eq!(letter_rows('H'), [0b10001, 0b10001, 0b11111, 0b10001, 0b10001]);
    assert_eq!(letter_rows('a'), [0b01110, 0b10001, 0b11111, 0b10001, 0b10001]);
    assert_eq!(letter_rows('s'), [0b01111, 0b10000, 0b01110, 0b00001, 0b11110]);
    assert_eq!(letter_rows('A'), [0b11111; 5]);
    assert_eq!(letter_rows('!'), [0b11111; 5]);
}

#[test]
fn letter_h_is_drawn_with_its_gaps() {
    let mut fb = Framebuffer::new(5, 5);
    dibujar_letra(&mut fb, 0, 0, 'H');
    assert_eq!(lit(&fb).len(), 13);
    assert_eq!(fb.buffer[0], 0xFFFFFF);
    assert_eq!(fb.buffer[1], 0);
    assert_eq!(fb.buffer[2 * 5 + 2], 0xFFFFFF);
}

#[test]
fn other_letters_are_full_blocks() {
    let mut fb = Framebuffer::new(5, 5);
    dibujar_letra(&mut fb, 0, 0, 'Z');
    assert_eq!(lit(&fb).len(), 25);
}

#[test]
fn decimal_digits_of_numbers() {
    assert_eq!(decimal_digits_of(0), vec![0]);
    assert_eq!(decimal_digits_of(7), vec![7]);
    assert_eq!(decimal_digits_of(120), vec![1, 2, 0]);
    assert_eq!(decimal_digits_of(u32::MAX), vec![4, 2, 9, 4, 9, 6, 7, 2, 9, 5]);
}

#[test]
fn fps_counter_single_digit() {
    let mut fb = Framebuffer::new(40, 20);
    fb.set_current_color(0x123456);
    dibujar_fps(&mut fb, 7);
    assert_eq!(fb.current_color(), 0xFFFFFF);
    let pixels = lit(&fb);
    assert_eq!(pixels.len(), 9);
    assert!(pixels.contains(&(10, 10)));
    assert!(pixels.contains(&(14, 10)));
    assert!(pixels.contains(&(13, 11)));
    assert!(pixels.contains(&(10, 14)));
}

#[test]
fn fps_counter_digits_are_six_pixels_apart() {
    let mut fb = Framebuffer::new(40, 20);
    dibujar_fps(&mut fb, 10);
    let mut one = Framebuffer::new(40, 20);
    dibujar_digitos(&mut one, 10, 10, 1);
    dibujar_digitos(&mut one, 16, 10, 0);
    assert_eq!(fb.buffer, one.buffer);
}

#[test]
fn success_message_is_42_bytes() {
    let msg: Vec<char> = "¡HAS ALCANZADO LA META! ¡FELICITACIONES!".chars().collect();
    assert_eq!(msg.len(), 40);
    assert_eq!(utf8_byte_len(&msg), 42);
    assert_eq!(utf8_byte_len(&vec!['a', 'é', '€', '😀']), 1 + 2 + 3 + 4);
}

#[test]
fn success_screen_layout() {
    let mut fb = Framebuffer::new(260, 20);
    fb.set_background_color(0x010101);
    fb.point(0, 0);
    mostrar_pantalla_exito(&mut fb);
    assert_eq!(fb.current_color(), 0x00FF00);
    let green = fb.buffer.iter().filter(|&&p| p == 0x00FF00).count();
    let background = fb.buffer.iter().filter(|&&p| p == 0x010101).count();
    // 39 full blocks and one 'H' of 13 pixels
    assert_eq!(green, 39 * 25 + 13);
    assert_eq!(green + background, 260 * 20);
    // the message starts at 260 / 2 - 126 = 4, at row 10
    assert_eq!(fb.buffer[10 * 260 + 4], 0x00FF00);
    assert_eq!(fb.buffer[10 * 260 + 3], 0x010101);
    assert_eq!(fb.buffer[9 * 260 + 4], 0x010101);
    // the 'H' at 4 + 6 = 10 has a gap in its first row
    assert_eq!(fb.buffer[10 * 260 + 10], 0x00FF00);
    assert_eq!(fb.buffer[10 * 260 + 11], 0x010101);
}

#[test]
fn digit_above_nine_leaves_any_framebuffer_alone() {
    let mut fb = Framebuffer::new(4, 4);
    fb.buffer.truncate(3);
    dibujar_digitos(&mut fb, 0, 0, 12);
    assert_eq!(fb.buffer, vec![0, 0, 0]);
}

#[test]
fn fps_counter_is_its_digits_drawn_in_turn() {
    let mut fb = Framebuffer::new(40, 20);
    fb.set_current_color(0x1);
    dibujar_fps(&mut fb, 305);
    let mut by_hand = Framebuffer::new(40, 20);
    by_hand.set_current_color(0xFFFFFF);
    dibujar_digitos(&mut by_hand, 10, 10, 3);
    dibujar_digitos(&mut by_hand, 16, 10, 0);
    dibujar_digitos(&mut by_hand, 22, 10, 5);
    assert_eq!(fb.buffer, by_hand.buffer);
    for y in 0..20 {
        for x in 0..40 {
            if fb.buffer[y * 40 + x] != 0 {
                assert!((10..15).contains(&y) && (10..28).contains(&x));
            }
        }
    }
}
