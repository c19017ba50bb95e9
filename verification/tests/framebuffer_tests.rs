use raycaster::framebuffer::Framebuffer;

fn count(fb: &Framebuffer, color: u32) -> usize {
    fb.buffer.iter().filter(|&&p| p == color).count()
}

#[test]
fn new_framebuffer_is_black_with_white_pen() {
    let fb = Framebuffer::new(3, 2);
    assert_eq!(fb.width, 3);
    assert_eq!(fb.height, 2);
    assert_eq!(fb.buffer, vec![0u32; 6]);
    assert_eq!(fb.current_color(), 0xFFFFFF);
    assert_eq!(fb.background_color(), 0x000000);
}

#[test]
fn point_sets_one_pixel_row_major() {
    let mut fb = Framebuffer::new(3, 2);
    fb.point(1, 1);
    let mut expected = vec![0u32; 6];
    expected[4] = 0xFFFFFF;
    assert_eq!(fb.buffer, expected);
}

#[test]
fn point_off_screen_changes_nothing() {
    let mut fb = Framebuffer::new(3, 2);
    fb.point(3, 0);
    fb.point(0, 2);
    fb.point(usize::MAX, usize::MAX);
    assert_eq!(fb.buffer, vec![0u32; 6]);
}

#[test]
fn point_uses_current_color() {
    let mut fb = Framebuffer::new(3, 2);
    fb.set_current_color(0xABCDEF);
    fb.point(0, 0);
    assert_eq!(fb.buffer[0], 0xABCDEF);
    assert_eq!(fb.current_color(), 0xABCDEF);
}

#[test]
fn clear_fills_with_background_and_keeps_pen() {
    let mut fb = Framebuffer::new(3, 2);
    fb.set_current_color(0x123456);
    fb.point(2, 1);
    fb.set_background_color(0x112233);
    fb.clear();
    assert_eq!(fb.buffer, vec![0x112233u32; 6]);
    assert_eq!(fb.current_color(), 0x123456);
    assert_eq!(fb.background_color(), 0x112233);
}

#[test]
fn fill_rect_is_clipped_to_the_screen() {
    let mut fb = Framebuffer::new(4, 3);
    fb.set_current_color(7);
    fb.fill_rect(1, 10, 1, 10);
    for y in 0..3 {
        for x in 0..4 {
            let expected = if x >= 1 && y >= 1 { 7 } else { 0 };
            assert_eq!(fb.buffer[y * 4 + x], expected, "pixel ({}, {})", x, y);
        }
    }
}

#[test]
fn fill_rect_empty_ranges_draw_nothing() {
    let mut fb = Framebuffer::new(4, 3);
    fb.fill_rect(3, 1, 0, 3);
    fb.fill_rect(0, 4, 2, 2);
    assert_eq!(count(&fb, 0xFFFFFF), 0);
}

#[test]
fn fill_span_fills_part_of_one_row() {
    let mut fb = Framebuffer::new(4, 3);
    fb.fill_span(2, 0, 2);
    let mut expected = vec![0u32; 12];
    expected[8] = 0xFFFFFF;
    expected[9] = 0xFFFFFF;
    assert_eq!(fb.buffer, expected);
}

#[test]
fn fill_span_below_the_screen_draws_nothing() {
    let mut fb = Framebuffer::new(4, 3);
    fb.fill_span(3, 0, 4);
    fb.fill_span(usize::MAX, 0, 4);
    assert_eq!(fb.buffer, vec![0u32; 12]);
}

#[test]
fn drawing_twice_is_drawing_once() {
    let mut once = Framebuffer::new(5, 5);
    once.fill_rect(1, 4, 0, 2);
    let mut twice = Framebuffer::new(5, 5);
    twice.fill_rect(1, 4, 0, 2);
    twice.fill_rect(1, 4, 0, 2);
    assert_eq!(once.buffer, twice.buffer);
}

#[test]
fn point_is_the_unit_rectangle() {
    let mut a = Framebuffer::new(4, 3);
    a.set_current_color(0x55);
    a.point(2, 1);
    let mut b = Framebuffer::new(4, 3);
    b.set_current_color(0x55);
    b.fill_rect(2, 3, 1, 2);
    assert_eq!(a.buffer, b.buffer);
}

#[test]
fn background_persists_until_replaced() {
    let mut fb = Framebuffer::new(5, 4);
    fb.set_background_color(0x0A0B0C);
    fb.point(1, 1);
    fb.set_current_color(0x77);
    fb.fill_span(2, 0, 5);
    fb.fill_rect(0, 2, 0, 2);
    fb.point(9, 9);
    fb.clear();
    assert_eq!(fb.buffer, vec![0x0A0B0Cu32; 20]);
    assert_eq!((fb.width, fb.height), (5, 4));
    assert_eq!(fb.background_color(), 0x0A0B0C);
}
