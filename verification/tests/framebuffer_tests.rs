use death_maze::framebuffer::{Color, Framebuffer};

/// The colour `point` paints with, read by painting pixel (0, 0) and then
/// restoring it.
fn pen_color(fb: &mut Framebuffer) -> u32 {
    let saved = fb.buffer[0];
    fb.point(0, 0);
    let c = fb.buffer[0];
    fb.buffer[0] = saved;
    c
}

/// The colour `clear` paints with, read by clearing and then restoring the
/// pixels.
fn background_color(fb: &mut Framebuffer) -> u32 {
    let saved = fb.buffer.clone();
    fb.clear();
    let c = fb.buffer[0];
    fb.buffer = saved;
    c
}

#[test]
fn new_framebuffer_is_black_with_white_pen() {
    let mut fb = Framebuffer::new(4, 3);
    assert_eq!(fb.width, 4);
    assert_eq!(fb.height, 3);
    assert_eq!(fb.buffer.len(), 12);
    assert!(fb.buffer.iter().all(|&p| p == 0));
    assert_eq!(background_color(&mut fb), 0x000000);
    assert_eq!(pen_color(&mut fb), 0xFFFFFF);
}

#[test]
fn new_empty_framebuffer() {
    let fb = Framebuffer::new(0, 5);
    assert_eq!(fb.buffer.len(), 0);
}

#[test]
fn point_writes_current_color_row_major() {
    let mut fb = Framebuffer::new(4, 3);
    fb.point(2, 1);
    assert_eq!(fb.buffer[1 * 4 + 2], 0xFFFFFF);
    let written = fb.buffer.iter().filter(|&&p| p != 0).count();
    assert_eq!(written, 1);
}

#[test]
fn point_reads_back_last_color() {
    let mut fb = Framebuffer::new(4, 3);
    fb.set_current_color(Color(0x123456));
    fb.point(3, 2);
    assert_eq!(fb.buffer[11], 0x123456);
    fb.set_current_color(Color(0xABCDEF));
    fb.point(3, 2);
    assert_eq!(fb.buffer[11], 0xABCDEF);
}

#[test]
fn point_outside_changes_nothing() {
    let mut fb = Framebuffer::new(4, 3);
    fb.point(4, 0);
    fb.point(0, 3);
    fb.point(usize::MAX, usize::MAX);
    assert!(fb.buffer.iter().all(|&p| p == 0));
}

#[test]
fn clear_paints_background_everywhere() {
    let mut fb = Framebuffer::new(3, 2);
    fb.point(1, 1);
    fb.set_background_color(Color(0x333355));
    assert_eq!(fb.buffer[4], 0xFFFFFF);
    fb.clear();
    assert_eq!(fb.buffer, vec![0x333355; 6]);
    assert_eq!(pen_color(&mut fb), 0xFFFFFF);
    fb.clear();
    assert_eq!(fb.buffer, vec![0x333355; 6]);
}

#[test]
fn set_colors_keep_pixels() {
    let mut fb = Framebuffer::new(2, 2);
    fb.point(0, 0);
    fb.set_current_color(Color(1));
    fb.set_background_color(Color(2));
    assert_eq!(fb.buffer, vec![0xFFFFFF, 0, 0, 0]);
    assert_eq!(pen_color(&mut fb), 1);
    assert_eq!(background_color(&mut fb), 2);
}

#[test]
fn glyph_pixels_inside_are_painted_others_dropped() {
    let mut fb = Framebuffer::new(4, 3);
    let pixels = vec![(0, 0), (3, 2), (-1, 0), (0, -1), (4, 0), (0, 3), (1, 1)];
    fb.draw_glyph_pixels(&pixels, Color(0x00FF00));
    let mut expected = vec![0u32; 12];
    expected[0] = 0x00FF00;
    expected[11] = 0x00FF00;
    expected[5] = 0x00FF00;
    assert_eq!(fb.buffer, expected);
    assert_eq!(pen_color(&mut fb), 0xFFFFFF);
}

#[test]
fn glyph_pixels_empty_list() {
    let mut fb = Framebuffer::new(2, 2);
    fb.draw_glyph_pixels(&vec![], Color(7));
    assert_eq!(fb.buffer, vec![0; 4]);
}

#[test]
fn accessors_show_the_image() {
    let mut fb = Framebuffer::new(3, 2);
    fb.point(2, 1);
    assert_eq!(fb.width(), 3);
    assert_eq!(fb.height(), 2);
    assert_eq!(fb.buffer(), &vec![0, 0, 0, 0, 0, 0xFFFFFF]);
}
