use death_maze::caster::{
    cast_ray_3d_step, cast_ray_step, draw_wall_column, uses_y_for_texture, wall_span, RAY_COLOR,
};
use death_maze::framebuffer::{Color, Framebuffer};
use death_maze::maze::{is_colliding, parse_maze};

/// The colour `point` paints with, read by painting pixel (0, 0) and then
/// restoring it.
fn pen_color(fb: &mut Framebuffer) -> u32 {
    let saved = fb.buffer[0];
    fb.point(0, 0);
    let c = fb.buffer[0];
    fb.buffer[0] = saved;
    c
}

fn maze(rows: &[&str]) -> Vec<Vec<char>> {
    rows.iter().map(|r| r.chars().collect()).collect()
}

#[test]
fn colliding_outside_walls_and_open() {
    let m = maze(&["+-+", "| |", "+-+"]);
    assert!(!is_colliding(150, 150, &m, 100));
    assert!(is_colliding(50, 50, &m, 100));
    assert!(is_colliding(150, 250, &m, 100));
    assert!(is_colliding(300, 150, &m, 100));
    assert!(is_colliding(150, 300, &m, 100));
    assert!(!is_colliding(199, 199, &m, 100));
    assert!(is_colliding(200, 199, &m, 100));
}

#[test]
fn colliding_any_non_space_cell() {
    let m = maze(&["  ", " x"]);
    assert!(!is_colliding(0, 0, &m, 1));
    assert!(is_colliding(1, 1, &m, 1));
}

#[test]
fn ray_step_paints_open_cells_only() {
    let m = maze(&["+-+", "| |", "+-+"]);
    let mut fb = Framebuffer::new(300, 300);
    fb.set_current_color(Color(0x000000));
    assert!(cast_ray_step(&mut fb, &m, 150, 120, 100));
    assert_eq!(fb.buffer[120 * 300 + 150], RAY_COLOR);
    assert_eq!(pen_color(&mut fb), RAY_COLOR);
    fb.set_current_color(Color(0x000000));
    let before = fb.buffer.clone();
    assert!(!cast_ray_step(&mut fb, &m, 50, 120, 100));
    assert!(!cast_ray_step(&mut fb, &m, 1000, 120, 100));
    assert_eq!(fb.buffer, before);
    assert_eq!(pen_color(&mut fb), 0x000000);
}

#[test]
fn ray_step_open_cell_outside_image() {
    let m = maze(&["   ", "   "]);
    let mut fb = Framebuffer::new(10, 10);
    assert!(cast_ray_step(&mut fb, &m, 150, 50, 100));
    assert!(fb.buffer.iter().all(|&p| p == 0));
    assert_eq!(pen_color(&mut fb), RAY_COLOR);
}

#[test]
fn ray_3d_step_hits_walls_and_edge() {
    let m = maze(&["+-+", "|x|", "+-+"]);
    assert_eq!(cast_ray_3d_step(&m, 150, 150, 100), None);
    assert_eq!(cast_ray_3d_step(&m, 250, 130, 100), Some((50, 30)));
    assert_eq!(cast_ray_3d_step(&m, 120, 5, 100), Some((20, 5)));
    assert_eq!(cast_ray_3d_step(&m, 350, 130, 100), Some((350, 130)));
    assert_eq!(cast_ray_3d_step(&m, 50, 310, 100), Some((50, 310)));
}

#[test]
fn wall_span_is_centred_and_saturates() {
    assert_eq!(wall_span(900, 100), (400, 500));
    assert_eq!(wall_span(900, 2000), (0, 1450));
    assert_eq!(wall_span(900, 0), (450, 450));
    assert_eq!(wall_span(usize::MAX, usize::MAX), (0, usize::MAX - 1));
    assert_eq!(wall_span(10, usize::MAX), (0, 5 + usize::MAX / 2));
}

#[test]
fn texture_axis_near_block_edges() {
    assert!(uses_y_for_texture(0, 100));
    assert!(uses_y_for_texture(4, 100));
    assert!(!uses_y_for_texture(5, 100));
    assert!(!uses_y_for_texture(95, 100));
    assert!(uses_y_for_texture(96, 100));
    assert!(uses_y_for_texture(104, 100));
    assert!(!uses_y_for_texture(150, 100));
}

#[test]
fn wall_column_paints_rows_in_order() {
    let mut fb = Framebuffer::new(3, 4);
    draw_wall_column(&mut fb, 1, 2, &vec![7, 8, 9]);
    let mut expected = vec![0u32; 12];
    expected[2 * 3 + 1] = 7;
    expected[3 * 3 + 1] = 8;
    assert_eq!(fb.buffer, expected);
    assert_eq!(pen_color(&mut fb), 9);
}

#[test]
fn wall_column_empty_keeps_pen() {
    let mut fb = Framebuffer::new(3, 4);
    draw_wall_column(&mut fb, 1, 0, &vec![]);
    assert_eq!(fb.buffer, vec![0; 12]);
    assert_eq!(pen_color(&mut fb), 0xFFFFFF);
}

#[test]
fn texture_axis_small_blocks() {
    assert!(uses_y_for_texture(0, 1));
    assert!(uses_y_for_texture(7, 3));
    assert!(uses_y_for_texture(4, 4));
}

#[test]
fn parse_maze_rows_match_lines() {
    for text in ["+-+\n| |\n+-+\n", "+-+\r\n| |\r\n+-+", "", "\n", "a\n\nb", "ab\r", "x\r\ny\rz\n\n", "  |"] {
        let chars: Vec<char> = text.chars().collect();
        let expected: Vec<Vec<char>> = text.lines().map(|l| l.chars().collect()).collect();
        assert_eq!(parse_maze(&chars), expected, "text {:?}", text);
    }
}

#[test]
fn parse_maze_example() {
    let chars: Vec<char> = "+-+\n| |\r\n+-+\n".chars().collect();
    assert_eq!(parse_maze(&chars), maze(&["+-+", "| |", "+-+"]));
}
