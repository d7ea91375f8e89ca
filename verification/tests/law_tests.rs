use death_maze::caster::cast_ray_3d_step;
use death_maze::framebuffer::Framebuffer;
use death_maze::game::FrameCounter;
use death_maze::maze::is_colliding;
use death_maze::render::{draw_map, WALL_COLOR};

fn maze(rows: &[&str]) -> Vec<Vec<char>> {
    rows.iter().map(|r| r.chars().collect()).collect()
}

#[test]
fn collision_matches_map_inside_extent() {
    let m = maze(&["+-+-", "| x ", "+ -+"]);
    let bs = 3;
    let mut fb = Framebuffer::new(12, 9);
    fb.clear();
    draw_map(&mut fb, &m, bs, 100, 100);
    for y in 0..9 {
        for x in 0..12 {
            let painted = fb.buffer[y * 12 + x] == WALL_COLOR;
            assert_eq!(is_colliding(x, y, &m, bs), painted, "pixel ({}, {})", x, y);
        }
    }
}

#[test]
fn first_person_stops_only_where_blocked() {
    let m = maze(&["+-+-", "| x ", "+ -+"]);
    let bs = 3;
    for y in 0..9 {
        for x in 0..12 {
            if cast_ray_3d_step(&m, x, y, bs).is_some() {
                assert!(is_colliding(x, y, &m, bs), "pixel ({}, {})", x, y);
            }
        }
    }
    assert!(is_colliding(7, 4, &m, bs));
    assert_eq!(cast_ray_3d_step(&m, 7, 4, bs), None);
}

#[test]
fn zero_block_size_always_collides() {
    let m = maze(&["  "]);
    assert!(is_colliding(0, 0, &m, 0));
}

#[test]
fn frame_counter_counts_and_restarts() {
    let mut c = FrameCounter::new();
    assert_eq!((c.frames, c.fps), (0, 0));
    c.tick(false);
    c.tick(false);
    assert_eq!((c.frames, c.fps), (2, 0));
    c.tick(true);
    assert_eq!((c.frames, c.fps), (0, 3));
    c.tick(false);
    assert_eq!((c.frames, c.fps), (1, 3));
    c.tick(true);
    assert_eq!((c.frames, c.fps), (0, 2));
}
