use vstd::prelude::*;

use crate::framebuffer::{Color, Framebuffer, pixel_index};
use crate::maze::{colliding, is_colliding, probe_reads_existing_cell};

verus! {

/// The colour of the rays drawn on the top-down map.
pub const RAY_COLOR: u32 = 0xFFDDDD;

/// One step of a ray on the top-down map, at the pixel `(x, y)` it has
/// reached: a ray stops at a blocked pixel (see `colliding`); otherwise the
/// pixel is painted in the ray colour and the ray goes on. Returns whether
/// it goes on.
pub fn cast_ray_step(
    framebuffer: &mut Framebuffer,
    maze: &Vec<Vec<char>>,
    x: usize,
    y: usize,
    block_size: usize,
) -> (goes_on: bool)
    requires
        old(framebuffer)@.wf(),
        maze@.len() > 0,
        maze@[0]@.len() * block_size <= usize::MAX,
        maze@.len() * block_size <= usize::MAX,
        probe_reads_existing_cell(maze@, block_size as int, x as int, y as int),
    ensures
        goes_on == !colliding(maze@, block_size as int, x as int, y as int),
        goes_on ==> maze@[(y / block_size) as int]@[(x / block_size) as int] == ' ',
        final(framebuffer)@.wf(),
        final(framebuffer)@.width == old(framebuffer)@.width,
        final(framebuffer)@.height == old(framebuffer)@.height,
        final(framebuffer)@.background == old(framebuffer)@.background,
        final(framebuffer)@.current == if goes_on {
            RAY_COLOR
        } else {
            old(framebuffer)@.current
        },
        final(framebuffer)@.pixels == if goes_on && old(framebuffer)@.in_bounds(x as int, y as int) {
            old(framebuffer)@.pixels.update(
                pixel_index(old(framebuffer)@.width as int, x as int, y as int),
                RAY_COLOR,
            )
        } else {
            old(framebuffer)@.pixels
        },
{
    if is_colliding(x, y, maze, block_size) {
        return false;
    }
    framebuffer.set_current_color(Color(RAY_COLOR));
    framebuffer.point(x, y);
    true
}

/// The cells that stop a ray in the first-person view.
pub open spec fn is_wall_cell(c: char) -> bool {
    c == '|' || c == '-' || c == '+'
}

/// Where a first-person ray at pixel `(x, y)` stops, if it stops there:
/// outside the maze's extent it stops at `(x, y)` itself; on a wall cell it
/// stops at the offset of `(x, y)` within that cell's block.
pub open spec fn ray_3d_hit(maze: Seq<Vec<char>>, block_size: int, x: int, y: int) -> Option<
    (usize, usize),
> {
    let maze_x = x / block_size;
    let maze_y = y / block_size;
    if maze_x >= maze[0]@.len() || maze_y >= maze.len() {
        Some((x as usize, y as usize))
    } else if is_wall_cell(maze[maze_y]@[maze_x]) {
        Some(((x % block_size) as usize, (y % block_size) as usize))
    } else {
        None
    }
}

/// A first-person ray that stops inside the maze's extent stops on a pixel
/// that also blocks movement.
pub proof fn lemma_ray_3d_stops_where_blocked(maze: Seq<Vec<char>>, block_size: int, x: int, y: int)
    requires
        block_size > 0,
        0 <= x,
        0 <= y,
        x / block_size < maze[0]@.len(),
        y / block_size < maze.len(),
        x / block_size < maze[y / block_size]@.len(),
        ray_3d_hit(maze, block_size, x, y) is Some,
    ensures
        colliding(maze, block_size, x, y),
{
}

/// Where a first-person ray stops: outside the maze's extent it stops at the
/// pixel itself; on a cell `'|'`, `'-'` or `'+'` it stops at the pixel's
/// offset within that cell's block; on any other cell it goes on.
pub proof fn lemma_ray_3d_stops_exactly_on_walls(maze: Seq<Vec<char>>, block_size: int, x: int, y: int)
    requires
        block_size > 0,
        0 <= x <= usize::MAX,
        0 <= y <= usize::MAX,
    ensures
        (x / block_size >= maze[0]@.len() || y / block_size >= maze.len()) ==> ray_3d_hit(
            maze,
            block_size,
            x,
            y,
        ) == Some((x as usize, y as usize)),
        (x / block_size < maze[0]@.len() && y / block_size < maze.len()) ==> {
            let cell = maze[y / block_size]@[x / block_size];
            &&& (cell == '|' || cell == '-' || cell == '+') ==> ray_3d_hit(maze, block_size, x, y)
                == Some(((x % block_size) as usize, (y % block_size) as usize))
            &&& !(cell == '|' || cell == '-' || cell == '+') ==> ray_3d_hit(
                maze,
                block_size,
                x,
                y,
            ) is None
        },
{
}

/// One step of a first-person ray at the pixel `(x, y)` it has reached, as
/// `ray_3d_hit` states: `None` when the ray goes on.
pub fn cast_ray_3d_step(maze: &Vec<Vec<char>>, x: usize, y: usize, block_size: usize) -> (hit:
    Option<(usize, usize)>)
    requires
        maze@.len() > 0,
        block_size > 0,
        x / block_size < maze@[0]@.len() && y / block_size < maze@.len() ==> x / block_size
            < maze@[(y / block_size) as int]@.len(),
    ensures
        hit == ray_3d_hit(maze@, block_size as int, x as int, y as int),
        (x / block_size >= maze@[0]@.len() || y / block_size >= maze@.len()) ==> hit == Some((x, y)),
        (x / block_size < maze@[0]@.len() && y / block_size < maze@.len()) ==> {
            let cell = maze@[(y / block_size) as int]@[(x / block_size) as int];
            &&& (cell == '|' || cell == '-' || cell == '+') ==> hit == Some(
                (x % block_size, y % block_size),
            )
            &&& !(cell == '|' || cell == '-' || cell == '+') ==> hit is None
        },
        (x / block_size < maze@[0]@.len() && y / block_size < maze@.len()) ==> (hit matches Some(
            (hx, hy),
        ) ==> hx < block_size && hy < block_size),
{
    let maze_x = x / block_size;
    let maze_y = y / block_size;
    if maze_x >= maze[0].len() || maze_y >= maze.len() {
        return Some((x, y));
    }
    let cell = maze[maze_y][maze_x];
    if cell == '|' || cell == '-' || cell == '+' {
        return Some((x % block_size, y % block_size));
    }
    None
}

/// The rows a wall column covers, centred on the middle row: from
/// `height / 2 - wall_height / 2` to `height / 2 + wall_height / 2`, each
/// end saturating at the bounds of `usize`.
pub fn wall_span(height: usize, wall_height: usize) -> (span: (usize, usize))
    ensures
        span.0 == if height / 2 >= wall_height / 2 {
            height / 2 - wall_height / 2
        } else {
            0
        },
        span.1 == if height / 2 + wall_height / 2 <= usize::MAX {
            height / 2 + wall_height / 2
        } else {
            usize::MAX as int
        },
        span.0 <= height / 2 <= span.1,
{
    let wall_start = (height / 2).saturating_sub(wall_height / 2);
    let wall_end = (height / 2).saturating_add(wall_height / 2);
    (wall_start, wall_end)
}

/// Whether a ray hit a wall within 5 pixels of a block's vertical edge, where
/// the texture is laid out along `y` rather than `x`.
pub fn uses_y_for_texture(hit_x: usize, block_size: usize) -> (b: bool)
    requires
        block_size > 0,
    ensures
        b == (hit_x % block_size < 5 || hit_x % block_size > block_size - 5),
{
    (hit_x % block_size) < 5 || (hit_x % block_size) > (block_size - 5)
}

/// Paints one textured wall column: row `wall_start + k` of column `column`
/// gets `colors[k]`, each through the current colour, which ends as the last
/// colour painted. Rows outside the image are skipped.
pub fn draw_wall_column(
    framebuffer: &mut Framebuffer,
    column: usize,
    wall_start: usize,
    colors: &Vec<u32>,
)
    requires
        old(framebuffer)@.wf(),
        wall_start + colors@.len() <= usize::MAX,
    ensures
        final(framebuffer)@.wf(),
        final(framebuffer)@.width == old(framebuffer)@.width,
        final(framebuffer)@.height == old(framebuffer)@.height,
        final(framebuffer)@.background == old(framebuffer)@.background,
        final(framebuffer)@.current == if colors@.len() > 0 {
            colors@.last()
        } else {
            old(framebuffer)@.current
        },
        forall|x: int, y: int|
            old(framebuffer)@.in_bounds(x, y) ==> #[trigger] final(framebuffer)@.pixel(x, y) == if x
                == column && wall_start <= y < wall_start + colors@.len() {
                colors@[y - wall_start]
            } else {
                old(framebuffer)@.pixel(x, y)
            },
{
    let n = colors.len();
    let mut k: usize = 0;
    while k < n
        invariant
            0 <= k <= n,
            n == colors@.len(),
            wall_start + n <= usize::MAX,
            framebuffer@.wf(),
            framebuffer@.width == old(framebuffer)@.width,
            framebuffer@.height == old(framebuffer)@.height,
            framebuffer@.background == old(framebuffer)@.background,
            framebuffer@.current == if k > 0 {
                colors@[k - 1]
            } else {
                old(framebuffer)@.current
            },
            forall|x: int, y: int|
                old(framebuffer)@.in_bounds(x, y) ==> #[trigger] framebuffer@.pixel(x, y) == if x
                    == column && wall_start <= y < wall_start + k {
                    colors@[y - wall_start]
                } else {
                    old(framebuffer)@.pixel(x, y)
                },
        decreases n - k,
    {
        let ghost before = *framebuffer;
        framebuffer.set_current_color(Color(colors[k]));
        framebuffer.point(column, wall_start + k);
        assert forall|x: int, y: int| old(framebuffer)@.in_bounds(x, y) implies #[trigger] framebuffer@.pixel(
            x,
            y,
        ) == if x == column && wall_start <= y < wall_start + k + 1 {
            colors@[y - wall_start]
        } else {
            old(framebuffer)@.pixel(x, y)
        } by {
            assert(before@.pixel(x, y) == if x == column && wall_start <= y < wall_start + k {
                colors@[y - wall_start]
            } else {
                old(framebuffer)@.pixel(x, y)
            });
        }
        k = k + 1;
    }
}

} // verus!
