use vstd::prelude::*;

use crate::framebuffer::{Color, Framebuffer, glyph_covers};
use crate::maze::{colliding, lemma_block_below, lemma_block_of};

verus! {

/// The colour of wall cells on the top-down map and the minimap.
pub const WALL_COLOR: u32 = 0xFF0000;

/// The colour of open cells on the minimap.
pub const FLOOR_COLOR: u32 = 0x333333;

/// The colour of the player's marker on the minimap.
pub const PLAYER_COLOR: u32 = 0x0000FF;

/// The colour of the welcome text.
pub const TEXT_COLOR: u32 = 0xFFFFFF;

/// `(x, y)` lies in the `w` x `h` rectangle whose top-left pixel is `(x0, y0)`.
pub open spec fn in_rect(x: int, y: int, x0: int, y0: int, w: int, h: int) -> bool {
    x0 <= x < x0 + w && y0 <= y < y0 + h
}

/// Paints with the current colour every pixel of the `w` x `h` rectangle at
/// `(x0, y0)` that lies left of `clip_x` and above `clip_y`, column by column.
fn paint_rect(
    fb: &mut Framebuffer,
    x0: usize,
    y0: usize,
    w: usize,
    h: usize,
    clip_x: usize,
    clip_y: usize,
)
    requires
        old(fb)@.wf(),
        w == 0 || h == 0 || (x0 + w <= usize::MAX + 1 && y0 + h <= usize::MAX + 1),
    ensures
        final(fb)@.wf(),
        final(fb)@.width == old(fb)@.width,
        final(fb)@.height == old(fb)@.height,
        final(fb)@.background == old(fb)@.background,
        final(fb)@.current == old(fb)@.current,
        forall|x: int, y: int|
            old(fb)@.in_bounds(x, y) ==> #[trigger] final(fb)@.pixel(x, y) == if in_rect(
                x,
                y,
                x0 as int,
                y0 as int,
                w as int,
                h as int,
            ) && x < clip_x && y < clip_y {
                old(fb)@.current
            } else {
                old(fb)@.pixel(x, y)
            },
{
    let mut i: usize = 0;
    while i < w
        invariant
            0 <= i <= w,
            w == 0 || h == 0 || (x0 + w <= usize::MAX + 1 && y0 + h <= usize::MAX + 1),
            fb@.wf(),
            fb@.width == old(fb)@.width,
            fb@.height == old(fb)@.height,
            fb@.background == old(fb)@.background,
            fb@.current == old(fb)@.current,
            forall|x: int, y: int|
                old(fb)@.in_bounds(x, y) ==> #[trigger] fb@.pixel(x, y) == if in_rect(
                    x,
                    y,
                    x0 as int,
                    y0 as int,
                    i as int,
                    h as int,
                ) && x < clip_x && y < clip_y {
                    old(fb)@.current
                } else {
                    old(fb)@.pixel(x, y)
                },
        decreases w - i,
    {
        let mut j: usize = 0;
        while j < h
            invariant
                0 <= i < w,
                0 <= j <= h,
                w == 0 || h == 0 || (x0 + w <= usize::MAX + 1 && y0 + h <= usize::MAX + 1),
                fb@.wf(),
                fb@.width == old(fb)@.width,
                fb@.height == old(fb)@.height,
                fb@.background == old(fb)@.background,
                fb@.current == old(fb)@.current,
                forall|x: int, y: int|
                    old(fb)@.in_bounds(x, y) ==> #[trigger] fb@.pixel(x, y) == if (in_rect(
                        x,
                        y,
                        x0 as int,
                        y0 as int,
                        i as int,
                        h as int,
                    ) || (x == x0 + i && y0 <= y < y0 + j)) && x < clip_x && y < clip_y {
                        old(fb)@.current
                    } else {
                        old(fb)@.pixel(x, y)
                    },
            decreases h - j,
        {
            let ghost before = *fb;
            if x0 + i < clip_x && y0 + j < clip_y {
                fb.point(x0 + i, y0 + j);
            }
            assert forall|x: int, y: int| old(fb)@.in_bounds(x, y) implies #[trigger] fb@.pixel(
                x,
                y,
            ) == if (in_rect(x, y, x0 as int, y0 as int, i as int, h as int) || (x == x0 + i
                && y0 <= y < y0 + j + 1)) && x < clip_x && y < clip_y {
                old(fb)@.current
            } else {
                old(fb)@.pixel(x, y)
            } by {
                assert(before@.pixel(x, y) == if (in_rect(
                    x,
                    y,
                    x0 as int,
                    y0 as int,
                    i as int,
                    h as int,
                ) || (x == x0 + i && y0 <= y < y0 + j)) && x < clip_x && y < clip_y {
                    old(fb)@.current
                } else {
                    old(fb)@.pixel(x, y)
                });
            }
            j = j + 1;
        }
        i = i + 1;
    }
}

/// Paints a maze cell on the top-down map: an open cell (`' '`) is left as
/// it is; any other cell is filled, as the `block_size` x `block_size`
/// square at `(xo, yo)`, in the wall colour, which becomes the current one.
pub fn draw_cell(framebuffer: &mut Framebuffer, xo: usize, yo: usize, block_size: usize, cell: char)
    requires
        old(framebuffer)@.wf(),
        cell != ' ' ==> xo + block_size <= usize::MAX && yo + block_size <= usize::MAX,
    ensures
        final(framebuffer)@.wf(),
        final(framebuffer)@.width == old(framebuffer)@.width,
        final(framebuffer)@.height == old(framebuffer)@.height,
        final(framebuffer)@.background == old(framebuffer)@.background,
        cell == ' ' ==> final(framebuffer)@.pixels == old(framebuffer)@.pixels
            && final(framebuffer)@.current == old(framebuffer)@.current,
        cell != ' ' ==> final(framebuffer)@.current == WALL_COLOR,
        forall|x: int, y: int|
            old(framebuffer)@.in_bounds(x, y) ==> #[trigger] final(framebuffer)@.pixel(x, y) == if cell
                != ' ' && in_rect(
                x,
                y,
                xo as int,
                yo as int,
                block_size as int,
                block_size as int,
            ) {
                WALL_COLOR
            } else {
                old(framebuffer)@.pixel(x, y)
            },
{
    if cell == ' ' {
        return;
    }
    framebuffer.set_current_color(Color(WALL_COLOR));
    paint_rect(framebuffer, xo, yo, block_size, block_size, usize::MAX, usize::MAX);
}

/// Pixel `(x, y)` of the top-down map, drawn in blocks of `block_size`
/// pixels, lies on a cell other than `' '`.
pub open spec fn map_wall_at(maze: Seq<Vec<char>>, block_size: int, x: int, y: int) -> bool {
    &&& block_size > 0
    &&& y / block_size < maze.len()
    &&& x / block_size < maze[y / block_size]@.len()
    &&& maze[y / block_size]@[x / block_size] != ' '
}

/// Inside the maze's extent, a pixel blocks movement exactly when the
/// top-down map paints it as wall.
pub proof fn lemma_colliding_matches_map(maze: Seq<Vec<char>>, block_size: int, x: int, y: int)
    requires
        block_size > 0,
        maze.len() > 0,
        0 <= x < maze[0]@.len() * block_size,
        0 <= y < maze.len() * block_size,
        x / block_size < maze[y / block_size]@.len(),
    ensures
        colliding(maze, block_size, x, y) == map_wall_at(maze, block_size, x, y),
{
    lemma_block_below(y, block_size, maze.len() as int);
}

/// Among the cells before row `r`, column `c` in reading order, some cell
/// is not `' '`.
pub open spec fn wall_before(maze: Seq<Vec<char>>, r: int, c: int) -> bool {
    exists|i: int, j: int|
        0 <= i < maze.len() && 0 <= j < maze[i]@.len() && (i < r || (i == r && j < c))
            && #[trigger] maze[i]@[j] != ' '
}

/// Pixel `(x, y)` lies in a cell before row `r`, column `c` in reading order.
pub open spec fn cell_before(block_size: int, x: int, y: int, r: int, c: int) -> bool {
    y / block_size < r || (y / block_size == r && x / block_size < c)
}

/// The top-down map: every cell of the maze other than `' '` is filled in
/// the wall colour, as the `block_size` square at `(col * block_size,
/// row * block_size)`; then the player's pixel `(player_x, player_y)` is
/// painted in the wall colour too, which is left as the current colour.
pub fn draw_map(
    framebuffer: &mut Framebuffer,
    maze: &Vec<Vec<char>>,
    block_size: usize,
    player_x: usize,
    player_y: usize,
)
    requires
        old(framebuffer)@.wf(),
        maze@.len() * block_size <= usize::MAX,
        forall|r: int| 0 <= r < maze@.len() ==> #[trigger] maze@[r]@.len() * block_size <= usize::MAX,
    ensures
        final(framebuffer)@.wf(),
        final(framebuffer)@.width == old(framebuffer)@.width,
        final(framebuffer)@.height == old(framebuffer)@.height,
        final(framebuffer)@.background == old(framebuffer)@.background,
        final(framebuffer)@.current == WALL_COLOR,
        forall|x: int, y: int|
            old(framebuffer)@.in_bounds(x, y) ==> #[trigger] final(framebuffer)@.pixel(x, y) == if (x
                == player_x && y == player_y) || map_wall_at(maze@, block_size as int, x, y) {
                WALL_COLOR
            } else {
                old(framebuffer)@.pixel(x, y)
            },
{
    draw_maze_cells(framebuffer, maze, block_size);
    let ghost before = *framebuffer;
    framebuffer.set_current_color(Color(WALL_COLOR));
    framebuffer.point(player_x, player_y);
    assert forall|x: int, y: int| old(framebuffer)@.in_bounds(x, y) implies #[trigger] framebuffer@.pixel(
        x,
        y,
    ) == if (x == player_x && y == player_y) || map_wall_at(maze@, block_size as int, x, y) {
        WALL_COLOR
    } else {
        old(framebuffer)@.pixel(x, y)
    } by {
        assert(before@.pixel(x, y) == if map_wall_at(maze@, block_size as int, x, y) {
            WALL_COLOR
        } else {
            old(framebuffer)@.pixel(x, y)
        });
    }
}

/// Fills every cell of the maze other than `' '` in the wall colour; the
/// current colour becomes the wall colour if some cell was filled.
fn draw_maze_cells(framebuffer: &mut Framebuffer, maze: &Vec<Vec<char>>, block_size: usize)
    requires
        old(framebuffer)@.wf(),
        maze@.len() * block_size <= usize::MAX,
        forall|r: int| 0 <= r < maze@.len() ==> #[trigger] maze@[r]@.len() * block_size <= usize::MAX,
    ensures
        final(framebuffer)@.wf(),
        final(framebuffer)@.width == old(framebuffer)@.width,
        final(framebuffer)@.height == old(framebuffer)@.height,
        final(framebuffer)@.background == old(framebuffer)@.background,
        final(framebuffer)@.current == if wall_before(maze@, maze@.len() as int, 0) {
            WALL_COLOR
        } else {
            old(framebuffer)@.current
        },
        forall|x: int, y: int|
            old(framebuffer)@.in_bounds(x, y) ==> #[trigger] final(framebuffer)@.pixel(x, y) == if map_wall_at(
                maze@,
                block_size as int,
                x,
                y,
            ) {
                WALL_COLOR
            } else {
                old(framebuffer)@.pixel(x, y)
            },
{
    let rows = maze.len();
    let mut row: usize = 0;
    while row < rows
        invariant
            0 <= row <= rows,
            rows == maze@.len(),
            maze@.len() * block_size <= usize::MAX,
            forall|r: int| 0 <= r < maze@.len() ==> #[trigger] maze@[r]@.len() * block_size <= usize::MAX,
            framebuffer@.wf(),
            framebuffer@.width == old(framebuffer)@.width,
            framebuffer@.height == old(framebuffer)@.height,
            framebuffer@.background == old(framebuffer)@.background,
            framebuffer@.current == if wall_before(maze@, row as int, 0) {
                WALL_COLOR
            } else {
                old(framebuffer)@.current
            },
            forall|x: int, y: int|
                old(framebuffer)@.in_bounds(x, y) ==> #[trigger] framebuffer@.pixel(x, y) == if map_wall_at(
                    maze@,
                    block_size as int,
                    x,
                    y,
                ) && cell_before(block_size as int, x, y, row as int, 0) {
                    WALL_COLOR
                } else {
                    old(framebuffer)@.pixel(x, y)
                },
        decreases rows - row,
    {
        let cols = maze[row].len();
        let mut col: usize = 0;
        while col < cols
            invariant
                0 <= row < rows,
                0 <= col <= cols,
                rows == maze@.len(),
                cols == maze@[row as int]@.len(),
                maze@.len() * block_size <= usize::MAX,
                forall|r: int|
                    0 <= r < maze@.len() ==> #[trigger] maze@[r]@.len() * block_size <= usize::MAX,
                framebuffer@.wf(),
                framebuffer@.width == old(framebuffer)@.width,
                framebuffer@.height == old(framebuffer)@.height,
                framebuffer@.background == old(framebuffer)@.background,
                framebuffer@.current == if wall_before(maze@, row as int, col as int) {
                    WALL_COLOR
                } else {
                    old(framebuffer)@.current
                },
                forall|x: int, y: int|
                    old(framebuffer)@.in_bounds(x, y) ==> #[trigger] framebuffer@.pixel(x, y)
                        == if map_wall_at(maze@, block_size as int, x, y) && cell_before(
                        block_size as int,
                        x,
                        y,
                        row as int,
                        col as int,
                    ) {
                        WALL_COLOR
                    } else {
                        old(framebuffer)@.pixel(x, y)
                    },
            decreases cols - col,
        {
            assert(maze@[row as int]@.len() * block_size <= usize::MAX);
            assert(col * block_size + block_size <= usize::MAX && row * block_size + block_size
                <= usize::MAX) by (nonlinear_arith)
                requires
                    col < cols,
                    row < rows,
                    cols * block_size <= usize::MAX,
                    rows * block_size <= usize::MAX,
            ;
            let cell = maze[row][col];
            let xo = col * block_size;
            let yo = row * block_size;
            let ghost before = *framebuffer;
            draw_cell(framebuffer, xo, yo, block_size, cell);
            assert forall|x: int, y: int| old(framebuffer)@.in_bounds(x, y) implies #[trigger] framebuffer@.pixel(
                x,
                y,
            ) == if map_wall_at(maze@, block_size as int, x, y) && cell_before(
                block_size as int,
                x,
                y,
                row as int,
                col + 1,
            ) {
                WALL_COLOR
            } else {
                old(framebuffer)@.pixel(x, y)
            } by {
                assert(before@.pixel(x, y) == if map_wall_at(maze@, block_size as int, x, y)
                    && cell_before(block_size as int, x, y, row as int, col as int) {
                    WALL_COLOR
                } else {
                    old(framebuffer)@.pixel(x, y)
                });
                if block_size > 0 {
                    lemma_block_of(x, block_size as int, col as int);
                    lemma_block_of(y, block_size as int, row as int);
                }
            }
            if cell != ' ' {
                assert(maze@[row as int]@[col as int] != ' ');
                assert(wall_before(maze@, row as int, col + 1));
            } else {
                assert(wall_before(maze@, row as int, col + 1) == wall_before(
                    maze@,
                    row as int,
                    col as int,
                )) by {
                    if wall_before(maze@, row as int, col + 1) {
                        let (i, j) = choose|i: int, j: int|
                            0 <= i < maze@.len() && 0 <= j < maze@[i]@.len() && (i < row || (i
                                == row && j < col + 1)) && #[trigger] maze@[i]@[j] != ' ';
                        assert(!(i == row && j == col));
                    }
                }
            }
            col = col + 1;
        }
        assert(wall_before(maze@, row + 1, 0) == wall_before(maze@, row as int, col as int)) by {
            if wall_before(maze@, row + 1, 0) {
                let (i, j) = choose|i: int, j: int|
                    0 <= i < maze@.len() && 0 <= j < maze@[i]@.len() && (i < row + 1 || (i == row
                        + 1 && j < 0)) && #[trigger] maze@[i]@[j] != ' ';
                assert(i < row || (i == row && j < col));
            }
        }
        row = row + 1;
    }
}

/// Paints one maze cell on the minimap, in the wall colour for a cell other
/// than `' '` and the floor colour otherwise (that colour becomes the
/// current one): the `block_w` x `block_h` rectangle at `(x, y)`, cut to the
/// `minimap_size` square in the top-left corner.
pub fn draw_minimap_cell(
    framebuffer: &mut Framebuffer,
    x: usize,
    y: usize,
    block_w: usize,
    block_h: usize,
    cell: char,
    minimap_size: usize,
)
    requires
        old(framebuffer)@.wf(),
        block_w == 0 || block_h == 0 || (x + block_w <= usize::MAX + 1 && y + block_h <= usize::MAX
            + 1),
    ensures
        final(framebuffer)@.wf(),
        final(framebuffer)@.width == old(framebuffer)@.width,
        final(framebuffer)@.height == old(framebuffer)@.height,
        final(framebuffer)@.background == old(framebuffer)@.background,
        final(framebuffer)@.current == if cell != ' ' {
            WALL_COLOR
        } else {
            FLOOR_COLOR
        },
        forall|px: int, py: int|
            old(framebuffer)@.in_bounds(px, py) ==> #[trigger] final(framebuffer)@.pixel(px, py) == if in_rect(
                px,
                py,
                x as int,
                y as int,
                block_w as int,
                block_h as int,
            ) && px < minimap_size && py < minimap_size {
                final(framebuffer)@.current
            } else {
                old(framebuffer)@.pixel(px, py)
            },
{
    if cell != ' ' {
        framebuffer.set_current_color(Color(WALL_COLOR));
    } else {
        framebuffer.set_current_color(Color(FLOOR_COLOR));
    }
    paint_rect(framebuffer, x, y, block_w, block_h, minimap_size, minimap_size);
}

/// The minimap colour of a maze cell.
pub open spec fn minimap_color(cell: char) -> u32 {
    if cell != ' ' {
        WALL_COLOR
    } else {
        FLOOR_COLOR
    }
}

/// Cell `(r, c)` of the minimap covers pixel `(px, py)`: it is a cell of the
/// maze, and the pixel lies in its `block_w` x `block_h` rectangle at
/// `(xs[c], ys[r])` and in the `minimap_size` square.
pub open spec fn minimap_cell_covers(
    maze: Seq<Vec<char>>,
    xs: Seq<usize>,
    ys: Seq<usize>,
    block_w: int,
    block_h: int,
    minimap_size: int,
    r: int,
    c: int,
    px: int,
    py: int,
) -> bool {
    &&& 0 <= r < maze.len()
    &&& 0 <= c < maze[r]@.len()
    &&& in_rect(px, py, xs[c] as int, ys[r] as int, block_w, block_h)
    &&& px < minimap_size
    &&& py < minimap_size
}

/// The colour of the last cell, in reading order before row `r`, column
/// `c`, that covers pixel `(px, py)` on the minimap; none if no such cell
/// does.
pub open spec fn minimap_last_cover(
    maze: Seq<Vec<char>>,
    xs: Seq<usize>,
    ys: Seq<usize>,
    block_w: int,
    block_h: int,
    minimap_size: int,
    r: nat,
    c: nat,
    px: int,
    py: int,
) -> Option<u32>
    decreases r, c,
{
    if c > 0 {
        let j = (c - 1) as nat;
        if minimap_cell_covers(maze, xs, ys, block_w, block_h, minimap_size, r as int, j as int, px, py) {
            Some(minimap_color(maze[r as int]@[j as int]))
        } else {
            minimap_last_cover(maze, xs, ys, block_w, block_h, minimap_size, r, j, px, py)
        }
    } else if r > 0 {
        let i = (r - 1) as nat;
        minimap_last_cover(maze, xs, ys, block_w, block_h, minimap_size, i, maze[i as int]@.len(), px, py)
    } else {
        None
    }
}

/// The colour of the last cell of the maze, in reading order, before row
/// `r`, column `c`; none if there is no such cell.
pub open spec fn minimap_last_color(maze: Seq<Vec<char>>, r: nat, c: nat) -> Option<u32>
    decreases r, c,
{
    if c > 0 {
        let j = (c - 1) as nat;
        if r < maze.len() && j < maze[r as int]@.len() {
            Some(minimap_color(maze[r as int]@[j as int]))
        } else {
            minimap_last_color(maze, r, j)
        }
    } else if r > 0 {
        let i = (r - 1) as nat;
        minimap_last_color(maze, i, maze[i as int]@.len())
    } else {
        None
    }
}

/// The minimap's cells, row by row: cell `(r, c)` is painted as by
/// `draw_minimap_cell` at `(xs[c], ys[r])`, all cells the same
/// `block_w` x `block_h` size, later cells over earlier ones. Each pixel ends
/// in the colour of the last cell that covers it, and the current colour is
/// the last cell's.
pub fn draw_minimap_cells(
    framebuffer: &mut Framebuffer,
    maze: &Vec<Vec<char>>,
    xs: &Vec<usize>,
    ys: &Vec<usize>,
    block_w: usize,
    block_h: usize,
    minimap_size: usize,
)
    requires
        old(framebuffer)@.wf(),
        maze@.len() <= ys@.len(),
        forall|r: int| 0 <= r < maze@.len() ==> #[trigger] maze@[r]@.len() <= xs@.len(),
        block_w == 0 || block_h == 0 || ((forall|c: int|
            0 <= c < xs@.len() ==> #[trigger] xs@[c] + block_w <= usize::MAX + 1) && (forall|r: int|
            0 <= r < ys@.len() ==> #[trigger] ys@[r] + block_h <= usize::MAX + 1)),
    ensures
        final(framebuffer)@.wf(),
        final(framebuffer)@.width == old(framebuffer)@.width,
        final(framebuffer)@.height == old(framebuffer)@.height,
        final(framebuffer)@.background == old(framebuffer)@.background,
        final(framebuffer)@.current == match minimap_last_color(maze@, maze@.len(), 0) {
            Some(k) => k,
            None => old(framebuffer)@.current,
        },
        forall|px: int, py: int|
            old(framebuffer)@.in_bounds(px, py) ==> #[trigger] final(framebuffer)@.pixel(px, py)
                == match minimap_last_cover(
                maze@,
                xs@,
                ys@,
                block_w as int,
                block_h as int,
                minimap_size as int,
                maze@.len(),
                0,
                px,
                py,
            ) {
                Some(k) => k,
                None => old(framebuffer)@.pixel(px, py),
            },
{
    let rows = maze.len();
    let mut row: usize = 0;
    while row < rows
        invariant
            0 <= row <= rows,
            rows == maze@.len(),
            maze@.len() <= ys@.len(),
            forall|r: int| 0 <= r < maze@.len() ==> #[trigger] maze@[r]@.len() <= xs@.len(),
            block_w == 0 || block_h == 0 || ((forall|c: int|
                0 <= c < xs@.len() ==> #[trigger] xs@[c] + block_w <= usize::MAX + 1) && (forall|
                r: int,
            |
                0 <= r < ys@.len() ==> #[trigger] ys@[r] + block_h <= usize::MAX + 1)),
            framebuffer@.wf(),
            framebuffer@.width == old(framebuffer)@.width,
            framebuffer@.height == old(framebuffer)@.height,
            framebuffer@.background == old(framebuffer)@.background,
            framebuffer@.current == match minimap_last_color(maze@, row as nat, 0) {
                Some(k) => k,
                None => old(framebuffer)@.current,
            },
            forall|px: int, py: int|
                old(framebuffer)@.in_bounds(px, py) ==> #[trigger] framebuffer@.pixel(px, py)
                    == match minimap_last_cover(
                    maze@,
                    xs@,
                    ys@,
                    block_w as int,
                    block_h as int,
                    minimap_size as int,
                    row as nat,
                    0,
                    px,
                    py,
                ) {
                    Some(k) => k,
                    None => old(framebuffer)@.pixel(px, py),
                },
        decreases rows - row,
    {
        let cols = maze[row].len();
        let mut col: usize = 0;
        while col < cols
            invariant
                0 <= row < rows,
                0 <= col <= cols,
                rows == maze@.len(),
                cols == maze@[row as int]@.len(),
                maze@.len() <= ys@.len(),
                forall|r: int| 0 <= r < maze@.len() ==> #[trigger] maze@[r]@.len() <= xs@.len(),
                block_w == 0 || block_h == 0 || ((forall|c: int|
                    0 <= c < xs@.len() ==> #[trigger] xs@[c] + block_w <= usize::MAX + 1) && (forall|
                    r: int,
                |
                    0 <= r < ys@.len() ==> #[trigger] ys@[r] + block_h <= usize::MAX + 1)),
                framebuffer@.wf(),
                framebuffer@.width == old(framebuffer)@.width,
                framebuffer@.height == old(framebuffer)@.height,
                framebuffer@.background == old(framebuffer)@.background,
                framebuffer@.current == match minimap_last_color(maze@, row as nat, col as nat) {
                    Some(k) => k,
                    None => old(framebuffer)@.current,
                },
                forall|px: int, py: int|
                    old(framebuffer)@.in_bounds(px, py) ==> #[trigger] framebuffer@.pixel(px, py)
                        == match minimap_last_cover(
                        maze@,
                        xs@,
                        ys@,
                        block_w as int,
                        block_h as int,
                        minimap_size as int,
                        row as nat,
                        col as nat,
                        px,
                        py,
                    ) {
                        Some(k) => k,
                        None => old(framebuffer)@.pixel(px, py),
                    },
            decreases cols - col,
        {
            assert(maze@[row as int]@.len() <= xs@.len());
            let ghost before = *framebuffer;
            draw_minimap_cell(framebuffer, xs[col], ys[row], block_w, block_h, maze[row][col], minimap_size);
            assert forall|px: int, py: int| old(framebuffer)@.in_bounds(px, py) implies #[trigger] framebuffer@.pixel(
                px,
                py,
            ) == match minimap_last_cover(
                maze@,
                xs@,
                ys@,
                block_w as int,
                block_h as int,
                minimap_size as int,
                row as nat,
                (col + 1) as nat,
                px,
                py,
            ) {
                Some(k) => k,
                None => old(framebuffer)@.pixel(px, py),
            } by {
                assert(before@.pixel(px, py) == match minimap_last_cover(
                    maze@,
                    xs@,
                    ys@,
                    block_w as int,
                    block_h as int,
                    minimap_size as int,
                    row as nat,
                    col as nat,
                    px,
                    py,
                ) {
                    Some(k) => k,
                    None => old(framebuffer)@.pixel(px, py),
                });
            }
            col = col + 1;
        }
        row = row + 1;
    }
}

/// Side, in pixels, of the player's marker on the minimap.
pub const PLAYER_MARKER_SIZE: usize = 5;

/// Paints the player's marker on the minimap in the player colour (which
/// becomes the current one): the 5 x 5 square starting 2 pixels left of and
/// above `(player_x, player_y)`, each start held at 0, cut to the
/// `minimap_size` square in the top-left corner.
pub fn draw_minimap_player(
    framebuffer: &mut Framebuffer,
    player_x: usize,
    player_y: usize,
    minimap_size: usize,
)
    requires
        old(framebuffer)@.wf(),
        (if player_x >= 2 { player_x - 2 } else { 0 }) + PLAYER_MARKER_SIZE <= usize::MAX + 1,
        (if player_y >= 2 { player_y - 2 } else { 0 }) + PLAYER_MARKER_SIZE <= usize::MAX + 1,
    ensures
        final(framebuffer)@.wf(),
        final(framebuffer)@.width == old(framebuffer)@.width,
        final(framebuffer)@.height == old(framebuffer)@.height,
        final(framebuffer)@.background == old(framebuffer)@.background,
        final(framebuffer)@.current == PLAYER_COLOR,
        forall|px: int, py: int|
            old(framebuffer)@.in_bounds(px, py) ==> #[trigger] final(framebuffer)@.pixel(px, py) == if in_rect(
                px,
                py,
                if player_x >= 2 {
                    player_x - 2
                } else {
                    0
                },
                if player_y >= 2 {
                    player_y - 2
                } else {
                    0
                },
                PLAYER_MARKER_SIZE as int,
                PLAYER_MARKER_SIZE as int,
            ) && px < minimap_size && py < minimap_size {
                PLAYER_COLOR
            } else {
                old(framebuffer)@.pixel(px, py)
            },
{
    framebuffer.set_current_color(Color(PLAYER_COLOR));
    let half_size = PLAYER_MARKER_SIZE / 2;
    let left = player_x.saturating_sub(half_size);
    let top = player_y.saturating_sub(half_size);
    paint_rect(framebuffer, left, top, PLAYER_MARKER_SIZE, PLAYER_MARKER_SIZE, minimap_size, minimap_size);
}

/// The welcome screen: the image is cleared to the background colour, then
/// the pixels of the two rendered lines of text, `title` and `prompt`, are
/// painted in white, which is left as the current colour.
pub fn draw_welcome_screen(
    framebuffer: &mut Framebuffer,
    title: &Vec<(i32, i32)>,
    prompt: &Vec<(i32, i32)>,
)
    requires
        old(framebuffer)@.wf(),
    ensures
        final(framebuffer)@.wf(),
        final(framebuffer)@.width == old(framebuffer)@.width,
        final(framebuffer)@.height == old(framebuffer)@.height,
        final(framebuffer)@.background == old(framebuffer)@.background,
        final(framebuffer)@.current == TEXT_COLOR,
        forall|x: int, y: int|
            old(framebuffer)@.in_bounds(x, y) ==> #[trigger] final(framebuffer)@.pixel(x, y) == if glyph_covers(
                title@,
                title@.len() as int,
                old(framebuffer)@.width,
                old(framebuffer)@.height,
                x,
                y,
            ) || glyph_covers(
                prompt@,
                prompt@.len() as int,
                old(framebuffer)@.width,
                old(framebuffer)@.height,
                x,
                y,
            ) {
                TEXT_COLOR
            } else {
                old(framebuffer)@.background
            },
{
    framebuffer.clear();
    let ghost blank = *framebuffer;
    assert forall|x: int, y: int| old(framebuffer)@.in_bounds(x, y) implies #[trigger] blank@.pixel(
        x,
        y,
    ) == old(framebuffer)@.background by {
        crate::framebuffer::lemma_pixel_index_in_range(
            framebuffer@.width as int,
            framebuffer@.height as int,
            x,
            y,
        );
    }
    framebuffer.set_current_color(Color(TEXT_COLOR));
    let ghost cleared = *framebuffer;
    framebuffer.draw_glyph_pixels(title, Color(TEXT_COLOR));
    let ghost titled = *framebuffer;
    framebuffer.draw_glyph_pixels(prompt, Color(TEXT_COLOR));
    assert forall|x: int, y: int| old(framebuffer)@.in_bounds(x, y) implies #[trigger] framebuffer@.pixel(
        x,
        y,
    ) == if glyph_covers(
        title@,
        title@.len() as int,
        old(framebuffer)@.width,
        old(framebuffer)@.height,
        x,
        y,
    ) || glyph_covers(
        prompt@,
        prompt@.len() as int,
        old(framebuffer)@.width,
        old(framebuffer)@.height,
        x,
        y,
    ) {
        TEXT_COLOR
    } else {
        old(framebuffer)@.background
    } by {
        assert(blank@.pixel(x, y) == old(framebuffer)@.background);
        assert(cleared@.pixel(x, y) == blank@.pixel(x, y));
        assert(titled@.pixel(x, y) == if glyph_covers(
            title@,
            title@.len() as int,
            old(framebuffer)@.width,
            old(framebuffer)@.height,
            x,
            y,
        ) {
            TEXT_COLOR
        } else {
            cleared@.pixel(x, y)
        });
    }
}

} // verus!
