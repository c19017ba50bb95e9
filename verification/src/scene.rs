//! Drawing the maze: cells seen from above (the 2D view and the minimap),
//! the floor and the wall columns of the 3D view, and the vertex order that
//! the triangle filler scans in.

use vstd::prelude::*;
use vstd::arithmetic::div_mod::{lemma_fundamental_div_mod, lemma_fundamental_div_mod_converse};
use crate::framebuffer::{
    Framebuffer, paint, paint_colors, in_rect, lemma_paint_over_colors,
    lemma_paint_colors_congruent,
};

verus! {

/// The maze as rows of characters.
pub open spec fn maze_view(maze: &Vec<Vec<char>>) -> Seq<Seq<char>> {
    maze@.map_values(|row: Vec<char>| row@)
}

/// The colour a maze cell is drawn in from above: the exit `E` green, an
/// empty cell not at all, any other cell light blue.
pub open spec fn cell_color(c: char) -> Option<u32> {
    if c == ' ' {
        None
    } else if c == 'E' {
        Some(0x00FF00u32)
    } else {
        Some(0x87CEFAu32)
    }
}

/// From above, the exit is green, an empty cell is not drawn, and every
/// other cell, walls included, is light blue.
pub proof fn lemma_cell_colors(c: char)
    ensures
        cell_color('E') == Some(0x00FF00u32),
        cell_color(' ') == None::<u32>,
        c != 'E' && c != ' ' ==> cell_color(c) == Some(0x87CEFAu32),
        cell_color('|') == Some(0x87CEFAu32),
        cell_color('+') == Some(0x87CEFAu32),
        cell_color('-') == Some(0x87CEFAu32),
{
}

/// Draws maze cell `celda` as the `tamano_block`-sided square with top-left
/// corner `(xo, yo)`, clipped to the screen: the exit in green, any other
/// non-empty cell in light blue, and that colour becomes the current one.
/// An empty cell (`' '`) changes nothing.
pub fn dibujar_celdas(fb: &mut Framebuffer, xo: usize, yo: usize, tamano_block: usize, celda: char)
    requires
        celda != ' ' ==> old(fb).wf(),
        celda != ' ' ==> xo + tamano_block <= usize::MAX && yo + tamano_block <= usize::MAX,
    ensures
        celda == ' ' ==> *final(fb) == *old(fb),
        celda != ' ' ==> {
            &&& final(fb).wf()
            &&& final(fb).width == old(fb).width
            &&& final(fb).height == old(fb).height
            &&& final(fb).background() == old(fb).background()
            &&& Some(final(fb).current()) == cell_color(celda)
            &&& final(fb).buffer@ == paint(
                old(fb).buffer@,
                old(fb).width as int,
                |px: int, py: int|
                    in_rect(
                        px,
                        py,
                        xo as int,
                        xo + tamano_block,
                        yo as int,
                        yo + tamano_block,
                    ),
                final(fb).current(),
            )
        },
{
    match celda {
        'E' => fb.set_current_color(0x00FF00),
        ' ' => return ,
        _ => fb.set_current_color(0x87CEFA),
    }
    fb.fill_rect(xo, xo + tamano_block, yo, yo + tamano_block);
}

/// The colour that the last non-empty cell of `row` is drawn in, or `init`
/// when every cell is empty.
pub open spec fn row_last_color(row: Seq<char>, init: u32) -> u32
    decreases row.len(),
{
    if row.len() == 0 {
        init
    } else {
        match cell_color(row.last()) {
            Some(c) => c,
            None => row_last_color(row.drop_last(), init),
        }
    }
}

/// The colour that the last non-empty cell of `maze`, in row-major order, is
/// drawn in, or `init` when every cell is empty.
pub open spec fn maze_last_color(maze: Seq<Seq<char>>, init: u32) -> u32
    decreases maze.len(),
{
    if maze.len() == 0 {
        init
    } else {
        row_last_color(maze.last(), maze_last_color(maze.drop_last(), init))
    }
}

/// The colour that pixel `(px, py)` takes when `maze` is drawn with
/// `block`-sided cells from `(x_off, y_off)`: that of the cell it falls in,
/// if any.
pub open spec fn maze_color_at(
    maze: Seq<Seq<char>>,
    x_off: int,
    y_off: int,
    block: int,
    px: int,
    py: int,
) -> Option<u32> {
    if block > 0 && x_off <= px && y_off <= py {
        let col = (px - x_off) / block;
        let row = (py - y_off) / block;
        if row < maze.len() && col < maze[row].len() {
            cell_color(maze[row][col])
        } else {
            None
        }
    } else {
        None
    }
}

/// `maze_color_at`, restricted to the cells before `(r, c)` in row-major
/// order.
pub open spec fn maze_color_before(
    maze: Seq<Seq<char>>,
    x_off: int,
    y_off: int,
    block: int,
    r: int,
    c: int,
    px: int,
    py: int,
) -> Option<u32> {
    if block > 0 && x_off <= px && y_off <= py && ((py - y_off) / block < r || ((py - y_off)
        / block == r && (px - x_off) / block < c)) {
        maze_color_at(maze, x_off, y_off, block, px, py)
    } else {
        None
    }
}

/// Coordinate `p` falls in cell `c` of `block`-sided cells from `off`
/// exactly when it lies in `[off + c * block, off + c * block + block)`.
pub proof fn lemma_cell_of(off: int, block: int, p: int, c: int)
    requires
        block > 0,
        off <= p,
        0 <= c,
    ensures
        ((p - off) / block == c) <==> (off + c * block <= p < off + c * block + block),
{
    let q = (p - off) / block;
    let r = (p - off) % block;
    lemma_fundamental_div_mod(p - off, block);
    vstd::arithmetic::div_mod::lemma_mod_pos_bound(p - off, block);
    assert(block * q == q * block) by (nonlinear_arith);
    if off + c * block <= p < off + c * block + block {
        lemma_fundamental_div_mod_converse(p - off, block, c, p - off - c * block);
    }
}

/// The cells of a row of `n` cells fit in `n * block`.
proof fn lemma_cells_fit(c: int, n: int, block: int)
    requires
        0 <= c < n,
        0 <= block,
    ensures
        0 <= c * block,
        c * block + block <= n * block,
{
    assert(c * block + block <= n * block) by (nonlinear_arith)
        requires
            0 <= c < n,
            0 <= block;
    assert(0 <= c * block) by (nonlinear_arith)
        requires
            0 <= c,
            0 <= block;
}

/// Every pixel of the square of cell `(r, c)` (row `r`, column `c`) takes that
/// cell's colour when the maze is drawn; pixels left of or above the maze,
/// or in squares outside it, take none.
pub proof fn lemma_maze_pixel_color(
    maze: Seq<Seq<char>>,
    x_off: int,
    y_off: int,
    block: int,
    r: int,
    c: int,
    px: int,
    py: int,
)
    requires
        block > 0,
        0 <= r,
        0 <= c,
        x_off + c * block <= px < x_off + c * block + block,
        y_off + r * block <= py < y_off + r * block + block,
    ensures
        r < maze.len() && c < maze[r].len() ==> maze_color_at(maze, x_off, y_off, block, px, py)
            == cell_color(maze[r][c]),
        !(r < maze.len() && c < maze[r].len()) ==> maze_color_at(
            maze,
            x_off,
            y_off,
            block,
            px,
            py,
        ) == None::<u32>,
        maze_color_at(maze, x_off, y_off, block, x_off - 1, py) == None::<u32>,
        maze_color_at(maze, x_off, y_off, block, px, y_off - 1) == None::<u32>,
{
    assert(0 <= c * block) by (nonlinear_arith)
        requires
            0 <= c,
            block > 0;
    assert(0 <= r * block) by (nonlinear_arith)
        requires
            0 <= r,
            block > 0;
    lemma_cell_of(x_off, block, px, c);
    lemma_cell_of(y_off, block, py, r);
}

/// Draws every cell of `maze` with `dibujar_celdas`, row by row, cell `(r, c)`
/// at `(x_off + c * block, y_off + r * block)`. Cells never overlap, so each
/// pixel ends up in the colour of the cell it falls in; the current colour is
/// that of the last non-empty cell drawn.
pub fn draw_maze(fb: &mut Framebuffer, maze: &Vec<Vec<char>>, x_off: usize, y_off: usize, block: usize)
    requires
        old(fb).wf(),
        y_off + maze@.len() * block <= usize::MAX,
        forall|r: int|
            0 <= r < maze@.len() ==> x_off + #[trigger] maze@[r]@.len() * block <= usize::MAX,
    ensures
        final(fb).wf(),
        final(fb).width == old(fb).width,
        final(fb).height == old(fb).height,
        final(fb).background() == old(fb).background(),
        final(fb).current() == maze_last_color(maze_view(maze), old(fb).current()),
        final(fb).buffer@ == paint_colors(
            old(fb).buffer@,
            old(fb).width as int,
            |px: int, py: int|
                maze_color_at(maze_view(maze), x_off as int, y_off as int, block as int, px, py),
        ),
{
    let ghost mv = maze_view(maze);
    let ghost buf0 = fb.buffer@;
    let ghost w = fb.width as int;
    let ghost h = fb.height as int;
    let ghost init = fb.current();
    let ghost xo = x_off as int;
    let ghost yo = y_off as int;
    let ghost b = block as int;
    proof {
        lemma_paint_over_colors(
            buf0,
            w,
            |px: int, py: int| None::<u32>,
            |px: int, py: int| None::<u32>,
            |px: int, py: int| false,
            0,
        );
        lemma_paint_colors_congruent(
            buf0,
            w,
            h,
            |px: int, py: int| None::<u32>,
            |px: int, py: int| maze_color_before(mv, xo, yo, b, 0, 0, px, py),
        );
        assert(mv.take(0) =~= Seq::<Seq<char>>::empty());
    }
    let mut row: usize = 0;
    while row < maze.len()
        invariant
            fb.wf(),
            fb.width == old(fb).width,
            fb.height == old(fb).height,
            fb.background() == old(fb).background(),
            buf0 == old(fb).buffer@,
            buf0.len() == w * h,
            w == fb.width,
            h == fb.height,
            init == old(fb).current(),
            mv == maze_view(maze),
            mv.len() == maze@.len(),
            xo == x_off,
            yo == y_off,
            b == block,
            y_off + maze@.len() * block <= usize::MAX,
            forall|r: int|
                0 <= r < maze@.len() ==> x_off + #[trigger] maze@[r]@.len() * block
                    <= usize::MAX,
            row <= maze.len(),
            fb.current() == maze_last_color(mv.take(row as int), init),
            fb.buffer@ == paint_colors(
                buf0,
                w,
                |px: int, py: int| maze_color_before(mv, xo, yo, b, row as int, 0, px, py),
            ),
        decreases maze.len() - row,
    {
        let ghost r = row as int;
        let ghost rv = mv[r];
        let ghost init_row = maze_last_color(mv.take(r), init);
        assert(rv == maze@[r]@);
        proof {
            assert(rv.take(0) =~= Seq::<char>::empty());
            lemma_cells_fit(r, maze@.len() as int, b);
        }
        let mut col: usize = 0;
        while col < maze[row].len()
            invariant
                fb.wf(),
                fb.width == old(fb).width,
                fb.height == old(fb).height,
                fb.background() == old(fb).background(),
                buf0.len() == w * h,
                w == fb.width,
                h == fb.height,
                mv == maze_view(maze),
                mv.len() == maze@.len(),
                xo == x_off,
                yo == y_off,
                b == block,
                r == row,
                row < maze@.len(),
                rv == mv[r],
                rv == maze@[r]@,
                y_off + row * block + block <= usize::MAX,
                x_off + rv.len() * block <= usize::MAX,
                0 <= row * block,
                col <= rv.len(),
                fb.current() == row_last_color(rv.take(col as int), init_row),
                fb.buffer@ == paint_colors(
                    buf0,
                    w,
                    |px: int, py: int| maze_color_before(mv, xo, yo, b, r, col as int, px, py),
                ),
            decreases rv.len() - col,
        {
            let ghost k = col as int;
            let ghost ch = rv[k];
            proof {
                lemma_cells_fit(k, rv.len() as int, b);
            }
            let cx = x_off + col * block;
            let cy = y_off + row * block;
            let cell = maze[row][col];
            assert(cell == ch);
            dibujar_celdas(fb, cx, cy, block, cell);
            proof {
                let f_cur = |px: int, py: int| maze_color_before(mv, xo, yo, b, r, k, px, py);
                let f_next = |px: int, py: int| maze_color_before(mv, xo, yo, b, r, k + 1, px, py);
                assert(rv.take(k + 1).drop_last() =~= rv.take(k));
                assert(rv.take(k + 1).last() == ch);
                if ch == ' ' {
                    assert forall|px: int, py: int|
                        #![trigger f_cur(px, py)]
                        #![trigger f_next(px, py)]
                        0 <= px < w && 0 <= py < h implies f_cur(px, py) == f_next(px, py) by {
                        if b > 0 && xo <= px && yo <= py {
                            if (py - yo) / b == r && (px - xo) / b == k {
                                assert(maze_color_at(mv, xo, yo, b, px, py) == cell_color(ch));
                            }
                        }
                    }
                    lemma_paint_colors_congruent(buf0, w, h, f_cur, f_next);
                } else {
                    let color = fb.current();
                    let rect = |px: int, py: int| in_rect(px, py, cx as int, cx + b, cy as int, cy + b);
                    let f2 = |px: int, py: int| if rect(px, py) { Some(color) } else { f_cur(px, py) };
                    lemma_paint_over_colors(buf0, w, f_cur, f2, rect, color);
                    assert forall|px: int, py: int|
                        #![trigger f2(px, py)]
                        #![trigger f_next(px, py)]
                        0 <= px < w && 0 <= py < h implies f2(px, py) == f_next(px, py) by {
                        if rect(px, py) {
                            lemma_cell_of(xo, b, px, k);
                            lemma_cell_of(yo, b, py, r);
                            assert(maze_color_at(mv, xo, yo, b, px, py) == cell_color(ch));
                        } else if b > 0 && xo <= px && yo <= py {
                            lemma_cell_of(xo, b, px, k);
                            lemma_cell_of(yo, b, py, r);
                        }
                    }
                    lemma_paint_colors_congruent(buf0, w, h, f2, f_next);
                }
            }
            col = col + 1;
        }
        proof {
            assert(rv.take(rv.len() as int) =~= rv);
            assert(mv.take(r + 1).drop_last() =~= mv.take(r));
            assert(mv.take(r + 1).last() == rv);
            let f_row_end = |px: int, py: int| maze_color_before(mv, xo, yo, b, r, rv.len() as int, px, py);
            let f_next_row = |px: int, py: int| maze_color_before(mv, xo, yo, b, r + 1, 0, px, py);
            assert forall|px: int, py: int|
                #![trigger f_row_end(px, py)]
                #![trigger f_next_row(px, py)]
                0 <= px < w && 0 <= py < h implies f_row_end(px, py) == f_next_row(px, py) by {
                if b > 0 && xo <= px && yo <= py && (py - yo) / b == r && (px - xo) / b >= rv.len() {
                    assert(maze_color_at(mv, xo, yo, b, px, py) == None::<u32>);
                }
            }
            lemma_paint_colors_congruent(buf0, w, h, f_row_end, f_next_row);
        }
        row = row + 1;
    }
    proof {
        assert(mv.take(mv.len() as int) =~= mv);
        let f_end = |px: int, py: int| maze_color_before(mv, xo, yo, b, mv.len() as int, 0, px, py);
        let f_all = |px: int, py: int| maze_color_at(mv, xo, yo, b, px, py);
        assert forall|px: int, py: int|
            #![trigger f_end(px, py)]
            #![trigger f_all(px, py)]
            0 <= px < w && 0 <= py < h implies f_end(px, py) == f_all(px, py) by {}
        lemma_paint_colors_congruent(buf0, w, h, f_end, f_all);
    }
}

/// The 2D view's cells: the maze drawn from the top-left corner with cells
/// `width / maze[0].len()` pixels wide. Returns that cell size.
pub fn render2d_cells(fb: &mut Framebuffer, maze: &Vec<Vec<char>>) -> (block: usize)
    requires
        old(fb).wf(),
        maze@.len() > 0,
        maze@[0]@.len() > 0,
        maze@.len() * (old(fb).width as nat / maze@[0]@.len()) <= usize::MAX,
        forall|r: int|
            0 <= r < maze@.len() ==> #[trigger] maze@[r]@.len() * (old(fb).width as nat / maze@[0]@.len())
                <= usize::MAX,
    ensures
        block == old(fb).width as nat / maze@[0]@.len(),
        final(fb).wf(),
        final(fb).width == old(fb).width,
        final(fb).height == old(fb).height,
        final(fb).background() == old(fb).background(),
        final(fb).current() == maze_last_color(maze_view(maze), old(fb).current()),
        final(fb).buffer@ == paint_colors(
            old(fb).buffer@,
            old(fb).width as int,
            |px: int, py: int| maze_color_at(maze_view(maze), 0, 0, block as int, px, py),
        ),
{
    let block = fb.width / maze[0].len();
    draw_maze(fb, maze, 0, 0, block);
    block
}

/// The minimap's cells: the maze drawn with `block`-sided cells, 20 pixels
/// below the top edge and 20 pixels left of the right edge. Returns the
/// minimap's top-left corner.
pub fn render_minimap_cells(fb: &mut Framebuffer, maze: &Vec<Vec<char>>, block: usize) -> (origin: (
    usize,
    usize,
))
    requires
        old(fb).wf(),
        maze@.len() > 0,
        maze@[0]@.len() * block + 20 <= old(fb).width,
        20 + maze@.len() * block <= usize::MAX,
        forall|r: int|
            0 <= r < maze@.len() ==> old(fb).width - maze@[0]@.len() * block - 20
                + #[trigger] maze@[r]@.len() * block <= usize::MAX,
    ensures
        origin.0 == old(fb).width - maze@[0]@.len() * block - 20,
        origin.1 == 20,
        final(fb).wf(),
        final(fb).width == old(fb).width,
        final(fb).height == old(fb).height,
        final(fb).background() == old(fb).background(),
        final(fb).current() == maze_last_color(maze_view(maze), old(fb).current()),
        final(fb).buffer@ == paint_colors(
            old(fb).buffer@,
            old(fb).width as int,
            |px: int, py: int|
                maze_color_at(maze_view(maze), origin.0 as int, 20, block as int, px, py),
        ),
{
    let x_offset = fb.width - (maze[0].len() * block) - 20;
    let y_offset: usize = 20;
    draw_maze(fb, maze, x_offset, y_offset, block);
    (x_offset, y_offset)
}

/// The floor of the 3D view: every pixel from row `top` down, in light grey,
/// which becomes the current colour.
pub fn draw_floor(fb: &mut Framebuffer, top: usize)
    requires
        old(fb).wf(),
    ensures
        final(fb).wf(),
        final(fb).width == old(fb).width,
        final(fb).height == old(fb).height,
        final(fb).background() == old(fb).background(),
        final(fb).current() == 0xD3D3D3,
        final(fb).buffer@ == paint(
            old(fb).buffer@,
            old(fb).width as int,
            |px: int, py: int| top <= py,
            0xD3D3D3u32,
        ),
{
    fb.set_current_color(0xD3D3D3);
    let width = fb.width;
    let height = fb.height;
    fb.fill_rect(0, width, top, height);
    proof {
        crate::framebuffer::lemma_paint_congruent(
            old(fb).buffer@,
            width as int,
            height as int,
            |px: int, py: int| in_rect(px, py, 0, width as int, top as int, height as int),
            |px: int, py: int| top <= py,
            0xD3D3D3u32,
        );
    }
}

/// The colour of a wall in the 3D view by the maze character that the ray
/// hit.
pub open spec fn wall_color_of(impact: char) -> u32 {
    if impact == '+' {
        0xFF6F61
    } else if impact == '-' {
        0x6B8E23
    } else if impact == '|' {
        0x4682B4
    } else if impact == 'E' {
        0xFFD700
    } else {
        0xFFFFFF
    }
}

/// The colour of a wall in the 3D view by the maze character that the ray
/// hit.
pub fn wall_color(impact: char) -> (c: u32)
    ensures
        c == wall_color_of(impact),
{
    match impact {
        '+' => 0xFF6F61,
        '-' => 0x6B8E23,
        '|' => 0x4682B4,
        'E' => 0xFFD700,
        _ => 0xFFFFFF,
    }
}

/// In the 3D view `+` walls are coral, `-` walls olive, `|` walls steel
/// blue, the exit gold and anything else white; the four kinds all differ.
pub proof fn lemma_wall_colors(c: char)
    ensures
        wall_color_of('+') == 0xFF6F61,
        wall_color_of('-') == 0x6B8E23,
        wall_color_of('|') == 0x4682B4,
        wall_color_of('E') == 0xFFD700,
        c != '+' && c != '-' && c != '|' && c != 'E' ==> wall_color_of(c) == 0xFFFFFF,
{
}

/// The first row of a wall column whose top edge is at `top`.
pub open spec fn column_start(top: i32) -> int {
    if top < 0 {
        0
    } else {
        top as int
    }
}

/// The row after the last of a wall column whose bottom edge is at `bottom`
/// on a screen `height` rows high.
pub open spec fn column_end(bottom: i32, height: int) -> int {
    if bottom < height {
        bottom as int
    } else {
        height
    }
}

/// The rows of a wall column are exactly those at or below both the top edge
/// and row 0, and above both the bottom edge and the screen's last row: a
/// column reaching past the bottom of the screen is drawn down to its last
/// row.
pub proof fn lemma_column_rows(top: i32, bottom: i32, height: int, y: int)
    requires
        0 <= height,
    ensures
        (column_start(top) <= y < column_end(bottom, height)) <==> (0 <= y && top <= y && y
            < bottom && y < height),
        bottom >= height && top <= 0 ==> (column_start(top) <= y < column_end(bottom, height)
            <==> 0 <= y < height),
{
}

/// One column of the 3D view: in screen column `x`, the rows from
/// `max(top, 0)` up to `min(bottom, height)`, in the colour of the wall
/// `impact`, which becomes the current colour.
pub fn draw_wall_slice(fb: &mut Framebuffer, x: usize, top: i32, bottom: i32, impact: char)
    requires
        old(fb).wf(),
        old(fb).height <= i32::MAX,
        0 <= bottom,
        x < usize::MAX,
    ensures
        final(fb).wf(),
        final(fb).width == old(fb).width,
        final(fb).height == old(fb).height,
        final(fb).background() == old(fb).background(),
        final(fb).current() == wall_color_of(impact),
        final(fb).buffer@ == paint(
            old(fb).buffer@,
            old(fb).width as int,
            |px: int, py: int|
                px == x && column_start(top) <= py < column_end(bottom, old(fb).height as int),
            wall_color_of(impact),
        ),
{
    let color = wall_color(impact);
    fb.set_current_color(color);
    let from: usize = if top < 0 {
        0
    } else {
        top as usize
    };
    let h = fb.height as i32;
    let to: usize = if bottom < h {
        bottom as usize
    } else {
        h as usize
    };
    let ghost buf1 = fb.buffer@;
    fb.fill_rect(x, x + 1, from, to);
    proof {
        crate::framebuffer::lemma_paint_congruent(
            buf1,
            fb.width as int,
            fb.height as int,
            |px: int, py: int| in_rect(px, py, x as int, x + 1, from as int, to as int),
            |px: int, py: int|
                px == x && column_start(top) <= py < column_end(bottom, old(fb).height as int),
            color,
        );
    }
}

/// A triangle vertex `(x, y)`.
pub type Vertex = (isize, isize);

/// `(a, b)`, swapped when `a` lies below `b`.
pub open spec fn order_pair(a: Vertex, b: Vertex) -> (Vertex, Vertex) {
    if a.1 > b.1 {
        (b, a)
    } else {
        (a, b)
    }
}

/// The triangle's vertices after the three compare-and-swap steps that the
/// scanline filler starts with: first and second, first and third, second
/// and third.
pub open spec fn scan_order(p1: Vertex, p2: Vertex, p3: Vertex) -> (Vertex, Vertex, Vertex) {
    let (a1, a2) = order_pair(p1, p2);
    let (b1, a3) = order_pair(a1, p3);
    let (b2, b3) = order_pair(a2, a3);
    (b1, b2, b3)
}

/// Puts the triangle's vertices in scanline order, top (smallest `y`) first.
pub fn sort_vertices_by_y(p1: Vertex, p2: Vertex, p3: Vertex) -> (r: (Vertex, Vertex, Vertex))
    ensures
        r == scan_order(p1, p2, p3),
{
    let (mut v1, mut v2, mut v3) = (p1, p2, p3);
    if v1.1 > v2.1 {
        let t = v1;
        v1 = v2;
        v2 = t;
    }
    if v1.1 > v3.1 {
        let t = v1;
        v1 = v3;
        v3 = t;
    }
    if v2.1 > v3.1 {
        let t = v2;
        v2 = v3;
        v3 = t;
    }
    (v1, v2, v3)
}

/// The three vertices `(a, b, c)` are `(p1, p2, p3)` in some order.
pub open spec fn is_permutation_of(
    a: Vertex,
    b: Vertex,
    c: Vertex,
    p1: Vertex,
    p2: Vertex,
    p3: Vertex,
) -> bool {
    ||| (a, b, c) == (p1, p2, p3)
    ||| (a, b, c) == (p1, p3, p2)
    ||| (a, b, c) == (p2, p1, p3)
    ||| (a, b, c) == (p2, p3, p1)
    ||| (a, b, c) == (p3, p1, p2)
    ||| (a, b, c) == (p3, p2, p1)
}

/// The scanline order sorts the vertices by `y` and keeps all three of them.
pub proof fn lemma_scan_order_sorted(p1: Vertex, p2: Vertex, p3: Vertex)
    ensures
        scan_order(p1, p2, p3).0.1 <= scan_order(p1, p2, p3).1.1 <= scan_order(p1, p2, p3).2.1,
        is_permutation_of(
            scan_order(p1, p2, p3).0,
            scan_order(p1, p2, p3).1,
            scan_order(p1, p2, p3).2,
            p1,
            p2,
            p3,
        ),
{
}

} // verus!
