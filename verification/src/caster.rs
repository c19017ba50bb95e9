//! Ray casting over the maze grid: what a ray meets at each point it reaches.

use vstd::prelude::*;
use crate::scene::{maze_view, lemma_cell_of};

verus! {

/// Whether a ray hit a wall face running along its view (`Vertical`) or
/// across it (`Horizontal`).
#[derive(Clone, Copy, Debug, PartialEq, Eq, Structural)]
pub enum Orientation {
    Vertical,
    Horizontal,
}

/// What a ray that has reached pixel `(x, y)` of a maze with
/// `block`-sided cells meets there: `Some(' ')` past the edge of the maze,
/// `Some(c)` in a non-empty cell `c` (a wall or the exit), and `None` in an
/// empty cell, where the ray goes on.
pub open spec fn probe_at(maze: Seq<Seq<char>>, x: int, y: int, block: int) -> Option<char> {
    let i = x / block;
    let j = y / block;
    if j >= maze.len() || i >= maze[j].len() {
        Some(' ')
    } else if maze[j][i] != ' ' {
        Some(maze[j][i])
    } else {
        None
    }
}

/// What a ray that has reached pixel `(x, y)` meets there: the character it
/// stops on (`' '` past the edge of the maze), or `None` when it goes on.
pub fn ray_probe(maze: &Vec<Vec<char>>, x: usize, y: usize, block_size: usize) -> (r: Option<char>)
    requires
        block_size > 0,
    ensures
        r == probe_at(maze_view(maze), x as int, y as int, block_size as int),
{
    let i = x / block_size;
    let j = y / block_size;
    if j >= maze.len() || i >= maze[j].len() {
        return Some(' ');
    }
    let cell = maze[j][i];
    if cell != ' ' {
        Some(cell)
    } else {
        None
    }
}

/// A ray that reaches any point of cell `(i, j)` (column `i`, row `j`) of
/// `block`-sided cells stops there on that cell's character when the cell is
/// in the maze and not blank, goes on when it is blank, and meets `' '` when
/// the cell lies outside the maze.
pub proof fn lemma_probe_meets_cells(maze: Seq<Seq<char>>, x: int, y: int, block: int, i: int, j: int)
    requires
        block > 0,
        0 <= i,
        0 <= j,
        i * block <= x < i * block + block,
        j * block <= y < j * block + block,
    ensures
        j < maze.len() && i < maze[j].len() && maze[j][i] != ' ' ==> probe_at(maze, x, y, block)
            == Some(maze[j][i]),
        j < maze.len() && i < maze[j].len() && maze[j][i] == ' ' ==> probe_at(
            maze,
            x,
            y,
            block,
        ) == None::<char>,
        !(j < maze.len() && i < maze[j].len()) ==> probe_at(maze, x, y, block) == Some(' '),
{
    assert(0 <= i * block) by (nonlinear_arith)
        requires
            0 <= i,
            block > 0;
    assert(0 <= j * block) by (nonlinear_arith)
        requires
            0 <= j,
            block > 0;
    lemma_cell_of(0, block, x, i);
    lemma_cell_of(0, block, y, j);
}

} // verus!
