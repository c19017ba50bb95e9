//! The player's movement rules: which maze cells can be entered, and what
//! the keyboard asks the player to do.

use vstd::prelude::*;
use crate::scene::maze_view;

verus! {

/// The maze characters that block the player.
pub open spec fn is_wall(c: char) -> bool {
    c == '|' || c == '+' || c == '-'
}

/// Whether the player may stand in cell `(x, y)`: it lies inside the maze
/// (rows are measured against the first row's length) and is not a wall.
pub open spec fn walkable(maze: Seq<Seq<char>>, x: int, y: int) -> bool {
    &&& 0 <= y < maze.len()
    &&& 0 <= x < maze[0].len()
    &&& !is_wall(maze[y][x])
}

/// Inside the maze the player may stand on a cell exactly when it is not one
/// of the wall characters `|`, `+`, `-`: the exit and empty cells are open.
/// Outside the maze, or in an empty maze, nothing is walkable.
pub proof fn lemma_walkable_cells(maze: Seq<Seq<char>>, x: int, y: int)
    ensures
        0 <= y < maze.len() && 0 <= x < maze[0].len() ==> (walkable(maze, x, y) <==> (maze[y][x]
            != '|' && maze[y][x] != '+' && maze[y][x] != '-')),
        0 <= y < maze.len() && 0 <= x < maze[0].len() && (maze[y][x] == 'E' || maze[y][x] == ' ')
            ==> walkable(maze, x, y),
        !(0 <= y < maze.len() && 0 <= x < maze[0].len()) ==> !walkable(maze, x, y),
{
}

/// Whether the player may enter cell `(x, y)`.
pub fn can_move_to(maze: &Vec<Vec<char>>, x: usize, y: usize) -> (b: bool)
    requires
        y < maze@.len() && x < maze@[0]@.len() ==> x < maze@[y as int]@.len(),
    ensures
        b == walkable(maze_view(maze), x as int, y as int),
{
    if y < maze.len() && x < maze[0].len() {
        let cell = maze[y][x];
        cell != '|' && cell != '+' && cell != '-'
    } else {
        false
    }
}

/// Whether a step from cell `current` to cell `target` may be taken: moves
/// within a cell always may, a move into another cell only when that cell is
/// walkable.
pub fn move_allowed(maze: &Vec<Vec<char>>, current: (usize, usize), target: (usize, usize)) -> (b:
    bool)
    requires
        current != target ==> (target.1 < maze@.len() && target.0 < maze@[0]@.len()
            ==> target.0 < maze@[target.1 as int]@.len()),
    ensures
        b == (current == target || walkable(maze_view(maze), target.0 as int, target.1 as int)),
{
    if current.0 != target.0 || current.1 != target.1 {
        can_move_to(maze, target.0, target.1)
    } else {
        true
    }
}

/// The keys that steer the player.
#[derive(Clone, Copy, Debug, PartialEq, Eq, Structural)]
pub struct KeyState {
    pub space: bool,
    pub left: bool,
    pub right: bool,
    pub up: bool,
    pub down: bool,
    pub a: bool,
    pub d: bool,
    pub w: bool,
    pub s: bool,
}

/// What the player does this frame, in this order: turn left, turn right,
/// step forward, step back, each step `speed` units long.
#[derive(Clone, Copy, Debug, PartialEq, Eq, Structural)]
pub struct PlayerCommand {
    pub speed: u32,
    pub turn_left: bool,
    pub turn_right: bool,
    pub forward: bool,
    pub backward: bool,
}

/// The walking speed.
pub const WALK_SPEED: u32 = 5;

/// The running speed, while space is held.
pub const RUN_SPEED: u32 = 15;

/// Reads the keyboard: space runs; left or A turns left; right or D turns
/// right; up or W steps forward; down or S steps back.
pub fn player_command(keys: &KeyState) -> (c: PlayerCommand)
    ensures
        c.speed == (if keys.space { RUN_SPEED } else { WALK_SPEED }),
        c.turn_left == (keys.left || keys.a),
        c.turn_right == (keys.right || keys.d),
        c.forward == (keys.up || keys.w),
        c.backward == (keys.down || keys.s),
{
    let speed = if keys.space {
        RUN_SPEED
    } else {
        WALK_SPEED
    };
    PlayerCommand {
        speed,
        turn_left: keys.left || keys.a,
        turn_right: keys.right || keys.d,
        forward: keys.up || keys.w,
        backward: keys.down || keys.s,
    }
}

} // verus!
