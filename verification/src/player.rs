//! The player and the state of the game: where the camera stands and looks,
//! how it moves through the maze, and when the game is won.

use vstd::prelude::*;
use crate::caster::{blocked_at, cell_index, cell_of, maze_fits, lemma_unblocked_in_world};
use crate::fixed::{hypot, length, Direction, Point, ONE};
use crate::maze::{blocked, goal, grid, is_goal};

verus! {

/// The distance, in fixed-point units, that the player walks between two footsteps.
pub const FOOTSTEP_DISTANCE: u64 = 30 * 65536;

/// The camera of the first-person view.
#[derive(Clone, Copy, Debug, PartialEq, Eq, Structural)]
pub struct Player {
    /// The position in the world.
    pub pos: Point,
    /// The direction the player faces.
    pub heading: Direction,
    /// Half the field of view, in fixed-point radians.
    pub half_fov: u32,
}

/// What came of an attempt to move.
#[derive(Clone, Copy, Debug, PartialEq, Eq, Structural)]
pub struct MoveOutcome {
    /// The player moved to the target.
    pub moved: bool,
    /// The target lies in the goal cell.
    pub reached_goal: bool,
}

/// The state of a game.
#[derive(Clone, Copy, Debug, PartialEq, Eq, Structural)]
pub struct GameState {
    pub player: Player,
    /// The player has reached the goal.
    pub won: bool,
    /// The distance walked since the last footstep, in fixed-point units.
    pub walked: u64,
}

/// What a frame's events ask the world to do.
#[derive(Clone, Copy, Debug, PartialEq, Eq, Structural)]
pub struct FrameOutcome {
    /// The player moved in this frame.
    pub moved: bool,
    /// A footstep is due: the player moved, and has walked
    /// `FOOTSTEP_DISTANCE` or more since the last one.
    pub footstep: bool,
}

impl Player {
    /// The player stands inside the world and faces a direction.
    pub open spec fn wf(self) -> bool {
        self.pos.in_world() && self.heading.wf()
    }

    /// Whether the player stands inside the world and faces a direction.
    pub fn is_wf(&self) -> (b: bool)
        ensures
            b == self.wf(),
    {
        self.pos.is_in_world() && self.heading.is_wf()
    }
}

/// The point that the player aims for when moving at `speed` along the
/// heading: the position plus the heading times the speed, each component
/// rounded down. A negative speed moves backwards.
pub open spec fn target(player: Player, speed: int) -> (int, int) {
    (
        player.pos.x + player.heading.dx * speed / (ONE as int),
        player.pos.y + player.heading.dy * speed / (ONE as int),
    )
}

/// Whether the player can move at `speed`: the target does not lie in a
/// blocking cell.
pub open spec fn can_move(player: Player, g: Seq<Seq<char>>, block_size: int, speed: int) -> bool {
    !blocked(
        g,
        cell_index(target(player, speed).0, block_size),
        cell_index(target(player, speed).1, block_size),
    )
}

/// Whether the target of a move at `speed` lies in the goal cell.
pub open spec fn aims_at_goal(
    player: Player,
    g: Seq<Seq<char>>,
    block_size: int,
    speed: int,
) -> bool {
    goal(
        g,
        cell_index(target(player, speed).0, block_size),
        cell_index(target(player, speed).1, block_size),
    )
}

/// The player after an attempt to move at `speed`: at the target if it can
/// move there, and where it was otherwise.
pub open spec fn stepped(player: Player, g: Seq<Seq<char>>, block_size: int, speed: int) -> Player {
    if can_move(player, g, block_size, speed) {
        Player {
            pos: Point { x: target(player, speed).0 as i64, y: target(player, speed).1 as i64 },
            heading: player.heading,
            half_fov: player.half_fov,
        }
    } else {
        player
    }
}

/// The player after the first `count` of the moves, attempted in order.
pub open spec fn walked_to(
    player: Player,
    g: Seq<Seq<char>>,
    block_size: int,
    moves: Seq<i32>,
    count: int,
) -> Player
    decreases count,
{
    if count <= 0 {
        player
    } else {
        stepped(
            walked_to(player, g, block_size, moves, count - 1),
            g,
            block_size,
            moves[count - 1] as int,
        )
    }
}

/// Whether one of the first `count` moves succeeded.
pub open spec fn any_moved(
    player: Player,
    g: Seq<Seq<char>>,
    block_size: int,
    moves: Seq<i32>,
    count: int,
) -> bool
    decreases count,
{
    count > 0 && (any_moved(player, g, block_size, moves, count - 1) || can_move(
        walked_to(player, g, block_size, moves, count - 1),
        g,
        block_size,
        moves[count - 1] as int,
    ))
}

/// Whether one of the first `count` moves aimed at the goal cell.
pub open spec fn any_reached_goal(
    player: Player,
    g: Seq<Seq<char>>,
    block_size: int,
    moves: Seq<i32>,
    count: int,
) -> bool
    decreases count,
{
    count > 0 && (any_reached_goal(player, g, block_size, moves, count - 1) || aims_at_goal(
        walked_to(player, g, block_size, moves, count - 1),
        g,
        block_size,
        moves[count - 1] as int,
    ))
}

/// The distance walked since the last footstep, after a frame that took
/// the player from `from` to `to`.
pub open spec fn walked_after(walked: u64, moved: bool, from: Point, to: Point) -> int {
    if moved {
        if walked + hypot(to.x - from.x, to.y - from.y) > u64::MAX {
            u64::MAX as int
        } else {
            walked + hypot(to.x - from.x, to.y - from.y)
        }
    } else {
        walked as int
    }
}

/// One component of a step: the heading's component times the speed,
/// rounded down.
fn step_component(component: i32, speed: i32) -> (step: i64)
    requires
        -ONE <= component <= ONE,
    ensures
        step == component * speed / (ONE as int),
        -0x8000_0000 <= step <= 0x8000_0000,
{
    assert(-0x8000_0000_0000 <= component * speed <= 0x8000_0000_0000) by (nonlinear_arith)
        requires
            -0x1_0000 <= component <= 0x1_0000,
            -0x8000_0000 <= speed <= 0x7fff_ffff,
    ;
    let product: i64 = component as i64 * speed as i64;
    proof {
        vstd::arithmetic::div_mod::lemma_fundamental_div_mod(product as int, 0x1_0000);
    }
    match product.checked_div_euclid(ONE) {
        Some(step) => step,
        None => 0,
    }
}

/// Attempts to move the player at `speed` along the heading. The player
/// moves to the target unless the target lies in a blocking cell; either
/// way the outcome tells whether the target lies in the goal cell.
pub fn try_move(player: &mut Player, maze: &Vec<Vec<char>>, block_size: usize, speed: i32) -> (outcome:
    MoveOutcome)
    requires
        old(player).wf(),
        maze_fits(grid(maze), block_size as int),
    ensures
        outcome.moved == can_move(*old(player), grid(maze), block_size as int, speed as int),
        outcome.reached_goal == aims_at_goal(
            *old(player),
            grid(maze),
            block_size as int,
            speed as int,
        ),
        *final(player) == stepped(*old(player), grid(maze), block_size as int, speed as int),
        final(player).wf(),
{
    let x: i64 = player.pos.x + step_component(player.heading.dx, speed);
    let y: i64 = player.pos.y + step_component(player.heading.dy, speed);
    let moved = !blocked_at(maze, x, y, block_size);
    let reached_goal = match cell_of(y, block_size) {
        Some(row) => match cell_of(x, block_size) {
            Some(column) => is_goal(maze, column, row),
            None => false,
        },
        None => false,
    };
    proof {
        crate::caster::lemma_grid_lengths(maze);
    }
    if moved {
        proof {
            lemma_unblocked_in_world(grid(maze), block_size as int, x as int, y as int);
        }
        player.pos = Point { x, y };
    }
    MoveOutcome { moved, reached_goal }
}

/// Marks the game as won.
pub fn trigger_win_condition(state: &mut GameState)
    ensures
        final(state).won,
        final(state).player == old(state).player,
        final(state).walked == old(state).walked,
{
    state.won = true;
}

/// Notes that a footstep has sounded: the distance walked since the last
/// one starts again at zero.
pub fn footstep_played(state: &mut GameState)
    ensures
        final(state).walked == 0,
        final(state).player == old(state).player,
        final(state).won == old(state).won,
{
    state.walked = 0;
}

/// Applies a frame's events to the game. The moves are attempted in order,
/// each at its speed along the heading that the player had when the frame
/// began; a move whose target lies in the goal cell wins the game. Then the
/// player turns to `heading`. If a move succeeded, the distance between
/// where the player stood and where it stands now is added to the distance
/// walked, and a footstep is due once that reaches `FOOTSTEP_DISTANCE`.
pub fn process_events(
    state: &mut GameState,
    maze: &Vec<Vec<char>>,
    block_size: usize,
    moves: &Vec<i32>,
    heading: Direction,
) -> (outcome: FrameOutcome)
    requires
        old(state).player.wf(),
        heading.wf(),
        maze_fits(grid(maze), block_size as int),
    ensures
        final(state).player.pos == walked_to(
            old(state).player,
            grid(maze),
            block_size as int,
            moves@,
            moves@.len() as int,
        ).pos,
        final(state).player.heading == heading,
        final(state).player.half_fov == old(state).player.half_fov,
        final(state).player.wf(),
        final(state).won == (old(state).won || any_reached_goal(
            old(state).player,
            grid(maze),
            block_size as int,
            moves@,
            moves@.len() as int,
        )),
        outcome.moved == any_moved(
            old(state).player,
            grid(maze),
            block_size as int,
            moves@,
            moves@.len() as int,
        ),
        final(state).walked == walked_after(
            old(state).walked,
            outcome.moved,
            old(state).player.pos,
            final(state).player.pos,
        ),
        outcome.footstep == (outcome.moved && final(state).walked >= FOOTSTEP_DISTANCE),
{
    let from = state.player.pos;
    let mut player = state.player;
    let mut moved = false;
    let mut won = state.won;
    let mut i: usize = 0;
    while i < moves.len()
        invariant
            0 <= i <= moves@.len(),
            maze_fits(grid(maze), block_size as int),
            player.wf(),
            player.heading == old(state).player.heading,
            player.half_fov == old(state).player.half_fov,
            player == walked_to(old(state).player, grid(maze), block_size as int, moves@, i as int),
            moved == any_moved(old(state).player, grid(maze), block_size as int, moves@, i as int),
            won == (old(state).won || any_reached_goal(
                old(state).player,
                grid(maze),
                block_size as int,
                moves@,
                i as int,
            )),
        decreases moves@.len() - i,
    {
        let outcome = try_move(&mut player, maze, block_size, moves[i]);
        if outcome.moved {
            moved = true;
        }
        if outcome.reached_goal {
            won = true;
        }
        i += 1;
    }
    let mut walked = state.walked;
    if moved {
        let d = length(player.pos.x - from.x, player.pos.y - from.y);
        walked = if d > u64::MAX - walked {
            u64::MAX
        } else {
            walked + d
        };
    }
    player.heading = heading;
    state.player = player;
    state.walked = walked;
    if won {
        trigger_win_condition(state);
    }
    FrameOutcome { moved, footstep: moved && walked >= FOOTSTEP_DISTANCE }
}

} // verus!
