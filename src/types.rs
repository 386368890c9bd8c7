//! Components and resources of the simulation.
use crate::geometry::{Aabb, Vec2, LIMIT};
use vstd::prelude::*;

verus! {

/// Number of fixed-point units in one world unit; also the number of
/// milliseconds in one second, the unit of `TimeRes`.
pub const UNITS_PER_SECOND: i64 = 1000;

/// Control input of both players; each direction is -1, 0 or 1.
#[derive(Clone, Copy, Debug, PartialEq, Eq)]
pub struct PlayerControl {
    pub directions: [i64; 2],
}

impl Default for PlayerControl {
    fn default() -> (r: Self)
        ensures
            r.directions[0] == 0 && r.directions[1] == 0,
    {
        PlayerControl { directions: [0, 0] }
    }
}

/// Direction from the state of an up key and a down key: 1, 0 or -1.
pub open spec fn key_direction(up: bool, down: bool) -> int {
    (if up {
        1int
    } else {
        0int
    }) - (if down {
        1int
    } else {
        0int
    })
}

impl PlayerControl {
    /// The control input given which of each player's up and down keys are
    /// held.
    pub fn from_keys(up: [bool; 2], down: [bool; 2]) -> (r: Self)
        ensures
            forall|p: int| 0 <= p < 2 ==> #[trigger] r.directions@[p] == key_direction(up@[p], down@[p]),
    {
        let mut d: [i64; 2] = [0, 0];
        let mut i: usize = 0;
        while i < 2
            invariant
                0 <= i <= 2,
                forall|p: int| 0 <= p < i ==> #[trigger] d@[p] == key_direction(up@[p], down@[p]),
            decreases 2 - i,
        {
            let mut v: i64 = 0;
            if up[i] {
                v += 1;
            }
            if down[i] {
                v -= 1;
            }
            d[i] = v;
            i += 1;
        }
        PlayerControl { directions: d }
    }
}

/// Frame time and total time, in milliseconds.
#[derive(Clone, Copy, Debug, PartialEq, Eq, Structural)]
pub struct TimeRes {
    pub delta_time: i64,
    pub game_time: i64,
}

/// Goals of the two sides.
#[derive(Clone, Copy, Debug, PartialEq, Eq)]
pub struct Scores(pub [u32; 2]);

/// View of the arena, for the renderer.
#[derive(Clone, Copy, Debug, PartialEq, Eq, Structural)]
pub struct Camera {
    pub center: Vec2,
    /// Rotation in milliradians.
    pub rotation: i64,
    pub fov: i64,
}

/// The arena rectangle.
#[derive(Clone, Copy, Debug, PartialEq, Eq, Structural)]
pub struct Boundary(pub Aabb);

/// Marks the ball.
#[derive(Clone, Copy, Debug, PartialEq, Eq, Structural)]
pub struct Ball;

#[derive(Clone, Copy, Debug, PartialEq, Eq, Structural)]
pub struct Position(pub Vec2);

/// Velocity in fixed-point units per second.
#[derive(Clone, Copy, Debug, PartialEq, Eq, Structural)]
pub struct Velocity(pub Vec2);

/// A paddle, steered by `PlayerControl::directions[id]`.
#[derive(Clone, Copy, Debug, PartialEq, Eq, Structural)]
pub struct Player {
    pub id: usize,
    pub speed: i64,
}

impl Player {
    pub open spec fn wf(self) -> bool {
        self.id < 2 && -LIMIT <= self.speed <= LIMIT
    }

    pub fn new(id: usize, speed: i64) -> (r: Self)
        ensures
            r.id == id,
            r.speed == speed,
    {
        Player { id, speed }
    }
}

} // verus!
