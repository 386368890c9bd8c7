//! The entity table, the resources, and the per-tick systems: control,
//! movement, collisions and goal check, run in that order.
use crate::geometry::{
    trunc_div, vec2, Aabb, CircleCollider, Collider, ColliderType, Vec2, LIMIT, NORMAL_ONE,
};
use crate::physics::{
    clamp, clamp_exec, lemma_trunc_div_bound, resolve, resolved, trunc_div_wide, Body,
};
use crate::types::{
    Ball, Boundary, Camera, Player, PlayerControl, Position, Scores, TimeRes, Velocity,
    UNITS_PER_SECOND,
};
use vstd::prelude::*;

verus! {

pub const ARENA_HALF_WIDTH: i64 = 225_000;

pub const ARENA_HALF_HEIGHT: i64 = 150_000;

pub const BOUNDARY_WIDTH: i64 = 5_000;

pub const PLAYER_HALF_WIDTH: i64 = 5_000;

pub const PLAYER_HALF_HEIGHT: i64 = 25_000;

/// Gap between a paddle and the arena's side.
pub const PLAYER_MARGIN: i64 = 5_000;

pub const PLAYER_SPEED: i64 = 100_000;

pub const BALL_RADIUS: i64 = 5_000;

pub const BALL_SPEED: i64 = 100_000;

/// Launch angles of a new ball lie in this range, in milliradians.
pub const BALL_START_ANGLE_MIN: i64 = 500;

pub const BALL_START_ANGLE_MAX: i64 = 700;

/// One entity: an identifier and the components it carries.
#[derive(Clone, Copy, Debug, PartialEq, Eq)]
pub struct EntityData {
    pub id: u64,
    pub position: Option<Position>,
    pub velocity: Option<Velocity>,
    pub collider: Option<Collider>,
    pub collider_type: Option<ColliderType>,
    pub player: Option<Player>,
    pub ball: Option<Ball>,
}

impl EntityData {
    pub open spec fn wf(self) -> bool {
        &&& self.position matches Some(p) ==> p.0.within(LIMIT as int)
        &&& self.velocity matches Some(v) ==> v.0.within(LIMIT as int)
        &&& self.collider matches Some(c) ==> c.within(LIMIT as int)
        &&& self.player matches Some(p) ==> p.wf()
    }

    /// The entity as a body of the collision pass, when it has a collider,
    /// a collider type and a position.
    pub open spec fn body(self) -> Option<Body> {
        match (self.collider, self.collider_type, self.position) {
            (Some(c), Some(t), Some(p)) => Some(
                Body {
                    collider: c,
                    kind: t,
                    position: p.0,
                    velocity: match self.velocity {
                        Some(v) => Some(v.0),
                        None => None,
                    },
                },
            ),
            _ => None,
        }
    }

    /// The entity with position and velocity taken from `b`.
    pub open spec fn with_body(self, b: Body) -> EntityData {
        EntityData {
            position: Some(Position(b.position)),
            velocity: match b.velocity {
                Some(v) => Some(Velocity(v)),
                None => None,
            },
            ..self
        }
    }
}

/// A paddle's velocity follows its player's direction.
pub open spec fn controlled(e: EntityData, control: PlayerControl) -> EntityData {
    match (e.player, e.velocity) {
        (Some(p), Some(_)) => EntityData {
            velocity: Some(Velocity(vec2(0, clamp(control.directions@[p.id as int] * p.speed)))),
            ..e
        },
        _ => e,
    }
}

/// A moving entity advances by its velocity over `dt` milliseconds.
pub open spec fn moved(e: EntityData, dt: int) -> EntityData {
    match (e.position, e.velocity) {
        (Some(p), Some(v)) => EntityData {
            position: Some(
                Position(
                    vec2(
                        clamp(p.0.x + trunc_div(v.0.x * dt, UNITS_PER_SECOND as int)),
                        clamp(p.0.y + trunc_div(v.0.y * dt, UNITS_PER_SECOND as int)),
                    ),
                ),
            ),
            ..e
        },
        _ => e,
    }
}

/// The table after resolving the pair `(i, j)`, when both are bodies.
pub open spec fn resolve_at(s: Seq<EntityData>, i: int, j: int) -> Seq<EntityData> {
    match (s[i].body(), s[j].body()) {
        (Some(a), Some(b)) => {
            let r = resolved(a, b);
            s.update(i, s[i].with_body(r.0)).update(j, s[j].with_body(r.1))
        },
        _ => s,
    }
}

/// The table after resolving the pairs `(i, i + 1)` up to `(i, j - 1)`.
pub open spec fn resolve_row(s: Seq<EntityData>, i: int, j: int) -> Seq<EntityData>
    decreases j - i,
{
    if j <= i + 1 {
        s
    } else {
        resolve_at(resolve_row(s, i, j - 1), i, j - 1)
    }
}

/// The table after resolving every pair whose first index is below `i`.
pub open spec fn resolve_rows(s: Seq<EntityData>, i: int) -> Seq<EntityData>
    decreases i,
{
    if i <= 0 {
        s
    } else {
        let t = resolve_rows(s, i - 1);
        resolve_row(t, i - 1, t.len() as int)
    }
}

/// The table after the collision pass: every unordered pair once, in order.
pub open spec fn collided(s: Seq<EntityData>) -> Seq<EntityData> {
    resolve_rows(s, s.len() as int)
}

/// A ball beyond the right edge: a point for side 0.
pub open spec fn goal_right(e: EntityData, bd: Aabb) -> bool {
    e.ball is Some && (e.position matches Some(p) && p.0.x > bd.max.x)
}

/// A ball beyond the left edge: a point for side 1.
pub open spec fn goal_left(e: EntityData, bd: Aabb) -> bool {
    e.ball is Some && (e.position matches Some(p) && p.0.x <= bd.max.x && p.0.x < bd.min.x)
}

pub open spec fn count_right(s: Seq<EntityData>, bd: Aabb) -> nat
    decreases s.len(),
{
    if s.len() == 0 {
        0
    } else {
        count_right(s.drop_last(), bd) + if goal_right(s.last(), bd) {
            1nat
        } else {
            0nat
        }
    }
}

pub open spec fn count_left(s: Seq<EntityData>, bd: Aabb) -> nat
    decreases s.len(),
{
    if s.len() == 0 {
        0
    } else {
        count_left(s.drop_last(), bd) + if goal_left(s.last(), bd) {
            1nat
        } else {
            0nat
        }
    }
}

/// The entities that scored no goal, in their order.
pub open spec fn kept(s: Seq<EntityData>, bd: Aabb) -> Seq<EntityData>
    decreases s.len(),
{
    if s.len() == 0 {
        s
    } else if goal_right(s.last(), bd) || goal_left(s.last(), bd) {
        kept(s.drop_last(), bd)
    } else {
        kept(s.drop_last(), bd).push(s.last())
    }
}

/// A new ball at the origin.
pub open spec fn ball_entity(id: int, velocity: Vec2) -> EntityData {
    EntityData {
        id: id as u64,
        position: Some(Position(Vec2 { x: 0, y: 0 })),
        velocity: Some(Velocity(velocity)),
        collider: Some(
            Collider::Circle(CircleCollider { center: Vec2 { x: 0, y: 0 }, radius: BALL_RADIUS }),
        ),
        collider_type: Some(ColliderType::Actor),
        player: None,
        ball: Some(Ball),
    }
}

/// `n` new balls with identifiers from `first`.
pub open spec fn spawned(first: int, n: nat, velocity: Vec2) -> Seq<EntityData> {
    Seq::new(n, |k: int| ball_entity(first + k, velocity))
}

/// The table after the goal check: scoring balls removed, one new ball for
/// each of them appended.
pub open spec fn after_goals(s: Seq<EntityData>, bd: Aabb, first: int, velocity: Vec2) -> Seq<
    EntityData,
> {
    kept(s, bd) + spawned(first, count_right(s, bd) + count_left(s, bd), velocity)
}

pub open spec fn all_wf(s: Seq<EntityData>) -> bool {
    forall|k: int| 0 <= k < s.len() ==> #[trigger] s[k].wf()
}

/// The collision pass leaves a pair of bodies whose placed shapes do not
/// touch exactly as they were.
pub proof fn lemma_resolve_at_apart(s: Seq<EntityData>, i: int, j: int)
    requires
        0 <= i < j < s.len(),
        s[i].body() is Some,
        s[j].body() is Some,
        s[i].body()->0.placed().contact(s[j].body()->0.placed()) is None,
    ensures
        resolve_at(s, i, j) == s,
{
    assert(s[i].with_body(s[i].body()->0) == s[i]);
    assert(s[j].with_body(s[j].body()->0) == s[j]);
    assert(resolve_at(s, i, j) =~= s);
}

/// With no ball past either edge the goal check scores nothing and keeps
/// every entity.
pub proof fn lemma_no_goals(s: Seq<EntityData>, bd: Aabb)
    requires
        forall|k: int| 0 <= k < s.len() ==> !goal_right(#[trigger] s[k], bd) && !goal_left(s[k], bd),
    ensures
        count_right(s, bd) == 0,
        count_left(s, bd) == 0,
        kept(s, bd) == s,
    decreases s.len(),
{
    if s.len() > 0 {
        let t = s.drop_last();
        assert forall|k: int| 0 <= k < t.len() implies !goal_right(#[trigger] t[k], bd) && !goal_left(t[k], bd) by {
            assert(t[k] == s[k]);
        }
        lemma_no_goals(t, bd);
        assert(s.last() == s[s.len() - 1]);
        assert(t.push(s.last()) =~= s);
    }
}

proof fn lemma_single_right_goal_kept(s: Seq<EntityData>, bd: Aabb, i: int)
    requires
        0 <= i < s.len(),
        goal_right(s[i], bd),
        forall|k: int| 0 <= k < s.len() && k != i ==> !goal_right(#[trigger] s[k], bd) && !goal_left(s[k], bd),
    ensures
        count_right(s, bd) == 1,
        count_left(s, bd) == 0,
        kept(s, bd) == s.remove(i),
    decreases s.len(),
{
    let t = s.drop_last();
    assert(s.last() == s[s.len() - 1]);
    if i == s.len() - 1 {
        assert forall|k: int| 0 <= k < t.len() implies !goal_right(#[trigger] t[k], bd) && !goal_left(t[k], bd) by {
            assert(t[k] == s[k]);
        }
        lemma_no_goals(t, bd);
        assert(s.remove(i) =~= t);
    } else {
        assert forall|k: int| 0 <= k < t.len() && k != i implies !goal_right(#[trigger] t[k], bd) && !goal_left(t[k], bd) by {
            assert(t[k] == s[k]);
        }
        assert(t[i] == s[i]);
        lemma_single_right_goal_kept(t, bd, i);
        assert(t.remove(i).push(s.last()) =~= s.remove(i));
    }
}

/// One ball past the right edge, and no other goal: the goal check gives one
/// point to side 0 and none to side 1, removes that ball, and adds one new
/// ball at the origin under the next identifier.
pub proof fn lemma_single_right_goal(s: Seq<EntityData>, bd: Aabb, i: int, first: int, velocity: Vec2)
    requires
        0 <= i < s.len(),
        goal_right(s[i], bd),
        forall|k: int| 0 <= k < s.len() && k != i ==> !goal_right(#[trigger] s[k], bd) && !goal_left(s[k], bd),
    ensures
        count_right(s, bd) == 1,
        count_left(s, bd) == 0,
        after_goals(s, bd, first, velocity) == s.remove(i).push(ball_entity(first, velocity)),
{
    lemma_single_right_goal_kept(s, bd, i);
    assert(spawned(first, 1, velocity) =~= seq![ball_entity(first, velocity)]);
    assert(kept(s, bd) + spawned(first, 1, velocity) =~= kept(s, bd).push(ball_entity(first, velocity)));
}

pub proof fn lemma_counts_bounded(s: Seq<EntityData>, bd: Aabb)
    ensures
        count_right(s, bd) + count_left(s, bd) <= s.len(),
        kept(s, bd).len() + count_right(s, bd) + count_left(s, bd) == s.len(),
    decreases s.len(),
{
    if s.len() > 0 {
        lemma_counts_bounded(s.drop_last(), bd);
    }
}

/// Launch parameters of a new ball: horizontal and vertical sign
/// multipliers and an angle in milliradians.
#[derive(Clone, Copy, Debug, PartialEq, Eq, Structural)]
pub struct Launch {
    pub horizontal: i64,
    pub vertical: i64,
    pub angle: i64,
}

/// The launch chosen by the draw `r` from `0..=4 * range`, where `range` is
/// the width of the angle range. The quarter of the draw, from 0 to 3 (the
/// closed upper end counts in the last quarter), picks the side (its half)
/// and up or down (its parity); the offset in the quarter picks the angle.
pub open spec fn launch_plan(r: int) -> Launch {
    let range = BALL_START_ANGLE_MAX - BALL_START_ANGLE_MIN;
    let quarter = if r / range > 3 {
        3
    } else {
        r / range
    };
    Launch {
        horizontal: ((quarter / 2) * 2 - 1) as i64,
        vertical: ((quarter % 2) * 2 - 1) as i64,
        angle: (BALL_START_ANGLE_MIN + r - quarter * range) as i64,
    }
}

/// Computes `launch_plan(r)`.
pub fn plan_launch(r: u64) -> (l: Launch)
    requires
        r <= 4 * (BALL_START_ANGLE_MAX - BALL_START_ANGLE_MIN),
    ensures
        l == launch_plan(r as int),
        BALL_START_ANGLE_MIN <= l.angle <= BALL_START_ANGLE_MAX,
        l.horizontal == -1 || l.horizontal == 1,
        l.vertical == -1 || l.vertical == 1,
{
    let range = (BALL_START_ANGLE_MAX - BALL_START_ANGLE_MIN) as u64;
    let q = r / range;
    let quarter = if q > 3 {
        3
    } else {
        q
    };
    proof {
        vstd::arithmetic::div_mod::lemma_fundamental_div_mod(r as int, range as int);
        vstd::arithmetic::div_mod::lemma_div_is_ordered(r as int, 800, 200);
        assert(800int / 200 == 4);
    }
    let horizontal = (quarter / 2) as i64 * 2 - 1;
    let vertical = (quarter % 2) as i64 * 2 - 1;
    let offset = r - quarter * range;
    let angle = BALL_START_ANGLE_MIN + offset as i64;
    Launch { horizontal, vertical, angle }
}

/// rand's seedable standard generator, carried through opaquely.
#[verifier::external_type_specification]
#[verifier::external_body]
pub struct ExStdRng(rand::rngs::StdRng);

/// Relies on rand's `Rng::gen_range` on the inclusive range `0..=max`,
/// which is never empty: a value from that range.
#[verifier::external_body]
fn draw_up_to(rng: &mut rand::rngs::StdRng, max: u64) -> (r: u64)
    ensures
        r <= max,
{
    rand::Rng::gen_range(rng, 0..=max)
}

/// Draws the launch of a new ball from `rng`.
pub fn random_launch(rng: &mut rand::rngs::StdRng) -> (l: Launch)
    ensures
        exists|r: int| 0 <= r <= 4 * (BALL_START_ANGLE_MAX - BALL_START_ANGLE_MIN) && l == launch_plan(r),
        BALL_START_ANGLE_MIN <= l.angle <= BALL_START_ANGLE_MAX,
        l.horizontal == -1 || l.horizontal == 1,
        l.vertical == -1 || l.vertical == 1,
{
    let r = draw_up_to(rng, 4 * (BALL_START_ANGLE_MAX - BALL_START_ANGLE_MIN) as u64);
    plan_launch(r)
}

/// Velocity of a launch at `BALL_SPEED`, given the cosine and the sine of
/// its angle scaled by `NORMAL_ONE`.
pub open spec fn launch_velocity_of(l: Launch, cos: int, sin: int) -> Vec2 {
    vec2(
        trunc_div(cos * l.horizontal * BALL_SPEED, NORMAL_ONE as int),
        trunc_div(sin * l.vertical * BALL_SPEED, NORMAL_ONE as int),
    )
}

pub fn launch_velocity(l: Launch, cos: i64, sin: i64) -> (v: Vec2)
    requires
        -NORMAL_ONE <= cos <= NORMAL_ONE,
        -NORMAL_ONE <= sin <= NORMAL_ONE,
        l.horizontal == -1 || l.horizontal == 1,
        l.vertical == -1 || l.vertical == 1,
    ensures
        v == launch_velocity_of(l, cos as int, sin as int),
        v.within(LIMIT as int),
{
    assert(-300_000_000 <= cos * l.horizontal * BALL_SPEED <= 300_000_000) by (nonlinear_arith)
        requires
            -1000 <= cos <= 1000,
            -1 <= l.horizontal <= 1,
    ;
    assert(-300_000_000 <= sin * l.vertical * BALL_SPEED <= 300_000_000) by (nonlinear_arith)
        requires
            -1000 <= sin <= 1000,
            -1 <= l.vertical <= 1,
    ;
    let ax = (cos * l.horizontal * BALL_SPEED) as i128;
    let ay = (sin * l.vertical * BALL_SPEED) as i128;
    proof {
        lemma_trunc_div_bound(ax as int, 1000);
        lemma_trunc_div_bound(ay as int, 1000);
    }
    let x = trunc_div_wide(ax, NORMAL_ONE as i128);
    let y = trunc_div_wide(ay, NORMAL_ONE as i128);
    Vec2 { x: x as i64, y: y as i64 }
}


pub open spec fn controlled_all(s: Seq<EntityData>, control: PlayerControl) -> Seq<EntityData> {
    Seq::new(s.len(), |k: int| controlled(s[k], control))
}

pub open spec fn moved_all(s: Seq<EntityData>, dt: int) -> Seq<EntityData> {
    Seq::new(s.len(), |k: int| moved(s[k], dt))
}

pub proof fn lemma_resolve_row_len(s: Seq<EntityData>, i: int, j: int)
    requires
        0 <= i,
        j <= s.len(),
    ensures
        resolve_row(s, i, j).len() == s.len(),
    decreases j - i,
{
    if j > i + 1 {
        lemma_resolve_row_len(s, i, j - 1);
    }
}

pub proof fn lemma_resolve_rows_len(s: Seq<EntityData>, i: int)
    ensures
        resolve_rows(s, i).len() == s.len(),
    decreases i,
{
    if i > 0 {
        lemma_resolve_rows_len(s, i - 1);
        let t = resolve_rows(s, i - 1);
        if i - 1 >= 0 {
            lemma_resolve_row_len(t, i - 1, t.len() as int);
        }
    }
}

fn body_of(e: EntityData) -> (r: Option<Body>)
    requires
        e.wf(),
    ensures
        r == e.body(),
        r matches Some(b) ==> b.wf(),
{
    match (e.collider, e.collider_type, e.position) {
        (Some(c), Some(t), Some(p)) => Some(
            Body {
                collider: c,
                kind: t,
                position: p.0,
                velocity: match e.velocity {
                    Some(v) => Some(v.0),
                    None => None,
                },
            },
        ),
        _ => None,
    }
}

fn with_body(e: EntityData, b: Body) -> (r: EntityData)
    requires
        e.wf(),
        b.wf(),
    ensures
        r == e.with_body(b),
        r.wf(),
{
    EntityData {
        position: Some(Position(b.position)),
        velocity: match b.velocity {
            Some(v) => Some(Velocity(v)),
            None => None,
        },
        ..e
    }
}

fn new_ball_entity(id: u64, velocity: Vec2) -> (r: EntityData)
    requires
        velocity.within(LIMIT as int),
    ensures
        r == ball_entity(id as int, velocity),
        r.wf(),
{
    EntityData {
        id,
        position: Some(Position(Vec2 { x: 0, y: 0 })),
        velocity: Some(Velocity(velocity)),
        collider: Some(
            Collider::Circle(CircleCollider { center: Vec2 { x: 0, y: 0 }, radius: BALL_RADIUS }),
        ),
        collider_type: Some(ColliderType::Actor),
        player: None,
        ball: Some(Ball),
    }
}

/// A horizontal wall of the arena, centred at height `y`.
pub open spec fn wall_entity(id: int, y: int) -> EntityData {
    EntityData {
        id: id as u64,
        position: Some(Position(vec2(0, y))),
        velocity: None,
        collider: Some(
            Collider::Aabb(
                Aabb {
                    min: vec2(-ARENA_HALF_WIDTH, -BOUNDARY_WIDTH / 2),
                    max: vec2(ARENA_HALF_WIDTH as int, BOUNDARY_WIDTH / 2),
                },
            ),
        ),
        collider_type: Some(ColliderType::Block),
        player: None,
        ball: None,
    }
}

/// The paddle of player `player`, centred at `(x, 0)`.
pub open spec fn paddle_entity(id: int, player: usize, x: int) -> EntityData {
    EntityData {
        id: id as u64,
        position: Some(Position(vec2(x, 0))),
        velocity: Some(Velocity(Vec2 { x: 0, y: 0 })),
        collider: Some(
            Collider::Aabb(
                Aabb {
                    min: vec2(-PLAYER_HALF_WIDTH, -PLAYER_HALF_HEIGHT),
                    max: vec2(PLAYER_HALF_WIDTH as int, PLAYER_HALF_HEIGHT as int),
                },
            ),
        ),
        collider_type: Some(ColliderType::Block),
        player: Some(Player { id: player, speed: PLAYER_SPEED }),
        ball: None,
    }
}

/// The arena at the start: two walls, two paddles and a ball.
pub open spec fn initial_entities(ball_velocity: Vec2) -> Seq<EntityData> {
    let wall_y = ARENA_HALF_HEIGHT + BOUNDARY_WIDTH / 2;
    let paddle_x = ARENA_HALF_WIDTH - (PLAYER_HALF_WIDTH + PLAYER_MARGIN);
    seq![
        wall_entity(0, wall_y),
        wall_entity(1, -wall_y),
        paddle_entity(2, 0, -paddle_x),
        paddle_entity(3, 1, paddle_x),
        ball_entity(4, ball_velocity),
    ]
}

/// The entity table and the resources of one running game.
pub struct Game {
    pub entities: Vec<EntityData>,
    /// Identifier of the next spawned entity.
    pub next_id: u64,
    pub time: TimeRes,
    pub control: PlayerControl,
    pub scores: Scores,
    pub boundary: Boundary,
    pub camera: Camera,
}

impl Game {
    pub open spec fn wf(self) -> bool {
        all_wf(self.entities@)
    }

    /// Resources other than the entity table, the scores and the time
    /// are those of `g`.
    pub open spec fn keeps_settings(self, g: Game) -> bool {
        self.control == g.control && self.boundary == g.boundary && self.camera == g.camera
    }

    /// A game with walls, paddles and a ball launched at `ball_velocity`.
    pub fn new(ball_velocity: Vec2) -> (g: Game)
        requires
            ball_velocity.within(LIMIT as int),
        ensures
            g.wf(),
            g.entities@ == initial_entities(ball_velocity),
            g.next_id == 5,
            g.scores.0@ == seq![0u32, 0u32],
            g.boundary.0 == (Aabb {
                min: vec2(-ARENA_HALF_WIDTH, -ARENA_HALF_HEIGHT),
                max: vec2(ARENA_HALF_WIDTH as int, ARENA_HALF_HEIGHT as int),
            }),
            g.time.delta_time == UNITS_PER_SECOND,
            g.time.game_time == 0,
            g.camera == (Camera { center: Vec2 { x: 0, y: 0 }, rotation: 0, fov: 400_000 }),
            g.control.directions@ == seq![0i64, 0i64],
    {
        let boundary = Aabb {
            min: Vec2 { x: -ARENA_HALF_WIDTH, y: -ARENA_HALF_HEIGHT },
            max: Vec2 { x: ARENA_HALF_WIDTH, y: ARENA_HALF_HEIGHT },
        };
        let mut g = Game {
            entities: Vec::new(),
            next_id: 0,
            time: TimeRes { delta_time: UNITS_PER_SECOND, game_time: 0 },
            control: PlayerControl::default(),
            scores: Scores([0, 0]),
            boundary: Boundary(boundary),
            camera: Camera { center: Vec2 { x: 0, y: 0 }, rotation: 0, fov: 400_000 },
        };
        let wall_y = ARENA_HALF_HEIGHT + BOUNDARY_WIDTH / 2;
        let border = Collider::Aabb(
            Aabb {
                min: Vec2 { x: -ARENA_HALF_WIDTH, y: -BOUNDARY_WIDTH / 2 },
                max: Vec2 { x: ARENA_HALF_WIDTH, y: BOUNDARY_WIDTH / 2 },
            },
        );
        let paddle_x = ARENA_HALF_WIDTH - (PLAYER_HALF_WIDTH + PLAYER_MARGIN);
        let paddle = Collider::Aabb(
            Aabb {
                min: Vec2 { x: -PLAYER_HALF_WIDTH, y: -PLAYER_HALF_HEIGHT },
                max: Vec2 { x: PLAYER_HALF_WIDTH, y: PLAYER_HALF_HEIGHT },
            },
        );
        let blank = EntityData {
            id: 0,
            position: None,
            velocity: None,
            collider: None,
            collider_type: None,
            player: None,
            ball: None,
        };
        g.spawn(
            EntityData {
                position: Some(Position(Vec2 { x: 0, y: wall_y })),
                collider: Some(border),
                collider_type: Some(ColliderType::Block),
                ..blank
            },
        );
        g.spawn(
            EntityData {
                position: Some(Position(Vec2 { x: 0, y: -wall_y })),
                collider: Some(border),
                collider_type: Some(ColliderType::Block),
                ..blank
            },
        );
        g.spawn(
            EntityData {
                position: Some(Position(Vec2 { x: -paddle_x, y: 0 })),
                velocity: Some(Velocity(Vec2 { x: 0, y: 0 })),
                collider: Some(paddle),
                collider_type: Some(ColliderType::Block),
                player: Some(Player::new(0, PLAYER_SPEED)),
                ..blank
            },
        );
        g.spawn(
            EntityData {
                position: Some(Position(Vec2 { x: paddle_x, y: 0 })),
                velocity: Some(Velocity(Vec2 { x: 0, y: 0 })),
                collider: Some(paddle),
                collider_type: Some(ColliderType::Block),
                player: Some(Player::new(1, PLAYER_SPEED)),
                ..blank
            },
        );
        g.spawn_ball(ball_velocity);
        assert(g.entities@ =~= initial_entities(ball_velocity));
        g
    }

    /// Adds `e` under the next identifier and returns that identifier.
    pub fn spawn(&mut self, e: EntityData) -> (id: u64)
        requires
            old(self).wf(),
            e.wf(),
            old(self).next_id < u64::MAX,
        ensures
            id == old(self).next_id,
            final(self).next_id == old(self).next_id + 1,
            final(self).entities@ == old(self).entities@.push(EntityData { id, ..e }),
            final(self).wf(),
            final(self).keeps_settings(*old(self)),
            final(self).scores == old(self).scores,
            final(self).time == old(self).time,
    {
        let id = self.next_id;
        self.entities.push(EntityData { id, ..e });
        self.next_id = id + 1;
        assert(forall|k: int| 0 <= k < old(self).entities@.len() ==> self.entities@[k] == old(self).entities@[k]);
        id
    }

    /// Adds a ball at the origin moving at `velocity`.
    pub fn spawn_ball(&mut self, velocity: Vec2) -> (id: u64)
        requires
            old(self).wf(),
            velocity.within(LIMIT as int),
            old(self).next_id < u64::MAX,
        ensures
            id == old(self).next_id,
            final(self).next_id == old(self).next_id + 1,
            final(self).entities@ == old(self).entities@.push(ball_entity(id as int, velocity)),
            final(self).wf(),
            final(self).keeps_settings(*old(self)),
            final(self).scores == old(self).scores,
            final(self).time == old(self).time,
    {
        let e = new_ball_entity(self.next_id, velocity);
        self.spawn(e)
    }

    /// Sets each paddle's velocity from its player's direction and speed.
    pub fn control_players(&mut self)
        requires
            old(self).wf(),
            forall|p: int| 0 <= p < 2 ==> -1 <= #[trigger] old(self).control.directions@[p] <= 1,
        ensures
            final(self).entities@ == controlled_all(old(self).entities@, old(self).control),
            final(self).wf(),
            final(self).next_id == old(self).next_id,
            final(self).keeps_settings(*old(self)),
            final(self).scores == old(self).scores,
            final(self).time == old(self).time,
    {
        let n = self.entities.len();
        let mut i: usize = 0;
        while i < n
            invariant
                n == self.entities.len(),
                n == old(self).entities@.len(),
                0 <= i <= n,
                all_wf(self.entities@),
                forall|p: int| 0 <= p < 2 ==> -1 <= #[trigger] self.control.directions@[p] <= 1,
                forall|k: int| 0 <= k < i ==> self.entities@[k] == controlled(old(self).entities@[k], old(self).control),
                forall|k: int| i <= k < n ==> self.entities@[k] == old(self).entities@[k],
                self.next_id == old(self).next_id,
                self.keeps_settings(*old(self)),
                self.scores == old(self).scores,
                self.time == old(self).time,
            decreases n - i,
        {
            let e = self.entities[i];
            assert(e.wf());
            match (e.player, e.velocity) {
                (Some(p), Some(_)) => {
                    let d = self.control.directions[p.id];
                    assert(-1 <= d <= 1);
                    assert(-0x200_0000_0000 <= d * p.speed <= 0x200_0000_0000) by (nonlinear_arith)
                        requires
                            -1 <= d <= 1,
                            -0x200_0000_0000 <= p.speed <= 0x200_0000_0000,
                    ;
                    let vy = clamp_exec(d as i128 * p.speed as i128);
                    self.entities.set(i, EntityData { velocity: Some(Velocity(Vec2 { x: 0, y: vy })), ..e });
                },
                _ => {},
            }
            i += 1;
        }
        assert(self.entities@ =~= controlled_all(old(self).entities@, old(self).control));
    }

    /// Advances every entity that has a velocity by `velocity * delta_time`
    /// (milliseconds, rounded toward zero); coordinates stay within `LIMIT`.
    pub fn movement(&mut self)
        requires
            old(self).wf(),
        ensures
            final(self).entities@ == moved_all(old(self).entities@, old(self).time.delta_time as int),
            final(self).wf(),
            final(self).next_id == old(self).next_id,
            final(self).keeps_settings(*old(self)),
            final(self).scores == old(self).scores,
            final(self).time == old(self).time,
    {
        let n = self.entities.len();
        let dt = self.time.delta_time as i128;
        let mut i: usize = 0;
        while i < n
            invariant
                n == self.entities.len(),
                n == old(self).entities@.len(),
                0 <= i <= n,
                dt == old(self).time.delta_time,
                all_wf(self.entities@),
                forall|k: int| 0 <= k < i ==> self.entities@[k] == moved(old(self).entities@[k], dt as int),
                forall|k: int| i <= k < n ==> self.entities@[k] == old(self).entities@[k],
                self.next_id == old(self).next_id,
                self.keeps_settings(*old(self)),
                self.scores == old(self).scores,
                self.time == old(self).time,
            decreases n - i,
        {
            let e = self.entities[i];
            assert(e.wf());
            match (e.position, e.velocity) {
                (Some(p), Some(v)) => {
                    let x = p.0.x as i128 + step(v.0.x, dt);
                    let y = p.0.y as i128 + step(v.0.y, dt);
                    let pos = Vec2 { x: clamp_exec(x), y: clamp_exec(y) };
                    self.entities.set(i, EntityData { position: Some(Position(pos)), ..e });
                },
                _ => {},
            }
            i += 1;
        }
        assert(self.entities@ =~= moved_all(old(self).entities@, dt as int));
    }

    /// Resolves every unordered pair of collidable entities once, in index
    /// order.
    pub fn collisions(&mut self)
        requires
            old(self).wf(),
        ensures
            final(self).entities@ == collided(old(self).entities@),
            final(self).wf(),
            final(self).next_id == old(self).next_id,
            final(self).keeps_settings(*old(self)),
            final(self).scores == old(self).scores,
            final(self).time == old(self).time,
    {
        let n = self.entities.len();
        let ghost s0 = old(self).entities@;
        let mut i: usize = 0;
        while i < n
            invariant
                n == self.entities.len(),
                n == s0.len(),
                s0 == old(self).entities@,
                0 <= i <= n,
                all_wf(self.entities@),
                self.entities@ == resolve_rows(s0, i as int),
                self.next_id == old(self).next_id,
                self.keeps_settings(*old(self)),
                self.scores == old(self).scores,
                self.time == old(self).time,
            decreases n - i,
        {
            let ghost t = self.entities@;
            proof {
                lemma_resolve_rows_len(s0, i as int);
            }
            let mut j: usize = i + 1;
            while j < n
                invariant
                    n == self.entities.len(),
                    n == t.len(),
                    i < n,
                    i + 1 <= j <= n,
                    all_wf(self.entities@),
                    self.entities@ == resolve_row(t, i as int, j as int),
                    self.next_id == old(self).next_id,
                    self.keeps_settings(*old(self)),
                    self.scores == old(self).scores,
                    self.time == old(self).time,
                decreases n - j,
            {
                let ea = self.entities[i];
                let eb = self.entities[j];
                assert(ea.wf() && eb.wf());
                match (body_of(ea), body_of(eb)) {
                    (Some(a), Some(b)) => {
                        let (ra, rb) = resolve(a, b);
                        let na = with_body(ea, ra);
                        let nb = with_body(eb, rb);
                        self.entities.set(i, na);
                        self.entities.set(j, nb);
                    },
                    _ => {},
                }
                j += 1;
            }
            i += 1;
        }
        proof {
            lemma_resolve_rows_len(s0, n as int);
        }
    }

    /// Counts the balls beyond the left or right edge of the boundary,
    /// removes them, and adds one new ball moving at `launch` for each.
    /// Removal and spawning happen after the scan, on a new table.
    pub fn check_finish(&mut self, launch: Vec2)
        requires
            old(self).wf(),
            launch.within(LIMIT as int),
            old(self).scores.0@[0] + count_right(old(self).entities@, old(self).boundary.0) <= u32::MAX,
            old(self).scores.0@[1] + count_left(old(self).entities@, old(self).boundary.0) <= u32::MAX,
            old(self).next_id + old(self).entities@.len() <= u64::MAX,
        ensures
            final(self).entities@ == after_goals(
                old(self).entities@,
                old(self).boundary.0,
                old(self).next_id as int,
                launch,
            ),
            final(self).scores.0@[0] == old(self).scores.0@[0] + count_right(old(self).entities@, old(self).boundary.0),
            final(self).scores.0@[1] == old(self).scores.0@[1] + count_left(old(self).entities@, old(self).boundary.0),
            final(self).next_id == old(self).next_id + count_right(old(self).entities@, old(self).boundary.0)
                + count_left(old(self).entities@, old(self).boundary.0),
            final(self).wf(),
            final(self).keeps_settings(*old(self)),
            final(self).time == old(self).time,
    {
        let bd = self.boundary.0;
        let n = self.entities.len();
        let ghost s = old(self).entities@;
        let mut table: Vec<EntityData> = Vec::new();
        let mut right: u64 = 0;
        let mut left: u64 = 0;
        let mut i: usize = 0;
        while i < n
            invariant
                n == self.entities.len(),
                s == self.entities@,
                s == old(self).entities@,
                bd == old(self).boundary.0,
                0 <= i <= n,
                all_wf(s),
                all_wf(table@),
                table@ == kept(s.take(i as int), bd),
                right == count_right(s.take(i as int), bd),
                left == count_left(s.take(i as int), bd),
                right + left <= i,
            decreases n - i,
        {
            let e = self.entities[i];
            proof {
                assert(s.take(i + 1).drop_last() =~= s.take(i as int));
                assert(s.take(i + 1).last() == e);
            }
            let (is_right, is_left) = match (e.ball, e.position) {
                (Some(_), Some(p)) => (p.0.x > bd.max.x, p.0.x <= bd.max.x && p.0.x < bd.min.x),
                _ => (false, false),
            };
            if is_right {
                right += 1;
            } else if is_left {
                left += 1;
            } else {
                table.push(e);
            }
            i += 1;
        }
        proof {
            assert(s.take(n as int) =~= s);
        }
        let total = right + left;
        let first = self.next_id;
        let mut k: u64 = 0;
        while k < total
            invariant
                total == count_right(s, bd) + count_left(s, bd),
                total <= n,
                first + n <= u64::MAX,
                launch.within(LIMIT as int),
                0 <= k <= total,
                all_wf(table@),
                table@ == kept(s, bd) + spawned(first as int, k as nat, launch),
            decreases total - k,
        {
            let b = new_ball_entity(first + k, launch);
            table.push(b);
            proof {
                assert(table@ =~= kept(s, bd) + spawned(first as int, (k + 1) as nat, launch));
            }
            k += 1;
        }
        let s0 = self.scores.0[0];
        let s1 = self.scores.0[1];
        self.scores = Scores([s0 + right as u32, s1 + left as u32]);
        self.entities = table;
        self.next_id = first + total;
    }

    /// One tick: stores the control input and the frame time, then runs
    /// control, movement, collisions and the goal check in that order.
    /// `launch` is the velocity of any ball spawned by the goal check.
    pub fn update(&mut self, control: PlayerControl, delta_time: i64, launch: Vec2)
        requires
            old(self).wf(),
            forall|p: int| 0 <= p < 2 ==> -1 <= #[trigger] control.directions@[p] <= 1,
            launch.within(LIMIT as int),
            old(self).scores.0@[0] + old(self).entities@.len() <= u32::MAX,
            old(self).scores.0@[1] + old(self).entities@.len() <= u32::MAX,
            old(self).next_id + old(self).entities@.len() <= u64::MAX,
        ensures
            ({
                let mid = collided(moved_all(controlled_all(old(self).entities@, control), delta_time as int));
                let bd = old(self).boundary.0;
                &&& final(self).entities@ == after_goals(mid, bd, old(self).next_id as int, launch)
                &&& final(self).scores.0@[0] == old(self).scores.0@[0] + count_right(mid, bd)
                &&& final(self).scores.0@[1] == old(self).scores.0@[1] + count_left(mid, bd)
                &&& final(self).next_id == old(self).next_id + count_right(mid, bd) + count_left(mid, bd)
            }),
            final(self).wf(),
            final(self).control == control,
            final(self).time.delta_time == delta_time,
            final(self).time.game_time == old(self).time.game_time,
            final(self).boundary == old(self).boundary,
            final(self).camera == old(self).camera,
    {
        self.control = control;
        self.time.delta_time = delta_time;
        self.control_players();
        self.movement();
        self.collisions();
        let ghost mid = self.entities@;
        proof {
            lemma_resolve_rows_len(moved_all(controlled_all(old(self).entities@, control), delta_time as int), old(self).entities@.len() as int);
            lemma_counts_bounded(mid, self.boundary.0);
        }
        self.check_finish(launch);
    }
}

/// `v * dt / 1000`, rounded toward zero.
fn step(v: i64, dt: i128) -> (r: i128)
    requires
        -LIMIT <= v <= LIMIT,
        i64::MIN <= dt <= i64::MAX,
    ensures
        r == trunc_div(v * dt, UNITS_PER_SECOND as int),
        -0x1000_0000_0000_0000_0000_0000_0000 <= r <= 0x1000_0000_0000_0000_0000_0000_0000,
{
    let w = v as i128;
    assert(-0x1000_0000_0000_0000_0000_0000_0000 <= w * dt <= 0x1000_0000_0000_0000_0000_0000_0000) by (nonlinear_arith)
        requires
            -0x200_0000_0000 <= w <= 0x200_0000_0000,
            -0x8000_0000_0000_0000 <= dt <= 0x8000_0000_0000_0000,
    ;
    proof {
        lemma_trunc_div_bound(w * dt, 1000);
    }
    trunc_div_wide(w * dt, UNITS_PER_SECOND as i128)
}

} // verus!
