//! Resolution of one contact between two bodies: positional correction and
//! velocity reflection.
use crate::geometry::{
    abs, in_bound, trunc_div, vec2, Collider, ColliderType, Collision, Vec2, LIMIT, NORMAL_ONE,
};
use vstd::prelude::*;

verus! {

/// What the resolution step reads and writes of a collidable entity.
#[derive(Clone, Copy, Debug, PartialEq, Eq, Structural)]
pub struct Body {
    pub collider: Collider,
    pub kind: ColliderType,
    pub position: Vec2,
    /// `None` marks an immobile body.
    pub velocity: Option<Vec2>,
}

impl Body {
    pub open spec fn wf(self) -> bool {
        &&& self.collider.within(LIMIT as int)
        &&& self.position.within(LIMIT as int)
        &&& self.velocity matches Some(v) ==> v.within(LIMIT as int)
    }

    /// The body's shape placed at its position.
    pub open spec fn placed(self) -> Collider {
        self.collider.translated(self.position)
    }
}

/// `v` confined to `[-LIMIT, LIMIT]`, the extent of the world.
pub open spec fn clamp(v: int) -> int {
    if v > LIMIT {
        LIMIT as int
    } else if v < -LIMIT {
        -LIMIT
    } else {
        v
    }
}

/// Shares of the positional correction, in halves, taken by the first and
/// the second body; `None` when neither may move.
pub open spec fn correction_weights(
    a: ColliderType,
    b: ColliderType,
    a_mobile: bool,
    b_mobile: bool,
) -> Option<(int, int)> {
    match (a, b) {
        (ColliderType::Block, ColliderType::Block) => {
            if !a_mobile && !b_mobile {
                None
            } else if !a_mobile {
                Some((0, 2))
            } else if !b_mobile {
                Some((2, 0))
            } else {
                Some((1, 1))
            }
        },
        (ColliderType::Block, ColliderType::Actor) => Some((0, 2)),
        (ColliderType::Actor, ColliderType::Block) => Some((2, 0)),
        (ColliderType::Actor, ColliderType::Actor) => Some((1, 1)),
    }
}

pub open spec fn bounciness(t: ColliderType) -> int {
    match t {
        ColliderType::Block => 0,
        ColliderType::Actor => 1,
    }
}

/// Displacement along one axis: `weight` halves of `normal * penetration`.
pub open spec fn shift(normal: int, penetration: int, weight: int) -> int {
    trunc_div(normal * penetration * weight, 2 * NORMAL_ONE)
}

/// `v` with its component along `n` removed (bounciness 0) or reversed
/// (bounciness 1).
pub open spec fn reflect(v: Vec2, n: Vec2, t: ColliderType) -> Vec2 {
    let d = v.x * n.x + v.y * n.y;
    let k = bounciness(t) + 1;
    vec2(
        clamp(v.x - trunc_div(n.x * d * k, NORMAL_ONE * NORMAL_ONE)),
        clamp(v.y - trunc_div(n.y * d * k, NORMAL_ONE * NORMAL_ONE)),
    )
}

pub open spec fn reflect_opt(v: Option<Vec2>, n: Vec2, t: ColliderType) -> Option<Vec2> {
    match v {
        Some(v) => Some(reflect(v, n, t)),
        None => None,
    }
}

/// The two bodies after resolving the contact `c`, with weights `(wa, wb)`.
pub open spec fn apply_contact(a: Body, b: Body, c: Collision, wa: int, wb: int) -> (Body, Body) {
    let n = c.normal;
    let p = c.penetration as int;
    (
        Body {
            position: vec2(
                clamp(a.position.x - shift(n.x as int, p, wa)),
                clamp(a.position.y - shift(n.y as int, p, wa)),
            ),
            velocity: reflect_opt(a.velocity, n, a.kind),
            ..a
        },
        Body {
            position: vec2(
                clamp(b.position.x + shift(n.x as int, p, wb)),
                clamp(b.position.y + shift(n.y as int, p, wb)),
            ),
            velocity: reflect_opt(b.velocity, n, b.kind),
            ..b
        },
    )
}

/// The two bodies after one resolution step.
pub open spec fn resolved(a: Body, b: Body) -> (Body, Body) {
    match a.placed().contact(b.placed()) {
        None => (a, b),
        Some(c) => match correction_weights(a.kind, b.kind, a.velocity is Some, b.velocity is Some) {
            None => (a, b),
            Some(w) => apply_contact(a, b, c, w.0, w.1),
        },
    }
}

pub(crate) fn clamp_exec(v: i128) -> (r: i64)
    ensures
        r == clamp(v as int),
{
    if v > LIMIT as i128 {
        LIMIT
    } else if v < -(LIMIT as i128) {
        -LIMIT
    } else {
        v as i64
    }
}

pub(crate) fn trunc_div_wide(a: i128, b: i128) -> (r: i128)
    requires
        b > 0,
        a > i128::MIN,
    ensures
        r == trunc_div(a as int, b as int),
{
    if a >= 0 {
        a / b
    } else {
        -((-a) / b)
    }
}

fn weights_of(a: ColliderType, b: ColliderType, a_mobile: bool, b_mobile: bool) -> (r: Option<(i128, i128)>)
    ensures
        r matches Some(w) ==> correction_weights(a, b, a_mobile, b_mobile) == Some((w.0 as int, w.1 as int)),
        r is None ==> correction_weights(a, b, a_mobile, b_mobile) is None,
        r matches Some(w) ==> 0 <= w.0 <= 2 && 0 <= w.1 <= 2,
{
    match (a, b) {
        (ColliderType::Block, ColliderType::Block) => {
            if !a_mobile && !b_mobile {
                None
            } else if !a_mobile {
                Some((0, 2))
            } else if !b_mobile {
                Some((2, 0))
            } else {
                Some((1, 1))
            }
        },
        (ColliderType::Block, ColliderType::Actor) => Some((0, 2)),
        (ColliderType::Actor, ColliderType::Block) => Some((2, 0)),
        (ColliderType::Actor, ColliderType::Actor) => Some((1, 1)),
    }
}

fn shift_exec(normal: i64, penetration: i64, weight: i128) -> (r: i128)
    requires
        in_bound(normal as int, NORMAL_ONE as int),
        0 <= weight <= 2,
    ensures
        r == shift(normal as int, penetration as int, weight as int),
        -0x4_0000_0000_0000_0000_0000 <= r <= 0x4_0000_0000_0000_0000_0000,
{
    let n = normal as i128;
    let p = penetration as i128;
    assert(-0x1_0000_0000_0000_0000_0000 <= n * p <= 0x1_0000_0000_0000_0000_0000) by (nonlinear_arith)
        requires
            -1000 <= n <= 1000,
            -0x8000_0000_0000_0000 <= p <= 0x8000_0000_0000_0000,
    ;
    assert(-0x4_0000_0000_0000_0000_0000 <= n * p * weight <= 0x4_0000_0000_0000_0000_0000) by (nonlinear_arith)
        requires
            -0x1_0000_0000_0000_0000_0000 <= n * p <= 0x1_0000_0000_0000_0000_0000,
            0 <= weight <= 2,
    ;
    proof {
        lemma_trunc_div_bound(n * p * weight, 2000);
    }
    trunc_div_wide(n * p * weight, 2 * NORMAL_ONE as i128)
}

pub(crate) proof fn lemma_trunc_div_bound(a: int, b: int)
    requires
        1 <= b,
    ensures
        abs(trunc_div(a, b)) <= abs(a),
{
    let m = abs(a);
    vstd::arithmetic::div_mod::lemma_div_is_ordered_by_denominator(m, 1, b);
    vstd::arithmetic::div_mod::lemma_div_pos_is_pos(m, b);
    vstd::arithmetic::div_mod::lemma_div_basics(m);
}

fn reflect_exec(v: Vec2, n: Vec2, t: ColliderType) -> (r: Vec2)
    requires
        v.within(LIMIT as int),
        in_bound(n.x as int, NORMAL_ONE as int),
        in_bound(n.y as int, NORMAL_ONE as int),
    ensures
        r == reflect(v, n, t),
        r.within(LIMIT as int),
{
    let k: i128 = match t {
        ColliderType::Block => 1,
        ColliderType::Actor => 2,
    };
    let (vx, vy, nx, ny) = (v.x as i128, v.y as i128, n.x as i128, n.y as i128);
    assert(-0x1000_0000_0000_0000 <= vx * nx <= 0x1000_0000_0000_0000) by (nonlinear_arith)
        requires
            -0x200_0000_0000 <= vx <= 0x200_0000_0000,
            -1000 <= nx <= 1000,
    ;
    assert(-0x1000_0000_0000_0000 <= vy * ny <= 0x1000_0000_0000_0000) by (nonlinear_arith)
        requires
            -0x200_0000_0000 <= vy <= 0x200_0000_0000,
            -1000 <= ny <= 1000,
    ;
    let d = vx * nx + vy * ny;
    assert(-0x8000_0000_0000_0000_0000 <= nx * d * k <= 0x8000_0000_0000_0000_0000) by (nonlinear_arith)
        requires
            -0x2000_0000_0000_0000 <= d <= 0x2000_0000_0000_0000,
            -1000 <= nx <= 1000,
            1 <= k <= 2,
    ;
    assert(-0x8000_0000_0000_0000_0000 <= ny * d * k <= 0x8000_0000_0000_0000_0000) by (nonlinear_arith)
        requires
            -0x2000_0000_0000_0000 <= d <= 0x2000_0000_0000_0000,
            -1000 <= ny <= 1000,
            1 <= k <= 2,
    ;
    let qx = trunc_div_wide(nx * d * k, 1_000_000);
    let qy = trunc_div_wide(ny * d * k, 1_000_000);
    proof {
        vstd::arithmetic::div_mod::lemma_div_is_ordered(0, abs(nx * d * k), 1_000_000);
        vstd::arithmetic::div_mod::lemma_div_is_ordered(abs(nx * d * k), 0x8000_0000_0000_0000_0000, 1_000_000);
        vstd::arithmetic::div_mod::lemma_div_is_ordered(0, abs(ny * d * k), 1_000_000);
        vstd::arithmetic::div_mod::lemma_div_is_ordered(abs(ny * d * k), 0x8000_0000_0000_0000_0000, 1_000_000);
    }
    Vec2 { x: clamp_exec(vx - qx), y: clamp_exec(vy - qy) }
}

fn reflect_opt_exec(v: Option<Vec2>, n: Vec2, t: ColliderType) -> (r: Option<Vec2>)
    requires
        v matches Some(v) ==> v.within(LIMIT as int),
        in_bound(n.x as int, NORMAL_ONE as int),
        in_bound(n.y as int, NORMAL_ONE as int),
    ensures
        r == reflect_opt(v, n, t),
        r matches Some(v) ==> v.within(LIMIT as int),
{
    match v {
        Some(v) => Some(reflect_exec(v, n, t)),
        None => None,
    }
}

/// One resolution step between two bodies: when their placed shapes touch,
/// each mobile side is pushed apart by its share of the penetration and each
/// velocity loses (a `Block`) or reverses (an `Actor`) its component along
/// the contact normal. Coordinates stay within `LIMIT`.
pub fn resolve(a: Body, b: Body) -> (r: (Body, Body))
    requires
        a.wf(),
        b.wf(),
    ensures
        r == resolved(a, b),
        r.0.wf(),
        r.1.wf(),
{
    let ca = a.collider.at(a.position);
    let cb = b.collider.at(b.position);
    match ca.collide(cb) {
        None => (a, b),
        Some(c) => match weights_of(a.kind, b.kind, a.velocity.is_some(), b.velocity.is_some()) {
            None => (a, b),
            Some((wa, wb)) => {
                let n = c.normal;
                let p = c.penetration;
                let ax = clamp_exec(a.position.x as i128 - shift_exec(n.x, p, wa));
                let ay = clamp_exec(a.position.y as i128 - shift_exec(n.y, p, wa));
                let bx = clamp_exec(b.position.x as i128 + shift_exec(n.x, p, wb));
                let by = clamp_exec(b.position.y as i128 + shift_exec(n.y, p, wb));
                let na = Body {
                    position: Vec2 { x: ax, y: ay },
                    velocity: reflect_opt_exec(a.velocity, n, a.kind),
                    ..a
                };
                let nb = Body {
                    position: Vec2 { x: bx, y: by },
                    velocity: reflect_opt_exec(b.velocity, n, b.kind),
                    ..b
                };
                (na, nb)
            },
        },
    }
}

/// Resolving two bodies whose shapes do not touch changes neither of them.
pub proof fn lemma_resolve_apart(a: Body, b: Body)
    requires
        a.wf(),
        b.wf(),
        a.placed().contact(b.placed()) is None,
    ensures
        resolved(a, b) == (a, b),
{
}

proof fn lemma_shift_full(p: int)
    ensures
        shift(NORMAL_ONE as int, p, 2) == p,
        shift(-NORMAL_ONE, p, 2) == -p,
{
    assert(NORMAL_ONE * p * 2 == 2000 * p);
    assert(-NORMAL_ONE * p * 2 == -(2000 * p));
    vstd::arithmetic::div_mod::lemma_div_multiples_vanish(p, 2000);
    vstd::arithmetic::div_mod::lemma_div_multiples_vanish(-p, 2000);
}

proof fn lemma_shift_half(p: int)
    requires
        p > 0,
    ensures
        shift(NORMAL_ONE as int, p, 1) == p / 2,
        shift(-NORMAL_ONE, p, 1) == -(p / 2),
{
    assert(NORMAL_ONE * p * 1 == 1000 * p);
    assert(-NORMAL_ONE * p * 1 == -(1000 * p));
    assert(1000 * p >= 0) by (nonlinear_arith)
        requires
            p > 0,
    ;
    vstd::arithmetic::div_mod::lemma_div_multiples_vanish_quotient(1000, p, 2);
    assert(1000 * 2 == 2000);
}

/// Bouncing off a wall: a static `Block` below an `Actor` whose placed
/// shapes meet with an upward normal and penetration `p` leaves the block as
/// it is, lifts the actor by the whole of `p` and reverses the vertical
/// part of its velocity. With the actor first and the block second (normal
/// downward) the outcome is the same.
pub proof fn lemma_bounce_off_wall(wall: Body, ball: Body, p: i64)
    requires
        wall.wf(),
        ball.wf(),
        wall.kind == ColliderType::Block,
        wall.velocity is None,
        ball.kind == ColliderType::Actor,
        ball.velocity is Some,
        p > 0,
        wall.placed().contact(ball.placed()) == Some(Collision { normal: Vec2 { x: 0, y: NORMAL_ONE }, penetration: p }),
        ball.placed().contact(wall.placed()) == Some(Collision { normal: vec2(0, -NORMAL_ONE), penetration: p }),
    ensures
        ({
            let v = ball.velocity->0;
            let moved = Body {
                position: vec2(ball.position.x as int, clamp(ball.position.y + p)),
                velocity: Some(vec2(v.x as int, -v.y)),
                ..ball
            };
            &&& resolved(wall, ball) == (wall, moved)
            &&& resolved(ball, wall) == (moved, wall)
        }),
{
    let v = ball.velocity->0;
    lemma_shift_full(p as int);
    assert(shift(0, p as int, 2) == 0);
    assert(shift(0, p as int, 0) == 0);
    assert(shift(NORMAL_ONE as int, p as int, 0) == 0);
    assert(shift(-NORMAL_ONE, p as int, 0) == 0);
    let d = v.x * 0 + v.y * NORMAL_ONE;
    assert(d == 1000 * v.y);
    assert(NORMAL_ONE * d * 2 == 2_000_000 * v.y);
    vstd::arithmetic::div_mod::lemma_div_multiples_vanish(2 * v.y, 1_000_000);
    vstd::arithmetic::div_mod::lemma_div_multiples_vanish(-2 * v.y, 1_000_000);
    assert(trunc_div(NORMAL_ONE * d * 2, NORMAL_ONE * NORMAL_ONE) == 2 * v.y);
    let e = v.x * 0 + v.y * (-NORMAL_ONE);
    assert(e == -1000 * v.y);
    assert(-NORMAL_ONE * e * 2 == 2_000_000 * v.y);
    assert(trunc_div(-NORMAL_ONE * e * 2, NORMAL_ONE * NORMAL_ONE) == 2 * v.y);
    assert(trunc_div(0 * d * 2, NORMAL_ONE * NORMAL_ONE) == 0);
    assert(trunc_div(0 * e * 2, NORMAL_ONE * NORMAL_ONE) == 0);
    assert(reflect(v, Vec2 { x: 0, y: NORMAL_ONE }, ColliderType::Actor) == vec2(v.x as int, -v.y));
    assert(reflect(v, vec2(0, -NORMAL_ONE), ColliderType::Actor) == vec2(v.x as int, -v.y));
}

/// Two mobile `Block`s whose placed shapes meet along x with penetration
/// `p` move apart by half of `p` each (rounded toward zero) and lose the x
/// part of their velocities.
pub proof fn lemma_paddles_share_push(a: Body, b: Body, p: i64, sign: int)
    requires
        a.wf(),
        b.wf(),
        a.kind == ColliderType::Block,
        b.kind == ColliderType::Block,
        a.velocity is Some,
        b.velocity is Some,
        p > 0,
        sign == 1 || sign == -1,
        a.placed().contact(b.placed()) == Some(Collision { normal: vec2(sign * NORMAL_ONE, 0), penetration: p }),
    ensures
        ({
            let half = sign * (p / 2);
            let va = a.velocity->0;
            let vb = b.velocity->0;
            resolved(a, b) == (
                Body {
                    position: vec2(clamp(a.position.x - half), a.position.y as int),
                    velocity: Some(vec2(0, va.y as int)),
                    ..a
                },
                Body {
                    position: vec2(clamp(b.position.x + half), b.position.y as int),
                    velocity: Some(vec2(0, vb.y as int)),
                    ..b
                },
            )
        }),
{
    lemma_shift_half(p as int);
    assert(shift(0, p as int, 1) == 0);
    let n = vec2(sign * NORMAL_ONE, 0);
    let va = a.velocity->0;
    let vb = b.velocity->0;
    assert(-1000 <= n.x <= 1000 && n.y == 0);
    lemma_block_stop_x(va, n, sign);
    lemma_block_stop_x(vb, n, sign);
    assert(correction_weights(a.kind, b.kind, true, true) == Some((1int, 1int)));
    if sign == 1 {
        assert(n.x == NORMAL_ONE);
        let h = p / 2;
        assert(sign * h == h) by (nonlinear_arith)
            requires
                sign == 1,
        ;
        assert(shift(n.x as int, p as int, 1) == sign * (p / 2));
    } else {
        assert(n.x == -NORMAL_ONE);
        assert(shift(-NORMAL_ONE, p as int, 1) == -(p / 2));
        let h = p / 2;
        assert(sign * h == -h) by (nonlinear_arith)
            requires
                sign == -1,
        ;
        assert(shift(n.x as int, p as int, 1) == shift(-NORMAL_ONE, p as int, 1));
    }
    assert(shift(n.y as int, p as int, 1) == 0);
}

proof fn lemma_block_stop_x(v: Vec2, n: Vec2, sign: int)
    requires
        v.within(LIMIT as int),
        sign == 1 || sign == -1,
        n == vec2(sign * NORMAL_ONE, 0),
    ensures
        reflect(v, n, ColliderType::Block) == vec2(0, v.y as int),
{
    let d = v.x * n.x + v.y * n.y;
    assert(n.x == sign * 1000 && n.y == 0);
    assert(d == sign * 1000 * v.x) by (nonlinear_arith)
        requires
            d == v.x * n.x + v.y * n.y,
            n.x == sign * 1000,
            n.y == 0,
    ;
    assert(n.x * d * 1 == 1_000_000 * v.x) by (nonlinear_arith)
        requires
            d == sign * 1000 * v.x,
            n.x == sign * 1000,
            sign * sign == 1,
    ;
    vstd::arithmetic::div_mod::lemma_div_multiples_vanish(v.x as int, 1_000_000);
    vstd::arithmetic::div_mod::lemma_div_multiples_vanish(-v.x, 1_000_000);
    assert(trunc_div(n.x * d * 1, NORMAL_ONE * NORMAL_ONE) == v.x);
    assert(n.y * d * 1 == 0);
}

} // verus!
