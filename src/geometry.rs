//! Shapes, translation and intersection tests.
//!
//! Coordinates are fixed-point integers. A direction (a contact normal) is
//! scaled so that a unit vector has length `NORMAL_ONE`.
use vstd::prelude::*;

verus! {

/// Length of a unit normal in fixed point.
pub const NORMAL_ONE: i64 = 1000;

/// Largest magnitude of a local coordinate, or of a translation, that
/// `Collider::at` accepts.
pub const LIMIT: i64 = 2_199_023_255_552;

/// Largest magnitude of a coordinate that `Collider::collide` accepts.
pub const COLLIDE_BOUND: i64 = 4_398_046_511_104;

/// Largest magnitude of a reported penetration.
pub const PENETRATION_BOUND: i64 = 70_368_744_177_664;

/// A 2D vector or point.
#[derive(Clone, Copy, Debug, PartialEq, Eq, Structural)]
pub struct Vec2 {
    pub x: i64,
    pub y: i64,
}

/// An axis-aligned box given by its lower-left and upper-right corners.
#[derive(Clone, Copy, Debug, PartialEq, Eq, Structural)]
pub struct Aabb {
    pub min: Vec2,
    pub max: Vec2,
}

#[derive(Clone, Copy, Debug, PartialEq, Eq, Structural)]
pub struct CircleCollider {
    pub center: Vec2,
    pub radius: i64,
}

/// Resolution class of a collidable body.
#[derive(Clone, Copy, Debug, PartialEq, Eq, Structural)]
pub enum ColliderType {
    Block,
    Actor,
}

/// A shape in local coordinates; `at` places it in the world.
#[derive(Clone, Copy, Debug, PartialEq, Eq, Structural)]
pub enum Collider {
    Circle(CircleCollider),
    Aabb(Aabb),
}

/// A contact: the normal points from the first shape toward the second.
#[derive(Clone, Copy, Debug, PartialEq, Eq, Structural)]
pub struct Collision {
    pub normal: Vec2,
    pub penetration: i64,
}

pub open spec fn vec2(x: int, y: int) -> Vec2 {
    Vec2 { x: x as i64, y: y as i64 }
}

pub open spec fn add_vec(a: Vec2, b: Vec2) -> Vec2 {
    vec2(a.x + b.x, a.y + b.y)
}

pub open spec fn in_bound(v: int, bound: int) -> bool {
    -bound <= v <= bound
}

/// Division that rounds toward zero, as integer division does in Rust.
pub open spec fn trunc_div(a: int, b: int) -> int {
    if a >= 0 {
        a / b
    } else {
        -((-a) / b)
    }
}

pub open spec fn is_floor_sqrt(n: int, r: int) -> bool {
    0 <= r && r * r <= n && n < (r + 1) * (r + 1)
}

/// The largest integer whose square is at most `n`.
pub open spec fn floor_sqrt(n: int) -> int {
    choose|r: int| is_floor_sqrt(n, r)
}

pub proof fn lemma_floor_sqrt_unique(n: int, r: int, s: int)
    requires
        is_floor_sqrt(n, r),
        is_floor_sqrt(n, s),
    ensures
        r == s,
{
    if r < s {
        assert((r + 1) * (r + 1) <= s * s) by (nonlinear_arith)
            requires
                0 <= r,
                r + 1 <= s,
        ;
    } else if s < r {
        assert((s + 1) * (s + 1) <= r * r) by (nonlinear_arith)
            requires
                0 <= s,
                s + 1 <= r,
        ;
    }
}

pub proof fn lemma_floor_sqrt(n: int)
    requires
        0 <= n,
    ensures
        is_floor_sqrt(n, floor_sqrt(n)),
    decreases n,
{
    if n == 0 {
        assert(is_floor_sqrt(0, 0));
    } else {
        lemma_floor_sqrt(n - 1);
        let r = floor_sqrt(n - 1);
        if (r + 1) * (r + 1) <= n {
            assert(n < (r + 2) * (r + 2)) by (nonlinear_arith)
                requires
                    n - 1 < (r + 1) * (r + 1),
                    0 <= r,
            ;
            assert(is_floor_sqrt(n, r + 1));
        } else {
            assert(is_floor_sqrt(n, r));
        }
    }
}

/// A nonnegative integer is below `k * k` exactly when its floor square root
/// is below `k`.
pub proof fn lemma_floor_sqrt_lt(n: int, k: int)
    requires
        0 <= n,
        0 <= k,
    ensures
        floor_sqrt(n) < k <==> n < k * k,
{
    lemma_floor_sqrt(n);
    let r = floor_sqrt(n);
    if r < k {
        assert((r + 1) * (r + 1) <= k * k) by (nonlinear_arith)
            requires
                0 <= r,
                r + 1 <= k,
        ;
    } else {
        assert(k * k <= r * r) by (nonlinear_arith)
            requires
                0 <= k,
                k <= r,
        ;
    }
}

pub open spec fn abs(v: int) -> int {
    if v >= 0 {
        v
    } else {
        -v
    }
}

impl Vec2 {
    pub open spec fn within(self, bound: int) -> bool {
        in_bound(self.x as int, bound) && in_bound(self.y as int, bound)
    }
}

impl CircleCollider {
    pub open spec fn within(self, bound: int) -> bool {
        self.center.within(bound) && in_bound(self.radius as int, bound)
    }
}

impl Aabb {
    pub open spec fn within(self, bound: int) -> bool {
        self.min.within(bound) && self.max.within(bound)
    }
}

impl Collision {
    /// Normal components lie in `[-NORMAL_ONE, NORMAL_ONE]` and the
    /// penetration is at most `PENETRATION_BOUND` in magnitude.
    pub open spec fn bounded(self) -> bool {
        &&& in_bound(self.normal.x as int, NORMAL_ONE as int)
        &&& in_bound(self.normal.y as int, NORMAL_ONE as int)
        &&& in_bound(self.penetration as int, PENETRATION_BOUND as int)
    }

    /// The same contact seen from the other shape: the normal reversed.
    pub open spec fn flipped(self) -> Collision {
        Collision { normal: vec2(-self.normal.x, -self.normal.y), penetration: self.penetration }
    }
}

/// `|d|` as a share of the length `sqrt(n)`, in fixed point and rounded
/// toward zero, with the sign of `d`.
pub open spec fn scaled_component(d: int, n: int) -> int {
    let m = floor_sqrt((d * d * (NORMAL_ONE * NORMAL_ONE)) / n);
    if d < 0 {
        -m
    } else {
        m
    }
}

/// The unit vector along `(dx, dy)` in fixed point, each component rounded
/// toward zero; the zero vector for the zero vector.
pub open spec fn scaled_normal(dx: int, dy: int) -> Vec2 {
    let n = dx * dx + dy * dy;
    if n == 0 {
        Vec2 { x: 0, y: 0 }
    } else {
        vec2(scaled_component(dx, n), scaled_component(dy, n))
    }
}

/// Contact of two circles; `None` unless they overlap.
pub open spec fn circle_contact(a: CircleCollider, b: CircleCollider) -> Option<Collision> {
    let dx = b.center.x - a.center.x;
    let dy = b.center.y - a.center.y;
    let dist = floor_sqrt(dx * dx + dy * dy);
    let penetration = a.radius + b.radius - dist;
    if penetration > 0 {
        Some(Collision { normal: scaled_normal(dx, dy), penetration: penetration as i64 })
    } else {
        None
    }
}

/// Overlap of two boxes along x: the smaller of the two one-sided depths.
pub open spec fn x_overlap(a: Aabb, b: Aabb) -> int {
    let right = a.max.x - b.min.x;
    let left = b.max.x - a.min.x;
    if right < left {
        right
    } else {
        left
    }
}

/// Overlap of two boxes along y: the smaller of the two one-sided depths.
pub open spec fn y_overlap(a: Aabb, b: Aabb) -> int {
    let up = a.max.y - b.min.y;
    let down = b.max.y - a.min.y;
    if up < down {
        up
    } else {
        down
    }
}

/// Direction of separation along x: toward the side of the smaller depth.
pub open spec fn x_sign(a: Aabb, b: Aabb) -> int {
    if a.max.x - b.min.x < b.max.x - a.min.x {
        NORMAL_ONE as int
    } else {
        -NORMAL_ONE
    }
}

pub open spec fn y_sign(a: Aabb, b: Aabb) -> int {
    if a.max.y - b.min.y < b.max.y - a.min.y {
        NORMAL_ONE as int
    } else {
        -NORMAL_ONE
    }
}

/// Contact of two boxes: separation along the axis of smaller overlap, ties
/// to y; `None` unless both axes overlap.
pub open spec fn box_contact(a: Aabb, b: Aabb) -> Option<Collision> {
    let px = x_overlap(a, b);
    let py = y_overlap(a, b);
    if px <= 0 || py <= 0 {
        None
    } else if px < py {
        Some(Collision { normal: vec2(x_sign(a, b), 0), penetration: px as i64 })
    } else {
        Some(Collision { normal: vec2(0, y_sign(a, b)), penetration: py as i64 })
    }
}

/// Contact of a box (first) with a circle (second), by the region of the
/// circle's center: beside an edge, or nearest a corner.
pub open spec fn box_circle_contact(b: Aabb, c: CircleCollider) -> Option<Collision> {
    let dx = c.center.x - b.min.x;
    let dy = c.center.y - b.min.y;
    let w = b.max.x - b.min.x;
    let h = b.max.y - b.min.y;
    let r = c.radius as int;
    if 0 <= dx <= w {
        if dy <= 0 && dy >= -r {
            Some(Collision { normal: vec2(0, -NORMAL_ONE), penetration: (dy + r) as i64 })
        } else if dy >= h && dy <= h + r {
            Some(Collision { normal: vec2(0, NORMAL_ONE as int), penetration: (h + r - dy) as i64 })
        } else {
            None
        }
    } else if 0 <= dy <= h {
        if dx <= 0 && dx >= -r {
            Some(Collision { normal: vec2(-NORMAL_ONE, 0), penetration: (dx + r) as i64 })
        } else if dx >= w && dx <= w + r {
            Some(Collision { normal: vec2(NORMAL_ONE as int, 0), penetration: (w + r - dx) as i64 })
        } else {
            None
        }
    } else {
        let cx = if dx <= 0 { b.min.x } else { b.max.x };
        let cy = if dy <= 0 { b.min.y } else { b.max.y };
        let vx = c.center.x - cx;
        let vy = c.center.y - cy;
        let dist = floor_sqrt(vx * vx + vy * vy);
        let penetration = r - dist;
        if penetration >= 0 {
            Some(Collision { normal: scaled_normal(vx, vy), penetration: penetration as i64 })
        } else {
            None
        }
    }
}

pub open spec fn flip_contact(c: Option<Collision>) -> Option<Collision> {
    match c {
        Some(c) => Some(c.flipped()),
        None => None,
    }
}

impl Collider {
    pub open spec fn within(self, bound: int) -> bool {
        match self {
            Collider::Circle(c) => c.within(bound),
            Collider::Aabb(b) => b.within(bound),
        }
    }

    /// The shape moved by `pos`.
    pub open spec fn translated(self, pos: Vec2) -> Collider {
        match self {
            Collider::Circle(c) => Collider::Circle(
                CircleCollider { center: add_vec(c.center, pos), radius: c.radius },
            ),
            Collider::Aabb(b) => Collider::Aabb(
                Aabb { min: add_vec(b.min, pos), max: add_vec(b.max, pos) },
            ),
        }
    }

    /// The contact between two placed shapes.
    pub open spec fn contact(self, other: Collider) -> Option<Collision> {
        match (self, other) {
            (Collider::Circle(a), Collider::Circle(b)) => circle_contact(a, b),
            (Collider::Circle(c), Collider::Aabb(b)) => flip_contact(box_circle_contact(b, c)),
            (Collider::Aabb(b), Collider::Circle(c)) => box_circle_contact(b, c),
            (Collider::Aabb(a), Collider::Aabb(b)) => box_contact(a, b),
        }
    }

    /// Returns the shape translated by `pos`; `self` is left as it is.
    pub fn at(self, pos: Vec2) -> (r: Collider)
        requires
            self.within(LIMIT as int),
            pos.within(LIMIT as int),
        ensures
            r == self.translated(pos),
            r.within(COLLIDE_BOUND as int),
    {
        match self {
            Collider::Circle(c) => Collider::Circle(
                CircleCollider { center: offset_by(c.center, pos), radius: c.radius },
            ),
            Collider::Aabb(b) => Collider::Aabb(Aabb { min: offset_by(b.min, pos), max: offset_by(b.max, pos) }),
        }
    }

    /// The contact between `self` and `other`, whose normal points from
    /// `self` toward `other`; `None` when they do not touch.
    pub fn collide(self, other: Collider) -> (r: Option<Collision>)
        requires
            self.within(COLLIDE_BOUND as int),
            other.within(COLLIDE_BOUND as int),
        ensures
            r == self.contact(other),
            r matches Some(c) ==> c.bounded(),
    {
        match (self, other) {
            (Collider::Circle(a), Collider::Circle(b)) => collide_circle(a, b),
            (Collider::Circle(c), Collider::Aabb(b)) => match collide_aabb_circle(b, c) {
                Some(hit) => Some(
                    Collision {
                        normal: Vec2 { x: -hit.normal.x, y: -hit.normal.y },
                        penetration: hit.penetration,
                    },
                ),
                None => None,
            },
            (Collider::Aabb(b), Collider::Circle(c)) => collide_aabb_circle(b, c),
            (Collider::Aabb(a), Collider::Aabb(b)) => collide_aabb(a, b),
        }
    }
}

fn offset_by(a: Vec2, b: Vec2) -> (r: Vec2)
    requires
        a.within(LIMIT as int),
        b.within(LIMIT as int),
    ensures
        r == add_vec(a, b),
        r.within(COLLIDE_BOUND as int),
{
    Vec2 { x: a.x + b.x, y: a.y + b.y }
}

fn scaled_component_exec(d: i128, n: u128) -> (r: i64)
    requires
        0 < n < 0x100_0000_0000_0000_0000_0000,
        d * d <= n,
    ensures
        r == scaled_component(d as int, n as int),
        r * r <= (d * d * 1_000_000) / (n as int),
        in_bound(r as int, NORMAL_ONE as int),
{
    assert(0 <= d * d) by (nonlinear_arith);
    let sq = (d * d) as u128;
    assert(sq * 1_000_000 <= n * 1_000_000) by (nonlinear_arith)
        requires
            sq <= n,
    ;
    let m = sq * 1_000_000 / n;
    proof {
        vstd::arithmetic::div_mod::lemma_div_is_ordered(sq * 1_000_000, n * 1_000_000, n as int);
        vstd::arithmetic::div_mod::lemma_div_multiples_vanish(1_000_000, n as int);
        assert(n * 1_000_000 == 1_000_000 * n) by (nonlinear_arith);
        assert(d * d * (NORMAL_ONE * NORMAL_ONE) == sq * 1_000_000);
    }
    let r = isqrt(m);
    proof {
        lemma_floor_sqrt(m as int);
        if r > 1000 {
            assert(r * r > 1_000_000) by (nonlinear_arith)
                requires
                    r > 1000,
            ;
        }
    }
    let r = r as i64;
    let out = if d < 0 {
        -r
    } else {
        r
    };
    assert(out * out == r * r) by (nonlinear_arith)
        requires
            out == r || out == -r,
    ;
    out
}

/// The fixed-point unit vector along `(dx, dy)`.
fn scaled_normal_exec(dx: i128, dy: i128) -> (r: Vec2)
    requires
        in_bound(dx as int, 0x800_0000_0000),
        in_bound(dy as int, 0x800_0000_0000),
    ensures
        r == scaled_normal(dx as int, dy as int),
        in_bound(r.x as int, NORMAL_ONE as int),
        in_bound(r.y as int, NORMAL_ONE as int),
{
    assert(dx * dx <= 0x40_0000_0000_0000_0000_0000) by (nonlinear_arith)
        requires
            -0x800_0000_0000 <= dx <= 0x800_0000_0000,
    ;
    assert(dy * dy <= 0x40_0000_0000_0000_0000_0000) by (nonlinear_arith)
        requires
            -0x800_0000_0000 <= dy <= 0x800_0000_0000,
    ;
    assert(0 <= dx * dx && 0 <= dy * dy) by (nonlinear_arith);
    let n = dx * dx + dy * dy;
    if n == 0 {
        Vec2 { x: 0, y: 0 }
    } else {
        let x = scaled_component_exec(dx, n as u128);
        let y = scaled_component_exec(dy, n as u128);
        Vec2 { x, y }
    }
}

/// Floor of the length of `(dx, dy)`.
fn floor_length(dx: i128, dy: i128) -> (r: i128)
    requires
        in_bound(dx as int, 0x800_0000_0000),
        in_bound(dy as int, 0x800_0000_0000),
    ensures
        r == floor_sqrt(dx * dx + dy * dy),
        0 <= r <= 0x1000_0000_0000,
{
    assert(dx * dx <= 0x40_0000_0000_0000_0000_0000) by (nonlinear_arith)
        requires
            -0x800_0000_0000 <= dx <= 0x800_0000_0000,
    ;
    assert(dy * dy <= 0x40_0000_0000_0000_0000_0000) by (nonlinear_arith)
        requires
            -0x800_0000_0000 <= dy <= 0x800_0000_0000,
    ;
    assert(0 <= dx * dx && 0 <= dy * dy) by (nonlinear_arith);
    let n = dx * dx + dy * dy;
    isqrt(n as u128) as i128
}

fn collide_circle(a: CircleCollider, b: CircleCollider) -> (r: Option<Collision>)
    requires
        a.within(COLLIDE_BOUND as int),
        b.within(COLLIDE_BOUND as int),
    ensures
        r == circle_contact(a, b),
        r matches Some(c) ==> c.bounded(),
{
    let dx = b.center.x as i128 - a.center.x as i128;
    let dy = b.center.y as i128 - a.center.y as i128;
    let dist = floor_length(dx, dy);
    let normal = scaled_normal_exec(dx, dy);
    let penetration = a.radius as i128 + b.radius as i128 - dist;
    if penetration > 0 {
        Some(Collision { normal, penetration: penetration as i64 })
    } else {
        None
    }
}

fn collide_aabb(a: Aabb, b: Aabb) -> (r: Option<Collision>)
    requires
        a.within(COLLIDE_BOUND as int),
        b.within(COLLIDE_BOUND as int),
    ensures
        r == box_contact(a, b),
        r matches Some(c) ==> c.bounded(),
{
    let dx_right = a.max.x - b.min.x;
    let dx_left = b.max.x - a.min.x;
    let dy_up = a.max.y - b.min.y;
    let dy_down = b.max.y - a.min.y;
    let (nx, px) = if dx_right < dx_left {
        (NORMAL_ONE, dx_right)
    } else {
        (-NORMAL_ONE, dx_left)
    };
    let (ny, py) = if dy_up < dy_down {
        (NORMAL_ONE, dy_up)
    } else {
        (-NORMAL_ONE, dy_down)
    };
    if px <= 0 || py <= 0 {
        None
    } else if px < py {
        Some(Collision { normal: Vec2 { x: nx, y: 0 }, penetration: px })
    } else {
        Some(Collision { normal: Vec2 { x: 0, y: ny }, penetration: py })
    }
}

fn collide_aabb_circle(aabb: Aabb, circle: CircleCollider) -> (r: Option<Collision>)
    requires
        aabb.within(COLLIDE_BOUND as int),
        circle.within(COLLIDE_BOUND as int),
    ensures
        r == box_circle_contact(aabb, circle),
        r matches Some(c) ==> c.bounded(),
{
    let dx = circle.center.x - aabb.min.x;
    let dy = circle.center.y - aabb.min.y;
    let w = aabb.max.x - aabb.min.x;
    let h = aabb.max.y - aabb.min.y;
    let radius = circle.radius;
    if dx >= 0 && dx <= w {
        if dy <= 0 && dy >= -radius {
            Some(Collision { normal: Vec2 { x: 0, y: -NORMAL_ONE }, penetration: dy + radius })
        } else if dy >= h && dy <= h + radius {
            Some(Collision { normal: Vec2 { x: 0, y: NORMAL_ONE }, penetration: h + radius - dy })
        } else {
            None
        }
    } else if dy >= 0 && dy <= h {
        if dx <= 0 && dx >= -radius {
            Some(Collision { normal: Vec2 { x: -NORMAL_ONE, y: 0 }, penetration: dx + radius })
        } else if dx >= w && dx <= w + radius {
            Some(Collision { normal: Vec2 { x: NORMAL_ONE, y: 0 }, penetration: w + radius - dx })
        } else {
            None
        }
    } else {
        let cx = if dx <= 0 {
            aabb.min.x
        } else {
            aabb.max.x
        };
        let cy = if dy <= 0 {
            aabb.min.y
        } else {
            aabb.max.y
        };
        let vx = circle.center.x as i128 - cx as i128;
        let vy = circle.center.y as i128 - cy as i128;
        let dist = floor_length(vx, vy);
        let normal = scaled_normal_exec(vx, vy);
        let penetration = radius as i128 - dist;
        if penetration >= 0 {
            Some(Collision { normal, penetration: penetration as i64 })
        } else {
            None
        }
    }
}

/// Floor square root by bisection.
fn isqrt(n: u128) -> (r: u128)
    requires
        n < 0x100_0000_0000_0000_0000_0000,
    ensures
        r == floor_sqrt(n as int),
        r <= 0x1000_0000_0000,
{
    let mut lo: u128 = 0;
    let mut hi: u128 = 0x1000_0000_0000;
    assert(hi * hi == 0x100_0000_0000_0000_0000_0000) by (nonlinear_arith)
        requires
            hi == 0x1000_0000_0000,
    ;
    while hi - lo > 1
        invariant
            lo < hi <= 0x1000_0000_0000,
            lo * lo <= n,
            n < hi * hi,
        decreases hi - lo,
    {
        let mid = lo + (hi - lo) / 2;
        assert(mid * mid <= 0x100_0000_0000_0000_0000_0000) by (nonlinear_arith)
            requires
                mid <= 0x1000_0000_0000,
        ;
        if mid * mid <= n {
            lo = mid;
        } else {
            hi = mid;
        }
    }
    assert(is_floor_sqrt(n as int, lo as int));
    proof {
        lemma_floor_sqrt(n as int);
        lemma_floor_sqrt_unique(n as int, lo as int, floor_sqrt(n as int));
    }
    lo
}

/// The fixed-point normal of a nonzero vector is a unit vector rounded
/// toward zero: its length is at most `NORMAL_ONE`, and one more in the
/// magnitude of each component would take it past `NORMAL_ONE`.
pub proof fn lemma_normal_length(dx: int, dy: int)
    requires
        dx * dx + dy * dy > 0,
    ensures
        ({
            let u = scaled_normal(dx, dy);
            &&& u.x * u.x + u.y * u.y <= NORMAL_ONE * NORMAL_ONE
            &&& (abs(u.x as int) + 1) * (abs(u.x as int) + 1) + (abs(u.y as int) + 1) * (abs(
                u.y as int,
            ) + 1) > NORMAL_ONE * NORMAL_ONE
        }),
{
    let n = dx * dx + dy * dy;
    let a = dx * dx * 1_000_000;
    let b = dy * dy * 1_000_000;
    assert(0 <= dx * dx && 0 <= dy * dy) by (nonlinear_arith);
    assert(0 <= a && 0 <= b) by (nonlinear_arith)
        requires
            0 <= dx * dx,
            0 <= dy * dy,
            a == dx * dx * 1_000_000,
            b == dy * dy * 1_000_000,
    ;
    assert(a + b == n * 1_000_000) by (nonlinear_arith)
        requires
            a == dx * dx * 1_000_000,
            b == dy * dy * 1_000_000,
            n == dx * dx + dy * dy,
    ;
    let mx = a / n;
    let my = b / n;
    vstd::arithmetic::div_mod::lemma_fundamental_div_mod(a, n);
    vstd::arithmetic::div_mod::lemma_fundamental_div_mod(b, n);
    vstd::arithmetic::div_mod::lemma_mod_bound(a, n);
    vstd::arithmetic::div_mod::lemma_mod_bound(b, n);
    assert(mx + my <= 1_000_000 && mx + my >= 999_999) by (nonlinear_arith)
        requires
            a == n * mx + a % n,
            b == n * my + b % n,
            0 <= a % n < n,
            0 <= b % n < n,
            a + b == n * 1_000_000,
            n > 0,
    ;
    vstd::arithmetic::div_mod::lemma_div_pos_is_pos(a, n);
    vstd::arithmetic::div_mod::lemma_div_pos_is_pos(b, n);
    lemma_floor_sqrt(mx);
    lemma_floor_sqrt(my);
    let rx = floor_sqrt(mx);
    let ry = floor_sqrt(my);
    assert(rx <= 1000 && ry <= 1000) by (nonlinear_arith)
        requires
            0 <= rx,
            0 <= ry,
            rx * rx <= mx,
            ry * ry <= my,
            mx + my <= 1_000_000,
            0 <= mx,
            0 <= my,
    ;
    let u = scaled_normal(dx, dy);
    assert(abs(u.x as int) == rx && abs(u.y as int) == ry);
    assert(u.x * u.x == rx * rx && u.y * u.y == ry * ry) by (nonlinear_arith)
        requires
            abs(u.x as int) == rx,
            abs(u.y as int) == ry,
    ;
}

/// Two circles whose centers are closer than the sum of their radii collide:
/// the penetration is that sum less the distance between the centers, and the
/// normal is the fixed-point unit vector from the first center to the second,
/// or the zero vector when the centers coincide.
pub proof fn lemma_circles_overlapping(a: CircleCollider, b: CircleCollider)
    requires
        a.within(COLLIDE_BOUND as int),
        b.within(COLLIDE_BOUND as int),
        a.radius + b.radius > 0,
        (b.center.x - a.center.x) * (b.center.x - a.center.x) + (b.center.y - a.center.y) * (
        b.center.y - a.center.y) < (a.radius + b.radius) * (a.radius + b.radius),
    ensures
        ({
            let dx = b.center.x - a.center.x;
            let dy = b.center.y - a.center.y;
            let dist = floor_sqrt(dx * dx + dy * dy);
            &&& Collider::Circle(a).contact(Collider::Circle(b)) == Some(
                Collision {
                    normal: scaled_normal(dx, dy),
                    penetration: (a.radius + b.radius - dist) as i64,
                },
            )
            &&& a.radius + b.radius - dist > 0
            &&& (dx == 0 && dy == 0) ==> scaled_normal(dx, dy) == Vec2 { x: 0, y: 0 }
            &&& (dx != 0 || dy != 0) ==> scaled_normal(dx, dy).x * scaled_normal(dx, dy).x
                + scaled_normal(dx, dy).y * scaled_normal(dx, dy).y <= NORMAL_ONE * NORMAL_ONE
        }),
{
    let dx = b.center.x - a.center.x;
    let dy = b.center.y - a.center.y;
    let n = dx * dx + dy * dy;
    assert(0 <= dx * dx && 0 <= dy * dy) by (nonlinear_arith);
    lemma_floor_sqrt_lt(n, a.radius + b.radius);
    if dx == 0 && dy == 0 {
        lemma_floor_sqrt_lt(0, 1);
        lemma_floor_sqrt(0);
    } else {
        if dx != 0 {
            assert(dx * dx > 0) by (nonlinear_arith)
                requires
                    dx != 0,
            ;
        } else {
            assert(dy * dy > 0) by (nonlinear_arith)
                requires
                    dy != 0,
            ;
        }
        lemma_normal_length(dx, dy);
    }
}

/// Two circles whose centers are at least the sum of their radii apart do
/// not collide.
pub proof fn lemma_circles_apart(a: CircleCollider, b: CircleCollider)
    requires
        a.within(COLLIDE_BOUND as int),
        b.within(COLLIDE_BOUND as int),
        a.radius + b.radius <= 0 || (a.radius + b.radius) * (a.radius + b.radius) <= (b.center.x
            - a.center.x) * (b.center.x - a.center.x) + (b.center.y - a.center.y) * (b.center.y
            - a.center.y),
    ensures
        Collider::Circle(a).contact(Collider::Circle(b)) == None::<Collision>,
{
    let dx = b.center.x - a.center.x;
    let dy = b.center.y - a.center.y;
    let n = dx * dx + dy * dy;
    assert(0 <= dx * dx && 0 <= dy * dy) by (nonlinear_arith);
    lemma_floor_sqrt(n);
    if a.radius + b.radius > 0 {
        lemma_floor_sqrt_lt(n, a.radius + b.radius);
    }
}

/// Boxes that are apart on either axis do not collide; boxes that overlap on
/// both axes are separated along the axis of smaller overlap, and along y
/// when the two overlaps are equal.
pub proof fn lemma_box_axis(a: Aabb, b: Aabb)
    requires
        a.within(COLLIDE_BOUND as int),
        b.within(COLLIDE_BOUND as int),
    ensures
        (a.max.x <= b.min.x || b.max.x <= a.min.x || a.max.y <= b.min.y || b.max.y <= a.min.y)
            ==> Collider::Aabb(a).contact(Collider::Aabb(b)) == None::<Collision>,
        x_overlap(a, b) > 0 && y_overlap(a, b) > 0 && x_overlap(a, b) < y_overlap(a, b)
            ==> Collider::Aabb(a).contact(Collider::Aabb(b)) == Some(
            Collision {
                normal: vec2(x_sign(a, b), 0),
                penetration: x_overlap(a, b) as i64,
            },
        ),
        x_overlap(a, b) > 0 && y_overlap(a, b) > 0 && x_overlap(a, b) >= y_overlap(a, b)
            ==> Collider::Aabb(a).contact(Collider::Aabb(b)) == Some(
            Collision {
                normal: vec2(0, y_sign(a, b)),
                penetration: y_overlap(a, b) as i64,
            },
        ),
{
}

/// Translating a shape twice is translating it once by the sum.
pub proof fn lemma_at_twice(c: Collider, p: Vec2, q: Vec2)
    requires
        c.within(LIMIT as int),
        p.within(LIMIT as int),
        q.within(LIMIT as int),
        add_vec(p, q).within(LIMIT as int),
    ensures
        c.translated(p).translated(q) == c.translated(add_vec(p, q)),
{
}

/// Moving both shapes by the same offset does not change their contact.
pub proof fn lemma_contact_translation_invariant(a: Collider, b: Collider, o: Vec2)
    requires
        a.within(LIMIT as int),
        b.within(LIMIT as int),
        o.within(LIMIT as int),
    ensures
        a.translated(o).contact(b.translated(o)) == a.contact(b),
{
}

/// A circle and a box report the same contact in either order, with the
/// normal reversed.
pub proof fn lemma_circle_box_symmetric(c: CircleCollider, b: Aabb)
    requires
        c.within(COLLIDE_BOUND as int),
        b.within(COLLIDE_BOUND as int),
    ensures
        ({
            let ab = Collider::Aabb(b).contact(Collider::Circle(c));
            let ba = Collider::Circle(c).contact(Collider::Aabb(b));
            &&& ab is Some <==> ba is Some
            &&& ab matches Some(x) ==> ba == Some(x.flipped())
            &&& ab matches Some(x) ==> ba->0.penetration == x.penetration
        }),
{
}

} // verus!
