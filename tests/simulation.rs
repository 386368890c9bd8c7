use pong_physics::game::{plan_launch, launch_velocity, random_launch, EntityData, Game, Launch};
use pong_physics::geometry::{Aabb, CircleCollider, Collider, ColliderType, Vec2};
use pong_physics::physics::{resolve, Body};
use pong_physics::types::{
    Ball, Boundary, Camera, Player, PlayerControl, Position, Scores, TimeRes, Velocity,
};
use rand::SeedableRng;

fn v(x: i64, y: i64) -> Vec2 {
    Vec2 { x, y }
}

fn blank(id: u64) -> EntityData {
    EntityData {
        id,
        position: None,
        velocity: None,
        collider: None,
        collider_type: None,
        player: None,
        ball: None,
    }
}

fn arena(entities: Vec<EntityData>) -> Game {
    let next_id = entities.len() as u64;
    Game {
        entities,
        next_id,
        time: TimeRes { delta_time: 1000, game_time: 0 },
        control: PlayerControl::default(),
        scores: Scores([0, 0]),
        boundary: Boundary(Aabb { min: v(-225_000, -150_000), max: v(225_000, 150_000) }),
        camera: Camera { center: v(0, 0), rotation: 0, fov: 400_000 },
    }
}

fn ball_at(id: u64, pos: Vec2, vel: Vec2) -> EntityData {
    EntityData {
        position: Some(Position(pos)),
        velocity: Some(Velocity(vel)),
        collider: Some(Collider::Circle(CircleCollider { center: v(0, 0), radius: 5000 })),
        collider_type: Some(ColliderType::Actor),
        ball: Some(Ball),
        ..blank(id)
    }
}

fn still() -> PlayerControl {
    PlayerControl::default()
}

#[test]
fn ball_bounces_off_static_wall() {
    let wall = EntityData {
        position: Some(Position(v(0, 0))),
        collider: Some(Collider::Aabb(Aabb { min: v(-100_000, -5000), max: v(100_000, 5000) })),
        collider_type: Some(ColliderType::Block),
        ..blank(0)
    };
    let mut g = arena(vec![wall, ball_at(1, v(0, 11_000), v(0, -50_000))]);
    g.update(still(), 100, v(0, 0));
    assert_eq!(g.entities[0], wall);
    let ball = g.entities[1];
    assert_eq!(ball.position, Some(Position(v(0, 10_000))));
    assert_eq!(ball.velocity, Some(Velocity(v(0, 50_000))));
}

#[test]
fn ball_past_right_edge_scores_for_side_zero_and_respawns() {
    let mut rng = rand::rngs::StdRng::seed_from_u64(7);
    let plan = random_launch(&mut rng);
    let launch = velocity_of(plan);
    let mut g = Game::new(launch);
    assert_eq!(g.entities.len(), 5);
    g.entities[4].position = Some(Position(v(230_000, 0)));
    g.entities[4].velocity = Some(Velocity(v(0, 0)));
    g.update(still(), 16, launch);
    assert_eq!(g.scores.0, [1, 0]);
    let balls: Vec<&EntityData> = g.entities.iter().filter(|e| e.ball.is_some()).collect();
    assert_eq!(balls.len(), 1);
    assert_eq!(balls[0].id, 5);
    assert_eq!(balls[0].position, Some(Position(v(0, 0))));
    let vel = balls[0].velocity.unwrap().0;
    let speed = ((vel.x as f64).powi(2) + (vel.y as f64).powi(2)).sqrt();
    assert!((speed - 100_000.0).abs() < 200.0, "speed {}", speed);
    let angle = (vel.y as f64).abs().atan2((vel.x as f64).abs());
    assert!(angle >= 0.499 && angle <= 0.701, "angle {}", angle);
    assert!(g.entities.iter().all(|e| e.id != 4));
}

#[test]
fn ball_past_left_edge_scores_for_side_one() {
    let mut g = arena(vec![ball_at(0, v(-226_000, 0), v(0, 0))]);
    g.update(still(), 16, v(1000, 2000));
    assert_eq!(g.scores.0, [0, 1]);
    assert_eq!(g.entities.len(), 1);
    assert_eq!(g.entities[0].id, 1);
    assert_eq!(g.entities[0].velocity, Some(Velocity(v(1000, 2000))));
    assert_eq!(g.next_id, 2);
}

#[test]
fn ball_inside_arena_scores_nothing() {
    let mut g = arena(vec![ball_at(0, v(225_000, 0), v(0, 0))]);
    g.update(still(), 16, v(1, 1));
    assert_eq!(g.scores.0, [0, 0]);
    assert_eq!(g.entities[0].id, 0);
}

#[test]
fn overlapping_mobile_paddles_share_the_push() {
    let paddle = |id: u64, x: i64| EntityData {
        position: Some(Position(v(x, 0))),
        velocity: Some(Velocity(v(0, 0))),
        collider: Some(Collider::Aabb(Aabb { min: v(-5000, -25_000), max: v(5000, 25_000) })),
        collider_type: Some(ColliderType::Block),
        ..blank(id)
    };
    let mut g = arena(vec![paddle(0, 0), paddle(1, 8000)]);
    g.update(still(), 16, v(0, 0));
    assert_eq!(g.entities[0].position, Some(Position(v(-1000, 0))));
    assert_eq!(g.entities[1].position, Some(Position(v(9000, 0))));
}

#[test]
fn static_blocks_are_left_alone() {
    let block = |id: u64, x: i64| EntityData {
        position: Some(Position(v(x, 0))),
        collider: Some(Collider::Aabb(Aabb { min: v(-10, -10), max: v(10, 10) })),
        collider_type: Some(ColliderType::Block),
        ..blank(id)
    };
    let mut g = arena(vec![block(0, 0), block(1, 5)]);
    g.collisions();
    assert_eq!(g.entities[0].position, Some(Position(v(0, 0))));
    assert_eq!(g.entities[1].position, Some(Position(v(5, 0))));
}

#[test]
fn block_stops_normal_component_of_its_own_velocity() {
    let a = Body {
        collider: Collider::Aabb(Aabb { min: v(-10, -10), max: v(10, 10) }),
        kind: ColliderType::Block,
        position: v(0, 0),
        velocity: Some(v(30, 40)),
    };
    let b = Body {
        collider: Collider::Aabb(Aabb { min: v(-10, -10), max: v(10, 10) }),
        kind: ColliderType::Block,
        position: v(18, 0),
        velocity: None,
    };
    let (ra, rb) = resolve(a, b);
    assert_eq!(ra.position, v(-2, 0));
    assert_eq!(ra.velocity, Some(v(0, 40)));
    assert_eq!(rb, b);
}

#[test]
fn resolving_separated_bodies_changes_nothing() {
    let a = Body {
        collider: Collider::Circle(CircleCollider { center: v(0, 0), radius: 10 }),
        kind: ColliderType::Actor,
        position: v(0, 0),
        velocity: Some(v(5, 5)),
    };
    let b = Body { position: v(100, 0), velocity: Some(v(-5, 0)), ..a };
    assert_eq!(resolve(a, b), (a, b));
}

#[test]
fn two_actors_bounce_apart() {
    let a = Body {
        collider: Collider::Circle(CircleCollider { center: v(0, 0), radius: 10 }),
        kind: ColliderType::Actor,
        position: v(0, 0),
        velocity: Some(v(7, 0)),
    };
    let b = Body { position: v(16, 0), velocity: Some(v(-3, 0)), ..a };
    let (ra, rb) = resolve(a, b);
    assert_eq!(ra.position, v(-2, 0));
    assert_eq!(rb.position, v(18, 0));
    assert_eq!(ra.velocity, Some(v(-7, 0)));
    assert_eq!(rb.velocity, Some(v(3, 0)));
}

#[test]
fn movement_advances_by_velocity_times_time() {
    let mut g = arena(vec![ball_at(0, v(100, -100), v(50_000, -25_000))]);
    g.time.delta_time = 20;
    g.movement();
    assert_eq!(g.entities[0].position, Some(Position(v(1100, -600))));
}

#[test]
fn control_sets_paddle_velocity() {
    let paddle = EntityData {
        position: Some(Position(v(0, 0))),
        velocity: Some(Velocity(v(9, 9))),
        player: Some(Player::new(1, 100_000)),
        ..blank(0)
    };
    let mut g = arena(vec![paddle]);
    g.control = PlayerControl { directions: [1, -1] };
    g.control_players();
    assert_eq!(g.entities[0].velocity, Some(Velocity(v(0, -100_000))));
}

#[test]
fn new_game_layout() {
    let g = Game::new(v(1, 2));
    assert_eq!(g.entities.len(), 5);
    assert_eq!(g.entities[0].position, Some(Position(v(0, 152_500))));
    assert_eq!(g.entities[1].position, Some(Position(v(0, -152_500))));
    assert_eq!(g.entities[2].position, Some(Position(v(-215_000, 0))));
    assert_eq!(g.entities[3].position, Some(Position(v(215_000, 0))));
    assert_eq!(g.entities[2].player, Some(Player::new(0, 100_000)));
    assert_eq!(g.entities[4].velocity, Some(Velocity(v(1, 2))));
    assert_eq!(g.scores.0, [0, 0]);
    assert_eq!(g.next_id, 5);
}

#[test]
fn launch_plan_by_quarter() {
    assert_eq!(plan_launch(0), Launch { horizontal: -1, vertical: -1, angle: 500 });
    assert_eq!(plan_launch(250), Launch { horizontal: -1, vertical: 1, angle: 550 });
    assert_eq!(plan_launch(450), Launch { horizontal: 1, vertical: -1, angle: 550 });
    assert_eq!(plan_launch(799), Launch { horizontal: 1, vertical: 1, angle: 699 });
    assert_eq!(plan_launch(800), Launch { horizontal: 1, vertical: 1, angle: 700 });
    assert_eq!(plan_launch(600), Launch { horizontal: 1, vertical: 1, angle: 500 });
}

#[test]
fn launch_velocity_scales_by_ball_speed() {
    let l = Launch { horizontal: -1, vertical: 1, angle: 600 };
    assert_eq!(launch_velocity(l, 825, 565), v(-82_500, 56_500));
}

#[test]
fn seeded_launch_is_reproducible() {
    let mut a = rand::rngs::StdRng::seed_from_u64(1234);
    let mut b = rand::rngs::StdRng::seed_from_u64(1234);
    for _ in 0..20 {
        let la = random_launch(&mut a);
        let lb = random_launch(&mut b);
        assert_eq!(la, lb);
        assert_eq!(velocity_of(la), velocity_of(lb));
        assert!(la.angle >= 500 && la.angle <= 700);
    }
}

fn velocity_of(l: Launch) -> Vec2 {
    let angle = l.angle as f64 / 1000.0;
    let cos = (angle.cos() * 1000.0).round() as i64;
    let sin = (angle.sin() * 1000.0).round() as i64;
    launch_velocity(l, cos, sin)
}

#[test]
fn keys_give_directions() {
    let c = PlayerControl::from_keys([true, false], [false, true]);
    assert_eq!(c.directions, [1, -1]);
    let c = PlayerControl::from_keys([true, false], [true, false]);
    assert_eq!(c.directions, [0, 0]);
}

#[test]
fn paddle_moves_with_held_key() {
    let mut g = Game::new(v(0, 0));
    g.update(PlayerControl::from_keys([true, false], [false, false]), 100, v(0, 0));
    assert_eq!(g.entities[2].velocity, Some(Velocity(v(0, 100_000))));
    assert_eq!(g.entities[2].position, Some(Position(v(-215_000, 10_000))));
    assert_eq!(g.entities[3].position, Some(Position(v(215_000, 0))));
}

#[test]
fn top_of_draw_launches_at_ball_speed() {
    let l = plan_launch(800);
    let vel = velocity_of(l);
    let speed = ((vel.x as f64).powi(2) + (vel.y as f64).powi(2)).sqrt();
    assert!((speed - 100_000.0).abs() < 200.0, "speed {}", speed);
    assert!(vel.x > 0 && vel.y > 0);
}

#[test]
fn new_game_starts_with_default_camera_and_control() {
    let g = Game::new(v(0, 0));
    assert_eq!(g.camera, Camera { center: v(0, 0), rotation: 0, fov: 400_000 });
    assert_eq!(g.control.directions, [0, 0]);
    assert_eq!(g.time, TimeRes { delta_time: 1000, game_time: 0 });
}
