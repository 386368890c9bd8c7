use pong_physics::geometry::{Aabb, CircleCollider, Collider, Collision, Vec2};

fn v(x: i64, y: i64) -> Vec2 {
    Vec2 { x, y }
}

fn circle(x: i64, y: i64, radius: i64) -> Collider {
    Collider::Circle(CircleCollider { center: v(x, y), radius })
}

fn aabb(x0: i64, y0: i64, x1: i64, y1: i64) -> Collider {
    Collider::Aabb(Aabb { min: v(x0, y0), max: v(x1, y1) })
}

#[test]
fn circles_overlapping_report_depth_and_normal() {
    let r = circle(0, 0, 5000).collide(circle(3000, 4000, 5000));
    assert_eq!(r, Some(Collision { normal: v(600, 800), penetration: 5000 }));
}

#[test]
fn circles_with_same_center_have_zero_normal() {
    let r = circle(7, 7, 1).collide(circle(7, 7, 1));
    assert_eq!(r, Some(Collision { normal: v(0, 0), penetration: 2 }));
}

#[test]
fn circles_touching_do_not_collide() {
    assert_eq!(circle(0, 0, 5000).collide(circle(10000, 0, 5000)), None);
    assert_eq!(circle(0, 0, 5000).collide(circle(6000, 8000, 5000)), None);
}

#[test]
fn circles_barely_overlapping_collide() {
    let r = circle(0, 0, 5000).collide(circle(9999, 0, 5000));
    assert_eq!(r, Some(Collision { normal: v(1000, 0), penetration: 1 }));
}

#[test]
fn boxes_apart_on_one_axis_do_not_collide() {
    assert_eq!(aabb(0, 0, 10, 10).collide(aabb(20, 0, 30, 10)), None);
    assert_eq!(aabb(0, 0, 10, 10).collide(aabb(0, 10, 10, 20)), None);
    assert_eq!(aabb(0, 0, 10, 10).collide(aabb(5, -30, 15, -20)), None);
}

#[test]
fn boxes_separate_along_smaller_overlap() {
    let r = aabb(0, 0, 10, 10).collide(aabb(8, 1, 18, 11));
    assert_eq!(r, Some(Collision { normal: v(1000, 0), penetration: 2 }));
    let r = aabb(0, 0, 10, 10).collide(aabb(1, -7, 11, 3));
    assert_eq!(r, Some(Collision { normal: v(0, -1000), penetration: 3 }));
}

#[test]
fn boxes_with_equal_overlaps_separate_along_y() {
    let r = aabb(0, 0, 10, 10).collide(aabb(7, 7, 17, 17));
    assert_eq!(r, Some(Collision { normal: v(0, 1000), penetration: 3 }));
}

#[test]
fn box_and_circle_edges() {
    let bx = aabb(0, 0, 10, 10);
    assert_eq!(bx.collide(circle(5, -2, 3)), Some(Collision { normal: v(0, -1000), penetration: 1 }));
    assert_eq!(bx.collide(circle(5, 12, 3)), Some(Collision { normal: v(0, 1000), penetration: 1 }));
    assert_eq!(bx.collide(circle(-1, 5, 3)), Some(Collision { normal: v(-1000, 0), penetration: 2 }));
    assert_eq!(bx.collide(circle(12, 5, 3)), Some(Collision { normal: v(1000, 0), penetration: 1 }));
    assert_eq!(bx.collide(circle(5, 14, 3)), None);
}

#[test]
fn box_and_circle_corner() {
    let r = aabb(0, 0, 10, 10).collide(circle(13, 14, 6));
    assert_eq!(r, Some(Collision { normal: v(600, 800), penetration: 1 }));
    assert_eq!(aabb(0, 0, 10, 10).collide(circle(13, 14, 4)), None);
}

#[test]
fn circle_and_box_reverse_the_normal() {
    let bx = aabb(0, 0, 10, 10);
    let c = circle(13, 14, 6);
    let ab = bx.collide(c).unwrap();
    let ba = c.collide(bx).unwrap();
    assert_eq!(ab.penetration, ba.penetration);
    assert_eq!(ba.normal, v(-ab.normal.x, -ab.normal.y));
    let c = circle(5, -2, 3);
    assert_eq!(c.collide(bx), Some(Collision { normal: v(0, 1000), penetration: 1 }));
}

#[test]
fn at_translates_without_changing_the_shape() {
    let c = circle(1, 2, 3);
    assert_eq!(c.at(v(10, 20)), circle(11, 22, 3));
    assert_eq!(c, circle(1, 2, 3));
    let b = aabb(-1, -2, 1, 2);
    assert_eq!(b.at(v(5, 6)), aabb(4, 4, 6, 8));
    assert_eq!(b.at(v(5, 6)).at(v(1, 1)), b.at(v(6, 7)));
}

#[test]
fn contact_is_invariant_under_common_offset() {
    let a = aabb(0, 0, 10, 10);
    let b = circle(13, 14, 6);
    let here = a.at(v(0, 0)).collide(b.at(v(0, 0)));
    let there = a.at(v(-5000, 777)).collide(b.at(v(-5000, 777)));
    assert_eq!(here, there);
    let p = aabb(-5, -5, 5, 5);
    assert_eq!(p.at(v(1, 1)).collide(p.at(v(4, 9))), p.at(v(101, -99)).collide(p.at(v(104, -91))));
}

#[test]
fn diagonal_normal_is_rounded_unit_vector() {
    let r = circle(0, 0, 5).collide(circle(1, 1, 5));
    assert_eq!(r, Some(Collision { normal: v(707, 707), penetration: 9 }));
    let r = circle(0, 0, 5).collide(circle(-2, 1, 5));
    assert_eq!(r, Some(Collision { normal: v(-894, 447), penetration: 8 }));
}
