use raytracer::glass::{
    checkerboard_cell, Floor, Hit, Path, Point, Primitive, Scene, Sphere, Step, FLOOR_HEIGHT,
    MAX_BOUNCES,
};
use raytracer::scalar::Scalar;

fn time(value: f32) -> Option<Scalar> {
    Some(Scalar::from_bits(value.to_bits()))
}

fn number(value: f32) -> Scalar {
    Scalar::from_bits(value.to_bits())
}

#[test]
fn standard_scene_has_three_spheres_over_a_floor() {
    let scene = Scene::new();
    let spheres = scene.spheres();
    assert_eq!(spheres.len(), 3);
    assert_eq!(spheres[0].position(), Point { x: 0, y: -8, z: 80 });
    assert_eq!(spheres[0].radius_squared(), 144);
    assert_eq!(spheres[1].position(), Point { x: 13, y: -15, z: 65 });
    assert_eq!(spheres[1].radius_squared(), 25);
    assert_eq!(spheres[2].position(), Point { x: 40, y: 16, z: 90 });
    assert_eq!(spheres[2].radius_squared(), 1089);
    assert_eq!(FLOOR_HEIGHT, -20);
    assert_eq!(scene.floor(), Some(Floor { height: -20 }));
}

#[test]
fn sphere_holds_the_square_of_its_radius() {
    let sphere = Sphere::new(Point { x: 1, y: 2, z: 3 }, 12);
    assert_eq!(sphere.position(), Point { x: 1, y: 2, z: 3 });
    assert_eq!(sphere.radius_squared(), 144);
    assert_eq!(Sphere::new(Point { x: 0, y: 0, z: 0 }, -5).radius_squared(), 25);
    assert_eq!(
        Sphere::new(Point { x: 0, y: 0, z: 0 }, i32::MIN).radius_squared(),
        1i64 << 62
    );
}

#[test]
fn scene_is_built_from_its_parts() {
    let sphere = Sphere::new(Point { x: 0, y: 0, z: 10 }, 2);
    let scene = Scene::with_parts(vec![sphere], None);
    assert_eq!(scene.spheres().len(), 1);
    assert_eq!(scene.spheres()[0], sphere);
    assert_eq!(scene.floor(), None);
}

#[test]
fn nearest_is_the_earliest_hit() {
    let scene = Scene::new();
    let hit = scene.nearest(&[time(70.0), time(61.5), None], time(400.0));
    assert_eq!(hit, Some(Hit { time: number(61.5), primitive: Primitive::Sphere(1) }));
    let hit = scene.nearest(&[None, None, time(90.0)], time(25.0));
    assert_eq!(hit, Some(Hit { time: number(25.0), primitive: Primitive::Floor }));
}

#[test]
fn nearest_of_no_hit_is_none() {
    let scene = Scene::new();
    assert_eq!(scene.nearest(&[None, None, None], None), None);
}

#[test]
fn nearest_of_equal_times_is_the_one_tried_first() {
    let scene = Scene::new();
    let hit = scene.nearest(&[None, time(5.0), time(5.0)], time(5.0));
    assert_eq!(hit, Some(Hit { time: number(5.0), primitive: Primitive::Sphere(1) }));
    let hit = scene.nearest(&[time(0.0), time(-0.0), None], None);
    assert_eq!(hit, Some(Hit { time: number(0.0), primitive: Primitive::Sphere(0) }));
}

#[test]
fn nearest_skips_times_that_are_no_numbers_below_infinity() {
    let scene = Scene::new();
    let hit = scene.nearest(&[time(f32::NAN), time(f32::INFINITY), time(3.0)], time(f32::NAN));
    assert_eq!(hit, Some(Hit { time: number(3.0), primitive: Primitive::Sphere(2) }));
    assert_eq!(scene.nearest(&[time(f32::NAN), None, None], time(f32::INFINITY)), None);
    let hit = scene.nearest(&[time(2.0), time(f32::NAN), None], None);
    assert_eq!(hit, Some(Hit { time: number(2.0), primitive: Primitive::Sphere(0) }));
}

#[test]
fn nearest_takes_a_negative_time_for_earlier() {
    let scene = Scene::new();
    let hit = scene.nearest(&[time(1.0), time(-2.0), None], time(0.5));
    assert_eq!(hit, Some(Hit { time: number(-2.0), primitive: Primitive::Sphere(1) }));
}

#[test]
fn scene_without_a_floor_never_hits_it() {
    let sphere = Sphere::new(Point { x: 0, y: 0, z: 10 }, 2);
    let scene = Scene::with_parts(vec![sphere], None);
    assert_eq!(scene.nearest(&[None], time(3.0)), None);
    let hit = scene.nearest(&[time(8.0)], time(3.0));
    assert_eq!(hit, Some(Hit { time: number(8.0), primitive: Primitive::Sphere(0) }));
}

#[test]
fn empty_scene_sends_a_ray_straight_down_to_the_sky() {
    let scene = Scene::with_parts(Vec::new(), None);
    let direction: [f32; 3] = [0.0, -1.0, 0.0];
    let origin_y: f32 = 0.0;
    let collision_time = (FLOOR_HEIGHT as f32 - origin_y) / direction[1];
    let floor_time = Floor::hit_time(number(collision_time), number(direction[1]));
    assert_eq!(floor_time, time(20.0));
    let hit = scene.nearest(&[], floor_time);
    assert_eq!(hit, None);
    let mut path = Path::new();
    assert_eq!(path.advance(hit.map(|h| h.primitive)), Step::Escape);
    assert_eq!(path.bounces(), 0);
}

#[test]
fn sphere_is_struck_ahead_and_within_the_radius() {
    assert!(Sphere::struck(number(80.0), number(100.0), number(144.0)));
    assert!(Sphere::struck(number(0.001), number(0.0), number(144.0)));
    assert!(Sphere::struck(number(80.0), number(144.0), number(144.0)));
}

#[test]
fn sphere_behind_the_ray_is_missed() {
    assert!(!Sphere::struck(number(-80.0), number(0.0), number(144.0)));
    assert!(!Sphere::struck(number(0.0), number(0.0), number(144.0)));
    assert!(!Sphere::struck(number(-0.0), number(0.0), number(144.0)));
}

#[test]
fn sphere_passed_by_is_missed() {
    assert!(!Sphere::struck(number(80.0), number(144.5), number(144.0)));
    assert!(!Sphere::struck(number(80.0), number(f32::INFINITY), number(144.0)));
}

#[test]
fn sphere_test_on_a_nan_fails() {
    assert!(!Sphere::struck(number(f32::NAN), number(1.0), number(144.0)));
    assert!(!Sphere::struck(number(80.0), number(f32::NAN), number(144.0)));
    assert!(!Sphere::struck(number(80.0), number(1.0), number(f32::NAN)));
}

#[test]
fn floor_is_hit_from_above_by_a_ray_that_points_down() {
    let origin_y: f32 = 5.0;
    let direction_y: f32 = -0.5;
    let collision_time = (FLOOR_HEIGHT as f32 - origin_y) / direction_y;
    assert_eq!(collision_time, 50.0);
    assert_eq!(Floor::hit_time(number(collision_time), number(direction_y)), time(50.0));
    assert_eq!(Floor::hit_time(number(0.0), number(-1.0)), time(0.0));
}

#[test]
fn floor_is_missed_by_a_ray_that_points_up_or_runs_level() {
    assert_eq!(Floor::hit_time(number(-50.0), number(0.5)), None);
    assert_eq!(Floor::hit_time(number(50.0), number(0.5)), None);
    assert_eq!(Floor::hit_time(number(f32::INFINITY), number(0.0)), None);
    assert_eq!(Floor::hit_time(number(f32::NEG_INFINITY), number(-0.0)), None);
}

#[test]
fn floor_below_a_ray_that_started_under_it_is_missed() {
    let origin_y: f32 = -30.0;
    let direction_y: f32 = -1.0;
    let collision_time = (FLOOR_HEIGHT as f32 - origin_y) / direction_y;
    assert_eq!(collision_time, -10.0);
    assert_eq!(Floor::hit_time(number(collision_time), number(direction_y)), None);
}

#[test]
fn floor_test_on_a_nan_fails() {
    assert_eq!(Floor::hit_time(number(f32::NAN), number(-1.0)), None);
    assert_eq!(Floor::hit_time(number(1.0), number(f32::NAN)), None);
}

#[test]
fn path_reflects_off_spheres_and_scatters_off_the_floor() {
    let mut path = Path::new();
    assert_eq!(path.bounces(), 0);
    assert_eq!(path.advance(Some(Primitive::Sphere(2))), Step::Reflect(2));
    assert_eq!(path.bounces(), 1);
    assert_eq!(path.advance(Some(Primitive::Floor)), Step::Scatter);
    assert_eq!(path.bounces(), 2);
    assert_eq!(path.advance(None), Step::Escape);
    assert_eq!(path.bounces(), 2);
}

#[test]
fn path_is_absorbed_after_fifty_bounces() {
    assert_eq!(MAX_BOUNCES, 50);
    let mut path = Path::new();
    for _ in 0..50 {
        assert_eq!(path.advance(Some(Primitive::Floor)), Step::Scatter);
    }
    assert_eq!(path.bounces(), 50);
    assert_eq!(path.advance(Some(Primitive::Floor)), Step::Absorb);
    assert_eq!(path.advance(Some(Primitive::Sphere(0))), Step::Absorb);
    assert_eq!(path.bounces(), 50);
}

#[test]
fn path_escapes_even_after_fifty_bounces() {
    let mut path = Path::new();
    for _ in 0..50 {
        path.advance(Some(Primitive::Sphere(0)));
    }
    assert_eq!(path.advance(None), Step::Escape);
}

#[test]
fn checkerboard_cell_is_the_low_byte_of_the_exclusive_or() {
    assert_eq!(checkerboard_cell(3, 5), 6);
    assert_eq!(checkerboard_cell(0, 0), 0);
    assert_eq!(checkerboard_cell(255, 0), 255);
    assert_eq!(checkerboard_cell(256, 0), 0);
    assert_eq!(checkerboard_cell(0x1234, 0x00ff), 0xcb);
    assert_eq!(checkerboard_cell(-1, 0), 255);
    assert_eq!(checkerboard_cell(-1, -1), 0);
    assert_eq!(checkerboard_cell(i32::MIN, i32::MAX), 255);
}
