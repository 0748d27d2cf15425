use unit_selection::geometry::{
    calculate_mouse_ray, ray_query, AABox, Direction3, MouseRay, Pixel, ScreenPoint, Vector3,
};

fn v(x: i32, y: i32, z: i32) -> Vector3 {
    Vector3 { x, y, z }
}

fn cube(min: Vector3, max: Vector3) -> AABox {
    AABox { min, max }
}

#[test]
fn ray_query_adds_viewport_and_doubles_elevation() {
    let q = ray_query(Pixel { x: 120, y: 45 }, Pixel { x: 1000, y: 2000 }, 7);
    assert_eq!(q.pixel, ScreenPoint { x: 1120, y: 2045 });
    assert_eq!(q.origin_elevation, 14);
}

#[test]
fn ray_query_at_the_limits() {
    let q = ray_query(
        Pixel { x: i32::MAX, y: i32::MIN },
        Pixel { x: i32::MAX, y: i32::MIN },
        i32::MAX,
    );
    assert_eq!(q.pixel.x, 2 * (i32::MAX as i64));
    assert_eq!(q.pixel.y, 2 * (i32::MIN as i64));
    assert_eq!(q.origin_elevation, 2 * (i32::MAX as i64));
}

#[test]
fn ray_query_is_repeatable() {
    let a = ray_query(Pixel { x: 3, y: 4 }, Pixel { x: -5, y: 6 }, 2);
    let b = ray_query(Pixel { x: 3, y: 4 }, Pixel { x: -5, y: 6 }, 2);
    assert_eq!(a, b);
}

#[test]
fn ray_direction_is_ground_minus_origin() {
    let ray = calculate_mouse_ray(v(100, 20, 0), v(0, 50, 100));
    assert_eq!(ray.world_coord, v(100, 20, 0));
    assert_eq!(ray.origin, v(0, 50, 100));
    assert_eq!(ray.direction, Direction3 { x: 100, y: -30, z: -100 });
    let ground = ray.ground_point();
    assert_eq!((ground.x, ground.y), (100, 20));
    assert_eq!((ground[0], ground[1]), (100, 20));
    assert_eq!(ground, nalgebra::Vector2::new(100, 20));
}

#[test]
fn ray_is_repeatable() {
    let a: MouseRay = calculate_mouse_ray(v(1, 2, 3), v(4, 5, 6));
    let b: MouseRay = calculate_mouse_ray(v(1, 2, 3), v(4, 5, 6));
    assert_eq!(a, b);
}

#[test]
fn ray_direction_at_the_limits() {
    let ray = calculate_mouse_ray(v(i32::MAX, i32::MIN, 0), v(i32::MIN, i32::MAX, 0));
    assert_eq!(ray.direction.x, i32::MAX as i64 - i32::MIN as i64);
    assert_eq!(ray.direction.y, i32::MIN as i64 - i32::MAX as i64);
    assert_eq!(ray.direction.z, 0);
}

#[test]
fn vertical_ray_hits_box_below() {
    let ray = calculate_mouse_ray(v(10, 10, 0), v(10, 10, 100));
    assert!(cube(v(5, 5, 0), v(15, 15, 20)).intersects_ray(&ray));
}

#[test]
fn vertical_ray_misses_box_beside() {
    let ray = calculate_mouse_ray(v(10, 10, 0), v(10, 10, 100));
    assert!(!cube(v(11, 5, 0), v(15, 15, 20)).intersects_ray(&ray));
    assert!(!cube(v(5, 11, 0), v(15, 15, 20)).intersects_ray(&ray));
}

#[test]
fn ray_touching_a_face_hits() {
    let ray = calculate_mouse_ray(v(10, 10, 0), v(10, 10, 100));
    assert!(cube(v(10, 5, 0), v(15, 15, 20)).intersects_ray(&ray));
    assert!(cube(v(5, 5, 0), v(10, 10, 20)).intersects_ray(&ray));
}

#[test]
fn slanted_ray_hits_box_on_its_way() {
    let ray = calculate_mouse_ray(v(100, 0, 0), v(0, 0, 100));
    assert!(cube(v(45, -5, 45), v(55, 5, 55)).intersects_ray(&ray));
}

#[test]
fn slanted_ray_misses_box_under_its_way() {
    let ray = calculate_mouse_ray(v(100, 0, 0), v(0, 0, 100));
    assert!(!cube(v(45, -5, 0), v(55, 5, 10)).intersects_ray(&ray));
}

#[test]
fn slanted_ray_against_its_direction() {
    let ray = calculate_mouse_ray(v(-100, 0, 0), v(0, 0, 100));
    assert!(cube(v(-55, -5, 45), v(-45, 5, 55)).intersects_ray(&ray));
    assert!(!cube(v(45, -5, 45), v(55, 5, 55)).intersects_ray(&ray));
}

#[test]
fn box_behind_the_origin_is_missed() {
    let ray = calculate_mouse_ray(v(0, 0, 50), v(0, 0, 100));
    assert!(!cube(v(-5, -5, 110), v(5, 5, 120)).intersects_ray(&ray));
}

#[test]
fn box_beyond_the_ground_point_is_hit() {
    let ray = calculate_mouse_ray(v(0, 0, 50), v(0, 0, 100));
    assert!(cube(v(-5, -5, 0), v(5, 5, 10)).intersects_ray(&ray));
}

#[test]
fn origin_inside_the_box_hits() {
    let ray = calculate_mouse_ray(v(7, 3, 0), v(1, 1, 1));
    assert!(cube(v(0, 0, 0), v(2, 2, 2)).intersects_ray(&ray));
}

#[test]
fn ray_without_direction_hits_only_from_inside() {
    let inside = calculate_mouse_ray(v(1, 1, 1), v(1, 1, 1));
    let outside = calculate_mouse_ray(v(3, 1, 1), v(3, 1, 1));
    let b = cube(v(0, 0, 0), v(2, 2, 2));
    assert!(b.intersects_ray(&inside));
    assert!(!b.intersects_ray(&outside));
}

#[test]
fn box_with_corners_swapped_is_never_hit() {
    let ray = calculate_mouse_ray(v(1, 1, 0), v(1, 1, 10));
    assert!(!cube(v(2, 2, 2), v(0, 0, 0)).intersects_ray(&ray));
}

#[test]
fn longest_ray_against_the_whole_space() {
    let ray = calculate_mouse_ray(v(i32::MAX, i32::MAX, i32::MIN), v(i32::MIN, i32::MIN, i32::MAX));
    let all = cube(v(i32::MIN, i32::MIN, i32::MIN), v(i32::MAX, i32::MAX, i32::MAX));
    assert!(all.intersects_ray(&ray));
    let corner = cube(v(i32::MAX, i32::MAX, i32::MIN), v(i32::MAX, i32::MAX, i32::MIN));
    assert!(corner.intersects_ray(&ray));
    let other_corner = cube(v(i32::MAX, i32::MIN, i32::MIN), v(i32::MAX, i32::MIN, i32::MIN));
    assert!(!other_corner.intersects_ray(&ray));
}

#[test]
fn a_ray_is_well_formed_when_its_direction_fits() {
    let ray = calculate_mouse_ray(v(100, 20, 0), v(0, 50, 100));
    assert!(ray.is_wf());
    let bent = MouseRay { direction: Direction3 { x: 100, y: -30, z: -99 }, ..ray };
    assert!(!bent.is_wf());
}
