use missile_command::geometry::{isqrt, Point};
use missile_command::ray::point_on_ray;

#[test]
fn isqrt_of_small_numbers() {
    assert_eq!(isqrt(0), 0);
    assert_eq!(isqrt(1), 1);
    assert_eq!(isqrt(2), 1);
    assert_eq!(isqrt(3), 1);
    assert_eq!(isqrt(4), 2);
    assert_eq!(isqrt(8), 2);
    assert_eq!(isqrt(9), 3);
    assert_eq!(isqrt(99), 9);
    assert_eq!(isqrt(100), 10);
}

#[test]
fn isqrt_of_large_numbers() {
    assert_eq!(isqrt(u128::MAX), u64::MAX);
    let r: u128 = 3_000_000_000_000;
    assert_eq!(isqrt(r * r), 3_000_000_000_000);
    assert_eq!(isqrt(r * r - 1), 2_999_999_999_999);
    assert_eq!(isqrt(r * r + 2 * r), 3_000_000_000_000);
    assert_eq!(isqrt(r * r + 2 * r + 1), 3_000_000_000_001);
}

#[test]
fn isqrt_brackets_its_argument() {
    let mut n: u128 = 0;
    while n < 5000 {
        let r: u128 = isqrt(n) as u128;
        assert!(r * r <= n && n < (r + 1) * (r + 1));
        n += 1;
    }
}

#[test]
fn point_new_keeps_coordinates() {
    let p: Point = Point::new(-3, 9);
    assert_eq!(p, Point { x: -3, y: 9 });
}

#[test]
fn is_within_is_strict() {
    let a: Point = Point::new(0, 0);
    assert!(a.is_within(&Point::new(3, 4), 6));
    assert!(!a.is_within(&Point::new(3, 4), 5));
    assert!(!a.is_within(&Point::new(3, 4), 4));
    assert!(a.is_within(&Point::new(-3, -4), 6));
    assert!(a.is_within(&a, 1));
}

#[test]
fn is_within_nothing_for_no_radius() {
    let a: Point = Point::new(7, 7);
    assert!(!a.is_within(&a, 0));
    assert!(!a.is_within(&a, -5));
    assert!(!a.is_within(&a, i64::MIN));
}

#[test]
fn is_within_at_the_limits_of_the_grid() {
    let a: Point = Point::new(i64::MIN, i64::MIN);
    let b: Point = Point::new(i64::MAX, i64::MAX);
    assert!(!a.is_within(&b, i64::MAX));
    assert!(!b.is_within(&a, i64::MAX));
    assert!(a.is_within(&Point::new(i64::MIN + 1, i64::MIN), i64::MAX));
    let far: Point = Point::new(i64::MAX - 1, 0);
    assert!(Point::new(0, 0).is_within(&far, i64::MAX));
    assert!(!Point::new(0, 0).is_within(&far, i64::MAX - 1));
}

#[test]
fn point_on_ray_along_an_axis() {
    let origin: Point = Point::new(10, 20);
    assert_eq!(point_on_ray(&origin, &Point::new(10, 500), 7), Point::new(10, 27));
    assert_eq!(point_on_ray(&origin, &Point::new(10, -500), 7), Point::new(10, 13));
    assert_eq!(point_on_ray(&origin, &Point::new(500, 20), 7), Point::new(17, 20));
    assert_eq!(point_on_ray(&origin, &Point::new(-500, 20), 7), Point::new(3, 20));
    assert_eq!(point_on_ray(&origin, &Point::new(10, 500), 0), origin);
}

#[test]
fn point_on_ray_on_a_whole_slope() {
    let origin: Point = Point::new(0, 0);
    let target: Point = Point::new(300, 400);
    assert_eq!(point_on_ray(&origin, &target, 5), Point::new(3, 4));
    assert_eq!(point_on_ray(&origin, &target, 500), Point::new(300, 400));
    assert_eq!(point_on_ray(&origin, &target, 1000), Point::new(600, 800));
    assert_eq!(point_on_ray(&origin, &target, 4), Point::new(2, 3));
    let back: Point = Point::new(-300, -400);
    assert_eq!(point_on_ray(&origin, &back, 4), Point::new(-2, -3));
}

#[test]
fn point_on_ray_rounds_toward_the_origin() {
    let origin: Point = Point::new(0, 0);
    assert_eq!(point_on_ray(&origin, &Point::new(6000, 6000), 6000), Point::new(4242, 4242));
    assert_eq!(point_on_ray(&origin, &Point::new(-6000, 6000), 6000), Point::new(-4242, 4242));
    assert_eq!(point_on_ray(&origin, &Point::new(1, 1), 1), Point::new(0, 0));
    assert_eq!(point_on_ray(&origin, &Point::new(1, 1), 2), Point::new(1, 1));
}

#[test]
fn point_on_ray_at_the_limits_of_reach() {
    let reach: i64 = 2_147_483_648;
    let origin: Point = Point::new(-reach, -reach);
    let target: Point = Point::new(reach, reach);
    let p: Point = point_on_ray(&origin, &target, u32::MAX);
    assert_eq!(p.x, p.y);
    let off: i64 = p.x + reach;
    // off is the whole part of (2^32 - 1) / sqrt(2)
    assert_eq!(off, 3_037_000_499);
    let far: Point = point_on_ray(&origin, &Point::new(reach, -reach), u32::MAX);
    assert_eq!(far, Point::new(-reach + 4_294_967_295, -reach));
}

#[test]
fn is_in_range_up_to_reach() {
    let reach: i64 = 2_147_483_648;
    assert!(Point::new(0, 0).is_in_range());
    assert!(Point::new(reach, -reach).is_in_range());
    assert!(Point::new(-reach, reach).is_in_range());
    assert!(!Point::new(reach + 1, 0).is_in_range());
    assert!(!Point::new(0, -reach - 1).is_in_range());
    assert!(!Point::new(i64::MIN, i64::MAX).is_in_range());
}
