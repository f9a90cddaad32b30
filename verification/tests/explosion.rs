use missile_command::explosion::{Explosion, DETONATION_VELOCITY, START_RADIUS, TARGET_RADIUS};
use missile_command::geometry::Point;
use missile_command::units::{FRAME, SECOND, UNIT};

#[test]
fn explosion_constants_are_in_field_units() {
    assert_eq!(START_RADIUS, 20 * UNIT);
    assert_eq!(TARGET_RADIUS, 80 * UNIT);
    assert_eq!(DETONATION_VELOCITY, 85);
    assert_eq!(SECOND, 60 * FRAME);
    assert_eq!(SECOND as i64, UNIT);
}

#[test]
fn new_explosion_starts_small_and_growing() {
    let e: Explosion = Explosion::new(Point::new(11, -4));
    assert_eq!(e.position, Point::new(11, -4));
    assert_eq!(e.radius, 120_000);
    assert!(e.is_alive);
    assert!(e.is_radius_increasing);
}

#[test]
fn explosion_grows_by_velocity_times_elapsed() {
    let mut e: Explosion = Explosion::new(Point::new(0, 0));
    e.update(FRAME);
    assert_eq!(e.radius, 128_500);
    e.update(1);
    assert_eq!(e.radius, 128_585);
    e.update(0);
    assert_eq!(e.radius, 128_585);
    assert!(e.is_alive && e.is_radius_increasing);
    assert_eq!(e.position, Point::new(0, 0));
}

#[test]
fn explosion_keeps_its_overshoot() {
    let mut e: Explosion = Explosion::new(Point::new(0, 0));
    e.update(SECOND);
    assert_eq!(e.radius, 120_000 + 85 * 6000);
    assert!(!e.is_radius_increasing);
    assert!(e.is_alive);
    e.update(FRAME);
    assert_eq!(e.radius, 120_000 + 85 * 6000 - 8500);
}

#[test]
fn explosion_stops_growing_only_beyond_the_target_radius() {
    let mut e: Explosion = Explosion { position: Point::new(0, 0), radius: 480_000 - 85, is_alive: true, is_radius_increasing: true };
    e.update(1);
    assert_eq!(e.radius, 480_000);
    assert!(e.is_radius_increasing);
    e.update(1);
    assert_eq!(e.radius, 480_085);
    assert!(!e.is_radius_increasing);
}

#[test]
fn explosion_lifetime_in_frames() {
    let mut e: Explosion = Explosion::new(Point::new(0, 0));
    let mut frames: u32 = 0;
    while e.is_radius_increasing {
        assert!(e.radius <= TARGET_RADIUS);
        e.update(FRAME);
        frames += 1;
    }
    // 60 field units at 85 per second take 42.35 frames
    assert_eq!(frames, 43);
    assert_eq!(e.radius, 120_000 + 43 * 8500);
    assert!(e.radius > TARGET_RADIUS);
    let mut back: u32 = 0;
    while back < 43 {
        assert!(e.is_alive);
        e.update(FRAME);
        back += 1;
    }
    // after as long again the radius is back at its start, which is not below it
    assert_eq!(e.radius, START_RADIUS);
    assert!(e.is_alive);
    e.update(FRAME);
    assert_eq!(e.radius, START_RADIUS - 8500);
    assert!(!e.is_alive);
    assert!(!e.is_radius_increasing);
}

#[test]
fn explosion_radius_rises_then_falls() {
    let mut e: Explosion = Explosion::new(Point::new(0, 0));
    let mut flips: u32 = 0;
    let mut deaths: u32 = 0;
    let mut tick: u32 = 0;
    while tick < 200 {
        let before: Explosion = e;
        e.update(FRAME);
        if before.is_radius_increasing {
            assert!(e.radius > before.radius);
        } else {
            assert!(e.radius < before.radius);
            assert!(!e.is_radius_increasing);
        }
        if before.is_radius_increasing && !e.is_radius_increasing {
            flips += 1;
        }
        if before.is_alive && !e.is_alive {
            deaths += 1;
            assert!(before.radius >= START_RADIUS && e.radius < START_RADIUS);
        }
        if !before.is_alive {
            assert!(!e.is_alive);
        }
        tick += 1;
    }
    assert_eq!(flips, 1);
    assert_eq!(deaths, 1);
}

#[test]
fn explosion_dies_when_below_start_radius() {
    let mut e: Explosion = Explosion { position: Point::new(0, 0), radius: 120_085, is_alive: true, is_radius_increasing: false };
    e.update(1);
    assert_eq!(e.radius, 120_000);
    assert!(e.is_alive);
    e.update(1);
    assert_eq!(e.radius, 119_915);
    assert!(!e.is_alive);
    e.update(1);
    assert_eq!(e.radius, 119_830);
    assert!(!e.is_alive);
}

#[test]
fn explosion_radius_stops_at_the_limits() {
    let mut low: Explosion = Explosion { position: Point::new(0, 0), radius: i64::MIN + 10, is_alive: false, is_radius_increasing: false };
    low.update(1);
    assert_eq!(low.radius, i64::MIN);
    low.update(u32::MAX);
    assert_eq!(low.radius, i64::MIN);
    let mut high: Explosion = Explosion { position: Point::new(0, 0), radius: i64::MAX - 10, is_alive: true, is_radius_increasing: true };
    high.update(1);
    assert_eq!(high.radius, i64::MAX);
    assert!(!high.is_radius_increasing);
    assert!(high.is_alive);
}

#[test]
fn engulfs_what_is_closer_than_the_radius() {
    let e: Explosion = Explosion::new(Point::new(1000, 1000));
    assert!(e.engulfs(&Point::new(1000, 1000)));
    assert!(e.engulfs(&Point::new(1000 + 119_999, 1000)));
    assert!(!e.engulfs(&Point::new(1000 + 120_000, 1000)));
    assert!(e.engulfs(&Point::new(1000 - 72_000, 1000 + 95_999)));
    assert!(!e.engulfs(&Point::new(1000 - 72_000, 1000 + 96_000)));
    let gone: Explosion = Explosion { position: Point::new(0, 0), radius: -5, is_alive: false, is_radius_increasing: false };
    assert!(!gone.engulfs(&Point::new(0, 0)));
}

#[test]
fn explosion_is_well_formed_all_its_life() {
    let mut e: Explosion = Explosion::new(Point::new(0, 0));
    let mut tick: u32 = 0;
    while tick < 120 {
        assert!(e.is_wf());
        assert_eq!(e.is_alive, e.radius >= START_RADIUS);
        e.update(FRAME + tick % 3);
        tick += 1;
    }
    assert!(!e.is_alive);
}

#[test]
fn explosion_is_wf_tells_the_malformed() {
    let origin: Point = Point::new(0, 0);
    assert!(!Explosion { position: origin, radius: 119_999, is_alive: true, is_radius_increasing: false }.is_wf());
    assert!(!Explosion { position: origin, radius: 120_000, is_alive: false, is_radius_increasing: false }.is_wf());
    assert!(!Explosion { position: origin, radius: 480_001, is_alive: true, is_radius_increasing: true }.is_wf());
    assert!(Explosion { position: origin, radius: 480_000, is_alive: true, is_radius_increasing: true }.is_wf());
    assert!(Explosion { position: origin, radius: 480_001, is_alive: true, is_radius_increasing: false }.is_wf());
    assert!(Explosion { position: origin, radius: -1, is_alive: false, is_radius_increasing: false }.is_wf());
}
