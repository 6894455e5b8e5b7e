use simulation::car::Car;
use simulation::env::Trig;
use simulation::fixed::ONE;
use simulation::road::Road;
use simulation::sensors::{cast_ray, get_reading, is_in_range, Sensor};
use simulation::env::Direction;
use simulation::traffic::Traffic;
use simulation::utils::IntersectionPoint;

const U: i64 = 1_000_000;

struct Math;

impl Trig for Math {
    fn sine_of(&self, angle: i64) -> i64 {
        self.sin_cos(angle).0
    }

    fn cosine_of(&self, angle: i64) -> i64 {
        self.sin_cos(angle).1
    }

    fn sin_cos(&self, angle: i64) -> (i64, i64) {
        let radians = angle as f64 / 1e6;
        ((radians.sin() * 1e6).round() as i64, (radians.cos() * 1e6).round() as i64)
    }
}

struct Always(i64, i64);

impl Trig for Always {
    fn sine_of(&self, angle: i64) -> i64 {
        self.sin_cos(angle).0
    }

    fn cosine_of(&self, angle: i64) -> i64 {
        self.sin_cos(angle).1
    }

    fn sin_cos(&self, _angle: i64) -> (i64, i64) {
        (self.0, self.1)
    }
}

#[test]
fn a_new_sensor_has_met_nothing() {
    let sensor = Sensor::new(5, 120 * U, 1_570_796);
    assert_eq!(sensor.ray_count(), 5);
    assert_eq!(sensor.ray_length(), 120 * U);
    assert_eq!(sensor.ray_spread(), 1_570_796);
    assert_eq!(sensor.rays(), &[((0, 0), (0, 0)); 5]);
    assert_eq!(sensor.readings(), &[None; 5]);
    assert!(Sensor::new(0, 0, 0).rays().is_empty());
}

#[test]
fn rays_fan_evenly_across_the_spread() {
    let sensor = Sensor::new(5, 120 * U, 2_000_000);
    let angles: Vec<i64> = (0..5).map(|i| sensor.ray_angle(i, 0)).collect();
    assert_eq!(angles, vec![1_000_000, 500_000, 0, -500_000, -1_000_000]);
    let turned: Vec<i64> = (0..5).map(|i| sensor.ray_angle(i, 300_000)).collect();
    assert_eq!(turned, vec![1_300_000, 800_000, 300_000, -200_000, -700_000]);
}

#[test]
fn a_single_ray_points_along_the_heading() {
    let sensor = Sensor::new(1, 120 * U, 2_000_000);
    assert_eq!(sensor.ray_angle(0, 0), 0);
    assert_eq!(sensor.ray_angle(0, -250_000), -250_000);
}

#[test]
fn a_ray_runs_its_length_along_its_direction() {
    assert_eq!(cast_ray(5 * U, 7 * U, 10 * U, Direction::up()), ((5 * U, 7 * U), (5 * U, -3 * U)));
    assert_eq!(
        cast_ray(5 * U, 7 * U, 10 * U, Direction::new(600_000, 800_000)),
        ((5 * U, 7 * U), (-U, -U))
    );
    assert_eq!(
        cast_ray(0, 0, 10 * U, Direction::new(-ONE, 0)),
        ((0, 0), (10 * U, 0))
    );
}

#[test]
fn the_nearer_border_is_reported() {
    // from x = 50 straight out to the right, 120 long; borders at x = 150 and x = 100
    let ray = ((50 * U, 0), (170 * U, 0));
    let borders = [
        ((150 * U, -1000 * U), (150 * U, 1000 * U)),
        ((100 * U, -1000 * U), (100 * U, 1000 * U)),
    ];
    let reading = get_reading(0, ray, &borders, &Traffic::new(), 200 * U);
    // 50 / 120 of the way, rounded down to a millionth
    assert_eq!(reading, Some(IntersectionPoint { x: 99_999_920, y: 0, offset: 416_666 }));
    // the same with the borders in the other order
    let swapped = [borders[1], borders[0]];
    assert_eq!(get_reading(0, ray, &swapped, &Traffic::new(), 200 * U), reading);
    // and nothing when the ray stops short of both
    let short = ((50 * U, 0), (90 * U, 0));
    assert_eq!(get_reading(0, short, &borders, &Traffic::new(), 200 * U), None);
}

#[test]
fn a_ray_between_two_borders_reports_the_one_it_points_at() {
    // borders at x = 0 and x = 100, the sensor at x = 50, one ray
    let road = Road::new(50 * U, 100 * U, 3);
    let mut sensor = Sensor::new(1, 120 * U, 0);
    // heading a quarter turn to the left: the ray runs toward x = -70
    sensor.update(50 * U, 0, 1_570_796, road.boarders(), &Traffic::new(), &Always(ONE, 0));
    assert_eq!(sensor.rays(), &[((50 * U, 0), (-70 * U, 0))]);
    assert_eq!(sensor.readings(), &[Some(IntersectionPoint { x: 80, y: 0, offset: 416_666 })]);
    // heading a quarter turn to the right: toward x = 170
    sensor.update(50 * U, 0, -1_570_796, road.boarders(), &Traffic::new(), &Always(-ONE, 0));
    assert_eq!(sensor.readings(), &[Some(IntersectionPoint { x: 99_999_920, y: 0, offset: 416_666 })]);
    // nearer to the right border
    sensor.update(90 * U, 0, -1_570_796, road.boarders(), &Traffic::new(), &Always(-ONE, 0));
    assert_eq!(sensor.readings(), &[Some(IntersectionPoint { x: 99_999_960, y: 0, offset: 83_333 })]);
    // straight up the road: nothing
    sensor.update(50 * U, 0, 0, road.boarders(), &Traffic::new(), &Always(0, ONE));
    assert_eq!(sensor.readings(), &[None]);
}

#[test]
fn a_full_fan_on_the_road() {
    let road = Road::new(50 * U, 100 * U, 3);
    let mut sensor = Sensor::new(3, 120 * U, 3_141_593);
    sensor.update(50 * U, 0, 0, road.borders(), &Traffic::new(), &Math);
    let readings = sensor.readings();
    // the outer rays run a quarter turn to either side and meet the borders 50 away
    assert_eq!(readings[0].map(|p| (p.x, p.offset)), Some((80, 416_666)));
    assert_eq!(readings[1], None);
    assert_eq!(readings[2].map(|p| (p.x, p.offset)), Some((99_999_920, 416_666)));
}

#[test]
fn traffic_ahead_is_seen_nearer_than_the_border() {
    let mut traffic = Traffic::new();
    traffic.add_car(50 * U, -80 * U, 0);
    traffic.update(&Math);
    // the car ahead spans x from 35 to 65 and y from -105 to -55
    let ray = ((50 * U, 0), (50 * U, -120 * U));
    let reading = get_reading(0, ray, &[], &traffic, 200 * U);
    // its back side, 55 away: 55 / 120
    assert_eq!(reading, Some(IntersectionPoint { x: 50 * U, y: -54_999_960, offset: 458_333 }));
    // out of range along the road, the car is not looked at
    assert_eq!(get_reading(0, ray, &[], &traffic, 70 * U), None);
    assert_eq!(get_reading(0, ray, &[], &traffic, 80 * U), reading);
}

#[test]
fn range_compares_distances_from_the_start_of_the_road() {
    assert!(is_in_range(0, 100, 100));
    assert!(!is_in_range(0, 101, 100));
    assert!(is_in_range(-50, 50, 0));
    assert!(is_in_range(-300, 250, 50));
    assert!(!is_in_range(-300, 249, 50));
    assert!(is_in_range(i64::MIN, i64::MAX, 1));
}

#[test]
fn a_car_without_an_outline_is_not_seen() {
    let mut traffic = Traffic::new();
    traffic.add(Car::no_control(50 * U, -80 * U, 0));
    let ray = ((50 * U, 0), (50 * U, -120 * U));
    assert_eq!(get_reading(0, ray, &[], &traffic, 200 * U), None);
}
