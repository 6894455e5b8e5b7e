use simulation::ai::{Level, NeuralNetwork};
use simulation::car::Car;
use simulation::controls::ControlType;
use simulation::env::{Lcg, Trig};
use simulation::fixed::ONE;
use simulation::road::Road;
use simulation::sensors::Sensor;
use simulation::traffic::Traffic;

const U: i64 = 1_000_000;

/// Sines and cosines as the floating-point unit gives them.
struct Math;

impl Trig for Math {
    fn sine_of(&self, angle: i64) -> i64 {
        self.sin_cos(angle).0
    }

    fn cosine_of(&self, angle: i64) -> i64 {
        self.sin_cos(angle).1
    }

    fn sin_cos(&self, angle: i64) -> (i64, i64) {
        let radians = angle as f64 / 1e6;
        ((radians.sin() * 1e6).round() as i64, (radians.cos() * 1e6).round() as i64)
    }
}

/// Always the same direction, whatever the angle.
struct Always(i64, i64);

impl Trig for Always {
    fn sine_of(&self, angle: i64) -> i64 {
        self.sin_cos(angle).0
    }

    fn cosine_of(&self, angle: i64) -> i64 {
        self.sin_cos(angle).1
    }

    fn sin_cos(&self, _angle: i64) -> (i64, i64) {
        (self.0, self.1)
    }
}

/// A source that tells which angle it was asked for.
struct Echo;

impl Trig for Echo {
    fn sine_of(&self, angle: i64) -> i64 {
        angle
    }

    fn cosine_of(&self, _angle: i64) -> i64 {
        0
    }

    fn sin_cos(&self, angle: i64) -> (i64, i64) {
        (angle, 0)
    }
}

fn road() -> Road {
    // borders at x = 0 and x = 100
    Road::new(50 * U, 100 * U, 3)
}

/// A network of one level that always decides the same controls.
fn constant_brain(inputs: usize, decision: [bool; 4]) -> NeuralNetwork {
    let biases = decision.iter().map(|on| if *on { ONE } else { -ONE }).collect();
    let weights = vec![vec![0; 4]; inputs];
    NeuralNetwork::from_levels(vec![Level::from_parts(biases, weights).unwrap()])
}

fn agent(id: usize, x: i64, y: i64, brain: NeuralNetwork) -> Car {
    let mut rng = Lcg::new(1);
    Car::with_brain(id, x, y, 30 * U, 50 * U, Sensor::new(3, 120 * U, 1_570_796), &[3, 4], Some(brain), &mut rng)
}

#[test]
fn a_new_car_is_at_rest_and_has_no_outline() {
    let car = Car::no_control(50 * U, 100 * U, 2 * U);
    assert_eq!((car.x(), car.y(), car.speed(), car.angle()), (50 * U, 100 * U, 0, 0));
    assert_eq!((car.width(), car.height()), (30 * U, 50 * U));
    assert_eq!(car.id(), 0);
    assert!(!car.damaged());
    assert!(car.polygons().is_empty());
    assert!(car.brain().is_none());
    assert!(car.sensor().is_none());
    assert_eq!(car.controls().control_type, ControlType::NoControl);
    assert!(car.controls().up);
}

#[test]
fn traffic_accelerates_up_the_road() {
    let mut car = Car::no_control(50 * U, 100 * U, 2 * U);
    car.update_dummy_car(&Math);
    // 0.2 of throttle less 0.05 of friction
    assert_eq!(car.speed(), 150_000);
    assert_eq!((car.x(), car.y()), (50 * U, 100 * U - 150_000));
    car.update_dummy_car(&Math);
    assert_eq!(car.speed(), 300_000);
    assert_eq!(car.y(), 100 * U - 450_000);
}

#[test]
fn speed_is_limited_to_the_top_speed() {
    let mut car = Car::no_control(0, 0, 2 * U);
    for _ in 0..100 {
        car.update_dummy_car(&Math);
        assert!(car.speed() <= 2 * U);
    }
    // limited to 2.0, then friction
    assert_eq!(car.speed(), 2 * U - 50_000);
}

#[test]
fn upright_outline_is_axis_aligned() {
    let mut car = Car::no_control(50 * U, 100 * U, 0);
    car.update_dummy_car(&Math);
    assert_eq!((car.x(), car.y()), (50 * U, 100 * U));
    assert_eq!(
        car.polygons(),
        &[(65 * U, 75 * U), (35 * U, 75 * U), (35 * U, 125 * U), (65 * U, 125 * U)]
    );
}

#[test]
fn outline_turns_with_the_heading() {
    // heading a quarter turn to the left: sin = 1, cos = 0
    let mut car = Car::no_control(0, 0, 0);
    car.update_dummy_car(&Always(ONE, 0));
    assert_eq!(
        car.polygons(),
        &[(-25 * U, -15 * U), (-25 * U, 15 * U), (25 * U, 15 * U), (25 * U, -15 * U)]
    );
}

#[test]
fn a_car_moves_along_its_heading() {
    // sin = 0.6, cos = 0.8
    let mut car = Car::no_control(0, 0, 2 * U);
    car.update_dummy_car(&Always(600_000, 800_000));
    assert_eq!(car.speed(), 150_000);
    assert_eq!((car.x(), car.y()), (-90_000, -120_000));
}

#[test]
fn directions_out_of_range_are_limited() {
    let mut car = Car::no_control(0, 0, 2 * U);
    car.update_dummy_car(&Always(5 * ONE, -5 * ONE));
    assert_eq!((car.x(), car.y()), (-150_000, 150_000));
}

#[test]
fn the_network_decides_the_controls() {
    let mut car = agent(7, 50 * U, 0, constant_brain(3, [true, true, false, false]));
    assert!(!car.controls().up);
    car.update(&road(), &Traffic::new(), &Math);
    // the first tick moves nothing: the controls were all released
    assert_eq!((car.x(), car.y(), car.speed()), (50 * U, 0, 0));
    let controls = car.controls();
    assert_eq!((controls.up, controls.left, controls.right, controls.down), (true, true, false, false));
    assert_eq!(controls.control_type, ControlType::Ai);
    car.update(&road(), &Traffic::new(), &Math);
    // throttle and left: the heading turns by 0.03 before the step
    assert_eq!(car.speed(), 150_000);
    assert_eq!(car.angle(), 30_000);
    let (sin, cos) = Math.sin_cos(30_000);
    assert_eq!(car.x(), 50 * U - sin * 150_000 / ONE);
    assert_eq!(car.y(), -(cos * 150_000 / ONE));
}

#[test]
fn steering_is_reversed_when_reversing() {
    let mut car = agent(7, 50 * U, 0, constant_brain(3, [false, true, false, true]));
    car.update(&road(), &Traffic::new(), &Math);
    car.update(&road(), &Traffic::new(), &Math);
    // brake from rest: reversing at 0.2 less friction; left turns the other way
    assert_eq!(car.speed(), -150_000);
    assert_eq!(car.angle(), -30_000);
}

#[test]
fn reverse_speed_is_limited_to_half_the_top_speed() {
    let mut car = agent(7, 50 * U, 0, constant_brain(3, [false, false, false, true]));
    for _ in 0..50 {
        car.update(&road(), &Traffic::new(), &Math);
        assert!(car.speed() >= -1_500_000);
    }
    assert_eq!(car.speed(), -1_500_000 + 50_000);
}

#[test]
fn a_slow_car_comes_to_rest() {
    // one tick of throttle, then none
    let mut car = agent(7, 50 * U, 0, constant_brain(3, [true, false, false, false]));
    car.update(&road(), &Traffic::new(), &Math);
    car.update(&road(), &Traffic::new(), &Math);
    assert_eq!(car.speed(), 150_000);
    car.set_brain(Some(constant_brain(3, [false, false, false, false])));
    car.update(&road(), &Traffic::new(), &Math);
    // the throttle decided on the tick before still acts: 0.35 less friction
    assert_eq!(car.speed(), 300_000);
    car.update(&road(), &Traffic::new(), &Math);
    assert_eq!(car.speed(), 250_000);
    for _ in 0..3 {
        car.update(&road(), &Traffic::new(), &Math);
    }
    assert_eq!(car.speed(), 100_000);
    car.update(&road(), &Traffic::new(), &Math);
    assert_eq!(car.speed(), 50_000);
    car.update(&road(), &Traffic::new(), &Math);
    assert_eq!(car.speed(), 0);
    let rest = car.y();
    car.update(&road(), &Traffic::new(), &Math);
    assert_eq!((car.speed(), car.y()), (0, rest));
}

#[test]
fn a_car_on_a_border_is_damaged_and_stays_so() {
    // the left border runs through the middle of the car
    let mut car = agent(1, 0, 0, constant_brain(3, [true, false, false, false]));
    assert!(!car.damaged());
    car.update(&road(), &Traffic::new(), &Math);
    assert!(car.damaged());
    let (x, y, outline) = (car.x(), car.y(), car.polygons().to_vec());
    for _ in 0..5 {
        car.update(&road(), &Traffic::new(), &Math);
        assert!(car.damaged());
        assert_eq!((car.x(), car.y(), car.speed()), (x, y, 0));
        assert_eq!(car.polygons(), &outline[..]);
    }
    // even on a road that is far away
    car.update(&Road::new(900 * U, 100 * U, 3), &Traffic::new(), &Math);
    assert!(car.damaged());
}

#[test]
fn a_car_in_its_lane_is_not_damaged() {
    let mut car = agent(1, 50 * U, 0, constant_brain(3, [true, false, false, false]));
    for _ in 0..20 {
        car.update(&road(), &Traffic::new(), &Math);
    }
    assert!(!car.damaged());
    assert!(car.y() < 0);
}

#[test]
fn a_car_that_meets_traffic_is_damaged() {
    let mut traffic = Traffic::new();
    traffic.add_car(50 * U, -40 * U, 0);
    traffic.update(&Math);
    let mut car = agent(1, 50 * U, 0, constant_brain(3, [true, false, false, false]));
    car.update(&road(), &traffic, &Math);
    // outlines overlap: the car spans y from -25 to 25, the other from -65 to -15
    assert!(car.damaged());
    // the same car with the other out of reach
    let mut traffic = Traffic::new();
    traffic.add_car(50 * U, -80 * U, 0);
    traffic.update(&Math);
    let mut car = agent(1, 50 * U, 0, constant_brain(3, [true, false, false, false]));
    car.update(&road(), &traffic, &Math);
    assert!(!car.damaged());
}

#[test]
fn traffic_is_never_damaged() {
    let mut traffic = Traffic::new();
    traffic.add_car(0, 0, 2 * U);
    traffic.add_car(0, 10 * U, 2 * U);
    for _ in 0..5 {
        traffic.update(&Math);
    }
    assert!(traffic.cars().iter().all(|car| !car.damaged()));
}

#[test]
fn mutate_at_rate_zero_keeps_the_brain() {
    let mut rng = Lcg::new(3);
    let mut car = agent(1, 50 * U, 0, constant_brain(3, [true, false, true, false]));
    car.mutate(0, &mut rng);
    let level = &car.brain().unwrap().levels()[0];
    assert_eq!(level.biases(), &vec![ONE, -ONE, ONE, -ONE]);
    assert_eq!(level.weights(), &vec![vec![0; 4]; 3]);
    let mut plain = Car::no_control(0, 0, U);
    plain.mutate(ONE, &mut rng);
    assert!(plain.brain().is_none());
}

#[test]
fn with_brain_builds_a_network_when_given_none() {
    let mut rng = Lcg::new(3);
    let car = Car::with_brain(4, 0, 0, 30 * U, 50 * U, Sensor::new(5, 120 * U, 1_570_796), &[5, 6, 4], None, &mut rng);
    let brain = car.brain().unwrap();
    assert_eq!(brain.depth(), 2);
    assert_eq!(brain.levels()[0].inputs().len(), 5);
    assert_eq!(brain.levels()[1].outputs().len(), 4);
    assert_eq!(car.id(), 4);
    assert_eq!(car.sensor().unwrap().ray_count(), 5);
}

#[test]
fn a_new_car_draws_an_upright_outline() {
    // a new car heads straight up the road
    let mut car = Car::no_control(50 * U, 100 * U, 2 * U);
    car.create_polygon();
    assert_eq!(
        car.polygons(),
        &[(65 * U, 75 * U), (35 * U, 75 * U), (35 * U, 125 * U), (65 * U, 125 * U)]
    );
    // of a size that does not halve evenly, the halves are rounded down
    let mut rng = Lcg::new(1);
    let mut odd = Car::with_brain(1, 0, 0, 7, 9, Sensor::new(1, U, 0), &[1, 4], None, &mut rng);
    odd.create_polygon();
    assert_eq!(odd.polygons(), &[(3, -4), (-3, -4), (-3, 4), (3, 4)]);
}

#[test]
fn the_heading_is_that_of_the_new_angle() {
    let mut car = agent(7, 50 * U, 0, constant_brain(3, [true, true, false, false]));
    car.update(&road(), &Traffic::new(), &Echo);
    car.update(&road(), &Traffic::new(), &Echo);
    // the angle after steering is 0.03: the step is 0.03 of the speed, across the road
    assert_eq!((car.angle(), car.speed()), (30_000, 150_000));
    assert_eq!((car.x(), car.y()), (50 * U - 4_500, 0));
    // the rays are asked for at the angles of the fan about the new heading
    let rays: Vec<i64> = car.sensor().unwrap().rays().iter().map(|ray| ray.0 .0 - ray.1 .0).collect();
    let fan: Vec<i64> = (0..3).map(|i| car.sensor().unwrap().ray_angle(i, 30_000) * 120).collect();
    assert_eq!(rays, fan);
}
