use simulation::ai::agents::Agents;
use simulation::ai::{Level, NeuralNetwork};
use simulation::car::Car;
use simulation::config::{parse_counts, Config};
use simulation::env::{Lcg, RandomSource, Trig};
use simulation::fixed::ONE;
use simulation::road::Road;
use simulation::sensors::{get_reading, Sensor};
use simulation::traffic::Traffic;
use simulation::utils::{get_intersection, lerp};

const U: i64 = 1_000_000;

struct Math;

impl Trig for Math {
    fn sine_of(&self, angle: i64) -> i64 {
        self.sin_cos(angle).0
    }

    fn cosine_of(&self, angle: i64) -> i64 {
        self.sin_cos(angle).1
    }

    fn sin_cos(&self, angle: i64) -> (i64, i64) {
        let radians = angle as f64 / 1e6;
        ((radians.sin() * 1e6).round() as i64, (radians.cos() * 1e6).round() as i64)
    }
}

fn coordinate(rng: &mut Lcg, range: i64) -> i64 {
    (rng.next_raw() % (2 * range as u64 + 1)) as i64 - range
}

fn point(rng: &mut Lcg, range: i64) -> (i64, i64) {
    (coordinate(rng, range), coordinate(rng, range))
}

#[test]
fn intersections_agree_with_exact_arithmetic() {
    let mut rng = Lcg::new(2024);
    let mut hits = 0;
    for _ in 0..20_000 {
        let (a, b, c, d) = (point(&mut rng, 50), point(&mut rng, 50), point(&mut rng, 50), point(&mut rng, 50));
        let t_top = (d.0 - c.0) * (a.1 - c.1) - (d.1 - c.1) * (a.0 - c.0);
        let u_top = (c.1 - a.1) * (a.0 - b.0) - (c.0 - a.0) * (a.1 - b.1);
        let bottom = (d.1 - c.1) * (b.0 - a.0) - (d.0 - c.0) * (b.1 - a.1);
        let within = |n: i64| (bottom > 0 && 0 <= n && n <= bottom) || (bottom < 0 && bottom <= n && n <= 0);
        let expected = bottom != 0 && within(t_top) && within(u_top);
        let hit = get_intersection(a, b, c, d);
        assert_eq!(hit.is_some(), expected, "{a:?} {b:?} {c:?} {d:?}");
        if let Some(p) = hit {
            hits += 1;
            assert_eq!(p.offset, t_top.abs() * ONE / bottom.abs());
            assert_eq!((p.x, p.y), (lerp(a.0, b.0, p.offset), lerp(a.1, b.1, p.offset)));
            assert!(a.0.min(b.0) <= p.x && p.x <= a.0.max(b.0));
            assert!(a.1.min(b.1) <= p.y && p.y <= a.1.max(b.1));
            // the exact crossing lies on both segments; the point is it, rounded
            let exact_x = a.0 as f64 + t_top as f64 / bottom as f64 * (b.0 - a.0) as f64;
            let on_edge_x = c.0 as f64 + u_top as f64 / bottom as f64 * (d.0 - c.0) as f64;
            assert!((exact_x - on_edge_x).abs() < 1e-9);
            assert!((p.x as f64 - exact_x).abs() < 1.0 + (b.0 - a.0).abs() as f64 / 1e6);
        }
    }
    assert!(hits > 1000);
}

#[test]
fn readings_are_the_nearest_hit() {
    let mut rng = Lcg::new(7);
    for _ in 0..2_000 {
        let ray = (point(&mut rng, 100 * U), point(&mut rng, 100 * U));
        let borders: Vec<_> = (0..5).map(|_| (point(&mut rng, 100 * U), point(&mut rng, 100 * U))).collect();
        let reading = get_reading(0, ray, &borders, &Traffic::new(), 0);
        let nearest = borders
            .iter()
            .filter_map(|border| get_intersection(ray.0, ray.1, border.0, border.1))
            .min_by_key(|hit| hit.offset);
        assert_eq!(reading, nearest);
    }
}

#[test]
fn ranking_is_sorted_and_complete() {
    let mut rng = Lcg::new(99);
    for round in 0..50 {
        let count = 1 + (rng.next_raw() % 12) as usize;
        let cars: Vec<Car> = (0..count)
            .map(|id| {
                let brain = NeuralNetwork::from_levels(vec![Level::from_parts(vec![-ONE; 4], vec![vec![0; 4]]).unwrap()]);
                let y = coordinate(&mut rng, 3) * U;
                Car::with_brain(id, 50 * U, y, 30 * U, 50 * U, Sensor::new(1, 10 * U, 0), &[1, 4], Some(brain), &mut rng)
            })
            .collect();
        let expected_best = cars
            .iter()
            .enumerate()
            .min_by_key(|(index, car)| (car.y(), *index))
            .map(|(index, _)| index);
        let mut expected: Vec<(usize, i64)> = cars.iter().map(|car| (car.id(), -car.y())).collect();
        expected.sort_by_key(|(id, score)| (-*score, *id));
        let mut agents = Agents::new(cars);
        agents.update(&Road::new(50 * U, 100 * U, 3), &Traffic::new(), &Math);
        assert_eq!(Some(agents.best_agent_index()), expected_best, "round {round}");
        for take in 0..count + 2 {
            let top = agents.n_best(take);
            assert_eq!(top, expected[..take.min(count)].to_vec());
        }
        for place in 0..count {
            assert_eq!(agents.nth_best(place).map(|car| car.id()), Some(expected[place].0));
        }
    }
}

#[test]
fn cleaning_keeps_what_the_rule_keeps() {
    let mut rng = Lcg::new(5);
    for _ in 0..200 {
        let ys: Vec<i64> = (0..20).map(|_| coordinate(&mut rng, 2000) * U).collect();
        let reference = coordinate(&mut rng, 2000) * U;
        let mut traffic = Traffic::new();
        for y in &ys {
            traffic.add_car(0, *y, U);
        }
        traffic.clean(reference);
        let kept: Vec<i64> = traffic.cars().iter().map(|car| car.y()).collect();
        let expected: Vec<i64> = ys.iter().copied().filter(|y| y.abs() > reference.abs() - 500 * U).collect();
        assert_eq!(kept, expected);
    }
}

#[test]
fn written_counts_are_read_back() {
    let mut rng = Lcg::new(31);
    let mut config = Config::default();
    for _ in 0..200 {
        let count = (rng.next_raw() % 6) as usize;
        let layers: Vec<usize> = (0..count)
            .map(|_| {
                let shift = rng.next_raw() % 64;
                ((rng.next_raw() << 32 | rng.next_raw()) >> shift) as usize
            })
            .collect();
        config.set_hidden_layers(layers.clone());
        let text = config.hidden_layers();
        let by_hand: Vec<String> = layers.iter().map(|layer| layer.to_string()).collect();
        assert_eq!(text, by_hand.join(","));
        assert_eq!(parse_counts(text.as_bytes()), layers);
    }
}

#[test]
fn parsing_agrees_with_the_standard_parser() {
    let mut rng = Lcg::new(77);
    let alphabet = b"0123456789,+- 9";
    for _ in 0..5_000 {
        let length = (rng.next_raw() % 12) as usize;
        let text: Vec<u8> = (0..length).map(|_| alphabet[(rng.next_raw() % alphabet.len() as u64) as usize]).collect();
        let text = String::from_utf8(text).unwrap();
        let expected: Vec<usize> = text.split(',').filter_map(|piece| piece.parse::<usize>().ok()).collect();
        assert_eq!(parse_counts(text.as_bytes()), expected, "{text:?}");
    }
}

#[test]
fn network_outputs_follow_the_formula() {
    let mut rng = Lcg::new(12);
    for _ in 0..200 {
        let mut network = NeuralNetwork::new(&[4, 3, 2], &mut rng);
        let inputs: Vec<i64> = (0..4).map(|_| coordinate(&mut rng, ONE)).collect();
        let mut signal: Vec<i64> = inputs.clone();
        for level in network.levels() {
            signal = (0..level.biases().len())
                .map(|i| {
                    let sum: i128 = signal
                        .iter()
                        .zip(level.weights())
                        .map(|(input, row)| *input as i128 * row[i] as i128)
                        .sum();
                    if sum + level.biases()[i] as i128 * ONE as i128 > 0 { ONE } else { 0 }
                })
                .collect();
        }
        assert_eq!(network.feed_forward(inputs), signal);
    }
}

#[test]
fn a_long_run_keeps_its_bounds() {
    let mut rng = Lcg::new(8);
    let mut config = Config::default();
    config.set_cars_count(20);
    let mut simulation = simulation::Simulation::init(&config, None, &mut rng);
    simulation.training_traffic();
    simulation.run();
    for _ in 0..300 {
        simulation.step(&Math);
        for car in simulation.agents().agents() {
            assert!(-1_500_000 <= car.speed() && car.speed() <= 3_000_000);
            assert!(car.polygons().len() == 4 || car.polygons().is_empty());
            let sensor = car.sensor().unwrap();
            assert_eq!(sensor.rays().len(), 5);
            assert!(sensor.readings().iter().flatten().all(|hit| 0 <= hit.offset && hit.offset <= ONE));
        }
        let best = simulation.agents().best_agent().unwrap().y();
        assert!(simulation.agents().agents().iter().all(|car| car.y() >= best));
    }
    // somebody has crashed, and somebody has moved
    assert!(simulation.agents().agents().iter().any(|car| car.damaged()));
    assert!(simulation.focus_agent_y() < 100 * U);
}
