use simulation::ai::agents::Focus;
use simulation::ai::{Level, NeuralNetwork};
use simulation::env::{Lcg, Trig};
use simulation::fixed::ONE;
use simulation::road::Road;
use simulation::{Config, Simulation, SimulationState};

const U: i64 = 1_000_000;

struct Math;

impl Trig for Math {
    fn sine_of(&self, angle: i64) -> i64 {
        self.sin_cos(angle).0
    }

    fn cosine_of(&self, angle: i64) -> i64 {
        self.sin_cos(angle).1
    }

    fn sin_cos(&self, angle: i64) -> (i64, i64) {
        let radians = angle as f64 / 1e6;
        ((radians.sin() * 1e6).round() as i64, (radians.cos() * 1e6).round() as i64)
    }
}

fn small() -> Config {
    let mut config = Config::default();
    config.set_cars_count(4);
    config
}

/// A saved network that holds the throttle down and does nothing else.
fn driver() -> NeuralNetwork {
    let first = Level::from_parts(vec![0; 6], vec![vec![0; 6]; 5]).unwrap();
    let second = Level::from_parts(vec![ONE, -ONE, -ONE, -ONE], vec![vec![0; 4]; 6]).unwrap();
    NeuralNetwork::from_levels(vec![first, second])
}

#[test]
fn a_new_simulation_is_stopped() {
    let mut rng = Lcg::new(1);
    let simulation = Simulation::init(&small(), None, &mut rng);
    assert_eq!(simulation.state(), SimulationState::Stopped);
    assert_eq!(simulation.traffic().len(), 0);
    assert_eq!(simulation.agents().agents().len(), 4);
    assert_eq!(simulation.config().cars_count(), 4);
    assert_eq!(simulation.focus_agent_y(), 100 * U);
    simulation.destroy();
}

#[test]
fn the_road_and_the_agents_follow_the_settings() {
    let mut rng = Lcg::new(1);
    let simulation = Simulation::init(&small(), None, &mut rng);
    let road = simulation.road();
    assert_eq!((road.x(), road.width(), road.lane_count()), (100 * U, 180 * U, 3));
    assert_eq!((road.left(), road.right()), (10 * U, 190 * U));
    assert_eq!((road.top(), road.bottom()), (-100_000 * U, 100_000 * U));
    assert_eq!(
        road.borders(),
        &[((10 * U, -100_000 * U), (10 * U, 100_000 * U)), ((190 * U, -100_000 * U), (190 * U, 100_000 * U))]
    );
    assert_eq!(road.boarders(), road.borders());
    let ids: Vec<usize> = simulation.agents().agents().iter().map(|car| car.id()).collect();
    assert_eq!(ids, vec![0, 1, 2, 3]);
    for car in simulation.agents().agents() {
        // the middle lane of three
        assert_eq!((car.x(), car.y()), (100 * U, 100 * U));
        assert_eq!((car.width(), car.height()), (30 * U, 50 * U));
        let sensor = car.sensor().unwrap();
        assert_eq!((sensor.ray_count(), sensor.ray_length()), (5, 120 * U));
        // half a turn divided by 2.0
        assert_eq!(sensor.ray_spread(), 1_570_796);
        let brain = car.brain().unwrap();
        assert_eq!(brain.depth(), 2);
        assert_eq!(brain.levels()[0].weights().len(), 5);
        assert_eq!(brain.levels()[0].biases().len(), 6);
        assert_eq!(brain.levels()[1].biases().len(), 4);
    }
}

#[test]
fn a_saved_network_is_carried_by_the_first_agent() {
    let mut rng = Lcg::new(1);
    let mut config = small();
    config.set_mutation_rate(0);
    let simulation = Simulation::init(&config, Some(driver()), &mut rng);
    let ids: Vec<usize> = simulation.agents().agents().iter().map(|car| car.id()).collect();
    assert_eq!(ids, vec![4, 0, 1, 2]);
    // at rate 0 every child is the parent
    for car in simulation.agents().agents() {
        assert_eq!(car.brain().unwrap().levels()[1].biases(), &vec![ONE, -ONE, -ONE, -ONE]);
    }
    config.set_mutation_rate(ONE);
    let simulation = Simulation::init(&config, Some(driver()), &mut rng);
    let agents = simulation.agents().agents();
    assert_eq!(agents[0].brain().unwrap().levels()[1].biases(), &vec![ONE, -ONE, -ONE, -ONE]);
    assert!(agents[1..].iter().all(|car| car.brain().unwrap().levels()[1].biases() != &vec![ONE, -ONE, -ONE, -ONE]));
}

#[test]
fn no_agents_for_a_count_of_zero() {
    let mut rng = Lcg::new(1);
    let mut config = small();
    config.set_cars_count(0);
    let mut simulation = Simulation::init(&config, Some(driver()), &mut rng);
    assert!(simulation.agents().agents().is_empty());
    simulation.run();
    simulation.step(&Math);
    assert_eq!(simulation.focus_agent_y(), 0);
    assert!(simulation.top_10_agents().is_empty());
}

#[test]
fn run_pause_and_stop() {
    let mut rng = Lcg::new(1);
    let mut simulation = Simulation::init(&small(), None, &mut rng);
    // a stopped simulation cannot be paused
    simulation.pause();
    assert_eq!(simulation.state(), SimulationState::Stopped);
    simulation.run();
    assert_eq!(simulation.state(), SimulationState::Running);
    simulation.pause();
    assert_eq!(simulation.state(), SimulationState::Paused);
    simulation.pause();
    assert_eq!(simulation.state(), SimulationState::Paused);
    simulation.run();
    assert_eq!(simulation.state(), SimulationState::Running);
    simulation.stop();
    assert_eq!(simulation.state(), SimulationState::Stopped);
    simulation.run();
    simulation.pause();
    simulation.stop();
    assert_eq!(simulation.state(), SimulationState::Stopped);
}

#[test]
fn only_a_running_simulation_steps() {
    let mut rng = Lcg::new(1);
    let mut config = small();
    config.set_mutation_rate(0);
    let mut simulation = Simulation::init(&config, Some(driver()), &mut rng);
    for _ in 0..3 {
        simulation.step(&Math);
    }
    assert_eq!(simulation.focus_agent_y(), 100 * U);
    assert!(simulation.agents().scores().is_empty());
    simulation.run();
    simulation.step(&Math);
    simulation.step(&Math);
    // the first step decides the throttle, the second moves
    assert_eq!(simulation.focus_agent_y(), 100 * U - 150_000);
    simulation.pause();
    simulation.step(&Math);
    assert_eq!(simulation.focus_agent_y(), 100 * U - 150_000);
    simulation.run();
    simulation.step(&Math);
    assert_eq!(simulation.focus_agent_y(), 100 * U - 450_000);
    simulation.stop();
    simulation.step(&Math);
    assert_eq!(simulation.focus_agent_y(), 100 * U - 450_000);
}

#[test]
fn focus_requests() {
    let mut rng = Lcg::new(1);
    let mut simulation = Simulation::init(&small(), None, &mut rng);
    assert!(simulation.focus_agent(2));
    assert_eq!(simulation.agents().focus(), Focus::SpecificAgent(2));
    assert!(!simulation.focus_agent(17));
    assert_eq!(simulation.agents().focus(), Focus::SpecificAgent(2));
    simulation.next_agent();
    assert_eq!(simulation.agents().focus(), Focus::SpecificAgent(3));
    simulation.next_agent();
    assert_eq!(simulation.agents().focus(), Focus::SpecificAgent(0));
    simulation.previous_agent();
    simulation.previous_agent();
    assert_eq!(simulation.agents().focus(), Focus::SpecificAgent(2));
    simulation.reset_focus();
    assert_eq!(simulation.agents().focus(), Focus::BestAgent);
}

#[test]
fn the_top_ten_are_ids_in_ranking_order() {
    let mut rng = Lcg::new(1);
    let mut config = small();
    config.set_cars_count(12);
    let mut simulation = Simulation::init(&config, None, &mut rng);
    assert!(simulation.top_10_agents().is_empty());
    simulation.run();
    simulation.step(&Math);
    // nobody has moved yet: all scores are equal and the lower ids come first
    assert_eq!(simulation.top_10_agents(), vec![0, 1, 2, 3, 4, 5, 6, 7, 8, 9]);
}

#[test]
fn new_settings_do_not_change_the_run() {
    let mut rng = Lcg::new(1);
    let mut simulation = Simulation::init(&small(), None, &mut rng);
    let mut config = Config::default();
    config.set_lanes_count(5);
    simulation.update_config(&config);
    assert_eq!(simulation.config().lanes_count(), 5);
    assert_eq!(simulation.config().cars_count(), 100);
    assert_eq!(simulation.road().lane_count(), 3);
    assert_eq!(simulation.agents().agents().len(), 4);
}

#[test]
fn lane_centers() {
    let road = Road::new(100 * U, 180 * U, 3);
    assert_eq!(road.lane_center(0), 40 * U);
    assert_eq!(road.lane_center(1), 100 * U);
    assert_eq!(road.lane_center(2), 160 * U);
    // an index outside the road means the nearest lane
    assert_eq!(road.lane_center(3), 160 * U);
    assert_eq!(road.lane_center(i32::MAX), 160 * U);
    assert_eq!(road.lane_center(-1), 40 * U);
    let single = Road::new(0, 10, 1);
    assert_eq!(single.lane_center(0), 0);
    // lanes of a width that does not divide evenly
    let uneven = Road::new(0, 10 * U, 4);
    assert_eq!(uneven.lane_center(0), -5 * U + 1_250_000);
    assert_eq!(uneven.lane_center(3), -5 * U + 1_250_000 + 7_500_000);
}

#[test]
fn traffic_left_behind_is_removed_before_it_moves() {
    let mut rng = Lcg::new(1);
    let mut config = small();
    config.set_mutation_rate(0);
    let mut simulation = Simulation::init(&config, Some(driver()), &mut rng);
    // beside the agents' lane, 500 ahead
    assert!(simulation.spawn_car(0));
    simulation.run();
    let mut steps = 0;
    while simulation.traffic().len() > 0 {
        let reference = simulation.focus_agent_y();
        let before = simulation.traffic().cars()[0].y();
        simulation.step(&Math);
        steps += 1;
        assert!(steps < 2000);
        if simulation.traffic().len() > 0 {
            // kept: it was less than the margin behind, and has had its tick
            assert!(before.abs() > reference.abs() - 500 * U);
            assert!(simulation.traffic().cars()[0].y() < before);
        } else {
            assert!(before.abs() <= reference.abs() - 500 * U);
        }
    }
    // the agents gain one unit a tick on the traffic: 500 to catch up, 500 to leave it behind
    assert!(steps > 900);
    assert!(simulation.agents().agents().iter().all(|car| !car.damaged()));
}
