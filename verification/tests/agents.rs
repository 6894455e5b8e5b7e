use simulation::ai::agents::{Agents, Focus};
use simulation::ai::{Level, NeuralNetwork};
use simulation::car::Car;
use simulation::env::{Lcg, Trig};
use simulation::fixed::ONE;
use simulation::road::Road;
use simulation::sensors::Sensor;
use simulation::traffic::Traffic;

const U: i64 = 1_000_000;

struct Math;

impl Trig for Math {
    fn sine_of(&self, angle: i64) -> i64 {
        self.sin_cos(angle).0
    }

    fn cosine_of(&self, angle: i64) -> i64 {
        self.sin_cos(angle).1
    }

    fn sin_cos(&self, angle: i64) -> (i64, i64) {
        let radians = angle as f64 / 1e6;
        ((radians.sin() * 1e6).round() as i64, (radians.cos() * 1e6).round() as i64)
    }
}

fn road() -> Road {
    Road::new(50 * U, 100 * U, 3)
}

fn idle_brain() -> NeuralNetwork {
    NeuralNetwork::from_levels(vec![Level::from_parts(vec![-ONE; 4], vec![vec![0; 4]; 3]).unwrap()])
}

fn driving_brain() -> NeuralNetwork {
    NeuralNetwork::from_levels(vec![Level::from_parts(vec![ONE, -ONE, -ONE, -ONE], vec![vec![0; 4]; 3]).unwrap()])
}

fn agent(id: usize, y: i64, brain: NeuralNetwork) -> Car {
    let mut rng = Lcg::new(1);
    Car::with_brain(id, 50 * U, y, 30 * U, 50 * U, Sensor::new(3, 120 * U, 1_570_796), &[3, 4], Some(brain), &mut rng)
}

/// Agents that stay where they are, with the given ids and positions.
fn parked(places: &[(usize, i64)]) -> Agents {
    Agents::new(places.iter().map(|(id, y)| agent(*id, *y, idle_brain())).collect())
}

fn tick(agents: &mut Agents) {
    agents.update(&road(), &Traffic::new(), &Math);
}

#[test]
fn a_new_population_follows_its_first_agent() {
    let agents = parked(&[(10, 0), (11, -5 * U)]);
    assert_eq!(agents.best_agent_index(), 0);
    assert_eq!(agents.best_agent().map(|car| car.id()), Some(10));
    assert_eq!(agents.focused_agent().map(|car| car.id()), Some(10));
    assert_eq!(agents.focus(), Focus::BestAgent);
    assert!(agents.scores().is_empty());
    assert!(agents.n_best(10).is_empty());
    assert!(agents.nth_best(0).is_none());
    assert_eq!(Focus::default(), Focus::BestAgent);
}

#[test]
fn an_empty_population() {
    let mut agents = Agents::new(vec![]);
    assert!(agents.best_agent().is_none());
    assert!(agents.focused_agent().is_none());
    tick(&mut agents);
    assert_eq!(agents.best_agent_index(), 0);
    agents.focus_next();
    agents.focus_previous();
    assert_eq!(agents.focus(), Focus::BestAgent);
    assert!(!agents.focus_agent(0));
    let mut traffic = Traffic::new();
    traffic.add_car(0, 0, 0);
    agents.clean(&mut traffic);
    assert_eq!(traffic.len(), 1);
}

#[test]
fn best_is_the_highest_score() {
    // the road runs toward negative y: the score is -y
    let mut agents = parked(&[(10, 3 * U), (11, -7 * U), (12, -2 * U), (13, -7 * U)]);
    tick(&mut agents);
    assert_eq!(agents.best_agent_index(), 1);
    assert_eq!(agents.best_agent().map(|car| car.id()), Some(11));
    assert_eq!(agents.scores(), &[(10, -3 * U), (11, 7 * U), (12, 2 * U), (13, 7 * U)]);
}

#[test]
fn best_is_found_among_scores_below_zero() {
    let mut agents = parked(&[(10, 30 * U), (11, 20 * U), (12, 25 * U)]);
    tick(&mut agents);
    assert_eq!(agents.best_agent_index(), 1);
}

#[test]
fn ties_keep_the_first() {
    let mut agents = parked(&[(10, -U), (11, -U), (12, -U)]);
    tick(&mut agents);
    assert_eq!(agents.best_agent_index(), 0);
}

#[test]
fn best_follows_the_agents_as_they_move() {
    let mut agents = Agents::new(vec![agent(1, -U, idle_brain()), agent(2, 0, driving_brain())]);
    tick(&mut agents);
    assert_eq!(agents.best_agent_index(), 0);
    // the second agent drives: 0.15, 0.45, 0.9, 1.5 up the road
    for _ in 0..3 {
        tick(&mut agents);
    }
    assert_eq!(agents.best_agent_index(), 0);
    tick(&mut agents);
    assert_eq!(agents.best_agent_index(), 1);
    assert_eq!(agents.scores(), &[(1, U), (2, 1_500_000)]);
    assert_eq!(agents.focused_agent().map(|car| car.id()), Some(2));
}

#[test]
fn ranking_is_by_score_then_by_id() {
    let mut agents = parked(&[(40, -3 * U), (10, -7 * U), (30, -3 * U), (20, -9 * U), (50, 0)]);
    tick(&mut agents);
    assert_eq!(
        agents.n_best(10),
        vec![(20, 9 * U), (10, 7 * U), (30, 3 * U), (40, 3 * U), (50, 0)]
    );
    assert_eq!(agents.n_best(2), vec![(20, 9 * U), (10, 7 * U)]);
    assert_eq!(agents.n_best(3), vec![(20, 9 * U), (10, 7 * U), (30, 3 * U)]);
    assert!(agents.n_best(0).is_empty());
    assert_eq!(agents.nth_best(0).map(|car| car.id()), Some(20));
    assert_eq!(agents.nth_best(2).map(|car| car.id()), Some(30));
    assert_eq!(agents.nth_best(3).map(|car| car.id()), Some(40));
    assert_eq!(agents.nth_best(4).map(|car| car.id()), Some(50));
    assert!(agents.nth_best(5).is_none());
    assert!(agents.nth_best(usize::MAX).is_none());
}

#[test]
fn scores_are_kept_by_id() {
    // two agents with one id share a row: the later one's score is kept
    let mut agents = parked(&[(7, -U), (8, -2 * U), (7, -5 * U)]);
    tick(&mut agents);
    assert_eq!(agents.scores(), &[(7, 5 * U), (8, 2 * U)]);
    assert_eq!(agents.best_agent_index(), 2);
}

#[test]
fn focus_steps_round_the_population() {
    let mut agents = parked(&[(10, 0), (11, -5 * U), (12, -2 * U)]);
    tick(&mut agents);
    assert_eq!(agents.best_agent_index(), 1);
    // the first step is taken from the best agent
    agents.focus_next();
    assert_eq!(agents.focus(), Focus::SpecificAgent(12));
    assert_eq!(agents.focused_agent().map(|car| car.id()), Some(12));
    agents.focus_next();
    assert_eq!(agents.focus(), Focus::SpecificAgent(10));
    agents.focus_next();
    assert_eq!(agents.focus(), Focus::SpecificAgent(11));
    agents.focus_previous();
    assert_eq!(agents.focus(), Focus::SpecificAgent(10));
    agents.focus_previous();
    assert_eq!(agents.focus(), Focus::SpecificAgent(12));
    agents.focus_best_agent();
    assert_eq!(agents.focus(), Focus::BestAgent);
    agents.focus_previous();
    assert_eq!(agents.focus(), Focus::SpecificAgent(10));
}

#[test]
fn a_pinned_focus_stays_when_another_agent_is_best() {
    let mut agents = Agents::new(vec![agent(1, 0, driving_brain()), agent(2, -U, idle_brain())]);
    assert!(agents.focus_agent(2));
    for _ in 0..6 {
        tick(&mut agents);
    }
    assert_eq!(agents.best_agent().map(|car| car.id()), Some(1));
    assert_eq!(agents.focused_agent().map(|car| car.id()), Some(2));
}

#[test]
fn focusing_an_unknown_agent_changes_nothing() {
    let mut agents = parked(&[(10, 0), (11, -5 * U)]);
    assert!(agents.focus_agent(11));
    assert_eq!(agents.focus(), Focus::SpecificAgent(11));
    assert!(!agents.focus_agent(99));
    assert_eq!(agents.focus(), Focus::SpecificAgent(11));
    agents.focus_best_agent();
    assert!(!agents.focus_agent(99));
    assert_eq!(agents.focus(), Focus::BestAgent);
}

#[test]
fn clean_uses_the_best_agent_as_reference() {
    let mut agents = parked(&[(10, 0), (11, -1000 * U)]);
    tick(&mut agents);
    let mut traffic = Traffic::new();
    traffic.add_car(0, -400 * U, 0);
    traffic.add_car(0, -600 * U, 0);
    agents.clean(&mut traffic);
    let left: Vec<i64> = traffic.cars().iter().map(|car| car.y()).collect();
    assert_eq!(left, vec![-600 * U]);
}
