use simulation::ai::{feed_forward, Level, NeuralNetwork};
use simulation::env::{random_unit, unit_of, Lcg, RandomSource};
use simulation::fixed::ONE;

const HALF: i64 = 500_000;

struct Fixed(u64);

impl RandomSource for Fixed {
    fn next_raw(&mut self) -> u64 {
        self.0
    }
}

fn shape(network: &NeuralNetwork) -> Vec<(usize, usize, usize)> {
    network
        .levels()
        .iter()
        .map(|level| {
            assert!(level.weights().iter().all(|row| row.len() == level.outputs().len()));
            (level.weights().len(), level.outputs().len(), level.biases().len())
        })
        .collect()
}

fn parameters(network: &NeuralNetwork) -> Vec<i64> {
    let mut all = Vec::new();
    for level in network.levels() {
        all.extend(level.biases().iter().copied());
        for row in level.weights() {
            all.extend(row.iter().copied());
        }
    }
    all
}

#[test]
fn test_new_nn() {
    let mut rng = Lcg::new(1);
    let nn = NeuralNetwork::new(&[2, 2, 2], &mut rng);
    assert_eq!(nn.levels().len(), 2);

    let nn = NeuralNetwork::new(&[2, 2], &mut rng);
    assert_eq!(nn.levels().len(), 1);

    let nn = NeuralNetwork::new(&[2, 2, 2, 3], &mut rng);
    assert_eq!(nn.levels().len(), 3);
    assert_eq!(nn.depth(), 3);
}

#[test]
fn fewer_than_two_layers_give_no_level() {
    let mut rng = Lcg::new(1);
    assert_eq!(NeuralNetwork::new(&[], &mut rng).depth(), 0);
    assert_eq!(NeuralNetwork::new(&[5], &mut rng).depth(), 0);
}

#[test]
fn new_network_has_the_shapes_of_its_layers() {
    let mut rng = Lcg::new(7);
    let nn = NeuralNetwork::new(&[5, 6, 4], &mut rng);
    assert_eq!(shape(&nn), vec![(5, 6, 6), (6, 4, 4)]);
    assert_eq!(nn.levels()[0].inputs().len(), 5);
    assert_eq!(nn.levels()[1].inputs().len(), 6);
    assert!(parameters(&nn).iter().all(|p| -ONE <= *p && *p <= ONE));
    // the draws are not all alike
    let first = parameters(&nn)[0];
    assert!(parameters(&nn).iter().any(|p| *p != first));
}

#[test]
fn level_feed_forward_test() {
    let mut rng = Lcg::new(3);
    let mut level = Level::new(2, 2, &mut rng);
    level.feed_forward(&[ONE, 2 * ONE]);
    assert_eq!(level.inputs(), &vec![ONE, 2 * ONE]);
}

#[test]
fn a_short_signal_replaces_the_front_of_the_stored_inputs() {
    let mut rng = Lcg::new(3);
    let mut level = Level::new(3, 1, &mut rng);
    level.feed_forward(&[ONE, HALF, 250_000]);
    level.feed_forward(&[0]);
    assert_eq!(level.inputs(), &vec![0, HALF, 250_000]);
    level.feed_forward(&[1, 2, 3, 4, 5]);
    assert_eq!(level.inputs(), &vec![1, 2, 3]);
}

#[test]
fn activation_is_a_hard_step() {
    // two inputs, three outputs
    let weights = vec![vec![HALF, -HALF, ONE], vec![HALF, HALF, -ONE]];
    let biases = vec![-HALF, 0, 0];
    // inputs 1.0 and 0.5:
    //   output 0: 0.5 + 0.25 - 0.5 = 0.25 > 0
    //   output 1: -0.5 + 0.25 + 0 = -0.25
    //   output 2: 1.0 - 0.5 + 0 = 0.5 > 0
    assert_eq!(feed_forward(&[ONE, HALF], &weights, &biases), vec![ONE, 0, ONE]);
    // a sum of exactly zero does not fire
    assert_eq!(feed_forward(&[ONE, ONE], &weights, &biases), vec![ONE, 0, 0]);
    assert_eq!(feed_forward(&[0, 0], &weights, &biases), vec![0, 0, 0]);
}

#[test]
fn a_tiny_positive_sum_fires() {
    // 0.000001 * 0.000001 is below a millionth, and still positive
    assert_eq!(feed_forward(&[1], &[vec![1]], &[0]), vec![ONE]);
    assert_eq!(feed_forward(&[1], &[vec![-1]], &[0]), vec![0]);
}

#[test]
fn from_parts_checks_shape_and_range() {
    assert!(Level::from_parts(vec![0, 0], vec![vec![1, 2], vec![3, 4], vec![5, 6]]).is_some());
    assert!(Level::from_parts(vec![0, 0], vec![vec![1, 2], vec![3]]).is_none());
    assert!(Level::from_parts(vec![ONE + 1], vec![vec![1]]).is_none());
    assert!(Level::from_parts(vec![0], vec![vec![-ONE - 1]]).is_none());
    let level = Level::from_parts(vec![7, 8], vec![vec![1, 2], vec![3, 4], vec![5, 6]]).unwrap();
    assert_eq!(level.inputs(), &vec![0, 0, 0]);
    assert_eq!(level.outputs(), &vec![0, 0]);
    assert_eq!(level.biases(), &vec![7, 8]);
    assert_eq!(level.weights(), &vec![vec![1, 2], vec![3, 4], vec![5, 6]]);
}

#[test]
fn the_signal_is_piped_from_level_to_level() {
    // level 1: two inputs to two outputs; output 0 fires on input 0, output 1 never
    let first = Level::from_parts(vec![0, -ONE], vec![vec![ONE, 0], vec![0, 0]]).unwrap();
    // level 2: output 0 repeats its input 0, output 1 fires when input 0 does not
    let second = Level::from_parts(vec![0, HALF], vec![vec![ONE, -ONE], vec![0, 0]]).unwrap();
    let mut network = NeuralNetwork::from_levels(vec![first, second]);
    assert_eq!(network.feed_forward(vec![ONE, 0]), vec![ONE, 0]);
    assert_eq!(network.levels()[0].outputs(), &vec![ONE, 0]);
    assert_eq!(network.levels()[1].inputs(), &vec![ONE, 0]);
    assert_eq!(network.levels()[1].outputs(), &vec![ONE, 0]);
    assert_eq!(network.feed_forward(vec![0, ONE]), vec![0, ONE]);
    network.feed_forward_2(vec![ONE, ONE]);
    assert_eq!(network.levels()[1].outputs(), &vec![ONE, 0]);
}

#[test]
fn outputs_are_zero_or_one_and_as_many_as_the_last_layer() {
    let mut rng = Lcg::new(11);
    let mut network = NeuralNetwork::new(&[5, 6, 4], &mut rng);
    for seed in 0..50u64 {
        let mut inputs = Lcg::new(seed);
        let signal: Vec<i64> = (0..5).map(|_| random_unit(&mut inputs).abs()).collect();
        let outputs = network.feed_forward(signal);
        assert_eq!(outputs.len(), 4);
        assert!(outputs.iter().all(|o| *o == 0 || *o == ONE));
    }
}

#[test]
fn a_network_without_levels_hands_the_inputs_back() {
    let mut network = NeuralNetwork::from_levels(vec![]);
    assert_eq!(network.feed_forward(vec![1, 2, 3]), vec![1, 2, 3]);
}

#[test]
fn mutation_at_rate_zero_keeps_the_parent() {
    let mut rng = Lcg::new(5);
    let parent = NeuralNetwork::new(&[5, 6, 4], &mut rng);
    let child = parent.mutate(0, &mut rng);
    assert_eq!(parameters(&child), parameters(&parent));
    assert_eq!(shape(&child), shape(&parent));
}

#[test]
fn mutation_at_rate_one_takes_the_noise() {
    let mut rng = Lcg::new(5);
    let parent = NeuralNetwork::new(&[3, 2], &mut rng);
    // a source that always draws the same value: every parameter becomes it
    let mut constant = Fixed(1_250_000);
    let child = parent.mutate(ONE, &mut constant);
    assert_eq!(unit_of(1_250_000), 250_000);
    assert!(parameters(&child).iter().all(|p| *p == 250_000));
    assert_eq!(shape(&child), shape(&parent));
}

#[test]
fn mutation_blends_toward_the_noise() {
    let parent = NeuralNetwork::from_levels(vec![Level::from_parts(
        vec![0, ONE],
        vec![vec![-ONE, HALF]],
    )
    .unwrap()]);
    let mut constant = Fixed(2_000_000); // every draw is 1.0
    let child = parent.mutate(200_000, &mut constant);
    // lerp(p, 1.0, 0.2) = p + 0.2 * (1.0 - p)
    assert_eq!(child.levels()[0].biases(), &vec![200_000, ONE]);
    assert_eq!(child.levels()[0].weights(), &vec![vec![-600_000, 600_000]]);
    // the parent is left as it was
    assert_eq!(parent.levels()[0].biases(), &vec![0, ONE]);
}

#[test]
fn blend_of_two_networks() {
    let a = NeuralNetwork::from_levels(vec![Level::from_parts(vec![0], vec![vec![ONE]]).unwrap()]);
    let b = NeuralNetwork::from_levels(vec![Level::from_parts(vec![ONE], vec![vec![-ONE]]).unwrap()]);
    let mid = a.blend(&b, HALF);
    assert_eq!(parameters(&mid), vec![HALF, 0]);
    assert_eq!(parameters(&a.blend(&b, 0)), parameters(&a));
    assert_eq!(parameters(&a.blend(&b, ONE)), parameters(&b));
}

#[test]
fn duplicate_copies_everything() {
    let mut rng = Lcg::new(9);
    let mut network = NeuralNetwork::new(&[2, 3, 1], &mut rng);
    network.feed_forward(vec![ONE, 0]);
    let copy = network.duplicate();
    assert_eq!(parameters(&copy), parameters(&network));
    assert_eq!(copy.levels()[0].inputs(), network.levels()[0].inputs());
    assert_eq!(copy.levels()[1].outputs(), network.levels()[1].outputs());
}

#[test]
fn raw_draws_fold_onto_the_unit_range() {
    assert_eq!(unit_of(0), -ONE);
    assert_eq!(unit_of(1_000_000), 0);
    assert_eq!(unit_of(2_000_000), ONE);
    assert_eq!(unit_of(2_000_001), -ONE);
    assert_eq!(unit_of(u64::MAX), (u64::MAX % 2_000_001) as i64 - ONE);
}

#[test]
fn the_seeded_generator_repeats() {
    let mut a = Lcg::new(42);
    let mut b = Lcg::new(42);
    let first: Vec<u64> = (0..5).map(|_| a.next()).collect();
    let second: Vec<u64> = (0..5).map(|_| b.next_raw()).collect();
    assert_eq!(first, second);
    // one step from state 0: the increment, of which the upper half is handed out
    let mut zero = Lcg::new(0);
    assert_eq!(zero.next(), 1442695040888963407 >> 32);
    let mut one = Lcg::new(1);
    let expected = 6364136223846793005u64.wrapping_add(1442695040888963407);
    assert_eq!(one.next(), expected >> 32);
}

#[test]
fn inputs_beyond_one_are_weighed_as_they_are() {
    let weights = vec![vec![HALF, -ONE], vec![-ONE, ONE]];
    let biases = vec![0, -ONE];
    // 2.0 * 0.5 - 0.5 * 1.0 = 0.5 > 0; -2.0 + 0.5 - 1.0 < 0
    assert_eq!(feed_forward(&[2 * ONE, HALF], &weights, &biases), vec![ONE, 0]);
    // 3.0 * 0.5 - 1.5 = 0: a sum of exactly zero does not fire; -3.0 + 1.5 - 1.0 < 0
    assert_eq!(feed_forward(&[3 * ONE, 3 * HALF], &weights, &biases), vec![0, 0]);
    // the largest inputs there are
    let limit = 1_000_000_000_000;
    assert_eq!(feed_forward(&[limit, limit], &weights, &biases), vec![0, 0]);
    assert_eq!(feed_forward(&[limit, -limit], &weights, &biases), vec![ONE, 0]);
    assert_eq!(feed_forward(&[-limit, limit], &weights, &biases), vec![0, ONE]);
    let mut network = NeuralNetwork::from_levels(vec![Level::from_parts(biases, weights).unwrap()]);
    assert_eq!(network.feed_forward(vec![-limit, limit]), vec![0, ONE]);
    assert_eq!(network.levels()[0].inputs(), &vec![-limit, limit]);
}
