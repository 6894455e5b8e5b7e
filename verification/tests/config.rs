use simulation::config::{parse_counts, Config};
use simulation::fixed::ONE;

#[test]
fn defaults() {
    let config = Config::default();
    assert_eq!(config.lanes_count(), 3);
    assert_eq!(config.lane_index(), 1);
    assert_eq!(config.cars_count(), 100);
    assert_eq!(config.rays_count(), 5);
    assert_eq!(config.rays_length(), 120_000_000);
    assert_eq!(config.rays_spread(), 2_000_000);
    assert_eq!(config.hidden_layer_sizes(), &vec![6]);
    assert_eq!(config.mutation_rate(), 200_000);
    assert_eq!(config.neurons_counts(), vec![5, 6, 4]);
}

#[test]
fn layer_sizes_are_read_from_text() {
    assert_eq!(parse_counts(b"6"), vec![6]);
    assert_eq!(parse_counts(b"6,4"), vec![6, 4]);
    assert_eq!(parse_counts(b"1,2,3"), vec![1, 2, 3]);
    assert_eq!(parse_counts(b"+7,007,0"), vec![7, 7, 0]);
    assert_eq!(parse_counts(b"18446744073709551615"), vec![usize::MAX]);
}

#[test]
fn pieces_that_spell_no_size_are_passed_over() {
    assert_eq!(parse_counts(b""), vec![]);
    assert_eq!(parse_counts(b","), vec![]);
    assert_eq!(parse_counts(b"a,b"), vec![]);
    assert_eq!(parse_counts(b"6,,4,"), vec![6, 4]);
    assert_eq!(parse_counts(b"6, 4"), vec![6]);
    assert_eq!(parse_counts(b"-1,2"), vec![2]);
    assert_eq!(parse_counts(b"+,++1,1+,3"), vec![3]);
    assert_eq!(parse_counts(b"1.5,2e3,0x10,9"), vec![9]);
    assert_eq!(parse_counts(b"18446744073709551616,5"), vec![5]);
    assert_eq!(parse_counts(b"99999999999999999999999999,5"), vec![5]);
    assert_eq!(parse_counts("６,4".as_bytes()), vec![4]);
}

#[test]
fn text_without_a_size_leaves_the_layers_as_they_were() {
    let mut config = Config::default();
    assert!(config.parse_and_set_hidden_layers("8,3"));
    assert_eq!(config.hidden_layer_sizes(), &vec![8, 3]);
    assert!(!config.parse_and_set_hidden_layers("none"));
    assert_eq!(config.hidden_layer_sizes(), &vec![8, 3]);
    assert!(!config.parse_and_set_hidden_layers(""));
    assert_eq!(config.hidden_layer_sizes(), &vec![8, 3]);
    assert_eq!(config.neurons_counts(), vec![5, 8, 3, 4]);
    config.set_hidden_layers(vec![]);
    assert_eq!(config.neurons_counts(), vec![5, 4]);
}

#[test]
fn setters_refuse_what_no_simulation_can_be_built_from() {
    let mut config = Config::default();
    assert!(!config.set_lanes_count(0));
    assert_eq!(config.lanes_count(), 3);
    assert!(config.set_lanes_count(5));
    assert_eq!(config.lanes_count(), 5);
    assert!(!config.set_lanes_count(0x8000_0000));

    assert!(config.set_rays_count(0));
    assert!(config.set_rays_count(9));
    assert!(!config.set_rays_count(0x8000_0000));
    assert_eq!(config.rays_count(), 9);

    assert!(!config.set_rays_length(-1));
    assert!(config.set_rays_length(0));
    assert!(config.set_rays_length(1_000_000_000_000));
    assert!(!config.set_rays_length(1_000_000_000_001));
    assert_eq!(config.rays_length(), 1_000_000_000_000);

    assert!(!config.set_rays_spread(0));
    assert!(!config.set_rays_spread(-2_000_000));
    assert!(config.set_rays_spread(1));
    assert_eq!(config.rays_spread(), 1);

    assert!(!config.set_mutation_rate(-1));
    assert!(!config.set_mutation_rate(ONE + 1));
    assert!(config.set_mutation_rate(0));
    assert!(config.set_mutation_rate(ONE));
    assert_eq!(config.mutation_rate(), ONE);

    config.set_lane_index(7);
    config.set_cars_count(0);
    assert_eq!((config.lane_index(), config.cars_count()), (7, 0));
}

#[test]
fn new_checks_the_settings() {
    assert!(Config::new(3, 1, 100, 5, 120_000_000, 2_000_000, vec![6], 200_000).is_some());
    assert!(Config::new(0, 1, 100, 5, 120_000_000, 2_000_000, vec![6], 200_000).is_none());
    assert!(Config::new(3, 1, 100, 5, -1, 2_000_000, vec![6], 200_000).is_none());
    assert!(Config::new(3, 1, 100, 5, 120_000_000, 0, vec![6], 200_000).is_none());
    assert!(Config::new(3, 1, 100, 5, 120_000_000, 2_000_000, vec![6], ONE + 1).is_none());
    let config = Config::new(2, 0, 10, 3, 50_000_000, 4_000_000, vec![], 0).unwrap();
    assert_eq!(config.neurons_counts(), vec![3, 4]);
    let copy = config.duplicate();
    assert_eq!(copy.lanes_count(), 2);
    assert_eq!(copy.hidden_layer_sizes(), config.hidden_layer_sizes());
}
