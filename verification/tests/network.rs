use neurons::{
    weighted_sum, DeviateSource, Network, NeuronInputStrategy, PerceptronStrategy,
    PreconditionViolation, Store, WeightedInput, CONVERSION_FACTOR,
};
use rand::Rng;
use rand_distr::StandardNormal;

const ONE: u64 = CONVERSION_FACTOR;

fn fixed(x: f64) -> u64 {
    (x * ONE as f64) as u64
}

/// Deviates of the standard normal distribution, in units of 10^-12.
struct Normal;

impl DeviateSource for Normal {
    fn next_deviate(&mut self) -> i64 {
        let x: f64 = rand::thread_rng().sample(StandardNormal);
        (x * ONE as f64) as i64
    }
}

/// The same deviate again and again.
struct Always(i64);

impl DeviateSource for Always {
    fn next_deviate(&mut self) -> i64 {
        self.0
    }
}

/// Counts the deviates that it hands out; all are zero.
struct Counter(usize);

impl DeviateSource for Counter {
    fn next_deviate(&mut self) -> i64 {
        self.0 += 1;
        0
    }
}

/// The logistic rule, computed in floating point.
#[derive(Clone)]
struct Logistic;

impl NeuronInputStrategy for Logistic {
    fn value(&self, inputs: &[WeightedInput], bias: i64, store: &mut Store) -> u64 {
        let z = weighted_sum(inputs, bias, store) as f64 / (ONE as f64 * ONE as f64);
        let y = 1.0 / (1.0 + std::f64::consts::E.powf(-z));
        ((y * ONE as f64) as u64).min(ONE)
    }
}

#[test]
fn network_it_works_as_expected() {
    let mut network = Network::new(vec![2, 3, 1], Logistic, &mut Normal).unwrap();
    assert_eq!(network.input().len(), 2);

    assert_eq!(network.hidden().len(), 1);
    assert_eq!(network.hidden()[0].len(), 3);

    assert_eq!(network.output().len(), 1);

    network.set_input(vec![fixed(0.0), fixed(1.0)]).unwrap();

    let output_values = network.output_values();
    assert_eq!(output_values.len(), 1);
}

#[test]
fn logistic_output_lies_strictly_between_zero_and_one() {
    let mut network = Network::new(vec![2, 3, 1], Logistic, &mut Normal).unwrap();
    network.set_input(vec![fixed(0.0), fixed(1.0)]).unwrap();
    network.dirty();
    let output_values = network.output_values();
    assert_eq!(output_values.len(), 1);
    assert!(output_values[0] > 0);
    assert!(output_values[0] < ONE);
}

#[test]
fn fewer_than_three_sizes_are_rejected() {
    for sizes in [vec![], vec![4], vec![4, 2]] {
        assert_eq!(
            Network::new(sizes, PerceptronStrategy, &mut Always(0)).err(),
            Some(PreconditionViolation::TooFewLayers)
        );
    }
    assert!(Network::new(vec![4, 2, 1], PerceptronStrategy, &mut Always(0)).is_ok());
}

#[test]
fn layers_have_the_sizes_asked_for() {
    let network = Network::new(vec![4, 3, 5, 2], PerceptronStrategy, &mut Always(1)).unwrap();
    assert_eq!(network.input().len(), 4);
    assert_eq!(network.hidden().len(), 2);
    assert_eq!(network.hidden()[0].len(), 3);
    assert_eq!(network.hidden()[1].len(), 5);
    assert_eq!(network.output().len(), 2);
    assert_eq!(network.store().cell_count(), 4);
    assert_eq!(network.store().cache_count(), 3 + 5 + 2);
}

#[test]
fn each_layer_is_wired_to_the_one_before() {
    let network = Network::new(vec![4, 3, 5, 2], PerceptronStrategy, &mut Always(1)).unwrap();
    for node in network.hidden()[0].iter() {
        assert_eq!(node.input.inputs.len(), 4);
    }
    for node in network.hidden()[1].iter() {
        assert_eq!(node.input.inputs.len(), 3);
    }
    for node in network.output().iter() {
        assert_eq!(node.input.inputs.len(), 5);
    }
    let edges: usize = network.hidden()[0].iter().map(|n| n.input.inputs.len()).sum();
    assert_eq!(edges, 4 * 3);
}

#[test]
fn one_deviate_is_drawn_per_bias_and_per_edge() {
    let mut counter = Counter(0);
    Network::new(vec![4, 3, 5, 2], PerceptronStrategy, &mut counter).unwrap();
    assert_eq!(counter.0, (3 + 5 + 2) + (4 * 3 + 3 * 5 + 5 * 2));
}

#[test]
fn caches_are_numbered_layer_after_layer() {
    let network = Network::new(vec![1, 2, 3, 1], PerceptronStrategy, &mut Always(1)).unwrap();
    let slots: Vec<usize> = network
        .hidden()
        .iter()
        .flat_map(|layer| layer.iter().map(|n| n.slot))
        .chain(network.output().iter().map(|n| n.slot))
        .collect();
    assert_eq!(slots, vec![0, 1, 2, 3, 4, 5]);
    let cells: Vec<usize> = network.input().iter().map(|c| c.cell).collect();
    assert_eq!(cells, vec![0]);
}

#[test]
fn inputs_start_at_zero_and_caches_invalid() {
    let network = Network::new(vec![2, 2, 1], PerceptronStrategy, &mut Always(1)).unwrap();
    assert_eq!(network.store().cell(0), 0);
    assert_eq!(network.store().cell(1), 0);
    for slot in 0..3 {
        assert_eq!(network.store().cached(slot), None);
    }
}

#[test]
fn set_input_writes_by_position() {
    let mut network = Network::new(vec![3, 1, 1], PerceptronStrategy, &mut Always(1)).unwrap();
    network.set_input(vec![1, 2, 3]).unwrap();
    assert_eq!(network.store().cell(0), 1);
    assert_eq!(network.store().cell(1), 2);
    assert_eq!(network.store().cell(2), 3);
}

#[test]
fn set_input_rejects_a_wrong_length() {
    let mut network = Network::new(vec![2, 1, 1], PerceptronStrategy, &mut Always(1)).unwrap();
    network.set_input(vec![5, 6]).unwrap();
    assert_eq!(network.set_input(vec![7]), Err(PreconditionViolation::LengthMismatch));
    assert_eq!(network.set_input(vec![7, 8, 9]), Err(PreconditionViolation::LengthMismatch));
    assert_eq!(network.set_input(vec![]), Err(PreconditionViolation::LengthMismatch));
    assert_eq!(
        network.set_input(vec![ONE + 1]),
        Err(PreconditionViolation::LengthMismatch)
    );
    assert_eq!(network.store().cell(0), 5);
    assert_eq!(network.store().cell(1), 6);
}

#[test]
fn set_input_rejects_out_of_range_and_writes_nothing() {
    let mut network = Network::new(vec![3, 1, 1], PerceptronStrategy, &mut Always(1)).unwrap();
    network.set_input(vec![1, 2, 3]).unwrap();
    assert_eq!(
        network.set_input(vec![9, 9, ONE + 1]),
        Err(PreconditionViolation::OutOfRange)
    );
    assert_eq!(network.store().cell(0), 1);
    assert_eq!(network.store().cell(1), 2);
    assert_eq!(network.store().cell(2), 3);
}

#[test]
fn outputs_follow_weights_and_biases() {
    // All weights and biases are zero: no net input is above zero, nothing
    // fires.
    let mut network = Network::new(vec![2, 2, 1], PerceptronStrategy, &mut Always(0)).unwrap();
    assert_eq!(network.output_values(), vec![0]);

    // All weights and biases are 1: every net input is at least the bias,
    // every neuron fires.
    let one = ONE as i64;
    let mut network = Network::new(vec![2, 2, 1], PerceptronStrategy, &mut Always(one)).unwrap();
    assert_eq!(network.output_values(), vec![ONE]);

    // All weights and biases are -1: nothing fires.
    let mut network = Network::new(vec![2, 2, 1], PerceptronStrategy, &mut Always(-one)).unwrap();
    network.set_input(vec![ONE, ONE]).unwrap();
    assert_eq!(network.output_values(), vec![0]);
}

/// Hands out the deviates of a list, then zeros.
struct Listed(Vec<i64>, usize);

impl DeviateSource for Listed {
    fn next_deviate(&mut self) -> i64 {
        let next = self.0.get(self.1).copied().unwrap_or(0);
        self.1 += 1;
        next
    }
}

#[test]
fn stale_outputs_are_recomputed_after_dirty() {
    // One input, one hidden neuron, one output neuron. The deviates are
    // drawn in this order: hidden bias, hidden weight, output bias, output
    // weight. With bias 0 and weight 1 throughout, the output follows the
    // input: it fires where the input is above zero.
    let one = ONE as i64;
    let mut deviates = Listed(vec![0, one, 0, one], 0);
    let mut network = Network::new(vec![1, 1, 1], PerceptronStrategy, &mut deviates).unwrap();
    assert_eq!(deviates.1, 4);

    assert_eq!(network.output_values(), vec![0]);
    network.set_input(vec![ONE]).unwrap();
    // Without dirty the output is what it was.
    assert_eq!(network.output_values(), vec![0]);
    network.dirty();
    assert_eq!(network.output_values(), vec![ONE]);
    // And it stays so when the input goes back.
    network.set_input(vec![0]).unwrap();
    assert_eq!(network.output_values(), vec![ONE]);
    network.dirty();
    assert_eq!(network.output_values(), vec![0]);
}

#[test]
fn network_computes_exclusive_or() {
    // First hidden neuron: a or b. Second hidden neuron: not both. Output:
    // both hidden neurons. The deviates are drawn in this order: the biases
    // of a layer, then its weights, neuron after neuron.
    let one = ONE as i64;
    let half = one / 2;
    let mut deviates = Listed(
        vec![-half, one + half, one, one, -one, -one, -(one + half), one, one],
        0,
    );
    let mut network = Network::new(vec![2, 2, 1], PerceptronStrategy, &mut deviates).unwrap();
    assert_eq!(deviates.1, 9);
    for (a, b, expected) in [(0, 0, 0), (0, 1, 1), (1, 0, 1), (1, 1, 0)] {
        network.set_input(vec![a * ONE, b * ONE]).unwrap();
        network.dirty();
        assert_eq!(network.output_values(), vec![expected * ONE]);
    }
}

#[test]
fn reading_the_outputs_fills_the_caches_on_the_way() {
    let mut network = Network::new(vec![2, 3, 2], PerceptronStrategy, &mut Always(1)).unwrap();
    network.output_values();
    for slot in 0..5 {
        assert!(network.store().cached(slot).is_some());
    }
    network.dirty();
    for slot in 0..5 {
        assert_eq!(network.store().cached(slot), None);
    }
}

#[test]
fn layers_may_be_empty() {
    let mut network = Network::new(vec![0, 0, 0], PerceptronStrategy, &mut Always(1)).unwrap();
    assert_eq!(network.input().len(), 0);
    assert_eq!(network.output().len(), 0);
    assert_eq!(network.set_input(vec![]), Ok(()));
    network.dirty();
    assert_eq!(network.output_values(), Vec::<u64>::new());
}
