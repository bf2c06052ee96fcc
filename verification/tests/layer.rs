use neurons::{
    weighted_sum, ConstantInput, DeviateSource, Input, Layer, Neuron, NeuronInputStrategy,
    NeuronLike, PerceptronStrategy, Store, WeightedInput, CONVERSION_FACTOR,
};
use rand::Rng;
use rand_distr::StandardNormal;

const ONE: u64 = CONVERSION_FACTOR;

fn fixed(x: f64) -> u64 {
    (x * ONE as f64) as u64
}

/// Deviates of the standard normal distribution, in units of 10^-12.
struct Normal;

impl DeviateSource for Normal {
    fn next_deviate(&mut self) -> i64 {
        let x: f64 = rand::thread_rng().sample(StandardNormal);
        (x * ONE as f64) as i64
    }
}

/// Deviates that count up from 1.
struct Counting(i64);

impl DeviateSource for Counting {
    fn next_deviate(&mut self) -> i64 {
        self.0 += 1;
        self.0
    }
}

/// The logistic rule, computed in floating point.
#[derive(Clone)]
struct Logistic;

impl NeuronInputStrategy for Logistic {
    fn value(&self, inputs: &[WeightedInput], bias: i64, store: &mut Store) -> u64 {
        let z = weighted_sum(inputs, bias, store) as f64 / (ONE as f64 * ONE as f64);
        let y = 1.0 / (1.0 + std::f64::consts::E.powf(-z));
        ((y * ONE as f64) as u64).min(ONE)
    }
}

#[test]
fn layer_it_works_as_expected() {
    let mut store = Store::new();
    let input = Layer::new(vec![
        ConstantInput::new(&mut store, fixed(0.1)).unwrap(),
        ConstantInput::new(&mut store, fixed(0.3)).unwrap(),
        ConstantInput::new(&mut store, fixed(1.0)).unwrap(),
        ConstantInput::new(&mut store, fixed(0.75)).unwrap(),
        ConstantInput::new(&mut store, fixed(0.0)).unwrap(),
    ]);

    let mut hidden: Layer<Neuron<Logistic>> = Layer::<Neuron<Logistic>>::default_new(10, &Logistic, &mut Normal);
    hidden.connect(&input, &mut Normal);

    let mut output: Layer<Neuron<Logistic>> = Layer::<Neuron<Logistic>>::default_new(10, &Logistic, &mut Normal);
    output.connect(&hidden, &mut Normal);

    let value = output.get(0).unwrap().value(&mut store);
    assert!(value <= ONE);
    assert!(value as f64 / ONE as f64 >= 0.0);
}

#[test]
fn connect_adds_one_edge_per_pair() {
    let mut store = Store::new();
    let input = Layer::<ConstantInput>::default_new(4, &mut store);
    let mut hidden = Layer::<Neuron<PerceptronStrategy>>::default_new(3, &PerceptronStrategy, &mut Counting(0));
    hidden.connect(&input, &mut Counting(100));

    assert_eq!(hidden.len(), 3);
    let total: usize = hidden.iter().map(|n| n.inputs.len()).sum();
    assert_eq!(total, 4 * 3);
    for neuron in hidden.iter() {
        assert_eq!(neuron.inputs.len(), 4);
    }
    // The weights are the deviates in the order in which they were drawn:
    // neuron after neuron, source after source.
    let weights: Vec<i64> =
        hidden.iter().flat_map(|n| n.inputs.iter().map(|e| e.weight)).collect();
    assert_eq!(weights, (101..=112).collect::<Vec<i64>>());
    // The biases were drawn when the neurons were made.
    let biases: Vec<i64> = hidden.iter().map(|n| n.bias).collect();
    assert_eq!(biases, vec![1, 2, 3]);
}

#[test]
fn connect_twice_doubles_the_edges() {
    let mut store = Store::new();
    let input = Layer::<ConstantInput>::default_new(2, &mut store);
    let mut hidden = Layer::<Neuron<PerceptronStrategy>>::default_new(2, &PerceptronStrategy, &mut Counting(0));
    hidden.connect(&input, &mut Counting(0));
    hidden.connect(&input, &mut Counting(0));
    for neuron in hidden.iter() {
        assert_eq!(neuron.inputs.len(), 4);
    }
}

#[test]
fn edges_read_the_sources_in_order() {
    let mut store = Store::new();
    let input = Layer::new(vec![
        ConstantInput::new(&mut store, 3).unwrap(),
        ConstantInput::new(&mut store, 5).unwrap(),
    ]);
    let mut hidden = Layer::<Neuron<PerceptronStrategy>>::default_new(1, &PerceptronStrategy, &mut Counting(0));
    hidden.connect(&input, &mut Counting(9));
    let neuron = hidden.get(0).unwrap();
    assert_eq!(neuron.inputs[0].value(&mut store), 3 * 10);
    assert_eq!(neuron.inputs[1].value(&mut store), 5 * 11);
    // The edges see later writes to the cells of their sources.
    input.get(0).unwrap().replace_with(&mut store, 7).unwrap();
    assert_eq!(neuron.inputs[0].value(&mut store), 7 * 10);
}

#[test]
fn layer_holds_its_nodes_in_order() {
    let mut store = Store::new();
    let a = ConstantInput::new(&mut store, 1).unwrap();
    let b = ConstantInput::new(&mut store, 2).unwrap();
    let layer = Layer::new(vec![a, b]);
    assert_eq!(layer.len(), 2);
    assert_eq!(layer.get(0).unwrap().value(&mut store), 1);
    assert_eq!(layer.get(1).unwrap().value(&mut store), 2);
    assert!(layer.get(2).is_none());
    let cells: Vec<usize> = layer.iter().map(|c| c.cell).collect();
    assert_eq!(cells, vec![0, 1]);
}

#[test]
fn default_constants_hold_zero() {
    let mut store = Store::new();
    let layer = Layer::<ConstantInput>::default_new(3, &mut store);
    assert_eq!(layer.len(), 3);
    assert_eq!(store.cell_count(), 3);
    for node in layer.iter() {
        assert_eq!(node.value(&mut store), 0);
    }
    let empty = Layer::<ConstantInput>::default_new(0, &mut store);
    assert_eq!(empty.len(), 0);
    assert_eq!(store.cell_count(), 3);
}

#[test]
fn add_input_through_the_trait_appends() {
    let mut store = Store::new();
    let a = ConstantInput::new(&mut store, 4).unwrap();
    let mut neuron = Neuron::new(PerceptronStrategy, &mut Counting(0));
    NeuronLike::add_input(&mut neuron, &a, 6);
    NeuronLike::add_input(&mut neuron, &a, 7);
    assert_eq!(neuron.inputs.len(), 2);
    assert_eq!(neuron.inputs[0].weight, 6);
    assert_eq!(neuron.inputs[1].weight, 7);
    assert_eq!(neuron.bias, 1);
}

#[test]
fn logistic_neuron_is_one_half_at_zero_and_grows_with_its_net_input() {
    let mut store = Store::new();
    let biases: [i64; 9] = [-20, -5, -1, 0, 1, 2, 5, 10, 20];
    let values: Vec<u64> = biases
        .iter()
        .map(|b| {
            Neuron::new(Logistic, &mut Counting(0)).with_bias(b * ONE as i64).value(&mut store)
        })
        .collect();
    assert_eq!(values[3], ONE / 2);
    for pair in values.windows(2) {
        assert!(pair[0] < pair[1]);
    }
    for value in &values {
        assert!(*value > 0);
        assert!(*value < ONE);
    }
}
