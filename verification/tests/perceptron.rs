use neurons::{
    BoxClone, ConstantInput, DeviateSource, Input, Neuron, Perceptron, PerceptronStrategy, Store,
    CONVERSION_FACTOR,
};

const ONE: u64 = CONVERSION_FACTOR;

/// A source of deviates that are all zero.
struct Zeros;

impl DeviateSource for Zeros {
    fn next_deviate(&mut self) -> i64 {
        0
    }
}

fn units(x: i64) -> i64 {
    x * ONE as i64
}

fn nand<A: BoxClone, B: BoxClone>(a: &A, b: &B) -> Perceptron {
    Neuron::new(PerceptronStrategy, &mut Zeros)
        .with_bias(units(3))
        .and_input(a, units(-2))
        .and_input(b, units(-2))
}

#[test]
fn nand_perceptron_works() {
    let mut store = Store::new();
    let in_0 = ConstantInput::new(&mut store, 0).unwrap();
    let in_1 = ConstantInput::new(&mut store, ONE).unwrap();

    assert_eq!(nand(&in_0, &in_0).value(&mut store), ONE);
    assert_eq!(nand(&in_0, &in_1).value(&mut store), ONE);
    assert_eq!(nand(&in_1, &in_0).value(&mut store), ONE);
    assert_eq!(nand(&in_1, &in_1).value(&mut store), 0);
}

struct AddCircuit {
    input_0: ConstantInput,
    input_1: ConstantInput,
    sum: Perceptron,
    carry: Perceptron,
}

impl AddCircuit {
    fn set_inputs(&self, store: &mut Store, input_0: u64, input_1: u64) {
        self.input_0.replace_with(store, input_0 * ONE).unwrap();
        self.input_1.replace_with(store, input_1 * ONE).unwrap();
    }
}

#[test]
fn add_circuit_works() {
    let mut store = Store::new();
    let c = {
        // i0        a0
        //      mid         sum
        // i1        a1
        //         carry
        let input_0 = ConstantInput::new(&mut store, 0).unwrap();
        let input_1 = ConstantInput::new(&mut store, 0).unwrap();
        let mid = nand(&input_0, &input_1);
        let a0 = nand(&input_0, &mid);
        let a1 = nand(&input_1, &mid);
        let sum = nand(&a0, &a1);
        let carry = nand(&mid, &mid);
        AddCircuit { input_0, input_1, sum, carry }
    };

    c.set_inputs(&mut store, 0, 0);
    assert_eq!(c.sum.value(&mut store), 0);
    assert_eq!(c.carry.value(&mut store), 0);

    c.set_inputs(&mut store, 1, 0);
    assert_eq!(c.sum.value(&mut store), ONE);
    assert_eq!(c.carry.value(&mut store), 0);

    c.set_inputs(&mut store, 0, 1);
    assert_eq!(c.sum.value(&mut store), ONE);
    assert_eq!(c.carry.value(&mut store), 0);

    c.set_inputs(&mut store, 1, 1);
    assert_eq!(c.sum.value(&mut store), 0);
    assert_eq!(c.carry.value(&mut store), ONE);
}

#[test]
fn step_is_zero_at_zero_net_input() {
    let mut store = Store::new();
    let half = ConstantInput::new(&mut store, ONE / 2).unwrap();
    // 0.5 * 2 - 1 = 0: the boundary belongs to 0.
    let at_zero = Neuron::new(PerceptronStrategy, &mut Zeros)
        .with_bias(units(-1))
        .and_input(&half, units(2));
    assert_eq!(at_zero.value(&mut store), 0);
    // One unit of 10^-12 above the boundary.
    let above = Neuron::new(PerceptronStrategy, &mut Zeros)
        .with_bias(units(-1) + 1)
        .and_input(&half, units(2));
    assert_eq!(above.value(&mut store), ONE);
    // One unit below.
    let below = Neuron::new(PerceptronStrategy, &mut Zeros)
        .with_bias(units(-1) - 1)
        .and_input(&half, units(2));
    assert_eq!(below.value(&mut store), 0);
}

#[test]
fn neuron_without_inputs_follows_its_bias() {
    let mut store = Store::new();
    let positive: Perceptron = Neuron::new(PerceptronStrategy, &mut Zeros).with_bias(1);
    let zero: Perceptron = Neuron::new(PerceptronStrategy, &mut Zeros);
    let negative: Perceptron = Neuron::new(PerceptronStrategy, &mut Zeros).with_bias(-1);
    assert_eq!(positive.value(&mut store), ONE);
    assert_eq!(zero.value(&mut store), 0);
    assert_eq!(negative.value(&mut store), 0);
}

#[test]
fn inputs_can_be_added_after_a_reading() {
    let mut store = Store::new();
    let one = ConstantInput::new(&mut store, ONE).unwrap();
    let mut neuron: Perceptron = Neuron::new(PerceptronStrategy, &mut Zeros).with_bias(units(1));
    assert_eq!(neuron.value(&mut store), ONE);
    neuron.add_input(&one, units(-2));
    assert_eq!(neuron.value(&mut store), 0);
    neuron.add_input(&one, units(3));
    assert_eq!(neuron.value(&mut store), ONE);
    assert_eq!(neuron.inputs.len(), 2);
}

#[test]
fn a_neuron_reads_another_through_its_copy() {
    let mut store = Store::new();
    let a = ConstantInput::new(&mut store, 0).unwrap();
    let not_a = Neuron::new(PerceptronStrategy, &mut Zeros)
        .with_bias(units(1))
        .and_input(&a, units(-2));
    let mut again = Neuron::new(PerceptronStrategy, &mut Zeros).and_input(&not_a, units(1));
    assert_eq!(again.value(&mut store), ONE);
    a.replace_with(&mut store, ONE).unwrap();
    assert_eq!(again.value(&mut store), 0);
    // The edge holds a copy of the neuron as it was when the edge was made.
    let mut not_a = not_a;
    not_a.bias = units(5);
    assert_eq!(not_a.value(&mut store), ONE);
    assert_eq!(again.value(&mut store), 0);
    again.bias = 1;
    assert_eq!(again.value(&mut store), ONE);
}
