//! Forward evaluation of feed-forward networks over fixed-point scalars.
//!
//! Every scalar is a whole number of units of 10^-12. Signal sources yield
//! values of the unit interval; weights and biases are signed. A network is
//! built from layer sizes, its inputs are set, its caches are invalidated,
//! and its outputs are read; a reading computes what is not remembered and
//! remembers what it computes.
//!
//! The mutable state of a circuit (the cells of its constant sources and the
//! caches of its memoised nodes) lives in a [`Store`]. The nodes hold handles
//! into it, so that every copy of a node observes the same cell, and every
//! function that writes takes the store by exclusive reference: what a call
//! reads and what it leaves behind is stated in its contract.
//!
//! The module `forward` states what a network computes and proves that
//! memoisation does not change it.

pub mod cost;
pub mod fixed;
pub mod forward;
pub mod input;
pub mod layer;
pub mod network;
pub mod neuron;
pub mod perceptron;
pub mod store;
pub mod training_set;

pub use crate::cost::{CostFunction, Expected, Output, Pow2CostFunction};
pub use crate::fixed::{AtomicF64Between01, PreconditionViolation, CONVERSION_FACTOR};
pub use crate::input::{
    BinaryInput, BoxClone, BoxedInput, CachedInput, ConstantInput, Input, WeightedInput,
};
pub use crate::layer::Layer;
pub use crate::network::{Network, NetworkView};
pub use crate::neuron::{weighted_sum, DeviateSource, Neuron, NeuronInputStrategy, NeuronLike};
pub use crate::perceptron::{Perceptron, PerceptronStrategy};
pub use crate::store::{Store, StoreView};
pub use crate::training_set::{TrainingItem, TrainingItemIter, TrainingSetError};
