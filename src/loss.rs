//! The loss functions a model can be compiled with.
use vstd::prelude::*;

verus! {

/// Mean squared error.
#[derive(Debug, Clone, Copy, PartialEq, Eq, Structural)]
pub struct MSE {}

/// Categorical cross-entropy over softmax-normalized predictions, for
/// one-hot targets.
#[derive(Debug, Clone, Copy, PartialEq, Eq, Structural)]
pub struct CategoricalEntropy {}

} // verus!
