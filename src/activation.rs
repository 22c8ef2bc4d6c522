//! Choice of activation function for a layer description.
use vstd::prelude::*;

verus! {

/// The activation functions a layer can apply.
#[derive(Debug, Clone, Copy, PartialEq, Eq, Structural)]
pub enum ActivationFunction {
    ReLU,
    Sigmoid,
    TanH,
}

/// An activation choice.
#[derive(Debug, Clone, Copy, PartialEq, Eq, Structural)]
pub struct Activation {
    activation: ActivationFunction,
}

impl Activation {
    pub closed spec fn spec_function(self) -> ActivationFunction {
        self.activation
    }

    /// Rectified linear unit, `max(x, 0)`.
    pub fn relu() -> (r: Activation)
        ensures
            r.spec_function() == ActivationFunction::ReLU,
    {
        Activation { activation: ActivationFunction::ReLU }
    }

    /// Logistic sigmoid, `1 / (1 + e^-x)`.
    pub fn sigmoid() -> (r: Activation)
        ensures
            r.spec_function() == ActivationFunction::Sigmoid,
    {
        Activation { activation: ActivationFunction::Sigmoid }
    }

    /// Hyperbolic tangent.
    pub fn tanh() -> (r: Activation)
        ensures
            r.spec_function() == ActivationFunction::TanH,
    {
        Activation { activation: ActivationFunction::TanH }
    }

    /// The function this choice names.
    pub fn function(&self) -> (r: ActivationFunction)
        ensures
            r == self.spec_function(),
    {
        self.activation
    }
}

} // verus!
