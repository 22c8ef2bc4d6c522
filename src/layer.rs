//! What the layers of a model have in common apart from their arithmetic:
//! their kinds, which parameters the optimizer may update, and the summary
//! each gives of itself.
use vstd::prelude::*;

use crate::tensor::{is_product_of, is_reduction_of, Tensor};

verus! {

/// A buffer of a layer that the optimizer updates from its gradient.
#[derive(Debug, Clone, Copy, PartialEq, Eq, Structural)]
pub enum LearnableParams {
    Weights,
    Biases,
}

/// The kinds of layer a model can stack.
#[derive(Debug, Clone, Copy, PartialEq, Eq, Structural)]
pub enum LayerKind {
    Dense,
    ReLU,
    Sigmoid,
    TanH,
    Softmax,
    Dropout,
}

/// Summary of a layer.
#[derive(Debug)]
pub struct LayerInfo {
    pub layer_type: String,
    pub output_shape: Vec<usize>,
    pub trainable_param: usize,
    pub non_trainable_param: usize,
}

/// The parameters a layer of kind `kind` exposes to the optimizer.
pub open spec fn spec_params(kind: LayerKind) -> Seq<LearnableParams> {
    if kind == LayerKind::Dense {
        seq![LearnableParams::Weights, LearnableParams::Biases]
    } else {
        Seq::empty()
    }
}

impl LayerKind {
    /// The parameters this kind of layer exposes to the optimizer: weights
    /// and biases for a dense layer, none for the others.
    pub fn params_list(&self) -> (r: Vec<LearnableParams>)
        ensures
            r@ == spec_params(*self),
    {
        match self {
            LayerKind::Dense => vec![LearnableParams::Weights, LearnableParams::Biases],
            _ => Vec::new(),
        }
    }
}

/// The gradients a dense layer computes in its backward pass have the shapes
/// of what they update, for every batch size: with input `x` (`batch x in`),
/// weights `w` (`in x out`), biases `b` (`1 x out`) and incoming gradient `g`
/// (`batch x out`), the weight gradient `x^T g` is `in x out`, the bias
/// gradient (the column sums of `g`) is `1 x out`, and the gradient passed
/// back, `g w^T`, is `batch x in` like the input.
pub proof fn lemma_dense_gradient_shapes<T, F: Fn(T, T, T) -> T, H: Fn(T, T) -> T>(
    x: &Tensor<T>,
    w: &Tensor<T>,
    b: &Tensor<T>,
    g: &Tensor<T>,
    xt: &Tensor<T>,
    wt: &Tensor<T>,
    w_grad: &Tensor<T>,
    b_grad: &Tensor<T>,
    x_grad: &Tensor<T>,
    zero: T,
    mul_add: F,
    plus: H,
)
    requires
        x.is_matrix(),
        w.is_matrix(),
        b.is_matrix(),
        g.is_matrix(),
        w.rows() == x.cols(),
        b.shape@ == seq![1usize, w.shape@[1]],
        g.shape@ == seq![x.shape@[0], w.shape@[1]],
        xt.shape@ == seq![x.shape@[1], x.shape@[0]],
        wt.shape@ == seq![w.shape@[1], w.shape@[0]],
        is_product_of(w_grad, xt, g, zero, mul_add),
        is_reduction_of(b_grad, g, 0, zero, plus),
        is_product_of(x_grad, g, wt, zero, mul_add),
    ensures
        w_grad.shape@ == w.shape@,
        b_grad.shape@ == b.shape@,
        x_grad.shape@ == x.shape@,
{
    assert(w_grad.shape@ =~= w.shape@);
    assert(b_grad.shape@ =~= b.shape@);
    assert(x_grad.shape@ =~= x.shape@);
}

} // verus!
