//! A small feed-forward neural-network engine. This crate holds the parts
//! that are exact: the seeded generator and its shuffles; tensors over any
//! element type, with their shape algebra, row gathering, transposition,
//! broadcasting, matrix products, reductions and arg-max scans, the element
//! arithmetic coming in as closures; the dropout mask pattern; mini-batch
//! planning; the dataset's row and column bookkeeping; confusion-matrix
//! counting; and the byte helpers used by the image loader.
pub mod activation;
pub mod batch;
pub mod dataset;
pub mod layer;
pub mod loss;
pub mod metrics;
pub mod random;
pub mod tensor;
pub mod utils;
