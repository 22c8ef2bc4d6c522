use newron::activation::{Activation, ActivationFunction};
use newron::batch::batch_indices;
use newron::dataset::{ColumnType, Dataset, DatasetError, RowType};
use newron::layer::{LayerKind, LearnableParams};
use newron::metrics::ConfusionMatrix;
use newron::random::Rand;
use newron::tensor::Tensor;
use newron::utils::{as_u32_le, swap_endian};

fn mul_add(acc: f64, a: f64, b: f64) -> f64 {
    acc + a * b
}

#[test]
fn rand_first_words_for_seed_zero() {
    let mut rng = Rand::new(0);
    assert_eq!(rng.rand(), 3701687786);
    assert_eq!(rng.rand(), 458299110);
    assert_eq!(rng.rand(), 2500872618);
}

#[test]
fn rand_depends_on_seed() {
    let mut a = Rand::new(42);
    let mut b = Rand::new(0);
    let first = a.rand();
    assert_eq!(first, 3701609616);
    assert_ne!(first, b.rand());
}

#[test]
fn rand_range_stays_in_bounds() {
    let mut rng = Rand::new(1);
    assert_eq!(rng.rand_range(-5, 5), -5);
    for _ in 0..200 {
        let v = rng.rand_range(3, 9);
        assert!((3..=9).contains(&v));
    }
}

#[test]
fn shuffle_is_fisher_yates_permutation() {
    let mut rng = Rand::new(7);
    let mut v: Vec<usize> = (0..10).collect();
    rng.shuffle(&mut v);
    assert_eq!(v, vec![5, 4, 9, 0, 6, 8, 7, 2, 3, 1]);
    let mut sorted = v.clone();
    sorted.sort();
    assert_eq!(sorted, (0..10).collect::<Vec<usize>>());
}

#[test]
fn shuffle_of_empty_and_single() {
    let mut rng = Rand::new(3);
    let mut e: Vec<u8> = vec![];
    rng.shuffle(&mut e);
    assert!(e.is_empty());
    let mut one = vec![9u8];
    rng.shuffle(&mut one);
    assert_eq!(one, vec![9]);
}

#[test]
fn matmul_shape_and_values() {
    let a = Tensor::new(vec![1.0, 2.0, 3.0, 4.0, 5.0, 6.0], vec![2, 3]);
    let b = Tensor::new(vec![7.0, 8.0, 9.0, 10.0, 11.0, 12.0], vec![3, 2]);
    let c = a.matmul_with(&b, 0.0, mul_add);
    assert_eq!(c.shape, vec![2, 2]);
    assert_eq!(c.data, vec![58.0, 64.0, 139.0, 154.0]);
}

#[test]
fn matmul_shape_is_rows_by_cols() {
    let a = Tensor::filled(vec![5, 3], 1i64);
    let b = Tensor::filled(vec![3, 7], 2i64);
    let c = a.matmul_with(&b, 0, |acc: i64, x: i64, y: i64| acc + x * y);
    assert_eq!(c.shape, vec![5, 7]);
    assert!(c.data.iter().all(|v| *v == 6));
}

#[test]
fn add_then_sub_gives_back_operand() {
    let a = Tensor::new(vec![i64::MAX, -3, 7, 0, 12, -40], vec![2, 3]);
    let b = Tensor::new(vec![5, i64::MIN, 9], vec![1, 3]);
    let sum = a.broadcast_with(&b, |x: i64, y: i64| x.wrapping_add(y));
    let diff = sum.broadcast_with(&b, |x: i64, y: i64| x.wrapping_sub(y));
    assert_eq!(diff, a);
}

#[test]
fn transpose_in_place() {
    let mut a = Tensor::new(vec![1, 2, 3, 4, 5, 6], vec![3, 2]);
    a.transpose();
    assert_eq!(a, Tensor::new(vec![1, 3, 5, 2, 4, 6], vec![2, 3]));
}

#[test]
fn filled_and_well_formed() {
    let z = Tensor::filled(vec![2, 3], 0.0);
    assert_eq!(z.data, vec![0.0; 6]);
    assert!(z.is_well_formed());
    let s = Tensor::filled(vec![], 1.0);
    assert_eq!(s.data, vec![1.0]);
    assert!(!Tensor::new(vec![1.0, 2.0], vec![3]).is_well_formed());
    assert!(!Tensor::new(vec![1.0], vec![1, 1, 1]).is_well_formed());
    assert!(!Tensor::new(vec![1.0], vec![usize::MAX, 2]).is_well_formed());
}

#[test]
fn reduce_of_empty_rows_gives_init() {
    let a: Tensor<f64> = Tensor::new(vec![], vec![0, 3]);
    let r = a.reduce_axis(0, 0.0, |x: f64, y: f64| x + y);
    assert_eq!(r, Tensor::new(vec![0.0, 0.0, 0.0], vec![1, 3]));
}

#[test]
fn mask_is_reproducible_from_its_seed() {
    let a = Tensor::mask(&vec![6, 5], 12, 99, 0u8, 1u8);
    let b = Tensor::mask(&vec![6, 5], 12, 99, 0u8, 1u8);
    assert_eq!(a, b);
    assert_eq!(a.data.iter().filter(|v| **v == 1).count(), 18);
    let all = Tensor::mask(&vec![4], 4, 1, 0u8, 1u8);
    assert_eq!(all.data, vec![0, 0, 0, 0]);
    let none = Tensor::mask(&vec![4], 0, 1, 0u8, 1u8);
    assert_eq!(none.data, vec![1, 1, 1, 1]);
}

#[test]
fn dense_gradient_shapes_match_parameters() {
    let x = Tensor::filled(vec![4, 3], 1.0);
    let w = Tensor::filled(vec![3, 2], 0.5);
    let g = Tensor::filled(vec![4, 2], 2.0);
    let w_grad = x.get_transpose().matmul_with(&g, 0.0, mul_add);
    let b_grad = g.reduce_axis(0, 0.0, |a: f64, b: f64| a + b);
    let x_grad = g.matmul_with(&w.get_transpose(), 0.0, mul_add);
    assert_eq!(w_grad.shape, w.shape);
    assert_eq!(b_grad.shape, vec![1, 2]);
    assert_eq!(x_grad.shape, x.shape);
    assert_eq!(w_grad.data, vec![8.0; 6]);
    assert_eq!(b_grad.data, vec![8.0, 8.0]);
}

#[test]
fn batches_in_natural_order_drop_short_tail() {
    let mut seed = 11u32;
    let b = batch_indices(10, 3, false, &mut seed);
    assert_eq!(b, vec![vec![0, 1, 2], vec![3, 4, 5], vec![6, 7, 8]]);
    assert_eq!(seed, 11);
}

#[test]
fn batches_exact_fit_and_oversized() {
    let mut seed = 0u32;
    assert_eq!(batch_indices(4, 4, false, &mut seed), vec![vec![0, 1, 2, 3]]);
    assert!(batch_indices(3, 4, false, &mut seed).is_empty());
    assert!(batch_indices(0, 1, false, &mut seed).is_empty());
}

#[test]
fn shuffled_batches_follow_seed() {
    let mut seed = 5u32;
    let b = batch_indices(10, 4, true, &mut seed);
    assert_eq!(b, vec![vec![0, 9, 5, 6], vec![4, 8, 7, 2]]);
    assert_eq!(seed, 6);
    let mut again = 5u32;
    assert_eq!(batch_indices(10, 4, true, &mut again), b);
    let mut last = u32::MAX;
    batch_indices(3, 1, true, &mut last);
    assert_eq!(last, 0);
}

#[test]
fn idx_header_words() {
    assert_eq!(swap_endian(0x01020304), 0x04030201);
    assert_eq!(as_u32_le(&[0x03, 0x08, 0x00, 0x00]), 2051);
    assert_eq!(swap_endian(as_u32_le(&[0x00, 0x00, 0x08, 0x03])), 2051);
    assert_eq!(swap_endian(as_u32_le(&[0x00, 0x00, 0x08, 0x01])), 2049);
}

#[test]
fn confusion_matrix_counts_pairs() {
    let cm = ConfusionMatrix::from_labels(3, &vec![0, 1, 2, 2, 1], &vec![0, 2, 2, 2, 1]);
    assert_eq!(cm.data, vec![vec![1, 0, 0], vec![0, 1, 1], vec![0, 0, 2]]);
    let empty = ConfusionMatrix::from_labels(2, &vec![], &vec![]);
    assert_eq!(empty.data, vec![vec![0, 0], vec![0, 0]]);
}

#[test]
fn dataset_from_raw_data_roles() {
    let ds = Dataset::from_raw_data(vec![vec![1.0, 2.0, 3.0], vec![4.0, 5.0, 6.0]]).unwrap();
    assert_eq!(ds.get_row_count(), 2);
    assert_eq!(ds.get_number_features(), 2);
    assert_eq!(ds.get_number_targets(), 1);
    assert_eq!(ds.count_row_type(&RowType::Train), 2);
    let x = ds.get_tensor(RowType::Train, ColumnType::Feature);
    assert_eq!(x, Tensor::new(vec![1.0, 2.0, 4.0, 5.0], vec![2, 2]));
    let y = ds.get_tensor(RowType::Train, ColumnType::Target);
    assert_eq!(y, Tensor::new(vec![3.0, 6.0], vec![2, 1]));
}

#[test]
fn dataset_rejects_ragged_rows() {
    let r = Dataset::from_raw_data(vec![vec![1.0, 2.0], vec![3.0]]);
    assert!(matches!(r, Err(DatasetError::BadFormat(_))));
}

#[test]
fn dataset_row_roles_select_rows() {
    let mut ds = Dataset::from_raw_data(vec![vec![1, 10], vec![2, 20], vec![3, 30]]).unwrap();
    ds.set_row_type(RowType::Test, 1);
    assert_eq!(ds.count_row_type(&RowType::Test), 1);
    let test_x = ds.get_tensor(RowType::Test, ColumnType::Feature);
    assert_eq!(test_x, Tensor::new(vec![2], vec![1, 1]));
    let train_y = ds.get_tensor(RowType::Train, ColumnType::Target);
    assert_eq!(train_y, Tensor::new(vec![10, 30], vec![2, 1]));
    ds.set_all_rows_type(RowType::Skip);
    assert_eq!(ds.count_row_type(&RowType::Skip), 3);
    assert_eq!(ds.get_tensor(RowType::Train, ColumnType::Feature).shape, vec![0, 1]);
}

#[test]
fn dataset_concatenate_and_remove_column() {
    let mut a = Dataset::from_raw_data(vec![vec![1, 2, 3]]).unwrap();
    let mut b = Dataset::from_raw_data(vec![vec![4, 5, 6]]).unwrap();
    b.set_all_rows_type(RowType::Test);
    a.concatenate(b);
    assert_eq!(a.get_row_count(), 2);
    assert_eq!(a.count_row_type(&RowType::Test), 1);
    a.remove_column(0);
    assert_eq!(a.get_number_features(), 1);
    assert_eq!(a.column(0), vec![2, 5]);
}

#[test]
fn dataset_one_hot_encoding() {
    let mut ds = Dataset::from_raw_data(vec![vec![7, 1], vec![8, 0], vec![9, 2]]).unwrap();
    ds.one_hot_encode_positions(1, &vec![1, 0, 2], 3, 0, 1);
    assert_eq!(ds.get_number_targets(), 3);
    assert_eq!(ds.get_number_features(), 1);
    let y = ds.get_tensor(RowType::Train, ColumnType::Target);
    assert_eq!(y, Tensor::new(vec![0, 1, 0, 1, 0, 0, 0, 0, 1], vec![3, 3]));
}

#[test]
fn layer_kinds_expose_parameters() {
    assert_eq!(
        LayerKind::Dense.params_list(),
        vec![LearnableParams::Weights, LearnableParams::Biases]
    );
    assert!(LayerKind::ReLU.params_list().is_empty());
    assert!(LayerKind::Dropout.params_list().is_empty());
    assert!(LayerKind::Softmax.params_list().is_empty());
}

#[test]
fn activation_choices() {
    assert_eq!(Activation::relu().function(), ActivationFunction::ReLU);
    assert_eq!(Activation::sigmoid().function(), ActivationFunction::Sigmoid);
    assert_eq!(Activation::tanh().function(), ActivationFunction::TanH);
}

#[test]
fn argmax_rows_first_maximum_wins() {
    let t = Tensor::new(vec![0.2, 0.6, 0.2, 0.5, 0.5, 0.0, 0.0, 0.1, 0.9], vec![3, 3]);
    assert_eq!(t.argmax_rows(|a: f64, b: f64| a > b), vec![1, 0, 2]);
    let single = Tensor::new(vec![-4, -9], vec![2, 1]);
    assert_eq!(single.argmax_rows(|a: i32, b: i32| a > b), vec![0, 0]);
    let by_min = Tensor::new(vec![3, 1, 2], vec![1, 3]);
    assert_eq!(by_min.argmax_rows(|a: i32, b: i32| a < b), vec![1]);
}

#[test]
fn dataset_column_names_and_rows() {
    let ds = Dataset::from_raw_data(vec![vec![1.5, 2.5, 3.5], vec![4.5, 5.5, 6.5]]).unwrap();
    let names: Vec<String> = ds.columns_metadata().iter().map(|c| c.name().to_string()).collect();
    assert_eq!(names, vec!["X_0", "X_1", "Y"]);
    assert_eq!(ds.columns_metadata()[2].column_type(), ColumnType::Target);
    assert_eq!(ds.row(1), &vec![4.5, 5.5, 6.5]);
    assert_eq!(ds.column_count(), 3);
    assert!(ds.is_well_formed());
}
