use newron::tensor::Tensor;

fn add(a: f64, b: f64) -> f64 {
    a + b
}

fn mul_add(acc: f64, a: f64, b: f64) -> f64 {
    acc + a * b
}

#[test]
fn test_0d_add() {
    let a = Tensor::new(vec![1.0], vec![]);
    let b = Tensor::new(vec![2.0], vec![]);
    let c = Tensor::new(vec![3.0], vec![]);
    assert_eq!(a.broadcast_with(&b, add), c);
}

#[test]
fn test_1d_add() {
    let a = Tensor::new(vec![1.0, 2.0], vec![2]);
    let b = Tensor::new(vec![3.0, 4.0], vec![2]);
    let c = Tensor::new(vec![4.0, 6.0], vec![2]);
    assert_eq!(a.broadcast_with(&b, add), c);
}

#[test]
fn test_2d_add() {
    let a = Tensor::new(vec![1.0, 2.0, 3.0, 4.0], vec![2, 2]);
    let b = Tensor::new(vec![5.0, 6.0, 7.0, 8.0], vec![2, 2]);
    let c = Tensor::new(vec![6.0, 8.0, 10.0, 12.0], vec![2, 2]);
    assert_eq!(a.broadcast_with(&b, add), c);
}

#[test]
fn test_2d_1d_add() {
    let a = Tensor::new(vec![0.0, 1.0, 2.0, 3.0, 4.0, 5.0, 6.0, 7.0], vec![2, 4]);
    let b = Tensor::new(vec![1.0, 2.0, 3.0, 4.0], vec![1, 4]);
    let result = Tensor::new(vec![1.0, 3.0, 5.0, 7.0, 5.0, 7.0, 9.0, 11.0], vec![2, 4]);
    assert_eq!(a.broadcast_with(&b, add), result);
}

#[test]
fn test_get_row() {
    let a = Tensor::new(vec![1.0, 2.0, 3.0, 4.0], vec![2, 2]);
    let test_row = Tensor::new(vec![3.0, 4.0], vec![1, 2]);
    assert_eq!(a.get_row(1), test_row);
}

#[test]
fn test_get_rows() {
    let a = Tensor::new(vec![1.0, 2.0, 3.0, 4.0, 5.0, 6.0, 7.0, 8.0], vec![4, 2]);
    let test_row = Tensor::new(vec![3.0, 4.0, 7.0, 8.0], vec![2, 2]);
    assert_eq!(a.get_rows(&[1, 3]), test_row);
}

#[test]
fn test_dot_sum_product() {
    let a = Tensor::new(vec![1.0, 2.0, 3.0, 4.0, 5.0, 6.0], vec![2, 3]);
    let b = Tensor::new(vec![1.0, 0.5], vec![1, 2]);
    let result = Tensor::new(vec![3.0, 4.5, 6.0], vec![1, 3]);
    assert_eq!(a.dot_with(&b, 0.0, mul_add), result);
}

#[test]
fn test_dot_2d_tensor() {
    let a = Tensor::new(vec![1.0, 2.0, 3.0, 4.0, 5.0, 6.0], vec![2, 3]);
    let b = Tensor::new(
        vec![1.0, 2.0, 3.0, 4.0, 1.0, 2.0, 3.0, 4.0, 1.0, 2.0, 3.0, 4.0],
        vec![3, 4],
    );
    let result = Tensor::new(vec![6.0, 12.0, 18.0, 24.0, 15.0, 30.0, 45.0, 60.0], vec![2, 4]);
    assert_eq!(a.dot_with(&b, 0.0, mul_add), result);
}

#[test]
fn test_map() {
    let a = Tensor::new(vec![1.0, -2.0, -3.0, 4.0], vec![2, 2]);
    let result = Tensor::new(vec![1.0, 0.0, 0.0, 4.0], vec![2, 2]);
    assert_eq!(a.map(|x: f64| if x < 0.0 { 0.0 } else { x }), result);
}

#[test]
fn test_sub_assign() {
    let a = Tensor::new(vec![1.0, -2.0, -3.0, 4.0], vec![2, 2]);
    let b = Tensor::new(vec![1.0, 2.0, 1.0, 2.0], vec![2, 2]);
    let result = Tensor::new(vec![0.0, -4.0, -4.0, 2.0], vec![2, 2]);
    let a = a.zip_with(&b, |x: f64, y: f64| x - y);
    assert_eq!(a, result);
}

#[test]
fn test_mask() {
    // 40 of the 100 entries are dropped: floor(0.4 * 100).
    let mask = Tensor::mask(&vec![10, 10], 40, 777, 0.0, 1.0);
    assert_eq!(mask.data.iter().sum::<f64>() as usize, 60);
    assert_eq!(mask.shape, vec![10, 10]);
}

#[test]
fn test_get_mean_axis_0() {
    let a = Tensor::new(vec![1.0, 2.0, 3.0, 4.0, 5.0, 6.0], vec![2, 3]);
    let result = Tensor::new(vec![2.5, 3.5, 4.5], vec![1, 3]);
    let mean = a.reduce_axis(0, 0.0, add).map(|x: f64| x / 2.0);
    assert_eq!(mean, result);
}

#[test]
fn test_get_mean_axis_1() {
    let a = Tensor::new(vec![1.0, 2.0, 3.0, 4.0, 5.0, 6.0], vec![2, 3]);
    let result = Tensor::new(vec![2.0, 5.0], vec![2, 1]);
    let mean = a.reduce_axis(1, 0.0, add).map(|x: f64| x / 3.0);
    assert_eq!(mean, result);
}

#[test]
fn test_get_max_axis_0() {
    let a = Tensor::new(vec![1.0, 2.0, 3.0, 4.0, 5.0, 6.0], vec![2, 3]);
    let result = Tensor::new(vec![4.0, 5.0, 6.0], vec![1, 3]);
    assert_eq!(a.reduce_axis(0, f64::NEG_INFINITY, f64::max), result);
}

#[test]
fn test_get_max_axis_1() {
    let a = Tensor::new(vec![1.0, 2.0, 3.0, 4.0, 5.0, 6.0], vec![2, 3]);
    let result = Tensor::new(vec![3.0, 6.0], vec![2, 1]);
    assert_eq!(a.reduce_axis(1, f64::NEG_INFINITY, f64::max), result);
}

#[test]
fn test_get_sum_axis_0() {
    let a = Tensor::new(vec![1.0, 2.0, 3.0, 4.0, 5.0, 6.0], vec![2, 3]);
    let result = Tensor::new(vec![5.0, 7.0, 9.0], vec![1, 3]);
    assert_eq!(a.reduce_axis(0, 0.0, add), result);
}

#[test]
fn test_get_sum_axis_1() {
    let a = Tensor::new(vec![1.0, 2.0, 3.0, 4.0, 5.0, 6.0], vec![2, 3]);
    let result = Tensor::new(vec![6.0, 15.0], vec![2, 1]);
    assert_eq!(a.reduce_axis(1, 0.0, add), result);
}

#[test]
fn test_divide() {
    let a = Tensor::new(vec![4.0, 6.0, 8.0, 10.0], vec![1, 4]);
    let b = Tensor::new(vec![4.0, 3.0, 5.0, 5.0], vec![1, 4]);
    let result = Tensor::new(vec![1.0, 2.0, 1.6, 2.0], vec![1, 4]);
    assert_eq!(a.zip_with(&b, |x: f64, y: f64| x / y), result);
}

#[test]
fn test_get_transpose() {
    let a = Tensor::new(vec![4.0, 6.0, 8.0, 10.0, 12.0, 14.0], vec![2, 3]);
    let a_t = a.get_transpose();
    let result = Tensor::new(vec![4.0, 10.0, 6.0, 12.0, 8.0, 14.0], vec![3, 2]);
    assert_eq!(a_t, result);
}
