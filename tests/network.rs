use nural::fixed::Fixed;
use nural::gradient::num_diff;
use nural::layer::{dot, mean_squared_error, relu, NetError};
use nural::network::{forward, predict};
use nural::scalar::Scalar;
use nural::train::{backward, infer, report_due, train_epoch, SampleLoss};

fn d(a: f64) -> Fixed {
    Fixed { raw: (a * 1e12).round() as i64 }
}

fn as_f64(a: Fixed) -> f64 {
    a.raw as f64 / 1e12
}

fn v(xs: &[f64]) -> Vec<Fixed> {
    xs.iter().map(|&a| d(a)).collect()
}

fn m(rows: &[&[f64]]) -> Vec<Vec<Fixed>> {
    rows.iter().map(|r| v(r)).collect()
}

fn plain(xs: &Vec<Fixed>) -> Vec<f64> {
    xs.iter().map(|a| as_f64(*a)).collect()
}

fn reference_weights() -> Vec<Vec<Vec<Fixed>>> {
    vec![
        m(&[&[0.1, 0.10], &[0.1, 0.1]]),
        m(&[&[0.1, 0.14], &[0.1, 0.1]]),
        m(&[&[0.1], &[0.1]]),
    ]
}

fn xor_inputs() -> Vec<Vec<Fixed>> {
    vec![v(&[0.0, 0.0]), v(&[1.0, 0.0]), v(&[0.0, 1.0]), v(&[1.0, 1.0])]
}

fn xor_targets() -> Vec<Vec<Fixed>> {
    vec![v(&[0.0]), v(&[1.0]), v(&[1.0]), v(&[0.0])]
}

fn shape(w: &Vec<Vec<Vec<Fixed>>>) -> Vec<Vec<usize>> {
    w.iter().map(|l| l.iter().map(|r| r.len()).collect()).collect()
}

fn loss_on(x: &Vec<Fixed>, t: &Vec<Fixed>, w: &Vec<Vec<Vec<Fixed>>>) -> f64 {
    let y = predict(x, w).unwrap();
    as_f64(mean_squared_error(&y, t).unwrap())
}

#[test]
fn relu_clamps_each_entry() {
    let r = relu(&v(&[-1.5, 0.0, 2.5, -0.0, 3.0]));
    assert_eq!(plain(&r), vec![0.0, 0.0, 2.5, 0.0, 3.0]);
}

#[test]
fn relu_is_idempotent() {
    let x = v(&[-2.0, 0.5, 0.0, 7.25]);
    let once = relu(&x);
    let twice = relu(&once);
    assert_eq!(once, twice);
}

#[test]
fn relu_of_empty_is_empty() {
    assert!(relu::<Fixed>(&Vec::new()).is_empty());
}

#[test]
fn dot_multiplies_row_vector_by_matrix() {
    let r = dot(&v(&[1.0, 2.0]), &m(&[&[1.0, 2.0, 3.0], &[4.0, 5.0, 6.0]])).unwrap();
    assert_eq!(plain(&r), vec![9.0, 12.0, 15.0]);
}

#[test]
fn dot_rejects_wrong_input_length() {
    let r = dot(&v(&[1.0, 2.0, 3.0]), &m(&[&[1.0, 2.0], &[3.0, 4.0]]));
    assert_eq!(r, Err(NetError::DimensionMismatch));
}

#[test]
fn dot_rejects_empty_layer() {
    let r = dot(&Vec::new(), &Vec::<Vec<Fixed>>::new());
    assert_eq!(r, Err(NetError::DimensionMismatch));
}

#[test]
fn loss_of_equal_vectors_is_zero() {
    let y = v(&[0.3, -1.7, 4.0]);
    assert_eq!(mean_squared_error(&y, &y).unwrap(), Fixed::zero());
}

#[test]
fn loss_is_half_summed_squared_error() {
    let r = mean_squared_error(&v(&[1.0, 3.0]), &v(&[0.0, 1.0])).unwrap();
    assert_eq!(r, d(2.5));
}

#[test]
fn loss_is_symmetric() {
    let y = v(&[0.25, 1.5, -2.0]);
    let t = v(&[1.0, 0.5, 0.75]);
    assert_eq!(mean_squared_error(&y, &t), mean_squared_error(&t, &y));
}

#[test]
fn loss_rejects_unequal_lengths() {
    let r = mean_squared_error(&v(&[1.0, 2.0]), &v(&[1.0]));
    assert_eq!(r, Err(NetError::DimensionMismatch));
}

#[test]
fn predict_has_no_activation_after_last_layer() {
    let w = vec![m(&[&[1.0]]), m(&[&[1.0]]), m(&[&[-2.0]])];
    let y = predict(&v(&[3.0]), &w).unwrap();
    assert_eq!(plain(&y), vec![-6.0]);
}

#[test]
fn predict_applies_activation_between_layers() {
    let w = vec![m(&[&[-1.0]]), m(&[&[1.0]]), m(&[&[1.0]])];
    let y = predict(&v(&[3.0]), &w).unwrap();
    assert_eq!(plain(&y), vec![0.0]);
}

#[test]
fn predict_rejects_wrong_sample_length() {
    let w = reference_weights();
    assert_eq!(predict(&v(&[1.0, 0.0, 1.0]), &w), Err(NetError::DimensionMismatch));
}

#[test]
fn forward_matches_predict() {
    let w = reference_weights();
    let x = v(&[1.0, 0.0]);
    assert_eq!(forward(&x, &w), predict(&x, &w));
}

/// Weights under which the network's output on `[1]` is its first weight
/// `a` (for `a > 0`), so that the loss against `[c]` is `(a - c)^2 / 2`.
fn single_path(a: f64) -> Vec<Vec<Vec<Fixed>>> {
    vec![m(&[&[a]]), m(&[&[1.0]]), m(&[&[1.0]])]
}

#[test]
fn num_diff_matches_analytic_derivative_of_quadratic() {
    for &(a, c) in &[(0.5, 0.25), (0.8, -0.3), (1.7, 2.9)] {
        let x = v(&[1.0]);
        let t = v(&[c]);
        let mut w = single_path(a);
        let g = num_diff(&SampleLoss { x: &x, t: &t }, &mut w, 0, 0).unwrap();
        assert_eq!(g.len(), 1);
        let exact = a - c;
        assert!((as_f64(g[0]) - exact).abs() < 1e-6, "{} vs {}", as_f64(g[0]), exact);
    }
}

#[test]
fn num_diff_covers_every_entry_of_the_row() {
    let x = v(&[1.0, 0.0]);
    let t = v(&[1.0]);
    let mut w = reference_weights();
    let g = num_diff(&SampleLoss { x: &x, t: &t }, &mut w, 1, 0).unwrap();
    assert_eq!(g.len(), 2);
    assert!(as_f64(g[0]) < 0.0 && as_f64(g[1]) < 0.0);
}

#[test]
fn num_diff_restores_weights_exactly() {
    let x = v(&[1.0, 0.0]);
    let t = v(&[1.0]);
    let mut w = reference_weights();
    let before = w.clone();
    num_diff(&SampleLoss { x: &x, t: &t }, &mut w, 1, 1).unwrap();
    assert_eq!(w, before);
}

#[test]
fn num_diff_passes_on_objective_failure_and_restores() {
    let x = v(&[1.0, 0.0]);
    let t = v(&[1.0, 2.0]);
    let mut w = reference_weights();
    let before = w.clone();
    assert_eq!(num_diff(&SampleLoss { x: &x, t: &t }, &mut w, 0, 1), Err(NetError::DimensionMismatch));
    assert_eq!(w, before);
}

#[test]
fn backward_keeps_shape() {
    let mut w = reference_weights();
    let before = shape(&w);
    let g = backward(&v(&[1.0, 0.0]), &v(&[1.0]), &mut w).unwrap();
    assert_eq!(shape(&w), before);
    assert_eq!(shape(&g), before);
}

#[test]
fn backward_does_not_raise_loss_on_its_sample() {
    let x = v(&[1.0, 0.0]);
    let t = v(&[1.0]);
    let mut w = reference_weights();
    let before = loss_on(&x, &t, &w);
    backward(&x, &t, &mut w).unwrap();
    let after = loss_on(&x, &t, &w);
    assert!(after <= before, "{} then {}", before, after);
}

#[test]
fn backward_updates_rows_in_turn() {
    let x = v(&[1.0, 0.0]);
    let t = v(&[1.0]);
    let mut w = reference_weights();
    let g = backward(&x, &t, &mut w).unwrap();
    // The first row is estimated on the initial weights.
    let mut w0 = reference_weights();
    let first = num_diff(&SampleLoss { x: &x, t: &t }, &mut w0, 0, 0).unwrap();
    assert_eq!(g[0][0], first);
    // Entries move against their gradient by the learning rate.
    let w_init = reference_weights();
    let rate = Fixed::ratio(1, 20);
    for k in 0..2 {
        assert_eq!(w[0][0][k], w_init[0][0][k].minus(rate.times(g[0][0][k])));
    }
}

#[test]
fn backward_rejects_mismatched_target() {
    let mut w = reference_weights();
    let r = backward(&v(&[1.0, 0.0]), &v(&[1.0, 0.0]), &mut w);
    assert_eq!(r, Err(NetError::DimensionMismatch));
}

#[test]
fn training_learns_xor() {
    let input = xor_inputs();
    let answer = xor_targets();
    let mut w = reference_weights();
    for _ in 0..30000 {
        train_epoch(&input, &answer, &mut w).unwrap();
    }
    for d in 0..4 {
        assert!(loss_on(&input[d], &answer[d], &w) < 0.05);
    }
    let y = predict(&v(&[1.0, 0.0]), &w).unwrap();
    assert!((as_f64(y[0]) - 1.0).abs() < (as_f64(y[0]) - 0.0).abs());
}

#[test]
fn train_epoch_steps_through_samples_in_order() {
    let input = xor_inputs();
    let answer = xor_targets();
    let mut w = reference_weights();
    train_epoch(&input, &answer, &mut w).unwrap();
    let mut by_hand = reference_weights();
    for d in 0..4 {
        backward(&input[d], &answer[d], &mut by_hand).unwrap();
    }
    assert_eq!(w, by_hand);
}

#[test]
fn report_due_on_multiples_of_interval() {
    assert!(report_due(100, 100));
    assert!(report_due(300, 100));
    assert!(!report_due(150, 100));
    assert!(report_due(7, 0));
    assert!(report_due(7, 1));
}

#[test]
fn infer_runs_every_sample() {
    let w = reference_weights();
    let out = infer(&xor_inputs(), &w).unwrap();
    assert_eq!(out.len(), 4);
    assert_eq!(out[1], predict(&v(&[1.0, 0.0]), &w).unwrap());
    let zero = plain(&out[0]);
    assert_eq!(zero, vec![0.0]);
}

#[test]
fn infer_rejects_bad_sample() {
    let w = reference_weights();
    let r = infer(&vec![v(&[1.0, 0.0]), v(&[1.0])], &w);
    assert_eq!(r, Err(NetError::DimensionMismatch));
}
