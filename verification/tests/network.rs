use neural_network::snapshot::{decode, encode};
use neural_network::{
    Activation, Dense, Error, Fixed, Layer, Matrix, Network, Scalar, Stage, Vector,
};

#[derive(Clone, Copy, Debug, PartialEq)]
struct Real(f32);

impl Scalar for Real {
    fn zero_value() -> Self {
        Real(0.0)
    }

    fn sum(self, rhs: Self) -> Self {
        Real(self.0 + rhs.0)
    }

    fn difference(self, rhs: Self) -> Self {
        Real(self.0 - rhs.0)
    }

    fn product(self, rhs: Self) -> Self {
        Real(self.0 * rhs.0)
    }

    fn bits(self) -> u32 {
        self.0.to_bits()
    }

    fn of_bits(bits: u32) -> Self {
        Real(f32::from_bits(bits))
    }

    fn drawn(self) -> bool {
        0.0 <= self.0 && self.0 < 1.0
    }

    fn bits_round_trip(_x: Self) {}

    fn zero() -> Self {
        Real(0.0)
    }

    fn add(self, rhs: Self) -> Self {
        Real(self.0 + rhs.0)
    }

    fn sub(self, rhs: Self) -> Self {
        Real(self.0 - rhs.0)
    }

    fn mul(self, rhs: Self) -> Self {
        Real(self.0 * rhs.0)
    }

    fn to_bits(self) -> u32 {
        self.0.to_bits()
    }

    fn from_bits(bits: u32) -> Self {
        Real(f32::from_bits(bits))
    }

    fn random() -> Self {
        Real(rand::random::<f32>())
    }
}

fn reals(values: &[f32]) -> Vec<Real> {
    values.iter().map(|v| Real(*v)).collect()
}

fn real_vector(values: &[f32]) -> Vector<Real> {
    Vector::from_data(reals(values))
}

fn real_matrix(rows: &[&[f32]]) -> Matrix<Real> {
    Matrix::from_data(rows.iter().map(|r| reals(r)).collect())
}

fn relu(a: &Real) -> Real {
    if a.0 > 0.0 {
        *a
    } else {
        Real(0.0)
    }
}

fn relu_prime(a: &Real) -> Real {
    if a.0 > 0.0 {
        Real(1.0)
    } else {
        Real(0.0)
    }
}

fn mse(output: &Vector<Real>, actual: &Vector<Real>) -> Real {
    let total: f32 = output.iter().zip(actual.iter()).map(|(a, b)| (a.0 - b.0) * (a.0 - b.0)).sum();
    Real(total / output.len() as f32)
}

fn mse_prime(output: &Vector<Real>, actual: &Vector<Real>) -> Vector<Real> {
    let n = output.len() as f32;
    Vector::from_data(
        output.iter().zip(actual.iter()).map(|(a, b)| Real(2.0 * (a.0 - b.0) / n)).collect(),
    )
}

fn first_difference(output: &Vector<Fixed>, actual: &Vector<Fixed>) -> Fixed {
    output[0].sub(actual[0])
}

fn differences(output: &Vector<Fixed>, actual: &Vector<Fixed>) -> Vector<Fixed> {
    Vector::from_data(output.iter().zip(actual.iter()).map(|(a, b)| a.sub(*b)).collect())
}

fn fixed(n: i16) -> Fixed {
    Fixed::from_int(n)
}

fn small_dense() -> Dense<Real> {
    Dense::from_parameters(
        real_matrix(&[&[1.0, 2.0, 3.0], &[-1.0, 0.5, 0.25]]),
        real_vector(&[0.5, -0.5]),
    )
}

struct Lcg(u32);

impl Lcg {
    fn next(&mut self) -> f32 {
        self.0 = self.0.wrapping_mul(1664525).wrapping_add(1013904223);
        (self.0 >> 8) as f32 / 16777216.0
    }

    fn dense(&mut self, input_size: usize, output_size: usize) -> Dense<Real> {
        let weights: Vec<Vec<Real>> = (0..output_size)
            .map(|_| (0..input_size).map(|_| Real(self.next())).collect())
            .collect();
        let biases: Vec<Real> = (0..output_size).map(|_| Real(self.next())).collect();
        Dense::from_parameters(Matrix::from_data(weights), Vector::from_data(biases))
    }
}

type RealStage = Stage<Real, fn(&Real) -> Real, fn(&Real) -> Real>;

type RealNetwork = Network<
    Real,
    RealStage,
    fn(&Vector<Real>, &Vector<Real>) -> Real,
    fn(&Vector<Real>, &Vector<Real>) -> Vector<Real>,
>;

fn relu_layer() -> RealStage {
    Stage::Activation(Activation::new(relu as fn(&Real) -> Real, relu_prime as fn(&Real) -> Real))
}

fn xor_network(seed: u32) -> RealNetwork {
    let mut source = Lcg(seed);
    let mut net: RealNetwork = Network::new(mse, mse_prime);
    let first = source.dense(2, 4);
    let second = source.dense(4, 1);
    net.add(Stage::Dense(first));
    net.add(relu_layer());
    net.add(Stage::Dense(second));
    net
}

fn xor_inputs() -> Vec<Vector<Real>> {
    vec![
        real_vector(&[0.0, 0.0]),
        real_vector(&[0.0, 1.0]),
        real_vector(&[1.0, 0.0]),
        real_vector(&[1.0, 1.0]),
    ]
}

fn xor_targets() -> Vec<Vector<Real>> {
    vec![real_vector(&[0.0]), real_vector(&[1.0]), real_vector(&[1.0]), real_vector(&[0.0])]
}

#[test]
fn dense_forward_is_weights_times_inputs_plus_biases() {
    let layer = Dense::from_parameters(
        real_matrix(&[&[1.0, 2.0], &[3.0, 4.0]]),
        real_vector(&[0.5, -0.5]),
    );
    let out = layer.forward_propagate(&real_vector(&[1.0, 1.0])).unwrap();
    assert_eq!(*out, reals(&[3.5, 6.5]));
}

#[test]
fn dense_forward_gives_the_same_output_for_the_same_input() {
    let layer = small_dense();
    let x = real_vector(&[0.3, -0.7, 1.1]);
    let first = layer.forward_propagate(&x).unwrap();
    let second = layer.forward_propagate(&x).unwrap();
    assert_eq!(
        first.iter().map(|v| v.0.to_bits()).collect::<Vec<u32>>(),
        second.iter().map(|v| v.0.to_bits()).collect::<Vec<u32>>()
    );
    assert_eq!(layer.snapshot(), small_dense().snapshot());
}

#[test]
fn dense_forward_refuses_inputs_of_another_size() {
    let layer = small_dense();
    assert!(matches!(
        layer.forward_propagate(&real_vector(&[1.0, 2.0])),
        Err(Error::DimensionMismatch)
    ));
}

#[test]
fn dense_new_has_a_row_of_weights_and_a_bias_for_each_output() {
    let layer: Dense<Real> = Dense::new(3, 2);
    let parameters = layer.snapshot();
    assert_eq!(parameters.len(), 3);
    assert_eq!(parameters[0].len(), 3);
    assert_eq!(parameters[1].len(), 3);
    assert_eq!(parameters[2].len(), 2);
    assert_eq!(layer.forward_propagate(&real_vector(&[1.0, 2.0, 3.0])).unwrap().size(), 2);
}

#[test]
fn dense_new_draws_every_weight_and_bias() {
    let layer: Dense<Fixed> = Dense::new(8, 4);
    let parameters = layer.snapshot();
    assert_eq!(parameters.len(), 5);
    assert!(parameters.iter().all(|row| row.iter().all(|x| 0 <= x.raw() && x.raw() < 65536)));
    assert!(parameters[..4].iter().all(|row| row.len() == 8 && row.iter().any(|x| *x != row[0])));
    assert_eq!(parameters[4].len(), 4);
}

#[test]
fn dense_backward_returns_the_error_from_the_weights_before_the_step() {
    let mut layer = Dense::from_parameters(
        real_matrix(&[&[1.0, 2.0], &[3.0, 4.0]]),
        real_vector(&[0.5, -0.5]),
    );
    let inputs = real_vector(&[1.0, -1.0]);
    let output_error = real_vector(&[2.0, 4.0]);
    let input_error = layer.backward_propagate(&inputs, &output_error, Real(0.5)).unwrap();
    assert_eq!(*input_error, reals(&[14.0, 20.0]));
    assert_eq!(
        layer.snapshot(),
        vec![reals(&[0.0, 3.0]), reals(&[1.0, 6.0]), reals(&[-0.5, -2.5])]
    );
}

#[test]
fn dense_backward_refuses_unfit_shapes_and_changes_nothing() {
    let mut layer = small_dense();
    let before = layer.snapshot();
    assert!(matches!(
        layer.backward_propagate(&real_vector(&[1.0, 2.0]), &real_vector(&[1.0, 1.0]), Real(0.5)),
        Err(Error::DimensionMismatch)
    ));
    assert!(matches!(
        layer.backward_propagate(
            &real_vector(&[1.0, 2.0, 3.0]),
            &real_vector(&[1.0, 1.0, 1.0]),
            Real(0.5)
        ),
        Err(Error::DimensionMismatch)
    ));
    assert_eq!(layer.snapshot(), before);
}

#[test]
fn dense_input_error_matches_a_finite_difference_of_the_loss() {
    let target = real_vector(&[0.25, -0.75]);
    let point = [0.3f32, -0.7, 1.1];
    let loss_at = |x: &[f32]| -> f32 {
        let out = small_dense().forward_propagate(&real_vector(x)).unwrap();
        mse(&out, &target).0
    };
    let mut layer = small_dense();
    let inputs = real_vector(&point);
    let output = layer.forward_propagate(&inputs).unwrap();
    let output_error = mse_prime(&output, &target);
    let analytic = layer.backward_propagate(&inputs, &output_error, Real(0.0)).unwrap();
    assert_eq!(layer.snapshot(), small_dense().snapshot());
    let h = 0.01f32;
    for j in 0..3 {
        let mut up = point;
        let mut down = point;
        up[j] += h;
        down[j] -= h;
        let numeric = (loss_at(&up) - loss_at(&down)) / (2.0 * h);
        assert!((analytic[j].0 - numeric).abs() < 1e-3);
    }
}

#[test]
fn activation_forward_applies_the_function_to_every_entry() {
    let layer = Activation::new(relu, relu_prime);
    let out = layer.forward_propagate(&real_vector(&[1.5, -2.0, 0.0, 3.0])).unwrap();
    assert_eq!(*out, reals(&[1.5, 0.0, 0.0, 3.0]));
    assert!(layer.snapshot().is_empty());
}

#[test]
fn activation_backward_pairs_derivative_and_error_by_position() {
    let mut layer = Activation::new(relu, relu_prime);
    let inputs = real_vector(&[1.0, -1.0, 2.0]);
    let errors = real_vector(&[10.0, 20.0, 30.0]);
    let passed = layer.backward_propagate(&inputs, &errors, Real(0.5)).unwrap();
    assert_eq!(*passed, reals(&[10.0, 0.0, 30.0]));
}

#[test]
fn activation_backward_at_one_position_ignores_the_others() {
    let mut layer = Activation::new(relu, relu_prime);
    let a = layer
        .backward_propagate(&real_vector(&[1.0, 5.0, -3.0]), &real_vector(&[7.0, 1.0, 2.0]), Real(0.1))
        .unwrap();
    let b = layer
        .backward_propagate(&real_vector(&[1.0, -5.0, 3.0]), &real_vector(&[7.0, 9.0, 8.0]), Real(0.9))
        .unwrap();
    assert_eq!(a[0], b[0]);
    assert_eq!(a[0], Real(7.0));
}

#[test]
fn activation_backward_refuses_an_error_of_another_size() {
    let mut layer = Activation::new(relu, relu_prime);
    assert!(matches!(
        layer.backward_propagate(&real_vector(&[1.0, 2.0]), &real_vector(&[1.0]), Real(0.5)),
        Err(Error::DimensionMismatch)
    ));
}

#[test]
fn layer_restore_takes_parameters_of_the_same_lengths_only() {
    let mut layer = small_dense();
    let replacement = vec![reals(&[9.0, 8.0, 7.0]), reals(&[6.0, 5.0, 4.0]), reals(&[3.0, 2.0])];
    assert_eq!(layer.restore(replacement.clone()), Ok(()));
    assert_eq!(layer.snapshot(), replacement);
    let short = vec![reals(&[9.0, 8.0, 7.0]), reals(&[3.0, 2.0])];
    assert_eq!(layer.restore(short), Err(Error::DeserializationFailure));
    let ragged = vec![reals(&[9.0, 8.0, 7.0]), reals(&[6.0, 5.0]), reals(&[3.0, 2.0])];
    assert_eq!(layer.restore(ragged), Err(Error::DeserializationFailure));
    assert_eq!(layer.restore(Vec::new()), Err(Error::DeserializationFailure));
    assert_eq!(layer.snapshot(), replacement);
    let mut activation = Activation::new(relu, relu_prime);
    assert_eq!(activation.restore(Vec::new()), Ok(()));
    assert_eq!(activation.restore(vec![reals(&[1.0])]), Err(Error::DeserializationFailure));
}

#[test]
fn network_forward_runs_the_layers_in_order() {
    let mut net: RealNetwork = Network::new(mse, mse_prime);
    net.add(Stage::Dense(Dense::from_parameters(
        real_matrix(&[&[1.0, -1.0], &[-1.0, 1.0]]),
        real_vector(&[0.0, 0.0]),
    )));
    net.add(relu_layer());
    net.add(Stage::Dense(Dense::from_parameters(
        real_matrix(&[&[2.0, 3.0]]),
        real_vector(&[1.0]),
    )));
    assert_eq!(*net.forward_propagate(real_vector(&[3.0, 1.0])).unwrap(), reals(&[5.0]));
    assert_eq!(*net.forward_propagate(real_vector(&[1.0, 3.0])).unwrap(), reals(&[7.0]));
}

#[test]
fn network_forward_leaves_the_input_and_each_output_on_the_stack() {
    let mut net = xor_network(3);
    assert_eq!(net.depth(), 0);
    net.forward_propagate(real_vector(&[0.0, 1.0])).unwrap();
    assert_eq!(net.depth(), 4);
    net.forward_propagate(real_vector(&[1.0, 1.0])).unwrap();
    assert_eq!(net.depth(), 8);
}

#[test]
fn network_forward_that_fails_leaves_the_stack() {
    let mut net = xor_network(3);
    assert!(matches!(
        net.forward_propagate(real_vector(&[0.0, 1.0, 2.0])),
        Err(Error::DimensionMismatch)
    ));
    assert_eq!(net.depth(), 0);
    net.forward_propagate(real_vector(&[0.0, 1.0])).unwrap();
    assert!(matches!(net.forward_propagate(real_vector(&[0.0])), Err(Error::DimensionMismatch)));
    assert_eq!(net.depth(), 4);
}

#[test]
fn backward_after_forward_empties_the_stack() {
    let mut net = xor_network(3);
    for round in 0..5 {
        let x = real_vector(&[round as f32, 1.0]);
        let out = net.forward_propagate(x).unwrap();
        assert_eq!(net.depth(), 4);
        let error = mse_prime(&out, &real_vector(&[1.0]));
        assert_eq!(net.backward_propagate(error, Real(0.03)), Ok(()));
        assert_eq!(net.depth(), 0);
    }
}

#[test]
fn backward_that_fails_still_empties_the_stack() {
    let mut net = xor_network(3);
    let before = net.serialize();
    net.forward_propagate(real_vector(&[0.0, 1.0])).unwrap();
    assert_eq!(
        net.backward_propagate(real_vector(&[1.0, 2.0]), Real(0.03)),
        Err(Error::DimensionMismatch)
    );
    assert_eq!(net.depth(), 0);
    assert_eq!(net.serialize(), before);
}

#[test]
fn training_leaves_the_stack_empty() {
    let mut net = xor_network(3);
    let losses = net.train(xor_inputs(), xor_targets(), Real(0.03), 3).unwrap();
    assert_eq!(losses.len(), 3);
    assert_eq!(net.depth(), 0);
    net.train_sample(&real_vector(&[1.0, 0.0]), &real_vector(&[1.0]), Real(0.03)).unwrap();
    assert_eq!(net.depth(), 0);
}

#[test]
fn xor_is_learnt_in_five_hundred_epochs() {
    let mut net = xor_network(3);
    let losses = net.train(xor_inputs(), xor_targets(), Real(0.03), 500).unwrap();
    assert_eq!(losses.len(), 500);
    assert!(losses[499].0 < losses[0].0);
    for (x, y) in xor_inputs().into_iter().zip(xor_targets()) {
        let out = net.forward_propagate(x).unwrap();
        assert_eq!(out.size(), 1);
        assert!((out[0].0 - y[0].0).abs() < 0.2);
    }
}

#[test]
fn network_of_random_layers_has_the_shapes_asked_for() {
    let mut net: RealNetwork = Network::new(mse, mse_prime);
    net.add(Stage::Dense(Dense::new(2, 4)));
    net.add(relu_layer());
    net.add(Stage::Dense(Dense::new(4, 1)));
    let out = net.forward_propagate(real_vector(&[1.0, 0.0])).unwrap();
    assert_eq!(out.size(), 1);
    let losses = net.train(xor_inputs(), xor_targets(), Real(0.03), 2);
    assert_eq!(losses.unwrap().len(), 2);
}

#[test]
fn training_steps_once_for_each_sample_of_each_epoch() {
    let mut net = Network::new(first_difference, differences);
    net.add(Dense::from_parameters(
        Matrix::from_data(vec![vec![fixed(1)]]),
        Vector::from_data(vec![fixed(0)]),
    ));
    let half = Fixed::from_raw(32768);
    let inputs = vec![Vector::from_data(vec![fixed(2)])];
    let targets = vec![Vector::from_data(vec![fixed(1)])];
    let losses = net.train(inputs, targets, half, 2).unwrap();
    assert_eq!(losses, vec![fixed(1), Fixed::from_raw(-98304)]);
    let parameters = decode::<Fixed>(&net.serialize()).unwrap();
    assert_eq!(
        parameters,
        vec![vec![vec![Fixed::from_raw(98304)], vec![Fixed::from_raw(16384)]]]
    );
}

#[test]
fn epoch_loss_adds_the_losses_of_the_samples_in_order() {
    let mut net = Network::new(first_difference, differences);
    net.add(Dense::from_parameters(
        Matrix::from_data(vec![vec![fixed(1)]]),
        Vector::from_data(vec![fixed(0)]),
    ));
    let inputs = vec![Vector::from_data(vec![fixed(2)]), Vector::from_data(vec![fixed(5)])];
    let targets = vec![Vector::from_data(vec![fixed(1)]), Vector::from_data(vec![fixed(1)])];
    let total = net.train_epoch(&inputs, &targets, fixed(0)).unwrap();
    assert_eq!(total, fixed(5));
}

#[test]
fn training_without_epochs_does_nothing() {
    let mut net = xor_network(3);
    let before = net.serialize();
    assert!(net.train(xor_inputs(), xor_targets(), Real(0.03), 0).unwrap().is_empty());
    assert_eq!(net.serialize(), before);
}

#[test]
fn training_with_more_inputs_than_targets_is_a_dimension_mismatch() {
    let mut net = xor_network(3);
    let before = net.serialize();
    let mut targets = xor_targets();
    targets.pop();
    assert!(matches!(
        net.train(xor_inputs(), targets, Real(0.03), 5),
        Err(Error::DimensionMismatch)
    ));
    assert_eq!(net.serialize(), before);
}

#[test]
fn training_on_a_sample_of_the_wrong_size_is_a_dimension_mismatch() {
    let mut net = xor_network(3);
    let mut inputs = xor_inputs();
    inputs[2] = real_vector(&[1.0, 0.0, 1.0]);
    assert!(matches!(
        net.train(inputs, xor_targets(), Real(0.03), 5),
        Err(Error::DimensionMismatch)
    ));
    assert_eq!(net.depth(), 0);
}

#[test]
fn snapshot_holds_counts_lengths_and_bit_patterns() {
    let mut net = Network::new(first_difference, differences);
    net.add(Dense::from_parameters(
        Matrix::from_data(vec![vec![fixed(1)]]),
        Vector::from_data(vec![fixed(2)]),
    ));
    let expected: Vec<u8> = vec![
        1, 0, 0, 0, 0, 0, 0, 0, 2, 0, 0, 0, 0, 0, 0, 0, 1, 0, 0, 0, 0, 0, 0, 0, 0, 0, 1, 0, 1, 0,
        0, 0, 0, 0, 0, 0, 0, 0, 2, 0,
    ];
    assert_eq!(net.serialize(), expected);
    assert_eq!(encode(&vec![vec![vec![fixed(1)], vec![fixed(2)]]]), expected);
    assert_eq!(
        decode::<Fixed>(&expected),
        Ok(vec![vec![vec![fixed(1)], vec![fixed(2)]]])
    );
}

#[test]
fn snapshot_of_no_layers_is_a_zero_count() {
    let net: RealNetwork = Network::new(mse, mse_prime);
    assert_eq!(net.serialize(), vec![0u8; 8]);
    assert_eq!(decode::<Real>(&[0u8; 8]), Ok(Vec::new()));
}

#[test]
fn snapshot_round_trip_reproduces_the_predictions() {
    let mut trained = xor_network(3);
    trained.train(xor_inputs(), xor_targets(), Real(0.03), 50).unwrap();
    let bytes = trained.serialize();
    let mut fresh = xor_network(7);
    assert_ne!(fresh.serialize(), bytes);
    assert_eq!(fresh.deserialize(&bytes), Ok(()));
    assert_eq!(fresh.serialize(), bytes);
    for x in [[0.0f32, 0.0], [0.0, 1.0], [1.0, 0.0], [1.0, 1.0], [0.3, -2.5]] {
        let a = trained.forward_propagate(real_vector(&x)).unwrap();
        let b = fresh.forward_propagate(real_vector(&x)).unwrap();
        assert_eq!(
            a.iter().map(|v| v.0.to_bits()).collect::<Vec<u32>>(),
            b.iter().map(|v| v.0.to_bits()).collect::<Vec<u32>>()
        );
    }
}

#[test]
fn malformed_snapshots_are_deserialization_failures() {
    let mut net = xor_network(3);
    let bytes = net.serialize();
    let before = bytes.clone();
    assert_eq!(net.deserialize(&[]), Err(Error::DeserializationFailure));
    assert_eq!(net.deserialize(&bytes[..bytes.len() - 1]), Err(Error::DeserializationFailure));
    let mut longer = bytes.clone();
    longer.push(0);
    assert_eq!(net.deserialize(&longer), Err(Error::DeserializationFailure));
    let mut huge = bytes.clone();
    huge[7] = 0xff;
    assert_eq!(net.deserialize(&huge), Err(Error::DeserializationFailure));
    assert_eq!(decode::<Real>(&[1, 0, 0]), Err(Error::DeserializationFailure));
    assert_eq!(decode::<Real>(&longer), Err(Error::DeserializationFailure));
    assert_eq!(net.serialize(), before);
}

#[test]
fn snapshots_of_another_topology_are_deserialization_failures() {
    let mut net = xor_network(3);
    let before = net.serialize();
    let mut other: RealNetwork = Network::new(mse, mse_prime);
    other.add(Stage::Dense(Dense::new(2, 4)));
    other.add(relu_layer());
    assert_eq!(net.deserialize(&other.serialize()), Err(Error::DeserializationFailure));
    other.add(Stage::Dense(Dense::new(4, 2)));
    assert_eq!(net.deserialize(&other.serialize()), Err(Error::DeserializationFailure));
    let mut swapped: RealNetwork = Network::new(mse, mse_prime);
    swapped.add(relu_layer());
    swapped.add(Stage::Dense(Dense::new(2, 4)));
    swapped.add(Stage::Dense(Dense::new(4, 1)));
    assert_eq!(net.deserialize(&swapped.serialize()), Err(Error::DeserializationFailure));
    assert_eq!(net.serialize(), before);
}
