use neural_network::activation::Activation;
use neural_network::matrix::Matrix;
use neural_network::network::Network;

#[test]
fn test_activation_identity() {
    let act = Activation::Identity;
    assert_eq!(act.forward(-3), -3);
    assert_eq!(act.forward(7), 7);
    assert_eq!(act.derivative_from_output(-3), 1);
    assert_eq!(act.derivative_from_output(7), 1);
}

#[test]
fn test_activation_relu() {
    let act = Activation::Relu;
    assert_eq!(act.forward(-3), 0);
    assert_eq!(act.forward(0), 0);
    assert_eq!(act.forward(4), 4);
    assert_eq!(act.derivative_from_output(0), 0);
    assert_eq!(act.derivative_from_output(5), 1);
}

#[test]
fn test_predict_untrained_is_zero() {
    // Weights and biases are initialised uniformly from 0..1, which over the
    // integers pins every parameter to 0: the identity network outputs 0.
    let mut network = Network::new(vec![2, 3, 1], Activation::Identity, 1);
    let output = network.predict(Matrix::from_vec(vec![5, -4]));
    assert_eq!(output.rows, 1);
    assert_eq!(output.cols, 1);
    assert_eq!(output.data, vec![0]);
}

#[test]
fn test_predict_deterministic() {
    let mut network = Network::new(vec![2, 2, 1], Activation::Identity, 1);
    let first = network.predict(Matrix::from_vec(vec![3, 9]));
    let second = network.predict(Matrix::from_vec(vec![3, 9]));
    assert!(first == second);
}

#[test]
fn test_train_single_layer_exact() {
    // One transition, identity activation, zero-initialised parameters and
    // learning rate 1. Training once on input [2] with target [3]:
    // the error is 3, the gradient 1, so the delta is 3; the bias becomes 3
    // and the weight becomes 3 * 2 = 6. predict([2]) is then 6 * 2 + 3 = 15.
    let mut network = Network::new(vec![1, 1], Activation::Identity, 1);
    network.train(vec![vec![2]], vec![vec![3]], 1);
    let output = network.predict(Matrix::from_vec(vec![2]));
    assert_eq!(output.data, vec![15]);
}

#[test]
fn test_train_two_epochs_exact() {
    // Continuing the single-example run above for a second epoch:
    // forward gives 15, the error is 3 - 15 = -12, the delta -12, so the
    // bias becomes 3 - 12 = -9 and the weight 6 - 24 = -18; predict([2])
    // is then -18 * 2 - 9 = -45.
    let mut network = Network::new(vec![1, 1], Activation::Identity, 1);
    network.train(vec![vec![2]], vec![vec![3]], 2);
    let output = network.predict(Matrix::from_vec(vec![2]));
    assert_eq!(output.data, vec![-45]);
}

#[test]
fn test_train_two_layer_exact() {
    // Two transitions, identity activation, zero-initialised parameters and
    // learning rate 1, trained once on input [1] with target [1]. The output
    // error 1 flows into the last layer's bias (making it 1) while every
    // weight update multiplies a zero activation or a zero error, so all
    // other parameters stay 0; predict([1]) is then exactly 1.
    let mut network = Network::new(vec![1, 1, 1], Activation::Identity, 1);
    network.train(vec![vec![1]], vec![vec![1]], 1);
    let output = network.predict(Matrix::from_vec(vec![1]));
    assert_eq!(output.data, vec![1]);
}

#[test]
fn test_train_relu_network_shapes() {
    let mut network = Network::new(vec![2, 3, 2], Activation::Relu, 1);
    let inputs = vec![vec![1, 0], vec![0, 1]];
    let targets = vec![vec![1, 0], vec![0, 1]];
    network.train(inputs, targets, 3);
    let output = network.predict(Matrix::from_vec(vec![1, 1]));
    assert_eq!(output.rows, 2);
    assert_eq!(output.cols, 1);
}
