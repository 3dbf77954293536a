//! A minimal dense-matrix library and a fully-connected feedforward network
//! trained by online backpropagation, with every operation specified exactly
//! over wrapping 64-bit integer arithmetic.

pub mod activation;
pub mod matrix;
pub mod network;
