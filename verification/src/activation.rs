//! Activation functions applied elementwise between network layers.
//!
//! An activation is a pure scalar function together with its derivative
//! written as a function of the activation's own output, which is the form
//! the backward pass consumes. Only activations whose derivative can be read
//! off their output fit this scheme.

use vstd::prelude::*;

verus! {

/// The supported activation functions.
#[derive(Clone, Copy, PartialEq, Eq, Structural, Debug)]
pub enum Activation {
    /// Passes its input through unchanged; the derivative is 1 everywhere.
    Identity,
    /// Clamps negatives to zero. The derivative can be read off the output:
    /// 1 where the output is positive, 0 where it is zero.
    Relu,
}

impl Activation {
    /// What the activation returns on `x`.
    pub open spec fn spec_forward(self, x: i64) -> i64 {
        match self {
            Activation::Identity => x,
            Activation::Relu => if x < 0 {
                0
            } else {
                x
            },
        }
    }

    /// The derivative, as a function of the activation's output `y`.
    pub open spec fn spec_derivative(self, y: i64) -> i64 {
        match self {
            Activation::Identity => 1,
            Activation::Relu => if y > 0 {
                1
            } else {
                0
            },
        }
    }

    /// Applies the activation to one scalar.
    pub fn forward(&self, x: i64) -> (r: i64)
        ensures
            r == self.spec_forward(x),
    {
        match self {
            Activation::Identity => x,
            Activation::Relu => if x < 0 {
                0
            } else {
                x
            },
        }
    }

    /// The derivative of the activation at the point whose output was `y`.
    pub fn derivative_from_output(&self, y: i64) -> (r: i64)
        ensures
            r == self.spec_derivative(y),
    {
        match self {
            Activation::Identity => 1,
            Activation::Relu => if y > 0 {
                1
            } else {
                0
            },
        }
    }
}

} // verus!
