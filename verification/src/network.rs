//! A fully-connected feedforward network trained by online backpropagation.
//!
//! The network owns one weight and one bias matrix per layer transition, a
//! single activation function shared by all layers, a scalar learning rate,
//! and the per-layer activations cached by the most recent forward pass. The
//! contracts pin the forward pass, the backward pass and the training loop
//! down exactly, as folds of the spec-level layer step over the layer list.

use vstd::prelude::*;
use vstd::pervasive::VecAdditionalExecFns;
use crate::activation::Activation;
use crate::matrix::{Matrix, wadd, ew_add, ew_mul, ew_scale, ew_sub, trans_of, dot_at, mat_mul_flat};

verus! {

/// The flat element data of each matrix in a sequence.
pub open spec fn mats_view(ms: Seq<Matrix>) -> Seq<Seq<i64>> {
    Seq::new(ms.len(), |k: int| ms[k].data@)
}

/// One layer of the forward pass: the `n_out x n_in` weight matrix with flat
/// data `w` is applied to the column `x`, the bias column `b` is added, and
/// the activation is applied elementwise.
pub open spec fn layer_vec(
    w: Seq<i64>,
    n_out: int,
    n_in: int,
    b: Seq<i64>,
    act: Activation,
    x: Seq<i64>,
) -> Seq<i64> {
    Seq::new(n_out as nat, |r: int| act.spec_forward(wadd(dot_at(w, n_in, x, 1, r, 0, n_in), b[r])))
}

/// The activation column after the first `k` layer transitions of the
/// forward pass on input `x`.
pub open spec fn forward_upto(
    layers: Seq<usize>,
    ws: Seq<Seq<i64>>,
    bs: Seq<Seq<i64>>,
    act: Activation,
    x: Seq<i64>,
    k: int,
) -> Seq<i64>
    decreases k,
{
    if k <= 0 {
        x
    } else {
        layer_vec(
            ws[k - 1],
            layers[k] as int,
            layers[k - 1] as int,
            bs[k - 1],
            act,
            forward_upto(layers, ws, bs, act, x, k - 1),
        )
    }
}

/// The per-layer activation cache that one forward pass on `x` leaves
/// behind: the input itself, then each layer's output in order.
pub open spec fn cache_model(
    layers: Seq<usize>,
    ws: Seq<Seq<i64>>,
    bs: Seq<Seq<i64>>,
    act: Activation,
    x: Seq<i64>,
) -> Seq<Seq<i64>> {
    Seq::new(layers.len(), |k: int| forward_upto(layers, ws, bs, act, x, k))
}

/// The activation's derivative applied elementwise to a column.
pub open spec fn ew_deriv(act: Activation, s: Seq<i64>) -> Seq<i64> {
    Seq::new(s.len(), |k: int| act.spec_derivative(s[k]))
}

/// The activation applied elementwise to a column.
pub open spec fn ew_act(act: Activation, s: Seq<i64>) -> Seq<i64> {
    Seq::new(s.len(), |k: int| act.spec_forward(s[k]))
}

/// Applies the activation to every element of a matrix.
fn apply_act(act: Activation, m: &Matrix) -> (r: Matrix)
    requires
        m.wf(),
    ensures
        r.wf(),
        r.rows == m.rows,
        r.cols == m.cols,
        r.data@ == ew_act(act, m.data@),
{
    let n = m.data.len();
    let mut data: Vec<i64> = Vec::new();
    let mut k: usize = 0;
    while k < n
        invariant
            n == m.data@.len(),
            k <= n,
            data@.len() == k,
            forall|p: int| 0 <= p < k ==> #[trigger] data@[p] == act.spec_forward(m.data@[p]),
        decreases n - k,
    {
        data.push(act.forward(m.data[k]));
        k += 1;
    }
    proof {
        assert(data@ =~= ew_act(act, m.data@));
    }
    Matrix { rows: m.rows, cols: m.cols, data }
}

/// Applies the activation's derivative to every element of a matrix.
fn apply_deriv(act: Activation, m: &Matrix) -> (r: Matrix)
    requires
        m.wf(),
    ensures
        r.wf(),
        r.rows == m.rows,
        r.cols == m.cols,
        r.data@ == ew_deriv(act, m.data@),
{
    let n = m.data.len();
    let mut data: Vec<i64> = Vec::new();
    let mut k: usize = 0;
    while k < n
        invariant
            n == m.data@.len(),
            k <= n,
            data@.len() == k,
            forall|p: int| 0 <= p < k ==> #[trigger] data@[p] == act.spec_derivative(m.data@[p]),
        decreases n - k,
    {
        data.push(act.derivative_from_output(m.data[k]));
        k += 1;
    }
    proof {
        assert(data@ =~= ew_deriv(act, m.data@));
    }
    Matrix { rows: m.rows, cols: m.cols, data }
}

/// The weight update of one backward step: the outer product of the step's
/// delta column with the cached layer input `c` (a column of length `n_in`),
/// added onto the old `n_out x n_in` weight data `w`.
pub open spec fn bp_step_w(w: Seq<i64>, delta: Seq<i64>, n_out: int, n_in: int, c: Seq<i64>) -> Seq<i64> {
    ew_add(mat_mul_flat(delta, n_out, 1, trans_of(n_in, 1, c), n_in), w)
}

/// The error and gradient columns entering backward step `t`. Step `t`
/// processes layer index `layers.len() - 2 - t`; step 0 starts from the
/// observed output `out` and the target `tg`. The error is propagated
/// through the just-updated weights of the previous step.
pub open spec fn bp_state(
    layers: Seq<usize>,
    ws: Seq<Seq<i64>>,
    cache: Seq<Seq<i64>>,
    act: Activation,
    lr: i64,
    out: Seq<i64>,
    tg: Seq<i64>,
    t: int,
) -> (Seq<i64>, Seq<i64>)
    decreases t,
{
    if t <= 0 {
        (ew_sub(tg, out), ew_deriv(act, out))
    } else {
        let prev = bp_state(layers, ws, cache, act, lr, out, tg, t - 1);
        let i = layers.len() - 1 - t;
        let delta = ew_scale(ew_mul(prev.1, prev.0), lr);
        let nw = bp_step_w(ws[i], delta, layers[i + 1] as int, layers[i] as int, cache[i]);
        (
            mat_mul_flat(
                trans_of(layers[i + 1] as int, layers[i] as int, nw),
                layers[i] as int,
                layers[i + 1] as int,
                prev.0,
                1,
            ),
            ew_deriv(act, cache[i]),
        )
    }
}

/// The delta column that the backward pass applies at layer `i`.
pub open spec fn bp_delta(
    layers: Seq<usize>,
    ws: Seq<Seq<i64>>,
    cache: Seq<Seq<i64>>,
    act: Activation,
    lr: i64,
    out: Seq<i64>,
    tg: Seq<i64>,
    i: int,
) -> Seq<i64> {
    let st = bp_state(layers, ws, cache, act, lr, out, tg, layers.len() - 2 - i);
    ew_scale(ew_mul(st.1, st.0), lr)
}

/// The weight data of layer `i` after one backward pass.
pub open spec fn bp_new_w(
    layers: Seq<usize>,
    ws: Seq<Seq<i64>>,
    cache: Seq<Seq<i64>>,
    act: Activation,
    lr: i64,
    out: Seq<i64>,
    tg: Seq<i64>,
    i: int,
) -> Seq<i64> {
    bp_step_w(
        ws[i],
        bp_delta(layers, ws, cache, act, lr, out, tg, i),
        layers[i + 1] as int,
        layers[i] as int,
        cache[i],
    )
}

/// The bias data of layer `i` after one backward pass.
pub open spec fn bp_new_b(
    layers: Seq<usize>,
    ws: Seq<Seq<i64>>,
    bs: Seq<Seq<i64>>,
    cache: Seq<Seq<i64>>,
    act: Activation,
    lr: i64,
    out: Seq<i64>,
    tg: Seq<i64>,
    i: int,
) -> Seq<i64> {
    ew_add(bs[i], bp_delta(layers, ws, cache, act, lr, out, tg, i))
}

/// The element sequence of each vector in a sequence of vectors.
pub open spec fn rows_view(vs: Seq<Vec<i64>>) -> Seq<Seq<i64>> {
    Seq::new(vs.len(), |k: int| vs[k]@)
}

/// The weight and bias data after training on one example: a forward pass on
/// `x` fills the cache, and one backward pass against the target `tg` then
/// updates every layer.
pub open spec fn train_example(
    layers: Seq<usize>,
    ws: Seq<Seq<i64>>,
    bs: Seq<Seq<i64>>,
    act: Activation,
    lr: i64,
    x: Seq<i64>,
    tg: Seq<i64>,
) -> (Seq<Seq<i64>>, Seq<Seq<i64>>) {
    let cache = cache_model(layers, ws, bs, act, x);
    let out = forward_upto(layers, ws, bs, act, x, layers.len() - 1);
    (
        Seq::new(ws.len(), |i: int| bp_new_w(layers, ws, cache, act, lr, out, tg, i)),
        Seq::new(bs.len(), |i: int| bp_new_b(layers, ws, bs, cache, act, lr, out, tg, i)),
    )
}

/// The weight and bias data after training on the first `j` examples, in
/// their given order.
pub open spec fn train_examples_upto(
    layers: Seq<usize>,
    ws: Seq<Seq<i64>>,
    bs: Seq<Seq<i64>>,
    act: Activation,
    lr: i64,
    xs: Seq<Seq<i64>>,
    tgs: Seq<Seq<i64>>,
    j: int,
) -> (Seq<Seq<i64>>, Seq<Seq<i64>>)
    decreases j,
{
    if j <= 0 {
        (ws, bs)
    } else {
        let prev = train_examples_upto(layers, ws, bs, act, lr, xs, tgs, j - 1);
        train_example(layers, prev.0, prev.1, act, lr, xs[j - 1], tgs[j - 1])
    }
}

/// The weight and bias data after `e` full epochs over the example list.
pub open spec fn train_epochs(
    layers: Seq<usize>,
    ws: Seq<Seq<i64>>,
    bs: Seq<Seq<i64>>,
    act: Activation,
    lr: i64,
    xs: Seq<Seq<i64>>,
    tgs: Seq<Seq<i64>>,
    e: int,
) -> (Seq<Seq<i64>>, Seq<Seq<i64>>)
    decreases e,
{
    if e <= 0 {
        (ws, bs)
    } else {
        let prev = train_epochs(layers, ws, bs, act, lr, xs, tgs, e - 1);
        train_examples_upto(layers, prev.0, prev.1, act, lr, xs, tgs, xs.len() as int)
    }
}

/// An owned copy of a row of training data.
fn clone_row(v: &Vec<i64>) -> (r: Vec<i64>)
    ensures
        r@ == v@,
{
    let n = v.len();
    let mut r: Vec<i64> = Vec::new();
    let mut k: usize = 0;
    while k < n
        invariant
            n == v@.len(),
            k <= n,
            r@.len() == k,
            forall|p: int| 0 <= p < k ==> #[trigger] r@[p] == v@[p],
        decreases n - k,
    {
        r.push(v[k]);
        k += 1;
    }
    proof {
        assert(r@ =~= v@);
    }
    r
}

/// A fully-connected feedforward network.
pub struct Network {
    pub layers: Vec<usize>,
    pub weights: Vec<Matrix>,
    pub biases: Vec<Matrix>,
    pub activation: Activation,
    pub data: Vec<Matrix>,
    pub learning_rate: i64,
}

impl Network {
    /// Structural well-formedness: at least two layer sizes, one weight and
    /// one bias matrix per transition, and every matrix shaped by its layers.
    pub open spec fn wf(self) -> bool {
        &&& self.layers@.len() >= 2
        &&& self.weights@.len() == self.layers@.len() - 1
        &&& self.biases@.len() == self.layers@.len() - 1
        &&& forall|i: int|
            0 <= i < self.weights@.len() ==> {
                &&& (#[trigger] self.weights@[i]).wf()
                &&& self.weights@[i].rows == self.layers@[i + 1]
                &&& self.weights@[i].cols == self.layers@[i]
            }
        &&& forall|i: int|
            0 <= i < self.biases@.len() ==> {
                &&& (#[trigger] self.biases@[i]).wf()
                &&& self.biases@[i].rows == self.layers@[i + 1]
                &&& self.biases@[i].cols == 1
            }
    }

    /// The cache left by a forward pass: one column per layer, sized to it.
    pub open spec fn cache_wf(self) -> bool {
        &&& self.data@.len() == self.layers@.len()
        &&& forall|k: int|
            0 <= k < self.data@.len() ==> {
                &&& (#[trigger] self.data@[k]).wf()
                &&& self.data@[k].rows == self.layers@[k]
                &&& self.data@[k].cols == 1
            }
    }

    /// Builds a network for the given layer sizes. Each transition gets a
    /// weight matrix of shape `layers[i+1] x layers[i]` and a bias column of
    /// shape `layers[i+1] x 1`, every entry drawn uniformly from `0..1`.
    pub fn new(layers: Vec<usize>, activation: Activation, learning_rate: i64) -> (r: Network)
        requires
            layers@.len() >= 2,
        ensures
            r.wf(),
            r.layers@ == layers@,
            r.activation == activation,
            r.learning_rate == learning_rate,
            r.data@.len() == 0,
            forall|i: int, p: int|
                0 <= i < r.weights@.len() && 0 <= p < r.weights@[i].data@.len() ==> 0 <= (
                #[trigger] r.weights@[i].data@[p]) < 1,
            forall|i: int, p: int|
                0 <= i < r.biases@.len() && 0 <= p < r.biases@[i].data@.len() ==> 0 <= (
                #[trigger] r.biases@[i].data@[p]) < 1,
    {
        let len = layers.len();
        let mut weights: Vec<Matrix> = Vec::new();
        let mut biases: Vec<Matrix> = Vec::new();
        let mut i: usize = 0;
        while i < len - 1
            invariant
                len == layers@.len(),
                len >= 2,
                i <= len - 1,
                weights@.len() == i,
                biases@.len() == i,
                forall|k: int|
                    0 <= k < i ==> {
                        &&& (#[trigger] weights@[k]).wf()
                        &&& weights@[k].rows == layers@[k + 1]
                        &&& weights@[k].cols == layers@[k]
                    },
                forall|k: int|
                    0 <= k < i ==> {
                        &&& (#[trigger] biases@[k]).wf()
                        &&& biases@[k].rows == layers@[k + 1]
                        &&& biases@[k].cols == 1
                    },
                forall|k: int, p: int|
                    0 <= k < i && 0 <= p < weights@[k].data@.len() ==> 0 <= (
                    #[trigger] weights@[k].data@[p]) < 1,
                forall|k: int, p: int|
                    0 <= k < i && 0 <= p < biases@[k].data@.len() ==> 0 <= (
                    #[trigger] biases@[k].data@[p]) < 1,
            decreases len - 1 - i,
        {
            let w = Matrix::random(layers[i + 1], layers[i], 0, 1);
            let b = Matrix::random(layers[i + 1], 1, 0, 1);
            weights.push(w);
            biases.push(b);
            i += 1;
        }
        Network { layers, weights, biases, activation, data: Vec::new(), learning_rate }
    }

    /// Runs the forward pass: starting from `input`, applies each layer in
    /// order, rebuilding the activation cache (input included) as it goes,
    /// and returns the final layer's output column.
    fn feed_forward(&mut self, input: Matrix) -> (r: Matrix)
        requires
            old(self).wf(),
            input.wf(),
            input.rows == old(self).layers@[0],
            input.cols == 1,
        ensures
            final(self).wf(),
            final(self).layers == old(self).layers,
            final(self).weights == old(self).weights,
            final(self).biases == old(self).biases,
            final(self).activation == old(self).activation,
            final(self).learning_rate == old(self).learning_rate,
            final(self).cache_wf(),
            mats_view(final(self).data@) == cache_model(
                old(self).layers@,
                mats_view(old(self).weights@),
                mats_view(old(self).biases@),
                old(self).activation,
                input.data@,
            ),
            r.wf(),
            r.rows == old(self).layers@[old(self).layers@.len() - 1],
            r.cols == 1,
            r.data@ == forward_upto(
                old(self).layers@,
                mats_view(old(self).weights@),
                mats_view(old(self).biases@),
                old(self).activation,
                input.data@,
                old(self).layers@.len() - 1,
            ),
    {
        let ghost layers0 = self.layers@;
        let ghost ws0 = mats_view(self.weights@);
        let ghost bs0 = mats_view(self.biases@);
        let ghost x0 = input.data@;
        let act = self.activation;
        let mut current = input;
        self.data = Vec::new();
        let first = current.clone();
        self.data.push(first);
        let l = self.layers.len();
        let mut i: usize = 0;
        while i < l - 1
            invariant
                self.wf(),
                self.layers == old(self).layers,
                self.layers@ == layers0,
                self.weights == old(self).weights,
                self.biases == old(self).biases,
                self.activation == old(self).activation,
                self.learning_rate == old(self).learning_rate,
                ws0 == mats_view(self.weights@),
                bs0 == mats_view(self.biases@),
                act == self.activation,
                l == layers0.len(),
                i <= l - 1,
                current.wf(),
                current.cols == 1,
                current.rows == layers0[i as int],
                current.data@ == forward_upto(layers0, ws0, bs0, act, x0, i as int),
                self.data@.len() == i + 1,
                forall|k: int|
                    0 <= k <= i ==> {
                        &&& (#[trigger] self.data@[k]).wf()
                        &&& self.data@[k].rows == layers0[k]
                        &&& self.data@[k].cols == 1
                        &&& self.data@[k].data@ == forward_upto(layers0, ws0, bs0, act, x0, k)
                    },
            decreases l - 1 - i,
        {
            let z = self.weights[i].dot(&current);
            let zb = z.add(&self.biases[i]);
            let next = apply_act(act, &zb);
            proof {
                let lv = layer_vec(
                    ws0[i as int],
                    layers0[i + 1] as int,
                    layers0[i as int] as int,
                    bs0[i as int],
                    act,
                    current.data@,
                );
                assert forall|p: int| 0 <= p < next.data@.len() implies next.data@[p] == lv[p] by {
                    assert(zb.data@[p] == wadd(z.data@[p], self.biases@[i as int].data@[p]));
                    assert(z.ent(p, 0) == dot_at(
                        self.weights@[i as int].data@,
                        self.weights@[i as int].cols as int,
                        current.data@,
                        1,
                        p,
                        0,
                        self.weights@[i as int].cols as int,
                    ));
                }
                assert(next.data@ =~= lv);
            }
            current = next;
            let cached = current.clone();
            self.data.push(cached);
            i += 1;
        }
        proof {
            assert(mats_view(self.data@) =~= cache_model(layers0, ws0, bs0, act, x0));
        }
        current
    }

    /// Runs one backward pass. `input` is the output column observed by the
    /// forward pass that filled the activation cache; this call must follow
    /// that forward pass directly. Iterating from the last layer back to the
    /// first, it adds each step's delta onto the layer's bias, adds the outer
    /// product of the delta with the cached layer input onto the layer's
    /// weights, and propagates the error through the just-updated weights.
    fn back_propagate(&mut self, input: Matrix, target: Matrix)
        requires
            old(self).wf(),
            old(self).cache_wf(),
            input.wf(),
            input.cols == 1,
            input.rows == old(self).layers@[old(self).layers@.len() - 1],
            target.wf(),
            target.cols == 1,
            target.rows == old(self).layers@[old(self).layers@.len() - 1],
        ensures
            final(self).wf(),
            final(self).cache_wf(),
            final(self).layers == old(self).layers,
            final(self).activation == old(self).activation,
            final(self).learning_rate == old(self).learning_rate,
            final(self).data == old(self).data,
            final(self).weights@.len() == old(self).weights@.len(),
            final(self).biases@.len() == old(self).biases@.len(),
            forall|i: int|
                0 <= i < final(self).weights@.len() ==> (#[trigger] final(self).weights@[i]).data@
                    == bp_new_w(
                    old(self).layers@,
                    mats_view(old(self).weights@),
                    mats_view(old(self).data@),
                    old(self).activation,
                    old(self).learning_rate,
                    input.data@,
                    target.data@,
                    i,
                ),
            forall|i: int|
                0 <= i < final(self).biases@.len() ==> (#[trigger] final(self).biases@[i]).data@
                    == bp_new_b(
                    old(self).layers@,
                    mats_view(old(self).weights@),
                    mats_view(old(self).biases@),
                    mats_view(old(self).data@),
                    old(self).activation,
                    old(self).learning_rate,
                    input.data@,
                    target.data@,
                    i,
                ),
    {
        let ghost layers0 = self.layers@;
        let ghost ws0 = mats_view(self.weights@);
        let ghost bs0 = mats_view(self.biases@);
        let ghost cache0 = mats_view(self.data@);
        let ghost out0 = input.data@;
        let ghost tg0 = target.data@;
        let ghost lr0 = self.learning_rate;
        let act = self.activation;
        let l = self.layers.len();
        let mut errors = target.sub(&input);
        let mut gradients = apply_deriv(act, &input);
        let mut t: usize = 0;
        while t < l - 1
            invariant
                old(self).wf(),
                old(self).cache_wf(),
                self.wf(),
                self.cache_wf(),
                self.layers == old(self).layers,
                self.layers@ == layers0,
                self.activation == old(self).activation,
                act == self.activation,
                self.learning_rate == old(self).learning_rate,
                lr0 == self.learning_rate,
                self.data == old(self).data,
                cache0 == mats_view(self.data@),
                ws0 == mats_view(old(self).weights@),
                bs0 == mats_view(old(self).biases@),
                l == layers0.len(),
                l >= 2,
                t <= l - 1,
                self.weights@.len() == l - 1,
                self.biases@.len() == l - 1,
                errors.wf(),
                errors.cols == 1,
                errors.rows == layers0[l - 1 - t],
                errors.data@ == bp_state(layers0, ws0, cache0, act, lr0, out0, tg0, t as int).0,
                gradients.wf(),
                gradients.cols == 1,
                gradients.rows == layers0[l - 1 - t],
                gradients.data@ == bp_state(layers0, ws0, cache0, act, lr0, out0, tg0, t as int).1,
                forall|j: int|
                    l - 1 - t <= j < l - 1 ==> (#[trigger] self.weights@[j]).data@ == bp_new_w(
                        layers0, ws0, cache0, act, lr0, out0, tg0, j),
                forall|j: int|
                    l - 1 - t <= j < l - 1 ==> (#[trigger] self.biases@[j]).data@ == bp_new_b(
                        layers0, ws0, bs0, cache0, act, lr0, out0, tg0, j),
                forall|j: int|
                    0 <= j < l - 1 - t ==> #[trigger] self.weights@[j] == old(self).weights@[j],
                forall|j: int|
                    0 <= j < l - 1 - t ==> #[trigger] self.biases@[j] == old(self).biases@[j],
            decreases l - 1 - t,
        {
            let i = l - 2 - t;
            let delta = gradients.hadamard(&errors).mul(self.learning_rate);
            let nb = self.biases[i].add(&delta);
            self.biases.set(i, nb);
            let ct = self.data[i].transpose();
            let dp = delta.dot(&ct);
            let nw = dp.add(&self.weights[i]);
            proof {
                assert(ws0[i as int] == old(self).weights@[i as int].data@);
                assert(nw.data@ == bp_step_w(
                    ws0[i as int],
                    bp_delta(layers0, ws0, cache0, act, lr0, out0, tg0, i as int),
                    layers0[i + 1] as int,
                    layers0[i as int] as int,
                    cache0[i as int],
                ));
            }
            self.weights.set(i, nw);
            let wt = self.weights[i].transpose();
            errors = wt.dot(&errors);
            gradients = apply_deriv(act, &self.data[i]);
            proof {
                let st1 = bp_state(layers0, ws0, cache0, act, lr0, out0, tg0, t + 1 as int);
                assert(delta.data@ == bp_delta(layers0, ws0, cache0, act, lr0, out0, tg0, i as int));
                assert(self.weights@[i as int].data@ == bp_new_w(
                    layers0, ws0, cache0, act, lr0, out0, tg0, i as int));
                assert(self.biases@[i as int].data@ == bp_new_b(
                    layers0, ws0, bs0, cache0, act, lr0, out0, tg0, i as int));
                assert(errors.data@ == st1.0);
                assert(gradients.data@ == st1.1);
            }
            t += 1;
        }
    }

    /// Forward-only inference. Shares the forward pass, and so also rewrites
    /// the activation cache.
    pub fn predict(&mut self, input: Matrix) -> (r: Matrix)
        requires
            old(self).wf(),
            input.wf(),
            input.rows == old(self).layers@[0],
            input.cols == 1,
        ensures
            final(self).wf(),
            final(self).layers == old(self).layers,
            final(self).weights == old(self).weights,
            final(self).biases == old(self).biases,
            final(self).activation == old(self).activation,
            final(self).learning_rate == old(self).learning_rate,
            final(self).cache_wf(),
            r.wf(),
            r.rows == old(self).layers@[old(self).layers@.len() - 1],
            r.cols == 1,
            r.data@ == forward_upto(
                old(self).layers@,
                mats_view(old(self).weights@),
                mats_view(old(self).biases@),
                old(self).activation,
                input.data@,
                old(self).layers@.len() - 1,
            ),
    {
        self.feed_forward(input)
    }

    /// Online training: for each epoch in turn, runs a forward pass and then
    /// a backward pass on every example, in their given order, updating the
    /// weights and biases in place after each single example.
    pub fn train(&mut self, inputs: Vec<Vec<i64>>, targets: Vec<Vec<i64>>, epochs: usize)
        requires
            old(self).wf(),
            inputs@.len() == targets@.len(),
            forall|j: int|
                0 <= j < inputs@.len() ==> (#[trigger] inputs@[j])@.len() == old(self).layers@[0],
            forall|j: int|
                0 <= j < targets@.len() ==> (#[trigger] targets@[j])@.len() == old(
                    self,
                ).layers@[old(self).layers@.len() - 1],
        ensures
            final(self).wf(),
            final(self).layers == old(self).layers,
            final(self).activation == old(self).activation,
            final(self).learning_rate == old(self).learning_rate,
            mats_view(final(self).weights@) == train_epochs(
                old(self).layers@,
                mats_view(old(self).weights@),
                mats_view(old(self).biases@),
                old(self).activation,
                old(self).learning_rate,
                rows_view(inputs@),
                rows_view(targets@),
                epochs as int,
            ).0,
            mats_view(final(self).biases@) == train_epochs(
                old(self).layers@,
                mats_view(old(self).weights@),
                mats_view(old(self).biases@),
                old(self).activation,
                old(self).learning_rate,
                rows_view(inputs@),
                rows_view(targets@),
                epochs as int,
            ).1,
    {
        let ghost layers0 = self.layers@;
        let ghost ws0 = mats_view(self.weights@);
        let ghost bs0 = mats_view(self.biases@);
        let ghost xs = rows_view(inputs@);
        let ghost tgs = rows_view(targets@);
        let ghost lr0 = self.learning_rate;
        let ghost act0 = self.activation;
        let n = inputs.len();
        let mut e: usize = 0;
        while e < epochs
            invariant
                old(self).wf(),
                self.wf(),
                self.layers == old(self).layers,
                self.layers@ == layers0,
                self.activation == old(self).activation,
                self.learning_rate == old(self).learning_rate,
                ws0 == mats_view(old(self).weights@),
                bs0 == mats_view(old(self).biases@),
                xs == rows_view(inputs@),
                tgs == rows_view(targets@),
                lr0 == self.learning_rate,
                act0 == self.activation,
                n == inputs@.len(),
                inputs@.len() == targets@.len(),
                forall|j: int|
                    0 <= j < inputs@.len() ==> (#[trigger] inputs@[j])@.len() == layers0[0],
                forall|j: int|
                    0 <= j < targets@.len() ==> (#[trigger] targets@[j])@.len() == layers0[
                        layers0.len() - 1],
                e <= epochs,
                mats_view(self.weights@) == train_epochs(
                    layers0, ws0, bs0, act0, lr0, xs, tgs, e as int).0,
                mats_view(self.biases@) == train_epochs(
                    layers0, ws0, bs0, act0, lr0, xs, tgs, e as int).1,
            decreases epochs - e,
        {
            let ghost we = train_epochs(layers0, ws0, bs0, act0, lr0, xs, tgs, e as int);
            let mut j: usize = 0;
            while j < n
                invariant
                    old(self).wf(),
                    self.wf(),
                    self.layers == old(self).layers,
                    self.layers@ == layers0,
                    self.activation == old(self).activation,
                    self.learning_rate == old(self).learning_rate,
                    xs == rows_view(inputs@),
                    tgs == rows_view(targets@),
                    lr0 == self.learning_rate,
                    act0 == self.activation,
                    n == inputs@.len(),
                    inputs@.len() == targets@.len(),
                    forall|k: int|
                        0 <= k < inputs@.len() ==> (#[trigger] inputs@[k])@.len() == layers0[0],
                    forall|k: int|
                        0 <= k < targets@.len() ==> (#[trigger] targets@[k])@.len() == layers0[
                            layers0.len() - 1],
                    j <= n,
                    mats_view(self.weights@) == train_examples_upto(
                        layers0, we.0, we.1, act0, lr0, xs, tgs, j as int).0,
                    mats_view(self.biases@) == train_examples_upto(
                        layers0, we.0, we.1, act0, lr0, xs, tgs, j as int).1,
                decreases n - j,
            {
                let ghost prev = train_examples_upto(layers0, we.0, we.1, act0, lr0, xs, tgs, j as int);
                let x = Matrix::from_vec(clone_row(&inputs[j]));
                let out = self.feed_forward(x);
                let tg = Matrix::from_vec(clone_row(&targets[j]));
                self.back_propagate(out, tg);
                proof {
                    let nxt = train_example(
                        layers0, prev.0, prev.1, act0, lr0, xs[j as int], tgs[j as int]);
                    assert(mats_view(self.weights@) =~= nxt.0);
                    assert(mats_view(self.biases@) =~= nxt.1);
                }
                j += 1;
            }
            e += 1;
        }
    }
}

} // verus!
