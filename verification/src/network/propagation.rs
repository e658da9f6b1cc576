use vstd::prelude::*;
use crate::narray::matrix::{outer_product, Grid};
use crate::narray::scalar::Scalar;
use crate::narray::vector::{elementwise_difference, hadamard_product};
use crate::network::layer::{LayerParams, LayerState};

verus! {

/// The parameters of the layers whose states are `states`, in their order.
pub open spec fn params_of<T: Scalar>(states: Seq<LayerState<T>>) -> Seq<LayerParams<T>> {
    Seq::new(states.len(), |l: int| states[l].params)
}

/// The vector that enters layer `l` when `x` is fed to the first layer; for
/// `l` the number of layers, the vector that leaves the last one.
pub open spec fn signal<T: Scalar>(p: Seq<LayerParams<T>>, x: Seq<T>, l: int) -> Seq<T>
    decreases l,
{
    if l <= 0 {
        x
    } else {
        p[l - 1].output(signal(p, x, l - 1))
    }
}

/// Whether each of the first `l` layers is handed a vector of the length
/// of its input when `x` is fed to the first layer.
#[verifier::opaque]
pub open spec fn reaches<T: Scalar>(p: Seq<LayerParams<T>>, x: Seq<T>, l: int) -> bool {
    forall|j: int| 0 <= j < l ==> (#[trigger] signal(p, x, j)).len() == p[j].input_size
}

/// The states that a forward pass on `x` leaves behind: each layer that
/// the signal reaches with the right length remembers its part of the pass,
/// the others are as before.
#[verifier::opaque]
pub open spec fn after_forward_pass<T: Scalar>(
    states: Seq<LayerState<T>>,
    x: Seq<T>,
) -> Seq<LayerState<T>> {
    Seq::new(
        states.len(),
        |l: int|
            if reaches(params_of(states), x, l + 1) {
                states[l].after_forward(signal(params_of(states), x, l))
            } else {
                states[l]
            },
    )
}

/// A signal that reaches layer `l` and has the length of its input
/// reaches the layer after it.
pub proof fn lemma_reaches_next<T: Scalar>(p: Seq<LayerParams<T>>, x: Seq<T>, l: int)
    requires
        reaches(p, x, l),
        signal(p, x, l).len() == p[l].input_size,
    ensures
        reaches(p, x, l + 1),
{
    reveal(reaches);
}

/// A signal that reaches `m` layers reaches any smaller number of them.
pub proof fn lemma_reaches_fewer<T: Scalar>(p: Seq<LayerParams<T>>, x: Seq<T>, l: int, m: int)
    requires
        reaches(p, x, m),
        l <= m,
    ensures
        reaches(p, x, l),
        0 <= l < m ==> signal(p, x, l).len() == p[l].input_size,
{
    reveal(reaches);
}

/// A signal that layer `l` turns down reaches no layer after it.
pub proof fn lemma_reaches_stops<T: Scalar>(p: Seq<LayerParams<T>>, x: Seq<T>, l: int, m: int)
    requires
        0 <= l < m,
        signal(p, x, l).len() != p[l].input_size,
    ensures
        !reaches(p, x, m),
{
    reveal(reaches);
}

/// The states during a forward pass that has passed `i` layers are those
/// after the pass, once it has passed all layers or layer `i` has turned
/// the signal down.
pub proof fn lemma_forward_pass_ended<T: Scalar>(
    before: Seq<LayerState<T>>,
    now: Seq<LayerState<T>>,
    x: Seq<T>,
    i: int,
)
    requires
        0 <= i <= before.len(),
        now.len() == before.len(),
        reaches(params_of(before), x, i),
        i < before.len() ==> signal(params_of(before), x, i).len()
            != params_of(before)[i].input_size,
        forall|l: int|
            0 <= l < i ==> now[l] == before[l].after_forward(signal(params_of(before), x, l)),
        forall|l: int| i <= l < before.len() ==> now[l] == before[l],
    ensures
        now == after_forward_pass(before, x),
{
    reveal(after_forward_pass);
    let p = params_of(before);
    let target = after_forward_pass(before, x);
    assert forall|l: int| 0 <= l < before.len() implies now[l] == target[l] by {
        if l < i {
            lemma_reaches_fewer(p, x, l + 1, i);
        } else {
            lemma_reaches_stops(p, x, i, l + 1);
        }
    }
    assert(now =~= target);
}

/// The error of layer `l` in a backward pass for the input `x` and the
/// expected output `y`. The last layer's error is the difference of the
/// network's output and `y`, multiplied elementwise by the derivative of
/// its activation at its pre-activation. Every other layer's error is the
/// error of the layer after it, taken through that layer's transposed
/// weights and multiplied elementwise by the derivative of the layer's own
/// activation at its own pre-activation.
pub open spec fn delta<T: Scalar>(p: Seq<LayerParams<T>>, x: Seq<T>, y: Seq<T>, l: int) -> Seq<T>
    decreases p.len() - l,
{
    let slope = p[l].activation.derivative(p[l].pre_activation(signal(p, x, l)));
    if l + 1 >= p.len() {
        hadamard_product(elementwise_difference(signal(p, x, l + 1), y), slope)
    } else {
        p[l + 1].propagated(delta(p, x, y, l + 1), Some(slope))
    }
}

/// The gradient of the cost in the weights of layer `l`, for one example:
/// the outer product of the layer's error and the layer's input.
pub open spec fn weight_gradient<T: Scalar>(
    p: Seq<LayerParams<T>>,
    x: Seq<T>,
    y: Seq<T>,
    l: int,
) -> Grid<T> {
    outer_product(delta(p, x, y, l), signal(p, x, l))
}

/// Whether the example fits the network: the input passes all layers, and
/// the expected output has the length of the last layer's output.
pub open spec fn example_fits<T: Scalar>(p: Seq<LayerParams<T>>, x: Seq<T>, y: Seq<T>) -> bool {
    &&& reaches(p, x, p.len() as int)
    &&& p.len() > 0 ==> y.len() == p[p.len() - 1].output_size
}

/// What the layers remember after a forward and a backward pass for an
/// example that fits: each its input, its pre-activation, its output and
/// its error.
#[verifier::opaque]
pub open spec fn remembered<T: Scalar>(
    p: Seq<LayerParams<T>>,
    x: Seq<T>,
    y: Seq<T>,
) -> Seq<LayerState<T>> {
    Seq::new(
        p.len(),
        |l: int|
            LayerState {
                params: p[l],
                cache_input: signal(p, x, l),
                cache_z: p[l].pre_activation(signal(p, x, l)),
                cache_output: signal(p, x, l + 1),
                cache_error: delta(p, x, y, l),
            },
    )
}

/// What leaves a layer has as many elements as the layer's weights have
/// rows.
pub proof fn lemma_signal_rows<T: Scalar>(p: Seq<LayerParams<T>>, x: Seq<T>, l: int)
    requires
        0 < l,
    ensures
        signal(p, x, l).len() == p[l - 1].weight.rows,
{
}

/// What leaves a well-formed layer has the length of the layer's output.
pub proof fn lemma_signal_len<T: Scalar>(p: Seq<LayerParams<T>>, x: Seq<T>, l: int)
    requires
        0 < l <= p.len(),
        p[l - 1].wf(),
    ensures
        signal(p, x, l).len() == p[l - 1].output_size,
{
}

/// During a forward pass that reaches every layer, each layer remembers
/// its part of the pass.
pub proof fn lemma_forward_pass_complete<T: Scalar>(before: Seq<LayerState<T>>, x: Seq<T>, l: int)
    requires
        reaches(params_of(before), x, before.len() as int),
        0 <= l < before.len(),
    ensures
        after_forward_pass(before, x).len() == before.len(),
        after_forward_pass(before, x)[l] == before[l].after_forward(
            signal(params_of(before), x, l),
        ),
        params_of(after_forward_pass(before, x)) == params_of(before),
{
    reveal(after_forward_pass);
    lemma_reaches_fewer(params_of(before), x, l + 1, before.len() as int);
    assert(params_of(after_forward_pass(before, x)) =~= params_of(before));
}

/// A forward pass leaves the parameters as they are.
pub proof fn lemma_forward_pass_keeps_params<T: Scalar>(before: Seq<LayerState<T>>, x: Seq<T>)
    ensures
        after_forward_pass(before, x).len() == before.len(),
        params_of(after_forward_pass(before, x)) == params_of(before),
{
    reveal(after_forward_pass);
    assert(params_of(after_forward_pass(before, x)) =~= params_of(before));
}

/// Once every layer has added its error to what a complete forward pass
/// left behind, the layers remember the whole example.
pub proof fn lemma_backward_pass_complete<T: Scalar>(
    before: Seq<LayerState<T>>,
    now: Seq<LayerState<T>>,
    x: Seq<T>,
    y: Seq<T>,
)
    requires
        reaches(params_of(before), x, before.len() as int),
        now.len() == before.len(),
        forall|j: int|
            0 <= j < before.len() ==> now[j] == (LayerState {
                cache_error: delta(params_of(before), x, y, j),
                ..after_forward_pass(before, x)[j]
            }),
    ensures
        now == remembered(params_of(before), x, y),
        params_of(now) == params_of(before),
{
    reveal(remembered);
    let p = params_of(before);
    assert forall|k: int| 0 <= k < before.len() implies now[k] == remembered(p, x, y)[k] by {
        lemma_forward_pass_complete(before, x, k);
    }
    assert(now =~= remembered(p, x, y));
    assert(params_of(now) =~= p);
}

} // verus!
