use vstd::prelude::*;
use crate::narray::matrix::Grid;
use crate::narray::scalar::Scalar;
use crate::narray::vector::{elementwise_difference, elementwise_sum, scaled, zeros};
use crate::network::layer::{LayerParams, LayerState};
use crate::network::propagation::{
    after_forward_pass, delta, example_fits, lemma_forward_pass_keeps_params, lemma_signal_rows,
    params_of, reaches, remembered, signal, weight_gradient,
};
use crate::network::shuffle::{is_permutation, lemma_permutation_covers};

verus! {

/// Whether every example fits the network.
pub open spec fn batch_fits<T: Scalar>(
    p: Seq<LayerParams<T>>,
    examples: Seq<(Seq<T>, Seq<T>)>,
) -> bool {
    forall|k: int|
        0 <= k < examples.len() ==> example_fits(p, (#[trigger] examples[k]).0, examples[k].1)
}

/// The sum, over the examples in their order and starting from a matrix
/// of zeros, of the gradients in the weights of layer `l`.
pub open spec fn summed_weight_gradient<T: Scalar>(
    p: Seq<LayerParams<T>>,
    examples: Seq<(Seq<T>, Seq<T>)>,
    l: int,
) -> Grid<T>
    decreases examples.len(),
{
    if examples.len() == 0 {
        Grid {
            rows: p[l].output_size,
            cols: p[l].input_size,
            cells: zeros::<T>(p[l].output_size * p[l].input_size),
        }
    } else {
        summed_weight_gradient(p, examples.drop_last(), l).plus(
            weight_gradient(p, examples.last().0, examples.last().1, l),
        )
    }
}

/// The sum, over the examples in their order and starting from a vector
/// of zeros, of the gradients in the biases of layer `l`.
pub open spec fn summed_bias_gradient<T: Scalar>(
    p: Seq<LayerParams<T>>,
    examples: Seq<(Seq<T>, Seq<T>)>,
    l: int,
) -> Seq<T>
    decreases examples.len(),
{
    if examples.len() == 0 {
        zeros::<T>(p[l].output_size)
    } else {
        elementwise_sum(
            summed_bias_gradient(p, examples.drop_last(), l),
            delta(p, examples.last().0, examples.last().1, l),
        )
    }
}

/// The parameters of a layer after one step of gradient descent: each
/// weight and each bias less `step` times its summed gradient.
pub open spec fn descended<T: Scalar>(
    p: LayerParams<T>,
    weight_sum: Grid<T>,
    bias_sum: Seq<T>,
    step: T,
) -> LayerParams<T> {
    LayerParams {
        weight: p.weight.minus(weight_sum.times(step)),
        biases: elementwise_difference(p.biases, scaled(bias_sum, step)),
        ..p
    }
}

/// The parameters of all layers after one mini-batch: a step of gradient
/// descent with the gradients summed over the batch, the step being the
/// learning rate `eta` divided by the number of examples.
pub open spec fn updated_params<T: Scalar>(
    p: Seq<LayerParams<T>>,
    examples: Seq<(Seq<T>, Seq<T>)>,
    eta: T,
) -> Seq<LayerParams<T>> {
    Seq::new(
        p.len(),
        |l: int|
            descended(
                p[l],
                summed_weight_gradient(p, examples, l),
                summed_bias_gradient(p, examples, l),
                eta.div_count_spec(examples.len() as usize),
            ),
    )
}

/// The states with the parameters `q` in place of their own.
pub open spec fn with_params<T: Scalar>(
    states: Seq<LayerState<T>>,
    q: Seq<LayerParams<T>>,
) -> Seq<LayerState<T>> {
    Seq::new(states.len(), |l: int| LayerState { params: q[l], ..states[l] })
}

/// The position of the first example that does not fit the network, in a
/// batch that holds one.
pub open spec fn first_misfit<T: Scalar>(
    p: Seq<LayerParams<T>>,
    examples: Seq<(Seq<T>, Seq<T>)>,
) -> int
    decreases examples.len(),
{
    if examples.len() == 0 {
        0
    } else if batch_fits(p, examples.drop_last()) {
        examples.len() - 1
    } else {
        first_misfit(p, examples.drop_last())
    }
}

/// The states that a mini-batch leaves behind when it stops at its first
/// example that does not fit: what the example before it left, or `states`
/// where there is none before it, after the forward pass that the misfit
/// got into.
pub open spec fn interrupted<T: Scalar>(
    states: Seq<LayerState<T>>,
    examples: Seq<(Seq<T>, Seq<T>)>,
) -> Seq<LayerState<T>> {
    let p = params_of(states);
    let k = first_misfit(p, examples);
    after_forward_pass(
        if k == 0 {
            states
        } else {
            remembered(p, examples[k - 1].0, examples[k - 1].1)
        },
        examples[k].0,
    )
}

/// The states that one mini-batch leaves behind. An empty batch leaves
/// them as they are. A batch in which every example fits leaves the
/// updated parameters, and what the layers remember of its last example.
/// Any other batch stops at the first example that does not fit, with the
/// parameters as before.
pub open spec fn after_mini_batch<T: Scalar>(
    states: Seq<LayerState<T>>,
    examples: Seq<(Seq<T>, Seq<T>)>,
    eta: T,
) -> Seq<LayerState<T>> {
    let p = params_of(states);
    if examples.len() == 0 {
        states
    } else if batch_fits(p, examples) {
        with_params(
            remembered(p, examples.last().0, examples.last().1),
            updated_params(p, examples, eta),
        )
    } else {
        interrupted(states, examples)
    }
}

/// The examples of `set` in the order that the indices `order` give.
pub open spec fn picked<T>(set: Seq<(Seq<T>, Seq<T>)>, order: Seq<usize>) -> Seq<(Seq<T>, Seq<T>)> {
    Seq::new(order.len(), |k: int| set[order[k] as int])
}

/// Whether every index of `order` names an example of a set of `n`.
pub open spec fn order_is_valid(order: Seq<usize>, n: nat) -> bool {
    forall|k: int| 0 <= k < order.len() ==> (#[trigger] order[k]) < n
}

/// How many of `remaining` examples go into the next mini-batch.
pub open spec fn batch_len(remaining: nat, mini_batch_size: nat) -> nat {
    if mini_batch_size < remaining {
        mini_batch_size
    } else {
        remaining
    }
}

/// The states after one pass over `examples`, taken in consecutive
/// mini-batches of `mini_batch_size` (the last one may be smaller), each
/// of them one step of gradient descent. The pass ends in the first batch
/// that holds an example that does not fit.
pub open spec fn epoch_states<T: Scalar>(
    states: Seq<LayerState<T>>,
    examples: Seq<(Seq<T>, Seq<T>)>,
    mini_batch_size: nat,
    eta: T,
) -> Seq<LayerState<T>>
    decreases examples.len(),
{
    if examples.len() == 0 || mini_batch_size == 0 {
        states
    } else {
        let size = batch_len(examples.len(), mini_batch_size) as int;
        let next = after_mini_batch(states, examples.take(size), eta);
        if batch_fits(params_of(states), examples.take(size)) {
            epoch_states(next, examples.skip(size), mini_batch_size, eta)
        } else {
            next
        }
    }
}

/// The states after the passes whose orders are `orders`, one pass after
/// the other.
pub open spec fn training_states<T: Scalar>(
    states: Seq<LayerState<T>>,
    examples: Seq<(Seq<T>, Seq<T>)>,
    orders: Seq<Seq<usize>>,
    mini_batch_size: nat,
    eta: T,
) -> Seq<LayerState<T>>
    decreases orders.len(),
{
    if orders.len() == 0 {
        states
    } else {
        epoch_states(
            training_states(states, examples, orders.drop_last(), mini_batch_size, eta),
            picked(examples, orders.last()),
            mini_batch_size,
            eta,
        )
    }
}

/// How many passes a training of `epochs` passes makes: all of them where
/// every example fits the network, else only the first, which fails.
pub open spec fn passes_made<T: Scalar>(
    p: Seq<LayerParams<T>>,
    examples: Seq<(Seq<T>, Seq<T>)>,
    epochs: nat,
) -> nat {
    if batch_fits(p, examples) || epochs == 0 {
        epochs
    } else {
        1
    }
}

/// Whether `orders` can be the orders in which a training took the
/// examples, pass by pass, to get from the states `before` to the states
/// `after`: there is one order for each pass that was made, each a
/// permutation of the examples, and the passes in these orders lead from
/// `before` to `after`.
pub open spec fn is_training_record<T: Scalar>(
    orders: Seq<Seq<usize>>,
    before: Seq<LayerState<T>>,
    after: Seq<LayerState<T>>,
    examples: Seq<(Seq<T>, Seq<T>)>,
    epochs: nat,
    mini_batch_size: nat,
    eta: T,
) -> bool {
    &&& orders.len() == passes_made(params_of(before), examples, epochs)
    &&& forall|e: int|
        0 <= e < orders.len() ==> is_permutation(#[trigger] orders[e], examples.len())
    &&& after == training_states(before, examples, orders, mini_batch_size, eta)
}

/// Whether two networks have layers of the same sizes.
pub open spec fn same_shape<T>(p: Seq<LayerParams<T>>, q: Seq<LayerParams<T>>) -> bool {
    &&& p.len() == q.len()
    &&& forall|l: int|
        0 <= l < p.len() ==> (#[trigger] p[l]).input_size == q[l].input_size && p[l].output_size
            == q[l].output_size && p[l].weight.rows == q[l].weight.rows && p[l].weight.cols
            == q[l].weight.cols
}

/// Whether an example fits a network depends on the sizes of the layers
/// alone.
pub proof fn lemma_fits_by_shape<T: Scalar>(
    p: Seq<LayerParams<T>>,
    q: Seq<LayerParams<T>>,
    x: Seq<T>,
    y: Seq<T>,
)
    requires
        same_shape(p, q),
    ensures
        example_fits(p, x, y) == example_fits(q, x, y),
{
    reveal(reaches);
    let n = p.len() as int;
    assert forall|j: int| 0 <= j < n implies ((#[trigger] signal(p, x, j)).len() == p[j].input_size)
        == (signal(q, x, j).len() == q[j].input_size) by {
        if j > 0 {
            lemma_signal_rows(p, x, j);
            lemma_signal_rows(q, x, j);
            assert(p[j - 1].weight.rows == q[j - 1].weight.rows);
        }
        assert(p[j].input_size == q[j].input_size);
    }
    if reaches(p, x, n) {
        assert forall|j: int| 0 <= j < n implies (#[trigger] signal(q, x, j)).len()
            == q[j].input_size by {
            assert(signal(p, x, j).len() == p[j].input_size);
        }
    }
    if reaches(q, x, n) {
        assert forall|j: int| 0 <= j < n implies (#[trigger] signal(p, x, j)).len()
            == p[j].input_size by {
            assert(signal(q, x, j).len() == q[j].input_size);
        }
    }
    if n > 0 {
        assert(p[n - 1].output_size == q[n - 1].output_size);
    }
}

/// Whether a batch fits a network depends on the sizes of the layers
/// alone.
pub proof fn lemma_batch_fits_by_shape<T: Scalar>(
    p: Seq<LayerParams<T>>,
    q: Seq<LayerParams<T>>,
    examples: Seq<(Seq<T>, Seq<T>)>,
)
    requires
        same_shape(p, q),
    ensures
        batch_fits(p, examples) == batch_fits(q, examples),
{
    assert forall|k: int| 0 <= k < examples.len() implies example_fits(
        p,
        (#[trigger] examples[k]).0,
        examples[k].1,
    ) == example_fits(q, examples[k].0, examples[k].1) by {
        lemma_fits_by_shape(p, q, examples[k].0, examples[k].1);
    }
}

/// In a batch whose first `k` examples fit and whose example `k` does not,
/// example `k` is the first misfit.
pub proof fn lemma_first_misfit<T: Scalar>(
    p: Seq<LayerParams<T>>,
    examples: Seq<(Seq<T>, Seq<T>)>,
    k: int,
)
    requires
        0 <= k < examples.len(),
        batch_fits(p, examples.take(k)),
        !example_fits(p, examples[k].0, examples[k].1),
    ensures
        first_misfit(p, examples) == k,
        !batch_fits(p, examples),
    decreases examples.len(),
{
    let shorter = examples.drop_last();
    if k == examples.len() - 1 {
        assert(shorter =~= examples.take(k));
    } else {
        assert(shorter.take(k) =~= examples.take(k));
        assert(shorter[k] == examples[k]);
        lemma_first_misfit(p, shorter, k);
    }
}

/// A mini-batch leaves the number and the sizes of the layers as they
/// are. Where it fails it leaves the parameters as they are; where it
/// holds examples that all fit, it leaves the updated parameters.
pub proof fn lemma_mini_batch_params<T: Scalar>(
    states: Seq<LayerState<T>>,
    examples: Seq<(Seq<T>, Seq<T>)>,
    eta: T,
)
    ensures
        after_mini_batch(states, examples, eta).len() == states.len(),
        same_shape(params_of(after_mini_batch(states, examples, eta)), params_of(states)),
        !batch_fits(params_of(states), examples) ==> params_of(
            after_mini_batch(states, examples, eta),
        ) == params_of(states),
        examples.len() > 0 && batch_fits(params_of(states), examples) ==> params_of(
            after_mini_batch(states, examples, eta),
        ) == updated_params(params_of(states), examples, eta),
{
    reveal(remembered);
    let p = params_of(states);
    let after = after_mini_batch(states, examples, eta);
    if examples.len() == 0 {
    } else if batch_fits(p, examples) {
        assert(params_of(after) =~= updated_params(p, examples, eta));
    } else {
        let k = first_misfit(p, examples);
        let start = if k == 0 {
            states
        } else {
            remembered(p, examples[k - 1].0, examples[k - 1].1)
        };
        lemma_forward_pass_keeps_params(start, examples[k].0);
        assert(params_of(start) =~= p);
    }
}

/// A pass over the examples leaves the number and the sizes of the layers
/// as they are.
pub proof fn lemma_epoch_keeps_shape<T: Scalar>(
    states: Seq<LayerState<T>>,
    examples: Seq<(Seq<T>, Seq<T>)>,
    mini_batch_size: nat,
    eta: T,
)
    ensures
        epoch_states(states, examples, mini_batch_size, eta).len() == states.len(),
        same_shape(
            params_of(epoch_states(states, examples, mini_batch_size, eta)),
            params_of(states),
        ),
    decreases examples.len(),
{
    if examples.len() == 0 || mini_batch_size == 0 {
    } else {
        let size = batch_len(examples.len(), mini_batch_size) as int;
        let next = after_mini_batch(states, examples.take(size), eta);
        lemma_mini_batch_params(states, examples.take(size), eta);
        if batch_fits(params_of(states), examples.take(size)) {
            lemma_epoch_keeps_shape(next, examples.skip(size), mini_batch_size, eta);
        }
    }
}

/// The examples taken in the order of a permutation fit the network where
/// the examples fit it, and only there.
pub proof fn lemma_permuted_batch_fits<T: Scalar>(
    p: Seq<LayerParams<T>>,
    examples: Seq<(Seq<T>, Seq<T>)>,
    order: Seq<usize>,
)
    requires
        is_permutation(order, examples.len()),
        examples.len() <= usize::MAX,
    ensures
        order_is_valid(order, examples.len()),
        batch_fits(p, picked(examples, order)) == batch_fits(p, examples),
{
    lemma_permutation_covers(order, examples.len());
    let taken = picked(examples, order);
    if batch_fits(p, examples) {
        assert forall|k: int| 0 <= k < taken.len() implies example_fits(
            p,
            (#[trigger] taken[k]).0,
            taken[k].1,
        ) by {
            assert(order[k] < examples.len());
            assert(taken[k] == examples[order[k] as int]);
        }
    }
    if batch_fits(p, taken) {
        assert forall|i: int| 0 <= i < examples.len() implies example_fits(
            p,
            (#[trigger] examples[i]).0,
            examples[i].1,
        ) by {
            assert(order.contains(i as usize));
            let k = choose|k: int| 0 <= k < order.len() && order[k] == i as usize;
            assert(taken[k] == examples[i]);
        }
    }
}

} // verus!
