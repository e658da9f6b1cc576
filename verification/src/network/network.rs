use vstd::prelude::*;
use rand::rngs::StdRng;
use crate::narray::errors::NErrors;
use crate::narray::matrix::NMatrix;
use crate::narray::scalar::Scalar;
use crate::narray::vector::{elementwise_sum, NVector};
use crate::network::descent::{
    after_mini_batch, batch_fits, descended, epoch_states, is_training_record,
    lemma_batch_fits_by_shape, lemma_epoch_keeps_shape, lemma_first_misfit,
    lemma_mini_batch_params, lemma_permuted_batch_fits, order_is_valid, picked, same_shape,
    summed_bias_gradient, summed_weight_gradient, training_states, updated_params, with_params,
};
use crate::network::layer::{Layer, LayerParams, LayerState};
use crate::network::propagation::{
    after_forward_pass, delta, example_fits, lemma_backward_pass_complete,
    lemma_forward_pass_complete, lemma_forward_pass_ended, lemma_forward_pass_keeps_params,
    lemma_reaches_fewer, lemma_reaches_next, lemma_reaches_stops, lemma_signal_len, params_of,
    reaches, remembered, signal, weight_gradient,
};
use crate::network::shuffle::{ascending, is_permutation, reshuffle};

verus! {

/// One training example: an input and the output that is expected for it.
/// Its view is the pair of the two.
#[derive(Debug)]
pub struct TrainingDataElem<T: Scalar>(NVector<T>, NVector<T>);

impl<T: Scalar> View for TrainingDataElem<T> {
    type V = (Seq<T>, Seq<T>);

    closed spec fn view(&self) -> (Seq<T>, Seq<T>) {
        (self.0@, self.1@)
    }
}

impl<T: Scalar> Clone for TrainingDataElem<T> {
    fn clone(&self) -> (r: Self)
        ensures
            r@ == self@,
    {
        TrainingDataElem(self.0.clone(), self.1.clone())
    }
}

impl<T: Scalar> TrainingDataElem<T> {
    /// The example with input `x` and expected output `y`.
    pub fn new(x: NVector<T>, y: NVector<T>) -> (r: TrainingDataElem<T>)
        ensures
            r@ == (x@, y@),
    {
        TrainingDataElem(x, y)
    }

    /// The input.
    pub fn input(&self) -> (r: &NVector<T>)
        ensures
            r@ == self@.0,
    {
        &self.0
    }

    /// The expected output.
    pub fn expected(&self) -> (r: &NVector<T>)
        ensures
            r@ == self@.1,
    {
        &self.1
    }
}

/// The examples of a training set as pairs of sequences, in their order.
pub open spec fn examples_of<T: Scalar>(set: Seq<TrainingDataElem<T>>) -> Seq<(Seq<T>, Seq<T>)> {
    Seq::new(set.len(), |k: int| set[k]@)
}

/// Whether `weights` and `biases` hold, layer by layer, the gradients of
/// the cost for the example with input `x` and expected output `y`: for
/// each layer the gradient in its weights and the gradient in its biases,
/// each of the shape of what it is the gradient of.
pub open spec fn are_gradients<T: Scalar>(
    p: Seq<LayerParams<T>>,
    x: Seq<T>,
    y: Seq<T>,
    weights: Seq<NMatrix<T>>,
    biases: Seq<NVector<T>>,
) -> bool {
    &&& weights.len() == p.len()
    &&& biases.len() == p.len()
    &&& forall|l: int|
        0 <= l < p.len() ==> (#[trigger] weights[l])@ == weight_gradient(p, x, y, l)
    &&& forall|l: int| 0 <= l < p.len() ==> (#[trigger] biases[l])@ == delta(p, x, y, l)
    &&& forall|l: int| 0 <= l < p.len() ==> p[l].takes((#[trigger] weights[l])@, biases[l]@)
}

/// A feed-forward network: layers in the order in which a signal passes
/// them. Its view is the sequence of the layers' states.
#[derive(Debug)]
pub struct Network<T: Scalar> {
    layers: Vec<Layer<T>>,
}

impl<T: Scalar> View for Network<T> {
    type V = Seq<LayerState<T>>;

    closed spec fn view(&self) -> Seq<LayerState<T>> {
        Seq::new(self.layers@.len(), |l: int| self.layers@[l]@)
    }
}

impl<T: Scalar> Network<T> {
    /// The network of the given layers.
    pub fn new(layers: Vec<Layer<T>>) -> (r: Network<T>)
        ensures
            r@.len() == layers@.len(),
            forall|l: int| 0 <= l < layers@.len() ==> r@[l] == layers@[l]@,
    {
        Network { layers }
    }

    /// The layers, in order.
    pub fn layers(&self) -> (r: &Vec<Layer<T>>)
        ensures
            r@.len() == self@.len(),
            forall|l: int| 0 <= l < r@.len() ==> r@[l]@ == self@[l],
    {
        &self.layers
    }

    /// Feeds `input` to the first layer and each layer's output to the
    /// next, and returns what leaves the last layer. The pass stops with
    /// `ShapeMismatch` at the first layer that is handed a vector of
    /// another length than its input; the layers before it remember their
    /// part of the pass. Weights and biases stay as they are.
    pub fn forward(&mut self, input: NVector<T>) -> (r: Result<NVector<T>, NErrors>)
        ensures
            final(self)@ == after_forward_pass(old(self)@, input@),
            reaches(params_of(old(self)@), input@, old(self)@.len() as int) ==> (r matches Ok(v)
                && v@ == signal(params_of(old(self)@), input@, old(self)@.len() as int)),
            !reaches(params_of(old(self)@), input@, old(self)@.len() as int) ==> r matches Err(
                NErrors::ShapeMismatch,
            ),
    {
        let ghost before = self@;
        let ghost p = params_of(before);
        let ghost x0 = input@;
        let n = self.layers.len();
        let mut x = input;
        let mut i: usize = 0;
        proof {
            reveal(reaches);
        }
        while i < n
            invariant
                i <= n,
                n == self.layers@.len(),
                before == old(self)@,
                before.len() == n,
                p == params_of(before),
                x0 == input@,
                x@ == signal(p, x0, i as int),
                reaches(p, x0, i as int),
                forall|l: int| 0 <= l < i ==> self@[l] == before[l].after_forward(signal(p, x0, l)),
                forall|l: int| i <= l < n ==> self@[l] == before[l],
            decreases n - i,
        {
            let ghost current = self@;
            match self.layers[i].forward(&x) {
                Ok(out) => {
                    proof {
                        lemma_reaches_next(p, x0, i as int);
                        assert(self@[i as int] == current[i as int].after_forward(x@));
                        assert forall|l: int| 0 <= l < i implies self@[l]
                            == before[l].after_forward(signal(p, x0, l)) by {
                            assert(self@[l] == current[l]);
                        }
                    }
                    x = out;
                },
                Err(e) => {
                    proof {
                        assert(self@ =~= current);
                        lemma_forward_pass_ended(before, self@, x0, i as int);
                        lemma_reaches_stops(p, x0, i as int, n as int);
                    }
                    return Err(e);
                },
            }
            i = i + 1;
        }
        proof {
            lemma_forward_pass_ended(before, self@, x0, n as int);
        }
        Ok(x)
    }

    /// A forward pass on `x` followed by a backward pass against the
    /// expected output `y`, from the last layer to the first. Returns, for
    /// each layer in order, the gradient of the cost in its weights (the
    /// outer product of the layer's error and its input) and in its biases
    /// (the layer's error). The layers remember the two passes; weights
    /// and biases stay as they are. `ShapeMismatch` where the example does
    /// not fit the network; the layers are then as the forward pass left
    /// them.
    pub fn back_propagrate(&mut self, x: &NVector<T>, y: &NVector<T>) -> (r: Result<
        (Vec<NMatrix<T>>, Vec<NVector<T>>),
        NErrors,
    >)
        ensures
            final(self)@.len() == old(self)@.len(),
            params_of(final(self)@) == params_of(old(self)@),
            example_fits(params_of(old(self)@), x@, y@) ==> (r matches Ok(g) && are_gradients(
                params_of(old(self)@),
                x@,
                y@,
                g.0@,
                g.1@,
            )) && final(self)@ == remembered(params_of(old(self)@), x@, y@),
            !example_fits(params_of(old(self)@), x@, y@) ==> (r matches Err(NErrors::ShapeMismatch))
                && final(self)@ == after_forward_pass(old(self)@, x@),
    {
        let ghost before = self@;
        let ghost p = params_of(before);
        proof {
            lemma_forward_pass_keeps_params(before, x@);
        }
        // feed forward the layers
        match self.forward(x.clone()) {
            Ok(_) => {},
            Err(e) => {
                return Err(e);
            },
        }
        let ghost fed = self@;
        let n = self.layers.len();
        let mut grad_w: Vec<NMatrix<T>> = Vec::new();
        let mut grad_b: Vec<NVector<T>> = Vec::new();
        if n == 0 {
            proof {
                lemma_backward_pass_complete(before, self@, x@, y@);
            }
            return Ok((grad_w, grad_b));
        }
        let last = &self.layers[n - 1];
        if y.len() != last.output_size() {
            return Err(NErrors::ShapeMismatch);
        }
        // back propagate errors
        let mut carried: Option<NVector<T>> = None;
        let mut l: usize = n;
        while l > 0
            invariant
                l <= n,
                n == self.layers@.len(),
                n == before.len(),
                0 < n,
                p == params_of(before),
                p.len() == n,
                fed == after_forward_pass(before, x@),
                reaches(p, x@, n as int),
                y@.len() == p[n - 1].output_size,
                forall|j: int| 0 <= j < l ==> self@[j] == fed[j],
                forall|j: int|
                    l <= j < n ==> self@[j] == (LayerState {
                        cache_error: delta(p, x@, y@, j),
                        ..fed[j]
                    }),
                fed.len() == n,
                grad_w@.len() == n - l,
                grad_b@.len() == n - l,
                forall|k: int|
                    0 <= k < n - l ==> (#[trigger] grad_w@[k])@
                        == weight_gradient(p, x@, y@, l + k),
                forall|k: int|
                    0 <= k < n - l ==> (#[trigger] grad_b@[k])@ == delta(p, x@, y@, l + k),
                forall|k: int|
                    0 <= k < n - l ==> p[l + k].takes((#[trigger] grad_w@[k])@, grad_b@[k]@),
                l == n ==> carried.is_none(),
                0 < l < n ==> (carried matches Some(v) && v@ == delta(p, x@, y@, l - 1) && v@.len()
                    == p[l as int].input_size),
            decreases l,
        {
            let j = l - 1;
            let ghost current = self@;
            let ghost old_w = grad_w@;
            let ghost old_b = grad_b@;
            let previous_derivative: Option<NVector<T>> = if j > 0 {
                let previous = &self.layers[j - 1];
                proof {
                    use_type_invariant(previous);
                    lemma_forward_pass_complete(before, x@, j - 1);
                    lemma_reaches_fewer(p, x@, j as int, n as int);
                    lemma_signal_len(p, x@, j as int);
                }
                Some(previous.cached_z_prime())
            } else {
                None
            };
            let here = &self.layers[j];
            proof {
                use_type_invariant(here);
                lemma_forward_pass_complete(before, x@, j as int);
                assert(self@[j as int] == fed[j as int]);
                if j + 1 < n {
                    lemma_reaches_fewer(p, x@, j + 1, n as int);
                    lemma_signal_len(p, x@, j + 1);
                }
            }
            let propagated = self.layers[j].back_propagrate(
                y,
                carried.as_ref(),
                previous_derivative.as_ref(),
            ).unwrap();
            let done = &self.layers[j];
            proof {
                use_type_invariant(done);
            }
            let gw = NMatrix::outer(done.cache_error(), done.cache_input());
            let gb = done.cache_error().clone();
            grad_w.insert(0, gw);
            grad_b.insert(0, gb);
            proof {
                assert(self@[j as int] == (LayerState {
                    cache_error: delta(p, x@, y@, j as int),
                    ..fed[j as int]
                }));
                assert forall|k: int| 0 <= k < n && k != j implies self@[k] == current[k] by {}
                assert forall|k: int| 0 <= k < n - j implies (#[trigger] grad_w@[k])@
                    == weight_gradient(p, x@, y@, j + k) by {
                    if k > 0 {
                        assert(grad_w@[k] == old_w[k - 1]);
                    }
                }
                assert forall|k: int| 0 <= k < n - j implies (#[trigger] grad_b@[k])@ == delta(
                    p,
                    x@,
                    y@,
                    j + k,
                ) by {
                    if k > 0 {
                        assert(grad_b@[k] == old_b[k - 1]);
                    }
                }
                assert forall|k: int| 0 <= k < n - j implies p[j + k].takes(
                    (#[trigger] grad_w@[k])@,
                    grad_b@[k]@,
                ) by {
                    if k > 0 {
                        assert(grad_w@[k] == old_w[k - 1]);
                        assert(grad_b@[k] == old_b[k - 1]);
                    }
                }
                assert forall|k: int| j <= k < n implies self@[k] == (LayerState {
                    cache_error: delta(p, x@, y@, k),
                    ..fed[k]
                }) by {
                    if k > j {
                        assert(self@[k] == current[k]);
                    }
                }
            }
            carried = Some(propagated);
            l = j;
        }
        proof {
            lemma_backward_pass_complete(before, self@, x@, y@);
        }
        Ok((grad_w, grad_b))
    }

    /// One step of mini-batch gradient descent. For every example of the
    /// batch, in order, a forward and a backward pass give the gradients,
    /// which are summed layer by layer. After the batch every layer gets
    /// new weights and biases: the old ones less the learning rate `eta`,
    /// divided by the number of examples, times the summed gradient. An
    /// empty batch changes nothing. `ShapeMismatch` at the first example
    /// that does not fit the network; weights and biases are then as
    /// before.
    pub fn update_mini_batch(
        &mut self,
        mini_batch: &Vec<TrainingDataElem<T>>,
        eta: T,
    ) -> (r: Result<(), NErrors>)
        ensures
            final(self)@ == after_mini_batch(old(self)@, examples_of(mini_batch@), eta),
            final(self)@.len() == old(self)@.len(),
            same_shape(params_of(final(self)@), params_of(old(self)@)),
            batch_fits(params_of(old(self)@), examples_of(mini_batch@)) ==> r == Ok::<(), NErrors>(
                (),
            ),
            !batch_fits(params_of(old(self)@), examples_of(mini_batch@)) ==> r == Err::<
                (),
                NErrors,
            >(NErrors::ShapeMismatch),
    {
        proof {
            lemma_mini_batch_params(self@, examples_of(mini_batch@), eta);
        }
        let m = mini_batch.len();
        if m == 0 {
            return Ok(());
        }
        let ghost before = self@;
        let ghost p = params_of(before);
        let ghost examples = examples_of(mini_batch@);
        let n = self.layers.len();
        let (mut sum_w, mut sum_b) = self.zero_gradients();
        proof {
            assert(examples.take(0) =~= Seq::<(Seq<T>, Seq<T>)>::empty());
        }
        let mut k: usize = 0;
        while k < m
            invariant
                k <= m,
                0 < m,
                m == mini_batch@.len(),
                examples == examples_of(mini_batch@),
                n == self.layers@.len(),
                n == before.len(),
                before == old(self)@,
                p == params_of(before),
                params_of(self@) == p,
                batch_fits(p, examples.take(k as int)),
                k == 0 ==> self@ == before,
                k > 0 ==> self@ == remembered(p, examples[k - 1].0, examples[k - 1].1),
                sum_w@.len() == n,
                sum_b@.len() == n,
                forall|l: int|
                    0 <= l < n ==> (#[trigger] sum_w@[l])@ == summed_weight_gradient(
                        p,
                        examples.take(k as int),
                        l,
                    ),
                forall|l: int|
                    0 <= l < n ==> (#[trigger] sum_b@[l])@ == summed_bias_gradient(
                        p,
                        examples.take(k as int),
                        l,
                    ),
                forall|l: int| 0 <= l < n ==> p[l].takes((#[trigger] sum_w@[l])@, sum_b@[l]@),
            decreases m - k,
        {
            let example = &mini_batch[k];
            let ghost x = example@.0;
            let ghost y = example@.1;
            let ghost w0 = sum_w@;
            let ghost b0 = sum_b@;
            proof {
                assert(examples[k as int] == (x, y));
                assert(examples.take(k + 1).drop_last() =~= examples.take(k as int));
                assert(examples.take(k + 1).last() == (x, y));
            }
            // retrieve back propagate result
            let (grad_w, grad_b) = match self.back_propagrate(example.input(), example.expected()) {
                Ok(g) => g,
                Err(e) => {
                    proof {
                        assert(!example_fits(p, examples[k as int].0, examples[k as int].1));
                        lemma_first_misfit(p, examples, k as int);
                    }
                    return Err(e);
                },
            };
            proof {
                assert forall|l: int| 0 <= l < n implies (#[trigger] sum_w@[l])@.rows
                    == grad_w@[l]@.rows && sum_w@[l]@.cols == grad_w@[l]@.cols && sum_b@[l]@.len()
                    == grad_b@[l]@.len() by {
                    assert(p[l].takes(sum_w@[l]@, sum_b@[l]@));
                    assert(p[l].takes(grad_w@[l]@, grad_b@[l]@));
                }
            }
            accumulate(&mut sum_w, &mut sum_b, &grad_w, &grad_b);
            proof {
                assert forall|j: int| 0 <= j < k + 1 implies example_fits(
                    p,
                    (#[trigger] examples.take(k + 1)[j]).0,
                    examples.take(k + 1)[j].1,
                ) by {
                    if j < k {
                        assert(examples.take(k as int)[j] == examples.take(k + 1)[j]);
                    }
                }
                assert forall|l: int| 0 <= l < n implies (#[trigger] sum_w@[l])@
                    == summed_weight_gradient(p, examples.take(k + 1), l) by {
                    assert(sum_w@[l]@ == w0[l]@.plus(grad_w@[l]@));
                }
                assert forall|l: int| 0 <= l < n implies (#[trigger] sum_b@[l])@
                    == summed_bias_gradient(p, examples.take(k + 1), l) by {
                    assert(sum_b@[l]@ == elementwise_sum(b0[l]@, grad_b@[l]@));
                }
                assert forall|l: int| 0 <= l < n implies p[l].takes(
                    (#[trigger] sum_w@[l])@,
                    sum_b@[l]@,
                ) by {
                    assert(p[l].takes(w0[l]@, b0[l]@));
                    assert(sum_w@[l]@ == w0[l]@.plus(grad_w@[l]@));
                    assert(sum_b@[l]@ == elementwise_sum(b0[l]@, grad_b@[l]@));
                }
            }
            k = k + 1;
        }
        let step = eta.div_count(m);
        let ghost learned = self@;
        proof {
            assert(examples.take(m as int) =~= examples);
            assert forall|l: int| 0 <= l < n implies params_of(self@)[l].takes(
                (#[trigger] sum_w@[l])@,
                sum_b@[l]@,
            ) by {}
        }
        // update weights and biases
        self.descend(&sum_w, &sum_b, step);
        proof {
            let target = with_params(
                remembered(p, examples.last().0, examples.last().1),
                updated_params(p, examples, eta),
            );
            assert(learned.len() == n);
            assert forall|l: int| 0 <= l < n implies self@[l] == target[l] by {
                assert(learned[l].params == p[l]);
                assert(sum_w@[l]@ == summed_weight_gradient(p, examples, l));
                assert(sum_b@[l]@ == summed_bias_gradient(p, examples, l));
            }
            assert(self@ =~= target);
        }
        Ok(())
    }

    /// One pass over the training set in the order that `order` gives: the
    /// examples are taken in consecutive mini-batches of `mini_batch_size`
    /// (the last one may be smaller), each of which is one step of
    /// [`Network::update_mini_batch`]. `ShapeMismatch` where
    /// `mini_batch_size` is zero, `IndexError` where `order` names an
    /// example that the set does not have; either way the network is as
    /// before. `ShapeMismatch` at the first batch that holds an example
    /// that does not fit the network; the batches before it have been
    /// learned.
    pub fn train_epoch(
        &mut self,
        training_set: &Vec<TrainingDataElem<T>>,
        order: &Vec<usize>,
        mini_batch_size: usize,
        eta: T,
    ) -> (r: Result<(), NErrors>)
        ensures
            final(self)@.len() == old(self)@.len(),
            same_shape(params_of(final(self)@), params_of(old(self)@)),
            mini_batch_size == 0 ==> r == Err::<(), NErrors>(NErrors::ShapeMismatch)
                && final(self)@ == old(self)@,
            mini_batch_size > 0 && !order_is_valid(order@, training_set@.len()) ==> r == Err::<
                (),
                NErrors,
            >(NErrors::IndexError) && final(self)@ == old(self)@,
            mini_batch_size > 0 && order_is_valid(order@, training_set@.len()) ==> final(self)@
                == epoch_states(
                old(self)@,
                picked(examples_of(training_set@), order@),
                mini_batch_size as nat,
                eta,
            ),
            mini_batch_size > 0 && order_is_valid(order@, training_set@.len()) && batch_fits(
                params_of(old(self)@),
                picked(examples_of(training_set@), order@),
            ) ==> r == Ok::<(), NErrors>(()),
            mini_batch_size > 0 && order_is_valid(order@, training_set@.len()) && !batch_fits(
                params_of(old(self)@),
                picked(examples_of(training_set@), order@),
            ) ==> r == Err::<(), NErrors>(NErrors::ShapeMismatch),
    {
        if mini_batch_size == 0 {
            return Err(NErrors::ShapeMismatch);
        }
        let total = order.len();
        let size = training_set.len();
        let mut i: usize = 0;
        while i < total
            invariant
                i <= total,
                total == order@.len(),
                size == training_set@.len(),
                0 < mini_batch_size,
                self@ == old(self)@,
                forall|k: int| 0 <= k < i ==> (#[trigger] order@[k]) < size,
            decreases total - i,
        {
            if order[i] >= size {
                return Err(NErrors::IndexError);
            }
            i = i + 1;
        }
        let ghost initial = params_of(self@);
        let ghost examples = picked(examples_of(training_set@), order@);
        let mut start: usize = 0;
        proof {
            assert(examples.skip(0) =~= examples);
            assert(examples.take(0) =~= Seq::<(Seq<T>, Seq<T>)>::empty());
        }
        while start < total
            invariant
                start <= total,
                0 < mini_batch_size,
                total == order@.len(),
                size == training_set@.len(),
                order_is_valid(order@, size as nat),
                examples == picked(examples_of(training_set@), order@),
                self@.len() == old(self)@.len(),
                initial == params_of(old(self)@),
                same_shape(params_of(self@), initial),
                batch_fits(initial, examples.take(start as int)),
                epoch_states(old(self)@, examples, mini_batch_size as nat, eta) == epoch_states(
                    self@,
                    examples.skip(start as int),
                    mini_batch_size as nat,
                    eta,
                ),
            decreases total - start,
        {
            let end = if total - start > mini_batch_size {
                start + mini_batch_size
            } else {
                total
            };
            let batch = gather(training_set, order, start, end);
            let ghost current = self@;
            let ghost q = params_of(self@);
            let ghost rest = examples.skip(start as int);
            let ghost first = rest.take(end - start);
            proof {
                assert(examples_of(batch@) =~= first);
                assert(rest.skip(end - start) =~= examples.skip(end as int));
                lemma_batch_fits_by_shape(q, initial, first);
                lemma_mini_batch_params(current, first, eta);
            }
            match self.update_mini_batch(&batch, eta) {
                Ok(_) => {
                    proof {
                        assert forall|k: int| 0 <= k < end implies example_fits(
                            initial,
                            (#[trigger] examples.take(end as int)[k]).0,
                            examples.take(end as int)[k].1,
                        ) by {
                            if k < start {
                                assert(examples.take(start as int)[k] == examples.take(
                                    end as int,
                                )[k]);
                            } else {
                                assert(first[k - start] == examples.take(end as int)[k]);
                            }
                        }
                    }
                },
                Err(e) => {
                    proof {
                        let k = choose|k: int|
                            0 <= k < first.len() && !example_fits(initial, first[k].0, first[k].1);
                        assert(first[k] == examples[start + k]);
                    }
                    return Err(e);
                },
            }
            start = end;
        }
        proof {
            assert(examples.take(total as int) =~= examples);
        }
        Ok(())
    }

    /// Trains the network by mini-batch gradient descent: `epochs` passes
    /// over the training set, each in an order freshly shuffled with
    /// `rng`, each pass as [`Network::train_epoch`] makes it.
    /// `ShapeMismatch`, and the network as before, where `mini_batch_size`
    /// is zero. `ShapeMismatch` in the first pass where an example does
    /// not fit the network. The weights that come out depend on the orders
    /// drawn: they are those of the passes in some orders that are
    /// permutations of the training set.
    pub fn train(
        &mut self,
        training_set: &Vec<TrainingDataElem<T>>,
        epochs: usize,
        mini_batch_size: usize,
        learning_rate: T,
        rng: &mut StdRng,
    ) -> (r: Result<(), NErrors>)
        ensures
            final(self)@.len() == old(self)@.len(),
            same_shape(params_of(final(self)@), params_of(old(self)@)),
            mini_batch_size == 0 ==> r == Err::<(), NErrors>(NErrors::ShapeMismatch)
                && final(self)@ == old(self)@,
            mini_batch_size > 0 && (epochs == 0 || batch_fits(
                params_of(old(self)@),
                examples_of(training_set@),
            )) ==> r == Ok::<(), NErrors>(()),
            mini_batch_size > 0 && epochs > 0 && !batch_fits(
                params_of(old(self)@),
                examples_of(training_set@),
            ) ==> r == Err::<(), NErrors>(NErrors::ShapeMismatch),
            mini_batch_size > 0 ==> exists|orders: Seq<Seq<usize>>|
                is_training_record(
                    orders,
                    old(self)@,
                    final(self)@,
                    examples_of(training_set@),
                    epochs as nat,
                    mini_batch_size as nat,
                    learning_rate,
                ),
    {
        if mini_batch_size == 0 {
            return Err(NErrors::ShapeMismatch);
        }
        let ghost initial = params_of(self@);
        let ghost examples = examples_of(training_set@);
        let ghost b = mini_batch_size as nat;
        let size = training_set.len();
        let mut order = ascending(size);
        let ghost mut orders: Seq<Seq<usize>> = Seq::empty();
        let mut epoch: usize = 0;
        while epoch < epochs
            invariant
                epoch <= epochs,
                0 < mini_batch_size,
                b == mini_batch_size as nat,
                size == training_set@.len(),
                examples == examples_of(training_set@),
                examples.len() == size,
                self@.len() == old(self)@.len(),
                initial == params_of(old(self)@),
                is_permutation(order@, size as nat),
                orders.len() == epoch,
                forall|e: int|
                    0 <= e < orders.len() ==> is_permutation(#[trigger] orders[e], size as nat),
                self@ == training_states(old(self)@, examples, orders, b, learning_rate),
                same_shape(params_of(self@), initial),
                epoch > 0 ==> batch_fits(initial, examples),
            decreases epochs - epoch,
        {
            reshuffle(&mut order, rng);
            let ghost current = self@;
            let ghost q = params_of(self@);
            let ghost earlier = orders;
            proof {
                orders = orders.push(order@);
                assert(orders.drop_last() =~= earlier);
                assert(orders.last() == order@);
                lemma_permuted_batch_fits(q, examples, order@);
                lemma_batch_fits_by_shape(q, initial, examples);
                lemma_epoch_keeps_shape(current, picked(examples, order@), b, learning_rate);
            }
            match self.train_epoch(training_set, &order, mini_batch_size, learning_rate) {
                Ok(_) => {},
                Err(e) => {
                    proof {
                        assert(is_training_record(
                            orders,
                            old(self)@,
                            self@,
                            examples,
                            epochs as nat,
                            b,
                            learning_rate,
                        ));
                    }
                    return Err(e);
                },
            }
            epoch = epoch + 1;
        }
        proof {
            assert(is_training_record(
                orders,
                old(self)@,
                self@,
                examples,
                epochs as nat,
                b,
                learning_rate,
            ));
        }
        Ok(())
    }

    /// For each layer a matrix of zeros of the shape of its weights and a
    /// vector of zeros of the length of its biases.
    fn zero_gradients(&self) -> (r: (Vec<NMatrix<T>>, Vec<NVector<T>>))
        ensures
            r.0@.len() == self@.len(),
            r.1@.len() == self@.len(),
            forall|l: int|
                0 <= l < self@.len() ==> (#[trigger] r.0@[l])@ == summed_weight_gradient(
                    params_of(self@),
                    Seq::<(Seq<T>, Seq<T>)>::empty(),
                    l,
                ),
            forall|l: int|
                0 <= l < self@.len() ==> (#[trigger] r.1@[l])@ == summed_bias_gradient(
                    params_of(self@),
                    Seq::<(Seq<T>, Seq<T>)>::empty(),
                    l,
                ),
            forall|l: int|
                0 <= l < self@.len() ==> params_of(self@)[l].takes((#[trigger] r.0@[l])@, r.1@[l]@),
    {
        let n = self.layers.len();
        let ghost p = params_of(self@);
        let ghost none = Seq::<(Seq<T>, Seq<T>)>::empty();
        let mut sum_w: Vec<NMatrix<T>> = Vec::new();
        let mut sum_b: Vec<NVector<T>> = Vec::new();
        let mut l: usize = 0;
        while l < n
            invariant
                l <= n,
                n == self.layers@.len(),
                p == params_of(self@),
                none == Seq::<(Seq<T>, Seq<T>)>::empty(),
                sum_w@.len() == l,
                sum_b@.len() == l,
                forall|k: int|
                    0 <= k < l ==> (#[trigger] sum_w@[k])@ == summed_weight_gradient(p, none, k),
                forall|k: int|
                    0 <= k < l ==> (#[trigger] sum_b@[k])@ == summed_bias_gradient(p, none, k),
                forall|k: int| 0 <= k < l ==> p[k].takes((#[trigger] sum_w@[k])@, sum_b@[k]@),
            decreases n - l,
        {
            let layer = &self.layers[l];
            sum_w.push(NMatrix::new(layer.output_size(), layer.input_size()));
            sum_b.push(NVector::new(layer.output_size()));
            l = l + 1;
        }
        (sum_w, sum_b)
    }

    /// Takes one step of gradient descent in every layer: each weight and
    /// each bias less `step` times its summed gradient.
    fn descend(&mut self, sum_w: &Vec<NMatrix<T>>, sum_b: &Vec<NVector<T>>, step: T)
        requires
            sum_w@.len() == old(self)@.len(),
            sum_b@.len() == old(self)@.len(),
            forall|l: int|
                0 <= l < old(self)@.len() ==> params_of(old(self)@)[l].takes(
                    (#[trigger] sum_w@[l])@,
                    sum_b@[l]@,
                ),
        ensures
            final(self)@.len() == old(self)@.len(),
            forall|l: int|
                0 <= l < old(self)@.len() ==> (#[trigger] final(self)@[l]) == (LayerState {
                    params: descended(old(self)@[l].params, sum_w@[l]@, sum_b@[l]@, step),
                    ..old(self)@[l]
                }),
    {
        let ghost before = self@;
        let n = self.layers.len();
        let mut l: usize = 0;
        while l < n
            invariant
                l <= n,
                n == self.layers@.len(),
                n == before.len(),
                sum_w@.len() == n,
                sum_b@.len() == n,
                forall|k: int|
                    0 <= k < n ==> before[k].params.takes((#[trigger] sum_w@[k])@, sum_b@[k]@),
                forall|k: int|
                    0 <= k < l ==> (#[trigger] self@[k]) == (LayerState {
                        params: descended(before[k].params, sum_w@[k]@, sum_b@[k]@, step),
                        ..before[k]
                    }),
                forall|k: int| l <= k < n ==> self@[k] == before[k],
            decreases n - l,
        {
            let ghost current = self@;
            let layer = &self.layers[l];
            proof {
                use_type_invariant(layer);
                assert(before[l as int].params.takes(sum_w@[l as int]@, sum_b@[l as int]@));
            }
            // new weights = w - step * gradient, and the same with the biases
            let weight_prime = layer.weight().sub(&sum_w[l].scale(step)).unwrap();
            let biases_prime = layer.biases().sub(&sum_b[l].scale(step)).unwrap();
            let updated = self.layers[l].update(weight_prime, biases_prime);
            proof {
                assert(updated is Ok);
                assert(current[l as int] == before[l as int]);
                assert(self@[l as int] == (LayerState {
                    params: descended(
                        before[l as int].params,
                        sum_w@[l as int]@,
                        sum_b@[l as int]@,
                        step,
                    ),
                    ..before[l as int]
                }));
                assert forall|k: int| 0 <= k < l + 1 implies (#[trigger] self@[k]) == (LayerState {
                    params: descended(before[k].params, sum_w@[k]@, sum_b@[k]@, step),
                    ..before[k]
                }) by {
                    if k < l {
                        assert(self@[k] == current[k]);
                    }
                }
            }
            l = l + 1;
        }
    }
}

/// Adds the gradients of one example to the sums, layer by layer.
fn accumulate<T: Scalar>(
    sum_w: &mut Vec<NMatrix<T>>,
    sum_b: &mut Vec<NVector<T>>,
    grad_w: &Vec<NMatrix<T>>,
    grad_b: &Vec<NVector<T>>,
)
    requires
        old(sum_w)@.len() == grad_w@.len(),
        old(sum_b)@.len() == grad_w@.len(),
        grad_b@.len() == grad_w@.len(),
        forall|l: int|
            0 <= l < grad_w@.len() ==> (#[trigger] old(sum_w)@[l])@.rows == grad_w@[l]@.rows
                && old(sum_w)@[l]@.cols == grad_w@[l]@.cols && old(sum_b)@[l]@.len()
                == grad_b@[l]@.len(),
    ensures
        final(sum_w)@.len() == grad_w@.len(),
        final(sum_b)@.len() == grad_w@.len(),
        forall|l: int|
            0 <= l < grad_w@.len() ==> (#[trigger] final(sum_w)@[l])@ == old(sum_w)@[l]@.plus(
                grad_w@[l]@,
            ),
        forall|l: int|
            0 <= l < grad_w@.len() ==> (#[trigger] final(sum_b)@[l])@ == elementwise_sum(
                old(sum_b)@[l]@,
                grad_b@[l]@,
            ),
{
    let n = grad_w.len();
    let ghost w0 = sum_w@;
    let ghost b0 = sum_b@;
    let mut l: usize = 0;
    while l < n
        invariant
            l <= n,
            n == grad_w@.len(),
            n == grad_b@.len(),
            sum_w@.len() == n,
            sum_b@.len() == n,
            w0.len() == n,
            b0.len() == n,
            forall|k: int|
                0 <= k < n ==> (#[trigger] w0[k])@.rows == grad_w@[k]@.rows && w0[k]@.cols
                    == grad_w@[k]@.cols && b0[k]@.len() == grad_b@[k]@.len(),
            forall|k: int| 0 <= k < l ==> (#[trigger] sum_w@[k])@ == w0[k]@.plus(grad_w@[k]@),
            forall|k: int|
                0 <= k < l ==> (#[trigger] sum_b@[k])@ == elementwise_sum(b0[k]@, grad_b@[k]@),
            forall|k: int| l <= k < n ==> sum_w@[k] == w0[k] && sum_b@[k] == b0[k],
        decreases n - l,
    {
        proof {
            assert(w0[l as int]@.rows == grad_w@[l as int]@.rows);
        }
        let w = sum_w[l].add(&grad_w[l]).unwrap();
        let b = sum_b[l].add(&grad_b[l]).unwrap();
        sum_w[l] = w;
        sum_b[l] = b;
        l = l + 1;
    }
}

/// Copies of the examples that the indices `order[start..end]` name, in
/// that order.
fn gather<T: Scalar>(
    training_set: &Vec<TrainingDataElem<T>>,
    order: &Vec<usize>,
    start: usize,
    end: usize,
) -> (batch: Vec<TrainingDataElem<T>>)
    requires
        start <= end <= order@.len(),
        order_is_valid(order@, training_set@.len()),
    ensures
        batch@.len() == end - start,
        forall|k: int|
            0 <= k < end - start ==> (#[trigger] batch@[k])@ == training_set@[order@[start
                + k] as int]@,
{
    let mut batch: Vec<TrainingDataElem<T>> = Vec::new();
    let mut i: usize = start;
    while i < end
        invariant
            start <= i <= end,
            end <= order@.len(),
            order_is_valid(order@, training_set@.len()),
            batch@.len() == i - start,
            forall|k: int|
                0 <= k < i - start ==> (#[trigger] batch@[k])@ == training_set@[order@[start
                    + k] as int]@,
        decreases end - i,
    {
        proof {
            assert(order@[i as int] < training_set@.len());
        }
        batch.push(training_set[order[i]].clone());
        i = i + 1;
    }
    batch
}

} // verus!
