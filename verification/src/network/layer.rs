use vstd::prelude::*;
use crate::narray::errors::NErrors;
use crate::narray::matrix::{Grid, NMatrix};
use crate::narray::scalar::Scalar;
use crate::narray::vector::{
    elementwise_difference, elementwise_sum, hadamard_product, zeros, NVector,
};

verus! {

/// The nonlinearity that a layer applies to its pre-activation.
#[derive(Debug, Clone, Copy, PartialEq, Eq, Structural)]
pub enum ActivationFn {
    ReLU,
    SoftMax,
    Sigmoid,
}

/// The rule by which the initial weights of a layer are drawn: from a normal
/// distribution of mean zero whose variance is a small number divided by
/// the layer's input size.
#[derive(Debug, Clone, Copy, PartialEq, Eq, Structural)]
pub enum Initializer {
    /// Variance two over the input size.
    He,
    /// Variance one over the input size.
    Xavier,
}

impl Initializer {
    /// The number that, divided by the input size, gives the variance.
    pub open spec fn variance_numerator_spec(self) -> nat {
        match self {
            Initializer::He => 2,
            Initializer::Xavier => 1,
        }
    }

    /// The number that, divided by the input size, gives the variance.
    pub fn variance_numerator(&self) -> (r: u32)
        ensures
            r == self.variance_numerator_spec(),
    {
        match self {
            Initializer::He => 2,
            Initializer::Xavier => 1,
        }
    }
}

/// `x` where it is positive, zero elsewhere.
pub open spec fn rectified<T: Scalar>(x: T) -> T {
    if x.is_positive_spec() {
        x
    } else {
        T::zero_spec()
    }
}

/// The slope of [`rectified`]: one where `x` is positive, zero elsewhere.
pub open spec fn rectified_slope<T: Scalar>(x: T) -> T {
    if x.is_positive_spec() {
        T::one_spec()
    } else {
        T::zero_spec()
    }
}

impl ActivationFn {
    /// Whether the activation and its derivative are both implemented.
    pub open spec fn is_implemented(self) -> bool {
        self == ActivationFn::ReLU
    }

    /// The activation applied to each element of `z`. Of the activations
    /// only ReLU is implemented: each element where it is positive, zero
    /// elsewhere.
    pub open spec fn apply<T: Scalar>(self, z: Seq<T>) -> Seq<T> {
        Seq::new(z.len(), |i: int| rectified(z[i]))
    }

    /// The derivative of the activation at each element of `z`. Of the
    /// activations only ReLU is implemented: one where the element is
    /// positive, zero elsewhere.
    pub open spec fn derivative<T: Scalar>(self, z: Seq<T>) -> Seq<T> {
        Seq::new(z.len(), |i: int| rectified_slope(z[i]))
    }

    /// The initializer that goes with an activation when none is
    /// configured, if it has one.
    pub open spec fn own_initializer(self) -> Option<Initializer> {
        match self {
            ActivationFn::ReLU => Some(Initializer::He),
            ActivationFn::SoftMax => Some(Initializer::Xavier),
            ActivationFn::Sigmoid => None,
        }
    }

    /// Whether the activation and its derivative are both implemented.
    pub fn implemented(&self) -> (r: bool)
        ensures
            r == self.is_implemented(),
    {
        match self {
            ActivationFn::ReLU => true,
            _ => false,
        }
    }

    /// The initializer for the weights of a layer with this activation: He
    /// for ReLU, Xavier for SoftMax. Sigmoid has none of its own: it takes
    /// the configured one, and without one the answer is
    /// `UnsupportedOperation`.
    pub fn initializer(&self, configured: Option<Initializer>) -> (r: Result<Initializer, NErrors>)
        ensures
            r == (match self.own_initializer() {
                Some(own) => Ok::<Initializer, NErrors>(own),
                None => match configured {
                    Some(given) => Ok::<Initializer, NErrors>(given),
                    None => Err::<Initializer, NErrors>(NErrors::UnsupportedOperation),
                },
            }),
    {
        match self {
            ActivationFn::ReLU => Ok(Initializer::He),
            ActivationFn::SoftMax => Ok(Initializer::Xavier),
            ActivationFn::Sigmoid => match configured {
                Some(given) => Ok(given),
                None => Err(NErrors::UnsupportedOperation),
            },
        }
    }

    /// The activation applied to each element of `z`, or
    /// `UnsupportedOperation` where the activation is not implemented.
    pub fn activate<T: Scalar>(&self, z: &NVector<T>) -> (r: Result<NVector<T>, NErrors>)
        ensures
            self.is_implemented() ==> (r matches Ok(v) && v@ == self.apply(z@)),
            !self.is_implemented() ==> r matches Err(NErrors::UnsupportedOperation),
    {
        match self {
            ActivationFn::ReLU => Ok(Layer::<T>::relu(z)),
            _ => Err(NErrors::UnsupportedOperation),
        }
    }

    /// The derivative of the activation at each element of `z`, or
    /// `UnsupportedOperation` where the activation is not implemented.
    pub fn activate_prime<T: Scalar>(&self, z: &NVector<T>) -> (r: Result<NVector<T>, NErrors>)
        ensures
            self.is_implemented() ==> (r matches Ok(v) && v@ == self.derivative(z@)),
            !self.is_implemented() ==> r matches Err(NErrors::UnsupportedOperation),
    {
        match self {
            ActivationFn::ReLU => Ok(Layer::<T>::relu_prime(z)),
            _ => Err(NErrors::UnsupportedOperation),
        }
    }
}

/// What a layer computes with: its sizes, its weights and biases, and its
/// activation.
pub struct LayerParams<T> {
    pub input_size: nat,
    pub output_size: nat,
    pub weight: Grid<T>,
    pub biases: Seq<T>,
    pub activation: ActivationFn,
}

impl<T: Scalar> LayerParams<T> {
    /// The weights have one row per output and one column per input, there
    /// is one bias per output, and the activation is implemented.
    pub open spec fn wf(self) -> bool {
        &&& self.weight.wf()
        &&& self.weight.rows == self.output_size
        &&& self.weight.cols == self.input_size
        &&& self.biases.len() == self.output_size
        &&& self.activation.is_implemented()
    }

    /// Whether a matrix and a vector have the shapes of the layer's weights
    /// and biases.
    pub open spec fn takes(self, weight: Grid<T>, biases: Seq<T>) -> bool {
        &&& weight.wf()
        &&& weight.rows == self.output_size
        &&& weight.cols == self.input_size
        &&& biases.len() == self.output_size
    }

    /// The pre-activation for the input `x`: weights times `x`, plus biases.
    pub open spec fn pre_activation(self, x: Seq<T>) -> Seq<T> {
        elementwise_sum(self.weight.apply(x), self.biases)
    }

    /// The output for the input `x`.
    pub open spec fn output(self, x: Seq<T>) -> Seq<T> {
        self.activation.apply(self.pre_activation(x))
    }

    /// The error handed to the layer before: the transposed weights times
    /// the layer's own error `local`, multiplied elementwise by the
    /// derivative `previous_derivative` of the layer before where there is
    /// one.
    pub open spec fn propagated(
        self,
        local: Seq<T>,
        previous_derivative: Option<Seq<T>>,
    ) -> Seq<T> {
        let back = self.weight.transpose().apply(local);
        match previous_derivative {
            Some(d) => hadamard_product(back, d),
            None => back,
        }
    }
}

/// A layer as a value: its parameters, and what it remembers of the last
/// forward and backward pass.
pub struct LayerState<T> {
    pub params: LayerParams<T>,
    pub cache_input: Seq<T>,
    pub cache_z: Seq<T>,
    pub cache_output: Seq<T>,
    pub cache_error: Seq<T>,
}

impl<T: Scalar> LayerState<T> {
    /// The parameters fit each other, and each remembered vector has the
    /// length of what it remembers.
    pub open spec fn wf(self) -> bool {
        &&& self.params.wf()
        &&& self.cache_input.len() == self.params.input_size
        &&& self.cache_z.len() == self.params.output_size
        &&& self.cache_output.len() == self.params.output_size
        &&& self.cache_error.len() == self.params.output_size
    }

    /// The state of a layer that was just made with the weights `weight`.
    pub open spec fn fresh(
        input_size: nat,
        output_size: nat,
        activation: ActivationFn,
        weight: Grid<T>,
    ) -> LayerState<T> {
        LayerState {
            params: LayerParams {
                input_size,
                output_size,
                weight,
                biases: zeros::<T>(output_size),
                activation,
            },
            cache_input: zeros::<T>(input_size),
            cache_z: zeros::<T>(output_size),
            cache_output: zeros::<T>(output_size),
            cache_error: zeros::<T>(output_size),
        }
    }

    /// The state after a forward pass on the input `x`.
    pub open spec fn after_forward(self, x: Seq<T>) -> LayerState<T> {
        LayerState {
            cache_input: x,
            cache_z: self.params.pre_activation(x),
            cache_output: self.params.output(x),
            ..self
        }
    }

    /// The layer's own error in a backward pass. A layer that is handed
    /// `my_error` takes it as it is. The last layer is handed none: its
    /// error is the difference of the remembered output and `expected`,
    /// multiplied elementwise by the derivative of the activation at the
    /// remembered pre-activation.
    pub open spec fn local_error(self, expected: Seq<T>, my_error: Option<Seq<T>>) -> Seq<T> {
        match my_error {
            Some(e) => e,
            None => hadamard_product(
                elementwise_difference(self.cache_output, expected),
                self.params.activation.derivative(self.cache_z),
            ),
        }
    }

    /// Whether the vectors handed to a backward pass have the lengths that
    /// the layer works with.
    pub open spec fn backward_fits(
        self,
        expected: Seq<T>,
        my_error: Option<Seq<T>>,
        previous_derivative: Option<Seq<T>>,
    ) -> bool {
        &&& match my_error {
            Some(e) => e.len() == self.params.output_size,
            None => expected.len() == self.params.output_size,
        }
        &&& match previous_derivative {
            Some(d) => d.len() == self.params.input_size,
            None => true,
        }
    }

    /// The state with new weights and biases, all else as before.
    pub open spec fn after_update(self, weight: Grid<T>, biases: Seq<T>) -> LayerState<T> {
        LayerState { params: LayerParams { weight, biases, ..self.params }, ..self }
    }

    /// The state after a backward pass: the layer's own error is
    /// remembered, all else is as before.
    pub open spec fn after_backward(
        self,
        expected: Seq<T>,
        my_error: Option<Seq<T>>,
    ) -> LayerState<T> {
        LayerState { cache_error: self.local_error(expected, my_error), ..self }
    }
}

/// The elements of an optional vector, if there is one.
pub open spec fn optional_view<T: Scalar>(v: Option<&NVector<T>>) -> Option<Seq<T>> {
    match v {
        Some(w) => Some(w@),
        None => None,
    }
}

/// One layer of a network: a weight matrix with one row per output and one
/// column per input, one bias per output, an activation, and the vectors
/// that the last forward and backward pass left behind.
#[derive(Debug)]
pub struct Layer<T: Scalar> {
    input_size: usize,
    output_size: usize,
    weight: NMatrix<T>,
    biases: NVector<T>,
    activation_fn: ActivationFn,
    cache_z: NVector<T>,
    cache_input: NVector<T>,
    cache_output: NVector<T>,
    cache_error: NVector<T>,
}

impl<T: Scalar> View for Layer<T> {
    type V = LayerState<T>;

    closed spec fn view(&self) -> LayerState<T> {
        LayerState {
            params: LayerParams {
                input_size: self.input_size as nat,
                output_size: self.output_size as nat,
                weight: self.weight@,
                biases: self.biases@,
                activation: self.activation_fn,
            },
            cache_input: self.cache_input@,
            cache_z: self.cache_z@,
            cache_output: self.cache_output@,
            cache_error: self.cache_error@,
        }
    }
}

impl<T: Scalar> Layer<T> {
    #[verifier::type_invariant]
    pub(crate) open spec fn well_formed(self) -> bool {
        self@.wf()
    }

    /// A layer with `i_s` inputs, `o_s` outputs and the activation `a_fn`,
    /// which starts from the weights `weight`, from biases of zero and from
    /// remembered vectors of zero. `UnsupportedOperation` where the
    /// activation is not implemented; else `ShapeMismatch` unless `weight`
    /// has `o_s` rows and `i_s` columns.
    pub fn new(i_s: usize, o_s: usize, a_fn: ActivationFn, weight: NMatrix<T>) -> (r: Result<
        Layer<T>,
        NErrors,
    >)
        ensures
            !a_fn.is_implemented() ==> r matches Err(NErrors::UnsupportedOperation),
            a_fn.is_implemented() && (weight@.rows != o_s || weight@.cols != i_s) ==> r matches Err(
                NErrors::ShapeMismatch,
            ),
            a_fn.is_implemented() && weight@.rows == o_s && weight@.cols == i_s ==> (r matches Ok(l)
                && l@ == LayerState::fresh(i_s as nat, o_s as nat, a_fn, weight@) && l@.wf()),
    {
        if !a_fn.implemented() {
            return Err(NErrors::UnsupportedOperation);
        }
        if weight.rows() != o_s || weight.cols() != i_s {
            return Err(NErrors::ShapeMismatch);
        }
        proof {
            use_type_invariant(&weight);
        }
        Ok(
            Layer {
                input_size: i_s,
                output_size: o_s,
                weight,
                biases: NVector::new(o_s),
                activation_fn: a_fn,
                cache_input: NVector::new(i_s),
                cache_z: NVector::new(o_s),
                cache_output: NVector::new(o_s),
                cache_error: NVector::new(o_s),
            },
        )
    }

    /// The number of inputs.
    pub fn input_size(&self) -> (r: usize)
        ensures
            r == self@.params.input_size,
    {
        self.input_size
    }

    /// The number of outputs.
    pub fn output_size(&self) -> (r: usize)
        ensures
            r == self@.params.output_size,
    {
        self.output_size
    }

    /// The weights.
    pub fn weight(&self) -> (r: &NMatrix<T>)
        ensures
            r@ == self@.params.weight,
            self@.wf(),
    {
        proof {
            use_type_invariant(self);
        }
        &self.weight
    }

    /// The biases.
    pub fn biases(&self) -> (r: &NVector<T>)
        ensures
            r@ == self@.params.biases,
    {
        &self.biases
    }

    /// The activation.
    pub fn activation(&self) -> (r: ActivationFn)
        ensures
            r == self@.params.activation,
    {
        self.activation_fn
    }

    /// The input of the last forward pass.
    pub fn cache_input(&self) -> (r: &NVector<T>)
        ensures
            r@ == self@.cache_input,
    {
        &self.cache_input
    }

    /// The pre-activation of the last forward pass.
    pub fn cache_z(&self) -> (r: &NVector<T>)
        ensures
            r@ == self@.cache_z,
    {
        &self.cache_z
    }

    /// The output of the last forward pass.
    pub fn cache_output(&self) -> (r: &NVector<T>)
        ensures
            r@ == self@.cache_output,
    {
        &self.cache_output
    }

    /// The layer's own error of the last backward pass.
    pub fn cache_error(&self) -> (r: &NVector<T>)
        ensures
            r@ == self@.cache_error,
    {
        &self.cache_error
    }

    /// Each element of `z` where it is positive, zero elsewhere.
    pub fn relu(z: &NVector<T>) -> (r: NVector<T>)
        ensures
            r@ == ActivationFn::ReLU.apply(z@),
    {
        let n = z.len();
        let mut act_data: Vec<T> = Vec::with_capacity(n);
        let mut i: usize = 0;
        while i < n
            invariant
                i <= n,
                n == z@.len(),
                act_data@ == ActivationFn::ReLU.apply(z@).take(i as int),
            decreases n - i,
        {
            let a = z.data()[i];
            if a.is_positive() {
                act_data.push(a);
            } else {
                act_data.push(T::zero());
            }
            proof {
                assert(act_data@ =~= ActivationFn::ReLU.apply(z@).take(i + 1));
            }
            i = i + 1;
        }
        proof {
            assert(act_data@ =~= ActivationFn::ReLU.apply(z@));
        }
        NVector::new_init(act_data)
    }

    /// One for each positive element of `z`, zero for each other.
    pub fn relu_prime(z: &NVector<T>) -> (r: NVector<T>)
        ensures
            r@ == ActivationFn::ReLU.derivative(z@),
    {
        let n = z.len();
        let mut slopes: Vec<T> = Vec::with_capacity(n);
        let mut i: usize = 0;
        while i < n
            invariant
                i <= n,
                n == z@.len(),
                slopes@ == ActivationFn::ReLU.derivative(z@).take(i as int),
            decreases n - i,
        {
            if z.data()[i].is_positive() {
                slopes.push(T::one());
            } else {
                slopes.push(T::zero());
            }
            proof {
                assert(slopes@ =~= ActivationFn::ReLU.derivative(z@).take(i + 1));
            }
            i = i + 1;
        }
        proof {
            assert(slopes@ =~= ActivationFn::ReLU.derivative(z@));
        }
        NVector::new_init(slopes)
    }

    /// The layer's activation applied to `z`.
    fn activate(&self, z: &NVector<T>) -> (r: NVector<T>)
        ensures
            r@ == self@.params.activation.apply(z@),
    {
        proof {
            use_type_invariant(self);
        }
        self.activation_fn.activate(z).unwrap()
    }

    /// The derivative of the layer's activation at `z`.
    fn prime_activate(&self, z: &NVector<T>) -> (r: NVector<T>)
        ensures
            r@ == self@.params.activation.derivative(z@),
    {
        proof {
            use_type_invariant(self);
        }
        self.activation_fn.activate_prime(z).unwrap()
    }

    /// The derivative of the activation at the pre-activation of the last
    /// forward pass.
    pub fn cached_z_prime(&self) -> (r: NVector<T>)
        ensures
            r@ == self@.params.activation.derivative(self@.cache_z),
    {
        self.prime_activate(&self.cache_z)
    }

    /// A forward pass: the pre-activation is the weights times `input` plus
    /// the biases, the output is the activation of it. Input,
    /// pre-activation and output are remembered. `ShapeMismatch`, and
    /// nothing remembered, unless `input` has as many elements as the layer
    /// has inputs.
    pub fn forward(&mut self, input: &NVector<T>) -> (r: Result<NVector<T>, NErrors>)
        ensures
            old(self)@.wf(),
            final(self)@.wf(),
            input@.len() == old(self)@.params.input_size ==> (r matches Ok(a)
                && a@ == old(self)@.params.output(input@))
                && final(self)@ == old(self)@.after_forward(input@),
            input@.len() != old(self)@.params.input_size ==> (r matches Err(NErrors::ShapeMismatch))
                && final(self)@ == old(self)@,
    {
        proof {
            use_type_invariant(&*self);
        }
        if input.len() != self.input_size {
            return Err(NErrors::ShapeMismatch);
        }
        // z = W*x + b
        let z = self.weight.mul_vector(input).unwrap().add(&self.biases).unwrap();
        let a = self.activate(&z);
        self.cache_input = input.clone();
        self.cache_output = a.clone();
        self.cache_z = z;
        Ok(a)
    }

    /// The difference of `activated_output` and `expected_output`, element
    /// by element, or `ShapeMismatch` where their lengths differ.
    pub fn cost_gradient(activated_output: &NVector<T>, expected_output: &NVector<T>) -> (r: Result<
        NVector<T>,
        NErrors,
    >)
        ensures
            activated_output@.len() == expected_output@.len() ==> (r matches Ok(v) && v@
                == elementwise_difference(activated_output@, expected_output@)),
            activated_output@.len() != expected_output@.len() ==> r matches Err(
                NErrors::ShapeMismatch,
            ),
    {
        activated_output.sub(expected_output)
    }

    /// A backward pass. The layer's own error is `my_error` where one is
    /// handed in; the last layer is handed none and computes it from the
    /// remembered output and `expected_output`. The error is remembered,
    /// and the error for the layer before is returned: the transposed
    /// weights times the layer's own error, multiplied elementwise by
    /// `previous_derivative`, the derivative of the activation of the layer
    /// before at its remembered pre-activation. The first layer has no
    /// layer before it and hands in `None`. `ShapeMismatch`, and nothing
    /// remembered, where a vector has the wrong length.
    pub fn back_propagrate(
        &mut self,
        expected_output: &NVector<T>,
        my_error: Option<&NVector<T>>,
        previous_derivative: Option<&NVector<T>>,
    ) -> (r: Result<NVector<T>, NErrors>)
        ensures
            old(self)@.wf(),
            final(self)@.wf(),
            old(self)@.backward_fits(
                expected_output@,
                optional_view(my_error),
                optional_view(previous_derivative),
            ) ==> (r matches Ok(v) && v@ == old(self)@.params.propagated(
                old(self)@.local_error(expected_output@, optional_view(my_error)),
                optional_view(previous_derivative),
            )) && final(self)@ == old(self)@.after_backward(
                expected_output@,
                optional_view(my_error),
            ),
            !old(self)@.backward_fits(
                expected_output@,
                optional_view(my_error),
                optional_view(previous_derivative),
            ) ==> (r matches Err(NErrors::ShapeMismatch)) && final(self)@ == old(self)@,
    {
        proof {
            use_type_invariant(&*self);
        }
        let local = match my_error {
            Some(e) => {
                if e.len() != self.output_size {
                    return Err(NErrors::ShapeMismatch);
                }
                e.clone()
            },
            None => {
                // The last layer: its error comes from the cost.
                let grad_cost = match Self::cost_gradient(&self.cache_output, expected_output) {
                    Ok(v) => v,
                    Err(e) => {
                        return Err(e);
                    },
                };
                let prime_activated = self.prime_activate(&self.cache_z);
                grad_cost.hadamard(&prime_activated).unwrap()
            },
        };
        let back = self.weight.transpose().mul_vector(&local).unwrap();
        let previous_error = match previous_derivative {
            Some(d) => match back.hadamard(d) {
                Ok(v) => v,
                Err(e) => {
                    return Err(e);
                },
            },
            None => back,
        };
        self.cache_error = local;
        Ok(previous_error)
    }

    /// Replaces weights and biases together. `ShapeMismatch`, and nothing
    /// replaced, unless `weight` has the shape of the present weights and
    /// `bias` the length of the present biases.
    pub fn update(&mut self, weight: NMatrix<T>, bias: NVector<T>) -> (r: Result<(), NErrors>)
        ensures
            old(self)@.wf(),
            final(self)@.wf(),
            old(self)@.params.takes(weight@, bias@) ==> r == Ok::<(), NErrors>(())
                && final(self)@ == old(self)@.after_update(weight@, bias@),
            !old(self)@.params.takes(weight@, bias@) ==> r == Err::<(), NErrors>(
                NErrors::ShapeMismatch,
            ) && final(self)@ == old(self)@,
    {
        proof {
            use_type_invariant(&*self);
        }
        if weight.rows() != self.output_size || weight.cols() != self.input_size || bias.len()
            != self.output_size {
            return Err(NErrors::ShapeMismatch);
        }
        proof {
            use_type_invariant(&weight);
        }
        self.weight = weight;
        self.biases = bias;
        Ok(())
    }
}

} // verus!
