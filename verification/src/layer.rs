//! Layers: the units that a network is made of.
//!
//! A layer is a fixed behaviour, which says what it computes from parameters
//! and inputs, and a list of parameters, which training changes. A [`Dense`]
//! layer is an affine map whose parameters are a matrix of weights and a
//! vector of biases; an [`Activation`] layer applies one scalar function to
//! every entry and has no parameters.
use vstd::prelude::*;
use crate::algebra::{
    matrix_difference, matrix_scaled, matrix_vector, outer_product, transposed,
    vector_difference, vector_scaled, vector_sum, width, has_shape, rectangular,
};
use crate::error::Error;
use crate::matrix::{all_drawn, copy_of, rows_of, Matrix, Vector};
use crate::scalar::Scalar;

verus! {

/// What a layer computes, as functions of its parameters. Training changes the
/// parameters of a layer and never its behaviour.
#[verifier::reject_recursive_types(T)]
pub struct Behaviour<T> {
    /// The output for the given parameters and inputs, or `None` where the
    /// inputs do not fit.
    pub output: spec_fn(Seq<Seq<T>>, Seq<T>) -> Option<Seq<T>>,
    /// The error passed back to the layer before, for the given parameters,
    /// inputs and error of the output, or `None` where the shapes do not fit.
    pub input_error: spec_fn(Seq<Seq<T>>, Seq<T>, Seq<T>) -> Option<Seq<T>>,
    /// The parameters after one step of gradient descent at the given rate, for
    /// the given parameters, inputs and error of the output.
    pub descended: spec_fn(Seq<Seq<T>>, Seq<T>, Seq<T>, T) -> Seq<Seq<T>>,
}

/// Two parameter lists have as many rows, and rows as long.
pub open spec fn same_lengths<T>(a: Seq<Seq<T>>, b: Seq<Seq<T>>) -> bool {
    &&& a.len() == b.len()
    &&& forall|i: int| 0 <= i < a.len() ==> (#[trigger] a[i]).len() == b[i].len()
}

/// A unit of a network: a forward transform, and a backward transform that
/// also takes one step of gradient descent on the layer's own parameters.
pub trait Layer<T: Scalar> {
    /// The parameters that training changes, row by row.
    spec fn parameters(&self) -> Seq<Seq<T>>;

    /// What the layer computes from its parameters.
    spec fn behaviour(&self) -> Behaviour<T>;

    /// The output for `inputs` under the current parameters. The layer is not
    /// changed.
    fn forward_propagate(&self, inputs: &Vector<T>) -> (r: Result<Vector<T>, Error>)
        ensures
            match (self.behaviour().output)(self.parameters(), inputs@) {
                Some(out) => r is Ok && r.unwrap()@ == out,
                None => r == Err::<Vector<T>, Error>(Error::DimensionMismatch),
            },
    ;

    /// Given the inputs of the forward call before and the error of its
    /// output, returns the error of the inputs, computed from the parameters
    /// as they are before the call, and moves the parameters one step down
    /// the gradient. Where the shapes do not fit, nothing is changed.
    fn backward_propagate(
        &mut self,
        inputs: &Vector<T>,
        output_error: &Vector<T>,
        learning_rate: T,
    ) -> (r: Result<Vector<T>, Error>)
        ensures
            final(self).behaviour() == old(self).behaviour(),
            match (old(self).behaviour().input_error)(
                old(self).parameters(),
                inputs@,
                output_error@,
            ) {
                Some(error) => r is Ok && r.unwrap()@ == error && final(self).parameters() == (old(self).behaviour().descended)(
                    old(self).parameters(),
                    inputs@,
                    output_error@,
                    learning_rate,
                ),
                None => r == Err::<Vector<T>, Error>(Error::DimensionMismatch)
                    && final(self).parameters() == old(self).parameters(),
            },
    ;

    /// A copy of the parameters.
    fn snapshot(&self) -> (r: Vec<Vec<T>>)
        ensures
            rows_of(r@) == self.parameters(),
    ;

    /// Replaces the parameters by `parameters`, which must have the lengths of
    /// the current ones; else nothing is changed.
    fn restore(&mut self, parameters: Vec<Vec<T>>) -> (r: Result<(), Error>)
        ensures
            final(self).behaviour() == old(self).behaviour(),
            same_lengths(rows_of(parameters@), old(self).parameters()) ==> r is Ok && final(self).parameters() == rows_of(parameters@),
            !same_lengths(rows_of(parameters@), old(self).parameters()) ==> r == Err::<(), Error>(
                Error::DeserializationFailure,
            ) && final(self).parameters() == old(self).parameters(),
    ;
}

/// The weights of a dense layer with the given parameters: all rows but the
/// last.
pub open spec fn weights_of<T>(parameters: Seq<Seq<T>>) -> Seq<Seq<T>> {
    parameters.drop_last()
}

/// The biases of a dense layer with the given parameters: the last row.
pub open spec fn biases_of<T>(parameters: Seq<Seq<T>>) -> Seq<T> {
    parameters.last()
}

/// The inputs are as long as the weights are wide, and there is a bias for
/// each row of weights.
pub open spec fn dense_fits<T>(parameters: Seq<Seq<T>>, inputs: Seq<T>) -> bool {
    &&& parameters.len() > 0
    &&& inputs.len() == width(weights_of(parameters))
    &&& biases_of(parameters).len() == weights_of(parameters).len()
}

/// `weights * inputs + biases`.
pub open spec fn dense_output<T: Scalar>(parameters: Seq<Seq<T>>, inputs: Seq<T>) -> Option<
    Seq<T>,
> {
    if dense_fits(parameters, inputs) {
        Some(vector_sum(matrix_vector(weights_of(parameters), inputs), biases_of(parameters)))
    } else {
        None
    }
}

/// `transpose(weights) * output_error`, where the inputs fit the weights and
/// there is an error for each row of weights.
pub open spec fn dense_input_error<T: Scalar>(
    parameters: Seq<Seq<T>>,
    inputs: Seq<T>,
    output_error: Seq<T>,
) -> Option<Seq<T>> {
    if dense_fits(parameters, inputs) && output_error.len() == weights_of(parameters).len() {
        Some(matrix_vector(transposed(weights_of(parameters)), output_error))
    } else {
        None
    }
}

/// The weights less `learning_rate * (output_error * transpose(inputs))`, and
/// the biases less `output_error * learning_rate`.
pub open spec fn dense_descended<T: Scalar>(
    parameters: Seq<Seq<T>>,
    inputs: Seq<T>,
    output_error: Seq<T>,
    learning_rate: T,
) -> Seq<Seq<T>> {
    matrix_difference(
        weights_of(parameters),
        matrix_scaled(outer_product(output_error, inputs), learning_rate),
    ).push(
        vector_difference(biases_of(parameters), vector_scaled(output_error, learning_rate)),
    )
}

/// The behaviour of every dense layer.
pub open spec fn dense_behaviour<T: Scalar>() -> Behaviour<T> {
    Behaviour {
        output: |p: Seq<Seq<T>>, x: Seq<T>| dense_output(p, x),
        input_error: |p: Seq<Seq<T>>, x: Seq<T>, e: Seq<T>| dense_input_error(p, x, e),
        descended: |p: Seq<Seq<T>>, x: Seq<T>, e: Seq<T>, k: T| dense_descended(p, x, e, k),
    }
}

/// An affine map `weights * inputs + biases`, with a row of weights and a bias
/// for each output.
#[derive(Debug)]
pub struct Dense<T> {
    weights: Matrix<T>,
    biases: Vector<T>,
}

impl<T: Scalar> Dense<T> {
    /// A layer from `input_size` inputs to `output_size` outputs whose weights
    /// and biases are drawn from [`Scalar::random`].
    pub fn new(input_size: usize, output_size: usize) -> (r: Dense<T>)
        ensures
            r.parameters().len() == output_size + 1,
            has_shape(weights_of(r.parameters()), output_size as nat, input_size as nat),
            biases_of(r.parameters()).len() == output_size,
            forall|i: int, j: int|
                0 <= i < output_size && 0 <= j < input_size ==> (#[trigger] weights_of(
                    r.parameters(),
                )[i][j]).drawn(),
            all_drawn(biases_of(r.parameters())),
    {
        let weights: Matrix<T> = Matrix::new(output_size, input_size);
        let biases: Vector<T> = Vector::new(output_size);
        let dense = Dense { weights, biases };
        assert(dense.parameters().drop_last() =~= dense.weights@);
        dense
    }

    /// A layer with the given weights, a row for each output, and biases.
    pub fn from_parameters(weights: Matrix<T>, biases: Vector<T>) -> (r: Dense<T>)
        ensures
            r.parameters() == weights@.push(biases@),
    {
        Dense { weights, biases }
    }
}

impl<T: Scalar> Layer<T> for Dense<T> {
    closed spec fn parameters(&self) -> Seq<Seq<T>> {
        self.weights@.push(self.biases@)
    }

    open spec fn behaviour(&self) -> Behaviour<T> {
        dense_behaviour()
    }

    fn forward_propagate(&self, inputs: &Vector<T>) -> (r: Result<Vector<T>, Error>)
        ensures
            dense_fits(self.parameters(), inputs@) ==> r is Ok && r.unwrap()@ == vector_sum(
                matrix_vector(weights_of(self.parameters()), inputs@),
                biases_of(self.parameters()),
            ),
            !dense_fits(self.parameters(), inputs@) ==> r == Err::<Vector<T>, Error>(
                Error::DimensionMismatch,
            ),
    {
        proof {
            assert(self.parameters().drop_last() =~= self.weights@);
        }
        match self.weights.mul_vector(inputs) {
            Ok(product) => product.add(&self.biases),
            Err(e) => Err(e),
        }
    }

    fn backward_propagate(
        &mut self,
        inputs: &Vector<T>,
        output_error: &Vector<T>,
        learning_rate: T,
    ) -> (r: Result<Vector<T>, Error>)
        ensures
            dense_input_error(old(self).parameters(), inputs@, output_error@) is Some ==> r is Ok
                && r.unwrap()@ == matrix_vector(
                transposed(weights_of(old(self).parameters())),
                output_error@,
            ) && final(self).parameters() == dense_descended(
                old(self).parameters(),
                inputs@,
                output_error@,
                learning_rate,
            ),
            dense_input_error(old(self).parameters(), inputs@, output_error@) is None ==> r
                == Err::<Vector<T>, Error>(Error::DimensionMismatch) && final(self).parameters()
                == old(self).parameters(),
    {
        proof {
            assert(self.parameters().drop_last() =~= self.weights@);
        }
        if inputs.size() != self.weights.columns() || output_error.size() != self.weights.rows()
            || self.biases.size() != self.weights.rows() {
            return Err(Error::DimensionMismatch);
        }
        let input_error = self.weights.transpose().mul_vector(output_error)?;
        let step: Matrix<T> = output_error.mul_transpose(inputs.transpose()).scaled(learning_rate);
        assert(self.weights.same_shape(&step)) by {
            if output_error@.len() > 0 {
                assert(step@[0].len() == inputs@.len());
            }
        }
        self.weights.sub_assign(step)?;
        self.biases.sub_assign(&output_error.mul_scalar(learning_rate))?;
        proof {
            assert(self.parameters().drop_last() =~= self.weights@);
        }
        Ok(input_error)
    }

    fn snapshot(&self) -> (r: Vec<Vec<T>>) {
        let mut out: Vec<Vec<T>> = Vec::new();
        let rows: &Vec<Vec<T>> = self.weights.data();
        let mut i: usize = 0;
        while i < rows.len()
            invariant
                i <= rows@.len(),
                out@.len() == i,
                forall|k: int| 0 <= k < i ==> (#[trigger] out@[k])@ == rows@[k]@,
            decreases rows.len() - i,
        {
            out.push(copy_of(&rows[i]));
            i += 1;
        }
        out.push(copy_of(self.biases.data()));
        assert(rows_of(out@) =~= self.parameters());
        out
    }

    fn restore(&mut self, parameters: Vec<Vec<T>>) -> (r: Result<(), Error>) {
        proof {
            use_type_invariant(&self.weights);
        }
        let mut rows: Vec<Vec<T>> = parameters;
        let rows_now: usize = self.weights.rows();
        let columns_now: usize = self.weights.columns();
        if rows.len() == 0 || rows.len() - 1 != rows_now {
            return Err(Error::DeserializationFailure);
        }
        let mut i: usize = 0;
        while i < rows_now
            invariant
                i <= rows_now,
                rows_now == self.weights@.len(),
                columns_now == width(self.weights@),
                rectangular(self.weights@),
                rows@.len() == rows_now + 1,
                rows == parameters,
                *self == *old(self),
                forall|k: int| 0 <= k < i ==> (#[trigger] rows@[k])@.len() == columns_now,
            decreases rows_now - i,
        {
            if rows[i].len() != columns_now {
                assert(rows_of(rows@)[i as int].len() != self.parameters()[i as int].len());
                return Err(Error::DeserializationFailure);
            }
            i += 1;
        }
        if rows[rows_now].len() != self.biases.size() {
            assert(rows_of(rows@)[rows_now as int].len() != self.parameters()[rows_now as int].len());
            return Err(Error::DeserializationFailure);
        }
        let ghost given = rows_of(rows@);
        assert(same_lengths(given, self.parameters())) by {
            assert forall|k: int| 0 <= k < given.len() implies (#[trigger] given[k]).len()
                == self.parameters()[k].len() by {
                if k < rows_now {
                    assert(rows@[k]@.len() == columns_now);
                    assert(self.weights@[k].len() == width(self.weights@));
                }
            }
        }
        match rows.pop() {
            Some(last) => {
                assert(rows_of(rows@) =~= given.drop_last());
                assert(last@ == given.last());
                self.weights = Matrix::from_data(rows);
                self.biases = Vector::from_data(last);
                assert(self.parameters() =~= given);
                Ok(())
            },
            None => Err(Error::DeserializationFailure),
        }
    }
}

/// A function from scalars to scalars that can be called on every scalar and
/// has one result for each.
pub open spec fn total_function<T, F: Fn(&T) -> T>(f: F) -> bool {
    &&& forall|x: T| #[trigger] call_requires(f, (&x,))
    &&& forall|x: T, y: T, z: T|
        #[trigger] call_ensures(f, (&x,), y) && #[trigger] call_ensures(f, (&x,), z) ==> y == z
}

/// The result of `f` on `x`.
pub open spec fn value_of<T, F: Fn(&T) -> T>(f: F, x: T) -> T {
    choose|y: T| call_ensures(f, (&x,), y)
}

/// `f` applied to every entry.
pub open spec fn activation_output<T, F: Fn(&T) -> T>(f: F, inputs: Seq<T>) -> Seq<T> {
    Seq::new(inputs.len(), |i: int| value_of(f, inputs[i]))
}

/// Position by position, the derivative `g` at the input times the error of
/// the output, where there is one error for each input.
pub open spec fn activation_input_error<T: Scalar, G: Fn(&T) -> T>(
    g: G,
    inputs: Seq<T>,
    output_error: Seq<T>,
) -> Option<Seq<T>> {
    if inputs.len() == output_error.len() {
        Some(Seq::new(inputs.len(), |i: int| value_of(g, inputs[i]).product(output_error[i])))
    } else {
        None
    }
}

/// The behaviour of an activation layer with function `f` and derivative `g`.
pub open spec fn activation_behaviour<T: Scalar, F: Fn(&T) -> T, G: Fn(&T) -> T>(
    f: F,
    g: G,
) -> Behaviour<T> {
    Behaviour {
        output: |p: Seq<Seq<T>>, x: Seq<T>| Some(activation_output(f, x)),
        input_error: |p: Seq<Seq<T>>, x: Seq<T>, e: Seq<T>| activation_input_error(g, x, e),
        descended: |p: Seq<Seq<T>>, x: Seq<T>, e: Seq<T>, k: T| p,
    }
}

/// The entries at one position decide the error passed back at that position:
/// two calls that agree on the input and on the error at `i` agree on the
/// result at `i`, whatever stands at the other positions.
pub proof fn lemma_activation_error_is_positionwise<T: Scalar, G: Fn(&T) -> T>(
    g: G,
    inputs_a: Seq<T>,
    error_a: Seq<T>,
    inputs_b: Seq<T>,
    error_b: Seq<T>,
    i: int,
)
    requires
        inputs_a.len() == error_a.len(),
        inputs_b.len() == error_b.len(),
        0 <= i < inputs_a.len(),
        0 <= i < inputs_b.len(),
        inputs_a[i] == inputs_b[i],
        error_a[i] == error_b[i],
    ensures
        activation_input_error(g, inputs_a, error_a).unwrap()[i] == activation_input_error(
            g,
            inputs_b,
            error_b,
        ).unwrap()[i],
        activation_input_error(g, inputs_a, error_a).unwrap()[i] == value_of(
            g,
            inputs_a[i],
        ).product(error_a[i]),
{
}

/// One scalar function applied to every entry, with the derivative that
/// training needs. The layer has no parameters and never changes.
#[verifier::reject_recursive_types(T)]
pub struct Activation<T, F: Fn(&T) -> T, G: Fn(&T) -> T> {
    activation_function: F,
    function_derivative: G,
    scalar: core::marker::PhantomData<T>,
}

impl<T, F: Fn(&T) -> T, G: Fn(&T) -> T> Activation<T, F, G> {
    #[verifier::type_invariant]
    closed spec fn well_formed(&self) -> bool {
        total_function(self.activation_function) && total_function(self.function_derivative)
    }

    /// The function that the layer applies.
    pub closed spec fn function(&self) -> F {
        self.activation_function
    }

    /// The derivative of that function.
    pub closed spec fn derivative(&self) -> G {
        self.function_derivative
    }

    /// A layer that applies `activation_function`, whose derivative is
    /// `function_derivative`.
    pub fn new(activation_function: F, function_derivative: G) -> (r: Self)
        requires
            total_function(activation_function),
            total_function(function_derivative),
        ensures
            r.function() == activation_function,
            r.derivative() == function_derivative,
    {
        Activation { activation_function, function_derivative, scalar: core::marker::PhantomData }
    }
}

impl<T: Scalar, F: Fn(&T) -> T, G: Fn(&T) -> T> Layer<T> for Activation<T, F, G> {
    open spec fn parameters(&self) -> Seq<Seq<T>> {
        Seq::empty()
    }

    open spec fn behaviour(&self) -> Behaviour<T> {
        activation_behaviour(self.function(), self.derivative())
    }

    fn forward_propagate(&self, inputs: &Vector<T>) -> (r: Result<Vector<T>, Error>)
        ensures
            r is Ok,
            r.unwrap()@ == activation_output(self.function(), inputs@),
            forall|i: int|
                0 <= i < inputs@.len() ==> call_ensures(
                    self.function(),
                    (&inputs@[i],),
                    #[trigger] r.unwrap()@[i],
                ),
    {
        proof {
            use_type_invariant(self);
        }
        let values: &Vec<T> = inputs.data();
        let mut out: Vec<T> = Vec::new();
        let mut i: usize = 0;
        while i < values.len()
            invariant
                i <= values@.len(),
                total_function(self.activation_function),
                out@.len() == i,
                forall|k: int|
                    0 <= k < i ==> out@[k] == value_of(self.activation_function, values@[k]),
                forall|k: int|
                    0 <= k < i ==> call_ensures(
                        self.activation_function,
                        (&values@[k],),
                        #[trigger] out@[k],
                    ),
            decreases values.len() - i,
        {
            let y: T = (self.activation_function)(&values[i]);
            out.push(y);
            i += 1;
        }
        assert(out@ =~= activation_output(self.activation_function, inputs@));
        Ok(Vector::from_data(out))
    }

    fn backward_propagate(
        &mut self,
        inputs: &Vector<T>,
        output_error: &Vector<T>,
        learning_rate: T,
    ) -> (r: Result<Vector<T>, Error>)
        ensures
            *final(self) == *old(self),
            inputs@.len() == output_error@.len() ==> r is Ok && r.unwrap()@.len() == inputs@.len()
                && forall|i: int|
                0 <= i < inputs@.len() ==> r.unwrap()@[i] == value_of(
                    old(self).derivative(),
                    inputs@[i],
                ).product(output_error@[i]) && call_ensures(
                    old(self).derivative(),
                    (&inputs@[i],),
                    value_of(old(self).derivative(), inputs@[i]),
                ),
            inputs@.len() != output_error@.len() ==> r == Err::<Vector<T>, Error>(
                Error::DimensionMismatch,
            ),
    {
        proof {
            use_type_invariant(&*self);
        }
        if inputs.size() != output_error.size() {
            return Err(Error::DimensionMismatch);
        }
        let values: &Vec<T> = inputs.data();
        let errors: &Vec<T> = output_error.data();
        let mut out: Vec<T> = Vec::new();
        let mut i: usize = 0;
        while i < values.len()
            invariant
                i <= values@.len() == errors@.len(),
                total_function(self.function_derivative),
                out@.len() == i,
                forall|k: int|
                    0 <= k < i ==> out@[k] == value_of(
                        self.function_derivative,
                        values@[k],
                    ).product(errors@[k]),
                forall|k: int|
                    0 <= k < i ==> call_ensures(
                        self.function_derivative,
                        (&values@[k],),
                        #[trigger] value_of(self.function_derivative, values@[k]),
                    ),
            decreases values.len() - i,
        {
            let slope: T = (self.function_derivative)(&values[i]);
            out.push(slope.mul(errors[i]));
            i += 1;
        }
        assert(out@ =~= activation_input_error(
            self.function_derivative,
            inputs@,
            output_error@,
        ).unwrap());
        Ok(Vector::from_data(out))
    }

    fn snapshot(&self) -> (r: Vec<Vec<T>>) {
        let out: Vec<Vec<T>> = Vec::new();
        assert(rows_of(out@) =~= Seq::<Seq<T>>::empty());
        out
    }

    fn restore(&mut self, parameters: Vec<Vec<T>>) -> (r: Result<(), Error>) {
        if parameters.len() == 0 {
            assert(rows_of(parameters@) =~= Seq::<Seq<T>>::empty());
            Ok(())
        } else {
            Err(Error::DeserializationFailure)
        }
    }
}

/// Either kind of layer, so that one network can hold both.
#[verifier::reject_recursive_types(T)]
pub enum Stage<T, F: Fn(&T) -> T, G: Fn(&T) -> T> {
    Dense(Dense<T>),
    Activation(Activation<T, F, G>),
}

impl<T: Scalar, F: Fn(&T) -> T, G: Fn(&T) -> T> Layer<T> for Stage<T, F, G> {
    open spec fn parameters(&self) -> Seq<Seq<T>> {
        match self {
            Stage::Dense(layer) => layer.parameters(),
            Stage::Activation(layer) => layer.parameters(),
        }
    }

    open spec fn behaviour(&self) -> Behaviour<T> {
        match self {
            Stage::Dense(layer) => layer.behaviour(),
            Stage::Activation(layer) => layer.behaviour(),
        }
    }

    fn forward_propagate(&self, inputs: &Vector<T>) -> (r: Result<Vector<T>, Error>) {
        match self {
            Stage::Dense(layer) => layer.forward_propagate(inputs),
            Stage::Activation(layer) => layer.forward_propagate(inputs),
        }
    }

    fn backward_propagate(
        &mut self,
        inputs: &Vector<T>,
        output_error: &Vector<T>,
        learning_rate: T,
    ) -> (r: Result<Vector<T>, Error>) {
        match self {
            Stage::Dense(layer) => layer.backward_propagate(inputs, output_error, learning_rate),
            Stage::Activation(layer) => layer.backward_propagate(
                inputs,
                output_error,
                learning_rate,
            ),
        }
    }

    fn snapshot(&self) -> (r: Vec<Vec<T>>) {
        match self {
            Stage::Dense(layer) => layer.snapshot(),
            Stage::Activation(layer) => layer.snapshot(),
        }
    }

    fn restore(&mut self, parameters: Vec<Vec<T>>) -> (r: Result<(), Error>) {
        match self {
            Stage::Dense(layer) => layer.restore(parameters),
            Stage::Activation(layer) => layer.restore(parameters),
        }
    }
}

} // verus!
