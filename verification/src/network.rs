//! The network: an ordered pipeline of layers, a loss, and the stack of
//! activations that ties a forward pass to the backward pass that follows it.
use vstd::prelude::*;
use crate::error::Error;
use crate::layer::{same_lengths, Behaviour, Layer};
use crate::matrix::{rows_of, Vector};
use crate::scalar::Scalar;
use crate::snapshot::{
    decode, decoded, encodable, encode, encoded, layers_of, lemma_snapshot_round_trip,
};

verus! {

/// The activations of a forward pass through the first `k` layers: the input,
/// then the output of each layer in turn. `None` where some layer among them
/// does not accept what the layer before it gave.
pub open spec fn activations<T>(
    behaviours: Seq<Behaviour<T>>,
    parameters: Seq<Seq<Seq<T>>>,
    input: Seq<T>,
    k: nat,
) -> Option<Seq<Seq<T>>>
    decreases k,
{
    if k == 0 {
        Some(seq![input])
    } else {
        match activations(behaviours, parameters, input, (k - 1) as nat) {
            Some(trace) => match (behaviours[k - 1].output)(parameters[k - 1], trace.last()) {
                Some(out) => Some(trace.push(out)),
                None => None,
            },
            None => None,
        }
    }
}

/// The state of a backward pass that has gone from the last layer down to
/// layer `k`: the parameters, in which each of those layers has taken its
/// step, and the error to hand to layer `k - 1`. The error is `None`, and
/// the layers from there down are untouched, once a layer has refused its
/// shapes.
pub open spec fn descent<T>(
    behaviours: Seq<Behaviour<T>>,
    parameters: Seq<Seq<Seq<T>>>,
    trace: Seq<Seq<T>>,
    output_error: Seq<T>,
    learning_rate: T,
    k: nat,
) -> (Seq<Seq<Seq<T>>>, Option<Seq<T>>)
    decreases behaviours.len() - k,
{
    if k >= behaviours.len() {
        (parameters, Some(output_error))
    } else {
        let (above, error) = descent(
            behaviours,
            parameters,
            trace,
            output_error,
            learning_rate,
            k + 1,
        );
        match error {
            Some(error) => match (behaviours[k as int].input_error)(
                above[k as int],
                trace[k as int],
                error,
            ) {
                Some(passed) => (
                    above.update(
                        k as int,
                        (behaviours[k as int].descended)(
                            above[k as int],
                            trace[k as int],
                            error,
                            learning_rate,
                        ),
                    ),
                    Some(passed),
                ),
                None => (above, None),
            },
            None => (above, None),
        }
    }
}

/// The views of a sequence of vectors.
pub open spec fn views<T>(vectors: Seq<Vector<T>>) -> Seq<Seq<T>> {
    Seq::new(vectors.len(), |i: int| vectors[i]@)
}

/// A forward pass through `k` layers leaves `k + 1` activations.
pub proof fn lemma_activations_length<T>(
    behaviours: Seq<Behaviour<T>>,
    parameters: Seq<Seq<Seq<T>>>,
    input: Seq<T>,
    k: nat,
)
    requires
        activations(behaviours, parameters, input, k) is Some,
    ensures
        activations(behaviours, parameters, input, k).unwrap().len() == k + 1,
        activations(behaviours, parameters, input, k).unwrap()[0] == input,
    decreases k,
{
    if k > 0 {
        lemma_activations_length(behaviours, parameters, input, (k - 1) as nat);
    }
}

/// A forward pass that fails at some layer fails as a whole.
proof fn lemma_activations_stay_none<T>(
    behaviours: Seq<Behaviour<T>>,
    parameters: Seq<Seq<Seq<T>>>,
    input: Seq<T>,
    j: nat,
    k: nat,
)
    requires
        j <= k,
        activations(behaviours, parameters, input, j) is None,
    ensures
        activations(behaviours, parameters, input, k) is None,
    decreases k,
{
    if j < k {
        lemma_activations_stay_none(behaviours, parameters, input, j, (k - 1) as nat);
    }
}

/// A backward pass that fails at some layer leaves the layers below it alone.
proof fn lemma_descent_stays_none<T>(
    behaviours: Seq<Behaviour<T>>,
    parameters: Seq<Seq<Seq<T>>>,
    trace: Seq<Seq<T>>,
    output_error: Seq<T>,
    learning_rate: T,
    j: nat,
    k: nat,
)
    requires
        j <= k,
        descent(behaviours, parameters, trace, output_error, learning_rate, k).1 is None,
    ensures
        descent(behaviours, parameters, trace, output_error, learning_rate, j) == descent(
            behaviours,
            parameters,
            trace,
            output_error,
            learning_rate,
            k,
        ),
    decreases k - j,
{
    if j < k {
        lemma_descent_stays_none(
            behaviours,
            parameters,
            trace,
            output_error,
            learning_rate,
            j + 1,
            k,
        );
        assert(j < behaviours.len()) by {
            if j >= behaviours.len() {
                assert(descent(behaviours, parameters, trace, output_error, learning_rate, k).1
                    is Some);
            }
        }
    }
}

/// The length of the parameter list stays what it is through a backward pass.
proof fn lemma_descent_keeps_length<T>(
    behaviours: Seq<Behaviour<T>>,
    parameters: Seq<Seq<Seq<T>>>,
    trace: Seq<Seq<T>>,
    output_error: Seq<T>,
    learning_rate: T,
    k: nat,
)
    requires
        behaviours.len() == parameters.len(),
    ensures
        descent(behaviours, parameters, trace, output_error, learning_rate, k).0.len()
            == parameters.len(),
    decreases behaviours.len() - k,
{
    if k < behaviours.len() {
        lemma_descent_keeps_length(
            behaviours,
            parameters,
            trace,
            output_error,
            learning_rate,
            k + 1,
        );
    }
}

/// A loss can be called on every pair of vectors, and what it returns is
/// decided by the entries of the two.
pub open spec fn total_loss<T, L: Fn(&Vector<T>, &Vector<T>) -> T>(loss: L) -> bool {
    &&& forall|a: Vector<T>, b: Vector<T>| #[trigger] call_requires(loss, (&a, &b))
    &&& forall|a: Vector<T>, b: Vector<T>, c: Vector<T>, d: Vector<T>, x: T, y: T|
        #[trigger] call_ensures(loss, (&a, &b), x) && #[trigger] call_ensures(loss, (&c, &d), y)
            && a@ == c@ && b@ == d@ ==> x == y
}

/// The gradient of a loss can be called on every pair of vectors, and the
/// entries of what it returns are decided by the entries of the two.
pub open spec fn total_gradient<T, LP: Fn(&Vector<T>, &Vector<T>) -> Vector<T>>(
    loss_prime: LP,
) -> bool {
    &&& forall|a: Vector<T>, b: Vector<T>| #[trigger] call_requires(loss_prime, (&a, &b))
    &&& forall|a: Vector<T>, b: Vector<T>, c: Vector<T>, d: Vector<T>, x: Vector<T>, y: Vector<T>|
        #[trigger] call_ensures(loss_prime, (&a, &b), x) && #[trigger] call_ensures(
            loss_prime,
            (&c, &d),
            y,
        ) && a@ == c@ && b@ == d@ ==> x@ == y@
}

/// `x` is what `loss` returns for a prediction and a target with the given
/// entries.
pub open spec fn is_loss<T, L: Fn(&Vector<T>, &Vector<T>) -> T>(
    loss: L,
    output: Seq<T>,
    target: Seq<T>,
    x: T,
) -> bool {
    exists|a: Vector<T>, b: Vector<T>|
        a@ == output && b@ == target && #[trigger] call_ensures(loss, (&a, &b), x)
}

/// The loss of a prediction against a target.
pub open spec fn loss_of<T, L: Fn(&Vector<T>, &Vector<T>) -> T>(
    loss: L,
    output: Seq<T>,
    target: Seq<T>,
) -> T {
    choose|x: T| is_loss(loss, output, target, x)
}

/// `g` holds the entries of what `loss_prime` returns for a prediction and a
/// target with the given entries.
pub open spec fn is_gradient<T, LP: Fn(&Vector<T>, &Vector<T>) -> Vector<T>>(
    loss_prime: LP,
    output: Seq<T>,
    target: Seq<T>,
    g: Seq<T>,
) -> bool {
    exists|a: Vector<T>, b: Vector<T>, r: Vector<T>|
        a@ == output && b@ == target && r@ == g && #[trigger] call_ensures(
            loss_prime,
            (&a, &b),
            r,
        )
}

/// The gradient of the loss of a prediction against a target, with respect
/// to the prediction.
pub open spec fn gradient_of<T, LP: Fn(&Vector<T>, &Vector<T>) -> Vector<T>>(
    loss_prime: LP,
    output: Seq<T>,
    target: Seq<T>,
) -> Seq<T> {
    choose|g: Seq<T>| is_gradient(loss_prime, output, target, g)
}

/// One sample of training: a forward pass on `input`, then a backward pass
/// from the gradient of the loss against `target`. Gives the parameters after
/// it and the loss of the prediction, or `None` for the loss where a layer
/// refused its shapes in either pass.
pub open spec fn sample_step<
    T,
    L: Fn(&Vector<T>, &Vector<T>) -> T,
    LP: Fn(&Vector<T>, &Vector<T>) -> Vector<T>,
>(
    behaviours: Seq<Behaviour<T>>,
    parameters: Seq<Seq<Seq<T>>>,
    input: Seq<T>,
    target: Seq<T>,
    learning_rate: T,
    loss: L,
    loss_prime: LP,
) -> (Seq<Seq<Seq<T>>>, Option<T>) {
    match activations(behaviours, parameters, input, behaviours.len()) {
        Some(trace) => {
            let (after, passed) = descent(
                behaviours,
                parameters,
                trace,
                gradient_of(loss_prime, trace.last(), target),
                learning_rate,
                0,
            );
            if passed is Some {
                (after, Some(loss_of(loss, trace.last(), target)))
            } else {
                (after, None)
            }
        },
        None => (parameters, None),
    }
}

/// The first `k` samples of one epoch, each trained on in turn. Gives the
/// parameters after them and the sum of their losses, in the order of the
/// samples and starting from zero; `None` for the sum once a sample has
/// failed, after which no further sample is touched.
pub open spec fn epoch_prefix<
    T: Scalar,
    L: Fn(&Vector<T>, &Vector<T>) -> T,
    LP: Fn(&Vector<T>, &Vector<T>) -> Vector<T>,
>(
    behaviours: Seq<Behaviour<T>>,
    parameters: Seq<Seq<Seq<T>>>,
    inputs: Seq<Seq<T>>,
    targets: Seq<Seq<T>>,
    learning_rate: T,
    loss: L,
    loss_prime: LP,
    k: nat,
) -> (Seq<Seq<Seq<T>>>, Option<T>)
    decreases k,
{
    if k == 0 {
        (parameters, Some(T::zero_value()))
    } else {
        let (before, total) = epoch_prefix(
            behaviours,
            parameters,
            inputs,
            targets,
            learning_rate,
            loss,
            loss_prime,
            (k - 1) as nat,
        );
        match total {
            Some(total) => {
                let (after, value) = sample_step(
                    behaviours,
                    before,
                    inputs[k - 1],
                    targets[k - 1],
                    learning_rate,
                    loss,
                    loss_prime,
                );
                match value {
                    Some(value) => (after, Some(total.sum(value))),
                    None => (after, None),
                }
            },
            None => (before, None),
        }
    }
}

/// The first `epochs` epochs of training, each a pass over all samples in
/// their order. Gives the parameters after them and the total loss of each
/// epoch; `None` for the losses once a sample has failed.
pub open spec fn training<
    T: Scalar,
    L: Fn(&Vector<T>, &Vector<T>) -> T,
    LP: Fn(&Vector<T>, &Vector<T>) -> Vector<T>,
>(
    behaviours: Seq<Behaviour<T>>,
    parameters: Seq<Seq<Seq<T>>>,
    inputs: Seq<Seq<T>>,
    targets: Seq<Seq<T>>,
    learning_rate: T,
    loss: L,
    loss_prime: LP,
    epochs: nat,
) -> (Seq<Seq<Seq<T>>>, Option<Seq<T>>)
    decreases epochs,
{
    if epochs == 0 {
        (parameters, Some(Seq::empty()))
    } else {
        let (before, totals) = training(
            behaviours,
            parameters,
            inputs,
            targets,
            learning_rate,
            loss,
            loss_prime,
            (epochs - 1) as nat,
        );
        match totals {
            Some(totals) => {
                let (after, total) = epoch_prefix(
                    behaviours,
                    before,
                    inputs,
                    targets,
                    learning_rate,
                    loss,
                    loss_prime,
                    inputs.len(),
                );
                match total {
                    Some(total) => (after, Some(totals.push(total))),
                    None => (after, None),
                }
            },
            None => (before, None),
        }
    }
}

/// Once a sample has failed, the rest of the epoch changes nothing.
proof fn lemma_epoch_stays_none<
    T: Scalar,
    L: Fn(&Vector<T>, &Vector<T>) -> T,
    LP: Fn(&Vector<T>, &Vector<T>) -> Vector<T>,
>(
    behaviours: Seq<Behaviour<T>>,
    parameters: Seq<Seq<Seq<T>>>,
    inputs: Seq<Seq<T>>,
    targets: Seq<Seq<T>>,
    learning_rate: T,
    loss: L,
    loss_prime: LP,
    j: nat,
    k: nat,
)
    requires
        j <= k,
        epoch_prefix(behaviours, parameters, inputs, targets, learning_rate, loss, loss_prime, j).1
            is None,
    ensures
        epoch_prefix(behaviours, parameters, inputs, targets, learning_rate, loss, loss_prime, k)
            == epoch_prefix(
            behaviours,
            parameters,
            inputs,
            targets,
            learning_rate,
            loss,
            loss_prime,
            j,
        ),
    decreases k,
{
    if j < k {
        lemma_epoch_stays_none(
            behaviours,
            parameters,
            inputs,
            targets,
            learning_rate,
            loss,
            loss_prime,
            j,
            (k - 1) as nat,
        );
    }
}

/// Once an epoch has failed, the epochs after it change nothing.
proof fn lemma_training_stays_none<
    T: Scalar,
    L: Fn(&Vector<T>, &Vector<T>) -> T,
    LP: Fn(&Vector<T>, &Vector<T>) -> Vector<T>,
>(
    behaviours: Seq<Behaviour<T>>,
    parameters: Seq<Seq<Seq<T>>>,
    inputs: Seq<Seq<T>>,
    targets: Seq<Seq<T>>,
    learning_rate: T,
    loss: L,
    loss_prime: LP,
    j: nat,
    k: nat,
)
    requires
        j <= k,
        training(behaviours, parameters, inputs, targets, learning_rate, loss, loss_prime, j).1
            is None,
    ensures
        training(behaviours, parameters, inputs, targets, learning_rate, loss, loss_prime, k)
            == training(
            behaviours,
            parameters,
            inputs,
            targets,
            learning_rate,
            loss,
            loss_prime,
            j,
        ),
    decreases k,
{
    if j < k {
        lemma_training_stays_none(
            behaviours,
            parameters,
            inputs,
            targets,
            learning_rate,
            loss,
            loss_prime,
            j,
            (k - 1) as nat,
        );
    }
}

/// A backward pass takes from the stack what the forward pass before it
/// left there: with the `n + 1` activations of a pass through `n` layers on
/// top of `stack`, the backward pass finds just these and leaves `stack`. So
/// after any number of forward passes, each followed at once by its backward
/// pass, a stack that was empty is empty again.
pub proof fn lemma_backward_restores_stack<T>(stack: Seq<Seq<T>>, trace: Seq<Seq<T>>, n: nat)
    requires
        trace.len() == n + 1,
    ensures
        (stack + trace).skip((stack + trace).len() - n - 1) == trace,
        (stack + trace).take((stack + trace).len() - n - 1) == stack,
{
    assert((stack + trace).skip((stack + trace).len() - n - 1) =~= trace);
    assert((stack + trace).take((stack + trace).len() - n - 1) =~= stack);
}

/// A network that is given the snapshot of another with the same layers
/// predicts as the other does: what is read back from the snapshot are the
/// parameters that were written, and a forward pass is decided by the
/// behaviours and the parameters.
pub proof fn lemma_restored_network_predicts_alike<T: Scalar>(
    behaviours: Seq<Behaviour<T>>,
    parameters: Seq<Seq<Seq<T>>>,
    input: Seq<T>,
)
    requires
        encodable(parameters),
    ensures
        decoded::<T>(encoded(parameters)) == Some(parameters),
        fits(decoded::<T>(encoded(parameters)).unwrap(), parameters),
        activations(
            behaviours,
            decoded::<T>(encoded(parameters)).unwrap(),
            input,
            behaviours.len(),
        ) == activations(behaviours, parameters, input, behaviours.len()),
{
    lemma_snapshot_round_trip(parameters);
}

/// The parameters `given` can take the place of `current`: as many layers,
/// each with as many rows, and rows as long.
pub open spec fn fits<T>(given: Seq<Seq<Seq<T>>>, current: Seq<Seq<Seq<T>>>) -> bool {
    &&& given.len() == current.len()
    &&& forall|i: int| 0 <= i < given.len() ==> same_lengths(#[trigger] given[i], current[i])
}

fn have_same_lengths<T>(a: &Vec<Vec<T>>, b: &Vec<Vec<T>>) -> (r: bool)
    ensures
        r == same_lengths(rows_of(a@), rows_of(b@)),
{
    if a.len() != b.len() {
        return false;
    }
    let mut i: usize = 0;
    while i < a.len()
        invariant
            i <= a@.len() == b@.len(),
            forall|k: int| 0 <= k < i ==> (#[trigger] rows_of(a@)[k]).len() == rows_of(b@)[k].len(),
        decreases a.len() - i,
    {
        if a[i].len() != b[i].len() {
            assert(rows_of(a@)[i as int].len() != rows_of(b@)[i as int].len());
            return false;
        }
        i += 1;
    }
    true
}

/// A loss and its gradient, both total.
#[verifier::reject_recursive_types(T)]
struct Loss<T, L: Fn(&Vector<T>, &Vector<T>) -> T, LP: Fn(&Vector<T>, &Vector<T>) -> Vector<T>> {
    value: L,
    gradient: LP,
    scalar: core::marker::PhantomData<T>,
}

impl<
    T,
    L: Fn(&Vector<T>, &Vector<T>) -> T,
    LP: Fn(&Vector<T>, &Vector<T>) -> Vector<T>,
> Loss<T, L, LP> {
    #[verifier::type_invariant]
    closed spec fn well_formed(&self) -> bool {
        total_loss(self.value) && total_gradient(self.gradient)
    }

    fn value(&self, output: &Vector<T>, target: &Vector<T>) -> (r: T)
        ensures
            r == loss_of(self.value, output@, target@),
    {
        proof {
            use_type_invariant(self);
        }
        let r: T = (self.value)(output, target);
        proof {
            assert(is_loss(self.value, output@, target@, r));
            let chosen = loss_of(self.value, output@, target@);
            assert(is_loss(self.value, output@, target@, chosen));
        }
        r
    }

    fn gradient(&self, output: &Vector<T>, target: &Vector<T>) -> (r: Vector<T>)
        ensures
            r@ == gradient_of(self.gradient, output@, target@),
    {
        proof {
            use_type_invariant(self);
        }
        let r: Vector<T> = (self.gradient)(output, target);
        proof {
            assert(is_gradient(self.gradient, output@, target@, r@));
            let chosen = gradient_of(self.gradient, output@, target@);
            assert(is_gradient(self.gradient, output@, target@, chosen));
        }
        r
    }
}

/// An ordered pipeline of layers, a loss with its gradient, and the stack of
/// activations that a forward pass leaves for the backward pass that follows
/// it.
#[verifier::reject_recursive_types(T)]
pub struct Network<
    T,
    S,
    L: Fn(&Vector<T>, &Vector<T>) -> T,
    LP: Fn(&Vector<T>, &Vector<T>) -> Vector<T>,
> {
    layers: Vec<S>,
    inputs: Vec<Vector<T>>,
    loss: Loss<T, L, LP>,
}

impl<
    T: Scalar,
    S: Layer<T>,
    L: Fn(&Vector<T>, &Vector<T>) -> T,
    LP: Fn(&Vector<T>, &Vector<T>) -> Vector<T>,
> Network<T, S, L, LP> {
    /// The loss that training adds up.
    pub closed spec fn loss(&self) -> L {
        self.loss.value
    }

    /// The gradient of the loss, from which a backward pass starts.
    pub closed spec fn loss_prime(&self) -> LP {
        self.loss.gradient
    }

    /// The behaviour of each layer, in the order of the pipeline.
    pub closed spec fn behaviours(&self) -> Seq<Behaviour<T>> {
        Seq::new(self.layers@.len(), |i: int| self.layers@[i].behaviour())
    }

    /// The parameters of each layer, in the order of the pipeline.
    pub closed spec fn parameters(&self) -> Seq<Seq<Seq<T>>> {
        Seq::new(self.layers@.len(), |i: int| self.layers@[i].parameters())
    }

    /// The activations that wait for a backward pass, oldest first.
    pub closed spec fn pending(&self) -> Seq<Seq<T>> {
        views(self.inputs@)
    }

    /// A network without layers, to be trained against `loss`, whose gradient
    /// with respect to the prediction is `loss_prime`.
    pub fn new(loss: L, loss_prime: LP) -> (r: Self)
        requires
            total_loss(loss),
            total_gradient(loss_prime),
        ensures
            r.behaviours() == Seq::<Behaviour<T>>::empty(),
            r.parameters() == Seq::<Seq<Seq<T>>>::empty(),
            r.pending() == Seq::<Seq<T>>::empty(),
            r.loss() == loss,
            r.loss_prime() == loss_prime,
    {
        let r = Network {
            layers: Vec::new(),
            inputs: Vec::new(),
            loss: Loss { value: loss, gradient: loss_prime, scalar: core::marker::PhantomData },
        };
        assert(r.behaviours() =~= Seq::<Behaviour<T>>::empty());
        assert(r.parameters() =~= Seq::<Seq<Seq<T>>>::empty());
        assert(r.pending() =~= Seq::<Seq<T>>::empty());
        r
    }

    /// Appends a layer to the pipeline.
    pub fn add(&mut self, layer: S)
        ensures
            final(self).behaviours() == old(self).behaviours().push(layer.behaviour()),
            final(self).parameters() == old(self).parameters().push(layer.parameters()),
            final(self).pending() == old(self).pending(),
            final(self).loss() == old(self).loss(),
            final(self).loss_prime() == old(self).loss_prime(),
    {
        self.layers.push(layer);
        assert(self.behaviours() =~= old(self).behaviours().push(layer.behaviour()));
        assert(self.parameters() =~= old(self).parameters().push(layer.parameters()));
    }

    /// The number of activations that wait for a backward pass.
    pub fn depth(&self) -> (r: usize)
        ensures
            r == self.pending().len(),
    {
        self.inputs.len()
    }

    /// Runs `input` through the layers in order and returns what the last one
    /// gives. The input and the output of every layer are pushed on the stack
    /// of pending activations, where the backward pass that follows finds
    /// them. Where a layer refuses its input, the stack is left as it was.
    pub fn forward_propagate(&mut self, input: Vector<T>) -> (r: Result<Vector<T>, Error>)
        ensures
            final(self).behaviours() == old(self).behaviours(),
            final(self).parameters() == old(self).parameters(),
            final(self).loss() == old(self).loss(),
            final(self).loss_prime() == old(self).loss_prime(),
            match activations(
                old(self).behaviours(),
                old(self).parameters(),
                input@,
                old(self).behaviours().len(),
            ) {
                Some(trace) => r is Ok && r.unwrap()@ == trace.last() && final(self).pending()
                    == old(self).pending() + trace,
                None => r == Err::<Vector<T>, Error>(Error::DimensionMismatch) && final(self).pending() == old(self).pending(),
            },
    {
        let ghost b = self.behaviours();
        let ghost p = self.parameters();
        let base: usize = self.inputs.len();
        self.inputs.push(input);
        assert(self.inputs@.take(base as int) =~= old(self).inputs@);
        assert(views(self.inputs@) =~= views(old(self).inputs@) + seq![input@]);
        let mut i: usize = 0;
        while i < self.layers.len()
            invariant
                i <= self.layers@.len(),
                self.layers == old(self).layers,
                self.loss == old(self).loss,
                b == self.behaviours(),
                p == self.parameters(),
                base == old(self).inputs@.len(),
                self.inputs@.len() == base + i + 1,
                self.inputs@.take(base as int) == old(self).inputs@,
                activations(b, p, input@, i as nat) is Some,
                views(self.inputs@) == views(old(self).inputs@) + activations(
                    b,
                    p,
                    input@,
                    i as nat,
                ).unwrap(),
            decreases self.layers.len() - i,
        {
            let ghost trace = activations(b, p, input@, i as nat).unwrap();
            let ghost before = self.inputs@;
            proof {
                lemma_activations_length(b, p, input@, i as nat);
                assert(views(before)[base + i] == trace[i as int]);
            }
            let top: &Vector<T> = &self.inputs[self.inputs.len() - 1];
            match self.layers[i].forward_propagate(top) {
                Ok(out) => {
                    self.inputs.push(out);
                    assert(self.inputs@.take(base as int) =~= before.take(base as int));
                    assert(views(self.inputs@) =~= views(old(self).inputs@) + trace.push(out@)) by {
                        let left = views(self.inputs@);
                        let right = views(old(self).inputs@) + trace.push(out@);
                        assert(views(old(self).inputs@).len() == base);
                        assert(left.len() == right.len());
                        assert forall|j: int| 0 <= j < left.len() implies left[j] == right[j] by {
                            if j < before.len() {
                                assert(left[j] == views(before)[j]);
                                assert(views(before)[j] == (views(old(self).inputs@) + trace)[j]);
                            }
                        }
                    }
                },
                Err(e) => {
                    self.inputs.truncate(base);
                    proof {
                        lemma_activations_stay_none(
                            b,
                            p,
                            input@,
                            (i + 1) as nat,
                            self.layers@.len() as nat,
                        );
                        assert(self.inputs@ =~= old(self).inputs@);
                    }
                    return Err(e);
                },
            }
            i += 1;
        }
        let prediction: Vector<T> = self.inputs[self.inputs.len() - 1].clone();
        proof {
            let trace = activations(b, p, input@, i as nat).unwrap();
            lemma_activations_length(b, p, input@, i as nat);
            assert(trace.len() == i + 1);
            assert(views(old(self).inputs@).len() == base);
            assert(views(self.inputs@)[base + i] == trace.last());
        }
        Ok(prediction)
    }

    /// The backward pass that follows a forward pass. The activations of that
    /// pass are taken from the top of the stack: the prediction is dropped,
    /// then each layer, from the last to the first, gets back the input that
    /// it saw, takes its step, and passes its error down. Whether or not a
    /// layer refuses its shapes on the way, the stack ends where it was before
    /// the forward pass.
    pub fn backward_propagate(&mut self, output_error: Vector<T>, learning_rate: T) -> (r: Result<
        (),
        Error,
    >)
        requires
            old(self).pending().len() > old(self).behaviours().len(),
        ensures
            final(self).behaviours() == old(self).behaviours(),
            final(self).loss() == old(self).loss(),
            final(self).loss_prime() == old(self).loss_prime(),
            final(self).pending() == old(self).pending().take(
                old(self).pending().len() - old(self).behaviours().len() - 1,
            ),
            final(self).parameters() == descent(
                old(self).behaviours(),
                old(self).parameters(),
                old(self).pending().skip(
                    old(self).pending().len() - old(self).behaviours().len() - 1,
                ),
                output_error@,
                learning_rate,
                0,
            ).0,
            descent(
                old(self).behaviours(),
                old(self).parameters(),
                old(self).pending().skip(
                    old(self).pending().len() - old(self).behaviours().len() - 1,
                ),
                output_error@,
                learning_rate,
                0,
            ).1 is Some ==> r is Ok,
            descent(
                old(self).behaviours(),
                old(self).parameters(),
                old(self).pending().skip(
                    old(self).pending().len() - old(self).behaviours().len() - 1,
                ),
                output_error@,
                learning_rate,
                0,
            ).1 is None ==> r == Err::<(), Error>(Error::DimensionMismatch),
    {
        let ghost b = self.behaviours();
        let ghost p = self.parameters();
        let n: usize = self.layers.len();
        let base: usize = self.inputs.len() - n - 1;
        let ghost trace = self.pending().skip(base as int);
        let ghost e0 = output_error@;
        self.inputs.pop();
        let mut error: Vector<T> = output_error;
        let mut k: usize = n;
        assert(self.behaviours() =~= b);
        assert(self.parameters() =~= p);
        while k > 0
            invariant
                k <= n,
                n == b.len(),
                n == self.layers@.len(),
                b.len() == p.len(),
                b == old(self).behaviours(),
                p == old(self).parameters(),
                e0 == output_error@,
                self.loss == old(self).loss,
                base + n + 1 == old(self).inputs@.len(),
                self.inputs@ == old(self).inputs@.take(base + k),
                trace == views(old(self).inputs@).skip(base as int),
                self.behaviours() == b,
                self.parameters() == descent(b, p, trace, e0, learning_rate, k as nat).0,
                Some(error@) == descent(b, p, trace, e0, learning_rate, k as nat).1,
            decreases k,
        {
            let ghost above = self.parameters();
            let ghost layers_before = self.layers@;
            k -= 1;
            match self.inputs.pop() {
                Some(input) => {
                    assert(input@ == trace[k as int]);
                    assert(self.inputs@ =~= old(self).inputs@.take(base + k));
                    let outcome = self.layers[k].backward_propagate(&input, &error, learning_rate);
                    proof {
                        assert(self.layers@.len() == n);
                        assert(forall|j: int|
                            0 <= j < n && j != k ==> self.layers@[j] == layers_before[j]);
                        assert(self.behaviours() =~= b);
                        lemma_descent_keeps_length(b, p, trace, e0, learning_rate, (k + 1) as nat);
                    }
                    match outcome {
                        Ok(passed) => {
                            proof {
                                assert(self.parameters() =~= above.update(
                                    k as int,
                                    (b[k as int].descended)(
                                        above[k as int],
                                        trace[k as int],
                                        error@,
                                        learning_rate,
                                    ),
                                ));
                            }
                            error = passed;
                        },
                        Err(e) => {
                            proof {
                                assert(self.parameters() =~= above);
                                assert(b[k as int] == layers_before[k as int].behaviour());
                                assert(above[k as int] == layers_before[k as int].parameters());
                                assert(descent(b, p, trace, e0, learning_rate, (k + 1) as nat) == (
                                    above,
                                    Some(error@),
                                ));
                                assert(descent(b, p, trace, e0, learning_rate, k as nat) == (
                                    above,
                                    None::<Seq<T>>,
                                ));
                                lemma_descent_stays_none(
                                    b,
                                    p,
                                    trace,
                                    e0,
                                    learning_rate,
                                    0,
                                    k as nat,
                                );
                            }
                            self.inputs.truncate(base);
                            assert(self.inputs@ =~= old(self).inputs@.take(base as int));
                            assert(views(self.inputs@) =~= views(old(self).inputs@).take(
                                base as int,
                            ));
                            return Err(e);
                        },
                    }
                },
                None => {
                    return Err(Error::DimensionMismatch);
                },
            }
        }
        assert(views(self.inputs@) =~= views(old(self).inputs@).take(base as int));
        Ok(())
    }

    /// Trains on one sample: a forward pass on `input`, then a backward pass
    /// from the gradient of the loss against `target`. Returns the loss of the
    /// prediction. The stack of pending activations ends as it began.
    pub fn train_sample(&mut self, input: &Vector<T>, target: &Vector<T>, learning_rate: T) -> (r:
        Result<T, Error>)
        ensures
            final(self).behaviours() == old(self).behaviours(),
            final(self).loss() == old(self).loss(),
            final(self).loss_prime() == old(self).loss_prime(),
            final(self).pending() == old(self).pending(),
            final(self).parameters() == sample_step(
                old(self).behaviours(),
                old(self).parameters(),
                input@,
                target@,
                learning_rate,
                old(self).loss(),
                old(self).loss_prime(),
            ).0,
            match sample_step(
                old(self).behaviours(),
                old(self).parameters(),
                input@,
                target@,
                learning_rate,
                old(self).loss(),
                old(self).loss_prime(),
            ).1 {
                Some(value) => r == Ok::<T, Error>(value),
                None => r == Err::<T, Error>(Error::DimensionMismatch),
            },
    {
        let ghost b = self.behaviours();
        let ghost p = self.parameters();
        let ghost stack = self.pending();
        match self.forward_propagate(input.clone()) {
            Ok(output) => {
                let value: T = self.loss.value(&output, target);
                let gradient: Vector<T> = self.loss.gradient(&output, target);
                proof {
                    let trace = activations(b, p, input@, b.len()).unwrap();
                    lemma_activations_length(b, p, input@, b.len());
                    assert((stack + trace).skip(stack.len() as int) =~= trace);
                    assert((stack + trace).take(stack.len() as int) =~= stack);
                }
                match self.backward_propagate(gradient, learning_rate) {
                    Ok(()) => Ok(value),
                    Err(e) => Err(e),
                }
            },
            Err(e) => Err(e),
        }
    }

    /// One epoch: trains on each sample in turn, in the order given, and
    /// returns the sum of their losses. Stops at the first sample that fails.
    /// Where there are not as many targets as inputs, nothing is done.
    pub fn train_epoch(
        &mut self,
        input_data: &Vec<Vector<T>>,
        output_data: &Vec<Vector<T>>,
        learning_rate: T,
    ) -> (r: Result<T, Error>)
        ensures
            final(self).behaviours() == old(self).behaviours(),
            final(self).loss() == old(self).loss(),
            final(self).loss_prime() == old(self).loss_prime(),
            final(self).pending() == old(self).pending(),
            input_data@.len() != output_data@.len() ==> r == Err::<T, Error>(
                Error::DimensionMismatch,
            ) && final(self).parameters() == old(self).parameters(),
            input_data@.len() == output_data@.len() ==> final(self).parameters() == epoch_prefix(
                old(self).behaviours(),
                old(self).parameters(),
                views(input_data@),
                views(output_data@),
                learning_rate,
                old(self).loss(),
                old(self).loss_prime(),
                input_data@.len(),
            ).0 && match epoch_prefix(
                old(self).behaviours(),
                old(self).parameters(),
                views(input_data@),
                views(output_data@),
                learning_rate,
                old(self).loss(),
                old(self).loss_prime(),
                input_data@.len(),
            ).1 {
                Some(total) => r == Ok::<T, Error>(total),
                None => r == Err::<T, Error>(Error::DimensionMismatch),
            },
    {
        if input_data.len() != output_data.len() {
            return Err(Error::DimensionMismatch);
        }
        let ghost b = self.behaviours();
        let ghost p = self.parameters();
        let ghost xs = views(input_data@);
        let ghost ys = views(output_data@);
        let ghost l = self.loss();
        let ghost lp = self.loss_prime();
        let mut total: T = T::zero();
        let mut i: usize = 0;
        while i < input_data.len()
            invariant
                i <= input_data@.len() == output_data@.len(),
                xs == views(input_data@),
                ys == views(output_data@),
                b == old(self).behaviours(),
                p == old(self).parameters(),
                l == old(self).loss(),
                lp == old(self).loss_prime(),
                self.behaviours() == b,
                self.loss() == l,
                self.loss_prime() == lp,
                self.pending() == old(self).pending(),
                self.parameters() == epoch_prefix(b, p, xs, ys, learning_rate, l, lp, i as nat).0,
                Some(total) == epoch_prefix(b, p, xs, ys, learning_rate, l, lp, i as nat).1,
            decreases input_data.len() - i,
        {
            assert(xs[i as int] == input_data@[i as int]@);
            assert(ys[i as int] == output_data@[i as int]@);
            match self.train_sample(&input_data[i], &output_data[i], learning_rate) {
                Ok(value) => {
                    total = total.add(value);
                },
                Err(e) => {
                    proof {
                        lemma_epoch_stays_none(
                            b,
                            p,
                            xs,
                            ys,
                            learning_rate,
                            l,
                            lp,
                            (i + 1) as nat,
                            input_data@.len(),
                        );
                    }
                    return Err(e);
                },
            }
            i += 1;
        }
        Ok(total)
    }

    /// Trains for `epochs` epochs, each a pass over all samples in the order
    /// given, every sample followed at once by its own step of gradient
    /// descent. Returns the total loss of each epoch. Stops at the first
    /// sample that fails. Where there are not as many targets as inputs,
    /// nothing is done.
    pub fn train(
        &mut self,
        input_data: Vec<Vector<T>>,
        output_data: Vec<Vector<T>>,
        learning_rate: T,
        epochs: usize,
    ) -> (r: Result<Vec<T>, Error>)
        ensures
            final(self).behaviours() == old(self).behaviours(),
            final(self).loss() == old(self).loss(),
            final(self).loss_prime() == old(self).loss_prime(),
            final(self).pending() == old(self).pending(),
            input_data@.len() != output_data@.len() ==> r == Err::<Vec<T>, Error>(
                Error::DimensionMismatch,
            ) && final(self).parameters() == old(self).parameters(),
            input_data@.len() == output_data@.len() ==> final(self).parameters() == training(
                old(self).behaviours(),
                old(self).parameters(),
                views(input_data@),
                views(output_data@),
                learning_rate,
                old(self).loss(),
                old(self).loss_prime(),
                epochs as nat,
            ).0 && match training(
                old(self).behaviours(),
                old(self).parameters(),
                views(input_data@),
                views(output_data@),
                learning_rate,
                old(self).loss(),
                old(self).loss_prime(),
                epochs as nat,
            ).1 {
                Some(totals) => r is Ok && r.unwrap()@ == totals,
                None => r == Err::<Vec<T>, Error>(Error::DimensionMismatch),
            },
    {
        if input_data.len() != output_data.len() {
            return Err(Error::DimensionMismatch);
        }
        let ghost b = self.behaviours();
        let ghost p = self.parameters();
        let ghost xs = views(input_data@);
        let ghost ys = views(output_data@);
        let ghost l = self.loss();
        let ghost lp = self.loss_prime();
        let mut totals: Vec<T> = Vec::new();
        let mut epoch: usize = 0;
        while epoch < epochs
            invariant
                epoch <= epochs,
                input_data@.len() == output_data@.len(),
                xs == views(input_data@),
                ys == views(output_data@),
                xs.len() == input_data@.len(),
                b == old(self).behaviours(),
                p == old(self).parameters(),
                l == old(self).loss(),
                lp == old(self).loss_prime(),
                self.behaviours() == b,
                self.loss() == l,
                self.loss_prime() == lp,
                self.pending() == old(self).pending(),
                self.parameters() == training(b, p, xs, ys, learning_rate, l, lp, epoch as nat).0,
                Some(totals@) == training(b, p, xs, ys, learning_rate, l, lp, epoch as nat).1,
            decreases epochs - epoch,
        {
            match self.train_epoch(&input_data, &output_data, learning_rate) {
                Ok(total) => {
                    totals.push(total);
                },
                Err(e) => {
                    proof {
                        lemma_training_stays_none(
                            b,
                            p,
                            xs,
                            ys,
                            learning_rate,
                            l,
                            lp,
                            (epoch + 1) as nat,
                            epochs as nat,
                        );
                    }
                    return Err(e);
                },
            }
            epoch += 1;
        }
        Ok(totals)
    }

    /// The snapshot of the parameters of all layers, in the order of the
    /// pipeline.
    pub fn serialize(&self) -> (r: Vec<u8>)
        ensures
            r@ == encoded(self.parameters()),
            encodable(self.parameters()),
    {
        let mut all: Vec<Vec<Vec<T>>> = Vec::new();
        let mut i: usize = 0;
        while i < self.layers.len()
            invariant
                i <= self.layers@.len(),
                all@.len() == i,
                forall|k: int|
                    0 <= k < i ==> rows_of((#[trigger] all@[k])@) == self.layers@[k].parameters(),
            decreases self.layers.len() - i,
        {
            all.push(self.layers[i].snapshot());
            i += 1;
        }
        assert(layers_of(all@) =~= self.parameters());
        encode(&all)
    }

    /// Replaces the parameters of all layers by those that the snapshot
    /// holds. The snapshot must be well formed and fit the network as it
    /// stands: as many layers, each with parameters of the lengths that the
    /// layer has now. Else nothing is changed.
    pub fn deserialize(&mut self, bytes: &[u8]) -> (r: Result<(), Error>)
        ensures
            final(self).behaviours() == old(self).behaviours(),
            final(self).loss() == old(self).loss(),
            final(self).loss_prime() == old(self).loss_prime(),
            final(self).pending() == old(self).pending(),
            match decoded::<T>(bytes@) {
                Some(given) => if fits(given, old(self).parameters()) {
                    r is Ok && final(self).parameters() == given
                } else {
                    r == Err::<(), Error>(Error::DeserializationFailure) && final(self).parameters() == old(self).parameters()
                },
                None => r == Err::<(), Error>(Error::DeserializationFailure) && final(self).parameters() == old(self).parameters(),
            },
    {
        let mut all: Vec<Vec<Vec<T>>> = match decode::<T>(bytes) {
            Ok(all) => all,
            Err(e) => {
                return Err(e);
            },
        };
        let ghost given = layers_of(all@);
        let n: usize = self.layers.len();
        if all.len() != n {
            return Err(Error::DeserializationFailure);
        }
        let mut i: usize = 0;
        while i < n
            invariant
                i <= n,
                n == self.layers@.len(),
                n == all@.len(),
                *self == *old(self),
                given == layers_of(all@),
                decoded::<T>(bytes@) == Some(given),
                forall|k: int|
                    0 <= k < i ==> same_lengths(#[trigger] given[k], self.parameters()[k]),
            decreases n - i,
        {
            let current: Vec<Vec<T>> = self.layers[i].snapshot();
            if !have_same_lengths(&all[i], &current) {
                assert(!same_lengths(given[i as int], self.parameters()[i as int]));
                return Err(Error::DeserializationFailure);
            }
            i += 1;
        }
        assert(fits(given, self.parameters()));
        let ghost b = self.behaviours();
        let ghost p = self.parameters();
        let mut k: usize = n;
        while k > 0
            invariant
                k <= n,
                n == self.layers@.len(),
                n == given.len(),
                all@.len() == k,
                forall|j: int| 0 <= j < k ==> rows_of((#[trigger] all@[j])@) == given[j],
                fits(given, p),
                b == old(self).behaviours(),
                p == old(self).parameters(),
                self.behaviours() == b,
                self.loss == old(self).loss,
                self.inputs == old(self).inputs,
                decoded::<T>(bytes@) == Some(given),
                forall|j: int| 0 <= j < k ==> (#[trigger] self.layers@[j]).parameters() == p[j],
                forall|j: int|
                    k <= j < n ==> (#[trigger] self.layers@[j]).parameters() == given[j],
            decreases k,
        {
            let ghost layers_before = self.layers@;
            k -= 1;
            match all.pop() {
                Some(rows) => {
                    assert(rows_of(rows@) == given[k as int]);
                    assert(same_lengths(given[k as int], p[k as int]));
                    assert(self.layers@[k as int].parameters() == p[k as int]);
                    let outcome = self.layers[k].restore(rows);
                    proof {
                        assert(forall|j: int|
                            0 <= j < n && j != k ==> self.layers@[j] == layers_before[j]);
                        assert(self.behaviours() =~= b);
                    }
                    match outcome {
                        Ok(()) => {},
                        Err(e) => {
                            return Err(e);
                        },
                    }
                },
                None => {
                    return Err(Error::DeserializationFailure);
                },
            }
        }
        assert(self.parameters() =~= given);
        Ok(())
    }
}

} // verus!
