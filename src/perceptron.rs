//! The perceptron: its state, inference and online training.
use vstd::prelude::*;
use crate::rng::{random_below, random_index};
use crate::shape::is_batch;
use crate::model::{
    activation, as_ints, batch_of_len, classify, counts, dot, features_in_range, growth,
    indices, is_label, miss_count, rows, run, run_keeps_weight_count, step, step_delta,
    term_limit, trace, trace_has_one_bounded_count_per_epoch, training_set, weights_bounded,
    FEATURE_LIMIT, MAX_FEATURES, ONE, TRAINING_BUDGET, WEIGHT_LIMIT, WEIGHT_ONE,
};

verus! {

/// `|x * w|` stays within `term_limit()` for a feature and a weight in range.
proof fn lemma_term_bound(x: int, w: int)
    requires
        -FEATURE_LIMIT <= x <= FEATURE_LIMIT,
        -WEIGHT_LIMIT <= w <= WEIGHT_LIMIT,
    ensures
        -term_limit() <= x * w <= term_limit(),
{
    assert(-(FEATURE_LIMIT as int) * (WEIGHT_LIMIT as int) <= x * w <= (FEATURE_LIMIT as int) * (
    WEIGHT_LIMIT as int)) by (nonlinear_arith)
        requires
            -FEATURE_LIMIT <= x <= FEATURE_LIMIT,
            -WEIGHT_LIMIT <= w <= WEIGHT_LIMIT,
    ;
}

/// After `i` of at most `MAX_FEATURES` terms, one more still fits in an `i128`.
proof fn lemma_partial_sum_room(i: int)
    requires
        0 <= i < MAX_FEATURES,
    ensures
        (i + 1) * term_limit() == i * term_limit() + term_limit(),
        (i + 1) * term_limit() <= 5070602400912917605986812821504,
{
    let t = term_limit();
    assert(t == 302231454903657293676544);
    assert((i + 1) * t == i * t + t) by (nonlinear_arith);
    assert((i + 1) * t <= (MAX_FEATURES as int) * t) by (nonlinear_arith)
        requires
            i + 1 <= MAX_FEATURES,
            t >= 0,
    ;
}

/// The weighted sum of `row` plus the bias, exactly, on the scale
/// `ONE * WEIGHT_ONE`.
fn weighted_sum(row: &Vec<i64>, weights: &Vec<i64>, bias: i64) -> (r: i128)
    requires
        row.len() == weights.len(),
        row.len() <= MAX_FEATURES,
        features_in_range(row@),
        weights_bounded(as_ints(weights@), WEIGHT_LIMIT as int),
        -WEIGHT_LIMIT <= bias <= WEIGHT_LIMIT,
    ensures
        r == activation(row@, as_ints(weights@), bias as int),
{
    let ghost w = as_ints(weights@);
    let mut acc: i128 = 0;
    let mut i: usize = 0;
    while i < row.len()
        invariant
            i <= row.len(),
            row.len() == weights.len(),
            row.len() <= MAX_FEATURES,
            features_in_range(row@),
            weights_bounded(w, WEIGHT_LIMIT as int),
            w == as_ints(weights@),
            acc == dot(row@.take(i as int), w),
            -((i as int) * term_limit()) <= acc <= (i as int) * term_limit(),
        decreases row.len() - i,
    {
        assert(w[i as int] == weights@[i as int] as int);
        proof {
            lemma_term_bound(row@[i as int] as int, w[i as int]);
            lemma_partial_sum_room(i as int);
        }
        let term = (row[i] as i128) * (weights[i] as i128);
        assert(row@.take(i as int + 1).drop_last() =~= row@.take(i as int));
        acc = acc + term;
        i = i + 1;
    }
    assert(row@.take(row.len() as int) =~= row@);
    proof {
        lemma_term_bound(FEATURE_LIMIT as int, bias as int);
        if row.len() > 0 {
            lemma_partial_sum_room(row.len() - 1);
        }
    }
    acc + (bias as i128) * (ONE as i128)
}

/// The label of one vector under the given weights and bias.
fn classify_row(row: &Vec<i64>, weights: &Vec<i64>, bias: i64) -> (r: i8)
    requires
        row.len() == weights.len(),
        row.len() <= MAX_FEATURES,
        features_in_range(row@),
        weights_bounded(as_ints(weights@), WEIGHT_LIMIT as int),
        -WEIGHT_LIMIT <= bias <= WEIGHT_LIMIT,
    ensures
        r == classify(row@, as_ints(weights@), bias as int),
{
    if weighted_sum(row, weights, bias) < 0 {
        -1
    } else {
        1
    }
}


/// How many vectors of `data` the weights and bias label otherwise than
/// `labels`.
fn count_misses(data: &Vec<Vec<i64>>, labels: &Vec<i8>, weights: &Vec<i64>, bias: i64) -> (m:
    usize)
    requires
        batch_of_len(rows(data@), weights@.len()),
        labels@.len() == data@.len(),
        weights@.len() <= MAX_FEATURES,
        weights_bounded(as_ints(weights@), WEIGHT_LIMIT as int),
        -WEIGHT_LIMIT <= bias <= WEIGHT_LIMIT,
    ensures
        m == miss_count(rows(data@), labels@, as_ints(weights@), bias as int),
{
    let ghost d = rows(data@);
    let ghost w = as_ints(weights@);
    let mut m: usize = 0;
    let mut i: usize = 0;
    while i < data.len()
        invariant
            d == rows(data@),
            w == as_ints(weights@),
            batch_of_len(d, weights@.len()),
            labels@.len() == data@.len(),
            weights@.len() <= MAX_FEATURES,
            weights_bounded(w, WEIGHT_LIMIT as int),
            -WEIGHT_LIMIT <= bias <= WEIGHT_LIMIT,
            i <= data.len(),
            m <= i,
            m == miss_count(d.take(i as int), labels@, w, bias as int),
        decreases data.len() - i,
    {
        assert(d[i as int] == data@[i as int]@);
        let label = classify_row(&data[i], weights, bias);
        assert(d.take(i as int + 1).drop_last() =~= d.take(i as int));
        assert(d.take(i as int + 1)[i as int] == d[i as int]);
        if label != labels[i] {
            m = m + 1;
        }
        i = i + 1;
    }
    assert(d.take(i as int) =~= d);
    m
}

/// One step moves each weight and the bias by at most `growth(rate)`, and
/// `rate * error` by at most twice the rate.
proof fn lemma_update_bound(rate: int, err: int, x: int)
    requires
        0 < rate <= TRAINING_BUDGET,
        -2 <= err <= 2,
        -FEATURE_LIMIT <= x <= FEATURE_LIMIT,
    ensures
        -2 * rate <= rate * err <= 2 * rate,
        -growth(rate) <= (rate * err) * x <= growth(rate),
        growth(rate) <= 0x2000_0000_0000_0000,
{
    assert(-2 * rate <= rate * err <= 2 * rate) by (nonlinear_arith)
        requires
            0 < rate,
            -2 <= err <= 2,
    ;
    assert(-(2 * rate * ONE) <= (rate * err) * x <= 2 * rate * ONE) by (nonlinear_arith)
        requires
            0 < rate,
            -2 * rate <= rate * err <= 2 * rate,
            -(ONE as int) <= x <= ONE,
    ;
}

/// One training step keeps the weight count and moves each weight and the
/// bias by at most `growth(rate)`.
proof fn lemma_step_bounds(
    data: Seq<Seq<i64>>,
    labels: Seq<i8>,
    rate: int,
    w: Seq<int>,
    bias: int,
    k: int,
    limit: int,
)
    requires
        training_set(data, labels),
        0 <= k < data.len(),
        w.len() == data[0].len(),
        0 < rate <= TRAINING_BUDGET,
        weights_bounded(w, limit),
        -limit <= bias <= limit,
    ensures
        step(data, labels, rate, w, bias, k).0.len() == w.len(),
        weights_bounded(step(data, labels, rate, w, bias, k).0, limit + growth(rate)),
        -(limit + growth(rate)) <= step(data, labels, rate, w, bias, k).1 <= limit + growth(rate),
{
    let label = labels[k];
    let predicted = classify(data[k], w, bias);
    let err = label - predicted;
    assert(is_label(label));
    let next = step(data, labels, rate, w, bias, k);
    assert forall|i: int| 0 <= i < next.0.len() implies -(limit + growth(rate)) <= #[trigger] next.0[i]
        <= limit + growth(rate) by {
        assert(data[k].len() == data[0].len());
        assert(features_in_range(data[k]));
        lemma_update_bound(rate, err as int, data[k][i] as int);
    }
    lemma_update_bound(rate, err as int, ONE as int);
}

/// With `e` epochs of at most `epochs`, the weights have moved by at most
/// `e * growth(rate)`, which leaves room for `WEIGHT_ONE` below `WEIGHT_LIMIT`.
proof fn lemma_budget(e: int, epochs: int, rate: int)
    requires
        0 <= e <= epochs,
        0 < rate,
        epochs * rate <= TRAINING_BUDGET,
    ensures
        e * growth(rate) + growth(rate) == (e + 1) * growth(rate),
        e * growth(rate) <= 0x2000_0000_0000_0000,
        e < epochs ==> rate <= TRAINING_BUDGET && (e + 1) * growth(rate) <= 0x2000_0000_0000_0000,
{
    let g = growth(rate);
    let p = epochs * rate;
    assert(e * g + g == (e + 1) * g) by (nonlinear_arith);
    assert(2 * ONE * p == 131072 * p);
    assert(e * g <= 2 * ONE * p) by (nonlinear_arith)
        requires
            0 <= e <= epochs,
            0 < rate,
            g == 2 * rate * ONE,
            p == epochs * rate,
    ;
    if e < epochs {
        assert(rate <= p) by (nonlinear_arith)
            requires
                1 <= epochs,
                0 < rate,
                p == epochs * rate,
        ;
        assert((e + 1) * g <= 2 * ONE * p) by (nonlinear_arith)
            requires
                0 <= e < epochs,
                0 < rate,
                g == 2 * rate * ONE,
                p == epochs * rate,
        ;
    }
}

/// Adds `delta` times the feature to each weight.
fn apply_update(weights: &mut Vec<i64>, row: &Vec<i64>, delta: i64)
    requires
        old(weights)@.len() == row@.len(),
        forall|i: int|
            0 <= i < row@.len() ==> i64::MIN <= old(weights)@[i] + delta * row@[i] <= i64::MAX
                && i64::MIN <= #[trigger] (delta * row@[i]) <= i64::MAX,
    ensures
        final(weights)@.len() == old(weights)@.len(),
        forall|i: int|
            0 <= i < row@.len() ==> #[trigger] final(weights)@[i] == old(weights)@[i] + delta
                * row@[i],
{
    let ghost w0 = weights@;
    let mut i: usize = 0;
    while i < weights.len()
        invariant
            weights@.len() == w0.len(),
            w0.len() == row@.len(),
            i <= weights@.len(),
            forall|j: int|
                0 <= j < row@.len() ==> i64::MIN <= w0[j] + delta * row@[j] <= i64::MAX
                    && i64::MIN <= #[trigger] (delta * row@[j]) <= i64::MAX,
            forall|j: int| 0 <= j < i ==> #[trigger] weights@[j] == w0[j] + delta * row@[j],
            forall|j: int| i <= j < w0.len() ==> #[trigger] weights@[j] == w0[j],
        decreases weights.len() - i,
    {
        assert(i64::MIN <= delta * row@[i as int] <= i64::MAX);
        let v = weights[i] + delta * row[i];
        weights.set(i, v);
        i = i + 1;
    }
}

/// The weights at the start of training as `policy` makes them, for vectors
/// of length `len`.
pub open spec fn drawn_init(policy: WeightInit, init: Seq<int>, len: nat) -> bool {
    &&& init.len() == len
    &&& forall|i: int|
        0 <= i < len ==> match policy {
            WeightInit::Zero => #[trigger] init[i] == 0,
            WeightInit::Uniform => 0 <= #[trigger] init[i] < WEIGHT_ONE,
        }
}

/// How weights are set at the start of training.
#[derive(Clone, Copy, Debug, PartialEq, Eq, Structural)]
pub enum WeightInit {
    /// Every weight starts at 0.0.
    Zero,
    /// Every weight is drawn independently and uniformly from [0.0, 1.0).
    Uniform,
}

/// A model that trains on labelled feature vectors and then labels new ones.
pub trait Trainable {
    /// The state from which the model can train and classify.
    spec fn well_formed(&self) -> bool;

    /// The number of epochs of one training run.
    spec fn epoch_count(&self) -> nat;

    /// The length of the feature vectors that the model labels.
    spec fn input_len(&self) -> nat;

    /// The label that the model gives one feature vector.
    spec fn label_of(&self, row: Seq<i64>) -> i8;

    /// Trains from scratch on `data` and `labels`; returns the number of
    /// misclassified training vectors after each epoch.
    fn fit(&mut self, data: Vec<Vec<i64>>, labels: Vec<i8>) -> (misses: Vec<usize>)
        requires
            old(self).well_formed(),
            training_set(rows(data@), labels@),
        ensures
            final(self).well_formed(),
            final(self).epoch_count() == old(self).epoch_count(),
            final(self).input_len() == data@[0]@.len(),
            misses@.len() == old(self).epoch_count(),
            forall|i: int| 0 <= i < misses@.len() ==> #[trigger] misses@[i] <= data@.len(),
    ;

    /// The label of each vector of `data`, in order.
    fn forward(&self, data: Vec<Vec<i64>>) -> (labels: Vec<i8>)
        requires
            self.well_formed(),
            batch_of_len(rows(data@), self.input_len()),
        ensures
            labels@.len() == data@.len(),
            forall|i: int|
                0 <= i < labels@.len() ==> #[trigger] labels@[i] == self.label_of(data@[i]@)
                    && is_label(labels@[i]),
    ;

    /// The label of each vector of `data`, in order: the entry point for
    /// inference.
    fn predict(&self, data: Vec<Vec<i64>>) -> (labels: Vec<i8>)
        requires
            self.well_formed(),
            batch_of_len(rows(data@), self.input_len()),
        ensures
            labels@.len() == data@.len(),
            forall|i: int|
                0 <= i < labels@.len() ==> #[trigger] labels@[i] == self.label_of(data@[i]@)
                    && is_label(labels@[i]),
    ;
}

/// A single-layer perceptron. Features and the learning rate are fixed-point
/// values with `ONE` as 1.0; weights and the bias have `WEIGHT_ONE` as 1.0.
pub struct Perceptron {
    learning_rate: i64,
    epochs: usize,
    pub weights: Vec<i64>,
    bias: i64,
    init: WeightInit,
}

impl Perceptron {
    /// The learning rate, raw.
    pub closed spec fn rate(&self) -> int {
        self.learning_rate as int
    }

    /// The bias, raw.
    pub closed spec fn bias_value(&self) -> int {
        self.bias as int
    }

    /// The policy for the weights at the start of training.
    pub closed spec fn init_policy(&self) -> WeightInit {
        self.init
    }

    /// The weights as integers.
    pub closed spec fn weight_model(&self) -> Seq<int> {
        as_ints(self.weights@)
    }

    /// The labels of a batch, in order.
    pub open spec fn labels_of(&self, data: Seq<Seq<i64>>) -> Seq<i8> {
        Seq::new(data.len(), |i: int| self.label_of(data[i]))
    }

    /// The state is the end of a run of training steps on `picks` from the
    /// weights `init`, and `misses` is its miss trace.
    pub open spec fn trained(
        &self,
        data: Seq<Seq<i64>>,
        labels: Seq<i8>,
        init: Seq<int>,
        picks: Seq<int>,
        misses: Seq<usize>,
    ) -> bool {
        let end = run(data, labels, self.rate(), init, picks);
        &&& self.weight_model() == end.0
        &&& self.bias_value() == end.1
        &&& counts(misses) == trace(data, labels, self.rate(), init, picks)
    }

    /// One epoch: a training step on vector `k`, then the miss count over the
    /// whole training set.
    fn train_epoch(&mut self, data: &Vec<Vec<i64>>, labels: &Vec<i8>, k: usize) -> (m: usize)
        requires
            training_set(rows(data@), labels@),
            k < data@.len(),
            old(self).weights@.len() == data@[0]@.len(),
            0 < old(self).learning_rate <= TRAINING_BUDGET,
            weights_bounded(
                old(self).weight_model(),
                WEIGHT_LIMIT - growth(old(self).rate()),
            ),
            -(WEIGHT_LIMIT - growth(old(self).rate())) <= old(self).bias <= WEIGHT_LIMIT - growth(
                old(self).rate(),
            ),
        ensures
            final(self).learning_rate == old(self).learning_rate,
            final(self).epochs == old(self).epochs,
            final(self).init == old(self).init,
            (final(self).weight_model(), final(self).bias_value()) == step(
                rows(data@),
                labels@,
                old(self).rate(),
                old(self).weight_model(),
                old(self).bias_value(),
                k as int,
            ),
            m == miss_count(
                rows(data@),
                labels@,
                final(self).weight_model(),
                final(self).bias_value(),
            ),
    {
        let ghost d = rows(data@);
        let ghost w0 = self.weight_model();
        let ghost limit = WEIGHT_LIMIT - growth(self.rate());
        let ghost next = step(d, labels@, self.rate(), w0, self.bias as int, k as int);
        proof {
            lemma_step_bounds(d, labels@, self.rate(), w0, self.bias as int, k as int, limit);
            assert(d[k as int] == data@[k as int]@);
            assert(d[k as int].len() == d[0].len());
            assert(is_label(labels@[k as int]));
        }
        let predicted = classify_row(&data[k], &self.weights, self.bias);
        let err = labels[k] - predicted;
        proof {
            lemma_update_bound(self.rate(), err as int, ONE as int);
        }
        let delta = self.learning_rate * (err as i64);
        assert(delta == step_delta(self.rate(), labels@[k as int], predicted));
        self.bias = self.bias + delta * ONE;
        proof {
            assert forall|i: int| 0 <= i < data@[k as int]@.len() implies i64::MIN <= self.weights@[i]
                + delta * data@[k as int]@[i] <= i64::MAX && i64::MIN <= #[trigger] (delta
                * data@[k as int]@[i]) <= i64::MAX by {
                assert(features_in_range(d[k as int]));
                lemma_update_bound(self.rate(), err as int, d[k as int][i] as int);
                assert(w0[i] == self.weights@[i] as int);
                assert(next.0[i] == w0[i] + delta * d[k as int][i]);
            }
        }
        apply_update(&mut self.weights, &data[k], delta);
        assert(self.weight_model() =~= next.0);
        count_misses(data, labels, &self.weights, self.bias)
    }

    /// Trains from the weights `init` and a zero bias, with one epoch on
    /// vector `picks[e]` for each `e` in order; returns the miss trace.
    pub fn fit_from(
        &mut self,
        data: &Vec<Vec<i64>>,
        labels: &Vec<i8>,
        init: Vec<i64>,
        picks: &Vec<usize>,
    ) -> (misses: Vec<usize>)
        requires
            old(self).well_formed(),
            training_set(rows(data@), labels@),
            init@.len() == data@[0]@.len(),
            weights_bounded(as_ints(init@), WEIGHT_ONE as int),
            picks@.len() == old(self).epoch_count(),
            forall|e: int| 0 <= e < picks@.len() ==> #[trigger] picks@[e] < data@.len(),
        ensures
            final(self).well_formed(),
            final(self).rate() == old(self).rate(),
            final(self).epoch_count() == old(self).epoch_count(),
            final(self).init_policy() == old(self).init_policy(),
            final(self).trained(rows(data@), labels@, as_ints(init@), indices(picks@), misses@),
    {
        let ghost d = rows(data@);
        let ghost w0 = as_ints(init@);
        let ghost ks = indices(picks@);
        let ghost rate = self.rate();
        let ghost policy = self.init;
        self.weights = init;
        self.bias = 0;
        let mut misses: Vec<usize> = Vec::new();
        proof {
            assert(ks.take(0) =~= Seq::<int>::empty());
            assert(counts(misses@) =~= Seq::<nat>::empty());
            assert(self.weight_model() == w0);
        }
        let mut e: usize = 0;
        while e < picks.len()
            invariant
                d == rows(data@),
                ks == indices(picks@),
                rate == self.rate(),
                policy == self.init,
                training_set(d, labels@),
                self.learning_rate > 0,
                self.epochs as int * self.learning_rate as int <= TRAINING_BUDGET,
                self.weights@.len() == d[0].len(),
                d[0].len() <= MAX_FEATURES,
                picks@.len() == self.epochs,
                forall|j: int| 0 <= j < picks@.len() ==> #[trigger] picks@[j] < data@.len(),
                e <= picks@.len(),
                self.trained(d, labels@, w0, ks.take(e as int), misses@),
                weights_bounded(self.weight_model(), WEIGHT_ONE + e * growth(rate)),
                -(WEIGHT_ONE + e * growth(rate)) <= self.bias <= WEIGHT_ONE + e * growth(rate),
            decreases picks.len() - e,
        {
            proof {
                lemma_budget(e as int, self.epochs as int, rate);
            }
            let k = picks[e];
            let m = self.train_epoch(data, labels, k);
            misses.push(m);
            proof {
                let before = ks.take(e as int);
                let after = ks.take(e as int + 1);
                assert(after.drop_last() =~= before);
                assert(after.last() == k as int);
                lemma_step_bounds(d, labels@, rate, run(d, labels@, rate, w0, before).0,
                    run(d, labels@, rate, w0, before).1, k as int, WEIGHT_ONE + e * growth(rate));
                assert(counts(misses@) =~= trace(d, labels@, rate, w0, after));
            }
            e = e + 1;
        }
        proof {
            lemma_budget(e as int, self.epochs as int, rate);
            assert(ks.take(e as int) =~= ks);
        }
        misses
    }

    /// A perceptron with the given learning rate and epoch count, no weights
    /// yet, a zero bias, and weights drawn uniformly from [0.0, 1.0) at the
    /// start of training.
    pub fn new(learning_rate: i64, epochs: usize) -> (p: Self)
        requires
            learning_rate > 0,
            epochs as int * learning_rate as int <= TRAINING_BUDGET,
        ensures
            p.well_formed(),
            p.rate() == learning_rate,
            p.epoch_count() == epochs,
            p.weight_model().len() == 0,
            p.bias_value() == 0,
            p.init_policy() == WeightInit::Uniform,
    {
        Perceptron::with_init(learning_rate, epochs, WeightInit::Uniform)
    }

    /// A perceptron as `new` makes one, with the given policy for the
    /// weights at the start of training.
    pub fn with_init(learning_rate: i64, epochs: usize, init: WeightInit) -> (p: Self)
        requires
            learning_rate > 0,
            epochs as int * learning_rate as int <= TRAINING_BUDGET,
        ensures
            p.well_formed(),
            p.rate() == learning_rate,
            p.epoch_count() == epochs,
            p.weight_model().len() == 0,
            p.bias_value() == 0,
            p.init_policy() == init,
    {
        Perceptron { learning_rate, epochs, weights: Vec::new(), bias: 0, init }
    }

    /// Whether `data` is a batch that this perceptron can label: non-empty,
    /// every vector as long as the weights, every feature in [-1.0, 1.0].
    pub fn accepts(&self, data: &Vec<Vec<i64>>) -> (r: bool)
        ensures
            r == batch_of_len(rows(data@), self.input_len()),
    {
        is_batch(data, self.weights.len())
    }

    /// The bias, raw, on the scale `WEIGHT_ONE`.
    pub fn bias(&self) -> (b: i64)
        ensures
            b == self.bias_value(),
    {
        self.bias
    }
}

impl Trainable for Perceptron {
    closed spec fn well_formed(&self) -> bool {
        &&& self.learning_rate > 0
        &&& self.epochs as int * self.learning_rate as int <= TRAINING_BUDGET
        &&& self.weights.len() <= MAX_FEATURES
        &&& weights_bounded(as_ints(self.weights@), WEIGHT_LIMIT as int)
        &&& -WEIGHT_LIMIT <= self.bias <= WEIGHT_LIMIT
    }

    closed spec fn epoch_count(&self) -> nat {
        self.epochs as nat
    }

    closed spec fn input_len(&self) -> nat {
        self.weights@.len()
    }

    open spec fn label_of(&self, row: Seq<i64>) -> i8 {
        classify(row, self.weight_model(), self.bias_value())
    }

    fn fit(&mut self, data: Vec<Vec<i64>>, labels: Vec<i8>) -> (misses: Vec<usize>)
        ensures
            final(self).rate() == old(self).rate(),
            final(self).init_policy() == old(self).init_policy(),
            exists|init: Seq<int>, picks: Seq<int>|
                {
                    &&& drawn_init(old(self).init_policy(), init, data@[0]@.len())
                    &&& picks.len() == old(self).epoch_count()
                    &&& forall|e: int| 0 <= e < picks.len() ==> 0 <= #[trigger] picks[e] < data@.len()
                    &&& #[trigger] final(self).trained(rows(data@), labels@, init, picks, misses@)
                },
    {
        let ghost d = rows(data@);
        let n = data.len();
        let len = data[0].len();
        assert(d[0] == data@[0]@);
        let mut init: Vec<i64> = Vec::new();
        let mut i: usize = 0;
        while i < len
            invariant
                i <= len,
                init@.len() == i,
                forall|j: int|
                    0 <= j < i ==> match self.init {
                        WeightInit::Zero => #[trigger] init@[j] == 0,
                        WeightInit::Uniform => 0 <= #[trigger] init@[j] < WEIGHT_ONE,
                    },
            decreases len - i,
        {
            let v = match self.init {
                WeightInit::Zero => 0,
                WeightInit::Uniform => random_below(WEIGHT_ONE),
            };
            init.push(v);
            i = i + 1;
        }
        let mut picks: Vec<usize> = Vec::new();
        let mut e: usize = 0;
        while e < self.epochs
            invariant
                n == data@.len(),
                n > 0,
                e <= self.epochs,
                picks@.len() == e,
                forall|j: int| 0 <= j < e ==> #[trigger] picks@[j] < n,
            decreases self.epochs - e,
        {
            picks.push(random_index(n));
            e = e + 1;
        }
        let ghost w0 = as_ints(init@);
        let ghost ks = indices(picks@);
        assert(drawn_init(self.init, w0, len as nat));
        let misses = self.fit_from(&data, &labels, init, &picks);
        proof {
            run_keeps_weight_count(d, labels@, self.rate(), w0, ks);
            trace_has_one_bounded_count_per_epoch(d, labels@, self.rate(), w0, ks);
            assert(forall|j: int| 0 <= j < misses@.len() ==> counts(misses@)[j] == misses@[j]);
            assert(forall|e: int| 0 <= e < ks.len() ==> 0 <= #[trigger] ks[e] < data@.len());
            assert(self.trained(d, labels@, w0, ks, misses@));
        }
        misses
    }

    fn forward(&self, data: Vec<Vec<i64>>) -> (labels: Vec<i8>)
        ensures
            labels@ == self.labels_of(rows(data@)),
    {
        let ghost d = rows(data@);
        let mut out: Vec<i8> = Vec::new();
        let mut i: usize = 0;
        while i < data.len()
            invariant
                self.well_formed(),
                d == rows(data@),
                batch_of_len(d, self.input_len()),
                i <= data.len(),
                out@ =~= self.labels_of(d).take(i as int),
            decreases data.len() - i,
        {
            assert(d[i as int] == data@[i as int]@);
            let label = classify_row(&data[i], &self.weights, self.bias);
            out.push(label);
            i = i + 1;
            assert(out@ =~= self.labels_of(d).take(i as int));
        }
        assert(self.labels_of(d).take(i as int) =~= self.labels_of(d));
        out
    }

    fn predict(&self, data: Vec<Vec<i64>>) -> (labels: Vec<i8>)
        ensures
            labels@ == self.labels_of(rows(data@)),
    {
        self.forward(data)
    }
}

/// The labels of a batch depend on the weights, the bias and the batch
/// alone: two perceptrons with equal weights and bias label every batch
/// alike, so repeated inference on one state gives one answer.
pub proof fn labels_depend_on_weights_and_bias(p: Perceptron, q: Perceptron, data: Seq<Seq<i64>>)
    requires
        p.weight_model() == q.weight_model(),
        p.bias_value() == q.bias_value(),
    ensures
        p.labels_of(data) == q.labels_of(data),
{
    assert(p.labels_of(data) =~= q.labels_of(data));
}

} // verus!
