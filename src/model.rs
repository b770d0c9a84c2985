//! The mathematical model of the perceptron: fixed-point scales, the weighted
//! sum, classification, one training step, whole runs and their miss traces.
use vstd::prelude::*;

verus! {

/// The value 1.0 for features and for the learning rate (16 fractional bits).
pub const ONE: i64 = 65536;

/// The value 1.0 for weights and the bias (32 fractional bits): a product of a
/// feature and a learning rate lands on this scale without rounding.
pub const WEIGHT_ONE: i64 = 4294967296;

/// The largest magnitude of a feature value: features lie in [-1.0, 1.0].
pub const FEATURE_LIMIT: i64 = 65536;

/// The largest magnitude a weight or the bias may reach.
pub const WEIGHT_LIMIT: i64 = 4611686018427387904;

/// The largest number of features in one vector.
pub const MAX_FEATURES: usize = 16777216;

/// The largest product of epoch count and raw learning rate: it keeps every
/// weight within `WEIGHT_LIMIT` for a whole run.
pub const TRAINING_BUDGET: i64 = 17592186044416;

/// The largest magnitude of one product of a feature and a weight.
pub open spec fn term_limit() -> int {
    FEATURE_LIMIT as int * WEIGHT_LIMIT as int
}

/// Every value of the vector lies in [-1.0, 1.0].
pub open spec fn features_in_range(row: Seq<i64>) -> bool {
    forall|i: int| 0 <= i < row.len() ==> -FEATURE_LIMIT <= #[trigger] row[i] <= FEATURE_LIMIT
}

/// Every weight, read as an integer, lies within `WEIGHT_LIMIT`.
pub open spec fn weights_bounded(w: Seq<int>, limit: int) -> bool {
    forall|i: int| 0 <= i < w.len() ==> -limit <= #[trigger] w[i] <= limit
}

/// A label is -1 or +1.
pub open spec fn is_label(v: i8) -> bool {
    v == 1 || v == -1
}

/// The raw weights as integers.
pub open spec fn as_ints(v: Seq<i64>) -> Seq<int> {
    v.map_values(|x: i64| x as int)
}

/// The feature vectors of a batch as sequences.
pub open spec fn rows(data: Seq<Vec<i64>>) -> Seq<Seq<i64>> {
    data.map_values(|r: Vec<i64>| r@)
}

/// The sum of `row[i] * w[i]` over the indices of `row`.
pub open spec fn dot(row: Seq<i64>, w: Seq<int>) -> int
    decreases row.len(),
{
    if row.len() == 0 {
        0
    } else {
        dot(row.drop_last(), w) + row.last() * w[row.len() - 1]
    }
}

/// The weighted sum plus the bias, on the scale `ONE * WEIGHT_ONE`.
pub open spec fn activation(row: Seq<i64>, w: Seq<int>, bias: int) -> int {
    dot(row, w) + ONE * bias
}

/// The label of a vector: -1 below zero, +1 from zero up.
pub open spec fn classify(row: Seq<i64>, w: Seq<int>, bias: int) -> i8 {
    if activation(row, w, bias) < 0 {
        -1i8
    } else {
        1i8
    }
}

/// How many vectors of the batch `classify` labels otherwise than `labels`.
pub open spec fn miss_count(data: Seq<Seq<i64>>, labels: Seq<i8>, w: Seq<int>, bias: int) -> nat
    decreases data.len(),
{
    if data.len() == 0 {
        0
    } else {
        let last = data.len() - 1;
        miss_count(data.drop_last(), labels, w, bias) + if classify(data[last], w, bias)
            != labels[last] {
            1nat
        } else {
            0nat
        }
    }
}

/// A non-empty batch of vectors, each of length `len`, features in range.
pub open spec fn batch_of_len(data: Seq<Seq<i64>>, len: nat) -> bool {
    &&& data.len() > 0
    &&& forall|i: int| 0 <= i < data.len() ==> (#[trigger] data[i]).len() == len
    &&& forall|i: int| 0 <= i < data.len() ==> features_in_range(#[trigger] data[i])
}

/// The indices of a sequence of `usize` as integers.
pub open spec fn indices(v: Seq<usize>) -> Seq<int> {
    v.map_values(|k: usize| k as int)
}

/// Miss counts as natural numbers.
pub open spec fn counts(v: Seq<usize>) -> Seq<nat> {
    v.map_values(|m: usize| m as nat)
}

/// The most one training step moves a weight or the bias.
pub open spec fn growth(rate: int) -> int {
    2 * rate * ONE
}

/// A training set: at least one vector, all of one length of at most
/// `MAX_FEATURES`, features in range, and one label in {-1, +1} for each.
pub open spec fn training_set(data: Seq<Seq<i64>>, labels: Seq<i8>) -> bool {
    &&& data.len() > 0
    &&& labels.len() == data.len()
    &&& data[0].len() <= MAX_FEATURES
    &&& forall|i: int| 0 <= i < data.len() ==> (#[trigger] data[i]).len() == data[0].len()
    &&& forall|i: int| 0 <= i < data.len() ==> features_in_range(#[trigger] data[i])
    &&& forall|i: int| 0 <= i < labels.len() ==> is_label(#[trigger] labels[i])
}

/// The change of one training step, per unit of input: the learning rate
/// times the error `label - predicted`.
pub open spec fn step_delta(rate: int, label: i8, predicted: i8) -> int {
    rate * (label - predicted)
}

/// One training step on vector `k`: the bias moves by `delta` (times 1.0)
/// and each weight by `delta` times its feature.
pub open spec fn step(
    data: Seq<Seq<i64>>,
    labels: Seq<i8>,
    rate: int,
    w: Seq<int>,
    bias: int,
    k: int,
) -> (Seq<int>, int) {
    let delta = step_delta(rate, labels[k], classify(data[k], w, bias));
    (Seq::new(w.len(), |i: int| w[i] + delta * data[k][i]), bias + delta * ONE)
}

/// The weights and bias after training steps on the vectors `picks`, in
/// order, from the weights `init` and a zero bias.
pub open spec fn run(
    data: Seq<Seq<i64>>,
    labels: Seq<i8>,
    rate: int,
    init: Seq<int>,
    picks: Seq<int>,
) -> (Seq<int>, int)
    decreases picks.len(),
{
    if picks.len() == 0 {
        (init, 0)
    } else {
        let prev = run(data, labels, rate, init, picks.drop_last());
        step(data, labels, rate, prev.0, prev.1, picks.last())
    }
}

/// The miss count over the whole batch after each step of `run`.
pub open spec fn trace(
    data: Seq<Seq<i64>>,
    labels: Seq<i8>,
    rate: int,
    init: Seq<int>,
    picks: Seq<int>,
) -> Seq<nat>
    decreases picks.len(),
{
    if picks.len() == 0 {
        seq![]
    } else {
        let now = run(data, labels, rate, init, picks);
        trace(data, labels, rate, init, picks.drop_last()).push(
            miss_count(data, labels, now.0, now.1),
        )
    }
}


/// A batch has at most as many misses as vectors.
pub proof fn lemma_miss_count_bound(data: Seq<Seq<i64>>, labels: Seq<i8>, w: Seq<int>, bias: int)
    ensures
        miss_count(data, labels, w, bias) <= data.len(),
    decreases data.len(),
{
    if data.len() > 0 {
        lemma_miss_count_bound(data.drop_last(), labels, w, bias);
    }
}

/// A training run keeps the number of weights: it ends with as many as
/// `init` has.
pub proof fn run_keeps_weight_count(
    data: Seq<Seq<i64>>,
    labels: Seq<i8>,
    rate: int,
    init: Seq<int>,
    picks: Seq<int>,
)
    ensures
        run(data, labels, rate, init, picks).0.len() == init.len(),
    decreases picks.len(),
{
    if picks.len() > 0 {
        run_keeps_weight_count(data, labels, rate, init, picks.drop_last());
    }
}

/// The miss trace of a run has one entry per epoch, and each entry is at
/// most the size of the training set.
pub proof fn trace_has_one_bounded_count_per_epoch(
    data: Seq<Seq<i64>>,
    labels: Seq<i8>,
    rate: int,
    init: Seq<int>,
    picks: Seq<int>,
)
    ensures
        trace(data, labels, rate, init, picks).len() == picks.len(),
        forall|e: int|
            0 <= e < picks.len() ==> #[trigger] trace(data, labels, rate, init, picks)[e]
                <= data.len(),
    decreases picks.len(),
{
    if picks.len() > 0 {
        let now = run(data, labels, rate, init, picks);
        trace_has_one_bounded_count_per_epoch(data, labels, rate, init, picks.drop_last());
        lemma_miss_count_bound(data, labels, now.0, now.1);
    }
}

/// Every label that `classify` gives is -1 or +1.
pub proof fn classify_gives_a_label(row: Seq<i64>, w: Seq<int>, bias: int)
    ensures
        is_label(classify(row, w, bias)),
{
}

/// A weighted sum of exactly zero classifies as +1.
pub proof fn zero_activation_is_positive(row: Seq<i64>, w: Seq<int>, bias: int)
    requires
        activation(row, w, bias) == 0,
    ensures
        classify(row, w, bias) == 1,
{
}

/// Every weight of `w` at the indices of `row` is zero.
pub open spec fn zero_weights_for(row: Seq<i64>, w: Seq<int>) -> bool {
    w.len() >= row.len() && forall|i: int| 0 <= i < row.len() ==> #[trigger] w[i] == 0
}

/// Every value of `row` is zero.
pub open spec fn all_zero(row: Seq<i64>) -> bool {
    forall|i: int| 0 <= i < row.len() ==> #[trigger] row[i] == 0
}

/// The weighted sum is zero when the weights are zero, or the features are.
pub proof fn lemma_dot_zero(row: Seq<i64>, w: Seq<int>)
    requires
        zero_weights_for(row, w) || all_zero(row),
    ensures
        dot(row, w) == 0,
    decreases row.len(),
{
    if row.len() > 0 {
        lemma_dot_zero(row.drop_last(), w);
    }
}

/// With zero weights and a zero bias every vector classifies as +1: the
/// decision boundary belongs to the positive side.
pub proof fn zero_model_labels_positive(row: Seq<i64>, w: Seq<int>)
    requires
        zero_weights_for(row, w),
    ensures
        activation(row, w, 0) == 0,
        classify(row, w, 0) == 1,
{
    lemma_dot_zero(row, w);
}

/// Every label of the batch is +1.
pub open spec fn all_positive(labels: Seq<i8>) -> bool {
    forall|i: int| 0 <= i < labels.len() ==> #[trigger] labels[i] == 1
}

/// Where every label is +1, no epoch lowers the bias: an epoch on a vector
/// labelled correctly keeps it, and one on a misclassified vector raises it by
/// twice the learning rate.
pub proof fn bias_never_falls_on_positive_labels(
    data: Seq<Seq<i64>>,
    labels: Seq<i8>,
    rate: int,
    init: Seq<int>,
    picks: Seq<int>,
    e: int,
)
    requires
        labels.len() == data.len(),
        all_positive(labels),
        rate > 0,
        forall|j: int| 0 <= j < picks.len() ==> 0 <= #[trigger] picks[j] < data.len(),
        0 <= e < picks.len(),
    ensures
        ({
            let before = run(data, labels, rate, init, picks.take(e));
            let after = run(data, labels, rate, init, picks.take(e + 1));
            &&& classify(data[picks[e]], before.0, before.1) == 1 ==> after.1 == before.1
            &&& classify(data[picks[e]], before.0, before.1) == -1 ==> after.1 == before.1 + 2
                * rate * ONE
            &&& before.1 <= after.1
        }),
{
    let after = picks.take(e + 1);
    assert(after.drop_last() =~= picks.take(e));
    assert(labels[picks[e]] == 1);
    let before = run(data, labels, rate, init, picks.take(e));
    assert(step_delta(rate, 1i8, -1i8) == 2 * rate);
    assert(step_delta(rate, 1i8, 1i8) == 0);
    assert(0 <= 2 * rate * ONE);
}

/// Where every feature is zero and every label +1, training never moves the
/// bias from zero, every vector classifies as +1, and every miss count is zero.
pub proof fn zero_inputs_with_positive_labels_never_miss(
    data: Seq<Seq<i64>>,
    labels: Seq<i8>,
    rate: int,
    init: Seq<int>,
    picks: Seq<int>,
)
    requires
        labels.len() == data.len(),
        all_positive(labels),
        forall|i: int| 0 <= i < data.len() ==> all_zero(#[trigger] data[i]),
        forall|j: int| 0 <= j < picks.len() ==> 0 <= #[trigger] picks[j] < data.len(),
    ensures
        run(data, labels, rate, init, picks).1 == 0,
        forall|i: int|
            0 <= i < data.len() ==> classify(
                #[trigger] data[i],
                run(data, labels, rate, init, picks).0,
                0,
            ) == 1,
        forall|e: int|
            0 <= e < picks.len() ==> #[trigger] trace(data, labels, rate, init, picks)[e] == 0,
    decreases picks.len(),
{
    let now = run(data, labels, rate, init, picks);
    if picks.len() > 0 {
        let prev = picks.drop_last();
        zero_inputs_with_positive_labels_never_miss(data, labels, rate, init, prev);
        let k = picks.last();
        assert(picks[picks.len() - 1] == k);
        assert(all_zero(data[k]));
        assert(labels[k] == 1);
        let before = run(data, labels, rate, init, prev);
        lemma_dot_zero(data[k], before.0);
        assert(classify(data[k], before.0, before.1) == 1);
        assert(labels[k] - 1i8 == 0);
        assert(rate * (labels[k] - 1i8) == 0) by (nonlinear_arith)
            requires
                labels[k] - 1i8 == 0,
        ;
    }
    assert forall|i: int| 0 <= i < data.len() implies classify(#[trigger] data[i], now.0, 0) == 1 by {
        lemma_dot_zero(data[i], now.0);
    }
    lemma_no_misses(data, labels, now.0);
    trace_has_one_bounded_count_per_epoch(data, labels, rate, init, picks);
    if picks.len() > 0 {
        let t = trace(data, labels, rate, init, picks);
        let prev = trace(data, labels, rate, init, picks.drop_last());
        trace_has_one_bounded_count_per_epoch(data, labels, rate, init, picks.drop_last());
        assert(t == prev.push(miss_count(data, labels, now.0, now.1)));
        assert forall|e: int| 0 <= e < picks.len() implies #[trigger] t[e] == 0 by {
            if e < picks.len() - 1 {
                assert(t[e] == prev[e]);
            }
        }
    }
}

/// Where every vector classifies as +1 and every label is +1, nothing is
/// missed.
proof fn lemma_no_misses(data: Seq<Seq<i64>>, labels: Seq<i8>, w: Seq<int>)
    requires
        labels.len() >= data.len(),
        forall|i: int| 0 <= i < labels.len() ==> #[trigger] labels[i] == 1,
        forall|i: int| 0 <= i < data.len() ==> classify(#[trigger] data[i], w, 0) == 1,
    ensures
        miss_count(data, labels, w, 0) == 0,
    decreases data.len(),
{
    if data.len() > 0 {
        let prefix = data.drop_last();
        assert forall|i: int| 0 <= i < prefix.len() implies classify(#[trigger] prefix[i], w, 0)
            == 1 by {
            assert(prefix[i] == data[i]);
        }
        lemma_no_misses(prefix, labels, w);
    }
}

} // verus!
