use perceptron::{
    count_disagreements, label_for_name,
    in_range, is_batch, is_training_set, Perceptron, Trainable, WeightInit, FEATURE_LIMIT, ONE,
    WEIGHT_ONE,
};

fn two_points() -> (Vec<Vec<i64>>, Vec<i8>) {
    (vec![vec![ONE], vec![-ONE]], vec![1, -1])
}

#[test]
fn forward_is_deterministic() {
    let (data, labels) = two_points();
    let mut p = Perceptron::with_init(ONE / 4, 3, WeightInit::Zero);
    p.fit_from(&data, &labels, vec![0], &vec![1, 0, 1]);
    let batch = vec![vec![ONE / 3], vec![-ONE / 5], vec![0]];
    let first = p.forward(batch.clone());
    let second = p.forward(batch.clone());
    let third = p.predict(batch);
    assert_eq!(first, second);
    assert_eq!(first, third);
}

#[test]
fn labels_are_minus_or_plus_one() {
    let data = vec![vec![ONE, 0], vec![0, ONE], vec![ONE / 2, ONE / 2], vec![-ONE, ONE]];
    let labels = vec![1, -1, 1, -1];
    let mut p = Perceptron::new(ONE / 4, 40);
    p.fit(data.clone(), labels);
    let out = p.predict(data);
    assert_eq!(out.len(), 4);
    for v in out {
        assert!(v == 1 || v == -1);
    }
}

#[test]
fn fit_trace_has_one_count_per_epoch() {
    let data = vec![vec![ONE, 0], vec![0, ONE], vec![ONE, ONE]];
    let labels = vec![1, -1, 1];
    let mut p = Perceptron::new(ONE / 4, 50);
    let misses = p.fit(data, labels);
    assert_eq!(misses.len(), 50);
    for m in misses {
        assert!(m <= 3);
    }
}

#[test]
fn fit_with_zero_epochs_gives_empty_trace() {
    let (data, labels) = two_points();
    let mut p = Perceptron::with_init(ONE, 0, WeightInit::Zero);
    let misses = p.fit(data, labels);
    assert!(misses.is_empty());
    assert_eq!(p.weights, vec![0]);
    assert_eq!(p.bias(), 0);
}

#[test]
fn weights_take_the_feature_length() {
    let data = vec![vec![ONE, 0], vec![0, ONE]];
    let labels = vec![1, -1];
    let mut p = Perceptron::new(ONE / 4, 10);
    assert!(!p.accepts(&vec![vec![ONE, 0]]));
    p.fit(data, labels);
    assert_eq!(p.weights.len(), 2);
    assert!(p.accepts(&vec![vec![ONE, 0], vec![0, 0]]));
    assert!(!p.accepts(&vec![vec![ONE, 0, 0]]));
    assert!(!p.accepts(&vec![vec![ONE]]));
    assert!(!p.accepts(&vec![]));
}

#[test]
fn refit_replaces_earlier_training() {
    let mut p = Perceptron::with_init(ONE, 1, WeightInit::Zero);
    p.fit_from(&vec![vec![-ONE]], &vec![-1], vec![0], &vec![0]);
    assert_eq!(p.weights, vec![2 * WEIGHT_ONE]);
    p.fit_from(&vec![vec![0, 0, 0]], &vec![1], vec![0, 0, 0], &vec![0]);
    assert_eq!(p.weights, vec![0, 0, 0]);
    assert_eq!(p.bias(), 0);
}

#[test]
fn zero_sum_classifies_positive() {
    let (data, labels) = two_points();
    let mut p = Perceptron::with_init(ONE, 0, WeightInit::Zero);
    p.fit_from(&data, &labels, vec![0], &vec![]);
    assert_eq!(p.predict(vec![vec![ONE / 2], vec![-ONE], vec![1]]), vec![1, 1, 1]);
}

#[test]
fn two_points_separate_after_both_are_picked() {
    let (data, labels) = two_points();
    let mut p = Perceptron::with_init(ONE, 2, WeightInit::Zero);
    let misses = p.fit_from(&data, &labels, vec![0], &vec![0, 1]);
    assert_eq!(misses, vec![1, 0]);
    assert_eq!(p.weights, vec![2 * WEIGHT_ONE]);
    assert_eq!(p.bias(), -2 * WEIGHT_ONE);
    assert!(p.weights[0] > 0);
    assert_eq!(p.predict(data), vec![1, -1]);
}

#[test]
fn two_points_separate_at_once_when_negative_is_picked_first() {
    let (data, labels) = two_points();
    let mut p = Perceptron::with_init(ONE, 2, WeightInit::Zero);
    let misses = p.fit_from(&data, &labels, vec![0], &vec![1, 0]);
    assert_eq!(misses, vec![0, 0]);
    assert_eq!(p.weights, vec![2 * WEIGHT_ONE]);
}

#[test]
fn two_points_with_fit_reach_zero_misses_when_separated() {
    let (data, labels) = two_points();
    let mut p = Perceptron::with_init(ONE, 60, WeightInit::Zero);
    let misses = p.fit(data.clone(), labels);
    assert_eq!(misses.len(), 60);
    for m in &misses {
        assert!(*m <= 1);
    }
    if p.weights[0] > 0 {
        assert_eq!(*misses.last().unwrap(), 0);
        assert_eq!(p.predict(data), vec![1, -1]);
    }
}

#[test]
fn empty_training_set_is_rejected() {
    let data: Vec<Vec<i64>> = vec![];
    let labels: Vec<i8> = vec![];
    assert!(!is_training_set(&data, &labels));
}

#[test]
fn zero_inputs_with_positive_labels_stay_positive() {
    let data = vec![vec![0], vec![0], vec![0]];
    let labels = vec![1, 1, 1];
    let mut p = Perceptron::with_init(ONE / 4, 10, WeightInit::Zero);
    let misses = p.fit(data.clone(), labels.clone());
    assert_eq!(misses, vec![0; 10]);
    assert_eq!(p.bias(), 0);
    assert_eq!(p.predict(data.clone()), vec![1, 1, 1]);
    let mut q = Perceptron::new(ONE / 4, 10);
    let misses = q.fit(data.clone(), labels);
    assert_eq!(misses, vec![0; 10]);
    assert_eq!(q.predict(data), vec![1, 1, 1]);
}

#[test]
fn bias_rises_on_misclassified_positive_sample() {
    let data = vec![vec![-ONE]];
    let labels = vec![1];
    let mut last = 0;
    for epochs in 1..4usize {
        let mut p = Perceptron::with_init(ONE / 4, epochs, WeightInit::Zero);
        p.fit_from(&data, &labels, vec![WEIGHT_ONE / 2], &vec![0; epochs]);
        assert!(p.bias() >= last);
        last = p.bias();
    }
    let mut p = Perceptron::with_init(ONE / 4, 1, WeightInit::Zero);
    let misses = p.fit_from(&data, &labels, vec![WEIGHT_ONE / 2], &vec![0]);
    // delta = 0.25 * 2 = 0.5: bias 0.5, weight 0.5 - 0.5 = 0.0
    assert_eq!(p.bias(), WEIGHT_ONE / 2);
    assert_eq!(p.weights, vec![0]);
    assert_eq!(misses, vec![0]);
}

#[test]
fn weighted_sum_rounds_nothing() {
    let mut p = Perceptron::with_init(ONE, 1, WeightInit::Zero);
    p.fit_from(&vec![vec![ONE / 2, -ONE / 4]], &vec![-1], vec![0, 0], &vec![0]);
    // delta = -2: weights -1.0 and 0.5, bias -2.0
    assert_eq!(p.weights, vec![-WEIGHT_ONE, WEIGHT_ONE / 2]);
    assert_eq!(p.bias(), -2 * WEIGHT_ONE);
    // -1.0 + 0.5 - 2.0 < 0 and 1.0 + 0.5 - 2.0 < 0
    assert_eq!(p.predict(vec![vec![ONE, ONE], vec![-ONE, ONE]]), vec![-1, -1]);
}

#[test]
fn single_sample_training_set_trains() {
    let mut p = Perceptron::new(ONE / 4, 5);
    let misses = p.fit(vec![vec![ONE / 2, ONE]], vec![-1]);
    assert_eq!(misses.len(), 5);
    assert!(misses.iter().all(|m| *m <= 1));
}

#[test]
fn uniform_init_draws_below_one() {
    let data = vec![vec![0; 64]];
    let mut p = Perceptron::new(ONE / 4, 0);
    p.fit(data, vec![1]);
    assert_eq!(p.weights.len(), 64);
    for w in &p.weights {
        assert!(*w >= 0 && *w < WEIGHT_ONE);
    }
}

#[test]
fn training_set_check_names_each_fault() {
    let ok = vec![vec![ONE, 0], vec![0, -ONE]];
    assert!(is_training_set(&ok, &vec![1, -1]));
    assert!(!is_training_set(&ok, &vec![1]));
    assert!(!is_training_set(&ok, &vec![1, 0]));
    assert!(!is_training_set(&ok, &vec![2, -1]));
    assert!(!is_training_set(&vec![vec![ONE, 0], vec![0]], &vec![1, -1]));
    assert!(!is_training_set(&vec![vec![ONE + 1]], &vec![1]));
    assert!(!is_training_set(&vec![vec![-ONE - 1]], &vec![1]));
}

#[test]
fn range_and_batch_checks() {
    assert!(in_range(&vec![]));
    assert!(in_range(&vec![FEATURE_LIMIT, -FEATURE_LIMIT, 0]));
    assert!(!in_range(&vec![0, FEATURE_LIMIT + 1]));
    assert!(is_batch(&vec![vec![1, 2], vec![3, 4]], 2));
    assert!(!is_batch(&vec![vec![1, 2], vec![3, 4]], 3));
    assert!(!is_batch(&vec![], 0));
    assert!(is_batch(&vec![vec![]], 0));
}

#[test]
fn file_names_starting_with_zero_are_negative() {
    assert_eq!(label_for_name("0_cat.png"), -1);
    assert_eq!(label_for_name("1_dog.png"), 1);
    assert_eq!(label_for_name("a0.png"), 1);
    assert_eq!(label_for_name(""), 1);
}

#[test]
fn disagreements_are_counted() {
    assert_eq!(count_disagreements(&vec![1, -1, 1, 1], &vec![1, 1, -1, 1]), 2);
    assert_eq!(count_disagreements(&vec![], &vec![]), 0);
    assert_eq!(count_disagreements(&vec![-1, -1], &vec![-1, -1]), 0);
}
