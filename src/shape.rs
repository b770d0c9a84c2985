//! Run-time checks of the shape that training and inference ask of their
//! input.
use vstd::prelude::*;
use crate::model::{
    batch_of_len, features_in_range, is_label, rows, training_set, FEATURE_LIMIT, MAX_FEATURES,
};

verus! {

/// Whether every value of `row` lies in [-1.0, 1.0].
pub fn in_range(row: &Vec<i64>) -> (r: bool)
    ensures
        r == features_in_range(row@),
{
    let mut i: usize = 0;
    while i < row.len()
        invariant
            i <= row.len(),
            features_in_range(row@.take(i as int)),
        decreases row.len() - i,
    {
        if row[i] < -FEATURE_LIMIT || row[i] > FEATURE_LIMIT {
            assert(!features_in_range(row@));
            return false;
        }
        assert(features_in_range(row@.take(i as int + 1)));
        i = i + 1;
    }
    assert(row@.take(i as int) =~= row@);
    true
}

/// Whether `data` is non-empty, each vector has length `len`, and every
/// feature lies in [-1.0, 1.0].
pub fn is_batch(data: &Vec<Vec<i64>>, len: usize) -> (r: bool)
    ensures
        r == batch_of_len(rows(data@), len as nat),
{
    let ghost d = rows(data@);
    if data.len() == 0 {
        return false;
    }
    let mut i: usize = 0;
    while i < data.len()
        invariant
            d == rows(data@),
            i <= data.len(),
            forall|j: int| 0 <= j < i ==> (#[trigger] d[j]).len() == len && features_in_range(d[j]),
        decreases data.len() - i,
    {
        assert(d[i as int] == data@[i as int]@);
        if data[i].len() != len || !in_range(&data[i]) {
            return false;
        }
        i = i + 1;
    }
    true
}

/// Whether `data` and `labels` make a training set: at least one vector,
/// all of one length of at most `MAX_FEATURES`, features in [-1.0, 1.0],
/// and one label in {-1, +1} for each vector.
pub fn is_training_set(data: &Vec<Vec<i64>>, labels: &Vec<i8>) -> (r: bool)
    ensures
        r == training_set(rows(data@), labels@),
{
    let ghost d = rows(data@);
    if data.len() == 0 || labels.len() != data.len() {
        return false;
    }
    assert(d[0] == data@[0]@);
    let len = data[0].len();
    if len > MAX_FEATURES || !is_batch(data, len) {
        return false;
    }
    let mut i: usize = 0;
    while i < labels.len()
        invariant
            i <= labels.len(),
            forall|j: int| 0 <= j < i ==> is_label(#[trigger] labels@[j]),
        decreases labels.len() - i,
    {
        if labels[i] != 1 && labels[i] != -1 {
            return false;
        }
        i = i + 1;
    }
    true
}

} // verus!
