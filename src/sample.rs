//! Rules for labelled samples outside training: the label of a sample file,
//! and the number of labels that two label lists disagree on.
use vstd::prelude::*;

verus! {

/// The label of a sample file by its name: -1 for a name that starts with
/// `0`, +1 for any other.
pub fn label_for_name(name: &str) -> (r: i8)
    ensures
        r == (if name@.len() > 0 && name@[0] == '0' {
            -1i8
        } else {
            1i8
        }),
{
    if name.unicode_len() > 0 && name.get_char(0) == '0' {
        -1
    } else {
        1
    }
}

/// How many positions below `a.len()` hold different labels in `a` and `b`.
pub open spec fn disagreements(a: Seq<i8>, b: Seq<i8>) -> nat
    decreases a.len(),
{
    if a.len() == 0 {
        0
    } else {
        let last = a.len() - 1;
        disagreements(a.drop_last(), b) + if a[last] != b[last] {
            1nat
        } else {
            0nat
        }
    }
}

/// The number of positions at which `predicted` and `actual` differ.
pub fn count_disagreements(predicted: &Vec<i8>, actual: &Vec<i8>) -> (r: usize)
    requires
        predicted@.len() == actual@.len(),
    ensures
        r == disagreements(predicted@, actual@),
{
    let mut r: usize = 0;
    let mut i: usize = 0;
    while i < predicted.len()
        invariant
            i <= predicted@.len(),
            predicted@.len() == actual@.len(),
            r <= i,
            r == disagreements(predicted@.take(i as int), actual@),
        decreases predicted.len() - i,
    {
        assert(predicted@.take(i as int + 1).drop_last() =~= predicted@.take(i as int));
        if predicted[i] != actual[i] {
            r = r + 1;
        }
        i = i + 1;
    }
    assert(predicted@.take(i as int) =~= predicted@);
    r
}

} // verus!
