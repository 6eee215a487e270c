//! The loss evaluator: combines all graph outputs with matching targets
//! into one scalar loss, by a rank- and width-dependent policy.
//!
//! A rank-2 prediction of width 1 is scored as regression (mean squared
//! error); a wider rank-2 prediction as multi-class classification
//! (categorical cross-entropy against the target's single column of
//! class indices); a rank-4 pair as elementwise mean squared error. The
//! total is the sum of the per-output losses.

use vstd::prelude::*;

use crate::backend::{
    add1, ce2_of, ce2_ok, cross_entropy2, finite2, finite4, mse2, mse2_of, mse2_ok, mse4, mse4_of,
    mse4_ok, non_negative1, spec_dims2, sum1_of, tensor2_dims, Tensor1,
};
use crate::entities::{DynamicTensor, GraphModel, LossError};

verus! {

/// Whether a prediction and its target pair ranks that some loss policy
/// covers.
pub open spec fn loss_rank_compatible(p: DynamicTensor, t: DynamicTensor) -> bool {
    p.spec_rank() == t.spec_rank()
}

/// The loss one pair contributes, by the policy: a rank-2 prediction of
/// width 1 is scored as regression (mean squared error), a wider rank-2
/// prediction as classification (cross-entropy against the target's
/// class indices), a rank-4 pair elementwise as mean squared error.
/// Unspecified for rank pairings the policy does not cover.
pub open spec fn spec_pair_loss(p: DynamicTensor, t: DynamicTensor) -> Tensor1 {
    match (p, t) {
        (DynamicTensor::Dim2(pp), DynamicTensor::Dim2(tt)) => if spec_dims2(pp).1 == 1 {
            mse2_of(pp, tt)
        } else {
            ce2_of(pp, tt)
        },
        (DynamicTensor::Dim4(pp), DynamicTensor::Dim4(tt)) => mse4_of(pp, tt),
        (DynamicTensor::Dim2(pp), DynamicTensor::Dim4(tt)) => vstd::pervasive::arbitrary(),
        (DynamicTensor::Dim4(pp), DynamicTensor::Dim2(tt)) => vstd::pervasive::arbitrary(),
    }
}

/// The total loss: the per-pair losses summed in output order.
pub open spec fn spec_total_loss(preds: Seq<DynamicTensor>, targets: Seq<DynamicTensor>) -> Tensor1
    decreases preds.len(),
{
    if preds.len() <= 1 {
        spec_pair_loss(preds[0], targets[0])
    } else {
        sum1_of(
            spec_total_loss(preds.drop_last(), targets.drop_last()),
            spec_pair_loss(preds.last(), targets.last()),
        )
    }
}

/// Whether a pair is owed a score: under the regression branches,
/// equal non-empty extents; under the classification branch, a
/// matching target column with every class index in range.
pub open spec fn pair_scoreable(p: DynamicTensor, t: DynamicTensor) -> bool {
    match (p, t) {
        (DynamicTensor::Dim2(pp), DynamicTensor::Dim2(tt)) => if spec_dims2(pp).1 == 1 {
            mse2_ok(pp, tt)
        } else {
            ce2_ok(pp, tt)
        },
        (DynamicTensor::Dim4(pp), DynamicTensor::Dim4(tt)) => mse4_ok(pp, tt),
        _ => false,
    }
}

/// Whether both sides of a pair hold only finite entries (the
/// condition under which a loss is a sum of non-negative terms).
pub open spec fn pair_finite(p: DynamicTensor, t: DynamicTensor) -> bool {
    match (p, t) {
        (DynamicTensor::Dim2(pp), DynamicTensor::Dim2(tt)) => finite2(pp) && finite2(tt),
        (DynamicTensor::Dim4(pp), DynamicTensor::Dim4(tt)) => finite4(pp) && finite4(tt),
        _ => true,
    }
}

impl GraphModel {
    /// The total loss over all output pairs. Fails with `NoOutputs`
    /// exactly when the prediction list is empty, and with
    /// `UnsupportedLossShape` whenever some pair's ranks differ (or a
    /// pair's extents do not fit its policy).
    pub fn compute_loss(
        &self,
        predictions: &Vec<DynamicTensor>,
        targets: &Vec<DynamicTensor>,
    ) -> (r: Result<Tensor1, LossError>)
        requires
            predictions@.len() == targets@.len(),
        ensures
            (predictions@.len() == 0) <==> (r matches Err(e) && e is NoOutputs),
            r matches Ok(total) ==> total == spec_total_loss(predictions@, targets@),
            r matches Ok(total) ==> ((forall|i: int|
                0 <= i < predictions@.len() ==> pair_finite(
                    #[trigger] predictions@[i],
                    targets@[i],
                )) ==> non_negative1(total)),
            r is Ok ==> forall|i: int|
                0 <= i < predictions@.len() ==> loss_rank_compatible(
                    #[trigger] predictions@[i],
                    targets@[i],
                ),
            (exists|i: int|
                0 <= i < predictions@.len() && !loss_rank_compatible(
                    #[trigger] predictions@[i],
                    targets@[i],
                )) ==> (r matches Err(e) && e is UnsupportedLossShape),
            r matches Err(e) ==> (e matches LossError::UnsupportedLossShape { index } ==> index
                < predictions@.len()),
            (predictions@.len() > 0 && (forall|i: int|
                0 <= i < predictions@.len() ==> pair_scoreable(
                    #[trigger] predictions@[i],
                    targets@[i],
                ))) ==> r is Ok,
    {
        let n = predictions.len();
        if n == 0 {
            return Err(LossError::NoOutputs);
        }
        let mut acc: Option<Tensor1> = None;
        let mut i: usize = 0;
        while i < n
            invariant
                i <= n,
                n == predictions@.len(),
                n == targets@.len(),
                n > 0,
                forall|j: int|
                    0 <= j < i ==> loss_rank_compatible(#[trigger] predictions@[j], targets@[j]),
                acc is Some <==> i > 0,
                i > 0 ==> (acc matches Some(a) && a == spec_total_loss(
                    predictions@.take(i as int),
                    targets@.take(i as int),
                ) && ((forall|j: int|
                    0 <= j < i ==> pair_finite(#[trigger] predictions@[j], targets@[j]))
                    ==> non_negative1(a))),
            decreases n - i,
        {
            proof {
                assert(predictions@.take(i + 1).drop_last() =~= predictions@.take(i as int));
                assert(targets@.take(i + 1).drop_last() =~= targets@.take(i as int));
                assert(predictions@.take(i + 1).last() == predictions@[i as int]);
                assert(targets@.take(i + 1).last() == targets@[i as int]);
                assert(predictions@.take(i + 1)[0] == predictions@[0]);
                assert(targets@.take(i + 1)[0] == targets@[0]);
            }
            let current = match (&predictions[i], &targets[i]) {
                (DynamicTensor::Dim2(p), DynamicTensor::Dim2(t)) => {
                    let (_batch, out_features) = tensor2_dims(p);
                    if out_features == 1 {
                        match mse2(p, t) {
                            Some(l) => l,
                            None => {
                                return Err(LossError::UnsupportedLossShape { index: i });
                            },
                        }
                    } else {
                        match cross_entropy2(p, t) {
                            Some(l) => l,
                            None => {
                                return Err(LossError::UnsupportedLossShape { index: i });
                            },
                        }
                    }
                },
                (DynamicTensor::Dim4(p), DynamicTensor::Dim4(t)) => {
                    match mse4(p, t) {
                        Some(l) => l,
                        None => {
                            return Err(LossError::UnsupportedLossShape { index: i });
                        },
                    }
                },
                _ => {
                    return Err(LossError::UnsupportedLossShape { index: i });
                },
            };
            acc = match acc {
                Some(a) => Some(add1(a, current)),
                None => Some(current),
            };
            i += 1;
        }
        proof {
            assert(predictions@.take(n as int) =~= predictions@);
            assert(targets@.take(n as int) =~= targets@);
        }
        match acc {
            Some(total) => Ok(total),
            None => {
                proof {
                    assert(false);
                }
                Err(LossError::NoOutputs)
            },
        }
    }
}

/// How many positions of two label lists agree: the accuracy
/// bookkeeping of an evaluation pass, over the class labels the caller
/// read out of its tensors.
pub fn count_label_matches(predicted: &Vec<i64>, expected: &Vec<i64>) -> (r: usize)
    requires
        predicted@.len() == expected@.len(),
    ensures
        r == spec_label_matches(predicted@, expected@),
        r <= predicted@.len(),
{
    let mut correct: usize = 0;
    let mut i: usize = 0;
    while i < predicted.len()
        invariant
            i <= predicted@.len(),
            predicted@.len() == expected@.len(),
            correct == spec_label_matches(predicted@.take(i as int), expected@.take(i as int)),
            correct <= i,
        decreases predicted@.len() - i,
    {
        proof {
            assert(predicted@.take(i + 1).drop_last() =~= predicted@.take(i as int));
            assert(expected@.take(i + 1).drop_last() =~= expected@.take(i as int));
        }
        if predicted[i] == expected[i] {
            correct += 1;
        }
        i += 1;
    }
    proof {
        assert(predicted@.take(predicted@.len() as int) =~= predicted@);
        assert(expected@.take(expected@.len() as int) =~= expected@);
    }
    correct
}

/// The number of agreeing positions.
pub open spec fn spec_label_matches(predicted: Seq<i64>, expected: Seq<i64>) -> nat
    decreases predicted.len(),
{
    if predicted.len() == 0 {
        0
    } else {
        spec_label_matches(predicted.drop_last(), expected.drop_last()) + if predicted.last()
            == expected.last() {
            1nat
        } else {
            0nat
        }
    }
}

} // verus!
