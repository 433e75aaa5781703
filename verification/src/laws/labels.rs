//! What images show, and whom they meet.
use crate::asset_domain;
use crate::asset_domain::{
    AssetDomainLabel, AssetDomainPrediction, AssetDomainTrainingRow, AssetDomainView,
};
use crate::scalar::Scalar;
use vstd::prelude::*;

verus! {

/// Images meet unless one is known to be a photograph and the other to be a drawing.
pub proof fn photographs_do_not_meet_drawings(
    left: Option<AssetDomainLabel>,
    right: Option<AssetDomainLabel>,
)
    ensures
        asset_domain::may_meet(left, right) <==> !(left == Some(AssetDomainLabel::Real) && right == Some(
            AssetDomainLabel::Anime,
        )) && !(left == Some(AssetDomainLabel::Anime) && right == Some(AssetDomainLabel::Real)),
{
    if let (Some(a), Some(b)) = (left, right) {
        assert(a == AssetDomainLabel::Real || a == AssetDomainLabel::Anime);
        assert(b == AssetDomainLabel::Real || b == AssetDomainLabel::Anime);
    }
}

/// An image is likelier a photograph where its probability is a number of at least one half, and a
/// drawing where it is smaller or no number.
pub proof fn one_half_leans_to_photographs(prediction: AssetDomainPrediction)
    ensures
        ({
            let p = prediction.real_probability;
            let half = Scalar { bits: 0x3f00_0000 };
            &&& prediction.likelier() is Real <==> !p.nan() && p.order() >= half.order()
            &&& prediction.likelier() is Anime <==> p.nan() || p.order() < half.order()
        }),
{
}

/// What counts is the label by hand; without one the likelier label, and without a prediction none.
pub proof fn predictions_stand_in_for_labels(view: AssetDomainView)
    ensures
        view.manual is Some ==> view.effective() == view.manual,
        view.manual is None && view.predicted is None ==> view.effective() is None,
        view.manual is None ==> match view.predicted {
            Some(prediction) => view.effective() == Some(prediction.likelier()),
            None => true,
        },
{
}

/// As many rows are counted for a label as have it.
pub proof fn labels_are_counted_row_by_row(rows: Seq<AssetDomainTrainingRow>, label: AssetDomainLabel)
    ensures
        asset_domain::labelled(rows, label) == rows.filter(
            |row: AssetDomainTrainingRow| row.label == label,
        ).len(),
    decreases rows.len(),
{
    reveal(Seq::filter);
    if rows.len() > 0 {
        labels_are_counted_row_by_row(rows.drop_last(), label);
    }
}

/// The kinds are told apart from ten or more rows of each, described by equally many numbers, at
/// least one, all of them finite; and from nothing less.
pub proof fn ten_labels_of_each_kind_tell_them_apart(rows: Seq<AssetDomainTrainingRow>)
    ensures
        asset_domain::tells_apart(rows) <==> {
            &&& rows.filter(|row: AssetDomainTrainingRow| row.label is Real).len() >= 10
            &&& rows.filter(|row: AssetDomainTrainingRow| row.label is Anime).len() >= 10
            &&& rows[0].embedding@.len() > 0
            &&& forall|i: int|
                0 <= i < rows.len() ==> (#[trigger] rows[i]).embedding@.len() == rows[0].embedding@.len()
            &&& forall|i: int, k: int|
                0 <= i < rows.len() && 0 <= k < rows[i].embedding@.len() ==> (
                #[trigger] rows[i].embedding@[k]).finite()
        },
{
    labels_are_counted_row_by_row(rows, AssetDomainLabel::Real);
    labels_are_counted_row_by_row(rows, AssetDomainLabel::Anime);
    let photographs = |row: AssetDomainTrainingRow| row.label is Real;
    let drawings = |row: AssetDomainTrainingRow| row.label is Anime;
    assert(photographs =~= |row: AssetDomainTrainingRow| row.label == AssetDomainLabel::Real);
    assert(drawings =~= |row: AssetDomainTrainingRow| row.label == AssetDomainLabel::Anime);
    if rows.len() == 0 {
        reveal(Seq::filter);
    }
    if asset_domain::tells_apart(rows) {
        assert forall|i: int, k: int|
            0 <= i < rows.len() && 0 <= k < rows[i].embedding@.len() implies (
        #[trigger] rows[i].embedding@[k]).finite() by {
            assert(asset_domain::all_finite(rows[i].embedding@));
        }
    }
}

} // verus!
