//! What is exchanged with the pages.
use crate::asset_domain::AssetDomainLabel;
use crate::explore::AssetTriad;
use crate::model::{AssetId, SimilarityChoice};
use vstd::prelude::*;

verus! {

/// Three images by their names.
#[derive(Debug)]
pub struct TriadHandleDto {
    pub asset_a_id: String,
    pub asset_b_id: String,
    pub asset_c_id: String,
}

impl TriadHandleDto {
    /// The three images that are named.
    pub fn triad(&self) -> (r: AssetTriad)
        ensures
            r.a@ == self.asset_a_id@,
            r.b@ == self.asset_b_id@,
            r.c@ == self.asset_c_id@,
    {
        AssetTriad {
            a: AssetId(self.asset_a_id.clone()),
            b: AssetId(self.asset_b_id.clone()),
            c: AssetId(self.asset_c_id.clone()),
        }
    }

    /// The names of three images.
    pub fn of(triad: &AssetTriad) -> (r: Self)
        ensures
            r.asset_a_id@ == triad.a@,
            r.asset_b_id@ == triad.b@,
            r.asset_c_id@ == triad.c@,
    {
        TriadHandleDto {
            asset_a_id: triad.a.0.clone(),
            asset_b_id: triad.b.0.clone(),
            asset_c_id: triad.c.0.clone(),
        }
    }
}

/// What kind of picture an image is.
#[derive(Debug, Clone, Copy, PartialEq, Eq, Structural)]
pub struct AssetDomainSummaryDto {
    pub manual_label: Option<AssetDomainLabel>,
    pub predicted_label: Option<AssetDomainLabel>,
    pub predicted_percent: Option<u8>,
}

/// Which two of three images are the most alike.
#[derive(Debug)]
pub struct TriadTrainRequestDto {
    pub triad: TriadHandleDto,
    pub choice: SimilarityChoice,
}

/// An image is to be turned.
#[derive(Debug)]
pub struct RotateAssetRequestDto {
    pub asset_id: String,
    pub direction: i32,
}

/// An image is to be hidden.
#[derive(Debug)]
pub struct HideAssetRequestDto {
    pub asset_id: String,
}

/// An image is hearted.
#[derive(Debug)]
pub struct HeartAssetRequestDto {
    pub asset_id: String,
    pub active: bool,
}

/// An image is said to be of a kind.
#[derive(Debug)]
pub struct AssetDomainRequestDto {
    pub asset_id: String,
    pub label: AssetDomainLabel,
}

} // verus!
