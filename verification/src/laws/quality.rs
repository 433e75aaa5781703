//! What is said of the quality of images.
use crate::asset_domain::AssetDomainLabel;
use crate::duel::QualityFormalVersion;
use crate::quality;
use crate::quality::{AssetQualitySummary, PosteriorParts, PosteriorSummary, RemoteQualityParts};
use vstd::prelude::*;

verus! {

/// Under the oldest model an image of the collection is summarised by its own score alone; under the
/// others by what the posteriors say, and not at all where one of them is missing.
pub proof fn images_are_summarised_by_their_model(
    quality_model: QualityFormalVersion,
    own_score: PosteriorSummary,
    parts: Option<PosteriorParts>,
    face: Option<PosteriorSummary>,
)
    ensures
        ({
            let r = quality::quality_summary_of(quality_model, own_score, parts, face);
            let oldest = quality_model is LegacyIndependentV1;
            &&& r is None <==> !oldest && parts is None
            &&& oldest ==> r == Some(
                AssetQualitySummary {
                    asset: own_score,
                    baseline: own_score,
                    semantic: None,
                    vibe: None,
                    technical: None,
                    face,
                },
            )
            &&& !oldest && parts is Some ==> r == Some(
                AssetQualitySummary {
                    asset: parts->0.total,
                    baseline: parts->0.baseline,
                    semantic: Some(parts->0.semantic),
                    vibe: parts->0.vibe,
                    technical: parts->0.technical,
                    face,
                },
            )
        }),
{
    assert(quality_model == QualityFormalVersion::LegacyIndependentV1 <==> quality_model
        is LegacyIndependentV1);
}

/// A score stands alone: as what is said of the image and as the baseline it is given.
pub proof fn plain_summaries_hold_one_guess(
    asset: PosteriorSummary,
    baseline: PosteriorSummary,
    face: Option<PosteriorSummary>,
)
    ensures
        ({
            let r = quality::plain_summary(asset, baseline, face);
            &&& r.asset == asset && r.baseline == baseline && r.face == face
            &&& r.semantic is None && r.vibe is None && r.technical is None
        }),
{
}

/// An outside image is summarised by the session's own score under the oldest model, by the baseline
/// while the session has no posterior, by its stored posterior where there is one, and else by priors:
/// the technical one and the mood for photographs only, and the mood under the layered model only.
pub proof fn outside_images_are_summarised_by_what_is_known(
    quality_model: QualityFormalVersion,
    parts: RemoteQualityParts,
)
    ensures
        ({
            let r = quality::remote_quality_summary_of(quality_model, parts);
            let oldest = quality_model is LegacyIndependentV1;
            let layered = quality_model is HierarchicalGaussianV1;
            let photo = parts.domain == Some(AssetDomainLabel::Real);
            let cached = !oldest && parts.session_posterior && parts.cached is Some;
            let prior = !oldest && parts.session_posterior && parts.cached is None;
            &&& r.face == parts.face
            &&& oldest ==> r.asset == parts.session_score && r.baseline == parts.session_score
            &&& !oldest && !parts.session_posterior ==> r.asset == parts.prior_baseline && r.baseline
                == parts.prior_baseline
            &&& cached ==> {
                &&& r.asset == parts.cached->0.total
                &&& r.baseline == parts.cached->0.baseline
                &&& r.semantic == Some(parts.cached->0.semantic)
                &&& r.vibe == parts.cached->0.vibe
                &&& r.technical == parts.cached->0.technical
            }
            &&& prior ==> {
                &&& r.asset == parts.prior_total
                &&& r.baseline == parts.prior_baseline
                &&& r.semantic is None
                &&& photo ==> r.technical == parts.technical
                &&& !photo ==> r.technical is None
                &&& photo && layered && parts.technical is Some ==> r.vibe == parts.vibe
                &&& !photo || !layered || parts.technical is None ==> r.vibe is None
            }
            &&& !cached && !prior ==> r.semantic is None && r.vibe is None && r.technical is None
        }),
{
    assert(quality_model == QualityFormalVersion::LegacyIndependentV1 <==> quality_model
        is LegacyIndependentV1);
    assert(quality_model == QualityFormalVersion::HierarchicalGaussianV1 <==> quality_model
        is HierarchicalGaussianV1);
}

} // verus!
