//! What is said of the quality of an image: which parts the summary has under each quality model.
//! The numbers of the parts are computed by the caller.
use crate::asset_domain::AssetDomainLabel;
use crate::duel::QualityFormalVersion;
use crate::remote_pick;
use crate::remote_pick::RemoteSummarySource;
use crate::scalar::Scalar;
use vstd::prelude::*;

verus! {

/// A guess of a number, and how far off it may be.
#[derive(Debug, Clone, Copy, PartialEq, Eq, Structural)]
pub struct PosteriorSummary {
    pub mean: Scalar,
    pub sigma: Scalar,
}

/// What is said of the quality of an image.
#[derive(Debug, Clone, Copy, PartialEq, Eq, Structural)]
pub struct AssetQualitySummary {
    pub asset: PosteriorSummary,
    pub baseline: PosteriorSummary,
    pub semantic: Option<PosteriorSummary>,
    pub vibe: Option<PosteriorSummary>,
    pub technical: Option<PosteriorSummary>,
    pub face: Option<PosteriorSummary>,
}

/// What the posteriors of an image and of the session say together.
#[derive(Debug, Clone, Copy, PartialEq, Eq, Structural)]
pub struct PosteriorParts {
    pub total: PosteriorSummary,
    pub baseline: PosteriorSummary,
    pub semantic: PosteriorSummary,
    pub vibe: Option<PosteriorSummary>,
    pub technical: Option<PosteriorSummary>,
}

/// A summary of one guess alone.
pub open spec fn plain_summary(
    asset: PosteriorSummary,
    baseline: PosteriorSummary,
    face: Option<PosteriorSummary>,
) -> AssetQualitySummary {
    AssetQualitySummary { asset, baseline, semantic: None, vibe: None, technical: None, face }
}

/// The summary of what posteriors say.
pub open spec fn full_summary(parts: PosteriorParts, face: Option<PosteriorSummary>) -> AssetQualitySummary {
    AssetQualitySummary {
        asset: parts.total,
        baseline: parts.baseline,
        semantic: Some(parts.semantic),
        vibe: parts.vibe,
        technical: parts.technical,
        face,
    }
}

fn summarise(parts: PosteriorParts, face: Option<PosteriorSummary>) -> (r: AssetQualitySummary)
    ensures
        r == full_summary(parts, face),
{
    AssetQualitySummary {
        asset: parts.total,
        baseline: parts.baseline,
        semantic: Some(parts.semantic),
        vibe: parts.vibe,
        technical: parts.technical,
        face,
    }
}

/// What is said of the quality of an image of the collection. Under the oldest model this is the
/// image's own score; under the others it needs the posteriors of the image and of the session,
/// and `parts` is none where one of them is missing.
pub open spec fn quality_summary_of(
    quality_model: QualityFormalVersion,
    own_score: PosteriorSummary,
    parts: Option<PosteriorParts>,
    face: Option<PosteriorSummary>,
) -> Option<AssetQualitySummary> {
    if quality_model == QualityFormalVersion::LegacyIndependentV1 {
        Some(plain_summary(own_score, own_score, face))
    } else {
        match parts {
            None => None,
            Some(parts) => Some(full_summary(parts, face)),
        }
    }
}

/// What is said of the quality of an image of the collection.
pub fn quality_summary(
    quality_model: QualityFormalVersion,
    own_score: PosteriorSummary,
    parts: Option<PosteriorParts>,
    face: Option<PosteriorSummary>,
) -> (r: Option<AssetQualitySummary>)
    ensures
        r == quality_summary_of(quality_model, own_score, parts, face),
{
    match quality_model {
        QualityFormalVersion::LegacyIndependentV1 => Some(
            AssetQualitySummary {
                asset: own_score,
                baseline: own_score,
                semantic: None,
                vibe: None,
                technical: None,
                face,
            },
        ),
        _ => match parts {
            None => None,
            Some(parts) => Some(summarise(parts, face)),
        },
    }
}

/// What is said of the quality of an image where a posterior is missing: its score in the session,
/// as sure as its own score is.
pub fn fallback_quality_summary(
    utility: Scalar,
    own_score: PosteriorSummary,
    face: Option<PosteriorSummary>,
) -> (r: AssetQualitySummary)
    ensures
        r == plain_summary(
            PosteriorSummary { mean: utility, sigma: own_score.sigma },
            own_score,
            face,
        ),
{
    AssetQualitySummary {
        asset: PosteriorSummary { mean: utility, sigma: own_score.sigma },
        baseline: own_score,
        semantic: None,
        vibe: None,
        technical: None,
        face,
    }
}

/// What is said of the quality of an image of the collection, whether or not its posteriors are
/// there.
pub fn quality_summary_or_fallback(
    quality_model: QualityFormalVersion,
    utility: Scalar,
    own_score: PosteriorSummary,
    parts: Option<PosteriorParts>,
    face: Option<PosteriorSummary>,
) -> (r: AssetQualitySummary)
    ensures
        r == match quality_summary_of(quality_model, own_score, parts, face) {
            Some(summary) => summary,
            None => plain_summary(
                PosteriorSummary { mean: utility, sigma: own_score.sigma },
                own_score,
                face,
            ),
        },
{
    match quality_summary(quality_model, own_score, parts, face) {
        Some(summary) => summary,
        None => fallback_quality_summary(utility, own_score, face),
    }
}

/// What the summary of an outside image is made from.
#[derive(Debug, Clone, Copy, PartialEq, Eq, Structural)]
pub struct RemoteQualityParts {
    /// The score by the session's own model over embeddings.
    pub session_score: PosteriorSummary,
    /// The session has a posterior under the quality model.
    pub session_posterior: bool,
    /// What a stored posterior of the image says.
    pub cached: Option<PosteriorParts>,
    pub prior_baseline: PosteriorSummary,
    /// The sum of the priors that count for the image.
    pub prior_total: PosteriorSummary,
    /// The priors from the features of the image, if it has features.
    pub technical: Option<PosteriorSummary>,
    pub vibe: Option<PosteriorSummary>,
    pub domain: Option<AssetDomainLabel>,
    pub face: Option<PosteriorSummary>,
}

/// Where the summary of an outside image comes from.
pub open spec fn remote_source_of(
    quality_model: QualityFormalVersion,
    parts: RemoteQualityParts,
) -> RemoteSummarySource {
    remote_pick::remote_summary_source_of(
        quality_model,
        parts.session_posterior,
        parts.cached is Some,
        parts.domain,
        parts.technical is Some,
    )
}

/// What is said of the quality of an outside image.
pub open spec fn remote_quality_summary_of(
    quality_model: QualityFormalVersion,
    parts: RemoteQualityParts,
) -> AssetQualitySummary {
    match remote_source_of(quality_model, parts) {
        RemoteSummarySource::Legacy => plain_summary(
            parts.session_score,
            parts.session_score,
            parts.face,
        ),
        RemoteSummarySource::Baseline => plain_summary(
            parts.prior_baseline,
            parts.prior_baseline,
            parts.face,
        ),
        RemoteSummarySource::HierarchicalCache => full_summary(parts.cached.unwrap(), parts.face),
        RemoteSummarySource::PerturbativeCache => full_summary(parts.cached.unwrap(), parts.face),
        RemoteSummarySource::HierarchicalPrior { technical, vibe } => AssetQualitySummary {
            asset: parts.prior_total,
            baseline: parts.prior_baseline,
            semantic: None,
            vibe: if vibe {
                parts.vibe
            } else {
                None
            },
            technical: if technical {
                parts.technical
            } else {
                None
            },
            face: parts.face,
        },
        RemoteSummarySource::PerturbativePrior { technical, domain } => AssetQualitySummary {
            asset: parts.prior_total,
            baseline: parts.prior_baseline,
            semantic: None,
            vibe: None,
            technical: if technical {
                parts.technical
            } else {
                None
            },
            face: parts.face,
        },
    }
}

/// What is said of the quality of an outside image.
pub fn remote_quality_summary(quality_model: QualityFormalVersion, parts: RemoteQualityParts) -> (r:
    AssetQualitySummary)
    ensures
        r == remote_quality_summary_of(quality_model, parts),
{
    let source = remote_pick::remote_summary_source(
        quality_model,
        parts.session_posterior,
        parts.cached.is_some(),
        parts.domain,
        parts.technical.is_some(),
    );
    let mut r = AssetQualitySummary {
        asset: parts.prior_total,
        baseline: parts.prior_baseline,
        semantic: None,
        vibe: None,
        technical: None,
        face: parts.face,
    };
    match source {
        RemoteSummarySource::Legacy => {
            r.asset = parts.session_score;
            r.baseline = parts.session_score;
        },
        RemoteSummarySource::Baseline => {
            r.asset = parts.prior_baseline;
        },
        RemoteSummarySource::HierarchicalPrior { technical, vibe } => {
            if technical {
                r.technical = parts.technical;
            }
            if vibe {
                r.vibe = parts.vibe;
            }
        },
        RemoteSummarySource::PerturbativePrior { technical, .. } => {
            if technical {
                r.technical = parts.technical;
            }
        },
        _ => {
            match parts.cached {
                Some(cached) => {
                    r = summarise(cached, parts.face);
                },
                None => {},
            }
        },
    }
    r
}

/// Drawn pictures get neither a technical prior nor a mood: what these were learned from is
/// photographs.
pub proof fn only_photographs_have_feature_priors(
    quality_model: QualityFormalVersion,
    parts: RemoteQualityParts,
)
    requires
        parts.cached is None,
        parts.domain != Some(AssetDomainLabel::Real),
    ensures
        remote_quality_summary_of(quality_model, parts).technical is None,
        remote_quality_summary_of(quality_model, parts).vibe is None,
{
}

/// What is known of a face is said under every model.
pub proof fn faces_always_count(
    quality_model: QualityFormalVersion,
    own_score: PosteriorSummary,
    local: Option<PosteriorParts>,
    face: Option<PosteriorSummary>,
    parts: RemoteQualityParts,
)
    ensures
        remote_quality_summary_of(quality_model, parts).face == parts.face,
        quality_summary_of(quality_model, own_score, local, face) matches Some(summary) ==> summary.face
            == face,
{
}

} // verus!
