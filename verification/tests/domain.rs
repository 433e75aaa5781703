use picmash::asset_domain::{
    can_predict, labels_may_meet, training_gate, training_status, AssetDomainLabel, AssetDomainPrediction,
    AssetDomainStatus, AssetDomainTrainingRow, AssetDomainView,
};
use picmash::config::{
    FourChanBoardSource, FourChanContentConfig, FourChanHarvestConfig, ImportPolicy,
    LocalDirectorySource, RemoteImageFilterConfig, SourceConfig, UpstreamSource,
};
use picmash::duel::QualityFormalVersion;
use picmash::model::AssetId;
use picmash::quality::{
    quality_summary, quality_summary_or_fallback, remote_quality_summary, PosteriorParts,
    PosteriorSummary, RemoteQualityParts,
};
use picmash::remote_pick::{stream_bonus_basis, StreamBonusBasis};
use picmash::scalar::Scalar;

fn scalar(value: f32) -> Scalar {
    Scalar { bits: value.to_bits() }
}

fn row(name: String, label: AssetDomainLabel, embedding: Vec<f32>) -> AssetDomainTrainingRow {
    AssetDomainTrainingRow {
        asset_id: AssetId(name),
        label,
        embedding: embedding.into_iter().map(scalar).collect(),
    }
}

fn summary(mean: f32, sigma: f32) -> PosteriorSummary {
    PosteriorSummary { mean: scalar(mean), sigma: scalar(sigma) }
}

#[test]
fn stays_cold_until_both_classes_clear_threshold() {
    let mut rows = Vec::new();
    for index in 0..10 {
        rows.push(row(format!("real-{index}"), AssetDomainLabel::Real, vec![1.0, index as f32]));
    }
    for index in 0..9 {
        rows.push(row(
            format!("anime-{index}"),
            AssetDomainLabel::Anime,
            vec![-1.0, -(index as f32)],
        ));
    }

    let gate = training_gate(&rows);
    assert_eq!(gate.status.real_labels, 10);
    assert_eq!(gate.status.anime_labels, 9);
    assert!(!gate.status.ready());
    assert!(!gate.fit);
    assert_eq!(gate.trained_status(), gate.status);
    assert_eq!(training_status(&rows), gate.status);
    assert!(!can_predict(gate.status, gate.dim, &vec![scalar(0.8), scalar(0.1)]));

    rows.push(row("anime-9".to_owned(), AssetDomainLabel::Anime, vec![-1.0, -9.0]));
    let gate = training_gate(&rows);
    assert!(gate.fit);
    assert_eq!(gate.dim, 2);
    let trained = gate.trained_status();
    assert_eq!(trained, AssetDomainStatus { real_labels: 10, anime_labels: 10, trained: true });
    assert_eq!(training_status(&rows), trained);
    assert!(can_predict(trained, gate.dim, &vec![scalar(0.8), scalar(0.1)]));
    assert!(!can_predict(trained, gate.dim, &vec![scalar(0.8)]));
}

#[test]
fn rows_that_do_not_fit_together_teach_nothing() {
    let mut rows = vec![row("a".to_owned(), AssetDomainLabel::Real, vec![1.0, 2.0])];
    assert_eq!(training_gate(&rows).status.real_labels, 1);
    rows.push(row("b".to_owned(), AssetDomainLabel::Anime, vec![1.0]));
    let gate = training_gate(&rows);
    assert_eq!((gate.dim, gate.fit, gate.status.real_labels), (0, false, 0));
    let odd = vec![row("c".to_owned(), AssetDomainLabel::Real, vec![f32::NAN])];
    assert_eq!(training_gate(&odd).dim, 0);
    assert_eq!(training_gate(&vec![]).dim, 0);
    assert_eq!(training_status(&odd), AssetDomainStatus::default());
}

#[test]
fn labels_set_by_hand_win_over_predictions() {
    let ready = AssetDomainStatus { real_labels: 10, anime_labels: 10, trained: true };
    let cold = AssetDomainStatus::default();
    let likely_anime = AssetDomainPrediction::forge(scalar(0.1));
    let view = AssetDomainView {
        manual: Some(AssetDomainLabel::Real),
        predicted: Some(likely_anime),
    };
    assert_eq!(view.pairing_label(ready), Some(AssetDomainLabel::Real));
    assert_eq!(view.pairing_label(cold), None);
    let guessed = AssetDomainView { manual: None, predicted: Some(likely_anime) };
    assert_eq!(guessed.pairing_label(ready), Some(AssetDomainLabel::Anime));
    assert_eq!(
        AssetDomainPrediction::forge(scalar(0.5)).label(),
        AssetDomainLabel::Real
    );
    assert_eq!(likely_anime.decisive_label(scalar(0.9)), Some(AssetDomainLabel::Anime));
    assert_eq!(likely_anime.decisive_label(scalar(0.7)), None);
}

#[test]
fn labels_read_as_they_are_written() {
    for label in [AssetDomainLabel::Real, AssetDomainLabel::Anime] {
        assert_eq!(AssetDomainLabel::from_name(label.as_str()), Ok(label));
    }
    assert!(AssetDomainLabel::from_name("cartoon").is_err());
    assert!(labels_may_meet(None, Some(AssetDomainLabel::Anime)));
    assert!(labels_may_meet(Some(AssetDomainLabel::Real), Some(AssetDomainLabel::Real)));
    assert!(!labels_may_meet(Some(AssetDomainLabel::Real), Some(AssetDomainLabel::Anime)));
}

#[test]
fn perturbative_quality_summary_falls_back_without_cached_posteriors() {
    let alpha = summary(1.25, 0.5);
    let quality = quality_summary_or_fallback(
        QualityFormalVersion::HierarchicalPerturbativeV3,
        scalar(1.25),
        alpha,
        None,
        None,
    );
    assert_eq!(quality.baseline.mean, scalar(1.25));
    assert!(quality.technical.is_none());
    assert!(quality.face.is_none());
    assert!(quality.asset.sigma.is_finite());
}

#[test]
fn summaries_are_taken_from_the_posteriors() {
    let parts = PosteriorParts {
        total: summary(4.0, 0.4),
        baseline: summary(1.0, 0.1),
        semantic: summary(2.0, 0.2),
        vibe: None,
        technical: Some(summary(3.0, 0.3)),
    };
    let own = summary(9.0, 0.9);
    let face = Some(summary(5.0, 0.5));
    let v3 = QualityFormalVersion::HierarchicalPerturbativeV3;
    let found = quality_summary(v3, own, Some(parts), face).expect("summary");
    assert_eq!(found.asset, parts.total);
    assert_eq!(found.baseline, parts.baseline);
    assert_eq!(found.semantic, Some(parts.semantic));
    assert_eq!(found.technical, parts.technical);
    assert_eq!(found.face, face);
    assert!(quality_summary(v3, own, None, face).is_none());
    let legacy = quality_summary(QualityFormalVersion::LegacyIndependentV1, own, None, face);
    assert_eq!(legacy.expect("legacy").asset, own);
}

#[test]
fn outside_images_without_posterior_use_priors() {
    let parts = RemoteQualityParts {
        session_score: summary(1.0, 0.1),
        session_posterior: true,
        cached: None,
        prior_baseline: summary(2.0, 0.2),
        prior_total: summary(3.0, 0.3),
        technical: Some(summary(4.0, 0.4)),
        vibe: None,
        domain: Some(AssetDomainLabel::Real),
        face: Some(summary(5.0, 0.5)),
    };
    let v3 = QualityFormalVersion::HierarchicalPerturbativeV3;
    let photo = remote_quality_summary(v3, parts);
    assert_eq!(photo.asset, parts.prior_total);
    assert_eq!(photo.technical, parts.technical);
    assert_eq!(photo.face, parts.face);
    let drawn = remote_quality_summary(
        v3,
        RemoteQualityParts { domain: Some(AssetDomainLabel::Anime), ..parts },
    );
    assert_eq!(drawn.technical, None);
    let legacy = remote_quality_summary(QualityFormalVersion::LegacyIndependentV1, parts);
    assert_eq!(legacy.asset, parts.session_score);
    assert_eq!(legacy.face, parts.face);
}

#[test]
fn local_directory_sources_do_not_get_fake_hot_thread_bonuses() {
    let now: i64 = 1_775_765_480;
    let local = SourceConfig {
        weight: scalar(1.0),
        import_policy: ImportPolicy::NotX,
        scan_interval_seconds: 60,
        upstream: UpstreamSource::LocalDirectory(LocalDirectorySource {
            root: "/tmp/picmash-local-remote".to_owned(),
            recurse: true,
            filters: RemoteImageFilterConfig::default(),
        }),
    };
    let network = SourceConfig {
        weight: scalar(1.0),
        import_policy: ImportPolicy::NotX,
        scan_interval_seconds: 60,
        upstream: UpstreamSource::FourChanBoard(FourChanBoardSource {
            board: "s".to_owned(),
            content: FourChanContentConfig::default(),
            harvest: FourChanHarvestConfig::default(),
            filters: RemoteImageFilterConfig::default(),
        }),
    };

    let local_basis = stream_bonus_basis(&local, now, now, 3_788);
    assert_eq!(stream_size(local_basis), 0.0);
    assert_eq!(freshness(local_basis), 0.0);

    let network_basis = stream_bonus_basis(&network, now, now, 300);
    assert!(stream_size(network_basis) > 0.0);
    assert!(freshness(network_basis) > 0.0);
    assert_eq!(network_basis, Some(StreamBonusBasis { image_count: 25, age_seconds: 0 }));
    assert_eq!(
        stream_bonus_basis(&network, now, now - 90, 0),
        Some(StreamBonusBasis { image_count: 1, age_seconds: 90 })
    );
    assert_eq!(
        stream_bonus_basis(&network, now, now + 90, 7),
        Some(StreamBonusBasis { image_count: 7, age_seconds: 0 })
    );
}

fn stream_size(basis: Option<StreamBonusBasis>) -> f32 {
    basis.map_or(0.0, |basis| (basis.image_count as f32).sqrt() / 5.0_f32.sqrt())
}

fn freshness(basis: Option<StreamBonusBasis>) -> f32 {
    basis.map_or(0.0, |basis| 1.0 / (1.0 + basis.age_seconds as f32 / 86_400.0 / 5.0))
}
