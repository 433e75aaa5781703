use picmash::config::{
    clamp_external_probability, clamp_facemash_min_face_side, clamp_identity_match_threshold,
    live_settings, normalize_source_weight, temporary_name, trim, AppConfig, ArenaConfig,
    ConfigError, FacemashConfig, FourChanBoardSource, FourChanContentConfig, FourChanHarvestConfig,
    IdentitiesConfig, ImportPolicy, LocalDirectorySource, RemoteImageFilterConfig, RootProbe,
    RuntimeConfig, SourceConfig, UpstreamSource,
};
use picmash::scalar::Scalar;

fn scalar(value: f32) -> Scalar {
    Scalar { bits: value.to_bits() }
}

fn source(upstream: UpstreamSource) -> SourceConfig {
    SourceConfig {
        weight: scalar(1.0),
        import_policy: ImportPolicy::NotX,
        scan_interval_seconds: 120,
        upstream,
    }
}

fn board(name: &str) -> FourChanBoardSource {
    FourChanBoardSource {
        board: name.to_owned(),
        content: FourChanContentConfig::default(),
        harvest: FourChanHarvestConfig::default(),
        filters: RemoteImageFilterConfig::default(),
    }
}

fn directory(root: &str) -> SourceConfig {
    source(UpstreamSource::LocalDirectory(LocalDirectorySource {
        root: root.to_owned(),
        recurse: true,
        filters: RemoteImageFilterConfig::default(),
    }))
}

fn with_sources(sources: Vec<SourceConfig>) -> AppConfig {
    AppConfig {
        runtime: RuntimeConfig::default(),
        arena: ArenaConfig::default(),
        facemash: FacemashConfig::default(),
        identities: IdentitiesConfig::default(),
        sources,
    }
}

fn there() -> RootProbe {
    RootProbe { exists: true, is_dir: true }
}

#[test]
fn explicit_scan_budget_round_trips() {
    let config = AppConfig {
        runtime: RuntimeConfig::default(),
        arena: ArenaConfig::default(),
        facemash: FacemashConfig::default(),
        identities: IdentitiesConfig::default(),
        sources: vec![SourceConfig {
            weight: scalar(1.0),
            import_policy: ImportPolicy::NotX,
            scan_interval_seconds: 120,
            upstream: UpstreamSource::FourChanBoard(FourChanBoardSource {
                board: "wg".to_owned(),
                content: FourChanContentConfig::default(),
                harvest: FourChanHarvestConfig {
                    catalog_threads: 20,
                    thread_fetches_per_scan: 7,
                },
                filters: RemoteImageFilterConfig::default(),
            }),
        }],
    }
    .normalized(&vec![None]);
    let source = config.sources[0].four_chan_board().expect("4chan config present");
    assert_eq!(source.harvest.catalog_thread_cap(), Some(20));
    assert_eq!(source.harvest.thread_fetch_cap(), Some(7));
}

#[test]
fn blank_bind_addr_snaps_back_to_default() {
    let config = AppConfig {
        runtime: RuntimeConfig { bind_addr: "   ".to_owned(), corpus_root: None },
        arena: ArenaConfig::default(),
        facemash: FacemashConfig::default(),
        identities: IdentitiesConfig::default(),
        sources: AppConfig::default().sources,
    }
    .normalized(&vec![None]);
    assert_eq!(config.bind_addr(), "127.0.0.1:8788");
}

#[test]
fn defaults_are_these() {
    let config = AppConfig::default();
    assert_eq!(config.external_probability(), scalar(0.10));
    assert_eq!(config.arena_explore(), scalar(0.35));
    assert_eq!(config.dedup_radius(), scalar(0.35));
    assert_eq!(config.facemash_min_face_side(), scalar(80.0));
    assert_eq!(config.identity_match_threshold(), scalar(0.35));
    assert!(config.corpus_root().is_none());
    assert_eq!(config.sources.len(), 1);
    assert_eq!(config.sources[0].source_key(), "4chan:s");
    assert_eq!(config.sources[0].display_name(), "4chan:s");
    assert_eq!(config.sources[0].source_type_name(), "4chan_board");
    assert_eq!(config.sources[0].source_locator(), "s");
    assert_eq!(FourChanHarvestConfig::default().catalog_thread_cap(), None);
}

#[test]
fn settings_are_kept_within_their_bounds() {
    assert_eq!(clamp_external_probability(scalar(2.0)), scalar(1.0));
    assert_eq!(clamp_external_probability(scalar(-2.0)), scalar(0.0));
    assert_eq!(clamp_external_probability(scalar(0.25)), scalar(0.25));
    assert_eq!(clamp_external_probability(scalar(f32::NAN)), scalar(0.10));
    assert_eq!(clamp_facemash_min_face_side(scalar(4.0)), scalar(24.0));
    assert_eq!(clamp_facemash_min_face_side(scalar(400.0)), scalar(256.0));
    assert_eq!(clamp_facemash_min_face_side(scalar(f32::INFINITY)), scalar(80.0));
    assert_eq!(clamp_identity_match_threshold(scalar(-3.0)), scalar(-1.0));
    assert_eq!(normalize_source_weight(scalar(-0.5)), scalar(1.0));
    assert_eq!(normalize_source_weight(scalar(f32::INFINITY)), scalar(1.0));
    assert_eq!(normalize_source_weight(scalar(0.0)), scalar(0.0));

    let mut config = AppConfig::default();
    config.shove_external_probability(scalar(7.0));
    config.shove_arena_explore(scalar(-1.0));
    config.shove_dedup_radius(scalar(0.5));
    config.shove_facemash_min_face_side(scalar(1.0));
    config.shove_identity_match_threshold(scalar(2.0));
    config.shove_bind_addr(" 0.0.0.0:1 ");
    config.shove_corpus_root("/images".to_owned());
    assert_eq!(config.external_probability(), scalar(1.0));
    assert_eq!(config.arena_explore(), scalar(0.0));
    assert_eq!(config.dedup_radius(), scalar(0.5));
    assert_eq!(config.facemash_min_face_side(), scalar(24.0));
    assert_eq!(config.identity_match_threshold(), scalar(1.0));
    assert_eq!(config.bind_addr(), "0.0.0.0:1");
    assert_eq!(config.corpus_root().map(|root| root.as_str()), Some("/images"));
}

#[test]
fn normalizing_settings_again_changes_nothing() {
    let mut messy = with_sources(vec![
        source(UpstreamSource::FourChanBoard(board("WG"))),
        directory("/images/."),
    ]);
    messy.arena.external_probability = scalar(9.0);
    messy.sources[0].weight = scalar(-1.0);
    let canonical = vec![None, Some("/images".to_owned())];
    let once = messy.normalized(&canonical);
    assert_eq!(once.sources[0].source_locator(), "wg");
    assert_eq!(once.sources[0].weight, scalar(1.0));
    assert_eq!(once.sources[1].source_locator(), "/images");
    assert_eq!(once.sources[1].display_name(), "dir:images");
    assert_eq!(once.sources[1].source_type_name(), "local_directory");
    let copy = once.duplicate();
    let twice = once.normalized(&canonical);
    assert_eq!(twice.sources, copy.sources);
    assert_eq!(twice.external_probability(), copy.external_probability());

    let empty = with_sources(vec![]).normalized(&vec![]);
    assert_eq!(empty.sources, AppConfig::default().sources);
}

#[test]
fn directories_are_keyed_by_the_digest_of_their_path() {
    let key = directory("/images").source_key();
    let digest = blake3::hash(b"/images").to_hex().to_string();
    assert_eq!(key, format!("local:{}", &digest[..16]));
    assert_eq!(directory("/").display_name(), "dir:/");
}

#[test]
fn every_refusal_has_its_reason() {
    assert!(AppConfig::default().validate(true, &vec![]).is_ok());
    let refused = AppConfig::default().validate(false, &vec![]).unwrap_err();
    assert_eq!(refused, ConfigError::InvalidBindAddr { bind_addr: "127.0.0.1:8788".to_owned() });
    assert_eq!(refused.message(), "parsing runtime.bind_addr `127.0.0.1:8788`");

    let mut rootless = AppConfig::default();
    rootless.runtime.corpus_root = Some("".to_owned());
    let refused = rootless.validate(true, &vec![]).unwrap_err();
    assert_eq!(refused, ConfigError::EmptyCorpusRoot);
    assert_eq!(refused.message(), "runtime.corpus_root is empty");

    let mut heavy = AppConfig::default();
    heavy.sources[0].weight = scalar(-1.0);
    assert_eq!(
        heavy.validate(true, &vec![]).unwrap_err(),
        ConfigError::InvalidSourceWeight { weight: scalar(-1.0) }
    );

    let unnamed = with_sources(vec![source(UpstreamSource::FourChanBoard(board("w g")))]);
    let refused = unnamed.validate(true, &vec![]).unwrap_err();
    assert_eq!(refused, ConfigError::InvalidBoard { board: "w g".to_owned() });
    assert_eq!(refused.message(), "invalid 4chan board name: w g");

    let mut moving = board("wsg");
    moving.content.allow_video = true;
    let refused =
        with_sources(vec![source(UpstreamSource::FourChanBoard(moving))]).validate(true, &vec![]);
    assert_eq!(refused.unwrap_err().message(), "video upstreams are not implemented yet");

    let missing = RootProbe { exists: false, is_dir: false };
    let plain = RootProbe { exists: true, is_dir: false };
    assert_eq!(
        with_sources(vec![directory("")]).validate(true, &vec![there()]).unwrap_err().message(),
        "local directory source root is empty"
    );
    assert_eq!(
        with_sources(vec![directory("/a")]).validate(true, &vec![missing]).unwrap_err().message(),
        "local directory source missing: /a"
    );
    assert_eq!(
        with_sources(vec![directory("/a")]).validate(true, &vec![plain]).unwrap_err().message(),
        "local directory source is not a directory: /a"
    );
    assert!(with_sources(vec![directory("/a")]).validate(true, &vec![there()]).is_ok());
}

#[test]
fn read_settings_come_with_the_digest_of_their_text() {
    let raw = "[arena]\nexplore = 0.5\n";
    let parsed = AppConfig::parse(AppConfig::default(), raw, &vec![], true, &vec![]);
    match parsed {
        Ok((config, digest)) => {
            assert_eq!(config.sources.len(), 1);
            assert_eq!(digest, blake3::hash(raw.as_bytes()).to_hex().to_string());
        }
        Err(error) => panic!("{}", error.message()),
    }
    assert!(AppConfig::parse(AppConfig::default(), raw, &vec![], false, &vec![]).is_err());
}

#[test]
fn written_settings_are_read_back_unchanged() {
    let mut settings = with_sources(vec![directory("/a/../b")]);
    settings.runtime.bind_addr = " 127.0.0.1:9000 ".to_owned();
    let written = settings.normalized(&vec![Some("/b".to_owned())]);
    assert_eq!(written.runtime.bind_addr, "127.0.0.1:9000");
    let again = vec![Some("/b".to_owned())];
    let raw = "the text of the settings";
    let read = AppConfig::parse(written.duplicate(), raw, &again, true, &vec![there()]);
    match read {
        Ok((config, digest)) => {
            assert_eq!(config, written);
            assert_eq!(digest, blake3::hash(raw.as_bytes()).to_hex().to_string());
        }
        Err(error) => panic!("{}", error.message()),
    }
}

#[test]
fn address_and_collection_stay_while_the_application_runs() {
    let current = RuntimeConfig::default();
    let mut candidate = AppConfig::default();
    candidate.shove_bind_addr("0.0.0.0:9");
    candidate.shove_arena_explore(scalar(0.9));
    let live = live_settings(&current, candidate);
    assert_eq!(live.bind_addr(), "127.0.0.1:8788");
    assert_eq!(live.arena_explore(), scalar(0.9));
}

#[test]
fn names_of_temporary_settings_are_hidden() {
    assert_eq!(temporary_name("config.toml", "abc"), ".config.toml.abc.tmp");
    assert_eq!(trim("\t a b \n"), "a b");
}
