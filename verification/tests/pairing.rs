use rand::{rngs::StdRng, Rng, SeedableRng};

use picmash::model::{ArenaHandle, AssetId, RemoteItemId, SessionSubsourceLock, VisualKey};
use picmash::pairing::{
    anchor_opponents, anchor_pool, choose_pair_source, cluster_around_remote,
    effective_visual_exclusions, local_pair, local_pool, locked_anchor, mixed_pair, opponents,
    pair_step, preserved_anchor, repeat_window, source_mix_regime, stream_locked, usable_pool,
    ClusterSatellite, LockedAnchor, PairDraw, PairDraws, PairStep, PairingAsset, SourceMixRegime,
};
use picmash::scalar::Scalar;
use picmash::textset::TextSet;

fn scalar(value: f32) -> Scalar {
    Scalar { bits: value.to_bits() }
}

fn asset(name: &str, look: Option<&str>) -> PairingAsset {
    PairingAsset {
        id: AssetId(name.to_owned()),
        visual_key: look.map(|key| VisualKey(key.to_owned())),
    }
}

fn texts(items: &[&str]) -> TextSet {
    let mut set = TextSet::new();
    for item in items {
        set.insert((*item).to_owned());
    }
    set
}

fn drawn_from<'a>(
    rng: &mut StdRng,
    probability: f32,
    local: Option<&'a str>,
    external: Option<&'a str>,
) -> Option<&'a str> {
    choose_pair_source(scalar(rng.random::<f32>()), scalar(probability), local, external)
}

#[test]
fn choose_pair_source_respects_probability_boundaries() {
    let mut rng = StdRng::seed_from_u64(7);
    assert_eq!(drawn_from(&mut rng, 0.0, Some("local"), Some("remote")), Some("local"));
    assert_eq!(drawn_from(&mut rng, 1.0, Some("local"), Some("remote")), Some("remote"));
    assert_eq!(drawn_from(&mut rng, 0.4, Some("local"), None), Some("local"));
    assert_eq!(drawn_from(&mut rng, 0.4, None, Some("remote")), Some("remote"));
    assert_eq!(drawn_from(&mut rng, 0.4, None, None), None);
}

#[test]
fn certain_sources_are_certain() {
    let almost_one = f32::from_bits(1.0f32.to_bits() - 1);
    for draw in [0.0, 0.5, almost_one] {
        assert_eq!(choose_pair_source(scalar(draw), scalar(1.0), Some(1), Some(2)), Some(2));
        assert_eq!(choose_pair_source(scalar(draw), scalar(0.0), Some(1), Some(2)), Some(1));
    }
    assert_eq!(choose_pair_source(scalar(0.4), scalar(0.4), Some(1), Some(2)), Some(1));
}

#[test]
fn pairs_are_drawn_from_what_was_not_shown_lately() {
    let assets = vec![
        asset("a", None),
        asset("b", Some("k")),
        asset("c", Some("l")),
        asset("d", None),
    ];
    let recent = texts(&["a"]);
    let excluded = texts(&["k"]);
    assert_eq!(usable_pool(&assets, &recent, &excluded), vec![2, 3]);
    let pool = local_pool(&assets, &recent, &excluded).expect("pool");
    let rivals = opponents(&assets, &pool, 0);
    assert_eq!(rivals, vec![3]);
    let pair = local_pair(&assets, pool[0], rivals[0]);
    assert_eq!(pair.href(), "/arena/local:c/local:d");
    assert!(local_pool(&assets, &texts(&["a", "d"]), &excluded).is_none());
    assert_eq!(anchor_pool(&assets, &texts(&["a", "d"]), &excluded), Some(vec![2]));
    assert!(anchor_pool(&assets, &texts(&["a", "c", "d"]), &excluded).is_none());
    assert_eq!(
        anchor_opponents(&assets, &AssetId("c".to_owned()), &recent, &excluded),
        Some(vec![3])
    );
    assert!(anchor_opponents(&vec![asset("a", None)], &AssetId("z".to_owned()), &TextSet::new(), &TextSet::new()).is_none());
}

#[test]
fn looks_of_the_anchor_are_not_excluded() {
    let recent = vec![VisualKey("k".to_owned()), VisualKey("l".to_owned())];
    let mut all = effective_visual_exclusions(&recent, &texts(&["m"]), None).to_vec();
    all.sort();
    assert_eq!(all, vec!["k", "l", "m"]);
    let without =
        effective_visual_exclusions(&recent, &texts(&["m"]), Some(&VisualKey("l".to_owned())));
    assert!(!without.contains(&"l".to_owned()));
    assert_eq!(repeat_window(10, 10), 0);
    assert_eq!(repeat_window(11, 10), 10);
}

#[test]
fn regimes_are_cut_at_the_ends() {
    assert_eq!(source_mix_regime(scalar(0.0)), SourceMixRegime::LocalOnly);
    assert_eq!(source_mix_regime(scalar(f32::EPSILON)), SourceMixRegime::LocalOnly);
    assert_eq!(source_mix_regime(scalar(0.1)), SourceMixRegime::Mixed);
    assert_eq!(source_mix_regime(scalar(1.0 - f32::EPSILON)), SourceMixRegime::RemoteOnly);
    assert_eq!(source_mix_regime(scalar(1.0)), SourceMixRegime::RemoteOnly);
}

#[test]
fn each_draw_is_made_once_and_in_order() {
    let none = PairDraws { outside: None, fresh: None, loose: None };
    let mixed = SourceMixRegime::Mixed;
    assert_eq!(pair_step(mixed, false, 4, none), PairStep::Draw(PairDraw::Fresh));
    let fresh = PairDraws { fresh: Some(true), ..none };
    assert_eq!(pair_step(mixed, false, 4, fresh), PairStep::Draw(PairDraw::Outside));
    let both = PairDraws { outside: Some(true), ..fresh };
    assert_eq!(pair_step(mixed, false, 4, both), PairStep::Toss);
    let local = SourceMixRegime::LocalOnly;
    let stale = PairDraws { fresh: Some(false), ..none };
    assert_eq!(pair_step(local, false, 4, stale), PairStep::Draw(PairDraw::Loose));
    assert_eq!(pair_step(local, true, 4, stale), PairStep::Nothing);
    let outside = SourceMixRegime::RemoteOnly;
    assert_eq!(pair_step(outside, false, 4, none), PairStep::Draw(PairDraw::Outside));
    assert_eq!(
        pair_step(outside, false, 4, PairDraws { outside: Some(true), ..none }),
        PairStep::Take(PairDraw::Outside)
    );
    assert_eq!(
        pair_step(outside, false, 4, PairDraws { outside: Some(false), ..none }),
        PairStep::Draw(PairDraw::Fresh)
    );
    assert_eq!(pair_step(mixed, false, 0, none), PairStep::Nothing);
}

#[test]
fn the_anchor_of_a_locked_thread_is_kept_or_drawn() {
    let assets = vec![asset("a", None), asset("b", None)];
    let a = AssetId("a".to_owned());
    let z = AssetId("z".to_owned());
    assert_eq!(preserved_anchor(&assets, Some(&a)), Some(0));
    assert_eq!(preserved_anchor(&assets, Some(&z)), None);
    let nothing = TextSet::new();
    assert!(matches!(locked_anchor(&assets, Some(&a), &texts(&["a"]), &nothing), LockedAnchor::Given(0)));
    match locked_anchor(&assets, Some(&z), &texts(&["a"]), &nothing) {
        LockedAnchor::DrawFrom(pool) => assert_eq!(pool, vec![1]),
        anchor => panic!("{anchor:?}"),
    }
    assert!(matches!(
        locked_anchor(&assets, None, &texts(&["a", "b"]), &nothing),
        LockedAnchor::Nothing
    ));
    let lock = SessionSubsourceLock { source_key: "4chan:s".to_owned(), stream_id: 4 };
    assert!(stream_locked(Some(&lock), "4chan:s", 4));
    assert!(!stream_locked(Some(&lock), "4chan:s", 5));
    assert!(!stream_locked(None, "4chan:s", 4));
    let local = ArenaHandle::Local(a);
    let remote = ArenaHandle::Remote(RemoteItemId(3));
    assert_eq!(mixed_pair(&remote, &local).map(|pair| pair.1), Some(RemoteItemId(3)));
    assert!(mixed_pair(&local, &local).is_none());
}

#[test]
fn look_alikes_come_closest_first() {
    let satellite = |item: i64, distance: f32, available: bool| ClusterSatellite {
        item_id: RemoteItemId(item),
        distance: scalar(distance),
        available,
    };
    let mut found = vec![
        satellite(1, 0.0, true),
        satellite(5, 0.2, true),
        satellite(4, 0.2, true),
        satellite(3, 0.1, false),
        satellite(2, 0.1, true),
    ];
    let ids = |cluster: Option<Vec<ClusterSatellite>>| {
        cluster.map(|all| all.into_iter().map(|one| one.item_id.0).collect::<Vec<i64>>())
    };
    assert_eq!(
        ids(cluster_around_remote(RemoteItemId(1), scalar(0.35), &found)),
        Some(vec![2, 4, 5])
    );
    assert_eq!(ids(cluster_around_remote(RemoteItemId(1), scalar(0.0), &found)), None);
    for item in 10..30 {
        found.push(satellite(item, 0.3, true));
    }
    let many = cluster_around_remote(RemoteItemId(1), scalar(0.35), &found).expect("cluster");
    assert_eq!(many.len(), 12);
    assert!(cluster_around_remote(RemoteItemId(1), scalar(0.35), &vec![satellite(1, 0.0, true)]).is_none());
}
