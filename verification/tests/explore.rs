use std::collections::HashSet;

use picmash::api::TriadHandleDto;
use picmash::explore::{
    cache_still_holds, can_train, canonical_triad, choose_similarity_triad, draw_fallback_triad,
    draw_triad_anchors, explore_ids, explore_target, is_text_below, nearest_neighbors,
    ordinal_bootstrap_due, recent_count, repeat_counts, selection_focus, shuffled,
    similarity_source, triad_anchors, triad_candidates, triad_contenders, triad_pairs,
    triad_shortlist, AssetTriad, SimilaritySource, StoredSimilarity,
};
use picmash::model::{AssetId, ExploreMapMode};
use picmash::scalar::Scalar;
use picmash::textset::TextSet;

fn scalar(value: f32) -> Scalar {
    Scalar { bits: value.to_bits() }
}

fn id(name: &str) -> AssetId {
    AssetId(name.to_owned())
}

fn ids(names: &[&str]) -> Vec<AssetId> {
    names.iter().map(|name| id(name)).collect()
}

fn triad(a: &str, b: &str, c: &str) -> AssetTriad {
    AssetTriad { a: id(a), b: id(b), c: id(c) }
}

fn texts(items: &[&str]) -> TextSet {
    let mut set = TextSet::new();
    for item in items {
        set.insert((*item).to_owned());
    }
    set
}

#[test]
fn images_with_a_description_are_listed_by_name() {
    let visible = ids(&["c", "a", "b"]);
    assert_eq!(explore_ids(&visible, &texts(&["c", "a"])), vec![1, 0]);
    assert!(is_text_below("a", "ab"));
    assert!(is_text_below("Z", "a"));
    assert!(!is_text_below("a", "a"));
    assert!(cache_still_holds(&ids(&["a", "b"]), &ids(&["a", "b"])));
    assert!(!cache_still_holds(&ids(&["a", "b"]), &ids(&["b", "a"])));
    assert!(!cache_still_holds(&ids(&["a"]), &ids(&["a", "b"])));
}

#[test]
fn stored_similarity_is_used_where_it_fits() {
    let stored = Some(StoredSimilarity { dim: 4, viable: true });
    assert_eq!(similarity_source(9, 4, stored), SimilaritySource::Stored);
    assert_eq!(similarity_source(9, 5, stored), SimilaritySource::Seeded);
    assert_eq!(
        similarity_source(9, 4, Some(StoredSimilarity { dim: 4, viable: false })),
        SimilaritySource::Seeded
    );
    assert_eq!(similarity_source(9, 4, None), SimilaritySource::Seeded);
    assert_eq!(similarity_source(0, 4, stored), SimilaritySource::Nothing);
    assert!(ordinal_bootstrap_due(3, 1, 4, false));
    assert!(!ordinal_bootstrap_due(3, 0, 4, false));
    assert!(!ordinal_bootstrap_due(9, 9, 4, true));
    assert!(ordinal_bootstrap_due(usize::MAX, usize::MAX, usize::MAX, false));
}

#[test]
fn neighbors_come_closest_first_and_without_the_focus() {
    let names = ids(&["a", "b", "c", "d"]);
    let distances = vec![Some(scalar(0.0)), Some(scalar(0.4)), None, Some(scalar(0.1))];
    assert_eq!(nearest_neighbors(&names, &id("a"), &distances, 9, false), vec![3, 1]);
    assert_eq!(nearest_neighbors(&names, &id("a"), &distances, 9, true), vec![0, 3, 1]);
    assert_eq!(nearest_neighbors(&names, &id("a"), &distances, 1, false), vec![3]);
    assert_eq!(selection_focus(None, Some(&id("b"))), Some(id("b")));
    assert_eq!(selection_focus(Some(&id("c")), Some(&id("b"))), Some(id("c")));
    assert_eq!(selection_focus(None, None), None);
}

#[test]
fn triads_are_compared_without_order() {
    let sorted = canonical_triad(&triad("c", "a", "b"));
    assert_eq!((sorted.a.0.as_str(), sorted.b.0.as_str(), sorted.c.0.as_str()), ("a", "b", "c"));
    let recent = vec![triad("c", "a", "b"), triad("a", "d", "e")];
    assert_eq!(recent_count(&recent, &id("a")), 2);
    assert_eq!(recent_count(&recent, &id("z")), 0);
    assert_eq!(repeat_counts(&recent, &triad("a", "b", "c")), (true, 4));
    assert_eq!(repeat_counts(&recent, &triad("a", "b", "d")), (false, 4));
}

#[test]
fn shuffling_keeps_the_values_and_moves_them() {
    let values: Vec<usize> = (0..64).collect();
    let mut orders: HashSet<Vec<usize>> = HashSet::new();
    for _ in 0..4 {
        let mut order = shuffled(values.clone());
        orders.insert(order.clone());
        order.sort();
        assert_eq!(order, values);
    }
    assert!(orders.len() > 1);
    assert!(!orders.contains(&values));
}

#[test]
fn anchors_are_images_not_compared_lately() {
    let names = ids(&["a", "b", "c", "d", "e"]);
    let recent = vec![triad("a", "b", "z")];
    assert_eq!(triad_anchors(&names, &recent, &vec![4, 0, 3, 1, 2]), vec![4, 3, 2]);
    let busy = vec![triad("a", "b", "c")];
    assert_eq!(triad_anchors(&names, &busy, &vec![4, 0, 3, 1, 2]), vec![4, 0, 3, 1, 2]);
    let mut drawn = draw_triad_anchors(&names, &recent);
    drawn.sort();
    assert_eq!(drawn, vec![2, 3, 4]);
    assert!(draw_triad_anchors(&ids(&["a", "b"]), &vec![]).is_empty());
}

#[test]
fn candidates_widen_until_there_are_two() {
    let names = ids(&["a", "b", "c", "d"]);
    let none: Vec<AssetTriad> = vec![];
    assert_eq!(triad_candidates(&names, &none, 0, &vec![3, 1]), vec![3, 1]);
    let recent = vec![triad("b", "d", "z")];
    assert_eq!(triad_candidates(&names, &recent, 0, &vec![3, 1]), vec![3, 1]);
    assert_eq!(triad_candidates(&names, &recent, 0, &vec![3]), vec![2, 3]);
    let all = vec![triad("b", "c", "d")];
    assert_eq!(triad_candidates(&names, &all, 0, &vec![]), vec![1, 2, 3]);
    assert_eq!(triad_pairs(&vec![3, 1, 2]), vec![(3, 1), (3, 2), (1, 2)]);
    assert_eq!(triad_pairs(&(0..20).collect()).len(), 28);
    assert_eq!(
        triad_contenders(&names, &none, &vec![0, 2], &vec![vec![3, 1], vec![0, 1]]),
        vec![(0, 3, 1), (2, 0, 1)]
    );
}

#[test]
fn the_best_triads_are_drawn_from() {
    let scores: Vec<Scalar> = (0..20).map(|index| scalar((index % 10) as f32)).collect();
    let shortlist = triad_shortlist(&scores);
    assert_eq!(shortlist.len(), 12);
    assert_eq!(&shortlist[..4], &[9, 19, 8, 18]);
    let names = ids(&["a", "b", "c", "d"]);
    let contenders = vec![(0, 1, 2), (0, 1, 3)];
    assert_eq!(
        choose_similarity_triad(&names, &vec![], &contenders, &vec![1, 0], Some(0)),
        Some((0, 1, 3))
    );
    let (a, b, c) =
        choose_similarity_triad(&names, &vec![], &vec![], &vec![], None).expect("fallback");
    assert!(a != b && b != c && a != c && a < 4 && b < 4 && c < 4);
    assert!(choose_similarity_triad(&ids(&["a", "b"]), &vec![], &vec![], &vec![], None).is_none());
    let recent = vec![triad("a", "x", "y")];
    let (a, b, c) = draw_fallback_triad(&names, &recent).expect("fallback");
    assert!(a != 0 && b != 0 && c != 0);
}

#[test]
fn pages_and_training_speak_of_three_images() {
    let target = explore_target(Some(triad("a", "b", "c")), Some(&id("b")), ExploreMapMode::Learned);
    assert_eq!(target.href(), "/explore?mode=learned&triad=a,b,c&focus=b");
    assert_eq!(explore_target(None, None, ExploreMapMode::Raw).href(), "/explore?mode=raw");
    assert!(can_train(&texts(&["a", "b", "c"]), &triad("a", "b", "c")));
    assert!(!can_train(&texts(&["a", "b"]), &triad("a", "b", "c")));
    let dto = TriadHandleDto::of(&triad("a", "b", "c"));
    assert_eq!(dto.asset_c_id, "c");
    assert_eq!(dto.triad().b.0, "b");
}
