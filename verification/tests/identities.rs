use picmash::identities::{
    blank_review, candidate_edges, canonical_identity_pair, claim_rows, group_faces,
    identity_review_confirm, identity_review_view, representative_face, slugify_subject_name,
    FoundNeighbor, IdentityHandles, IdentityReviewEdge, ReviewSubject,
};
use picmash::model::{FaceId, FaceIdentityId};
use picmash::scalar::Scalar;

fn scalar(value: f32) -> Scalar {
    Scalar { bits: value.to_bits() }
}

fn subject(id: i64, name: Option<&str>, member_count: usize) -> ReviewSubject {
    ReviewSubject {
        identity_id: FaceIdentityId(id),
        name: name.map(|name| name.to_owned()),
        representative_face: FaceId(id * 10),
        member_count,
    }
}

fn edge(candidate_index: usize, similarity: f32) -> IdentityReviewEdge {
    IdentityReviewEdge { candidate_index, similarity: scalar(similarity) }
}

fn keyed(byte: u8) -> IdentityHandles {
    IdentityHandles { key: [byte; 32] }
}

#[test]
fn handles_resolve_to_what_they_name() {
    let handles = keyed(7);
    for number in [0, 1, -1, i64::MAX, i64::MIN] {
        let subject = FaceIdentityId(number);
        let raw = handles.mint_identity_anchor_handle(subject);
        assert_eq!(raw.len(), 2 * (1 + 8 + 16));
        assert_eq!(handles.resolve_identity_anchor_handle(&raw), Some(subject));
        assert_eq!(handles.resolve_identity_pair_handle(&raw), None);
        let pair = handles.mint_identity_pair_handle(subject, FaceIdentityId(5));
        assert_eq!(
            handles.resolve_identity_pair_handle(&pair),
            Some((subject, FaceIdentityId(5)))
        );
        assert_eq!(handles.resolve_identity_anchor_handle(&pair), None);
    }
}

#[test]
fn handles_are_the_payload_and_its_keyed_hash() {
    let mut payload = vec![0x41u8];
    payload.extend_from_slice(&300i64.to_le_bytes());
    let mac = blake3::keyed_hash(&[7; 32], &payload);
    payload.extend_from_slice(&mac.as_bytes()[..16]);
    let expected: String = payload.iter().map(|byte| format!("{byte:02x}")).collect();
    assert_eq!(keyed(7).mint_identity_anchor_handle(FaceIdentityId(300)), expected);
}

#[test]
fn foreign_and_broken_handles_do_not_resolve() {
    let handles = keyed(7);
    let raw = handles.mint_identity_anchor_handle(FaceIdentityId(3));
    assert_eq!(keyed(8).resolve_identity_anchor_handle(&raw), None);
    assert_eq!(handles.resolve_identity_anchor_handle(&raw[2..]), None);
    assert_eq!(handles.resolve_identity_anchor_handle(""), None);
    assert_eq!(handles.resolve_identity_anchor_handle("zz"), None);
    let flipped = if raw.ends_with('0') { "1" } else { "0" };
    let tampered = format!("{}{}", &raw[..raw.len() - 1], flipped);
    assert_eq!(handles.resolve_identity_anchor_handle(&tampered), None);
    assert_eq!(
        handles.identity_anchor_focus_target(&raw),
        Some(format!("/identities?anchor={raw}"))
    );
    assert_eq!(handles.identity_anchor_focus_target("zz"), None);
    let pair = handles.mint_identity_pair_handle(FaceIdentityId(3), FaceIdentityId(4));
    assert_eq!(
        handles.identity_pair_focus_target(&pair),
        Some(format!("/identities?anchor={raw}"))
    );
}

#[test]
fn handles_resolve_in_either_case_of_their_letters() {
    let handles = keyed(7);
    let raw = handles.mint_identity_anchor_handle(FaceIdentityId(300));
    let upper = raw.to_ascii_uppercase();
    assert_ne!(upper, raw);
    assert_eq!(handles.resolve_identity_anchor_handle(&upper), Some(FaceIdentityId(300)));
    assert_eq!(handles.resolve_identity_anchor_handle(&format!("{raw}0")), None);
    assert_eq!(handles.resolve_identity_anchor_handle(&format!("{raw}00")), None);
    assert_eq!(handles.resolve_identity_anchor_handle(&format!(" {raw}")), None);
}

#[test]
fn fresh_keys_differ() {
    let raw = IdentityHandles::fresh().mint_identity_anchor_handle(FaceIdentityId(3));
    assert_eq!(IdentityHandles::fresh().resolve_identity_anchor_handle(&raw), None);
    assert_ne!(IdentityHandles::fresh().key, [0; 32]);
}

#[test]
fn slugs_are_words_joined_by_dashes() {
    assert_eq!(slugify_subject_name("Ada  Lovelace!"), "ada-lovelace");
    assert_eq!(slugify_subject_name("--- "), "subject");
    assert_eq!(slugify_subject_name("Éva 2"), "va-2");
    assert_eq!(slugify_subject_name("İ"), "i");
    assert_eq!(slugify_subject_name(""), "subject");
    assert_eq!(slugify_subject_name("\u{212A}elvin"), "kelvin");
    for name in ["Ada  Lovelace!", "--- ", "\u{c9}va 2", "X--y", "a_b"] {
        let slug = slugify_subject_name(name);
        assert_eq!(slugify_subject_name(&slug), slug);
    }
}

#[test]
fn no_character_leaves_more_than_small_letters_and_digits() {
    for c in '\u{0}'..=char::MAX {
        let slug = slugify_subject_name(&c.to_string());
        assert!(slug.bytes().all(|byte| byte.is_ascii_lowercase() || byte.is_ascii_digit()));
    }
}

#[test]
fn faces_are_grouped_by_subject() {
    let owners: Vec<FaceIdentityId> = [5, 2, 5, 9].iter().map(|id| FaceIdentityId(*id)).collect();
    let groups: Vec<(i64, Vec<usize>)> = group_faces(&owners)
        .into_iter()
        .map(|group| (group.identity_id.0, group.members))
        .collect();
    assert_eq!(groups, vec![(2, vec![1]), (5, vec![0, 2]), (9, vec![3])]);
    let faces = vec![(scalar(0.2), FaceId(1)), (scalar(0.9), FaceId(2)), (scalar(0.9), FaceId(3))];
    assert_eq!(representative_face(&faces), Some(2));
    assert_eq!(representative_face(&vec![]), None);
    assert_eq!(
        canonical_identity_pair(FaceIdentityId(9), FaceIdentityId(2)),
        (FaceIdentityId(2), FaceIdentityId(9))
    );
}

#[test]
fn candidates_are_unnamed_unvetoed_and_alike_enough() {
    let subjects = vec![
        subject(1, Some("Ada"), 3),
        subject(2, None, 1),
        subject(3, Some("Eve"), 1),
        subject(4, None, 1),
        subject(5, None, 1),
    ];
    let found = |id: i64, similarity: f32| FoundNeighbor {
        candidate_id: FaceIdentityId(id),
        similarity: scalar(similarity),
    };
    let edges = candidate_edges(
        &subjects,
        FaceIdentityId(1),
        &vec![found(1, 1.0), found(2, 0.5), found(3, 0.9), found(4, 0.8), found(5, 0.7), found(8, 0.9)],
        &vec![(FaceIdentityId(1), FaceIdentityId(4))],
        scalar(0.5),
    );
    assert_eq!(edges, vec![edge(4, 0.7), edge(1, 0.5)]);
}

#[test]
fn a_candidate_is_offered_in_one_row() {
    let sets = vec![
        vec![edge(1, 0.9), edge(2, 0.8)],
        vec![edge(2, 0.7)],
        vec![edge(0, 0.6)],
        vec![edge(2, 0.5), edge(1, 0.4)],
    ];
    let drafts = claim_rows(&vec![0, 1, 2, 3], &sets);
    assert_eq!(drafts.len(), 1);
    assert_eq!(drafts[0].anchor, 0);
    assert_eq!(drafts[0].edges.len(), 2);
    let drafts = claim_rows(&vec![1, 0, 3, 2], &sets);
    let rows: Vec<(usize, usize)> =
        drafts.iter().map(|draft| (draft.anchor, draft.edges.len())).collect();
    assert_eq!(rows, vec![(1, 1), (0, 1)]);
}

#[test]
fn the_review_shows_rows_with_handles() {
    let handles = keyed(1);
    let subjects = vec![subject(1, Some("Ada L."), 3), subject(2, None, 1), subject(3, None, 2)];
    let sets = vec![vec![edge(1, 0.6)], vec![], vec![edge(1, 0.9)]];
    let view = identity_review_view(&handles, &subjects, &sets, None, None, 35);
    assert_eq!(view.status.total_subjects, 3);
    assert_eq!(view.status.named_subjects, 1);
    assert_eq!(view.status.active_rows, 1);
    assert_eq!(view.status.threshold_percent, 35);
    assert!(view.recognition_ready);
    assert!(view.focus_name.is_none());
    let row = &view.rows[0];
    assert_eq!(row.anchor_name.as_deref(), Some("Ada L."));
    assert_eq!(row.name_slug.as_deref(), Some("ada-l"));
    assert_eq!(row.candidates[0].face, FaceId(20));
    assert_eq!(
        handles.resolve_identity_pair_handle(&row.candidates[0].pair_handle),
        Some((FaceIdentityId(1), FaceIdentityId(2)))
    );
    let focused = identity_review_view(&handles, &subjects, &sets, Some("ada-l"), None, 35);
    assert_eq!(focused.focus_name.as_deref(), Some("Ada L."));
    let anchor = handles.mint_identity_anchor_handle(FaceIdentityId(3));
    let by_handle = identity_review_view(&handles, &subjects, &sets, None, Some(&anchor), 35);
    assert_eq!(by_handle.focus_name.as_deref(), Some("unnamed subject"));
    assert_eq!(by_handle.rows[0].top_similarity, Some(scalar(0.9)));
    let unknown = identity_review_view(&handles, &subjects, &sets, Some("nobody"), None, 35);
    assert!(unknown.rows.is_empty() && unknown.focus_name.is_none());
    let blank = blank_review(35);
    assert!(!blank.recognition_ready && blank.rows.is_empty());
    assert!(identity_review_confirm(true, Some(false)));
    assert!(!identity_review_confirm(true, Some(true)));
    assert!(!identity_review_confirm(true, None));
    assert!(!identity_review_confirm(false, Some(false)));
}
