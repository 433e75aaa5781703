use std::collections::HashSet;

use picmash::digest::digest_text;
use picmash::hex::{hex_decode, hex_encode};
use picmash::ids::forge_id;
use picmash::paths::{extension_of, file_name_of};
use picmash::pool::{either, select};
use picmash::rank::{key_below, last_maximum, leading, ranked_choice, ranking};
use picmash::recents::{keep_newest, move_last, recent_rank};
use picmash::model::FaceId;
use picmash::scalar::Scalar;
use picmash::text::{parse_signed, parse_unsigned, push_decimal, push_signed_decimal, starts_with};
use picmash::textset::TextSet;
use picmash::texttable::TextTable;

fn scalar(value: f32) -> Scalar {
    Scalar { bits: value.to_bits() }
}

#[test]
fn numbers_are_written_and_read() {
    let mut out = String::new();
    push_decimal(&mut out, u64::MAX);
    assert_eq!(out, "18446744073709551615");
    assert_eq!(parse_unsigned(&out), Some(u64::MAX));
    assert_eq!(parse_unsigned("18446744073709551616"), None);
    assert_eq!(parse_unsigned("+7"), Some(7));
    assert_eq!(parse_unsigned("-0"), None);
    assert_eq!(parse_unsigned(""), None);
    let mut signed = String::new();
    push_signed_decimal(&mut signed, i64::MIN);
    assert_eq!(signed, "-9223372036854775808");
    assert_eq!(parse_signed(&signed), Some(i64::MIN));
    assert_eq!(parse_signed("9223372036854775808"), None);
    assert_eq!(parse_signed("-"), None);
    assert_eq!(parse_signed("1x"), None);
    assert!(starts_with(".tmp-a", ".tmp"));
    assert!(!starts_with(".tm", ".tmp"));
}

#[test]
fn sets_hold_each_text_once() {
    let mut set = TextSet::new();
    assert!(set.insert("a".to_owned()));
    assert!(!set.insert("a".to_owned()));
    let mut other = TextSet::new();
    other.insert("b".to_owned());
    other.insert("a".to_owned());
    set.extend(&other);
    assert_eq!(set.len(), 2);
    let copy = set.clone();
    set.remove(&"a".to_owned());
    assert!(!set.contains(&"a".to_owned()));
    assert!(copy.contains(&"a".to_owned()));
}

#[test]
fn tables_hold_the_latest_value() {
    let mut table: TextTable<u8> = TextTable::new();
    table.insert("a".to_owned(), 1);
    table.insert("b".to_owned(), 2);
    table.insert("a".to_owned(), 3);
    assert_eq!(table.get(&"a".to_owned()), Some(3));
    table.remove(&"a".to_owned());
    assert_eq!(table.get(&"a".to_owned()), None);
    assert_eq!(table.get(&"b".to_owned()), Some(2));
}

#[test]
fn rankings_keep_ties_in_place() {
    let keys: Vec<Vec<i128>> = vec![vec![2], vec![1, 5], vec![1], vec![2]];
    assert_eq!(ranking(&keys), vec![2, 1, 0, 3]);
    assert_eq!(leading(&keys, 2), vec![2, 1]);
    assert_eq!(last_maximum(&keys), Some(3));
    assert_eq!(last_maximum(&vec![]), None);
    assert!(key_below(&vec![1], &vec![1, 0]));
    assert!(!key_below(&vec![1], &vec![1]));
    assert_eq!(ranked_choice(&vec![true, false, true, true], &keys), vec![2, 0, 3]);
    assert_eq!(select(&vec![true, false, true]), vec![0, 2]);
    assert_eq!(either(5, &vec![4, 0], &vec![2, 4]), vec![0, 2, 4]);
}

#[test]
fn recent_values_move_to_the_end() {
    let mut list = vec![FaceId(1), FaceId(2), FaceId(3)];
    move_last(&mut list, FaceId(1));
    assert_eq!(list, vec![FaceId(2), FaceId(3), FaceId(1)]);
    assert_eq!(recent_rank(&list, FaceId(1)), Some(0));
    assert_eq!(recent_rank(&list, FaceId(2)), Some(2));
    assert_eq!(recent_rank(&list, FaceId(9)), None);
    keep_newest(&mut list, 2);
    assert_eq!(list, vec![FaceId(3), FaceId(1)]);
}

#[test]
fn scalars_are_ordered_like_floats() {
    let values = [-0.0f32, 0.0, 1.5, -1.5, f32::INFINITY, f32::NEG_INFINITY, 1e-40, f32::NAN];
    for a in values {
        for b in values {
            assert_eq!(scalar(a).is_below(scalar(b)), a < b, "{a} {b}");
            assert_eq!(scalar(a).does_reach(scalar(b)), a >= b, "{a} {b}");
            assert_eq!(
                scalar(a).place_key() < scalar(b).place_key(),
                a.total_cmp(&b) == std::cmp::Ordering::Less,
                "{a} {b}"
            );
        }
        assert_eq!(scalar(a).is_nan(), a.is_nan());
        assert_eq!(scalar(a).is_finite(), a.is_finite());
        assert_eq!(scalar(a).abs().bits, a.abs().to_bits());
    }
    assert_eq!(scalar(3.0).bounded(scalar(0.0), scalar(1.0), scalar(0.5)), scalar(1.0));
}

#[test]
fn hex_is_read_as_it_is_written() {
    assert_eq!(hex_encode(&[0, 15, 255]), "000fff");
    assert_eq!(hex_decode("000fff"), Some(vec![0, 15, 255]));
    assert_eq!(hex_decode("000FFF"), Some(vec![0, 15, 255]));
    assert_eq!(hex_decode("0"), None);
    assert_eq!(hex_decode("0g"), None);
    assert_eq!(hex_decode(""), Some(vec![]));
}

#[test]
fn digests_are_those_of_blake3() {
    for text in ["", "a", "größer"] {
        assert_eq!(digest_text(text), blake3::hash(text.as_bytes()).to_hex().to_string());
    }
}

#[test]
fn forged_names_are_ulids_and_differ() {
    let names: HashSet<String> = (0..64).map(|_| forge_id()).collect();
    assert_eq!(names.len(), 64);
    for name in names {
        assert_eq!(name.len(), 26);
        assert!(ulid::Ulid::from_string(&name).is_ok());
    }
}

#[test]
fn names_and_endings_of_paths() {
    for path in ["/a/b.png", "a", "/", "", "..", "a/..", "a/.", "a//b.tar.gz", ".hidden", "x.", "a/b/"] {
        let known = std::path::Path::new(path);
        assert_eq!(
            file_name_of(path),
            known.file_name().map(|name| name.to_string_lossy().into_owned()),
            "{path}"
        );
        assert_eq!(
            extension_of(path),
            known.extension().map(|name| name.to_string_lossy().into_owned()),
            "{path}"
        );
    }
}
