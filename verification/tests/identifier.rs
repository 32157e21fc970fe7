use std::collections::HashSet;

use pycrockford_rs::{
    encode_crockford, CompareOp, CrockfordError, CrockfordUUID, DecodeFailure, FailureKind,
    IdentifierError, Source,
};

const MIXED: [u8; 16] = [
    0x12, 0x34, 0x56, 0x78, 0x9a, 0xbc, 0xde, 0xf0, 0x0f, 0xed, 0xcb, 0xa9, 0x87, 0x65, 0x43, 0x21,
];

const MIXED_TEXT: &str = "28T5CY4TQKFF03ZDSEMRESA344";

fn made(value: Source<'_>) -> CrockfordUUID {
    match CrockfordUUID::new(value) {
        Ok(id) => id,
        Err(error) => panic!("no identifier: {}", error.message()),
    }
}

fn refused(value: Source<'_>) -> IdentifierError {
    match CrockfordUUID::new(value) {
        Ok(id) => panic!("an identifier: {}", id.to_string()),
        Err(error) => error,
    }
}

#[test]
fn made_from_text() {
    let id = made(Source::Text(MIXED_TEXT));
    assert_eq!(id.bytes(), MIXED);
    assert_eq!(id.to_string(), MIXED_TEXT);
    let id = made(Source::Text("28t5c-y4tqk-ffo3z-dsemr-esa34-4"));
    assert_eq!(id.bytes(), MIXED);
}

#[test]
fn made_from_bytes() {
    let id = made(Source::Bytes(&MIXED));
    assert_eq!(id.bytes(), MIXED);
    assert_eq!(id.to_string(), MIXED_TEXT);
}

#[test]
fn made_from_uuid_bytes() {
    let id = made(Source::Uuid(MIXED));
    assert_eq!(id.bytes(), MIXED);
    assert_eq!(id.to_string(), MIXED_TEXT);
}

#[test]
fn wrong_byte_counts_are_refused() {
    assert_eq!(refused(Source::Bytes(&[0u8; 15])), IdentifierError::WrongByteCount(15));
    assert_eq!(refused(Source::Bytes(&[0u8; 17])), IdentifierError::WrongByteCount(17));
    assert_eq!(refused(Source::Bytes(&[])), IdentifierError::WrongByteCount(0));
}

#[test]
fn other_values_are_refused() {
    assert_eq!(refused(Source::Unrecognized), IdentifierError::UnsupportedInputType);
    assert_eq!(
        refused(Source::Unrecognized).message(),
        "expected Crockford string, 16 bytes, or uuid.UUID"
    );
}

#[test]
fn text_errors_are_passed_on() {
    assert_eq!(
        refused(Source::Text("ABC")),
        IdentifierError::Codec(CrockfordError::InvalidLength(1))
    );
    assert_eq!(
        refused(Source::Text("********")),
        IdentifierError::Codec(CrockfordError::DecodeError(DecodeFailure {
            position: 0,
            kind: FailureKind::Symbol
        }))
    );
}

#[test]
fn same_bytes_make_equal_identifiers() {
    let from_text = made(Source::Text(MIXED_TEXT));
    let from_bytes = made(Source::Bytes(&MIXED));
    let from_uuid = made(Source::Uuid(MIXED));
    assert!(from_text == from_bytes);
    assert!(from_bytes == from_uuid);
    assert!(from_text == from_uuid);
    assert_eq!(from_text.hash_value(), from_bytes.hash_value());
    assert_eq!(from_bytes.hash_value(), from_uuid.hash_value());
    let mut set = HashSet::new();
    set.insert(from_text);
    set.insert(from_bytes);
    set.insert(from_uuid);
    assert_eq!(set.len(), 1);
}

#[test]
fn different_bytes_make_different_identifiers() {
    let a = made(Source::Bytes(&MIXED));
    let mut other = MIXED;
    other[15] ^= 1;
    let b = made(Source::Bytes(&other));
    assert!(a != b);
    assert_ne!(a.hash_value(), b.hash_value());
    assert_ne!(a.bytes(), b.bytes());
}

#[test]
fn hash_is_stable() {
    let id = made(Source::Bytes(&MIXED));
    assert_eq!(id.hash_value(), id.hash_value());
    let copy = id;
    assert_eq!(id.hash_value(), copy.hash_value());
}

#[test]
fn compares_for_equality_only() {
    let a = made(Source::Bytes(&MIXED));
    let same = made(Source::Text(MIXED_TEXT));
    let b = made(Source::Bytes(&[7u8; 16]));
    assert_eq!(a.compare(&same, CompareOp::Eq), Some(true));
    assert_eq!(a.compare(&same, CompareOp::Ne), Some(false));
    assert_eq!(a.compare(&b, CompareOp::Eq), Some(false));
    assert_eq!(a.compare(&b, CompareOp::Ne), Some(true));
    for op in [CompareOp::Lt, CompareOp::Le, CompareOp::Gt, CompareOp::Ge] {
        assert_eq!(a.compare(&b, op), None);
        assert_eq!(a.compare(&same, op), None);
    }
}

#[test]
fn bytes_are_copied_out() {
    let id = made(Source::Bytes(&MIXED));
    let mut copy = id.bytes();
    copy[0] = 0;
    assert_eq!(id.bytes(), MIXED);
}

#[test]
fn repr_tags_the_text() {
    let id = made(Source::Bytes(&MIXED));
    assert_eq!(id.repr(), "CrockfordUUID('28T5CY4TQKFF03ZDSEMRESA344')");
    let zero = made(Source::Bytes(&[0u8; 16]));
    assert_eq!(zero.repr(), "CrockfordUUID('00000000000000000000000000')");
    assert_eq!(zero.to_string(), "00000000000000000000000000");
}

#[test]
fn encodes_sixteen_raw_bytes() {
    assert_eq!(encode_crockford(&MIXED), Ok(String::from(MIXED_TEXT)));
    assert_eq!(encode_crockford(&MIXED[..15]), Err(IdentifierError::WrongByteCount(15)));
    assert_eq!(encode_crockford(&[0u8; 17]), Err(IdentifierError::WrongByteCount(17)));
    assert_eq!(encode_crockford(&[]), Err(IdentifierError::WrongByteCount(0)));
}

#[test]
fn random_identifiers_are_version_four() {
    let mut seen = HashSet::new();
    for _ in 0..10_000 {
        let id = CrockfordUUID::generate_v4();
        let bytes = id.bytes();
        assert_eq!(bytes[6] >> 4, 4);
        assert_eq!(bytes[8] >> 6, 2);
        assert!(seen.insert(bytes));
    }
    assert_eq!(seen.len(), 10_000);
}

#[test]
fn ordered_identifiers_are_version_seven() {
    let mut last = CrockfordUUID::generate_v7().bytes();
    assert_eq!(last[6] >> 4, 7);
    assert_eq!(last[8] >> 6, 2);
    for _ in 0..1_000 {
        let next = CrockfordUUID::generate_v7().bytes();
        assert_eq!(next[6] >> 4, 7);
        assert_eq!(next[8] >> 6, 2);
        assert!(last <= next);
        last = next;
    }
}

#[test]
fn ordered_identifiers_sort_as_text() {
    let first = CrockfordUUID::generate_v7();
    let start = std::time::Instant::now();
    while start.elapsed() < std::time::Duration::from_millis(3) {}
    let second = CrockfordUUID::generate_v7();
    assert!(first.bytes() < second.bytes());
    assert!(first.to_string() < second.to_string());
}

#[test]
fn generated_identifiers_round_trip() {
    for id in [CrockfordUUID::generate_v4(), CrockfordUUID::generate_v7()] {
        let text = id.to_string();
        assert_eq!(text.len(), 26);
        let again = made(Source::Text(&text));
        assert!(again == id);
        assert_eq!(again.hash_value(), id.hash_value());
    }
}
