//! Tests for hashing, the container codec, patch application, and the
//! end-to-end create/apply pipeline.

use oxidiff::apply::apply_patch;
use oxidiff::codec::{parse_container, serialize_container};
use oxidiff::container::{PatchContainer, PatchError};
use oxidiff::hashing::{calculate_file_hash, calculate_file_hash_blocks};
use oxidiff::pipeline::{apply_compressed_patch, create_patch, create_patch_container};

fn hex(bytes: &[u8]) -> String {
    let mut s = String::new();
    for b in bytes {
        s.push_str(&format!("{:02x}", b));
    }
    s
}

#[test]
fn hash_matches_known_vector() {
    let digest = calculate_file_hash(&b"abc".to_vec());
    assert_eq!(
        hex(&digest),
        "ba7816bf8f01cfea414140de5dae2223b00361a396177a9cb410ff61f20015ad"
    );
    let empty = calculate_file_hash(&Vec::new());
    assert_eq!(
        hex(&empty),
        "e3b0c44298fc1c149afbf4c8996fb92427ae41e4649b934ca495991b7852b855"
    );
}

#[test]
fn hash_is_independent_of_block_split() {
    let whole = calculate_file_hash(&vec![1, 2, 3, 4, 5]);
    let split_a = calculate_file_hash_blocks(&vec![vec![1, 2], vec![3], vec![4, 5]]);
    let split_b = calculate_file_hash_blocks(&vec![vec![], vec![1, 2, 3, 4, 5]]);
    assert_eq!(whole, split_a);
    assert_eq!(whole, split_b);
}

#[test]
fn hash_changes_on_single_byte_difference() {
    let a = calculate_file_hash(&vec![1, 2, 3, 4, 5]);
    let b = calculate_file_hash(&vec![1, 2, 3, 4, 6]);
    assert_ne!(a, b);
}

fn sample_container() -> PatchContainer {
    PatchContainer {
        digest: vec![0xAA; 32],
        change_records: vec![
            "~OP04 00000000 OPERAND04 -> OP04 00000000 X".to_string(),
            "+OP08 00000008 OPERAND08".to_string(),
            String::new(),
        ],
        offset_deltas: vec![0, -1, i64::MIN, i64::MAX, 4],
    }
}

#[test]
fn codec_round_trips_any_container() {
    let c = sample_container();
    let bytes = serialize_container(&c);
    let parsed = parse_container(&bytes).unwrap();
    assert_eq!(parsed.digest, c.digest);
    assert_eq!(parsed.change_records, c.change_records);
    assert_eq!(parsed.offset_deltas, c.offset_deltas);
}

#[test]
fn codec_serializes_exact_layout() {
    let c = PatchContainer {
        digest: vec![7; 32],
        change_records: vec!["ab".to_string()],
        offset_deltas: vec![1],
    };
    let bytes = serialize_container(&c);
    let mut expected: Vec<u8> = vec![7; 32];
    expected.extend_from_slice(&[1, 0, 0, 0]); // record count
    expected.extend_from_slice(&[2, 0, 0, 0]); // record byte length
    expected.extend_from_slice(b"ab");
    expected.extend_from_slice(&[1, 0, 0, 0]); // delta count
    expected.extend_from_slice(&[1, 0, 0, 0, 0, 0, 0, 0]); // delta 1, little-endian
    assert_eq!(bytes, expected);
}

#[test]
fn parse_ignores_trailing_bytes() {
    let c = sample_container();
    let mut bytes = serialize_container(&c);
    bytes.push(0xFF);
    bytes.push(0x00);
    let parsed = parse_container(&bytes).unwrap();
    assert_eq!(parsed.offset_deltas, c.offset_deltas);
}

#[test]
fn parse_rejects_truncated_streams() {
    let c = sample_container();
    let bytes = serialize_container(&c);
    assert!(matches!(
        parse_container(&Vec::new()),
        Err(PatchError::Truncated)
    ));
    assert!(matches!(
        parse_container(&vec![0; 31]),
        Err(PatchError::Truncated)
    ));
    for cut in [33, 36, 40, bytes.len() - 1] {
        let short = bytes[..cut].to_vec();
        assert!(matches!(parse_container(&short), Err(PatchError::Truncated)));
    }
}

#[test]
fn parse_rejects_invalid_record_text() {
    let mut bytes: Vec<u8> = vec![0; 32];
    bytes.extend_from_slice(&[1, 0, 0, 0]); // one record
    bytes.extend_from_slice(&[1, 0, 0, 0]); // of one byte
    bytes.push(0xFF); // not valid UTF-8
    bytes.extend_from_slice(&[0, 0, 0, 0]); // no deltas
    assert!(matches!(
        parse_container(&bytes),
        Err(PatchError::InvalidText)
    ));
}

#[test]
fn apply_adds_deltas_to_little_endian_fields() {
    let mut target: Vec<u8> = vec![1, 0, 0, 0, 2, 0, 0, 0, 9, 9];
    let container = PatchContainer {
        digest: calculate_file_hash(&target),
        change_records: Vec::new(),
        offset_deltas: vec![0x10, -1],
    };
    assert_eq!(apply_patch(&mut target, &container), Ok(()));
    assert_eq!(target, vec![0x11, 0, 0, 0, 1, 0, 0, 0, 9, 9]);
}

#[test]
fn apply_wraps_on_overflow() {
    let mut target: Vec<u8> = vec![0xFF, 0xFF, 0xFF, 0xFF];
    let container = PatchContainer {
        digest: calculate_file_hash(&target),
        change_records: Vec::new(),
        offset_deltas: vec![1],
    };
    assert_eq!(apply_patch(&mut target, &container), Ok(()));
    assert_eq!(target, vec![0, 0, 0, 0]);
}

#[test]
fn apply_rejects_digest_mismatch_without_mutation() {
    let mut target: Vec<u8> = vec![1, 2, 3, 4];
    let before = calculate_file_hash(&target);
    let container = PatchContainer {
        digest: vec![0; 32],
        change_records: Vec::new(),
        offset_deltas: vec![5],
    };
    assert_eq!(
        apply_patch(&mut target, &container),
        Err(PatchError::DigestMismatch)
    );
    assert_eq!(calculate_file_hash(&target), before);
    assert_eq!(target, vec![1, 2, 3, 4]);
}

#[test]
fn apply_rejects_deltas_past_target_end() {
    let mut target: Vec<u8> = vec![1, 2, 3, 4, 5, 6];
    let container = PatchContainer {
        digest: calculate_file_hash(&target),
        change_records: Vec::new(),
        offset_deltas: vec![0, 0],
    };
    assert_eq!(
        apply_patch(&mut target, &container),
        Err(PatchError::LengthMismatch)
    );
    assert_eq!(target, vec![1, 2, 3, 4, 5, 6]);
}

#[test]
fn end_to_end_equal_offsets_apply_as_no_op() {
    let old_data: Vec<u8> = vec![0x00, 0x01, 0x02, 0x03, 0x04, 0x05, 0x06, 0x07];
    let new_data: Vec<u8> = vec![0x00, 0x01, 0x02, 0x03, 0xFF, 0xFF, 0xFF, 0xFF];
    let container = create_patch_container(&old_data, &new_data);
    // Both files are two units; no offset moved.
    assert_eq!(container.offset_deltas, vec![0, 0]);
    // Unit text is derived from offsets alone, so equal-length files give
    // identical unit sequences and no change records.
    assert_eq!(container.change_records.len(), 0);
    let patch = create_patch(&old_data, &new_data);
    let mut target = old_data.clone();
    assert_eq!(apply_compressed_patch(&mut target, &patch), Ok(()));
    // Zero deltas leave every byte as it was.
    assert_eq!(target, old_data);
}

#[test]
fn end_to_end_length_change_records_and_shifts() {
    let old_data: Vec<u8> = vec![1, 2, 3, 4];
    let new_data: Vec<u8> = vec![1, 2, 3, 4, 5, 6, 7, 8, 9];
    let container = create_patch_container(&old_data, &new_data);
    assert_eq!(container.offset_deltas, vec![0]);
    assert_eq!(
        container.change_records,
        vec![
            "+OP04 00000000 OPERAND04".to_string(),
            "+OP08 00000000 OPERAND08".to_string(),
        ]
    );
}

#[test]
fn compressed_patch_applied_to_wrong_target_fails_before_mutation() {
    let old_data: Vec<u8> = vec![1, 2, 3, 4, 5, 6, 7, 8];
    let new_data: Vec<u8> = vec![8, 7, 6, 5, 4, 3, 2, 1];
    let patch = create_patch(&old_data, &new_data);
    let mut wrong_target: Vec<u8> = vec![9, 9, 9, 9, 9, 9, 9, 9];
    let before = calculate_file_hash(&wrong_target);
    assert_eq!(
        apply_compressed_patch(&mut wrong_target, &patch),
        Err(PatchError::DigestMismatch)
    );
    assert_eq!(calculate_file_hash(&wrong_target), before);
}

#[test]
fn garbage_patch_is_rejected() {
    let mut target: Vec<u8> = vec![1, 2, 3, 4];
    let garbage: Vec<u8> = vec![0x12, 0x34, 0x56, 0x78];
    assert_eq!(
        apply_compressed_patch(&mut target, &garbage),
        Err(PatchError::Decompression)
    );
    assert_eq!(target, vec![1, 2, 3, 4]);
}
