//! Tests for decomposition, rendering, normalization, and diffing.

use oxidiff::chunker::streaming_disassemble;
use oxidiff::differ::{extract_address_changes, generate_diff};
use oxidiff::instruction::Instruction;
use oxidiff::normalizer::normalize;

fn inst(op: &str, addr: i64, ops: &str) -> Instruction {
    Instruction::new(op.to_string(), addr, ops.to_string())
}

#[test]
fn chunking_covers_partial_final_unit() {
    let data: Vec<u8> = vec![9; 10];
    let units = streaming_disassemble(&data);
    assert_eq!(units.len(), 3);
    assert_eq!(units[0].address, 0);
    assert_eq!(units[1].address, 4);
    assert_eq!(units[2].address, 8);
    assert_eq!(units[0].op_code, "OP00");
    assert_eq!(units[1].op_code, "OP04");
    assert_eq!(units[2].op_code, "OP08");
    assert_eq!(units[0].operands, "OPERAND00");
    assert_eq!(units[2].operands, "OPERAND08");
}

#[test]
fn chunking_exact_multiple_and_empty() {
    let data: Vec<u8> = vec![0; 8];
    assert_eq!(streaming_disassemble(&data).len(), 2);
    let empty: Vec<u8> = Vec::new();
    assert_eq!(streaming_disassemble(&empty).len(), 0);
    let one: Vec<u8> = vec![7];
    let units = streaming_disassemble(&one);
    assert_eq!(units.len(), 1);
    assert_eq!(units[0].address, 0);
}

#[test]
fn chunking_ignores_byte_content() {
    let a: Vec<u8> = vec![0; 12];
    let b: Vec<u8> = vec![0xAB; 12];
    let ua = streaming_disassemble(&a);
    let ub = streaming_disassemble(&b);
    assert_eq!(ua.len(), ub.len());
    for i in 0..ua.len() {
        assert_eq!(ua[i].to_string(), ub[i].to_string());
    }
}

#[test]
fn rendering_pads_address_to_eight_digits() {
    let u = inst("OPFF", 255, "OPERANDFF");
    assert_eq!(u.to_string(), "OPFF 000000FF OPERANDFF");
}

#[test]
fn rendering_uses_twos_complement_for_negative_addresses() {
    let u = inst("OP", -1, "X");
    assert_eq!(u.to_string(), "OP FFFFFFFFFFFFFFFF X");
}

#[test]
fn rendering_wide_address_grows_past_eight_digits() {
    let u = inst("OP", 0x1_0000_0000, "X");
    assert_eq!(u.to_string(), "OP 100000000 X");
}

#[test]
fn normalize_zeroes_address_and_keeps_label() {
    let units = vec![inst("OP04", 4, "OPERAND04")];
    let normed = normalize(&units);
    assert_eq!(normed.len(), 1);
    assert_eq!(normed[0].address, 0);
    assert_eq!(normed[0].op_code, "OP04");
    // "00000004" does not occur in "OPERAND04", so the text is unchanged.
    assert_eq!(normed[0].operands, "OPERAND04");
    // The input is untouched.
    assert_eq!(units[0].address, 4);
}

#[test]
fn normalize_replaces_own_address_text() {
    let units = vec![inst("OP10000000", 0x1000_0000, "OPERAND10000000")];
    let normed = normalize(&units);
    assert_eq!(normed[0].operands, "OPERANDSYMREF");
    assert_eq!(normed[0].address, 0);
}

#[test]
fn normalize_replaces_only_first_occurrence() {
    let units = vec![inst("OP", 0x1000_0000, "1000000010000000")];
    let normed = normalize(&units);
    assert_eq!(normed[0].operands, "SYMREF10000000");
}

#[test]
fn normalize_is_idempotent_on_decompositions() {
    let mut data: Vec<u8> = Vec::new();
    for i in 0..64 {
        data.push(i as u8);
    }
    let once = normalize(&streaming_disassemble(&data));
    let twice = normalize(&once);
    assert_eq!(once.len(), twice.len());
    for i in 0..once.len() {
        assert_eq!(once[i].address, twice[i].address);
        assert_eq!(once[i].op_code, twice[i].op_code);
        assert_eq!(once[i].operands, twice[i].operands);
    }
}

#[test]
fn diff_of_equal_sequences_is_empty() {
    let units = vec![inst("OP00", 0, "OPERAND00"), inst("OP04", 4, "OPERAND04")];
    let same = vec![inst("OP00", 0, "OPERAND00"), inst("OP04", 4, "OPERAND04")];
    assert_eq!(generate_diff(&units, &same).len(), 0);
}

#[test]
fn diff_marks_added_removed_and_changed() {
    let old_units = vec![inst("OP00", 0, "A"), inst("OP04", 4, "B")];
    let new_units = vec![
        inst("OP00", 0, "A"),
        inst("OP04", 4, "C"),
        inst("OP08", 8, "D"),
    ];
    let diff = generate_diff(&old_units, &new_units);
    assert_eq!(
        diff,
        vec![
            "~OP04 00000004 B -> OP04 00000004 C".to_string(),
            "+OP08 00000008 D".to_string(),
        ]
    );
    let reverse = generate_diff(&new_units, &old_units);
    assert_eq!(reverse[1], "-OP08 00000008 D".to_string());
}

#[test]
fn address_changes_pair_only_shorter_length() {
    let old_units = vec![inst("A", 0, "x"), inst("B", 4, "x"), inst("C", 8, "x")];
    let new_units = vec![inst("A", 2, "x"), inst("B", 3, "x")];
    let deltas = extract_address_changes(&old_units, &new_units);
    assert_eq!(deltas, vec![2, -1]);
    let deltas2 = extract_address_changes(&new_units, &old_units);
    assert_eq!(deltas2, vec![-2, 1]);
}

#[test]
fn address_changes_of_empty_input_are_empty() {
    let old_units: Vec<Instruction> = Vec::new();
    let new_units = vec![inst("A", 0, "x")];
    assert_eq!(extract_address_changes(&old_units, &new_units).len(), 0);
}
