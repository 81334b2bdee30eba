//! The create and apply pipelines: from old and new content to a compressed
//! patch, and from a compressed patch back onto a target.

use vstd::prelude::*;
use vstd::utf8::{encode_scalar, encode_utf8};
use crate::apply::{apply_model, apply_patch};
use crate::chunker::{chunk_count, chunk_model, chunk_models, streaming_disassemble};
use crate::codec::{parse_container, parse_model, serialize_container, serialize_model};
use crate::compress::{gzip_compress, gzip_decompress, gzip_of};
use crate::container::{container_wf, ContainerModel, PatchContainer, PatchError};
use crate::differ::{
    delta_models, diff_models, extract_address_changes, generate_diff, lemma_diff_bounds,
    text_models, unit_models,
};
use crate::hashing::{calculate_file_hash, sha256_of};
use crate::hex::{hex_pad, hex_uint, lemma_hex_pad_len, lemma_hex_uint_len_u64};
use crate::instruction::{address_bits, render, InstructionModel};
use crate::normalizer::{
    address_pattern, normal_model, normal_models, normalize, placeholder,
};
use crate::strutil::lemma_replace_first_len;

verus! {

/// The largest content length the pipeline accepts: the container format
/// counts units in 32-bit fields, so at most `u32::MAX` four-byte units.
pub open spec fn max_content_len() -> nat {
    0x3_FFFF_FFF0
}

/// The container that creation yields for the given old and new content:
/// the old content's digest, the records of the positional diff of the two
/// normalized decompositions, and the pre-normalization offset deltas.
pub open spec fn create_model(old_data: Seq<u8>, new_data: Seq<u8>) -> ContainerModel {
    ContainerModel {
        digest: sha256_of(old_data),
        change_records: diff_models(
            normal_models(chunk_models(old_data.len())),
            normal_models(chunk_models(new_data.len())),
        ),
        offset_deltas: delta_models(chunk_models(old_data.len()), chunk_models(new_data.len())),
    }
}

/// A UTF-8 encoding takes at most four bytes per character.
proof fn lemma_encode_utf8_len(chars: Seq<char>)
    ensures
        encode_utf8(chars).len() <= 4 * chars.len(),
    decreases chars.len(),
{
    if chars.len() > 0 {
        lemma_encode_utf8_len(chars.drop_first());
        assert(encode_scalar(chars[0] as u32).len() <= 4);
    }
}

/// Every normalized unit of a decomposition renders to a short line: its
/// pieces are two fixed labels, two padded hexadecimal fields of at most
/// sixteen digits, two separators, and a placeholder of six characters.
proof fn lemma_normal_chunk_render_bound(len: nat, k: int)
    requires
        len <= max_content_len(),
        0 <= k < chunk_count(len),
    ensures
        render(normal_model(chunk_model(k))).len() <= 57,
{
    let m = chunk_model(k);
    assert(4 * k <= len + 3) by (nonlinear_arith)
        requires
            k < (len + 3) / 4,
    ;
    lemma_hex_uint_len_u64((4 * k) as u64);
    lemma_hex_pad_len((4 * k) as nat, 2);
    assert(hex_pad((4 * k) as nat, 2).len() <= 16);
    assert(m.op_code.len() <= 18);
    assert(m.operands.len() <= 23);
    let nm = normal_model(m);
    lemma_replace_first_len(m.operands, address_pattern(m.address), placeholder());
    assert(nm.operands.len() <= 29);
    assert(address_bits(0) == 0);
    lemma_hex_uint_len_u64(0);
    lemma_hex_pad_len(0, 8);
    assert(hex_pad(address_bits(nm.address) as nat, 8).len() == 8);
    assert(render(nm).len() <= 18 + 1 + 8 + 1 + 29);
}

/// The container built for bounded content is well-formed for the wire
/// format: unit counts fit the 32-bit count fields, each record's encoding
/// fits a 32-bit length field, and the deltas fit their signed 64-bit field.
proof fn lemma_create_model_wf(old_data: Seq<u8>, new_data: Seq<u8>)
    requires
        old_data.len() <= max_content_len(),
        new_data.len() <= max_content_len(),
        sha256_of(old_data).len() == 32,
    ensures
        container_wf(create_model(old_data, new_data)),
{
    let c = create_model(old_data, new_data);
    let o = normal_models(chunk_models(old_data.len()));
    let n = normal_models(chunk_models(new_data.len()));
    assert((old_data.len() + 3) / 4 <= 0xFFFF_FFFF) by (nonlinear_arith)
        requires
            old_data.len() <= 0x3_FFFF_FFF0,
    ;
    assert((new_data.len() + 3) / 4 <= 0xFFFF_FFFF) by (nonlinear_arith)
        requires
            new_data.len() <= 0x3_FFFF_FFF0,
    ;
    assert forall|k: int| 0 <= k < o.len() implies (render(#[trigger] o[k])).len() <= 57 by {
        lemma_normal_chunk_render_bound(old_data.len(), k);
    }
    assert forall|k: int| 0 <= k < n.len() implies (render(#[trigger] n[k])).len() <= 57 by {
        lemma_normal_chunk_render_bound(new_data.len(), k);
    }
    let top = vstd::math::max(o.len() as int, n.len() as int);
    lemma_diff_bounds(o, n, top, 57);
    assert forall|i: int| 0 <= i < c.change_records.len() implies encode_utf8(
        #[trigger] c.change_records[i],
    ).len() <= u32::MAX by {
        assert(c.change_records[i].len() <= 119);
        lemma_encode_utf8_len(c.change_records[i]);
    }
}

/// Build the patch container for old and new content: hash the old content,
/// decompose and normalize both, diff them positionally, and pair the raw
/// offsets into deltas.
pub fn create_patch_container(old_data: &Vec<u8>, new_data: &Vec<u8>) -> (c: PatchContainer)
    requires
        old_data@.len() <= max_content_len(),
        new_data@.len() <= max_content_len(),
    ensures
        c@ == create_model(old_data@, new_data@),
        container_wf(c@),
{
    let digest = calculate_file_hash(old_data);
    let old_dis = streaming_disassemble(old_data);
    let new_dis = streaming_disassemble(new_data);
    proof {
        assert(unit_models(old_dis@) =~= chunk_models(old_data@.len()));
        assert(unit_models(new_dis@) =~= chunk_models(new_data@.len()));
    }
    let old_norm = normalize(&old_dis);
    let new_norm = normalize(&new_dis);
    proof {
        assert(unit_models(old_norm@) =~= normal_models(chunk_models(old_data@.len())));
        assert(unit_models(new_norm@) =~= normal_models(chunk_models(new_data@.len())));
    }
    let diff = generate_diff(&old_norm, &new_norm);
    proof {
        assert forall|i: int|
            0 <= i < vstd::math::min(old_dis@.len() as int, new_dis@.len() as int) implies i64::MIN
            <= (#[trigger] new_dis@[i])@.address - old_dis@[i]@.address <= i64::MAX by {
            assert(new_dis@[i]@.address == 4 * i);
            assert(old_dis@[i]@.address == 4 * i);
        }
    }
    let changes = extract_address_changes(&old_dis, &new_dis);
    let out = PatchContainer { digest, change_records: diff, offset_deltas: changes };
    proof {
        lemma_create_model_wf(old_data@, new_data@);
        assert(out@.change_records == text_models(diff@));
        assert(out@ == create_model(old_data@, new_data@));
    }
    out
}

/// Create a compressed patch: build the container, frame it in the wire
/// format, and compress the whole stream.
pub fn create_patch(old_data: &Vec<u8>, new_data: &Vec<u8>) -> (r: Vec<u8>)
    requires
        old_data@.len() <= max_content_len(),
        new_data@.len() <= max_content_len(),
    ensures
        r@ == gzip_of(serialize_model(create_model(old_data@, new_data@))),
{
    let container = create_patch_container(old_data, new_data);
    let raw = serialize_container(&container);
    gzip_compress(&raw)
}

/// What applying a patch whose decompressed stream is `raw` must leave
/// behind: the parse error, the digest or length error with the target
/// untouched, or the patched content.
pub open spec fn apply_outcome(
    orig: Seq<u8>,
    raw: Seq<u8>,
    r: Result<(), PatchError>,
    now: Seq<u8>,
) -> bool {
    match parse_model(raw) {
        Err(e) => r == Err::<(), PatchError>(e) && now == orig,
        Ok(c) => {
            &&& (c.digest != sha256_of(orig) ==> r == Err::<(), PatchError>(
                PatchError::DigestMismatch,
            ) && now == orig)
            &&& (c.digest == sha256_of(orig) && 4 * c.offset_deltas.len() > orig.len() ==> r
                == Err::<(), PatchError>(PatchError::LengthMismatch) && now == orig)
            &&& (c.digest == sha256_of(orig) && 4 * c.offset_deltas.len() <= orig.len() ==> r
                == Ok::<(), PatchError>(()) && now == apply_model(orig, c.offset_deltas))
        },
    }
}

/// Decompress a compressed patch, parse the container, verify the target's
/// digest, and apply the deltas in place. On any failure the target is left
/// exactly as it was.
pub fn apply_compressed_patch(target: &mut Vec<u8>, patch: &Vec<u8>) -> (r: Result<(), PatchError>)
    ensures
        r is Err ==> final(target)@ == old(target)@,
        forall|raw: Seq<u8>|
            patch@ == gzip_of(raw) ==> apply_outcome(old(target)@, raw, r, final(target)@),
{
    let raw = match gzip_decompress(patch) {
        Some(v) => v,
        None => {
            return Err(PatchError::Decompression);
        },
    };
    let container = match parse_container(&raw) {
        Ok(c) => c,
        Err(e) => {
            return Err(e);
        },
    };
    apply_patch(target, &container)
}

} // verus!
