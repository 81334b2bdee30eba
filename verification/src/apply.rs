//! Patch application: verify the target's digest against the container,
//! then add each stored delta, truncated to 32 bits, to the little-endian
//! 32-bit field at the matching unit position.

use vstd::prelude::*;
use vstd::bytes::{spec_u32_from_le_bytes, spec_u32_to_le_bytes, u32_from_le_bytes, u32_to_le_bytes};
use vstd::slice::slice_subrange;
use crate::codec::push_bytes;
use crate::container::{PatchContainer, PatchError};
use crate::hashing::{calculate_file_hash, sha256_of};
use crate::instruction::{address_bits, to_address_bits};

verus! {

/// A delta narrowed to its low 32 two's-complement bits.
pub open spec fn delta_bits32(d: int) -> u32 {
    (address_bits(d) % 0x1_0000_0000) as u32
}

/// The bytes that replace the 32-bit field of unit `i`: the field's value
/// plus the delta's low 32 bits, wrapping.
pub open spec fn patched_field(orig: Seq<u8>, deltas: Seq<int>, i: int) -> Seq<u8> {
    spec_u32_to_le_bytes(
        vstd::wrapping::u32_specs::wrapping_add(
            spec_u32_from_le_bytes(orig.subrange(4 * i, 4 * i + 4)),
            delta_bits32(deltas[i]),
        ),
    )
}

/// The target content after application: the first `len(deltas)` four-byte
/// fields patched in place, every byte after them untouched; the length
/// never changes.
pub open spec fn apply_model(orig: Seq<u8>, deltas: Seq<int>) -> Seq<u8>
    recommends
        4 * deltas.len() <= orig.len(),
{
    Seq::new(
        orig.len(),
        |j: int|
            if j < 4 * deltas.len() {
                patched_field(orig, deltas, j / 4)[j % 4]
            } else {
                orig[j]
            },
    )
}

/// The low 32 bits of a delta's two's-complement representation.
fn delta_to_bits32(d: i64) -> (r: u32)
    ensures
        r == delta_bits32(d as int),
{
    let bits = to_address_bits(d);
    (bits % 0x1_0000_0000) as u32
}

/// Whether two byte vectors hold the same bytes.
fn bytes_equal(a: &Vec<u8>, b: &Vec<u8>) -> (r: bool)
    ensures
        r == (a@ == b@),
{
    if a.len() != b.len() {
        return false;
    }
    let mut i: usize = 0;
    while i < a.len()
        invariant
            a@.len() == b@.len(),
            i <= a@.len(),
            forall|k: int| 0 <= k < i ==> a@[k] == b@[k],
        decreases a@.len() - i,
    {
        if a[i] != b[i] {
            return false;
        }
        i += 1;
    }
    proof {
        assert(a@ =~= b@);
    }
    true
}

/// Apply a parsed container to the target content, in place.
///
/// The target's current digest must equal the stored one, or nothing is
/// touched and a verification error comes back; the stored deltas must all
/// lie within the target, or nothing is touched and a length error comes
/// back. On success each delta is added, truncated to 32 bits and wrapping,
/// to the little-endian 32-bit field at four times its index, and the
/// target's length is unchanged. Change records are metadata only: they
/// never drive mutation.
#[verifier::loop_isolation(false)]
pub fn apply_patch(target: &mut Vec<u8>, container: &PatchContainer) -> (r: Result<(), PatchError>)
    ensures
        container@.digest != sha256_of(old(target)@) ==> r == Err::<(), PatchError>(
            PatchError::DigestMismatch,
        ) && final(target)@ == old(target)@,
        container@.digest == sha256_of(old(target)@) && 4 * container@.offset_deltas.len() > old(
            target,
        )@.len() ==> r == Err::<(), PatchError>(PatchError::LengthMismatch) && final(target)@
            == old(target)@,
        container@.digest == sha256_of(old(target)@) && 4 * container@.offset_deltas.len() <= old(
            target,
        )@.len() ==> r == Ok::<(), PatchError>(()) && final(target)@ == apply_model(
            old(target)@,
            container@.offset_deltas,
        ),
{
    let digest = calculate_file_hash(&*target);
    if !bytes_equal(&digest, &container.digest) {
        return Err(PatchError::DigestMismatch);
    }
    let len = target.len();
    let dlen = container.offset_deltas.len();
    if dlen > len / 4 {
        proof {
            assert(4 * (len as int / 4) <= len);
            assert(4 * dlen > len);
        }
        return Err(PatchError::LengthMismatch);
    }
    proof {
        assert(4 * (len as int / 4) <= len);
        assert(4 * dlen <= len) by (nonlinear_arith)
            requires
                dlen <= len as int / 4,
                4 * (len as int / 4) <= len,
        ;
    }
    let ghost orig = target@;
    let ghost ds = container@.offset_deltas;
    let mut out: Vec<u8> = Vec::new();
    let mut i: usize = 0;
    while i < dlen
        invariant
            i <= dlen,
            out@ == apply_model(orig, ds).take(4 * i as int),
        decreases dlen - i,
    {
        let field = u32_from_le_bytes(slice_subrange(target.as_slice(), 4 * i, 4 * i + 4));
        let bits = delta_to_bits32(container.offset_deltas[i]);
        let newf = field.wrapping_add(bits);
        let fb = u32_to_le_bytes(newf);
        push_bytes(&mut out, fb.as_slice());
        proof {
            let ii = i as int;
            assert(fb@ == patched_field(orig, ds, ii));
            assert((4 * ii + 0) / 4 == ii && (4 * ii + 0) % 4 == 0 && (4 * ii + 1) / 4 == ii && (4
                * ii + 1) % 4 == 1 && (4 * ii + 2) / 4 == ii && (4 * ii + 2) % 4 == 2 && (4 * ii
                + 3) / 4 == ii && (4 * ii + 3) % 4 == 3) by (nonlinear_arith);
            assert(out@ =~= apply_model(orig, ds).take(4 * (ii + 1)));
        }
        i += 1;
    }
    let tail = slice_subrange(target.as_slice(), 4 * dlen, len);
    push_bytes(&mut out, tail);
    proof {
        assert(out@ =~= apply_model(orig, ds));
    }
    *target = out;
    Ok(())
}

} // verus!
