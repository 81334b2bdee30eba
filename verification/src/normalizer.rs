//! Normalization: strip absolute-position information from a unit sequence
//! so structurally identical units compare equal regardless of location.

use vstd::prelude::*;
use vstd::string::*;
use crate::chunker::{chunk_model, chunk_models};
use crate::hex::hex_digit;
use crate::hex::hex_pad;
use crate::hex::hex_uint;
use crate::hex::to_hex_padded;
use crate::instruction::{address_bits, to_address_bits, Instruction, InstructionModel};
use crate::strutil::{first_match_from, match_at, replace_first, replace_first_spec};

verus! {

/// The placeholder that stands in for a unit's own address in its operand
/// text after normalization.
pub open spec fn placeholder() -> Seq<char> {
    seq!['S', 'Y', 'M', 'R', 'E', 'F']
}

/// The pattern that normalization replaces: the unit's own address as at
/// least eight uppercase hexadecimal digits.
pub open spec fn address_pattern(a: int) -> Seq<char> {
    hex_pad(address_bits(a) as nat, 8)
}

/// One unit normalized: address zeroed, the first occurrence of its own
/// address text replaced by the placeholder, label kept.
pub open spec fn normal_model(u: InstructionModel) -> InstructionModel {
    InstructionModel {
        op_code: u.op_code,
        address: 0,
        operands: replace_first_spec(u.operands, address_pattern(u.address), placeholder()),
    }
}

/// A whole sequence of units normalized.
pub open spec fn normal_models(s: Seq<InstructionModel>) -> Seq<InstructionModel> {
    s.map_values(|u: InstructionModel| normal_model(u))
}

/// A pure pass over a unit sequence: each unit gets address zero and its own
/// address text (eight or more uppercase hexadecimal digits) replaced by a
/// placeholder in the operand text; labels are kept; the input is untouched.
pub fn normalize(assembly_code: &Vec<Instruction>) -> (r: Vec<Instruction>)
    ensures
        r@.len() == assembly_code@.len(),
        forall|i: int|
            0 <= i < r@.len() ==> (#[trigger] r@[i])@ == normal_model(assembly_code@[i]@),
{
    proof {
        reveal_strlit("SYMREF");
    }
    let mut out: Vec<Instruction> = Vec::new();
    let mut i: usize = 0;
    while i < assembly_code.len()
        invariant
            i <= assembly_code@.len(),
            out@.len() == i,
            forall|k: int|
                0 <= k < i ==> (#[trigger] out@[k])@ == normal_model(assembly_code@[k]@),
            "SYMREF"@ =~= placeholder(),
        decreases assembly_code@.len() - i,
    {
        let inst = &assembly_code[i];
        let pattern = to_hex_padded(to_address_bits(inst.address), 8);
        let operands = replace_first(inst.operands.as_str(), pattern.as_str(), "SYMREF");
        out.push(Instruction::new(inst.op_code.clone(), 0, operands));
        i += 1;
    }
    out
}

/// Normalizing twice is the same as normalizing once, provided no normalized
/// operand text happens to contain the all-zero address pattern (eight
/// consecutive `0` characters) that a second pass would see as the zeroed
/// unit's own address.
pub proof fn lemma_normalize_idempotent(s: Seq<InstructionModel>)
    requires
        forall|i: int, k: int|
            0 <= i < s.len() ==> !#[trigger] match_at(
                normal_model(s[i]).operands,
                address_pattern(0),
                k,
            ),
    ensures
        normal_models(normal_models(s)) == normal_models(s),
{
    let n = normal_models(s);
    assert forall|i: int| 0 <= i < n.len() implies #[trigger] normal_models(n)[i] == n[i] by {
        assert(n[i] == normal_model(s[i]));
        crate::strutil::lemma_first_match_absent(n[i].operands, address_pattern(0));
        assert(normal_model(n[i]).operands == n[i].operands);
        assert(normal_model(n[i]) == n[i]);
    }
    assert(normal_models(n) =~= n);
}

/// In a sequence where each element repeats its predecessor, every element
/// equals the first.
proof fn lemma_const_chain(s: Seq<char>, j: int)
    requires
        0 <= j < s.len(),
        forall|t: int| 1 <= t < s.len() ==> #[trigger] s[t] == s[t - 1],
    ensures
        s[j] == s[0],
    decreases j,
{
    if j > 0 {
        lemma_const_chain(s, j - 1);
    }
}

/// The operand text of a normalized decomposition unit never contains the
/// zeroed address pattern: where the unit's digits are few, its letters
/// break every eight-character window; where its own address text filled the
/// operand field, the placeholder has replaced it whole.
pub proof fn lemma_normal_chunk_operands(i: int)
    requires
        0 <= i,
        4 * i <= i64::MAX,
    ensures
        forall|k: int| !match_at(normal_model(chunk_model(i)).operands, address_pattern(0), k),
{
    let v = (4 * i) as nat;
    let letters = seq!['O', 'P', 'E', 'R', 'A', 'N', 'D'];
    let dg = hex_uint(v);
    let h = dg.len() as int;
    let opnd = chunk_model(i).operands;
    let pat = address_pattern(4 * i);
    assert(address_bits(4 * i) == 4 * i);
    assert(pat == hex_pad(v, 8));
    crate::hex::lemma_hex_uint_chars(v);
    crate::hex::lemma_hex_pad_len(v, 2);
    crate::hex::lemma_hex_pad_len(v, 8);
    let zpat = address_pattern(0);
    assert(address_bits(0) == 0);
    assert(hex_uint(0) =~= seq![hex_digit(0)]);
    assert(hex_digit(0) == '0');
    assert(zpat.len() == 8);
    assert forall|t: int| 0 <= t < 8 implies zpat[t] == '0' by {
        if t < 7 {
            assert(zpat[t] == crate::hex::zero_run(7)[t]);
        } else {
            assert(zpat[t] == hex_uint(0)[0]);
        }
    }
    assert(opnd =~= letters + hex_pad(v, 2));
    if h < 8 {
        assert(pat.len() == 8);
        assert(pat[0] == crate::hex::zero_run((8 - h) as nat)[0]);
        assert(pat[0] == '0');
        assert(opnd.len() <= 14);
        assert forall|k: int| !match_at(opnd, pat, k) by {
            if 0 <= k && k + 8 <= opnd.len() {
                assert(k <= 6);
                assert(opnd[k] == letters[k]);
                assert(opnd[k] != '0');
                assert(opnd.subrange(k, k + 8)[0] == opnd[k]);
            }
        }
        crate::strutil::lemma_first_match_absent(opnd, pat);
        assert(normal_model(chunk_model(i)).operands == opnd);
        assert forall|k: int| !match_at(opnd, zpat, k) by {
            if 0 <= k && k + 8 <= opnd.len() {
                assert(k <= 6);
                assert(opnd[k] == letters[k]);
                assert(opnd[k] != '0');
                assert(opnd.subrange(k, k + 8)[0] == opnd[k]);
            }
        }
    } else {
        assert(hex_pad(v, 2) == dg);
        assert(pat == dg);
        assert(opnd.len() == 7 + h);
        assert forall|k: int| 0 <= k < 7 implies !match_at(opnd, pat, k) by {
            if k + h <= opnd.len() {
                if k <= 5 {
                    if opnd.subrange(k, k + h) == dg {
                        assert(opnd.subrange(k, k + h)[5 - k] == opnd[5]);
                        assert(opnd[5] == letters[5]);
                        assert(dg[5 - k] == 'N');
                        assert(crate::hex::is_hex_char('N'));
                        assert(false);
                    }
                } else {
                    if opnd.subrange(6, 6 + h) == dg {
                        assert forall|t: int| 1 <= t < h implies #[trigger] dg[t] == dg[t - 1] by {
                            assert(opnd.subrange(6, 6 + h)[t] == opnd[6 + t]);
                            assert(opnd[6 + t] == hex_pad(v, 2)[t - 1]);
                        }
                        lemma_const_chain(dg, h - 1);
                        assert(opnd.subrange(6, 6 + h)[0] == opnd[6]);
                        assert(dg[0] == letters[6]);
                        assert(dg[h - 1] == 'D');
                        crate::hex::lemma_hex_uint_last(v);
                        assert(v % 4 == 0) by (nonlinear_arith)
                            requires
                                v == (4 * i) as nat,
                                0 <= i,
                        ;
                        assert((v % 16) % 4 == v % 4) by (nonlinear_arith);
                        assert(v % 16 == 0 || v % 16 == 4 || v % 16 == 8 || v % 16 == 12);
                        assert(hex_digit(0) == '0');
                        assert(hex_digit(4) == '4');
                        assert(hex_digit(8) == '8');
                        assert(hex_digit(12) == 'C');
                        assert(false);
                    }
                }
            }
        }
        assert(opnd.subrange(7, 7 + h) =~= dg);
        assert(match_at(opnd, pat, 7));
        crate::strutil::lemma_first_match_found(opnd, pat, 7);
        let replaced = opnd.take(7) + placeholder() + opnd.skip(7 + h);
        assert(normal_model(chunk_model(i)).operands == replaced);
        let full = letters + placeholder();
        assert(replaced =~= full);
        assert forall|k: int| !match_at(replaced, zpat, k) by {
            if 0 <= k && k + 8 <= replaced.len() {
                assert(k <= 5);
                assert(replaced[k] == full[k]);
                assert(full[k] != '0');
                assert(replaced.subrange(k, k + 8)[0] == replaced[k]);
            }
        }
    }
}

/// Normalizing a byte stream's decomposition twice equals normalizing it
/// once: decompositions always satisfy the proviso of
/// [`lemma_normalize_idempotent`].
pub proof fn lemma_normalize_idempotent_on_decompositions(len: nat)
    requires
        len + 3 <= i64::MAX,
    ensures
        normal_models(normal_models(chunk_models(len))) == normal_models(chunk_models(len)),
{
    let s = chunk_models(len);
    assert forall|i: int, k: int| 0 <= i < s.len() implies !#[trigger] match_at(
        normal_model(s[i]).operands,
        address_pattern(0),
        k,
    ) by {
        assert(4 * i <= len + 3) by (nonlinear_arith)
            requires
                0 <= i < (len + 3) / 4,
        ;
        lemma_normal_chunk_operands(i);
        assert(s[i] == chunk_model(i));
    }
    lemma_normalize_idempotent(s);
}

} // verus!
