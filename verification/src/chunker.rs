//! Decomposition of a byte stream into fixed-size addressable units.
//!
//! Every four bytes become one unit; a final short group still becomes a
//! unit of its own. Labels and operand texts are synthetic, derived from the
//! unit's byte offset alone, never from the bytes themselves.

use vstd::prelude::*;
use vstd::string::*;
use crate::hex::hex_pad;
use crate::hex::to_hex_padded;
use crate::instruction::{Instruction, InstructionModel};

verus! {

/// How many units a stream of `len` bytes decomposes into.
pub open spec fn chunk_count(len: nat) -> nat {
    (len + 3) / 4
}

/// How many bytes the unit at index `i` spans in a stream of `len` bytes:
/// four, or fewer for the final short unit.
pub open spec fn chunk_span(i: int, len: nat) -> int {
    if len - 4 * i >= 4 {
        4
    } else {
        len - 4 * i
    }
}

/// The index of the unit that covers byte offset `b`.
pub open spec fn unit_of_byte(b: int) -> int {
    b / 4
}

/// The unit produced for the group starting at byte offset `4 * i`.
pub open spec fn chunk_model(i: int) -> InstructionModel {
    InstructionModel {
        op_code: seq!['O', 'P'] + hex_pad((4 * i) as nat, 2),
        address: 4 * i,
        operands: seq!['O', 'P', 'E', 'R', 'A', 'N', 'D'] + hex_pad((4 * i) as nat, 2),
    }
}

/// The full decomposition of a stream of `len` bytes.
pub open spec fn chunk_models(len: nat) -> Seq<InstructionModel> {
    Seq::new(chunk_count(len), |i: int| chunk_model(i))
}

/// Chunking covers the stream exactly: a stream of `len` bytes yields
/// `(len + 3) / 4` units; the unit at index `i` starts at byte `4 * i`; every
/// unit but the last spans four bytes; the last unit ends exactly at `len`;
/// and each byte of the stream falls in exactly the unit at its offset
/// divided by four.
pub proof fn lemma_chunking_covers(len: nat)
    ensures
        chunk_models(len).len() == chunk_count(len),
        len == 0 ==> chunk_count(len) == 0,
        len > 0 ==> chunk_count(len) >= 1,
        forall|i: int|
            0 <= i < chunk_count(len) ==> (#[trigger] chunk_models(len)[i]).address == 4 * i,
        forall|i: int|
            0 <= i < chunk_count(len) ==> 1 <= #[trigger] chunk_span(i, len) <= 4,
        forall|i: int|
            0 <= i < chunk_count(len) - 1 ==> #[trigger] chunk_span(i, len) == 4,
        len > 0 ==> 4 * (chunk_count(len) - 1) + chunk_span(chunk_count(len) - 1, len) == len,
        forall|b: int|
            0 <= b < len ==> {
                let i = #[trigger] unit_of_byte(b);
                &&& 0 <= i < chunk_count(len)
                &&& 4 * i <= b < 4 * i + chunk_span(i, len)
            },
{
    assert forall|i: int| 0 <= i < chunk_count(len) implies 1 <= #[trigger] chunk_span(i, len)
        <= 4 by {
        assert(i <= (len + 3) / 4 - 1);
        assert(4 * i <= 4 * ((len + 3) / 4 - 1)) by (nonlinear_arith)
            requires
                i <= (len + 3) / 4 - 1,
        ;
        assert(4 * ((len + 3) / 4) <= len + 3) by (nonlinear_arith);
        assert(4 * i <= len - 1);
    }
    assert forall|i: int| 0 <= i < chunk_count(len) - 1 implies #[trigger] chunk_span(i, len)
        == 4 by {
        assert(i + 1 <= (len + 3) / 4 - 1);
        assert(4 * (i + 1) <= 4 * ((len + 3) / 4 - 1)) by (nonlinear_arith)
            requires
                i + 1 <= (len + 3) / 4 - 1,
        ;
        assert(4 * ((len + 3) / 4) <= len + 3) by (nonlinear_arith);
    }
    if len > 0 {
        let last = chunk_count(len) - 1;
        assert(4 * ((len + 3) / 4) >= len) by (nonlinear_arith);
        assert(4 * ((len + 3) / 4) <= len + 3) by (nonlinear_arith);
        assert(4 * last >= len - 4);
        assert(chunk_span(last, len) == len - 4 * last || chunk_span(last, len) == 4);
    }
    assert forall|b: int| 0 <= b < len implies {
        let i = #[trigger] unit_of_byte(b);
        &&& 0 <= i < chunk_count(len)
        &&& 4 * i <= b < 4 * i + chunk_span(i, len)
    } by {
        let i = unit_of_byte(b);
        assert(4 * (b / 4) <= b < 4 * (b / 4) + 4) by (nonlinear_arith)
            requires
                b >= 0,
        ;
        assert(i < (len + 3) / 4) by (nonlinear_arith)
            requires
                0 <= b < len,
                i == b / 4,
        ;
    }
}

/// Decompose a byte stream into units: one per four-byte group, each labelled
/// and described by its own offset in hexadecimal, never by the bytes.
pub fn streaming_disassemble(data: &Vec<u8>) -> (r: Vec<Instruction>)
    requires
        data@.len() <= i64::MAX,
    ensures
        r@.len() == chunk_count(data@.len()),
        forall|i: int| 0 <= i < r@.len() ==> (#[trigger] r@[i])@ == chunk_model(i),
{
    proof {
        reveal_strlit("OP");
        reveal_strlit("OPERAND");
    }
    let len = data.len();
    let mut instructions: Vec<Instruction> = Vec::new();
    let mut address: usize = 0;
    while address < len
        invariant
            len == data@.len() <= i64::MAX,
            address <= len,
            4 * instructions@.len() == address || address == len,
            instructions@.len() == chunk_count(address as nat),
            forall|i: int|
                0 <= i < instructions@.len() ==> (#[trigger] instructions@[i])@ == chunk_model(i),
            "OP"@ =~= seq!['O', 'P'],
            "OPERAND"@ =~= seq!['O', 'P', 'E', 'R', 'A', 'N', 'D'],
        decreases len - address,
    {
        let group = if len - address >= 4 {
            4
        } else {
            len - address
        };
        let mut op_code = String::new();
        op_code.append("OP");
        let h = to_hex_padded(address as u64, 2);
        op_code.append(h.as_str());
        let mut operands = String::new();
        operands.append("OPERAND");
        operands.append(h.as_str());
        let ghost idx = instructions@.len() as int;
        proof {
            assert(address == 4 * idx);
            assert(op_code@ =~= chunk_model(idx).op_code);
            assert(operands@ =~= chunk_model(idx).operands);
        }
        instructions.push(Instruction::new(op_code, address as i64, operands));
        address += group;
        proof {
            assert(instructions@.len() == idx + 1);
            if len - 4 * idx >= 4 {
                assert(address == 4 * (idx + 1));
                assert((4 * (idx + 1) + 3) / 4 == idx + 1) by (nonlinear_arith);
            } else {
                assert(address == len);
                let g = len - 4 * idx;
                assert(1 <= g <= 3);
                assert((4 * idx + g + 3) / 4 == idx + 1) by (nonlinear_arith)
                    requires
                        1 <= g <= 3,
                ;
            }
        }
    }
    instructions
}

} // verus!
