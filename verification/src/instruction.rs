//! The addressable unit of a decomposed file: a synthetic opcode label, a
//! byte offset, and a synthetic operand text, with its textual rendering.

use vstd::prelude::*;
use vstd::string::*;
use crate::hex::{hex_pad, to_hex_padded};

verus! {

/// One decomposed unit of a byte stream.
pub struct Instruction {
    pub op_code: String,
    pub address: i64,
    pub operands: String,
}

/// The mathematical model of an [`Instruction`].
pub ghost struct InstructionModel {
    pub op_code: Seq<char>,
    pub address: int,
    pub operands: Seq<char>,
}

impl View for Instruction {
    type V = InstructionModel;

    open spec fn view(&self) -> InstructionModel {
        InstructionModel {
            op_code: self.op_code@,
            address: self.address as int,
            operands: self.operands@,
        }
    }
}

/// The two's-complement 64-bit value of a signed address, as rendered in
/// hexadecimal.
pub open spec fn address_bits(a: int) -> u64 {
    if a >= 0 {
        a as u64
    } else {
        (a + 0x1_0000_0000_0000_0000) as u64
    }
}

/// The textual rendering of a unit: opcode, the address as at least eight
/// uppercase hexadecimal digits, and the operand text, space-separated.
pub open spec fn render(u: InstructionModel) -> Seq<char> {
    u.op_code + seq![' '] + hex_pad(address_bits(u.address) as nat, 8) + seq![' '] + u.operands
}

/// The two's-complement 64-bit representation of `a`.
pub fn to_address_bits(a: i64) -> (r: u64)
    ensures
        r == address_bits(a as int),
{
    if a >= 0 {
        a as u64
    } else {
        let m = (-(a + 1)) as u64;
        u64::MAX - m
    }
}

impl Instruction {
    /// A unit built from its three fields.
    pub fn new(op_code: String, address: i64, operands: String) -> (r: Self)
        ensures
            r@ == (InstructionModel { op_code: op_code@, address: address as int, operands: operands@ }),
    {
        Self { op_code, address, operands }
    }

    /// The unit rendered as one line of text.
    pub fn to_string(&self) -> (r: String)
        ensures
            r@ == render(self@),
    {
        proof {
            reveal_strlit(" ");
        }
        let mut s = self.op_code.clone();
        s.append(" ");
        let h = to_hex_padded(to_address_bits(self.address), 8);
        s.append(h.as_str());
        s.append(" ");
        s.append(self.operands.as_str());
        proof {
            assert(" "@ =~= seq![' ']);
            assert(s@ =~= render(self@));
        }
        s
    }
}

} // verus!
