//! Positional alignment of two unit sequences into textual change records
//! and signed offset deltas.
//!
//! The diff is position-indexed, not a minimal edit script: an insertion that
//! shifts later units makes every later position register as changed.

use vstd::prelude::*;
use vstd::string::*;
use crate::instruction::{render, Instruction, InstructionModel};

verus! {

/// The models of a sequence of units.
pub open spec fn unit_models(s: Seq<Instruction>) -> Seq<InstructionModel> {
    s.map_values(|u: Instruction| u@)
}

/// The change record emitted at position `i`, if any: `+` for a unit only in
/// the new sequence, `-` for one only in the old, `~old -> new` for a pair
/// whose rendered text differs, nothing for an identical pair.
pub open spec fn record_at(
    old_s: Seq<InstructionModel>,
    new_s: Seq<InstructionModel>,
    i: int,
) -> Option<Seq<char>> {
    if i >= old_s.len() {
        Some(seq!['+'] + render(new_s[i]))
    } else if i >= new_s.len() {
        Some(seq!['-'] + render(old_s[i]))
    } else if render(old_s[i]) != render(new_s[i]) {
        Some(seq!['~'] + render(old_s[i]) + seq![' ', '-', '>', ' '] + render(new_s[i]))
    } else {
        None
    }
}

/// The change records for positions `0 .. i`.
pub open spec fn diff_upto(
    old_s: Seq<InstructionModel>,
    new_s: Seq<InstructionModel>,
    i: int,
) -> Seq<Seq<char>>
    decreases i,
{
    if i <= 0 {
        Seq::empty()
    } else {
        diff_upto(old_s, new_s, i - 1) + match record_at(old_s, new_s, i - 1) {
            Some(r) => seq![r],
            None => Seq::empty(),
        }
    }
}

/// All change records of the positional diff of two unit sequences.
pub open spec fn diff_models(
    old_s: Seq<InstructionModel>,
    new_s: Seq<InstructionModel>,
) -> Seq<Seq<char>> {
    diff_upto(old_s, new_s, vstd::math::max(old_s.len() as int, new_s.len() as int))
}

/// The character sequences of a sequence of strings.
pub open spec fn text_models(s: Seq<String>) -> Seq<Seq<char>> {
    s.map_values(|t: String| t@)
}

/// The positional diff of two unit sequences, scanning index by index up to
/// the longer length and emitting one prefixed text line per added, removed,
/// or changed position.
pub fn generate_diff(old_code: &Vec<Instruction>, new_code: &Vec<Instruction>) -> (r: Vec<String>)
    ensures
        text_models(r@) == diff_models(unit_models(old_code@), unit_models(new_code@)),
{
    proof {
        reveal_strlit("+");
        reveal_strlit("-");
        reveal_strlit("~");
        reveal_strlit(" -> ");
    }
    let ghost old_m = unit_models(old_code@);
    let ghost new_m = unit_models(new_code@);
    let mut diff: Vec<String> = Vec::new();
    let max_length = if old_code.len() >= new_code.len() {
        old_code.len()
    } else {
        new_code.len()
    };
    let mut i: usize = 0;
    while i < max_length
        invariant
            old_m == unit_models(old_code@),
            new_m == unit_models(new_code@),
            max_length == vstd::math::max(old_code@.len() as int, new_code@.len() as int),
            i <= max_length,
            text_models(diff@) == diff_upto(old_m, new_m, i as int),
            "+"@ =~= seq!['+'],
            "-"@ =~= seq!['-'],
            "~"@ =~= seq!['~'],
            " -> "@ =~= seq![' ', '-', '>', ' '],
        decreases max_length - i,
    {
        let ghost prev = diff@;
        if i >= old_code.len() {
            let mut line = String::new();
            line.append("+");
            let t = new_code[i].to_string();
            line.append(t.as_str());
            proof {
                assert(line@ =~= seq!['+'] + render(new_m[i as int]));
            }
            diff.push(line);
        } else if i >= new_code.len() {
            let mut line = String::new();
            line.append("-");
            let t = old_code[i].to_string();
            line.append(t.as_str());
            proof {
                assert(line@ =~= seq!['-'] + render(old_m[i as int]));
            }
            diff.push(line);
        } else {
            let old_text = old_code[i].to_string();
            let new_text = new_code[i].to_string();
            if old_text != new_text {
                let mut line = String::new();
                line.append("~");
                line.append(old_text.as_str());
                line.append(" -> ");
                line.append(new_text.as_str());
                proof {
                    assert(line@ =~= seq!['~'] + render(old_m[i as int]) + seq![' ', '-', '>', ' ']
                        + render(new_m[i as int]));
                }
                diff.push(line);
            }
        }
        proof {
            assert(text_models(diff@) =~= diff_upto(old_m, new_m, i + 1));
        }
        i += 1;
    }
    diff
}

/// Comparing a normalized sequence against itself yields no change records.
pub proof fn lemma_diff_reflexive(s: Seq<InstructionModel>)
    ensures
        diff_models(s, s) == Seq::<Seq<char>>::empty(),
{
    lemma_diff_reflexive_upto(s, s.len() as int);
}

proof fn lemma_diff_reflexive_upto(s: Seq<InstructionModel>, i: int)
    requires
        i <= s.len(),
    ensures
        diff_upto(s, s, i) == Seq::<Seq<char>>::empty(),
    decreases i,
{
    if i > 0 {
        lemma_diff_reflexive_upto(s, i - 1);
        assert(record_at(s, s, i - 1) is None);
        assert(diff_upto(s, s, i) =~= Seq::<Seq<char>>::empty());
    }
}

/// The signed offset delta at each position present in both sequences:
/// `new.address - old.address`, from the pre-normalization offsets; positions
/// beyond the shorter sequence produce no delta.
pub open spec fn delta_models(
    old_s: Seq<InstructionModel>,
    new_s: Seq<InstructionModel>,
) -> Seq<int> {
    Seq::new(
        vstd::math::min(old_s.len() as int, new_s.len() as int) as nat,
        |i: int| new_s[i].address - old_s[i].address,
    )
}

/// Pair the first `min(len(old), len(new))` units and return the signed
/// offset difference of each pair, in order.
pub fn extract_address_changes(
    old_disassembled: &Vec<Instruction>,
    new_disassembled: &Vec<Instruction>,
) -> (r: Vec<i64>)
    requires
        forall|i: int|
            0 <= i < vstd::math::min(old_disassembled@.len() as int, new_disassembled@.len() as int)
                ==> i64::MIN <= (#[trigger] new_disassembled@[i])@.address
                - old_disassembled@[i]@.address <= i64::MAX,
    ensures
        r@.len() == vstd::math::min(old_disassembled@.len() as int, new_disassembled@.len() as int),
        forall|i: int|
            0 <= i < r@.len() ==> #[trigger] r@[i] == new_disassembled@[i]@.address
                - old_disassembled@[i]@.address,
        r@.map_values(|d: i64| d as int) == delta_models(
            unit_models(old_disassembled@),
            unit_models(new_disassembled@),
        ),
{
    let n = if old_disassembled.len() <= new_disassembled.len() {
        old_disassembled.len()
    } else {
        new_disassembled.len()
    };
    let mut changes: Vec<i64> = Vec::new();
    let mut i: usize = 0;
    while i < n
        invariant
            n == vstd::math::min(old_disassembled@.len() as int, new_disassembled@.len() as int),
            i <= n,
            changes@.len() == i,
            forall|k: int|
                0 <= k < i ==> #[trigger] changes@[k] == new_disassembled@[k]@.address
                    - old_disassembled@[k]@.address,
            forall|k: int|
                0 <= k < n ==> i64::MIN <= (#[trigger] new_disassembled@[k])@.address
                    - old_disassembled@[k]@.address <= i64::MAX,
        decreases n - i,
    {
        changes.push(new_disassembled[i].address - old_disassembled[i].address);
        i += 1;
    }
    proof {
        assert(changes@.map_values(|d: i64| d as int) =~= delta_models(
            unit_models(old_disassembled@),
            unit_models(new_disassembled@),
        ));
    }
    changes
}

/// Every change record is bounded by the rendered texts it is built from,
/// and there is at most one record per scanned position.
pub proof fn lemma_diff_bounds(
    old_s: Seq<InstructionModel>,
    new_s: Seq<InstructionModel>,
    i: int,
    b: nat,
)
    requires
        i <= vstd::math::max(old_s.len() as int, new_s.len() as int),
        forall|k: int| 0 <= k < old_s.len() ==> (render(#[trigger] old_s[k])).len() <= b,
        forall|k: int| 0 <= k < new_s.len() ==> (render(#[trigger] new_s[k])).len() <= b,
    ensures
        diff_upto(old_s, new_s, i).len() <= if i >= 0 {
            i
        } else {
            0
        },
        forall|t: int|
            0 <= t < diff_upto(old_s, new_s, i).len() ==> (#[trigger] diff_upto(
                old_s,
                new_s,
                i,
            )[t]).len() <= 2 * b + 5,
    decreases i,
{
    if i > 0 {
        lemma_diff_bounds(old_s, new_s, i - 1, b);
        match record_at(old_s, new_s, i - 1) {
            Some(r) => {
                assert(r.len() <= 2 * b + 5);
                assert(diff_upto(old_s, new_s, i) == diff_upto(old_s, new_s, i - 1) + seq![r]);
            },
            None => {
                assert(diff_upto(old_s, new_s, i) =~= diff_upto(old_s, new_s, i - 1));
            },
        }
    }
}

} // verus!
