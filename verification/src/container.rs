//! The patch container: integrity digest, textual change records, and signed
//! offset deltas, with its well-formedness bounds and failure kinds.

use vstd::prelude::*;
use vstd::utf8::encode_utf8;

verus! {

/// Why creating, parsing, or applying a patch failed.
#[derive(Clone, Copy, Debug, PartialEq, Eq, Structural)]
pub enum PatchError {
    /// The container stream ended before a declared field was complete.
    Truncated,
    /// A change record's declared bytes are not valid UTF-8 text.
    InvalidText,
    /// The target's current digest differs from the one stored in the patch.
    DigestMismatch,
    /// The stored deltas reach past the end of the target.
    LengthMismatch,
    /// The compressed patch stream could not be decompressed.
    Decompression,
}

/// One patch: the digest of the file to be patched, the textual change
/// records, and the offset deltas that drive application.
pub struct PatchContainer {
    pub digest: Vec<u8>,
    pub change_records: Vec<String>,
    pub offset_deltas: Vec<i64>,
}

/// The mathematical model of a [`PatchContainer`].
pub ghost struct ContainerModel {
    pub digest: Seq<u8>,
    pub change_records: Seq<Seq<char>>,
    pub offset_deltas: Seq<int>,
}

impl View for PatchContainer {
    type V = ContainerModel;

    open spec fn view(&self) -> ContainerModel {
        ContainerModel {
            digest: self.digest@,
            change_records: self.change_records@.map_values(|r: String| r@),
            offset_deltas: self.offset_deltas@.map_values(|d: i64| d as int),
        }
    }
}

/// A container that the binary format can carry: a 32-byte digest, counts
/// that fit the format's 32-bit fields, record texts whose encodings fit a
/// 32-bit length, and deltas that fit a signed 64-bit field.
pub open spec fn container_wf(c: ContainerModel) -> bool {
    &&& c.digest.len() == 32
    &&& c.change_records.len() <= u32::MAX
    &&& forall|i: int|
        0 <= i < c.change_records.len() ==> encode_utf8(#[trigger] c.change_records[i]).len()
            <= u32::MAX
    &&& c.offset_deltas.len() <= u32::MAX
    &&& forall|i: int|
        0 <= i < c.offset_deltas.len() ==> i64::MIN <= #[trigger] c.offset_deltas[i] <= i64::MAX
}

} // verus!
