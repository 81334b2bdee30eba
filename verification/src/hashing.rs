//! Whole-stream content digests.
//!
//! The digest of a byte stream depends on the byte content alone, never on
//! how the stream was split into blocks while it was read.

use vstd::prelude::*;
use sha2::Digest;

verus! {

/// The 32-byte SHA-256 digest of a byte sequence. What the digest's bytes
/// are is left unstated; it is a function of the content alone.
pub uninterp spec fn sha256_of(bytes: Seq<u8>) -> Seq<u8>;

/// Relies on sha2::Sha256 (through digest::Digest::digest): the digest is a
/// pure function of the input bytes and is always 32 bytes long.
#[verifier::external_body]
fn sha256_digest(data: &[u8]) -> (r: Vec<u8>)
    ensures
        r@ == sha256_of(data@),
        r@.len() == 32,
{
    let d = sha2::Sha256::digest(data);
    d.to_vec()
}

/// The SHA-256 digest of a byte stream handed over whole.
pub fn calculate_file_hash(data: &Vec<u8>) -> (r: Vec<u8>)
    ensures
        r@ == sha256_of(data@),
        r@.len() == 32,
{
    sha256_digest(data.as_slice())
}

/// The concatenation of the first `i` blocks.
pub open spec fn concat_upto(blocks: Seq<Seq<u8>>, i: int) -> Seq<u8>
    decreases i,
{
    if i <= 0 {
        Seq::empty()
    } else {
        concat_upto(blocks, i - 1) + blocks[i - 1]
    }
}

/// The concatenation of all blocks of a split stream.
pub open spec fn concat_blocks(blocks: Seq<Seq<u8>>) -> Seq<u8> {
    concat_upto(blocks, blocks.len() as int)
}

/// The SHA-256 digest of a byte stream handed over as a sequence of blocks
/// of any sizes: the digest is that of the concatenated content.
pub fn calculate_file_hash_blocks(blocks: &Vec<Vec<u8>>) -> (r: Vec<u8>)
    ensures
        r@ == sha256_of(concat_blocks(blocks@.map_values(|b: Vec<u8>| b@))),
        r@.len() == 32,
{
    let ghost bm = blocks@.map_values(|b: Vec<u8>| b@);
    let mut all: Vec<u8> = Vec::new();
    let mut i: usize = 0;
    while i < blocks.len()
        invariant
            bm == blocks@.map_values(|b: Vec<u8>| b@),
            i <= blocks@.len(),
            all@ == concat_upto(bm, i as int),
        decreases blocks@.len() - i,
    {
        let block = &blocks[i];
        let mut j: usize = 0;
        while j < block.len()
            invariant
                0 <= i < blocks@.len(),
                bm == blocks@.map_values(|b: Vec<u8>| b@),
                block == blocks@[i as int],
                j <= block@.len(),
                all@ == concat_upto(bm, i as int) + block@.take(j as int),
            decreases block@.len() - j,
        {
            all.push(block[j]);
            proof {
                assert(all@ =~= concat_upto(bm, i as int) + block@.take(j + 1));
            }
            j += 1;
        }
        proof {
            assert(all@ =~= concat_upto(bm, i + 1));
        }
        i += 1;
    }
    calculate_file_hash(&all)
}

/// Hashing the same byte content through different block-size splits yields
/// the same digest: the digest depends on the concatenated content alone.
pub proof fn lemma_hash_split_independent(a: Seq<Seq<u8>>, b: Seq<Seq<u8>>)
    requires
        concat_blocks(a) == concat_blocks(b),
    ensures
        sha256_of(concat_blocks(a)) == sha256_of(concat_blocks(b)),
{
}

} // verus!
