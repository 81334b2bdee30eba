//! The binary container format, its serializer and parser, and the proof
//! that they are inverse.
//!
//! Layout, all integers little-endian: 32-byte digest; `u32` record count;
//! per record a `u32` byte length and that many UTF-8 bytes; `u32` delta
//! count; one `i64` per delta. Trailing bytes after the last delta are
//! ignored.

use vstd::prelude::*;
use vstd::string::*;
use vstd::bytes::{
    lemma_auto_spec_u32_to_from_le_bytes, lemma_auto_spec_u64_to_from_le_bytes,
    spec_u32_from_le_bytes, spec_u32_to_le_bytes, spec_u64_from_le_bytes, spec_u64_to_le_bytes,
    u32_from_le_bytes, u32_to_le_bytes, u64_from_le_bytes, u64_to_le_bytes,
};
use vstd::slice::{slice_index_get, slice_subrange, slice_to_vec};
use vstd::utf8::{
    decode_utf8, decode_utf8_encode_utf8, encode_utf8, encode_utf8_decode_utf8,
    encode_utf8_valid_utf8, valid_utf8,
};
use crate::container::{container_wf, ContainerModel, PatchContainer, PatchError};
use crate::instruction::{address_bits, to_address_bits};

verus! {

/// The signed 64-bit value whose two's-complement bits are `u`.
pub open spec fn signed_of_bits(u: u64) -> int {
    if u < 0x8000_0000_0000_0000 {
        u as int
    } else {
        u - 0x1_0000_0000_0000_0000
    }
}

/// The signed 64-bit value whose two's-complement bits are `u`.
pub fn bits_to_signed(u: u64) -> (r: i64)
    ensures
        r as int == signed_of_bits(u),
{
    if u < 0x8000_0000_0000_0000 {
        u as i64
    } else {
        let m = u64::MAX - u;
        -(m as i64) - 1
    }
}

/// One record on the wire: its UTF-8 encoding, preceded by that encoding's
/// byte length.
pub open spec fn ser_record(r: Seq<char>) -> Seq<u8> {
    spec_u32_to_le_bytes(encode_utf8(r).len() as u32) + encode_utf8(r)
}

/// All records on the wire, in order.
pub open spec fn ser_records(rs: Seq<Seq<char>>) -> Seq<u8>
    decreases rs.len(),
{
    if rs.len() == 0 {
        Seq::empty()
    } else {
        ser_record(rs[0]) + ser_records(rs.drop_first())
    }
}

/// One delta on the wire: its two's-complement bits, little-endian.
pub open spec fn ser_delta(d: int) -> Seq<u8> {
    spec_u64_to_le_bytes(address_bits(d))
}

/// All deltas on the wire, in order.
pub open spec fn ser_deltas(ds: Seq<int>) -> Seq<u8>
    decreases ds.len(),
{
    if ds.len() == 0 {
        Seq::empty()
    } else {
        ser_delta(ds[0]) + ser_deltas(ds.drop_first())
    }
}

/// The whole container on the wire.
pub open spec fn serialize_model(c: ContainerModel) -> Seq<u8> {
    c.digest + spec_u32_to_le_bytes(c.change_records.len() as u32) + ser_records(c.change_records)
        + spec_u32_to_le_bytes(c.offset_deltas.len() as u32) + ser_deltas(c.offset_deltas)
}

/// Parse `n` length-prefixed records from the front of `bytes`; on success
/// also return what follows them.
pub open spec fn parse_records(bytes: Seq<u8>, n: nat) -> Result<
    (Seq<Seq<char>>, Seq<u8>),
    PatchError,
>
    decreases n,
{
    if n == 0 {
        Ok((Seq::empty(), bytes))
    } else if bytes.len() < 4 {
        Err(PatchError::Truncated)
    } else {
        let l = spec_u32_from_le_bytes(bytes.take(4)) as int;
        if bytes.len() < 4 + l {
            Err(PatchError::Truncated)
        } else if !valid_utf8(bytes.subrange(4, 4 + l)) {
            Err(PatchError::InvalidText)
        } else {
            match parse_records(bytes.skip(4 + l), (n - 1) as nat) {
                Ok(p) => Ok((seq![decode_utf8(bytes.subrange(4, 4 + l))] + p.0, p.1)),
                Err(e) => Err(e),
            }
        }
    }
}

/// Parse `n` eight-byte deltas from the front of `bytes`; on success also
/// return what follows them.
pub open spec fn parse_deltas(bytes: Seq<u8>, n: nat) -> Result<(Seq<int>, Seq<u8>), PatchError>
    decreases n,
{
    if n == 0 {
        Ok((Seq::empty(), bytes))
    } else if bytes.len() < 8 {
        Err(PatchError::Truncated)
    } else {
        match parse_deltas(bytes.skip(8), (n - 1) as nat) {
            Ok(p) => Ok((seq![signed_of_bits(spec_u64_from_le_bytes(bytes.take(8)))] + p.0, p.1)),
            Err(e) => Err(e),
        }
    }
}

/// Parse a whole container from the front of `bytes`. Trailing bytes after
/// the last delta are ignored.
pub open spec fn parse_model(bytes: Seq<u8>) -> Result<ContainerModel, PatchError> {
    if bytes.len() < 32 {
        Err(PatchError::Truncated)
    } else {
        let digest = bytes.take(32);
        let r1 = bytes.skip(32);
        if r1.len() < 4 {
            Err(PatchError::Truncated)
        } else {
            match parse_records(r1.skip(4), spec_u32_from_le_bytes(r1.take(4)) as nat) {
                Err(e) => Err(e),
                Ok(p) => {
                    let r2 = p.1;
                    if r2.len() < 4 {
                        Err(PatchError::Truncated)
                    } else {
                        match parse_deltas(r2.skip(4), spec_u32_from_le_bytes(r2.take(4)) as nat) {
                            Err(e) => Err(e),
                            Ok(q) => Ok(
                                ContainerModel {
                                    digest,
                                    change_records: p.0,
                                    offset_deltas: q.0,
                                },
                            ),
                        }
                    }
                }
            }
        }
    }
}

/// Relies on String::from_utf8: it succeeds exactly on valid UTF-8 input,
/// and then returns that input's decoding.
#[verifier::external_body]
fn bytes_to_text(bytes: Vec<u8>) -> (r: Option<String>)
    ensures
        r is Some <==> valid_utf8(bytes@),
        r matches Some(s) ==> s@ == decode_utf8(bytes@),
{
    match String::from_utf8(bytes) {
        Ok(s) => Some(s),
        Err(_) => None,
    }
}

/// Append a byte slice to a byte vector.
pub(crate) fn push_bytes(dst: &mut Vec<u8>, src: &[u8])
    ensures
        final(dst)@ == old(dst)@ + src@,
{
    let mut j: usize = 0;
    while j < src.len()
        invariant
            j <= src@.len(),
            dst@ == old(dst)@ + src@.take(j as int),
        decreases src@.len() - j,
    {
        dst.push(*slice_index_get(src, j));
        proof {
            assert(dst@ =~= old(dst)@ + src@.take(j + 1));
        }
        j += 1;
    }
    proof {
        assert(dst@ =~= old(dst)@ + src@);
    }
}

proof fn lemma_ser_records_snoc(rs: Seq<Seq<char>>, r: Seq<char>)
    ensures
        ser_records(rs.push(r)) == ser_records(rs) + ser_record(r),
    decreases rs.len(),
{
    if rs.len() == 0 {
        assert(rs.push(r)[0] == r);
        assert(rs.push(r).drop_first() =~= rs);
        assert(ser_records(rs.push(r)) == ser_record(r) + ser_records(rs));
        assert(ser_records(rs.push(r)) =~= ser_records(rs) + ser_record(r));
    } else {
        assert(rs.push(r)[0] == rs[0]);
        assert(rs.push(r).drop_first() =~= rs.drop_first().push(r));
        lemma_ser_records_snoc(rs.drop_first(), r);
        assert(ser_records(rs.push(r)) == ser_record(rs[0]) + ser_records(
            rs.drop_first().push(r),
        ));
        assert(ser_records(rs) == ser_record(rs[0]) + ser_records(rs.drop_first()));
        assert(ser_records(rs.push(r)) =~= ser_records(rs) + ser_record(r));
    }
}

proof fn lemma_ser_deltas_snoc(ds: Seq<int>, d: int)
    ensures
        ser_deltas(ds.push(d)) == ser_deltas(ds) + ser_delta(d),
    decreases ds.len(),
{
    if ds.len() == 0 {
        assert(ds.push(d)[0] == d);
        assert(ds.push(d).drop_first() =~= ds);
        assert(ser_deltas(ds.push(d)) == ser_delta(d) + ser_deltas(ds));
        assert(ser_deltas(ds.push(d)) =~= ser_deltas(ds) + ser_delta(d));
    } else {
        assert(ds.push(d)[0] == ds[0]);
        assert(ds.push(d).drop_first() =~= ds.drop_first().push(d));
        lemma_ser_deltas_snoc(ds.drop_first(), d);
        assert(ser_deltas(ds.push(d)) == ser_delta(ds[0]) + ser_deltas(ds.drop_first().push(d)));
        assert(ser_deltas(ds) == ser_delta(ds[0]) + ser_deltas(ds.drop_first()));
        assert(ser_deltas(ds.push(d)) =~= ser_deltas(ds) + ser_delta(d));
    }
}

/// Serialize a container into the wire format.
pub fn serialize_container(c: &PatchContainer) -> (out: Vec<u8>)
    requires
        container_wf(c@),
    ensures
        out@ == serialize_model(c@),
{
    let mut out: Vec<u8> = Vec::new();
    push_bytes(&mut out, c.digest.as_slice());
    let nb = u32_to_le_bytes(c.change_records.len() as u32);
    push_bytes(&mut out, nb.as_slice());
    let ghost head = c.digest@ + spec_u32_to_le_bytes(c.change_records@.len() as u32);
    proof {
        assert(out@ =~= head + ser_records(c@.change_records.take(0)));
    }
    let mut i: usize = 0;
    while i < c.change_records.len()
        invariant
            container_wf(c@),
            i <= c.change_records@.len(),
            head == c.digest@ + spec_u32_to_le_bytes(c.change_records@.len() as u32),
            out@ == head + ser_records(c@.change_records.take(i as int)),
        decreases c.change_records@.len() - i,
    {
        let rec_bytes = c.change_records[i].as_str().as_bytes_vec();
        let lb = u32_to_le_bytes(rec_bytes.len() as u32);
        push_bytes(&mut out, lb.as_slice());
        push_bytes(&mut out, rec_bytes.as_slice());
        proof {
            lemma_ser_records_snoc(c@.change_records.take(i as int), c@.change_records[i as int]);
            assert(c@.change_records.take(i + 1) =~= c@.change_records.take(i as int).push(
                c@.change_records[i as int],
            ));
            assert(out@ =~= head + ser_records(c@.change_records.take(i + 1)));
        }
        i += 1;
    }
    proof {
        assert(c@.change_records.take(c.change_records@.len() as int) =~= c@.change_records);
    }
    let mb = u32_to_le_bytes(c.offset_deltas.len() as u32);
    push_bytes(&mut out, mb.as_slice());
    let ghost head2 = head + ser_records(c@.change_records) + spec_u32_to_le_bytes(
        c.offset_deltas@.len() as u32,
    );
    proof {
        assert(out@ =~= head2 + ser_deltas(c@.offset_deltas.take(0)));
    }
    let mut k: usize = 0;
    while k < c.offset_deltas.len()
        invariant
            container_wf(c@),
            k <= c.offset_deltas@.len(),
            head2 == head + ser_records(c@.change_records) + spec_u32_to_le_bytes(
                c.offset_deltas@.len() as u32,
            ),
            out@ == head2 + ser_deltas(c@.offset_deltas.take(k as int)),
        decreases c.offset_deltas@.len() - k,
    {
        let db = u64_to_le_bytes(to_address_bits(c.offset_deltas[k]));
        push_bytes(&mut out, db.as_slice());
        proof {
            lemma_ser_deltas_snoc(c@.offset_deltas.take(k as int), c@.offset_deltas[k as int]);
            assert(c@.offset_deltas.take(k + 1) =~= c@.offset_deltas.take(k as int).push(
                c@.offset_deltas[k as int],
            ));
            assert(out@ =~= head2 + ser_deltas(c@.offset_deltas.take(k + 1)));
        }
        k += 1;
    }
    proof {
        assert(c@.offset_deltas.take(c.offset_deltas@.len() as int) =~= c@.offset_deltas);
        assert(out@ =~= serialize_model(c@));
    }
    out
}

/// What the rest of a records parse means for the whole of it: the records
/// already taken, then whatever the rest yields.
spec fn records_resume(
    whole: Result<(Seq<Seq<char>>, Seq<u8>), PatchError>,
    done: Seq<Seq<char>>,
    rest: Result<(Seq<Seq<char>>, Seq<u8>), PatchError>,
) -> bool {
    match rest {
        Ok(p) => whole == Ok::<(Seq<Seq<char>>, Seq<u8>), PatchError>((done + p.0, p.1)),
        Err(e) => whole == Err::<(Seq<Seq<char>>, Seq<u8>), PatchError>(e),
    }
}

/// What the rest of a deltas parse means for the whole of it.
spec fn deltas_resume(
    whole: Result<(Seq<int>, Seq<u8>), PatchError>,
    done: Seq<int>,
    rest: Result<(Seq<int>, Seq<u8>), PatchError>,
) -> bool {
    match rest {
        Ok(p) => whole == Ok::<(Seq<int>, Seq<u8>), PatchError>((done + p.0, p.1)),
        Err(e) => whole == Err::<(Seq<int>, Seq<u8>), PatchError>(e),
    }
}

/// Parse a container from the front of `bytes`, exactly as [`parse_model`]
/// reads it: a truncated stream or an invalid record text is rejected with
/// the matching error, and trailing bytes are ignored.
#[verifier::loop_isolation(false)]
pub fn parse_container(bytes: &Vec<u8>) -> (r: Result<PatchContainer, PatchError>)
    ensures
        match r {
            Ok(c) => parse_model(bytes@) == Ok::<ContainerModel, PatchError>(c@) && container_wf(
                c@,
            ),
            Err(e) => parse_model(bytes@) == Err::<ContainerModel, PatchError>(e),
        },
{
    let len = bytes.len();
    if len < 32 {
        return Err(PatchError::Truncated);
    }
    let digest = slice_to_vec(slice_subrange(bytes.as_slice(), 0, 32));
    proof {
        assert(digest@ =~= bytes@.take(32));
        assert(bytes@.skip(32).len() == len - 32);
    }
    if len - 32 < 4 {
        proof {
            assert(bytes@.skip(32).len() < 4);
        }
        return Err(PatchError::Truncated);
    }
    let n = u32_from_le_bytes(slice_subrange(bytes.as_slice(), 32, 36));
    proof {
        assert(bytes@.subrange(32, 36) =~= bytes@.skip(32).take(4));
    }
    let ghost rec_tail = bytes@.skip(32).skip(4);
    proof {
        assert(rec_tail =~= bytes@.skip(36));
    }
    let mut pos: usize = 36;
    let mut records: Vec<String> = Vec::new();
    proof {
        assert(records@.map_values(|s: String| s@) =~= Seq::<Seq<char>>::empty());
        match parse_records(rec_tail, n as nat) {
            Ok(p) => {
                assert(Seq::<Seq<char>>::empty() + p.0 =~= p.0);
            },
            Err(e) => {},
        }
    }
    let mut i: u32 = 0;
    while i < n
        invariant
            len == bytes@.len(),
            36 <= pos <= len,
            i <= n,
            rec_tail == bytes@.skip(36),
            records@.len() == i,
            forall|t: int|
                0 <= t < records@.len() ==> encode_utf8((#[trigger] records@[t])@).len()
                    <= u32::MAX,
            records_resume(
                parse_records(rec_tail, n as nat),
                records@.map_values(|s: String| s@),
                parse_records(bytes@.skip(pos as int), (n - i) as nat),
            ),
        decreases n - i,
    {
        let ghost done = records@.map_values(|s: String| s@);
        let ghost cur = bytes@.skip(pos as int);
        if len - pos < 4 {
            proof {
                assert(cur.len() < 4);
                assert(parse_records(cur, (n - i) as nat) == Err::<
                    (Seq<Seq<char>>, Seq<u8>),
                    PatchError,
                >(PatchError::Truncated));
            }
            return Err(PatchError::Truncated);
        }
        let l32 = u32_from_le_bytes(slice_subrange(bytes.as_slice(), pos, pos + 4));
        let l = l32 as usize;
        proof {
            assert(bytes@.subrange(pos as int, pos + 4) =~= cur.take(4));
        }
        if len - (pos + 4) < l {
            proof {
                assert(cur.len() < 4 + l);
                assert(parse_records(cur, (n - i) as nat) == Err::<
                    (Seq<Seq<char>>, Seq<u8>),
                    PatchError,
                >(PatchError::Truncated));
            }
            return Err(PatchError::Truncated);
        }
        let body = slice_to_vec(slice_subrange(bytes.as_slice(), pos + 4, pos + 4 + l));
        proof {
            assert(body@ =~= cur.subrange(4, 4 + l as int));
        }
        match bytes_to_text(body) {
            Some(text) => {
                proof {
                    let b = cur.subrange(4, 4 + l as int);
                    decode_utf8_encode_utf8(b);
                    assert(encode_utf8(text@).len() <= u32::MAX);
                    assert(bytes@.skip(pos + 4 + l) =~= cur.skip(4 + l as int));
                    assert((done + seq![text@]).map_values(|s: Seq<char>| s) == done + seq![text@]);
                }
                records.push(text);
                proof {
                    let done2 = records@.map_values(|s: String| s@);
                    assert(done2 =~= done + seq![text@]);
                    let rest2 = parse_records(bytes@.skip(pos + 4 + l), (n - i - 1) as nat);
                    match rest2 {
                        Ok(p) => {
                            assert(parse_records(cur, (n - i) as nat) == Ok::<
                                (Seq<Seq<char>>, Seq<u8>),
                                PatchError,
                            >((seq![text@] + p.0, p.1)));
                            assert(done + (seq![text@] + p.0) =~= done2 + p.0);
                        },
                        Err(e) => {
                            assert(parse_records(cur, (n - i) as nat) == Err::<
                                (Seq<Seq<char>>, Seq<u8>),
                                PatchError,
                            >(e));
                        },
                    }
                }
                pos = pos + 4 + l;
                i = i + 1;
            },
            None => {
                proof {
                    assert(parse_records(cur, (n - i) as nat) == Err::<
                        (Seq<Seq<char>>, Seq<u8>),
                        PatchError,
                    >(PatchError::InvalidText));
                }
                return Err(PatchError::InvalidText);
            },
        }
    }
    proof {
        assert(parse_records(bytes@.skip(pos as int), 0) == Ok::<
            (Seq<Seq<char>>, Seq<u8>),
            PatchError,
        >((Seq::empty(), bytes@.skip(pos as int))));
        let done = records@.map_values(|s: String| s@);
        assert(done + Seq::<Seq<char>>::empty() =~= done);
        assert(parse_records(rec_tail, n as nat) == Ok::<(Seq<Seq<char>>, Seq<u8>), PatchError>(
            (done, bytes@.skip(pos as int)),
        ));
    }
    if len - pos < 4 {
        proof {
            assert(bytes@.skip(pos as int).len() < 4);
        }
        return Err(PatchError::Truncated);
    }
    let m = u32_from_le_bytes(slice_subrange(bytes.as_slice(), pos, pos + 4));
    proof {
        assert(bytes@.subrange(pos as int, pos + 4) =~= bytes@.skip(pos as int).take(4));
    }
    let ghost delta_tail = bytes@.skip(pos as int).skip(4);
    proof {
        assert(delta_tail =~= bytes@.skip(pos + 4));
    }
    pos = pos + 4;
    let mut deltas: Vec<i64> = Vec::new();
    proof {
        assert(deltas@.map_values(|d: i64| d as int) =~= Seq::<int>::empty());
        match parse_deltas(delta_tail, m as nat) {
            Ok(p) => {
                assert(Seq::<int>::empty() + p.0 =~= p.0);
            },
            Err(e) => {},
        }
    }
    let mut k: u32 = 0;
    while k < m
        invariant
            len == bytes@.len(),
            36 <= pos <= len,
            k <= m,
            deltas@.len() == k,
            deltas_resume(
                parse_deltas(delta_tail, m as nat),
                deltas@.map_values(|d: i64| d as int),
                parse_deltas(bytes@.skip(pos as int), (m - k) as nat),
            ),
        decreases m - k,
    {
        let ghost done = deltas@.map_values(|d: i64| d as int);
        let ghost cur = bytes@.skip(pos as int);
        if len - pos < 8 {
            proof {
                assert(cur.len() < 8);
                assert(parse_deltas(cur, (m - k) as nat) == Err::<(Seq<int>, Seq<u8>), PatchError>(
                    PatchError::Truncated,
                ));
            }
            return Err(PatchError::Truncated);
        }
        let dbits = u64_from_le_bytes(slice_subrange(bytes.as_slice(), pos, pos + 8));
        let d = bits_to_signed(dbits);
        proof {
            assert(bytes@.subrange(pos as int, pos + 8) =~= cur.take(8));
            assert(bytes@.skip(pos + 8) =~= cur.skip(8));
        }
        deltas.push(d);
        proof {
            let done2 = deltas@.map_values(|dd: i64| dd as int);
            assert(done2 =~= done + seq![d as int]);
            let rest2 = parse_deltas(bytes@.skip(pos + 8), (m - k - 1) as nat);
            match rest2 {
                Ok(p) => {
                    assert(parse_deltas(cur, (m - k) as nat) == Ok::<
                        (Seq<int>, Seq<u8>),
                        PatchError,
                    >((seq![d as int] + p.0, p.1)));
                    assert(done + (seq![d as int] + p.0) =~= done2 + p.0);
                },
                Err(e) => {
                    assert(parse_deltas(cur, (m - k) as nat) == Err::<
                        (Seq<int>, Seq<u8>),
                        PatchError,
                    >(e));
                },
            }
        }
        pos = pos + 8;
        k = k + 1;
    }
    proof {
        let done = deltas@.map_values(|d: i64| d as int);
        assert(parse_deltas(bytes@.skip(pos as int), 0) == Ok::<(Seq<int>, Seq<u8>), PatchError>(
            (Seq::empty(), bytes@.skip(pos as int)),
        ));
        assert(done + Seq::<int>::empty() =~= done);
        assert(parse_deltas(delta_tail, m as nat) == Ok::<(Seq<int>, Seq<u8>), PatchError>(
            (done, bytes@.skip(pos as int)),
        ));
    }
    let out = PatchContainer { digest, change_records: records, offset_deltas: deltas };
    proof {
        assert(parse_model(bytes@) == Ok::<ContainerModel, PatchError>(out@));
        assert(container_wf(out@));
    }
    Ok(out)
}

proof fn lemma_parse_ser_records(rs: Seq<Seq<char>>, tail: Seq<u8>)
    requires
        forall|i: int| 0 <= i < rs.len() ==> encode_utf8(#[trigger] rs[i]).len() <= u32::MAX,
    ensures
        parse_records(ser_records(rs) + tail, rs.len()) == Ok::<(Seq<Seq<char>>, Seq<u8>), PatchError>((rs, tail)),
    decreases rs.len(),
{
    lemma_auto_spec_u32_to_from_le_bytes();
    if rs.len() == 0 {
        assert(ser_records(rs) + tail =~= tail);
        assert(rs =~= Seq::<Seq<char>>::empty());
    } else {
        let r0 = rs[0];
        let b0 = encode_utf8(r0);
        let l0 = b0.len() as u32;
        let bytes = ser_records(rs) + tail;
        let rest_bytes = ser_records(rs.drop_first()) + tail;
        assert(bytes =~= spec_u32_to_le_bytes(l0) + b0 + rest_bytes);
        assert(spec_u32_to_le_bytes(l0).len() == 4);
        assert(bytes.take(4) =~= spec_u32_to_le_bytes(l0));
        assert(spec_u32_from_le_bytes(bytes.take(4)) == l0);
        assert(bytes.len() >= 4 + l0);
        assert(bytes.subrange(4, 4 + l0 as int) =~= b0);
        encode_utf8_valid_utf8(r0);
        encode_utf8_decode_utf8(r0);
        assert(bytes.skip(4 + l0 as int) =~= rest_bytes);
        lemma_parse_ser_records(rs.drop_first(), tail);
        assert(seq![r0] + rs.drop_first() =~= rs);
        assert(parse_records(bytes, rs.len()) == Ok::<(Seq<Seq<char>>, Seq<u8>), PatchError>(
            (rs, tail),
        ));
    }
}

proof fn lemma_parse_ser_deltas(ds: Seq<int>, tail: Seq<u8>)
    requires
        forall|i: int| 0 <= i < ds.len() ==> i64::MIN <= #[trigger] ds[i] <= i64::MAX,
    ensures
        parse_deltas(ser_deltas(ds) + tail, ds.len()) == Ok::<(Seq<int>, Seq<u8>), PatchError>((ds, tail)),
    decreases ds.len(),
{
    lemma_auto_spec_u64_to_from_le_bytes();
    if ds.len() == 0 {
        assert(ser_deltas(ds) + tail =~= tail);
        assert(ds =~= Seq::<int>::empty());
    } else {
        let d0 = ds[0];
        let bytes = ser_deltas(ds) + tail;
        let rest_bytes = ser_deltas(ds.drop_first()) + tail;
        assert(bytes =~= spec_u64_to_le_bytes(address_bits(d0)) + rest_bytes);
        assert(spec_u64_to_le_bytes(address_bits(d0)).len() == 8);
        assert(bytes.take(8) =~= spec_u64_to_le_bytes(address_bits(d0)));
        assert(spec_u64_from_le_bytes(bytes.take(8)) == address_bits(d0));
        assert(signed_of_bits(address_bits(d0)) == d0);
        assert(bytes.skip(8) =~= rest_bytes);
        lemma_parse_ser_deltas(ds.drop_first(), tail);
        assert(seq![d0] + ds.drop_first() =~= ds);
        assert(parse_deltas(bytes, ds.len()) == Ok::<(Seq<int>, Seq<u8>), PatchError>((ds, tail)));
    }
}

/// Round trip of the container codec: parsing the serialization of any
/// well-formed container yields that container back, exactly.
pub proof fn lemma_container_round_trip(c: ContainerModel)
    requires
        container_wf(c),
    ensures
        parse_model(serialize_model(c)) == Ok::<ContainerModel, PatchError>(c),
{
    lemma_auto_spec_u32_to_from_le_bytes();
    let nle = spec_u32_to_le_bytes(c.change_records.len() as u32);
    let mle = spec_u32_to_le_bytes(c.offset_deltas.len() as u32);
    let body = ser_records(c.change_records);
    let dbody = ser_deltas(c.offset_deltas);
    let bytes = serialize_model(c);
    assert(bytes =~= c.digest + nle + body + mle + dbody);
    assert(bytes.take(32) =~= c.digest);
    let r1 = bytes.skip(32);
    assert(r1 =~= nle + (body + (mle + dbody)));
    assert(r1.take(4) =~= nle);
    assert(spec_u32_from_le_bytes(r1.take(4)) == c.change_records.len() as u32);
    assert(r1.skip(4) =~= body + (mle + dbody));
    lemma_parse_ser_records(c.change_records, mle + dbody);
    let r2 = mle + dbody;
    assert(r2.take(4) =~= mle);
    assert(spec_u32_from_le_bytes(r2.take(4)) == c.offset_deltas.len() as u32);
    assert(dbody + Seq::<u8>::empty() =~= dbody);
    lemma_parse_ser_deltas(c.offset_deltas, Seq::<u8>::empty());
    assert(r2.skip(4) =~= dbody);
    assert(parse_model(bytes) == Ok::<ContainerModel, PatchError>(c));
}

} // verus!
