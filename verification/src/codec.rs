use vstd::prelude::*;

use crate::values::{ColumnValue, ValueModel};

verus! {

// Tag bytes identifying the type class of each packed value; they match the
// relational engine's own column-type codes.
pub const TAG_INTEGER: u8 = 1;

pub const TAG_REAL: u8 = 2;

pub const TAG_TEXT: u8 = 3;

pub const TAG_BLOB: u8 = 4;

pub const TAG_NULL: u8 = 5;

/// Largest payload length the four-byte signed length prefix can carry.
pub const MAX_PAYLOAD_LEN: usize = 0x7fff_ffff;

/// Failures of the column codec.
#[derive(Clone, Copy, Debug, PartialEq, Eq, Structural)]
pub enum CodecError {
    /// More than 255 values were handed to `pack_columns`.
    TooManyColumns,
    /// The buffer is truncated, carries a negative length, has trailing
    /// garbage, or is otherwise not an encoding.
    Malformed,
    /// A tag byte does not name any supported type class.
    UnknownTag,
}

/// Big-endian bytes of a 64-bit quantity.
pub open spec fn be64(n: u64) -> Seq<u8> {
    seq![
        (n >> 56) as u8,
        (n >> 48) as u8,
        (n >> 40) as u8,
        (n >> 32) as u8,
        (n >> 24) as u8,
        (n >> 16) as u8,
        (n >> 8) as u8,
        n as u8,
    ]
}

/// Big-endian bytes of a 32-bit quantity.
pub open spec fn be32(n: u32) -> Seq<u8> {
    seq![(n >> 24) as u8, (n >> 16) as u8, (n >> 8) as u8, n as u8]
}

/// The 64-bit quantity spelled by eight big-endian bytes.
pub open spec fn be64_val(b: Seq<u8>) -> u64
    recommends
        b.len() == 8,
{
    ((b[0] as u64) << 56 | (b[1] as u64) << 48 | (b[2] as u64) << 40 | (b[3] as u64) << 32 | (
    b[4] as u64) << 24 | (b[5] as u64) << 16 | (b[6] as u64) << 8 | (b[7] as u64))
}

/// The 32-bit quantity spelled by four big-endian bytes.
pub open spec fn be32_val(b: Seq<u8>) -> u32
    recommends
        b.len() == 4,
{
    ((b[0] as u32) << 24 | (b[1] as u32) << 16 | (b[2] as u32) << 8 | (b[3] as u32))
}

/// Whether one value's payload fits the four-byte signed length prefix.
pub open spec fn value_fits(v: ValueModel) -> bool {
    match v {
        ValueModel::Text(s) => s.len() <= MAX_PAYLOAD_LEN,
        ValueModel::Blob(s) => s.len() <= MAX_PAYLOAD_LEN,
        _ => true,
    }
}

/// Whether a sequence of values is encodable: at most 255 of them, each with
/// a representable payload length.
pub open spec fn enc_ok(vs: Seq<ValueModel>) -> bool {
    vs.len() <= 255 && forall|i: int| 0 <= i < vs.len() ==> value_fits(#[trigger] vs[i])
}

/// Encoding of one value: a tag byte, then for variable-length kinds a
/// four-byte big-endian length prefix and the raw payload, or for fixed-size
/// kinds the raw eight-byte payload.
pub open spec fn enc_value(v: ValueModel) -> Seq<u8> {
    match v {
        ValueModel::Null => seq![TAG_NULL],
        ValueModel::Integer(i) => seq![TAG_INTEGER] + be64(i as u64),
        ValueModel::Real(bits) => seq![TAG_REAL] + be64(bits),
        ValueModel::Text(s) => seq![TAG_TEXT] + be32(s.len() as u32) + s,
        ValueModel::Blob(s) => seq![TAG_BLOB] + be32(s.len() as u32) + s,
    }
}

/// Concatenated encodings of a sequence of values.
pub open spec fn enc_values(vs: Seq<ValueModel>) -> Seq<u8>
    decreases vs.len(),
{
    if vs.len() == 0 {
        Seq::empty()
    } else {
        enc_value(vs[0]) + enc_values(vs.skip(1))
    }
}

/// The complete packed form: a leading count byte, then each value in turn.
pub open spec fn enc(vs: Seq<ValueModel>) -> Seq<u8> {
    seq![vs.len() as u8] + enc_values(vs)
}

/// Spec-level decoder for one value at the head of `data`: the decoded value
/// and the number of bytes it occupied, or `None` when `data` does not start
/// with a well-formed encoding. `Err(false)` stands for a malformed prefix,
/// `Err(true)` for an unknown tag.
pub open spec fn dec_value(data: Seq<u8>) -> Result<(ValueModel, int), bool> {
    if data.len() == 0 {
        Err(false)
    } else if data[0] == TAG_NULL {
        Ok((ValueModel::Null, 1))
    } else if data[0] == TAG_INTEGER {
        if data.len() >= 9 {
            Ok((ValueModel::Integer(be64_val(data.subrange(1, 9)) as i64), 9))
        } else {
            Err(false)
        }
    } else if data[0] == TAG_REAL {
        if data.len() >= 9 {
            Ok((ValueModel::Real(be64_val(data.subrange(1, 9))), 9))
        } else {
            Err(false)
        }
    } else if data[0] == TAG_TEXT || data[0] == TAG_BLOB {
        if data.len() < 5 {
            Err(false)
        } else {
            let n = be32_val(data.subrange(1, 5)) as int;
            if n > MAX_PAYLOAD_LEN {
                // the sign bit of the length prefix is set
                Err(false)
            } else if data.len() < 5 + n {
                Err(false)
            } else {
                let payload = data.subrange(5, 5 + n);
                if data[0] == TAG_TEXT {
                    Ok((ValueModel::Text(payload), 5 + n))
                } else {
                    Ok((ValueModel::Blob(payload), 5 + n))
                }
            }
        }
    } else {
        Err(true)
    }
}

/// Spec-level decoder for exactly `count` values that must consume all of
/// `data`; the error flag distinguishes an unknown tag from any other fault.
pub open spec fn dec_values(data: Seq<u8>, count: int) -> Result<Seq<ValueModel>, bool>
    decreases count,
{
    if count <= 0 {
        if data.len() == 0 {
            Ok(Seq::empty())
        } else {
            Err(false)
        }
    } else {
        match dec_value(data) {
            Err(t) => Err(t),
            Ok((v, k)) => match dec_values(data.skip(k), count - 1) {
                Err(t) => Err(t),
                Ok(rest) => Ok(seq![v] + rest),
            },
        }
    }
}

/// Spec-level decoder for a whole packed buffer: the leading byte is the
/// value count and the rest must be exactly that many encoded values.
pub open spec fn dec(data: Seq<u8>) -> Result<Seq<ValueModel>, bool> {
    if data.len() == 0 {
        Err(false)
    } else {
        dec_values(data.skip(1), data[0] as int)
    }
}

/// Appends the big-endian bytes of `n` to `buf`.
fn push_be64(buf: &mut Vec<u8>, n: u64)
    ensures
        final(buf)@ == old(buf)@ + be64(n),
{
    buf.push((n >> 56) as u8);
    buf.push((n >> 48) as u8);
    buf.push((n >> 40) as u8);
    buf.push((n >> 32) as u8);
    buf.push((n >> 24) as u8);
    buf.push((n >> 16) as u8);
    buf.push((n >> 8) as u8);
    buf.push(n as u8);
    proof {
        assert(buf@ =~= old(buf)@ + be64(n));
    }
}

/// Appends the big-endian bytes of `n` to `buf`.
fn push_be32(buf: &mut Vec<u8>, n: u32)
    ensures
        final(buf)@ == old(buf)@ + be32(n),
{
    buf.push((n >> 24) as u8);
    buf.push((n >> 16) as u8);
    buf.push((n >> 8) as u8);
    buf.push(n as u8);
    proof {
        assert(buf@ =~= old(buf)@ + be32(n));
    }
}

/// Appends the encoding of one value to `buf`.
fn push_value(buf: &mut Vec<u8>, v: &ColumnValue)
    requires
        value_fits(v@),
    ensures
        final(buf)@ == old(buf)@ + enc_value(v@),
{
    match v {
        ColumnValue::Null => {
            buf.push(TAG_NULL);
            proof {
                assert(buf@ =~= old(buf)@ + enc_value(v@));
            }
        },
        ColumnValue::Integer(i) => {
            buf.push(TAG_INTEGER);
            push_be64(buf, *i as u64);
            proof {
                assert(buf@ =~= old(buf)@ + enc_value(v@));
            }
        },
        ColumnValue::Real(bits) => {
            buf.push(TAG_REAL);
            push_be64(buf, *bits);
            proof {
                assert(buf@ =~= old(buf)@ + enc_value(v@));
            }
        },
        ColumnValue::Text(s) => {
            buf.push(TAG_TEXT);
            push_be32(buf, s.len() as u32);
            buf.extend_from_slice(s.as_slice());
            proof {
                assert(buf@ =~= old(buf)@ + enc_value(v@));
            }
        },
        ColumnValue::Blob(s) => {
            buf.push(TAG_BLOB);
            push_be32(buf, s.len() as u32);
            buf.extend_from_slice(s.as_slice());
            proof {
                assert(buf@ =~= old(buf)@ + enc_value(v@));
            }
        },
    }
}

/// `enc_values` grows by one encoded value when a value is appended.
proof fn lemma_enc_values_snoc(vs: Seq<ValueModel>, v: ValueModel)
    ensures
        enc_values(vs.push(v)) == enc_values(vs) + enc_value(v),
    decreases vs.len(),
{
    if vs.len() == 0 {
        assert(vs.push(v)[0] == v);
        assert(vs.push(v).skip(1) =~= Seq::<ValueModel>::empty());
        assert(enc_values(vs.push(v)) == enc_value(v) + enc_values(Seq::<ValueModel>::empty()));
        assert(enc_value(v) + Seq::<u8>::empty() =~= Seq::<u8>::empty() + enc_value(v));
    } else {
        assert(vs.push(v).skip(1) =~= vs.skip(1).push(v));
        lemma_enc_values_snoc(vs.skip(1), v);
        assert(vs.push(v)[0] == vs[0]);
        assert(enc_values(vs.push(v)) == enc_value(vs[0]) + (enc_values(vs.skip(1)) + enc_value(
            v,
        )));
        assert(enc_value(vs[0]) + (enc_values(vs.skip(1)) + enc_value(v)) =~= (enc_value(vs[0])
            + enc_values(vs.skip(1))) + enc_value(v));
    }
}

/// Packs an ordered sequence of typed values into the compact self-describing
/// binary form: one leading count byte, then each value as a tag byte plus
/// payload. Fails, without packing anything, exactly when more than 255
/// values are supplied.
pub fn pack_columns(values: &Vec<ColumnValue>) -> (r: Result<Vec<u8>, CodecError>)
    requires
        forall|i: int| 0 <= i < values@.len() ==> value_fits(#[trigger] values.deep_view()[i]),
    ensures
        values@.len() <= 255 ==> matches!(r, Ok(_)),
        values@.len() > 255 ==> r == Err::<Vec<u8>, CodecError>(CodecError::TooManyColumns),
        forall|buf: Vec<u8>| r == Ok::<Vec<u8>, CodecError>(buf) ==> buf@ == enc(
            values.deep_view(),
        ),
{
    if values.len() > 255 {
        return Err(CodecError::TooManyColumns);
    }
    let mut buf: Vec<u8> = Vec::new();
    buf.push(values.len() as u8);
    let ghost vsm = values.deep_view();
    proof {
        assert(vsm.len() == values@.len());
        assert(buf@ =~= seq![vsm.len() as u8]);
    }
    let n: usize = values.len();
    let mut i: usize = 0;
    while i < n
        invariant
            i <= n,
            n == values@.len(),
            vsm == values.deep_view(),
            forall|j: int| 0 <= j < n ==> value_fits(#[trigger] vsm[j]),
            buf@ == seq![vsm.len() as u8] + enc_values(vsm.take(i as int)),
        decreases n - i,
    {
        push_value(&mut buf, &values[i]);
        proof {
            assert(values.deep_view()[i as int] == values[i as int]@);
            lemma_enc_values_snoc(vsm.take(i as int), vsm[i as int]);
            assert(vsm.take(i as int).push(vsm[i as int]) =~= vsm.take(i + 1 as int));
        }
        i = i + 1;
    }
    proof {
        assert(vsm.take(n as int) =~= vsm);
    }
    Ok(buf)
}

/// Reads one encoded value starting at `pos`, returning it and the position
/// just past it. Every read is bounds-checked first: the function never
/// inspects a byte beyond `data`, and reports malformed input as an error.
fn read_value(data: &Vec<u8>, pos: usize) -> (r: Result<(ColumnValue, usize), CodecError>)
    requires
        pos <= data@.len(),
    ensures
        match r {
            Ok(p) => dec_value(data@.skip(pos as int)) == Ok::<(ValueModel, int), bool>(
                (p.0@, p.1 - pos),
            ) && pos < p.1 <= data@.len(),
            Err(CodecError::Malformed) => dec_value(data@.skip(pos as int)) == Err::<
                (ValueModel, int),
                bool,
            >(false),
            Err(CodecError::UnknownTag) => dec_value(data@.skip(pos as int)) == Err::<
                (ValueModel, int),
                bool,
            >(true),
            Err(CodecError::TooManyColumns) => false,
        },
{
    let ghost s = data@.skip(pos as int);
    if pos >= data.len() {
        return Err(CodecError::Malformed);
    }
    proof {
        assert(s[0] == data@[pos as int]);
    }
    let tag = data[pos];
    if tag == TAG_NULL {
        Ok((ColumnValue::Null, pos + 1))
    } else if tag == TAG_INTEGER || tag == TAG_REAL {
        if data.len() - pos < 9 {
            proof {
                assert(s.len() == data@.len() - pos);
            }
            return Err(CodecError::Malformed);
        }
        let n: u64 = (data[pos + 1] as u64) << 56 | (data[pos + 2] as u64) << 48 | (data[pos
            + 3] as u64) << 40 | (data[pos + 4] as u64) << 32 | (data[pos + 5] as u64) << 24 | (
        data[pos + 6] as u64) << 16 | (data[pos + 7] as u64) << 8 | (data[pos + 8] as u64);
        proof {
            assert(s.len() >= 9);
            assert forall|j: int| 0 <= j < 8 implies s.subrange(1, 9)[j] == data@[pos + 1 + j] by {
                assert(s[1 + j] == data@[pos + 1 + j]);
            }
            assert(n == be64_val(s.subrange(1, 9)));
        }
        if tag == TAG_INTEGER {
            Ok((ColumnValue::Integer(#[verifier::truncate] (n as i64)), pos + 9))
        } else {
            Ok((ColumnValue::Real(n), pos + 9))
        }
    } else if tag == TAG_TEXT || tag == TAG_BLOB {
        if data.len() - pos < 5 {
            proof {
                assert(s.len() == data@.len() - pos);
            }
            return Err(CodecError::Malformed);
        }
        let m: u32 = (data[pos + 1] as u32) << 24 | (data[pos + 2] as u32) << 16 | (data[pos
            + 3] as u32) << 8 | (data[pos + 4] as u32);
        proof {
            assert(s.len() >= 5);
            assert forall|j: int| 0 <= j < 4 implies s.subrange(1, 5)[j] == data@[pos + 1 + j] by {
                assert(s[1 + j] == data@[pos + 1 + j]);
            }
            assert(m == be32_val(s.subrange(1, 5)));
        }
        if m > MAX_PAYLOAD_LEN as u32 {
            // a negative signed length prefix
            return Err(CodecError::Malformed);
        }
        let mlen = m as usize;
        if data.len() - pos - 5 < mlen {
            proof {
                assert(s.len() == data@.len() - pos);
            }
            return Err(CodecError::Malformed);
        }
        let mut payload: Vec<u8> = Vec::new();
        let mut j: usize = 0;
        while j < mlen
            invariant
                j <= mlen,
                pos + 5 + mlen <= data@.len(),
                data@.len() <= usize::MAX,
                payload@.len() == j,
                forall|k: int| 0 <= k < j ==> payload@[k] == data@[pos + 5 + k],
            decreases mlen - j,
        {
            payload.push(data[pos + 5 + j]);
            j = j + 1;
        }
        proof {
            assert forall|k: int| 0 <= k < mlen implies #[trigger] s.subrange(5, 5 + mlen as int)[k]
                == data@[pos + 5 + k] by {
                assert(s[5 + k] == data@[pos + 5 + k]);
            }
            assert(payload@ =~= s.subrange(5, 5 + mlen as int));
        }
        if tag == TAG_TEXT {
            Ok((ColumnValue::Text(payload), pos + 5 + mlen))
        } else {
            Ok((ColumnValue::Blob(payload), pos + 5 + mlen))
        }
    } else {
        Err(CodecError::UnknownTag)
    }
}

/// Prepends an already-decoded prefix to the outcome of decoding a suffix.
pub open spec fn dec_prepend(prefix: Seq<ValueModel>, r: Result<Seq<ValueModel>, bool>) -> Result<
    Seq<ValueModel>,
    bool,
> {
    match r {
        Ok(rest) => Ok(prefix + rest),
        Err(t) => Err(t),
    }
}

/// Unpacks a buffer produced by `pack_columns` back into its ordered sequence
/// of typed values. The result mirrors the spec-level decoder `dec` exactly:
/// a well-formed buffer yields its values and anything else yields an error,
/// and no read ever goes past the end of the buffer. Together with
/// `lemma_codec_round_trip` this makes `unpack_columns` a verified inverse of
/// `pack_columns`.
pub fn unpack_columns(data: &Vec<u8>) -> (r: Result<Vec<ColumnValue>, CodecError>)
    ensures
        match r {
            Ok(vs) => dec(data@) == Ok::<Seq<ValueModel>, bool>(vs.deep_view()),
            Err(CodecError::Malformed) => dec(data@) == Err::<Seq<ValueModel>, bool>(false),
            Err(CodecError::UnknownTag) => dec(data@) == Err::<Seq<ValueModel>, bool>(true),
            Err(CodecError::TooManyColumns) => false,
        },
{
    if data.len() == 0 {
        return Err(CodecError::Malformed);
    }
    let count = data[0] as usize;
    let mut out: Vec<ColumnValue> = Vec::new();
    let mut pos: usize = 1;
    let mut i: usize = 0;
    proof {
        assert(out.deep_view() =~= Seq::<ValueModel>::empty());
        assert(dec_prepend(out.deep_view(), dec_values(data@.skip(1), count as int)) == dec_values(
            data@.skip(1),
            count as int,
        ));
    }
    while i < count
        invariant
            i <= count,
            1 <= pos <= data@.len(),
            data@.len() > 0,
            count == data@[0] as int,
            dec_values(data@.skip(1), count as int) == dec_prepend(
                out.deep_view(),
                dec_values(data@.skip(pos as int), count - i),
            ),
        decreases count - i,
    {
        match read_value(data, pos) {
            Err(e) => {
                proof {
                    assert(count - i > 0);
                }
                return Err(e);
            },
            Ok((v, newpos)) => {
                proof {
                    let s = data@.skip(pos as int);
                    let k = newpos - pos;
                    assert(data@.skip(pos as int).skip(k) =~= data@.skip(newpos as int));
                    assert(dec_values(s, count - i) == dec_prepend(
                        seq![v@],
                        dec_values(data@.skip(newpos as int), count - i - 1),
                    ));
                    assert(out.deep_view().push(v@) =~= out.deep_view() + seq![v@]);
                    match dec_values(data@.skip(newpos as int), count - i - 1) {
                        Ok(rest) => {
                            assert(out.deep_view() + (seq![v@] + rest) =~= (out.deep_view()
                                + seq![v@]) + rest);
                        },
                        Err(_) => {},
                    }
                }
                let ghost old_dv = out.deep_view();
                out.push(v);
                proof {
                    assert(out.deep_view() =~= old_dv.push(v@));
                }
                pos = newpos;
                i = i + 1;
            },
        }
    }
    if pos == data.len() {
        proof {
            assert(data@.skip(pos as int).len() == 0);
            assert(dec_values(data@.skip(pos as int), 0) == Ok::<Seq<ValueModel>, bool>(
                Seq::empty(),
            ));
            assert(out.deep_view() + Seq::<ValueModel>::empty() =~= out.deep_view());
        }
        Ok(out)
    } else {
        proof {
            assert(data@.skip(pos as int).len() > 0);
        }
        Err(CodecError::Malformed)
    }
}

/// Decoding one encoded value from the head of any longer buffer recovers
/// exactly that value and consumes exactly its encoding.
proof fn lemma_dec_value_of_enc(v: ValueModel, rest: Seq<u8>)
    requires
        value_fits(v),
    ensures
        dec_value(enc_value(v) + rest) == Ok::<(ValueModel, int), bool>(
            (v, enc_value(v).len() as int),
        ),
{
    let data = enc_value(v) + rest;
    match v {
        ValueModel::Null => {
            assert(data[0] == TAG_NULL);
        },
        ValueModel::Integer(i) => {
            let n = i as u64;
            assert(data[0] == TAG_INTEGER);
            assert(data.len() >= 9);
            assert(data.subrange(1, 9) =~= be64(n));
            lemma_be64_round_trip(n);
            assert((n as i64) == i) by (bit_vector)
                requires
                    n == i as u64,
            ;
        },
        ValueModel::Real(n) => {
            assert(data[0] == TAG_REAL);
            assert(data.len() >= 9);
            assert(data.subrange(1, 9) =~= be64(n));
            lemma_be64_round_trip(n);
        },
        ValueModel::Text(s) => {
            let m = s.len() as u32;
            assert(data[0] == TAG_TEXT);
            assert(data.len() >= 5 + s.len());
            assert(data.subrange(1, 5) =~= be32(m));
            lemma_be32_round_trip(m);
            assert(m as int == s.len() as int);
            assert(data.subrange(5, 5 + s.len() as int) =~= s);
        },
        ValueModel::Blob(s) => {
            let m = s.len() as u32;
            assert(data[0] == TAG_BLOB);
            assert(data.len() >= 5 + s.len());
            assert(data.subrange(1, 5) =~= be32(m));
            lemma_be32_round_trip(m);
            assert(m as int == s.len() as int);
            assert(data.subrange(5, 5 + s.len() as int) =~= s);
        },
    }
}

proof fn lemma_be64_round_trip(n: u64)
    ensures
        be64_val(be64(n)) == n,
{
    assert(((((n >> 56) as u8) as u64) << 56 | (((n >> 48) as u8) as u64) << 48 | (((n
        >> 40) as u8) as u64) << 40 | (((n >> 32) as u8) as u64) << 32 | (((n >> 24) as u8) as u64)
        << 24 | (((n >> 16) as u8) as u64) << 16 | (((n >> 8) as u8) as u64) << 8 | ((
    n as u8) as u64)) == n) by (bit_vector);
}

proof fn lemma_be32_round_trip(n: u32)
    ensures
        be32_val(be32(n)) == n,
{
    assert(((((n >> 24) as u8) as u32) << 24 | (((n >> 16) as u8) as u32) << 16 | (((n
        >> 8) as u8) as u32) << 8 | ((n as u8) as u32)) == n) by (bit_vector);
}

/// Decoding the concatenated encodings of `vs` recovers exactly `vs`.
proof fn lemma_dec_values_of_enc(vs: Seq<ValueModel>)
    requires
        forall|i: int| 0 <= i < vs.len() ==> value_fits(#[trigger] vs[i]),
    ensures
        dec_values(enc_values(vs), vs.len() as int) == Ok::<Seq<ValueModel>, bool>(vs),
    decreases vs.len(),
{
    if vs.len() == 0 {
        assert(enc_values(vs).len() == 0);
        assert(vs =~= Seq::<ValueModel>::empty());
    } else {
        let head = vs[0];
        let tail = vs.skip(1);
        lemma_dec_value_of_enc(head, enc_values(tail));
        let data = enc_values(vs);
        assert(data == enc_value(head) + enc_values(tail));
        assert(data.skip(enc_value(head).len() as int) =~= enc_values(tail));
        lemma_dec_values_of_enc(tail);
        assert(seq![head] + tail =~= vs);
    }
}

/// Eight big-endian bytes are recovered exactly from the quantity they
/// spell.
proof fn lemma_be64_reconstruct(b: Seq<u8>)
    requires
        b.len() == 8,
    ensures
        be64(be64_val(b)) == b,
{
    let b0 = b[0];
    let b1 = b[1];
    let b2 = b[2];
    let b3 = b[3];
    let b4 = b[4];
    let b5 = b[5];
    let b6 = b[6];
    let b7 = b[7];
    let n = be64_val(b);
    assert(n == ((b0 as u64) << 56 | (b1 as u64) << 48 | (b2 as u64) << 40 | (b3 as u64) << 32 | (
    b4 as u64) << 24 | (b5 as u64) << 16 | (b6 as u64) << 8 | (b7 as u64)));
    assert((n >> 56) as u8 == b0 && (n >> 48) as u8 == b1 && (n >> 40) as u8 == b2 && (n
        >> 32) as u8 == b3 && (n >> 24) as u8 == b4 && (n >> 16) as u8 == b5 && (n >> 8) as u8
        == b6 && n as u8 == b7) by (bit_vector)
        requires
            n == ((b0 as u64) << 56 | (b1 as u64) << 48 | (b2 as u64) << 40 | (b3 as u64) << 32 | (
            b4 as u64) << 24 | (b5 as u64) << 16 | (b6 as u64) << 8 | (b7 as u64)),
    ;
    assert(be64(n) =~= b);
}

/// Four big-endian bytes are recovered exactly from the quantity they
/// spell.
proof fn lemma_be32_reconstruct(b: Seq<u8>)
    requires
        b.len() == 4,
    ensures
        be32(be32_val(b)) == b,
{
    let b0 = b[0];
    let b1 = b[1];
    let b2 = b[2];
    let b3 = b[3];
    let n = be32_val(b);
    assert(n == ((b0 as u32) << 24 | (b1 as u32) << 16 | (b2 as u32) << 8 | (b3 as u32)));
    assert((n >> 24) as u8 == b0 && (n >> 16) as u8 == b1 && (n >> 8) as u8 == b2 && n as u8
        == b3) by (bit_vector)
        requires
            n == ((b0 as u32) << 24 | (b1 as u32) << 16 | (b2 as u32) << 8 | (b3 as u32)),
    ;
    assert(be32(n) =~= b);
}

/// Decoder soundness for one value: a successful decode consumed exactly
/// the encoding of the value it returned.
proof fn lemma_dec_value_sound(s: Seq<u8>)
    requires
        dec_value(s) is Ok,
    ensures
        ({
            let (v, k) = dec_value(s)->Ok_0;
            &&& value_fits(v)
            &&& 0 < k <= s.len()
            &&& s.take(k) == enc_value(v)
        }),
{
    let (v, k) = dec_value(s)->Ok_0;
    if s[0] == TAG_NULL {
        assert(s.take(1) =~= enc_value(v));
    } else if s[0] == TAG_INTEGER {
        let b = s.subrange(1, 9);
        let n = be64_val(b);
        lemma_be64_reconstruct(b);
        assert((n as i64) as u64 == n) by (bit_vector);
        assert(s.take(9) =~= seq![TAG_INTEGER] + b);
        assert(enc_value(v) == seq![TAG_INTEGER] + be64(n));
    } else if s[0] == TAG_REAL {
        let b = s.subrange(1, 9);
        lemma_be64_reconstruct(b);
        assert(s.take(9) =~= seq![TAG_REAL] + b);
    } else {
        let b = s.subrange(1, 5);
        let m = be32_val(b);
        let n = m as int;
        lemma_be32_reconstruct(b);
        let payload = s.subrange(5, 5 + n);
        assert(payload.len() == n);
        assert((payload.len() as u32) == m);
        assert(s.take(5 + n) =~= seq![s[0]] + b + payload);
        if s[0] == TAG_TEXT {
            assert(enc_value(v) == seq![TAG_TEXT] + be32(m) + payload);
        } else {
            assert(enc_value(v) == seq![TAG_BLOB] + be32(m) + payload);
        }
    }
}

/// Decoder soundness for a value sequence: a successful decode of `count`
/// values consumed a buffer that is exactly their concatenated encodings.
proof fn lemma_dec_values_sound(s: Seq<u8>, count: int)
    requires
        dec_values(s, count) is Ok,
    ensures
        ({
            let vs = dec_values(s, count)->Ok_0;
            &&& s == enc_values(vs)
            &&& count >= 0 ==> vs.len() == count
            &&& count < 0 ==> vs.len() == 0
            &&& forall|i: int| 0 <= i < vs.len() ==> value_fits(#[trigger] vs[i])
        }),
    decreases count,
{
    let vs = dec_values(s, count)->Ok_0;
    if count <= 0 {
        assert(s =~= Seq::<u8>::empty());
        assert(s =~= enc_values(vs));
    } else {
        let (v, k) = dec_value(s)->Ok_0;
        lemma_dec_value_sound(s);
        let rest = dec_values(s.skip(k), count - 1)->Ok_0;
        lemma_dec_values_sound(s.skip(k), count - 1);
        assert(vs == seq![v] + rest);
        assert(vs[0] == v);
        assert(vs.skip(1) =~= rest);
        assert(enc_values(vs) == enc_value(v) + enc_values(rest));
        assert(s =~= s.take(k) + s.skip(k));
        assert(s =~= enc_values(vs));
        assert forall|i: int| 0 <= i < vs.len() implies value_fits(#[trigger] vs[i]) by {
            if i >= 1 {
                assert(vs[i] == rest[i - 1]);
            }
        }
    }
}

/// Decoder soundness law: any buffer the decoder accepts is exactly the
/// packed form of the values it returns — so `unpack_columns` succeeds on
/// `enc(vs)` and on nothing else, and `pack_columns` is the unique inverse.
pub proof fn lemma_decode_sound(data: Seq<u8>)
    requires
        dec(data) is Ok,
    ensures
        ({
            let vs = dec(data)->Ok_0;
            &&& enc_ok(vs)
            &&& data == enc(vs)
        }),
{
    let vs = dec(data)->Ok_0;
    let count = data[0] as int;
    lemma_dec_values_sound(data.skip(1), count);
    assert(vs.len() == count);
    assert(data[0] == vs.len() as u8);
    assert(data =~= seq![data[0]] + data.skip(1));
    assert(data =~= enc(vs));
}

/// Decoding one value reads only the bytes it consumes: extending the
/// buffer beyond a successfully decoded value changes nothing.
proof fn lemma_dec_value_prefix(s: Seq<u8>, t: Seq<u8>)
    requires
        s.len() <= t.len(),
        forall|i: int| 0 <= i < s.len() ==> s[i] == t[i],
        dec_value(s) is Ok,
    ensures
        dec_value(t) == dec_value(s),
{
    assert(s.len() > 0);
    assert(t[0] == s[0]);
    if s[0] == TAG_INTEGER || s[0] == TAG_REAL {
        assert(t.subrange(1, 9) =~= s.subrange(1, 9));
    } else if s[0] == TAG_TEXT || s[0] == TAG_BLOB {
        assert(t.subrange(1, 5) =~= s.subrange(1, 5));
        let n = be32_val(s.subrange(1, 5)) as int;
        assert(t.subrange(5, 5 + n) =~= s.subrange(5, 5 + n));
    }
}

/// Two successful decodes of the same value count, one from a prefix of the
/// other's buffer, must have consumed buffers of the same length: the
/// decoder accepts no trailing slack.
proof fn lemma_dec_values_prefix_exhausts(p: Seq<u8>, f: Seq<u8>, count: int)
    requires
        p.len() <= f.len(),
        forall|i: int| 0 <= i < p.len() ==> p[i] == f[i],
        dec_values(p, count) is Ok,
        dec_values(f, count) is Ok,
    ensures
        p.len() == f.len(),
    decreases count,
{
    if count <= 0 {
        assert(p.len() == 0 && f.len() == 0);
    } else {
        let (v, k) = dec_value(p)->Ok_0;
        lemma_dec_value_prefix(p, f);
        assert(dec_value(f) == Ok::<(ValueModel, int), bool>((v, k)));
        let p2 = p.skip(k);
        let f2 = f.skip(k);
        // a decoded value consumes at least its tag byte and never more
        // than the buffer
        assert(0 < k <= p.len());
        assert forall|i: int| 0 <= i < p2.len() implies p2[i] == f2[i] by {
            assert(p2[i] == p[k + i]);
            assert(f2[i] == f[k + i]);
        }
        lemma_dec_values_prefix_exhausts(p2, f2, count - 1);
    }
}

/// Codec robustness law: no truncation of a packed buffer decodes. Every
/// strict prefix of `enc(vs)` — cut anywhere, from the empty buffer to one
/// byte short — is rejected by the decoder, so `unpack_columns` (which
/// implements `dec` exactly and indexes nothing out of bounds) reports an
/// error on it instead of ever reading past the end.
pub proof fn lemma_truncated_buffer_rejected(vs: Seq<ValueModel>, n: int)
    requires
        enc_ok(vs),
        0 <= n < enc(vs).len(),
    ensures
        dec(enc(vs).take(n)) is Err,
{
    let full = enc(vs);
    let p = full.take(n);
    if n == 0 {
        assert(p.len() == 0);
    } else if dec(p) is Ok {
        lemma_codec_round_trip(vs);
        let count = full[0] as int;
        assert(p[0] == full[0]);
        assert(dec_values(p.skip(1), count) is Ok);
        assert(dec_values(full.skip(1), count) is Ok);
        let p1 = p.skip(1);
        let f1 = full.skip(1);
        assert forall|i: int| 0 <= i < p1.len() implies p1[i] == f1[i] by {
            assert(p1[i] == p[1 + i]);
            assert(f1[i] == full[1 + i]);
        }
        lemma_dec_values_prefix_exhausts(p1, f1, count);
        assert(false);
    }
}

/// Codec round-trip law: every encodable sequence of values (at most 255 of
/// them, payload lengths representable) decodes from its own packed form to
/// exactly itself. `pack_columns` produces `enc(vs)` and `unpack_columns`
/// implements `dec`, so unpacking a packed sequence always returns it
/// unchanged, nulls, empty payloads and mixed types included.
pub proof fn lemma_codec_round_trip(vs: Seq<ValueModel>)
    requires
        enc_ok(vs),
    ensures
        dec(enc(vs)) == Ok::<Seq<ValueModel>, bool>(vs),
{
    let data = enc(vs);
    assert(data[0] == vs.len() as u8);
    assert(data.skip(1) =~= enc_values(vs));
    assert((vs.len() as u8) as int == vs.len() as int);
    lemma_dec_values_of_enc(vs);
}

} // verus!
