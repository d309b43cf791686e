//! The marshaller: a self-describing binary wire format for [`Value`]s.
//!
//! Encoding is shape-directed only in its contract; the bytes themselves are
//! determined by the value.  Decoding is driven by the expected
//! [`ValueShape`] and fails with [`BusError::ShapeMismatch`] whenever the
//! bytes do not structurally match it.  The round-trip law is proved in
//! [`lemma_round_trip`]: decoding an encoding yields the value encoded.
//!
//! Layout: a boolean is one byte, `0` or `1`; an integer is eight big-endian
//! bytes; a string is an eight-byte byte count followed by its UTF-8 bytes; a
//! byte sequence is an eight-byte count followed by the bytes; a list is an
//! eight-byte element count followed by the encoded elements; an optional is
//! one discriminant byte, `0` for absent and `1` followed by the encoded
//! value for present; a record is the encoded field values in declared
//! order, field names and count coming from the shape alone.

use vstd::prelude::*;

use crate::error::BusError;
use crate::value::{conforms, depth_of, field_views,
    lemma_depth_of_fields_index, lemma_depth_of_seq_index, lemma_field_views_index,
    lemma_field_views_len, lemma_field_views_push, lemma_shape_depth_fields_index,
    lemma_shape_field_views_index, lemma_shape_field_views_len, lemma_views_of_index,
    lemma_views_of_len, lemma_views_of_push, shape_depth, shape_depth_fields,
    shape_field_views, shape_views, views_of, ShapeModel, ValModel, Value, ValueShape};
use vstd::string::StrSliceExecFns;
use vstd::utf8::{decode_utf8, encode_utf8, encode_utf8_decode_utf8, encode_utf8_valid_utf8,
    valid_utf8};

verus! {

broadcast use vstd::std_specs::vec::axiom_vec_index_decreases, vstd::seq::axiom_seq_index_decreases;

/// The eight big-endian bytes of a 64-bit integer.
pub open spec fn u64_bytes(n: u64) -> Seq<u8> {
    seq![
        (n >> 56) as u8,
        (n >> 48) as u8,
        (n >> 40) as u8,
        (n >> 32) as u8,
        (n >> 24) as u8,
        (n >> 16) as u8,
        (n >> 8) as u8,
        n as u8,
    ]
}

/// The 64-bit integer read back from eight big-endian bytes.
pub open spec fn u64_of_bytes(b: Seq<u8>) -> u64
    recommends
        b.len() == 8,
{
    (((b[0] as u64) << 56) | ((b[1] as u64) << 48) | ((b[2] as u64) << 40) | ((b[3] as u64) << 32)
        | ((b[4] as u64) << 24) | ((b[5] as u64) << 16) | ((b[6] as u64) << 8) | (b[7] as u64))
}

pub proof fn lemma_u64_bytes_roundtrip(n: u64)
    ensures
        u64_bytes(n).len() == 8,
        u64_of_bytes(u64_bytes(n)) == n,
{
    let b7 = (n >> 56) as u8;
    let b6 = (n >> 48) as u8;
    let b5 = (n >> 40) as u8;
    let b4 = (n >> 32) as u8;
    let b3 = (n >> 24) as u8;
    let b2 = (n >> 16) as u8;
    let b1 = (n >> 8) as u8;
    let b0 = n as u8;
    assert((((b7 as u64) << 56) | ((b6 as u64) << 48) | ((b5 as u64) << 40) | ((b4 as u64) << 32)
        | ((b3 as u64) << 24) | ((b2 as u64) << 16) | ((b1 as u64) << 8) | (b0 as u64)) == n)
        by (bit_vector)
        requires
            b7 == (n >> 56) as u8,
            b6 == (n >> 48) as u8,
            b5 == (n >> 40) as u8,
            b4 == (n >> 32) as u8,
            b3 == (n >> 24) as u8,
            b2 == (n >> 16) as u8,
            b1 == (n >> 8) as u8,
            b0 == n as u8,
    ;
}

/// The wire bytes of a value.
pub open spec fn enc(m: ValModel) -> Seq<u8>
    decreases m, 0nat,
{
    match m {
        ValModel::Bool(b) => seq![if b { 1u8 } else { 0u8 }],
        ValModel::Int(n) => u64_bytes(n),
        ValModel::Str(cs) => u64_bytes(encode_utf8(cs).len() as u64) + encode_utf8(cs),
        ValModel::Bytes(bs) => u64_bytes(bs.len() as u64) + bs,
        ValModel::List(ms) => u64_bytes(ms.len() as u64) + enc_seq(ms),
        ValModel::Absent => seq![0u8],
        ValModel::Present(m0) => seq![1u8] + enc(*m0),
        ValModel::Record(fs) => enc_fields(fs),
    }
}

/// The concatenated wire bytes of a sequence of values.
pub open spec fn enc_seq(ms: Seq<ValModel>) -> Seq<u8>
    decreases ms, 1nat,
{
    if ms.len() == 0 {
        Seq::empty()
    } else {
        enc(ms[0]) + enc_seq(ms.drop_first())
    }
}

/// The concatenated wire bytes of a record's field values.
pub open spec fn enc_fields(fs: Seq<(Seq<char>, ValModel)>) -> Seq<u8>
    decreases fs, 1nat,
{
    if fs.len() == 0 {
        Seq::empty()
    } else {
        enc(fs[0].1) + enc_fields(fs.drop_first())
    }
}

/// Whether every length that the wire format stores in an eight-byte count
/// actually fits in 64 bits.  Every value that exists in memory satisfies
/// this; the bound is what the fixed-width count fields force.
pub open spec fn wire_sized(m: ValModel) -> bool
    decreases m,
{
    match m {
        ValModel::Bool(_) => true,
        ValModel::Int(_) => true,
        ValModel::Str(cs) => encode_utf8(cs).len() <= u64::MAX,
        ValModel::Bytes(bs) => bs.len() <= u64::MAX,
        ValModel::List(ms) => ms.len() <= u64::MAX && forall|i: int|
            0 <= i < ms.len() ==> wire_sized(#[trigger] ms[i]),
        ValModel::Absent => true,
        ValModel::Present(m0) => wire_sized(*m0),
        ValModel::Record(fs) => forall|i: int|
            0 <= i < fs.len() ==> wire_sized((#[trigger] fs[i]).1),
    }
}

/// Structural decoding against an expected shape: the decoded value and the
/// remaining bytes, or `None` when the bytes do not match the shape.
pub open spec fn dec(b: Seq<u8>, s: ShapeModel) -> Option<(ValModel, Seq<u8>)>
    decreases s, 0nat,
{
    match s {
        ShapeModel::Bool => {
            if b.len() >= 1 && (b[0] == 0u8 || b[0] == 1u8) {
                Some((ValModel::Bool(b[0] == 1u8), b.drop_first()))
            } else {
                None
            }
        },
        ShapeModel::Int => {
            if b.len() >= 8 {
                Some((ValModel::Int(u64_of_bytes(b.take(8))), b.skip(8)))
            } else {
                None
            }
        },
        ShapeModel::Str => {
            if b.len() >= 8 {
                let n = u64_of_bytes(b.take(8)) as int;
                let rest = b.skip(8);
                if rest.len() >= n && valid_utf8(rest.take(n)) {
                    Some((ValModel::Str(decode_utf8(rest.take(n))), rest.skip(n)))
                } else {
                    None
                }
            } else {
                None
            }
        },
        ShapeModel::Bytes => {
            if b.len() >= 8 {
                let n = u64_of_bytes(b.take(8)) as int;
                let rest = b.skip(8);
                if rest.len() >= n {
                    Some((ValModel::Bytes(rest.take(n)), rest.skip(n)))
                } else {
                    None
                }
            } else {
                None
            }
        },
        ShapeModel::List(e) => {
            if b.len() >= 8 {
                let n = u64_of_bytes(b.take(8)) as nat;
                match dec_count(b.skip(8), *e, n) {
                    Some((ms, rest)) => Some((ValModel::List(ms), rest)),
                    None => None,
                }
            } else {
                None
            }
        },
        ShapeModel::Optional(e) => {
            if b.len() >= 1 && b[0] == 0u8 {
                Some((ValModel::Absent, b.drop_first()))
            } else if b.len() >= 1 && b[0] == 1u8 {
                match dec(b.drop_first(), *e) {
                    Some((m0, rest)) => Some((ValModel::Present(Box::new(m0)), rest)),
                    None => None,
                }
            } else {
                None
            }
        },
        ShapeModel::Record(sfs) => {
            match dec_fields(b, sfs) {
                Some((fs, rest)) => Some((ValModel::Record(fs), rest)),
                None => None,
            }
        },
    }
}

/// Decodes exactly `n` values of the element shape in sequence.
pub open spec fn dec_count(b: Seq<u8>, e: ShapeModel, n: nat) -> Option<(Seq<ValModel>, Seq<u8>)>
    decreases e, n + 1,
{
    if n == 0 {
        Some((Seq::empty(), b))
    } else {
        match dec(b, e) {
            Some((m, rest)) => match dec_count(rest, e, (n - 1) as nat) {
                Some((ms, rest2)) => Some((seq![m] + ms, rest2)),
                None => None,
            },
            None => None,
        }
    }
}

/// Decodes a record's field values in declared order, naming each from the
/// shape.
pub open spec fn dec_fields(b: Seq<u8>, sfs: Seq<(Seq<char>, ShapeModel)>) -> Option<
    (Seq<(Seq<char>, ValModel)>, Seq<u8>),
>
    decreases sfs, 1nat,
{
    if sfs.len() == 0 {
        Some((Seq::empty(), b))
    } else {
        match dec(b, sfs[0].1) {
            Some((m, rest)) => match dec_fields(rest, sfs.drop_first()) {
                Some((fs, rest2)) => Some((seq![(sfs[0].0, m)] + fs, rest2)),
                None => None,
            },
            None => None,
        }
    }
}

pub proof fn lemma_round_trip_prefix(m: ValModel, s: ShapeModel, rest: Seq<u8>)
    requires
        conforms(m, s),
        wire_sized(m),
    ensures
        dec(enc(m) + rest, s) == Some((m, rest)),
    decreases m, 0nat,
{
    let b = enc(m) + rest;
    match m {
        ValModel::Bool(v) => {
            assert(b.drop_first() =~= rest);
        },
        ValModel::Int(n) => {
            lemma_u64_bytes_roundtrip(n);
            assert(b.take(8) =~= u64_bytes(n));
            assert(b.skip(8) =~= rest);
        },
        ValModel::Str(cs) => {
            let ub = encode_utf8(cs);
            let n = ub.len() as u64;
            lemma_u64_bytes_roundtrip(n);
            assert(b.take(8) =~= u64_bytes(n));
            let tail = b.skip(8);
            assert(tail =~= ub + rest);
            assert(tail.take(n as int) =~= ub);
            assert(tail.skip(n as int) =~= rest);
            encode_utf8_valid_utf8(cs);
            encode_utf8_decode_utf8(cs);
        },
        ValModel::Bytes(bs) => {
            let n = bs.len() as u64;
            lemma_u64_bytes_roundtrip(n);
            assert(b.take(8) =~= u64_bytes(n));
            let tail = b.skip(8);
            assert(tail =~= bs + rest);
            assert(tail.take(n as int) =~= bs);
            assert(tail.skip(n as int) =~= rest);
        },
        ValModel::List(ms) => {
            let e = s->List_0;
            let n = ms.len() as u64;
            lemma_u64_bytes_roundtrip(n);
            assert(b.take(8) =~= u64_bytes(n));
            assert(b.skip(8) =~= enc_seq(ms) + rest);
            lemma_round_trip_seq(ms, *e, rest);
        },
        ValModel::Absent => {
            assert(b.drop_first() =~= rest);
        },
        ValModel::Present(m0) => {
            let e = s->Optional_0;
            assert(b[0] == 1u8);
            assert(b.drop_first() =~= enc(*m0) + rest);
            lemma_round_trip_prefix(*m0, *e, rest);
        },
        ValModel::Record(fs) => {
            let sfs = s->Record_0;
            lemma_round_trip_fields(fs, sfs, rest);
        },
    }
}

proof fn lemma_round_trip_seq(ms: Seq<ValModel>, e: ShapeModel, rest: Seq<u8>)
    requires
        forall|i: int| 0 <= i < ms.len() ==> conforms(#[trigger] ms[i], e),
        forall|i: int| 0 <= i < ms.len() ==> wire_sized(#[trigger] ms[i]),
    ensures
        dec_count(enc_seq(ms) + rest, e, ms.len()) == Some((ms, rest)),
    decreases ms, 1nat,
{
    if ms.len() == 0 {
        assert(enc_seq(ms) + rest =~= rest);
        assert(dec_count(rest, e, 0) == Some((Seq::<ValModel>::empty(), rest)));
        assert(ms =~= Seq::<ValModel>::empty());
    } else {
        let hd = ms[0];
        let tl = ms.drop_first();
        assert(enc_seq(ms) + rest =~= enc(hd) + (enc_seq(tl) + rest));
        lemma_round_trip_prefix(hd, e, enc_seq(tl) + rest);
        lemma_round_trip_seq(tl, e, rest);
        assert(seq![hd] + tl =~= ms);
    }
}

proof fn lemma_round_trip_fields(
    fs: Seq<(Seq<char>, ValModel)>,
    sfs: Seq<(Seq<char>, ShapeModel)>,
    rest: Seq<u8>,
)
    requires
        fs.len() == sfs.len(),
        forall|i: int| 0 <= i < fs.len() ==> (#[trigger] fs[i]).0 == sfs[i].0,
        forall|i: int| 0 <= i < fs.len() ==> conforms((#[trigger] fs[i]).1, sfs[i].1),
        forall|i: int| 0 <= i < fs.len() ==> wire_sized((#[trigger] fs[i]).1),
    ensures
        dec_fields(enc_fields(fs) + rest, sfs) == Some((fs, rest)),
    decreases fs, 1nat,
{
    if fs.len() == 0 {
        assert(enc_fields(fs) + rest =~= rest);
        assert(fs =~= Seq::<(Seq<char>, ValModel)>::empty());
    } else {
        let hd = fs[0];
        let tl = fs.drop_first();
        let stl = sfs.drop_first();
        assert(enc_fields(fs) + rest =~= enc(hd.1) + (enc_fields(tl) + rest));
        lemma_round_trip_prefix(hd.1, sfs[0].1, enc_fields(tl) + rest);
        assert(forall|i: int| 0 <= i < tl.len() ==> (#[trigger] tl[i]) == fs[i + 1]);
        assert(forall|i: int| 0 <= i < stl.len() ==> (#[trigger] stl[i]) == sfs[i + 1]);
        lemma_round_trip_fields(tl, stl, rest);
        assert((sfs[0].0, hd.1) == hd);
        assert(seq![hd] + tl =~= fs);
    }
}

/// The round-trip law: decoding the encoding of any value that conforms to a
/// shape yields that value back, with no bytes left over.
pub proof fn lemma_round_trip(m: ValModel, s: ShapeModel)
    requires
        conforms(m, s),
        wire_sized(m),
    ensures
        dec(enc(m), s) == Some((m, Seq::<u8>::empty())),
{
    lemma_round_trip_prefix(m, s, Seq::<u8>::empty());
    assert(enc(m) + Seq::<u8>::empty() =~= enc(m));
}

proof fn lemma_enc_seq_push(ms: Seq<ValModel>, m: ValModel)
    ensures
        enc_seq(ms.push(m)) == enc_seq(ms) + enc(m),
    decreases ms.len(),
{
    assert(enc_seq(ms.push(m)) == enc(ms.push(m)[0]) + enc_seq(ms.push(m).drop_first()));
    if ms.len() == 0 {
        assert(ms.push(m).drop_first() =~= Seq::<ValModel>::empty());
        assert(ms.push(m)[0] == m);
        assert(enc_seq(Seq::<ValModel>::empty()) == Seq::<u8>::empty());
        assert(enc(m) + Seq::<u8>::empty() =~= enc(m));
        assert(enc_seq(ms) + enc(m) =~= enc(m));
    } else {
        assert(enc_seq(ms) == enc(ms[0]) + enc_seq(ms.drop_first()));
        assert(ms.push(m).drop_first() =~= ms.drop_first().push(m));
        lemma_enc_seq_push(ms.drop_first(), m);
        assert(ms.push(m)[0] == ms[0]);
        assert(enc(ms[0]) + (enc_seq(ms.drop_first()) + enc(m)) =~= (enc(ms[0])
            + enc_seq(ms.drop_first())) + enc(m));
    }
}

proof fn lemma_enc_fields_push(fs: Seq<(Seq<char>, ValModel)>, f: (Seq<char>, ValModel))
    ensures
        enc_fields(fs.push(f)) == enc_fields(fs) + enc(f.1),
    decreases fs.len(),
{
    assert(enc_fields(fs.push(f)) == enc(fs.push(f)[0].1) + enc_fields(fs.push(f).drop_first()));
    if fs.len() == 0 {
        assert(fs.push(f).drop_first() =~= Seq::<(Seq<char>, ValModel)>::empty());
        assert(fs.push(f)[0] == f);
        assert(enc_fields(Seq::<(Seq<char>, ValModel)>::empty()) == Seq::<u8>::empty());
        assert(enc(f.1) + Seq::<u8>::empty() =~= enc(f.1));
        assert(enc_fields(fs) + enc(f.1) =~= enc(f.1));
    } else {
        assert(enc_fields(fs) == enc(fs[0].1) + enc_fields(fs.drop_first()));
        assert(fs.push(f).drop_first() =~= fs.drop_first().push(f));
        lemma_enc_fields_push(fs.drop_first(), f);
        assert(fs.push(f)[0] == fs[0]);
        assert(enc(fs[0].1) + (enc_fields(fs.drop_first()) + enc(f.1)) =~= (enc(fs[0].1)
            + enc_fields(fs.drop_first())) + enc(f.1));
    }
}

/// Relies on String::from_utf8: it succeeds exactly on valid UTF-8 input, and
/// the bytes of the returned string are the input bytes.
#[verifier::external_body]
fn string_from_utf8(bytes: Vec<u8>) -> (r: Option<String>)
    ensures
        r is Some <==> valid_utf8(bytes@),
        r matches Some(st) ==> encode_utf8(st@) == bytes@,
{
    String::from_utf8(bytes).ok()
}

#[verifier::loop_isolation(false)]
fn write_u64(out: &mut Vec<u8>, n: u64)
    ensures
        final(out)@ == old(out)@ + u64_bytes(n),
{
    out.push((n >> 56) as u8);
    out.push((n >> 48) as u8);
    out.push((n >> 40) as u8);
    out.push((n >> 32) as u8);
    out.push((n >> 24) as u8);
    out.push((n >> 16) as u8);
    out.push((n >> 8) as u8);
    out.push(n as u8);
    assert(out@ =~= old(out)@ + u64_bytes(n));
}

#[verifier::loop_isolation(false)]
fn read_u64(bytes: &Vec<u8>, pos: usize) -> (n: u64)
    requires
        bytes@.len() - pos >= 8,
    ensures
        n == u64_of_bytes(bytes@.skip(pos as int).take(8)),
{
    let len = bytes.len();
    let n = ((bytes[pos] as u64) << 56) | ((bytes[pos + 1] as u64) << 48) | ((bytes[pos
        + 2] as u64) << 40) | ((bytes[pos + 3] as u64) << 32) | ((bytes[pos + 4] as u64) << 24) | ((
    bytes[pos + 5] as u64) << 16) | ((bytes[pos + 6] as u64) << 8) | (bytes[pos + 7] as u64);
    proof {
        let sub = bytes@.skip(pos as int).take(8);
        assert(forall|k: int| 0 <= k < 8 ==> #[trigger] sub[k] == bytes@[pos + k]);
    }
    n
}

/// Copies `n` bytes starting at `start` into a fresh vector.
#[verifier::loop_isolation(false)]
fn sub_vec(bytes: &Vec<u8>, start: usize, n: usize) -> (r: Vec<u8>)
    requires
        bytes@.len() - start >= n,
    ensures
        r@ == bytes@.subrange(start as int, start as int + n),
{
    let len = bytes.len();
    let mut r: Vec<u8> = Vec::new();
    let mut i: usize = 0;
    while i < n
        invariant
            i <= n,
            r@ == bytes@.subrange(start as int, start as int + i),
        decreases n - i,
    {
        r.push(bytes[start + i]);
        assert(r@ =~= bytes@.subrange(start as int, start as int + i + 1));
        i += 1;
    }
    r
}

#[verifier::loop_isolation(false)]
fn encode_into(v: &Value, out: &mut Vec<u8>)
    ensures
        final(out)@ == old(out)@ + enc(v@),
    decreases depth_of(v@),
{
    broadcast use lemma_views_of_len, lemma_views_of_index, lemma_field_views_len,
        lemma_field_views_index;

    match v {
        Value::Bool(b) => {
            out.push(if *b { 1u8 } else { 0u8 });
            assert(out@ =~= old(out)@ + enc(v@));
        },
        Value::Int(n) => {
            write_u64(out, *n);
        },
        Value::Str(st) => {
            let mut bs = st.as_str().as_bytes_vec();
            write_u64(out, bs.len() as u64);
            let ghost mid = out@;
            out.append(&mut bs);
            assert(out@ =~= old(out)@ + enc(v@));
        },
        Value::Bytes(bs) => {
            write_u64(out, bs.len() as u64);
            let ghost mid = out@;
            let mut i: usize = 0;
            while i < bs.len()
                invariant
                    i <= bs.len(),
                    out@ == mid + bs@.take(i as int),
                decreases bs.len() - i,
            {
                out.push(bs[i]);
                assert(out@ =~= mid + bs@.take(i as int + 1));
                i += 1;
            }
            assert(bs@.take(bs@.len() as int) =~= bs@);
            assert(out@ =~= old(out)@ + enc(v@));
        },
        Value::List(vs) => {
            proof {
                assert(v@ == ValModel::List(views_of(vs@)));
            }
            let ghost lm = views_of(vs@);
            write_u64(out, vs.len() as u64);
            let ghost mid = out@;
            let mut i: usize = 0;
            while i < vs.len()
                invariant
                    i <= vs.len(),
                    out@ == mid + enc_seq(lm.take(i as int)),
                decreases vs.len() - i,
            {
                proof {
                    lemma_depth_of_seq_index(lm, i as int);
                    lemma_enc_seq_push(lm.take(i as int), lm[i as int]);
                    assert(lm.take(i as int + 1) =~= lm.take(i as int).push(lm[i as int]));
                }
                encode_into(&vs[i], out);
                assert(out@ =~= mid + enc_seq(lm.take(i as int + 1)));
                i += 1;
            }
            assert(lm.take(lm.len() as int) =~= lm);
            assert(out@ =~= old(out)@ + enc(v@));
        },
        Value::Absent => {
            out.push(0u8);
            assert(out@ =~= old(out)@ + enc(v@));
        },
        Value::Present(b) => {
            proof {
                assert(v@ == ValModel::Present(Box::new((**b)@)));
            }
            out.push(1u8);
            encode_into(b, out);
            assert(out@ =~= old(out)@ + enc(v@));
        },
        Value::Record(fs) => {
            proof {
                assert(v@ == ValModel::Record(field_views(fs@)));
            }
            let ghost fm = field_views(fs@);
            let ghost mid = out@;
            let mut i: usize = 0;
            while i < fs.len()
                invariant
                    i <= fs.len(),
                    out@ == mid + enc_fields(fm.take(i as int)),
                decreases fs.len() - i,
            {
                proof {
                    lemma_depth_of_fields_index(fm, i as int);
                    lemma_enc_fields_push(fm.take(i as int), fm[i as int]);
                    assert(fm.take(i as int + 1) =~= fm.take(i as int).push(fm[i as int]));
                }
                encode_into(&fs[i].1, out);
                assert(out@ =~= mid + enc_fields(fm.take(i as int + 1)));
                i += 1;
            }
            assert(fm.take(fm.len() as int) =~= fm);
            assert(out@ =~= old(out)@ + enc(v@));
        },
    }
}

/// Encodes a value that conforms to the given shape into its wire bytes.
pub fn encode(v: &Value, s: &ValueShape) -> (r: Vec<u8>)
    requires
        conforms(v@, s@),
    ensures
        r@ == enc(v@),
{
    let mut out: Vec<u8> = Vec::new();
    encode_into(v, &mut out);
    assert(out@ =~= enc(v@));
    out
}

/// Encodes an argument list as the concatenation of each argument's wire
/// bytes, in order.
#[verifier::loop_isolation(false)]
pub fn encode_args(args: &Vec<Value>) -> (r: Vec<u8>)
    ensures
        r@ == enc_seq(views_of(args@)),
{
    broadcast use lemma_views_of_len, lemma_views_of_index;

    let ghost am = views_of(args@);
    let mut out: Vec<u8> = Vec::new();
    let mut i: usize = 0;
    while i < args.len()
        invariant
            i <= args.len(),
            out@ == enc_seq(am.take(i as int)),
        decreases args.len() - i,
    {
        proof {
            lemma_enc_seq_push(am.take(i as int), am[i as int]);
            assert(am.take(i as int + 1) =~= am.take(i as int).push(am[i as int]));
        }
        encode_into(&args[i], &mut out);
        assert(out@ =~= enc_seq(am.take(i as int + 1)));
        i += 1;
    }
    assert(am.take(am.len() as int) =~= am);
    out
}

spec fn glue_count(prefix: Seq<ValModel>, r: Option<(Seq<ValModel>, Seq<u8>)>) -> Option<
    (Seq<ValModel>, Seq<u8>),
> {
    match r {
        Some((ms, rest)) => Some((prefix + ms, rest)),
        None => None,
    }
}

spec fn glue_fields(
    prefix: Seq<(Seq<char>, ValModel)>,
    r: Option<(Seq<(Seq<char>, ValModel)>, Seq<u8>)>,
) -> Option<(Seq<(Seq<char>, ValModel)>, Seq<u8>)> {
    match r {
        Some((fs, rest)) => Some((prefix + fs, rest)),
        None => None,
    }
}

#[verifier::loop_isolation(false)]
#[verifier::rlimit(30)]
fn decode_prefix(bytes: &Vec<u8>, pos: usize, s: &ValueShape) -> (r: Result<
    (Value, usize),
    BusError,
>)
    requires
        pos <= bytes@.len(),
    ensures
        match r {
            Ok(vp) => pos <= vp.1 <= bytes@.len() && dec(bytes@.skip(pos as int), s@) == Some(
                (vp.0@, bytes@.skip(vp.1 as int)),
            ),
            Err(e) => e == BusError::ShapeMismatch && dec(bytes@.skip(pos as int), s@) is None,
        },
    decreases shape_depth(s@),
{
    broadcast use lemma_views_of_len, lemma_views_of_index, lemma_field_views_len,
        lemma_field_views_index, lemma_shape_field_views_len, lemma_shape_field_views_index;

    let len = bytes.len();
    match s {
        ValueShape::Bool => {
            if len - pos < 1 {
                return Err(BusError::ShapeMismatch);
            }
            let b0 = bytes[pos];
            assert(bytes@.skip(pos as int)[0] == b0);
            assert(bytes@.skip(pos as int).drop_first() =~= bytes@.skip(pos as int + 1));
            if b0 == 0 {
                Ok((Value::Bool(false), pos + 1))
            } else if b0 == 1 {
                Ok((Value::Bool(true), pos + 1))
            } else {
                Err(BusError::ShapeMismatch)
            }
        },
        ValueShape::Int => {
            if len - pos < 8 {
                return Err(BusError::ShapeMismatch);
            }
            let n = read_u64(bytes, pos);
            assert(bytes@.skip(pos as int).skip(8) =~= bytes@.skip(pos as int + 8));
            Ok((Value::Int(n), pos + 8))
        },
        ValueShape::Str => {
            if len - pos < 8 {
                return Err(BusError::ShapeMismatch);
            }
            let n = read_u64(bytes, pos);
            let body_start = pos + 8;
            if n > (len - body_start) as u64 {
                return Err(BusError::ShapeMismatch);
            }
            let nus = n as usize;
            let sub = sub_vec(bytes, body_start, nus);
            proof {
                let rest = bytes@.skip(pos as int).skip(8);
                assert(rest =~= bytes@.skip(body_start as int));
                assert(rest.take(n as int) =~= sub@);
                assert(rest.skip(n as int) =~= bytes@.skip(body_start as int + n));
            }
            match string_from_utf8(sub) {
                Some(st) => {
                    proof {
                        encode_utf8_decode_utf8(st@);
                    }
                    Ok((Value::Str(st), body_start + nus))
                },
                None => Err(BusError::ShapeMismatch),
            }
        },
        ValueShape::Bytes => {
            if len - pos < 8 {
                return Err(BusError::ShapeMismatch);
            }
            let n = read_u64(bytes, pos);
            let body_start = pos + 8;
            if n > (len - body_start) as u64 {
                return Err(BusError::ShapeMismatch);
            }
            let nus = n as usize;
            let sub = sub_vec(bytes, body_start, nus);
            proof {
                let rest = bytes@.skip(pos as int).skip(8);
                assert(rest =~= bytes@.skip(body_start as int));
                assert(rest.take(n as int) =~= sub@);
                assert(rest.skip(n as int) =~= bytes@.skip(body_start as int + n));
            }
            Ok((Value::Bytes(sub), body_start + nus))
        },
        ValueShape::List(es) => {
            proof {
                assert(s@ == ShapeModel::List(Box::new((**es)@)));
            }
            let ghost em = (**es)@;
            if len - pos < 8 {
                return Err(BusError::ShapeMismatch);
            }
            let n = read_u64(bytes, pos);
            let start = pos + 8;
            assert(bytes@.skip(pos as int).skip(8) =~= bytes@.skip(start as int));
            let mut acc: Vec<Value> = Vec::new();
            let mut p = start;
            let mut i: u64 = 0;
            proof {
                assert(views_of(acc@) =~= Seq::<ValModel>::empty());
                match dec_count(bytes@.skip(start as int), em, n as nat) {
                    Some(t) => {
                        assert(views_of(acc@) + t.0 =~= t.0);
                    },
                    None => {},
                }
            }
            while i < n
                invariant
                    start <= p <= len,
                    i <= n,
                    acc@.len() == i,
                    dec_count(bytes@.skip(start as int), em, n as nat) == glue_count(
                        views_of(acc@),
                        dec_count(bytes@.skip(p as int), em, (n - i) as nat),
                    ),
                decreases n - i,
            {
                match decode_prefix(bytes, p, es) {
                    Ok(vp) => {
                        let (v, p2) = vp;
                        proof {
                            let tail = dec_count(bytes@.skip(p2 as int), em, (n - i - 1) as nat);
                            assert(dec_count(bytes@.skip(p as int), em, (n - i) as nat)
                                == glue_count(seq![v@], tail));
                            lemma_views_of_push(acc@, v);
                            assert(views_of(acc@).push(v@) =~= views_of(acc@) + seq![v@]);
                            match tail {
                                Some(t) => {
                                    assert((views_of(acc@) + seq![v@]) + t.0 =~= views_of(acc@)
                                        + (seq![v@] + t.0));
                                },
                                None => {},
                            }
                        }
                        acc.push(v);
                        p = p2;
                        i = i + 1;
                    },
                    Err(_) => {
                        return Err(BusError::ShapeMismatch);
                    },
                }
            }
            proof {
                assert(dec_count(bytes@.skip(p as int), em, 0nat) == Some(
                    (Seq::<ValModel>::empty(), bytes@.skip(p as int)),
                ));
                assert(views_of(acc@) + Seq::<ValModel>::empty() =~= views_of(acc@));
            }
            Ok((Value::List(acc), p))
        },
        ValueShape::Optional(es) => {
            proof {
                assert(s@ == ShapeModel::Optional(Box::new((**es)@)));
            }
            if len - pos < 1 {
                return Err(BusError::ShapeMismatch);
            }
            let b0 = bytes[pos];
            assert(bytes@.skip(pos as int)[0] == b0);
            assert(bytes@.skip(pos as int).drop_first() =~= bytes@.skip(pos as int + 1));
            if b0 == 0 {
                Ok((Value::Absent, pos + 1))
            } else if b0 == 1 {
                match decode_prefix(bytes, pos + 1, es) {
                    Ok(vp) => {
                        let (v, p2) = vp;
                        Ok((Value::Present(Box::new(v)), p2))
                    },
                    Err(_) => Err(BusError::ShapeMismatch),
                }
            } else {
                Err(BusError::ShapeMismatch)
            }
        },
        ValueShape::Record(sfs) => {
            proof {
                assert(s@ == ShapeModel::Record(shape_field_views(sfs@)));
            }
            let ghost sm = shape_field_views(sfs@);
            let mut acc: Vec<(String, Value)> = Vec::new();
            let mut p = pos;
            let mut j: usize = 0;
            proof {
                assert(sm.skip(0) =~= sm);
                assert(field_views(acc@) =~= Seq::<(Seq<char>, ValModel)>::empty());
                match dec_fields(bytes@.skip(pos as int), sm) {
                    Some(t) => {
                        assert(field_views(acc@) + t.0 =~= t.0);
                    },
                    None => {},
                }
            }
            while j < sfs.len()
                invariant
                    pos <= p <= len,
                    j <= sfs.len(),
                    acc@.len() == j,
                    dec_fields(bytes@.skip(pos as int), sm) == glue_fields(
                        field_views(acc@),
                        dec_fields(bytes@.skip(p as int), sm.skip(j as int)),
                    ),
                decreases sfs.len() - j,
            {
                proof {
                    lemma_shape_depth_fields_index(sm, j as int);
                    assert(sm.skip(j as int)[0] == sm[j as int]);
                    assert(sm.skip(j as int).drop_first() =~= sm.skip(j as int + 1));
                }
                match decode_prefix(bytes, p, &sfs[j].1) {
                    Ok(vp) => {
                        let (v, p2) = vp;
                        let name = sfs[j].0.clone();
                        proof {
                            let tail = dec_fields(bytes@.skip(p2 as int), sm.skip(j as int + 1));
                            assert(dec_fields(bytes@.skip(p as int), sm.skip(j as int))
                                == glue_fields(seq![(sm[j as int].0, v@)], tail));
                            lemma_field_views_push(acc@, (name, v));
                            assert(field_views(acc@).push((name@, v@)) =~= field_views(acc@)
                                + seq![(sm[j as int].0, v@)]);
                            match tail {
                                Some(t) => {
                                    assert((field_views(acc@) + seq![(sm[j as int].0, v@)]) + t.0
                                        =~= field_views(acc@) + (seq![(sm[j as int].0, v@)] + t.0));
                                },
                                None => {},
                            }
                        }
                        acc.push((name, v));
                        p = p2;
                        j = j + 1;
                    },
                    Err(_) => {
                        return Err(BusError::ShapeMismatch);
                    },
                }
            }
            proof {
                assert(sm.skip(sm.len() as int) =~= Seq::<(Seq<char>, ShapeModel)>::empty());
                assert(dec_fields(bytes@.skip(p as int), sm.skip(sm.len() as int)) == Some(
                    (Seq::<(Seq<char>, ValModel)>::empty(), bytes@.skip(p as int)),
                ));
                assert(field_views(acc@) + Seq::<(Seq<char>, ValModel)>::empty() =~= field_views(
                    acc@,
                ));
            }
            Ok((Value::Record(acc), p))
        },
    }
}

/// Decodes wire bytes against an expected shape, consuming every byte.
/// Fails with [`BusError::ShapeMismatch`] exactly when the bytes do not
/// structurally match the shape, or when bytes are left over.
pub fn decode(bytes: &Vec<u8>, s: &ValueShape) -> (r: Result<Value, BusError>)
    ensures
        match r {
            Ok(v) => dec(bytes@, s@) == Some((v@, Seq::<u8>::empty())),
            Err(e) => e == BusError::ShapeMismatch && match dec(bytes@, s@) {
                Some(mr) => mr.1.len() != 0,
                None => true,
            },
        },
{
    assert(bytes@.skip(0) =~= bytes@);
    match decode_prefix(bytes, 0, s) {
        Ok(vp) => {
            let (v, p2) = vp;
            if p2 == bytes.len() {
                assert(bytes@.skip(p2 as int) =~= Seq::<u8>::empty());
                Ok(v)
            } else {
                assert(bytes@.skip(p2 as int).len() != 0);
                Err(BusError::ShapeMismatch)
            }
        },
        Err(e) => Err(e),
    }
}

/// Structural decoding of an argument list against its declared shapes, in
/// order: the decoded values and the remaining bytes, or `None` when some
/// argument does not match its shape.
pub open spec fn dec_shapes(b: Seq<u8>, ss: Seq<ShapeModel>) -> Option<(Seq<ValModel>, Seq<u8>)>
    decreases ss.len(),
{
    if ss.len() == 0 {
        Some((Seq::empty(), b))
    } else {
        match dec(b, ss[0]) {
            Some(mr) => match dec_shapes(mr.1, ss.drop_first()) {
                Some(t) => Some((seq![mr.0] + t.0, t.1)),
                None => None,
            },
            None => None,
        }
    }
}

/// The decoded argument list when the bytes match the shapes exactly, with
/// no bytes left over.
pub open spec fn decoded_args(b: Seq<u8>, ss: Seq<ShapeModel>) -> Option<Seq<ValModel>> {
    match dec_shapes(b, ss) {
        Some(t) => if t.1.len() == 0 {
            Some(t.0)
        } else {
            None
        },
        None => None,
    }
}

proof fn lemma_round_trip_shapes(ms: Seq<ValModel>, ss: Seq<ShapeModel>, rest: Seq<u8>)
    requires
        ms.len() == ss.len(),
        forall|i: int| 0 <= i < ms.len() ==> conforms(#[trigger] ms[i], ss[i]),
        forall|i: int| 0 <= i < ms.len() ==> wire_sized(#[trigger] ms[i]),
    ensures
        dec_shapes(enc_seq(ms) + rest, ss) == Some((ms, rest)),
    decreases ms.len(),
{
    if ms.len() == 0 {
        assert(enc_seq(ms) + rest =~= rest);
        assert(ms =~= Seq::<ValModel>::empty());
    } else {
        let tl = ms.drop_first();
        let stl = ss.drop_first();
        assert(enc_seq(ms) == enc(ms[0]) + enc_seq(tl));
        assert(enc_seq(ms) + rest =~= enc(ms[0]) + (enc_seq(tl) + rest));
        lemma_round_trip_prefix(ms[0], ss[0], enc_seq(tl) + rest);
        assert(forall|i: int| 0 <= i < tl.len() ==> (#[trigger] tl[i]) == ms[i + 1]);
        assert(forall|i: int| 0 <= i < stl.len() ==> (#[trigger] stl[i]) == ss[i + 1]);
        lemma_round_trip_shapes(tl, stl, rest);
        assert(seq![ms[0]] + tl =~= ms);
    }
}

/// The argument-list round-trip law: decoding the concatenated encodings of
/// conforming arguments against their shapes yields the arguments back.
pub proof fn lemma_args_round_trip(ms: Seq<ValModel>, ss: Seq<ShapeModel>)
    requires
        ms.len() == ss.len(),
        forall|i: int| 0 <= i < ms.len() ==> conforms(#[trigger] ms[i], ss[i]),
        forall|i: int| 0 <= i < ms.len() ==> wire_sized(#[trigger] ms[i]),
    ensures
        decoded_args(enc_seq(ms), ss) == Some(ms),
{
    lemma_round_trip_shapes(ms, ss, Seq::<u8>::empty());
    assert(enc_seq(ms) + Seq::<u8>::empty() =~= enc_seq(ms));
}

/// Decodes an argument list against its declared shapes, consuming every
/// byte; fails with [`BusError::ShapeMismatch`] otherwise.
#[verifier::loop_isolation(false)]
pub fn decode_args(bytes: &Vec<u8>, shapes: &Vec<ValueShape>) -> (r: Result<Vec<Value>, BusError>)
    ensures
        match r {
            Ok(vs) => decoded_args(bytes@, shape_views(shapes@)) == Some(views_of(vs@)),
            Err(e) => e == BusError::ShapeMismatch && decoded_args(bytes@, shape_views(shapes@))
                is None,
        },
{
    broadcast use lemma_views_of_len, lemma_views_of_index;

    let ghost sv = shape_views(shapes@);
    let len = bytes.len();
    let mut acc: Vec<Value> = Vec::new();
    let mut p: usize = 0;
    let mut j: usize = 0;
    proof {
        assert(bytes@.skip(0) =~= bytes@);
        assert(sv.skip(0) =~= sv);
        assert(views_of(acc@) =~= Seq::<ValModel>::empty());
        match dec_shapes(bytes@, sv) {
            Some(t) => {
                assert(views_of(acc@) + t.0 =~= t.0);
            },
            None => {},
        }
    }
    while j < shapes.len()
        invariant
            p <= len,
            j <= shapes.len(),
            acc@.len() == j,
            dec_shapes(bytes@, sv) == glue_count(
                views_of(acc@),
                dec_shapes(bytes@.skip(p as int), sv.skip(j as int)),
            ),
        decreases shapes.len() - j,
    {
        proof {
            assert(sv.skip(j as int)[0] == sv[j as int]);
            assert(sv.skip(j as int).drop_first() =~= sv.skip(j as int + 1));
        }
        match decode_prefix(bytes, p, &shapes[j]) {
            Ok(vp) => {
                let (v, p2) = vp;
                proof {
                    let tail = dec_shapes(bytes@.skip(p2 as int), sv.skip(j as int + 1));
                    assert(dec_shapes(bytes@.skip(p as int), sv.skip(j as int)) == glue_count(
                        seq![v@],
                        tail,
                    ));
                    lemma_views_of_push(acc@, v);
                    assert(views_of(acc@).push(v@) =~= views_of(acc@) + seq![v@]);
                    match tail {
                        Some(t) => {
                            assert((views_of(acc@) + seq![v@]) + t.0 =~= views_of(acc@) + (seq![v@]
                                + t.0));
                        },
                        None => {},
                    }
                }
                acc.push(v);
                p = p2;
                j = j + 1;
            },
            Err(_) => {
                return Err(BusError::ShapeMismatch);
            },
        }
    }
    proof {
        assert(sv.skip(sv.len() as int) =~= Seq::<ShapeModel>::empty());
        assert(dec_shapes(bytes@.skip(p as int), sv.skip(sv.len() as int)) == Some(
            (Seq::<ValModel>::empty(), bytes@.skip(p as int)),
        ));
        assert(views_of(acc@) + Seq::<ValModel>::empty() =~= views_of(acc@));
    }
    if p == len {
        assert(bytes@.skip(p as int) =~= Seq::<u8>::empty());
        Ok(acc)
    } else {
        assert(bytes@.skip(p as int).len() != 0);
        Err(BusError::ShapeMismatch)
    }
}

} // verus!
