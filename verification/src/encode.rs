//! The protocol encoder, and the proof that decoding inverts it: any value
//! built of arrays and bulk strings decodes from its own encoding back to
//! itself.

use vstd::prelude::*;

use crate::decode::{
    clamp_step, digit_val, is_digit, spec_decode, spec_parse, spec_parse_count, spec_parse_elems,
    spec_scan_digits, spec_take_payload,
};
use crate::resp::{
    model, models, DecodeError, RespModel, RespType, BYTE_CR, BYTE_DOLLAR, BYTE_LF, BYTE_MINUS,
    BYTE_PLUS, BYTE_STAR,
};

verus! {

broadcast use vstd::std_specs::vec::group_vec_axioms;

/// The two-byte line terminator.
pub open spec fn crlf() -> Seq<u8> {
    seq![BYTE_CR, BYTE_LF]
}

/// The shortest decimal digit string of `n`, most significant digit first.
pub open spec fn dec_digits(n: nat) -> Seq<u8>
    decreases n,
{
    if n < 10 {
        seq![(48 + n) as u8]
    } else {
        dec_digits(n / 10).push((48 + n % 10) as u8)
    }
}

/// The encoding of one protocol value as wire bytes.
pub open spec fn encode_model(v: RespModel) -> Seq<u8>
    decreases v,
{
    match v {
        RespModel::Simple(s) => seq![BYTE_PLUS] + s + crlf(),
        // the null markers encode as `$-1` and `*-1`; 49 is the digit one
        RespModel::Bulk(None) => seq![BYTE_DOLLAR, BYTE_MINUS, 49u8] + crlf(),
        RespModel::Bulk(Some(p)) => seq![BYTE_DOLLAR] + dec_digits(p.len()) + crlf() + p + crlf(),
        RespModel::Arr(None) => seq![BYTE_STAR, BYTE_MINUS, 49u8] + crlf(),
        RespModel::Arr(Some(vs)) => seq![BYTE_STAR] + dec_digits(vs.len()) + crlf()
            + encode_elems(vs),
    }
}

/// The concatenated encodings of a sequence of protocol values.
pub open spec fn encode_elems(vs: Seq<RespModel>) -> Seq<u8>
    decreases vs,
{
    if vs.len() == 0 {
        Seq::empty()
    } else {
        encode_model(vs[0]) + encode_elems(vs.drop_first())
    }
}

/// The values the decoder can produce from their own encoding: everything
/// built of bulk strings, arrays and the null markers. Simple strings are
/// reply-only and have no parsed form.
pub open spec fn parseable(v: RespModel) -> bool
    decreases v,
{
    match v {
        RespModel::Simple(_) => false,
        RespModel::Bulk(_) => true,
        RespModel::Arr(None) => true,
        RespModel::Arr(Some(vs)) => parseable_all(vs),
    }
}

/// Every element of the sequence is parseable.
pub open spec fn parseable_all(vs: Seq<RespModel>) -> bool
    decreases vs,
{
    if vs.len() == 0 {
        true
    } else {
        parseable(vs[0]) && parseable_all(vs.drop_first())
    }
}

/// Ten to the power `k`.
pub open spec fn pow10(k: nat) -> nat
    decreases k,
{
    if k == 0 {
        1
    } else {
        10 * pow10((k - 1) as nat)
    }
}

/// Appending one value to a sequence appends its encoding.
pub proof fn lemma_encode_elems_push(vs: Seq<RespModel>, v: RespModel)
    ensures
        encode_elems(vs.push(v)) == encode_elems(vs) + encode_model(v),
    decreases vs.len(),
{
    if vs.len() == 0 {
        assert(vs.push(v)[0] == v);
        assert(vs.push(v).drop_first() =~= Seq::<RespModel>::empty());
        assert(encode_elems(Seq::<RespModel>::empty()) == Seq::<u8>::empty());
        assert(encode_model(v) + Seq::<u8>::empty() =~= encode_model(v));
        assert(encode_elems(vs) + encode_model(v) =~= encode_model(v));
    } else {
        lemma_encode_elems_push(vs.drop_first(), v);
        assert(vs.push(v)[0] == vs[0]);
        assert(vs.push(v).drop_first() =~= vs.drop_first().push(v));
        assert(encode_elems(vs.push(v)) == encode_model(vs[0]) + (encode_elems(vs.drop_first())
            + encode_model(v)));
        assert(encode_model(vs[0]) + (encode_elems(vs.drop_first()) + encode_model(v)) =~= (
        encode_model(vs[0]) + encode_elems(vs.drop_first())) + encode_model(v));
    }
}

/// A digit string consists of digits and is never empty.
pub proof fn lemma_dec_digits_wf(n: nat)
    ensures
        dec_digits(n).len() >= 1,
        forall|i: int| 0 <= i < dec_digits(n).len() ==> is_digit(#[trigger] dec_digits(n)[i]),
    decreases n,
{
    if n >= 10 {
        lemma_dec_digits_wf(n / 10);
    }
}

/// An encoding always takes at least one byte.
pub proof fn lemma_encode_nonempty(v: RespModel)
    ensures
        encode_model(v).len() >= 1,
{
}

/// A sequence of encodings takes at least one byte per element.
pub proof fn lemma_encode_elems_len(vs: Seq<RespModel>)
    ensures
        encode_elems(vs).len() >= vs.len(),
    decreases vs.len(),
{
    if vs.len() > 0 {
        lemma_encode_nonempty(vs[0]);
        lemma_encode_elems_len(vs.drop_first());
    }
}

/// Scanning the digit string of `n` folds it back onto the accumulator:
/// scanning from `pos` with accumulator `a` is scanning from past the digits
/// with `a * pow10(len) + n`, with no clamping as long as that value stays
/// within the buffer length.
proof fn lemma_scan_digits_of(s: Seq<u8>, pos: int, a: int, n: nat)
    requires
        0 <= a,
        0 <= pos,
        pos + dec_digits(n).len() <= s.len(),
        forall|i: int|
            0 <= i < dec_digits(n).len() ==> s[pos + i] == #[trigger] dec_digits(n)[i],
        a * pow10(dec_digits(n).len() as nat) + n <= s.len(),
    ensures
        spec_scan_digits(s, pos, a) == spec_scan_digits(
            s,
            pos + dec_digits(n).len(),
            a * pow10(dec_digits(n).len() as nat) + n,
        ),
    decreases n,
{
    lemma_dec_digits_wf(n);
    if n < 10 {
        assert(dec_digits(n) =~= seq![(48 + n) as u8]);
        assert(dec_digits(n)[0] == (48 + n) as u8);
        assert(s[pos] == (48 + n) as u8);
        assert(digit_val(s[pos]) == n);
        assert(pow10(0) == 1);
        assert(pow10(1) == 10);
        assert(clamp_step(a, n as int, s.len() as int) == a * 10 + n);
        assert(spec_scan_digits(s, pos, a) == spec_scan_digits(s, pos + 1, a * 10 + n));
    } else {
        let l0 = dec_digits((n / 10) as nat).len();
        let d = (48 + n % 10) as u8;
        assert(dec_digits(n) == dec_digits((n / 10) as nat).push(d));
        assert(dec_digits(n).len() == l0 + 1);
        assert(forall|i: int|
            0 <= i < l0 ==> #[trigger] dec_digits((n / 10) as nat)[i] == dec_digits(n)[i]);
        assert(pow10((l0 + 1) as nat) == 10 * pow10(l0 as nat));
        let full = a * pow10((l0 + 1) as nat) + n;
        let half = a * pow10(l0 as nat) + n / 10;
        assert(half * 10 + n % 10 == full) by (nonlinear_arith)
            requires
                full == a * (10 * pow10(l0 as nat)) + n,
                half == a * pow10(l0 as nat) + n / 10,
                n == 10 * (n / 10) + n % 10,
        ;
        assert(half <= full) by (nonlinear_arith)
            requires
                half * 10 + n % 10 == full,
                half >= 0,
                n % 10 >= 0,
        ;
        lemma_scan_digits_of(s, pos, a, (n / 10) as nat);
        assert(spec_scan_digits(s, pos, a) == spec_scan_digits(s, pos + l0, half));
        assert(dec_digits(n)[l0 as int] == d);
        assert(s[pos + l0] == d);
        assert(is_digit(d) && digit_val(d) == n % 10);
        assert(clamp_step(half, (n % 10) as int, s.len() as int) == full);
        assert(spec_scan_digits(s, pos + l0, half) == spec_scan_digits(s, pos + l0 + 1, full));
    }
}

/// A count line holding the digit string of `n` followed by the terminator
/// parses to `n`.
proof fn lemma_parse_count_of(s: Seq<u8>, pos: int, n: nat)
    requires
        0 <= pos,
        pos + dec_digits(n).len() + 2 <= s.len(),
        forall|i: int|
            0 <= i < dec_digits(n).len() ==> s[pos + i] == #[trigger] dec_digits(n)[i],
        s[pos + dec_digits(n).len()] == BYTE_CR,
        s[pos + dec_digits(n).len() + 1] == BYTE_LF,
        n <= s.len(),
    ensures
        spec_parse_count(s, pos) == Ok::<_, DecodeError>(
            (n as int, pos + dec_digits(n).len() + 2),
        ),
{
    lemma_dec_digits_wf(n);
    let l = dec_digits(n).len() as int;
    assert(is_digit(dec_digits(n)[0]));
    assert(s[pos] == dec_digits(n)[0] && is_digit(s[pos]));
    assert(pow10(l as nat) >= 1) by {
        lemma_pow10_pos(l as nat);
    }
    lemma_scan_digits_of(s, pos, 0, n);
    assert(0 * pow10(l as nat) + n == n);
    assert(!is_digit(BYTE_CR));
    assert(spec_scan_digits(s, pos + l, n as int) == Ok::<_, DecodeError>((n as int, pos + l + 2)));
}

/// Ten to any power is positive.
proof fn lemma_pow10_pos(k: nat)
    ensures
        pow10(k) >= 1,
    decreases k,
{
    if k > 0 {
        lemma_pow10_pos((k - 1) as nat);
    }
}

/// Parsing at the start of an embedded encoding yields back the encoded
/// value and consumes exactly its bytes.
proof fn lemma_parse_encoded(v: RespModel, s: Seq<u8>, pos: int)
    requires
        parseable(v),
        0 <= pos,
        pos + encode_model(v).len() <= s.len(),
        forall|i: int|
            0 <= i < encode_model(v).len() ==> s[pos + i] == #[trigger] encode_model(v)[i],
    ensures
        spec_parse(s, pos) == Ok::<_, DecodeError>((v, pos + encode_model(v).len())),
    decreases v,
{
    match v {
        RespModel::Simple(_) => {
        },
        RespModel::Bulk(None) => {
            let enc = encode_model(v);
            assert(enc =~= seq![BYTE_DOLLAR, BYTE_MINUS, 49u8, BYTE_CR, BYTE_LF]);
            assert(enc[0] == BYTE_DOLLAR && enc[1] == BYTE_MINUS && enc[2] == 49 && enc[3]
                == BYTE_CR && enc[4] == BYTE_LF);
            lemma_parse_null(s, pos, BYTE_DOLLAR);
        },
        RespModel::Arr(None) => {
            let enc = encode_model(v);
            assert(enc =~= seq![BYTE_STAR, BYTE_MINUS, 49u8, BYTE_CR, BYTE_LF]);
            assert(enc[0] == BYTE_STAR && enc[1] == BYTE_MINUS && enc[2] == 49 && enc[3]
                == BYTE_CR && enc[4] == BYTE_LF);
            lemma_parse_null(s, pos, BYTE_STAR);
        },
        RespModel::Bulk(Some(p)) => {
            let enc = encode_model(v);
            let l = dec_digits(p.len()).len() as int;
            assert(enc == seq![BYTE_DOLLAR] + dec_digits(p.len()) + crlf() + p + crlf());
            assert(enc.len() == 1 + l + 2 + p.len() + 2);
            assert(enc[0] == BYTE_DOLLAR);
            assert(s[pos] == BYTE_DOLLAR);
            assert forall|i: int| 0 <= i < l implies s[pos + 1 + i] == #[trigger] dec_digits(
                p.len(),
            )[i] by {
                assert(enc[1 + i] == dec_digits(p.len())[i]);
            }
            assert(enc[1 + l] == BYTE_CR && enc[1 + l + 1] == BYTE_LF);
            assert(s[pos + 1 + l] == BYTE_CR && s[pos + 1 + l + 1] == BYTE_LF);
            lemma_parse_count_of(s, pos + 1, p.len());
            let p0 = pos + 1 + l + 2;
            assert(spec_parse_count(s, pos + 1) == Ok::<_, DecodeError>((p.len() as int, p0)));
            assert forall|i: int| 0 <= i < p.len() implies s[p0 + i] == #[trigger] p[i] by {
                assert(enc[1 + l + 2 + i] == p[i]);
            }
            assert(enc[1 + l + 2 + p.len()] == BYTE_CR && enc[1 + l + 2 + p.len() + 1] == BYTE_LF);
            assert(s[p0 + p.len()] == BYTE_CR && s[p0 + p.len() + 1] == BYTE_LF);
            assert(s.subrange(p0, p0 + p.len() as int) =~= p);
            assert(spec_take_payload(s, p.len() as int, p0) == Ok::<_, DecodeError>(
                (RespModel::Bulk(Some(p)), p0 + p.len() + 2),
            ));
        },
        RespModel::Arr(Some(vs)) => {
            let enc = encode_model(v);
            let l = dec_digits(vs.len()).len() as int;
            assert(enc == seq![BYTE_STAR] + dec_digits(vs.len()) + crlf() + encode_elems(vs));
            assert(enc.len() == 1 + l + 2 + encode_elems(vs).len());
            lemma_encode_elems_len(vs);
            assert(enc[0] == BYTE_STAR);
            assert(s[pos] == BYTE_STAR);
            assert forall|i: int| 0 <= i < l implies s[pos + 1 + i] == #[trigger] dec_digits(
                vs.len(),
            )[i] by {
                assert(enc[1 + i] == dec_digits(vs.len())[i]);
            }
            assert(enc[1 + l] == BYTE_CR && enc[1 + l + 1] == BYTE_LF);
            assert(s[pos + 1 + l] == BYTE_CR && s[pos + 1 + l + 1] == BYTE_LF);
            lemma_parse_count_of(s, pos + 1, vs.len());
            let p0 = pos + 1 + l + 2;
            assert(spec_parse_count(s, pos + 1) == Ok::<_, DecodeError>((vs.len() as int, p0)));
            assert forall|i: int| 0 <= i < encode_elems(vs).len() implies s[p0 + i] == #[trigger]
            encode_elems(vs)[i] by {
                assert(enc[1 + l + 2 + i] == encode_elems(vs)[i]);
            }
            lemma_parse_encoded_elems(vs, s, p0);
            assert(spec_parse_elems(s, p0, vs.len() as int) == Ok::<_, DecodeError>(
                (vs, p0 + encode_elems(vs).len()),
            ));
        },
    }
}

/// The null markers `$-1` and `*-1` parse to the null value of their kind.
proof fn lemma_parse_null(s: Seq<u8>, pos: int, tag: u8)
    requires
        tag == BYTE_DOLLAR || tag == BYTE_STAR,
        0 <= pos,
        pos + 5 <= s.len(),
        s[pos] == tag,
        s[pos + 1] == BYTE_MINUS,
        s[pos + 2] == 49,
        s[pos + 3] == BYTE_CR,
        s[pos + 4] == BYTE_LF,
    ensures
        tag == BYTE_DOLLAR ==> spec_parse(s, pos) == Ok::<_, DecodeError>(
            (RespModel::Bulk(None), pos + 5),
        ),
        tag == BYTE_STAR ==> spec_parse(s, pos) == Ok::<_, DecodeError>(
            (RespModel::Arr(None), pos + 5),
        ),
{
    assert(is_digit(s[pos + 2]) && digit_val(s[pos + 2]) == 1);
    assert(clamp_step(0, 1int, s.len() as int) == 1);
    assert(spec_scan_digits(s, pos + 2, 0) == spec_scan_digits(s, pos + 3, 1));
    assert(spec_scan_digits(s, pos + 3, 1) == Ok::<_, DecodeError>((1int, pos + 5)));
    assert(spec_parse_count(s, pos + 1) == Ok::<_, DecodeError>((-1int, pos + 5)));
}

/// Parsing `count` elements at the start of their concatenated encodings
/// yields them all back, in order.
proof fn lemma_parse_encoded_elems(vs: Seq<RespModel>, s: Seq<u8>, pos: int)
    requires
        parseable_all(vs),
        0 <= pos,
        pos + encode_elems(vs).len() <= s.len(),
        forall|i: int|
            0 <= i < encode_elems(vs).len() ==> s[pos + i] == #[trigger] encode_elems(vs)[i],
    ensures
        spec_parse_elems(s, pos, vs.len() as int) == Ok::<_, DecodeError>(
            (vs, pos + encode_elems(vs).len()),
        ),
    decreases vs,
{
    if vs.len() == 0 {
        assert(encode_elems(vs).len() == 0);
        assert(vs =~= Seq::<RespModel>::empty());
    } else {
        let e0 = encode_model(vs[0]);
        let rest = vs.drop_first();
        assert(encode_elems(vs) == e0 + encode_elems(rest));
        assert forall|i: int| 0 <= i < e0.len() implies s[pos + i] == #[trigger] e0[i] by {
            assert(encode_elems(vs)[i] == e0[i]);
        }
        lemma_parse_encoded(vs[0], s, pos);
        lemma_encode_nonempty(vs[0]);
        let p1 = pos + e0.len();
        assert forall|i: int| 0 <= i < encode_elems(rest).len() implies s[p1 + i] == #[trigger]
        encode_elems(rest)[i] by {
            assert(encode_elems(vs)[e0.len() + i] == encode_elems(rest)[i]);
        }
        lemma_parse_encoded_elems(rest, s, p1);
        assert(rest.len() == vs.len() - 1);
        assert(encode_elems(vs).len() == e0.len() + encode_elems(rest).len());
        assert(p1 <= s.len());
        assert(spec_parse(s, pos) == Ok::<_, DecodeError>((vs[0], p1)));
        assert(spec_parse_elems(s, p1, vs.len() as int - 1) == Ok::<_, DecodeError>(
            (rest, p1 + encode_elems(rest).len()),
        ));
        assert(spec_parse_elems(s, pos, vs.len() as int) == Ok::<_, DecodeError>(
            (seq![vs[0]] + rest, p1 + encode_elems(rest).len()),
        ));
        assert(seq![vs[0]] + rest =~= vs);
    }
}

/// Round trip: a value built of arrays and bulk strings decodes from its own
/// encoding back to itself, and in particular an array-of-bulk-strings
/// request keeps the exact sequence of its bulk string contents.
pub proof fn lemma_encode_then_decode(v: RespModel)
    requires
        parseable(v),
    ensures
        spec_decode(encode_model(v)) == Ok::<RespModel, DecodeError>(v),
{
    let enc = encode_model(v);
    lemma_encode_nonempty(v);
    assert(enc[0] == BYTE_STAR || enc[0] == BYTE_DOLLAR);
    lemma_parse_encoded(v, enc, 0);
}

/// Appends the decimal digit string of `n`.
fn push_decimal(out: &mut Vec<u8>, n: usize)
    ensures
        final(out)@ == old(out)@ + dec_digits(n as nat),
    decreases n,
{
    if n < 10 {
        out.push(48 + n as u8);
        assert(out@ =~= old(out)@ + dec_digits(n as nat));
    } else {
        push_decimal(out, n / 10);
        out.push(48 + (n % 10) as u8);
        assert(out@ =~= old(out)@ + dec_digits(n as nat));
    }
}

/// Appends a byte slice.
pub(crate) fn push_bytes(out: &mut Vec<u8>, data: &[u8])
    ensures
        final(out)@ == old(out)@ + data@,
{
    let len = data.len();
    let mut i: usize = 0;
    while i < len
        invariant
            i <= len,
            len == data@.len(),
            out@ == old(out)@ + data@.subrange(0, i as int),
        decreases len - i,
    {
        out.push(data[i]);
        i = i + 1;
        assert(old(out)@ + data@.subrange(0, i - 1) + seq![data@[i - 1]] =~= old(out)@
            + data@.subrange(0, i as int));
    }
    assert(data@.subrange(0, len as int) =~= data@);
}

/// Encodes one protocol value as wire bytes, exactly as [`encode_model`]
/// describes.
pub fn encode(v: &RespType) -> (out: Vec<u8>)
    ensures
        out@ == encode_model(model(*v)),
    decreases *v,
{
    let mut out: Vec<u8> = Vec::new();
    match v {
        RespType::SimpleString(s) => {
            out.push(BYTE_PLUS);
            push_bytes(&mut out, s.as_slice());
            out.push(BYTE_CR);
            out.push(BYTE_LF);
            assert(out@ =~= seq![BYTE_PLUS] + s@ + crlf());
        },
        RespType::BulkString(None) => {
            out.push(BYTE_DOLLAR);
            out.push(BYTE_MINUS);
            out.push(49);
            out.push(BYTE_CR);
            out.push(BYTE_LF);
            assert(out@ =~= seq![BYTE_DOLLAR, BYTE_MINUS, 49u8] + crlf());
        },
        RespType::BulkString(Some(p)) => {
            out.push(BYTE_DOLLAR);
            push_decimal(&mut out, p.len());
            out.push(BYTE_CR);
            out.push(BYTE_LF);
            push_bytes(&mut out, p.as_slice());
            out.push(BYTE_CR);
            out.push(BYTE_LF);
            assert(out@ =~= seq![BYTE_DOLLAR] + dec_digits(p@.len()) + crlf() + p@ + crlf());
        },
        RespType::Array(None) => {
            out.push(BYTE_STAR);
            out.push(BYTE_MINUS);
            out.push(49);
            out.push(BYTE_CR);
            out.push(BYTE_LF);
            assert(out@ =~= seq![BYTE_STAR, BYTE_MINUS, 49u8] + crlf());
        },
        RespType::Array(Some(es)) => {
            out.push(BYTE_STAR);
            push_decimal(&mut out, es.len());
            out.push(BYTE_CR);
            out.push(BYTE_LF);
            let ghost header = out@;
            let count = es.len();
            let mut i: usize = 0;
            while i < count
                invariant
                    i <= count,
                    count == es@.len(),
                    *v == RespType::Array(Some(*es)),
                    out@ == header + encode_elems(models(es@.subrange(0, i as int))),
                decreases count - i,
            {
                proof {
                    assert(decreases_to!(*v => (*v)->Array_0));
                    assert((*v)->Array_0->0 == *es);
                    assert(decreases_to!((*v)->Array_0 => (*v)->Array_0->0));
                    assert(decreases_to!(*es => es@));
                    assert(decreases_to!(es@ => es@[i as int]));
                }
                let piece = encode(&es[i]);
                push_bytes(&mut out, piece.as_slice());
                i = i + 1;
                proof {
                    let prefix = es@.subrange(0, i - 1);
                    let x = es@[i - 1];
                    assert(prefix.push(x) =~= es@.subrange(0, i as int));
                    crate::resp::lemma_models_push(prefix, x);
                    lemma_encode_elems_push(models(prefix), model(x));
                    assert(models(prefix) + seq![model(x)] =~= models(prefix).push(model(x)));
                    assert((header + encode_elems(models(prefix))) + encode_model(model(x)) =~=
                    header + (encode_elems(models(prefix)) + encode_model(model(x))));
                }
            }
            proof {
                assert(es@.subrange(0, count as int) =~= es@);
                crate::resp::lemma_models_pointwise(es@);
                assert(out@ =~= seq![BYTE_STAR] + dec_digits(models(es@).len()) + crlf()
                    + encode_elems(models(es@)));
            }
        },
    }
    out
}

} // verus!
