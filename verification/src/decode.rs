//! The protocol decoder: a single-pass recursive-descent parser from a byte
//! buffer to one typed protocol value.
//!
//! The grammar subset: an array `*<count>\r\n` followed by exactly `count`
//! encoded elements; a bulk string `$<len>\r\n<len payload bytes>\r\n`; the
//! null markers `*-1\r\n` and `$-1\r\n`. A buffer whose first byte is neither
//! `*` nor `$` is tolerated as a non-array value (the whole buffer as one
//! simple string), which the dispatcher treats as an implicit liveness probe.
//! Bytes after the first complete frame are ignored.
//!
//! [`spec_decode`] is the mathematical definition; [`decode`] is the
//! executable parser, proved to agree with it on every input, error for
//! error.

use vstd::prelude::*;
use vstd::slice::{slice_subrange, slice_to_vec};

use crate::resp::{
    model, models, DecodeError, RespModel, RespType, BYTE_CR, BYTE_DOLLAR, BYTE_LF, BYTE_MINUS,
    BYTE_STAR,
};

verus! {

/// An ASCII decimal digit.
pub open spec fn is_digit(b: u8) -> bool {
    48 <= b <= 57
}

/// The numeric value of an ASCII decimal digit.
pub open spec fn digit_val(b: u8) -> int {
    b - 48
}

/// One step of decimal accumulation, clamped at `cap`. A count or length is
/// only ever compared against the bytes that remain in the buffer, so any
/// value of at least the buffer length behaves the same; clamping there keeps
/// the accumulator within machine range without changing what is accepted.
pub open spec fn clamp_step(acc: int, d: int, cap: int) -> int {
    if acc * 10 + d > cap {
        cap
    } else {
        acc * 10 + d
    }
}

/// Scans decimal digits from `pos` with accumulator `acc`, then demands the
/// `\r\n` terminator; yields the accumulated value (clamped at the buffer
/// length) and the position after the terminator.
pub open spec fn spec_scan_digits(s: Seq<u8>, pos: int, acc: int) -> Result<
    (int, int),
    DecodeError,
>
    decreases s.len() - pos,
{
    if pos >= s.len() {
        Err(DecodeError::Truncated)
    } else if is_digit(s[pos]) {
        spec_scan_digits(s, pos + 1, clamp_step(acc, digit_val(s[pos]), s.len() as int))
    } else if s[pos] == BYTE_CR {
        if pos + 1 >= s.len() {
            Err(DecodeError::Truncated)
        } else if s[pos + 1] == BYTE_LF {
            Ok((acc, pos + 2))
        } else {
            Err(DecodeError::MissingCrlf)
        }
    } else {
        Err(DecodeError::MissingCrlf)
    }
}

/// Parses the count (or length) line that follows a `*` or `$` marker: one or
/// more digits, or `-` followed by digits of value one for the null marker,
/// then `\r\n`. Yields `-1` for the null marker, otherwise the non-negative
/// value, together with the position after the line.
pub open spec fn spec_parse_count(s: Seq<u8>, pos: int) -> Result<(int, int), DecodeError> {
    if pos >= s.len() {
        Err(DecodeError::Truncated)
    } else if s[pos] == BYTE_MINUS {
        if pos + 1 >= s.len() {
            Err(DecodeError::Truncated)
        } else if !is_digit(s[pos + 1]) {
            Err(DecodeError::BadCount)
        } else {
            match spec_scan_digits(s, pos + 1, 0) {
                Ok((n, p)) => if n == 1 {
                    Ok((-1, p))
                } else {
                    Err(DecodeError::BadCount)
                },
                Err(e) => Err(e),
            }
        }
    } else if !is_digit(s[pos]) {
        Err(DecodeError::BadCount)
    } else {
        spec_scan_digits(s, pos, 0)
    }
}

/// The payload of a bulk string whose length line gave `n`, starting at `p`:
/// the null marker, or exactly `n` payload bytes followed by `\r\n`.
pub open spec fn spec_take_payload(s: Seq<u8>, n: int, p: int) -> Result<
    (RespModel, int),
    DecodeError,
> {
    if n == -1 {
        Ok((RespModel::Bulk(None), p))
    } else if n > s.len() - p {
        Err(DecodeError::Truncated)
    } else if s.len() - (p + n) < 2 {
        Err(DecodeError::Truncated)
    } else if s[p + n] != BYTE_CR || s[p + n + 1] != BYTE_LF {
        Err(DecodeError::MissingCrlf)
    } else {
        Ok((RespModel::Bulk(Some(s.subrange(p, p + n))), p + n + 2))
    }
}

/// Parses one encoded element at `pos`: a bulk string, an array, or one of
/// the null markers. Yields the element and the position just after it.
pub open spec fn spec_parse(s: Seq<u8>, pos: int) -> Result<(RespModel, int), DecodeError>
    decreases s.len() - pos, 0int,
{
    if pos >= s.len() {
        Err(DecodeError::Truncated)
    } else if s[pos] == BYTE_DOLLAR {
        match spec_parse_count(s, pos + 1) {
            Ok((n, p)) => spec_take_payload(s, n, p),
            Err(e) => Err(e),
        }
    } else if s[pos] == BYTE_STAR {
        match spec_parse_count(s, pos + 1) {
            Ok((n, p)) => if n == -1 {
                Ok((RespModel::Arr(None), p))
            } else if n > s.len() - p {
                // more elements declared than bytes remain: necessarily cut short
                Err(DecodeError::Truncated)
            } else if p <= pos || p > s.len() {
                // a parsed count line always ends after its marker and within
                // the buffer; stating it here keeps the recursion structural
                Err(DecodeError::Truncated)
            } else {
                match spec_parse_elems(s, p, n) {
                    Ok((es, p2)) => Ok((RespModel::Arr(Some(es)), p2)),
                    Err(e) => Err(e),
                }
            },
            Err(e) => Err(e),
        }
    } else {
        Err(DecodeError::BadElement)
    }
}

/// Parses exactly `count` encoded elements starting at `pos`.
pub open spec fn spec_parse_elems(s: Seq<u8>, pos: int, count: int) -> Result<
    (Seq<RespModel>, int),
    DecodeError,
>
    decreases s.len() - pos, count + 1,
{
    if count <= 0 {
        Ok((Seq::empty(), pos))
    } else {
        match spec_parse(s, pos) {
            Ok((v, p)) => if p <= pos || p > s.len() {
                // a parsed element always consumes at least one byte and stays
                // within the buffer; stating it here keeps the recursion
                // structural
                Err(DecodeError::Truncated)
            } else {
                match spec_parse_elems(s, p, count - 1) {
                    Ok((es, p2)) => Ok((seq![v] + es, p2)),
                    Err(e) => Err(e),
                }
            },
            Err(e) => Err(e),
        }
    }
}

/// The decoder's full contract on a byte buffer holding one frame: the parsed
/// array or bulk string when the buffer leads with `*` or `$` (bytes past the
/// frame ignored), the whole buffer as a tolerated simple string otherwise,
/// and an error exactly on malformed or truncated headers and payloads.
pub open spec fn spec_decode(s: Seq<u8>) -> Result<RespModel, DecodeError> {
    if s.len() == 0 {
        Err(DecodeError::Truncated)
    } else if s[0] == BYTE_STAR || s[0] == BYTE_DOLLAR {
        match spec_parse(s, 0) {
            Ok((v, p)) => Ok(v),
            Err(e) => Err(e),
        }
    } else {
        Ok(RespModel::Simple(s))
    }
}

/// Scans the decimal digits of a count line and its `\r\n` terminator.
fn scan_digits(input: &[u8], start: usize) -> (r: Result<(usize, usize), DecodeError>)
    requires
        start <= input@.len(),
    ensures
        match r {
            Ok((n, p)) => spec_scan_digits(input@, start as int, 0) == Ok::<_, DecodeError>(
                (n as int, p as int),
            ) && start < p <= input@.len() && n <= input@.len(),
            Err(e) => spec_scan_digits(input@, start as int, 0) == Err::<(int, int), _>(e),
        },
{
    let len = input.len();
    let mut i = start;
    let mut acc: usize = 0;
    while i < len && 48 <= input[i] && input[i] <= 57
        invariant
            start <= i <= len,
            len == input@.len(),
            acc <= len,
            spec_scan_digits(input@, start as int, 0) == spec_scan_digits(
                input@,
                i as int,
                acc as int,
            ),
        decreases len - i,
    {
        let d = (input[i] - 48) as usize;
        let wide: u128 = acc as u128 * 10 + d as u128;
        if wide > len as u128 {
            acc = len;
        } else {
            acc = wide as usize;
        }
        i = i + 1;
    }
    if i >= len {
        return Err(DecodeError::Truncated);
    }
    if input[i] == BYTE_CR {
        if i + 1 >= len {
            Err(DecodeError::Truncated)
        } else if input[i + 1] == BYTE_LF {
            Ok((acc, i + 2))
        } else {
            Err(DecodeError::MissingCrlf)
        }
    } else {
        Err(DecodeError::MissingCrlf)
    }
}

/// Parses a count line: digits, or the null marker `-1`, then `\r\n`.
/// `None` stands for the null marker.
fn parse_count(input: &[u8], pos: usize) -> (r: Result<(Option<usize>, usize), DecodeError>)
    requires
        pos <= input@.len(),
    ensures
        match r {
            Ok((None, p)) => spec_parse_count(input@, pos as int) == Ok::<_, DecodeError>(
                (-1int, p as int),
            ) && pos < p <= input@.len(),
            Ok((Some(n), p)) => spec_parse_count(input@, pos as int) == Ok::<_, DecodeError>(
                (n as int, p as int),
            ) && pos < p <= input@.len() && n <= input@.len(),
            Err(e) => spec_parse_count(input@, pos as int) == Err::<(int, int), _>(e),
        },
{
    let len = input.len();
    if pos >= len {
        return Err(DecodeError::Truncated);
    }
    if input[pos] == BYTE_MINUS {
        if pos + 1 >= len {
            return Err(DecodeError::Truncated);
        }
        if !(48 <= input[pos + 1] && input[pos + 1] <= 57) {
            return Err(DecodeError::BadCount);
        }
        match scan_digits(input, pos + 1) {
            Ok((n, p)) => if n == 1 {
                Ok((None, p))
            } else {
                Err(DecodeError::BadCount)
            },
            Err(e) => Err(e),
        }
    } else if !(48 <= input[pos] && input[pos] <= 57) {
        Err(DecodeError::BadCount)
    } else {
        match scan_digits(input, pos) {
            Ok((n, p)) => Ok((Some(n), p)),
            Err(e) => Err(e),
        }
    }
}

/// Parses one encoded element at `pos`, returning it with the position just
/// after it.
fn parse_value(input: &[u8], pos: usize) -> (r: Result<(RespType, usize), DecodeError>)
    requires
        pos <= input@.len(),
    ensures
        match r {
            Ok((v, p)) => spec_parse(input@, pos as int) == Ok::<_, DecodeError>(
                (model(v), p as int),
            ) && pos < p <= input@.len(),
            Err(e) => spec_parse(input@, pos as int) == Err::<(RespModel, int), _>(e),
        },
    decreases input@.len() - pos,
{
    let len = input.len();
    if pos >= len {
        return Err(DecodeError::Truncated);
    }
    let tag = input[pos];
    if tag == BYTE_DOLLAR {
        match parse_count(input, pos + 1) {
            Err(e) => Err(e),
            Ok((None, p)) => Ok((RespType::BulkString(None), p)),
            Ok((Some(n), p)) => {
                if n > len - p {
                    Err(DecodeError::Truncated)
                } else if len - (p + n) < 2 {
                    Err(DecodeError::Truncated)
                } else if !(input[p + n] == BYTE_CR && input[p + n + 1] == BYTE_LF) {
                    Err(DecodeError::MissingCrlf)
                } else {
                    let payload = slice_to_vec(slice_subrange(input, p, p + n));
                    Ok((RespType::BulkString(Some(payload)), p + n + 2))
                }
            },
        }
    } else if tag == BYTE_STAR {
        match parse_count(input, pos + 1) {
            Err(e) => Err(e),
            Ok((None, p)) => Ok((RespType::Array(None), p)),
            Ok((Some(n), p)) => {
                if n > len - p {
                    return Err(DecodeError::Truncated);
                }
                let mut elems: Vec<RespType> = Vec::new();
                let mut cur = p;
                let mut i: usize = 0;
                while i < n
                    invariant
                        len == input@.len(),
                        i <= n,
                        n <= len - p,
                        pos < p <= len,
                        pos < cur <= len,
                        pos < len,
                        input@[pos as int] == BYTE_STAR,
                        spec_parse_count(input@, pos as int + 1) == Ok::<_, DecodeError>(
                            (n as int, p as int),
                        ),
                        elems@.len() == i,
                        spec_parse_elems(input@, p as int, n as int) == (match spec_parse_elems(
                            input@,
                            cur as int,
                            n - i,
                        ) {
                            Ok((es, e)) => Ok::<_, DecodeError>((models(elems@) + es, e)),
                            Err(er) => Err(er),
                        }),
                    decreases n - i,
                {
                    match parse_value(input, cur) {
                        Err(e) => {
                            proof {
                                assert(spec_parse_elems(input@, p as int, n as int) == Err::<
                                    (Seq<RespModel>, int),
                                    _,
                                >(e));
                            }
                            return Err(e);
                        },
                        Ok((v, p2)) => {
                            let ghost old_elems = elems@;
                            elems.push(v);
                            cur = p2;
                            i = i + 1;
                            proof {
                                crate::resp::lemma_models_push(old_elems, v);
                                if let Ok((es, e)) = spec_parse_elems(input@, cur as int, n - i) {
                                    assert(models(old_elems) + (seq![model(v)] + es) =~= models(
                                        elems@,
                                    ) + es);
                                }
                            }
                        },
                    }
                }
                proof {
                    assert(models(elems@) + Seq::<RespModel>::empty() =~= models(elems@));
                }
                Ok((RespType::Array(Some(elems)), cur))
            },
        }
    } else {
        Err(DecodeError::BadElement)
    }
}

/// Decodes the protocol text of one frame starting at offset zero of `input`,
/// exactly as [`spec_decode`] describes: the typed value of a well-formed
/// array or bulk-string frame, the whole buffer tolerated as a simple string
/// when no such frame is attempted, and the precise [`DecodeError`] otherwise.
pub fn decode(input: &[u8]) -> (r: Result<RespType, DecodeError>)
    ensures
        match r {
            Ok(v) => spec_decode(input@) == Ok::<_, DecodeError>(model(v)),
            Err(e) => spec_decode(input@) == Err::<RespModel, _>(e),
        },
{
    if input.len() == 0 {
        return Err(DecodeError::Truncated);
    }
    let tag = input[0];
    if tag == BYTE_STAR || tag == BYTE_DOLLAR {
        match parse_value(input, 0) {
            Ok((v, _p)) => Ok(v),
            Err(e) => Err(e),
        }
    } else {
        Ok(RespType::SimpleString(slice_to_vec(input)))
    }
}

} // verus!
