//! Protocol values: the typed representation of one decoded frame, its
//! mathematical model, and the decode error taxonomy.

use vstd::prelude::*;

verus! {

broadcast use vstd::std_specs::vec::group_vec_axioms;

/// Carriage return, the first byte of the line terminator.
pub const BYTE_CR: u8 = 13;

/// Line feed, the second byte of the line terminator.
pub const BYTE_LF: u8 = 10;

/// `*`, the marker byte of an array header.
pub const BYTE_STAR: u8 = 42;

/// `$`, the marker byte of a bulk-string header.
pub const BYTE_DOLLAR: u8 = 36;

/// `+`, the marker byte of a simple string.
pub const BYTE_PLUS: u8 = 43;

/// `-`, the sign byte of the null markers `*-1` and `$-1`.
pub const BYTE_MINUS: u8 = 45;

/// One decoded protocol element.
///
/// A decoded client request is expected to be `Array(Some(elements))` with
/// every element a `BulkString(Some(_))`; any other shape is treated by the
/// dispatcher as an implicit liveness probe. `BulkString(None)` and
/// `Array(None)` are the protocol's null markers, distinct from an empty
/// string or array.
#[derive(Debug, PartialEq, Eq)]
pub enum RespType {
    SimpleString(Vec<u8>),
    BulkString(Option<Vec<u8>>),
    Array(Option<Vec<RespType>>),
}

/// The mathematical model of a [`RespType`]: the same tree over `Seq<u8>`.
pub enum RespModel {
    Simple(Seq<u8>),
    Bulk(Option<Seq<u8>>),
    Arr(Option<Seq<RespModel>>),
}

/// The model of a sequence of protocol values, element by element.
pub open spec fn models(vs: Seq<RespType>) -> Seq<RespModel>
    decreases vs,
{
    if vs.len() == 0 {
        Seq::empty()
    } else {
        seq![model(vs[0])] + models(vs.drop_first())
    }
}

/// The model of one protocol value.
pub open spec fn model(v: RespType) -> RespModel
    decreases v,
{
    match v {
        RespType::SimpleString(s) => RespModel::Simple(s@),
        RespType::BulkString(None) => RespModel::Bulk(None),
        RespType::BulkString(Some(p)) => RespModel::Bulk(Some(p@)),
        RespType::Array(None) => RespModel::Arr(None),
        RespType::Array(Some(vs)) => RespModel::Arr(Some(models(vs@))),
    }
}

/// `models` is the element-wise image of `model`.
pub proof fn lemma_models_pointwise(vs: Seq<RespType>)
    ensures
        models(vs).len() == vs.len(),
        forall|i: int| 0 <= i < vs.len() ==> models(vs)[i] == model(vs[i]),
    decreases vs.len(),
{
    if vs.len() > 0 {
        lemma_models_pointwise(vs.drop_first());
    }
}

/// Appending one value to a sequence appends its model.
pub proof fn lemma_models_push(vs: Seq<RespType>, v: RespType)
    ensures
        models(vs.push(v)) == models(vs) + seq![model(v)],
    decreases vs.len(),
{
    if vs.len() == 0 {
        assert(vs.push(v)[0] == v);
        assert(vs.push(v).drop_first() =~= Seq::<RespType>::empty());
        assert(models(Seq::<RespType>::empty()) == Seq::<RespModel>::empty());
        assert(models(vs.push(v)) == seq![model(v)] + Seq::<RespModel>::empty());
        assert(seq![model(v)] + Seq::<RespModel>::empty() =~= models(vs) + seq![model(v)]);
    } else {
        lemma_models_push(vs.drop_first(), v);
        assert(vs.push(v)[0] == vs[0]);
        assert(vs.push(v).drop_first() =~= vs.drop_first().push(v));
        assert(models(vs.push(v)) == seq![model(vs[0])] + (models(vs.drop_first()) + seq![
            model(v),
        ]));
        assert(seq![model(vs[0])] + (models(vs.drop_first()) + seq![model(v)]) =~= (seq![
            model(vs[0]),
        ] + models(vs.drop_first())) + seq![model(v)]);
        assert(models(vs) == seq![model(vs[0])] + models(vs.drop_first()));
    }
}

/// Why a frame failed to decode. Every variant is a form of malformed input;
/// the connection glue turns each into one `-ERR` reply line.
#[derive(Debug, Clone, Copy, PartialEq, Eq, Structural)]
pub enum DecodeError {
    /// The buffer ended before the frame was complete: a header line, a
    /// declared payload, or a declared element was cut short.
    Truncated,
    /// A `\r\n` terminator was expected and something else was found.
    MissingCrlf,
    /// A count or length was not a decimal integer, or was negative without
    /// being the null marker `-1`.
    BadCount,
    /// An array element did not begin with a supported type marker.
    BadElement,
}

impl DecodeError {
    /// The plain-text reason, ready for the connection glue to wrap as an
    /// `-ERR` reply.
    pub fn message(&self) -> &'static str {
        match self {
            DecodeError::Truncated => "truncated input",
            DecodeError::MissingCrlf => "missing CRLF terminator",
            DecodeError::BadCount => "invalid count or length",
            DecodeError::BadElement => "unsupported element type",
        }
    }
}

} // verus!
