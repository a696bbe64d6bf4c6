//! The command dispatcher: interprets one decoded request as a command with
//! an argument list, validates arity, calls the store, and produces an
//! encoded reply or a plain-text error message.
//!
//! A request that is not an array whose first element is a concrete bulk
//! string is treated as an implicit liveness probe and answered `+PONG\r\n`.
//! Elements of the argument list that are not concrete bulk strings are
//! silently dropped. The command word is case-folded to uppercase over the
//! ASCII range before matching; argument bytes are never altered.

use vstd::prelude::*;
use vstd::slice::slice_to_vec;

use crate::bytes::{ascii_seq, bytes_eq, str_bytes};
use crate::encode::{crlf, push_bytes};
use crate::resp::{model, models, RespModel, RespType, BYTE_PLUS};
use crate::store::Store;

verus! {

/// The closed command set. `Unknown` keeps the folded command word around in
/// the reply, not in this tag.
#[derive(Debug, Clone, Copy, PartialEq, Eq, Structural)]
pub enum Command {
    Echo,
    SetKey,
    GetKey,
    Ping,
    Unknown,
}

/// ASCII uppercase of one byte.
pub open spec fn upper_byte(b: u8) -> u8 {
    if 97 <= b <= 122 {
        (b - 32) as u8
    } else {
        b
    }
}

/// ASCII uppercase of a byte string.
pub open spec fn upper_seq(s: Seq<u8>) -> Seq<u8> {
    Seq::new(s.len(), |i: int| upper_byte(s[i]))
}

/// The command words, as wire bytes.
pub open spec fn cmd_echo() -> Seq<u8> {
    ascii_seq("ECHO"@)
}

pub open spec fn cmd_set() -> Seq<u8> {
    ascii_seq("SET"@)
}

pub open spec fn cmd_get() -> Seq<u8> {
    ascii_seq("GET"@)
}

pub open spec fn cmd_ping() -> Seq<u8> {
    ascii_seq("PING"@)
}

/// Which command a folded command word names.
pub open spec fn spec_classify(name: Seq<u8>) -> Command {
    if name == cmd_echo() {
        Command::Echo
    } else if name == cmd_set() {
        Command::SetKey
    } else if name == cmd_get() {
        Command::GetKey
    } else if name == cmd_ping() {
        Command::Ping
    } else {
        Command::Unknown
    }
}

/// A simple-string reply: `+`, the payload, `\r\n`.
pub open spec fn simple_reply(data: Seq<u8>) -> Seq<u8> {
    seq![BYTE_PLUS] + data + crlf()
}

/// The acknowledgement reply to a successful SET.
pub open spec fn ok_reply() -> Seq<u8> {
    ascii_seq("+OK\r\n"@)
}

/// The liveness reply.
pub open spec fn pong_reply() -> Seq<u8> {
    ascii_seq("+PONG\r\n"@)
}

/// The null-bulk-string reply to a GET miss.
pub open spec fn null_bulk_reply() -> Seq<u8> {
    ascii_seq("$-1\r\n"@)
}

/// The arity error messages, verbatim.
pub open spec fn echo_arity_msg() -> Seq<u8> {
    ascii_seq("ECHO command requires exactly 1 argument"@)
}

pub open spec fn set_arity_msg() -> Seq<u8> {
    ascii_seq("SET command requires exactly 2 arguments"@)
}

pub open spec fn get_arity_msg() -> Seq<u8> {
    ascii_seq("GET command requires exactly 1 argument"@)
}

/// The reply to a command word outside the fixed set; `name` is the folded
/// word.
pub open spec fn unknown_msg(name: Seq<u8>) -> Seq<u8> {
    ascii_seq("Unknown command: "@) + name
}

/// A request that names a command: an array whose first element is a
/// concrete bulk string. Anything else is answered with the liveness reply.
pub open spec fn is_command_shape(req: RespModel) -> bool {
    match req {
        RespModel::Arr(Some(elems)) => elems.len() > 0 && (elems[0] matches RespModel::Bulk(
            Some(_),
        )),
        _ => false,
    }
}

/// The argument list of a request tail: the payloads of its concrete bulk
/// strings, in order, every other element silently dropped.
pub open spec fn spec_args(elems: Seq<RespModel>) -> Seq<Seq<u8>>
    decreases elems.len(),
{
    if elems.len() == 0 {
        Seq::empty()
    } else {
        let front = spec_args(elems.drop_last());
        match elems.last() {
            RespModel::Bulk(Some(p)) => front.push(p),
            _ => front,
        }
    }
}

/// What one classified command does to the store, and what it answers.
pub open spec fn spec_dispatch(
    m: Map<Seq<u8>, Seq<u8>>,
    name: Seq<u8>,
    args: Seq<Seq<u8>>,
) -> (Map<Seq<u8>, Seq<u8>>, Result<Seq<u8>, Seq<u8>>) {
    match spec_classify(name) {
        Command::Echo => if args.len() == 1 {
            (m, Ok(simple_reply(args[0])))
        } else {
            (m, Err(echo_arity_msg()))
        },
        Command::SetKey => if args.len() == 2 {
            (m.insert(args[0], args[1]), Ok(ok_reply()))
        } else {
            (m, Err(set_arity_msg()))
        },
        Command::GetKey => if args.len() != 1 {
            (m, Err(get_arity_msg()))
        } else if m.contains_key(args[0]) {
            (m, Ok(simple_reply(m[args[0]])))
        } else {
            (m, Ok(null_bulk_reply()))
        },
        Command::Ping => (m, Ok(pong_reply())),
        Command::Unknown => (m, Err(unknown_msg(name))),
    }
}

/// The dispatcher's full contract: the new store contents and the reply (or
/// plain-text error) for one request against the given store contents.
pub open spec fn spec_execute(m: Map<Seq<u8>, Seq<u8>>, req: RespModel) -> (
    Map<Seq<u8>, Seq<u8>>,
    Result<Seq<u8>, Seq<u8>>,
) {
    match req {
        RespModel::Arr(Some(elems)) => if elems.len() == 0 {
            (m, Ok(pong_reply()))
        } else {
            match elems[0] {
                RespModel::Bulk(Some(name)) => spec_dispatch(
                    m,
                    upper_seq(name),
                    spec_args(elems.drop_first()),
                ),
                _ => (m, Ok(pong_reply())),
            }
        },
        _ => (m, Ok(pong_reply())),
    }
}

/// The views of a list of byte vectors.
pub open spec fn byte_views(s: Seq<Vec<u8>>) -> Seq<Seq<u8>> {
    Seq::new(s.len(), |i: int| s[i]@)
}

/// ASCII uppercase of a byte slice.
fn ascii_upper(s: &[u8]) -> (r: Vec<u8>)
    ensures
        r@ == upper_seq(s@),
{
    let n = s.len();
    let mut r: Vec<u8> = Vec::new();
    let mut i: usize = 0;
    while i < n
        invariant
            i <= n,
            n == s@.len(),
            r@.len() == i,
            forall|j: int| 0 <= j < i ==> r@[j] == upper_byte(s@[j]),
        decreases n - i,
    {
        let b = s[i];
        if 97 <= b && b <= 122 {
            r.push(b - 32);
        } else {
            r.push(b);
        }
        i = i + 1;
    }
    proof {
        assert(r@ =~= upper_seq(s@));
    }
    r
}

/// Classifies a folded command word.
fn classify(folded: &Vec<u8>) -> (c: Command)
    ensures
        c == spec_classify(folded@),
{
    proof {
        reveal_strlit("ECHO");
        reveal_strlit("SET");
        reveal_strlit("GET");
        reveal_strlit("PING");
        assert("ECHO".is_ascii() && "SET".is_ascii() && "GET".is_ascii() && "PING".is_ascii());
    }
    if bytes_eq(folded.as_slice(), str_bytes("ECHO").as_slice()) {
        Command::Echo
    } else if bytes_eq(folded.as_slice(), str_bytes("SET").as_slice()) {
        Command::SetKey
    } else if bytes_eq(folded.as_slice(), str_bytes("GET").as_slice()) {
        Command::GetKey
    } else if bytes_eq(folded.as_slice(), str_bytes("PING").as_slice()) {
        Command::Ping
    } else {
        Command::Unknown
    }
}

/// Collects the argument list: the payloads of the concrete bulk strings
/// after the command word, in order.
fn collect_args(elems: &Vec<RespType>) -> (args: Vec<Vec<u8>>)
    requires
        elems@.len() >= 1,
    ensures
        byte_views(args@) == spec_args(models(elems@).drop_first()),
{
    let n = elems.len();
    let mut args: Vec<Vec<u8>> = Vec::new();
    let mut i: usize = 1;
    proof {
        crate::resp::lemma_models_pointwise(elems@);
        assert(models(elems@).subrange(1, 1) =~= Seq::<RespModel>::empty());
        assert(byte_views(args@) =~= spec_args(models(elems@).subrange(1, 1)));
    }
    while i < n
        invariant
            1 <= i <= n,
            n == elems@.len(),
            models(elems@).len() == n,
            forall|j: int|
                0 <= j < n ==> models(elems@)[j] == model(#[trigger] elems@[j]),
            byte_views(args@) == spec_args(models(elems@).subrange(1, i as int)),
        decreases n - i,
    {
        let ghost prefix = models(elems@).subrange(1, i as int);
        match &elems[i] {
            RespType::BulkString(Some(p)) => {
                let ghost old_args = args@;
                args.push(slice_to_vec(p.as_slice()));
                proof {
                    assert(model(elems@[i as int]) == RespModel::Bulk(Some(p@)));
                    assert(models(elems@).subrange(1, i + 1).drop_last() =~= prefix);
                    assert(byte_views(args@) =~= byte_views(old_args).push(p@));
                }
            },
            _ => {
                proof {
                    assert(models(elems@).subrange(1, i + 1).drop_last() =~= prefix);
                    assert(!(model(elems@[i as int]) matches RespModel::Bulk(Some(_))));
                }
            },
        }
        i = i + 1;
    }
    proof {
        assert(models(elems@).subrange(1, n as int) =~= models(elems@).drop_first());
    }
    args
}

/// Executes one decoded request against the store: validates the shape and
/// the arity, performs the single store read or write, and returns the
/// ready-to-write reply, or the plain-text error message that the connection
/// glue wraps as an `-ERR` line. Exactly [`spec_execute`] on the models.
pub fn execute(store: &mut Store, req: RespType) -> (r: Result<Vec<u8>, Vec<u8>>)
    ensures
        final(store)@ == spec_execute(old(store)@, model(req)).0,
        (match r {
            Ok(v) => spec_execute(old(store)@, model(req)).1 == Ok::<Seq<u8>, Seq<u8>>(v@),
            Err(e) => spec_execute(old(store)@, model(req)).1 == Err::<Seq<u8>, Seq<u8>>(e@),
        }),
{
    proof {
        reveal_strlit("+PONG\r\n");
        reveal_strlit("+OK\r\n");
        reveal_strlit("$-1\r\n");
        reveal_strlit("ECHO command requires exactly 1 argument");
        reveal_strlit("SET command requires exactly 2 arguments");
        reveal_strlit("GET command requires exactly 1 argument");
        reveal_strlit("Unknown command: ");
        assert("+PONG\r\n".is_ascii());
        assert("+OK\r\n".is_ascii());
        assert("$-1\r\n".is_ascii());
        assert("ECHO command requires exactly 1 argument".is_ascii());
        assert("SET command requires exactly 2 arguments".is_ascii());
        assert("GET command requires exactly 1 argument".is_ascii());
        assert("Unknown command: ".is_ascii());
    }
    match req {
        RespType::Array(Some(elems)) => {
            if elems.len() == 0 {
                return Ok(str_bytes("+PONG\r\n"));
            }
            proof {
                crate::resp::lemma_models_pointwise(elems@);
            }
            match &elems[0] {
                RespType::BulkString(Some(name)) => {
                    let folded = ascii_upper(name.as_slice());
                    let cmd = classify(&folded);
                    let mut args = collect_args(&elems);
                    let ghost m = store@;
                    let ghost spec_as = spec_args(models(elems@).drop_first());
                    proof {
                        assert(models(elems@)[0] == RespModel::Bulk(Some(name@)));
                        assert(forall|j: int|
                            0 <= j < args@.len() ==> #[trigger] args@[j]@ == byte_views(args@)[j]);
                    }
                    match cmd {
                        Command::Echo => {
                            if args.len() != 1 {
                                Err(str_bytes("ECHO command requires exactly 1 argument"))
                            } else {
                                let mut out = Vec::new();
                                out.push(BYTE_PLUS);
                                push_bytes(&mut out, args[0].as_slice());
                                out.push(crate::resp::BYTE_CR);
                                out.push(crate::resp::BYTE_LF);
                                proof {
                                    assert(out@ =~= simple_reply(spec_as[0]));
                                }
                                Ok(out)
                            }
                        },
                        Command::SetKey => {
                            if args.len() != 2 {
                                Err(str_bytes("SET command requires exactly 2 arguments"))
                            } else {
                                let value = args.remove(1);
                                let key = args.remove(0);
                                proof {
                                    assert(key@ == spec_as[0] && value@ == spec_as[1]);
                                }
                                store.set(key, value);
                                Ok(str_bytes("+OK\r\n"))
                            }
                        },
                        Command::GetKey => {
                            if args.len() != 1 {
                                Err(str_bytes("GET command requires exactly 1 argument"))
                            } else {
                                match store.get(&args[0]) {
                                    Some(v) => {
                                        let mut out = Vec::new();
                                        out.push(BYTE_PLUS);
                                        push_bytes(&mut out, v.as_slice());
                                        out.push(crate::resp::BYTE_CR);
                                        out.push(crate::resp::BYTE_LF);
                                        proof {
                                            assert(out@ =~= simple_reply(m[spec_as[0]]));
                                        }
                                        Ok(out)
                                    },
                                    None => Ok(str_bytes("$-1\r\n")),
                                }
                            }
                        },
                        Command::Ping => Ok(str_bytes("+PONG\r\n")),
                        Command::Unknown => {
                            let mut msg = str_bytes("Unknown command: ");
                            push_bytes(&mut msg, folded.as_slice());
                            Err(msg)
                        },
                    }
                },
                _ => Ok(str_bytes("+PONG\r\n")),
            }
        },
        _ => Ok(str_bytes("+PONG\r\n")),
    }
}

} // verus!
