//! The dispatcher's laws, stated over the spec-level model: what SET, GET,
//! ECHO and PING answer, exactly when each arity error appears, the
//! liveness fallback, and case-insensitivity of the command word.

use vstd::prelude::*;

use crate::command::{
    cmd_echo, cmd_get, cmd_ping, cmd_set, echo_arity_msg, get_arity_msg, is_command_shape,
    null_bulk_reply, ok_reply, pong_reply, set_arity_msg, simple_reply, spec_args, spec_classify,
    spec_execute, upper_byte, upper_seq, Command,
};
use crate::resp::RespModel;

verus! {

/// A concrete bulk string.
pub open spec fn bulk(s: Seq<u8>) -> RespModel {
    RespModel::Bulk(Some(s))
}

/// An array-of-bulk-strings request.
pub open spec fn request(parts: Seq<Seq<u8>>) -> RespModel {
    RespModel::Arr(Some(parts.map_values(|p: Seq<u8>| bulk(p))))
}

/// The four command words classify to their commands and fold to themselves.
proof fn lemma_words()
    ensures
        upper_seq(cmd_echo()) == cmd_echo(),
        upper_seq(cmd_set()) == cmd_set(),
        upper_seq(cmd_get()) == cmd_get(),
        upper_seq(cmd_ping()) == cmd_ping(),
        spec_classify(cmd_echo()) == Command::Echo,
        spec_classify(cmd_set()) == Command::SetKey,
        spec_classify(cmd_get()) == Command::GetKey,
        spec_classify(cmd_ping()) == Command::Ping,
{
    reveal_strlit("ECHO");
    reveal_strlit("SET");
    reveal_strlit("GET");
    reveal_strlit("PING");
    assert(upper_seq(cmd_echo()) =~= cmd_echo());
    assert(upper_seq(cmd_set()) =~= cmd_set());
    assert(upper_seq(cmd_get()) =~= cmd_get());
    assert(upper_seq(cmd_ping()) =~= cmd_ping());
    assert(cmd_set()[0] == 83);
    assert(cmd_get()[0] == 71);
    assert(cmd_ping()[0] == 80);
    assert(cmd_echo().len() == 4 && cmd_set().len() == 3 && cmd_get().len() == 3 && cmd_ping().len()
        == 4);
    assert(cmd_echo()[0] == 69);
}

/// The argument list of a two-element tail of concrete bulk strings.
proof fn lemma_args_two(k: Seq<u8>, v: Seq<u8>)
    ensures
        spec_args(seq![bulk(k), bulk(v)]) == seq![k, v],
{
    assert(spec_args(Seq::<RespModel>::empty()) =~= Seq::<Seq<u8>>::empty());
    assert(seq![bulk(k)].drop_last() =~= Seq::<RespModel>::empty());
    assert(spec_args(seq![bulk(k)]) =~= seq![k]);
    assert(seq![bulk(k), bulk(v)].drop_last() =~= seq![bulk(k)]);
    assert(spec_args(seq![bulk(k), bulk(v)]) =~= seq![k, v]);
}

/// The argument list of a one-element tail.
proof fn lemma_args_one(k: Seq<u8>)
    ensures
        spec_args(seq![bulk(k)]) == seq![k],
{
    assert(spec_args(Seq::<RespModel>::empty()) =~= Seq::<Seq<u8>>::empty());
    assert(seq![bulk(k)].drop_last() =~= Seq::<RespModel>::empty());
    assert(spec_args(seq![bulk(k)]) =~= seq![k]);
}

/// Storing a value and reading the same key back yields exactly that value:
/// `SET k v` answers `+OK\r\n` and puts `v` under `k`; `GET k` right after
/// answers `v` framed as a simple string and changes nothing.
pub proof fn lemma_set_then_get(m: Map<Seq<u8>, Seq<u8>>, k: Seq<u8>, v: Seq<u8>)
    ensures
        ({
            let after = spec_execute(m, request(seq![cmd_set(), k, v]));
            let got = spec_execute(after.0, request(seq![cmd_get(), k]));
            after.0 == m.insert(k, v) && after.1 == Ok::<Seq<u8>, Seq<u8>>(ok_reply()) && got.0
                == after.0 && got.1 == Ok::<Seq<u8>, Seq<u8>>(simple_reply(v))
        }),
{
    lemma_words();
    let selems = seq![cmd_set(), k, v].map_values(|p: Seq<u8>| bulk(p));
    assert(selems[0] == bulk(cmd_set()));
    assert(selems.drop_first() =~= seq![bulk(k), bulk(v)]);
    lemma_args_two(k, v);
    let m1 = m.insert(k, v);
    let gelems = seq![cmd_get(), k].map_values(|p: Seq<u8>| bulk(p));
    assert(gelems[0] == bulk(cmd_get()));
    assert(gelems.drop_first() =~= seq![bulk(k)]);
    lemma_args_one(k);
    assert(m1.contains_key(k) && m1[k] == v);
}

/// `GET` on a key never written answers the null-bulk-string reply and
/// changes nothing.
pub proof fn lemma_get_missing(m: Map<Seq<u8>, Seq<u8>>, k: Seq<u8>)
    requires
        !m.contains_key(k),
    ensures
        spec_execute(m, request(seq![cmd_get(), k])) == (
            m,
            Ok::<Seq<u8>, Seq<u8>>(null_bulk_reply()),
        ),
{
    lemma_words();
    let gelems = seq![cmd_get(), k].map_values(|p: Seq<u8>| bulk(p));
    assert(gelems[0] == bulk(cmd_get()));
    assert(gelems.drop_first() =~= seq![bulk(k)]);
    lemma_args_one(k);
}

/// `ECHO x` answers `x` framed as a simple string, byte for byte, and
/// changes nothing.
pub proof fn lemma_echo(m: Map<Seq<u8>, Seq<u8>>, x: Seq<u8>)
    ensures
        spec_execute(m, request(seq![cmd_echo(), x])) == (
            m,
            Ok::<Seq<u8>, Seq<u8>>(simple_reply(x)),
        ),
{
    lemma_words();
    let elems = seq![cmd_echo(), x].map_values(|p: Seq<u8>| bulk(p));
    assert(elems[0] == bulk(cmd_echo()));
    assert(elems.drop_first() =~= seq![bulk(x)]);
    lemma_args_one(x);
}

/// `PING`, in any letter case and with any tail of arguments, always answers
/// `+PONG\r\n` and changes nothing.
pub proof fn lemma_ping(m: Map<Seq<u8>, Seq<u8>>, name: Seq<u8>, tail: Seq<RespModel>)
    requires
        upper_seq(name) == cmd_ping(),
    ensures
        spec_execute(m, RespModel::Arr(Some(seq![bulk(name)] + tail))) == (
            m,
            Ok::<Seq<u8>, Seq<u8>>(pong_reply()),
        ),
{
    lemma_words();
    let elems = seq![bulk(name)] + tail;
    assert(elems[0] == bulk(name));
}

/// A request that does not name a command — not an array, a null array, an
/// empty array, or one whose first element is no concrete bulk string — is
/// answered with the liveness reply and changes nothing.
pub proof fn lemma_fallback_pong(m: Map<Seq<u8>, Seq<u8>>, req: RespModel)
    requires
        !is_command_shape(req),
    ensures
        spec_execute(m, req) == (m, Ok::<Seq<u8>, Seq<u8>>(pong_reply())),
{
}

/// `ECHO` with any number of arguments other than one answers exactly its
/// arity message, whatever the arguments hold, and changes nothing.
pub proof fn lemma_echo_arity(m: Map<Seq<u8>, Seq<u8>>, name: Seq<u8>, tail: Seq<RespModel>)
    requires
        upper_seq(name) == cmd_echo(),
        spec_args(tail).len() != 1,
    ensures
        spec_execute(m, RespModel::Arr(Some(seq![bulk(name)] + tail))) == (
            m,
            Err::<Seq<u8>, Seq<u8>>(echo_arity_msg()),
        ),
{
    lemma_words();
    let elems = seq![bulk(name)] + tail;
    assert(elems[0] == bulk(name));
    assert(elems.drop_first() =~= tail);
}

/// `SET` with any number of arguments other than two answers exactly its
/// arity message and changes nothing.
pub proof fn lemma_set_arity(m: Map<Seq<u8>, Seq<u8>>, name: Seq<u8>, tail: Seq<RespModel>)
    requires
        upper_seq(name) == cmd_set(),
        spec_args(tail).len() != 2,
    ensures
        spec_execute(m, RespModel::Arr(Some(seq![bulk(name)] + tail))) == (
            m,
            Err::<Seq<u8>, Seq<u8>>(set_arity_msg()),
        ),
{
    lemma_words();
    let elems = seq![bulk(name)] + tail;
    assert(elems[0] == bulk(name));
    assert(elems.drop_first() =~= tail);
}

/// `GET` with any number of arguments other than one answers exactly its
/// arity message and changes nothing.
pub proof fn lemma_get_arity(m: Map<Seq<u8>, Seq<u8>>, name: Seq<u8>, tail: Seq<RespModel>)
    requires
        upper_seq(name) == cmd_get(),
        spec_args(tail).len() != 1,
    ensures
        spec_execute(m, RespModel::Arr(Some(seq![bulk(name)] + tail))) == (
            m,
            Err::<Seq<u8>, Seq<u8>>(get_arity_msg()),
        ),
{
    lemma_words();
    let elems = seq![bulk(name)] + tail;
    assert(elems[0] == bulk(name));
    assert(elems.drop_first() =~= tail);
}

/// The command word is case-insensitive: a request dispatches exactly as the
/// same request with its command word upper-cased. The argument tail is
/// passed through untouched either way.
pub proof fn lemma_case_insensitive(m: Map<Seq<u8>, Seq<u8>>, name: Seq<u8>, tail: Seq<RespModel>)
    ensures
        spec_execute(m, RespModel::Arr(Some(seq![bulk(name)] + tail))) == spec_execute(
            m,
            RespModel::Arr(Some(seq![bulk(upper_seq(name))] + tail)),
        ),
{
    let a = seq![bulk(name)] + tail;
    let b = seq![bulk(upper_seq(name))] + tail;
    assert(a[0] == bulk(name));
    assert(b[0] == bulk(upper_seq(name)));
    assert forall|i: int| 0 <= i < name.len() implies upper_byte(upper_seq(name)[i]) == upper_byte(
        name[i],
    ) by {
        assert(upper_seq(name)[i] == upper_byte(name[i]));
    }
    assert(upper_seq(upper_seq(name)) =~= upper_seq(name));
    assert(a.drop_first() =~= b.drop_first());
}

} // verus!
