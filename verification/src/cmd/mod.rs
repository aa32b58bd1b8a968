//! The command model: a closed set of typed commands, each parsed out of an
//! array frame naming it (case-insensitive) and carrying already-validated
//! arguments, and each executed against the shared backend to produce a
//! reply frame. Parse errors are request-scoped: the connection stays open.
use vstd::prelude::*;
use vstd::string::{StrSliceExecFns, StringSliceAdditionalSpecFns};

use crate::backend::Backend;
use crate::resp::{BulkString, FrameModel, RespArray, RespFrame, RespNull, SimpleError, SimpleString};

pub mod echo;
pub mod hashes;
pub mod sets;
pub mod strings;
pub mod unrecognized;

pub use echo::{parse_echo_post, Echo};
pub use hashes::{
    hgetall_reply, hmget_reply, parse_hget_post, parse_hgetall_post, parse_hmget_post,
    parse_hset_post, HGet, HGetAll, HMGet, HSet,
};
pub use sets::{parse_sadd_post, parse_sismember_post, SAdd, SIsmember};
pub use strings::{parse_get_post, parse_set_post, Get, SetCmd};
pub use unrecognized::Unrecognized;

verus! {

/// Why a request was refused. `InvalidCommand` is a wrong shape or name;
/// `InvalidArgument` a wrong arity or argument type. Both leave the
/// connection open for the next request.
#[derive(Debug, Clone, Copy, PartialEq, Eq, Structural)]
pub enum CommandError {
    InvalidCommand,
    InvalidArgument,
}

/// ASCII lower-casing of one byte.
pub open spec fn lower_byte(b: u8) -> u8 {
    if 65 <= b <= 90 {
        (b + 32) as u8
    } else {
        b
    }
}

/// ASCII lower-casing of a byte string.
pub open spec fn lower_bytes(s: Seq<u8>) -> Seq<u8> {
    s.map_values(|b: u8| lower_byte(b))
}

/// The elements of an array frame, absent for the null array.
pub open spec fn arr_view(a: RespArray) -> Option<Seq<RespFrame>> {
    match a.0 {
        Some(v) => Some(v@),
        None => None,
    }
}

/// The command name: the first element's bytes, where it is a present bulk string.
pub open spec fn first_bulk(a: Option<Seq<RespFrame>>) -> Option<Seq<u8>> {
    match a {
        Some(es) => if es.len() >= 1 {
            match es[0] {
                RespFrame::BulkString(BulkString(Some(d))) => Some(d@),
                _ => None,
            }
        } else {
            None
        },
        None => None,
    }
}

/// The reply to an acknowledged command.
pub open spec fn ok_frame() -> FrameModel {
    FrameModel::SimpleString("OK".spec_bytes())
}

/// Exactly when validation accepts: the request is a present array, its
/// length is one name token plus `n_args` (unless unbounded), and its first
/// element is a bulk string whose lower-cased bytes are the expected name.
/// A wrong arity is an argument error; a wrong shape or name a command error.
pub open spec fn validate_spec(
    a: Option<Seq<RespFrame>>,
    name: Seq<u8>,
    n_args: int,
    unbounded: bool,
) -> Result<(), CommandError> {
    match a {
        None => Err(CommandError::InvalidCommand),
        Some(es) => if !unbounded && es.len() != 1 + n_args {
            Err(CommandError::InvalidArgument)
        } else if !(first_bulk(a) matches Some(nm) && lower_bytes(nm) == name) {
            Err(CommandError::InvalidCommand)
        } else {
            Ok(())
        },
    }
}

/// Compares the ASCII lower-casing of `cmd` against `name`.
pub fn eq_lower(cmd: &[u8], name: &[u8]) -> (r: bool)
    ensures
        r == (lower_bytes(cmd@) == name@),
{
    if cmd.len() != name.len() {
        assert(lower_bytes(cmd@).len() != name@.len());
        return false;
    }
    let mut i: usize = 0;
    while i < cmd.len()
        invariant
            0 <= i <= cmd@.len(),
            cmd@.len() == name@.len(),
            forall|k: int| 0 <= k < i ==> lower_byte(cmd@[k]) == name@[k],
        decreases cmd@.len() - i,
    {
        let b = cmd[i];
        let low = if 65 <= b && b <= 90 {
            b + 32
        } else {
            b
        };
        if low != name[i] {
            assert(lower_bytes(cmd@)[i as int] != name@[i as int]);
            return false;
        }
        i = i + 1;
    }
    proof {
        assert(lower_bytes(cmd@) =~= name@);
    }
    true
}

/// Validates a request's arity and name token, with `usize::MAX` as the
/// "unbounded" sentinel that disables the arity check for variadic commands.
pub fn validate_command(value: &RespArray, name: &[u8], n_args: usize) -> (r: Result<
    (),
    CommandError,
>)
    ensures
        r == validate_spec(arr_view(*value), name@, n_args as int, n_args == usize::MAX),
{
    match &value.0 {
        None => Err(CommandError::InvalidCommand),
        Some(es) => {
            if n_args != usize::MAX && (es.len() < 1 || es.len() - 1 != n_args) {
                return Err(CommandError::InvalidArgument);
            }
            if es.len() == 0 {
                return Err(CommandError::InvalidCommand);
            }
            match &es[0] {
                RespFrame::BulkString(BulkString(Some(d))) => {
                    if eq_lower(d.as_slice(), name) {
                        Ok(())
                    } else {
                        Err(CommandError::InvalidCommand)
                    }
                },
                _ => Err(CommandError::InvalidCommand),
            }
        },
    }
}

/// Hands back the arguments after the first `start` elements, in order;
/// empty when `start` is at or beyond the array's length. Only the null
/// array, which has no elements to hand back, is refused.
pub fn extract_args(value: RespArray, start: usize) -> (r: Result<Vec<RespFrame>, CommandError>)
    ensures
        r matches Ok(args) ==> arr_view(value) matches Some(es) && args@ == es.skip(
            if start <= es.len() {
                start as int
            } else {
                es.len() as int
            },
        ),
        r is Err <==> arr_view(value) is None,
        r is Err ==> r == Err::<Vec<RespFrame>, CommandError>(CommandError::InvalidCommand),
{
    match value.0 {
        None => Err(CommandError::InvalidCommand),
        Some(mut es) => {
            let stop = if start > es.len() {
                es.len()
            } else {
                start
            };
            let ghost orig = es@;
            let mut k: usize = 0;
            while k < stop
                invariant
                    0 <= k <= stop,
                    stop <= orig.len(),
                    es@ == orig.skip(k as int),
                decreases stop - k,
            {
                es.remove(0);
                proof {
                    assert(orig.skip(k as int).skip(1) =~= orig.skip(k + 1));
                }
                k = k + 1;
            }
            Ok(es)
        },
    }
}

/// A validated, typed request, ready for execution.
#[derive(Debug)]
pub enum Command {
    Get(Get),
    SetCmd(SetCmd),
    HGet(HGet),
    HSet(HSet),
    HGetAll(HGetAll),
    HMGet(HMGet),
    Echo(Echo),
    SAdd(SAdd),
    SIsmember(SIsmember),
    Unrecognized(Unrecognized),
}

/// Exactly what dispatching on the lower-cased name `n` yields: for each
/// known name, precisely what that command's parser yields — acceptance
/// where it is owed, with the parsed fields, or its exact error — and for
/// every other name the `Unrecognized` fallback, never an error.
pub open spec fn dispatched_post(v: RespArray, n: Seq<u8>, r: Result<Command, CommandError>) -> bool {
    if n == "get".spec_bytes() {
        match r {
            Ok(Command::Get(c)) => parse_get_post(v, Ok(c)),
            Err(e) => parse_get_post(v, Err(e)),
            _ => false,
        }
    } else if n == "set".spec_bytes() {
        match r {
            Ok(Command::SetCmd(c)) => parse_set_post(v, Ok(c)),
            Err(e) => parse_set_post(v, Err(e)),
            _ => false,
        }
    } else if n == "hget".spec_bytes() {
        match r {
            Ok(Command::HGet(c)) => parse_hget_post(v, Ok(c)),
            Err(e) => parse_hget_post(v, Err(e)),
            _ => false,
        }
    } else if n == "hset".spec_bytes() {
        match r {
            Ok(Command::HSet(c)) => parse_hset_post(v, Ok(c)),
            Err(e) => parse_hset_post(v, Err(e)),
            _ => false,
        }
    } else if n == "hgetall".spec_bytes() {
        match r {
            Ok(Command::HGetAll(c)) => parse_hgetall_post(v, Ok(c)),
            Err(e) => parse_hgetall_post(v, Err(e)),
            _ => false,
        }
    } else if n == "hmget".spec_bytes() {
        match r {
            Ok(Command::HMGet(c)) => parse_hmget_post(v, Ok(c)),
            Err(e) => parse_hmget_post(v, Err(e)),
            _ => false,
        }
    } else if n == "echo".spec_bytes() {
        match r {
            Ok(Command::Echo(c)) => parse_echo_post(v, Ok(c)),
            Err(e) => parse_echo_post(v, Err(e)),
            _ => false,
        }
    } else if n == "sadd".spec_bytes() {
        match r {
            Ok(Command::SAdd(c)) => parse_sadd_post(v, Ok(c)),
            Err(e) => parse_sadd_post(v, Err(e)),
            _ => false,
        }
    } else if n == "sismember".spec_bytes() {
        match r {
            Ok(Command::SIsmember(c)) => parse_sismember_post(v, Ok(c)),
            Err(e) => parse_sismember_post(v, Err(e)),
            _ => false,
        }
    } else {
        r == Ok::<Command, CommandError>(Command::Unrecognized(Unrecognized))
    }
}

impl Command {
    /// Parses a request frame: only an array whose first element is a bulk
    /// string naming the command is accepted; an unknown name is answered by
    /// the `Unrecognized` fallback rather than an error.
    pub fn try_from(v: RespFrame) -> (r: Result<Command, CommandError>)
        ensures
            !(v matches RespFrame::Array(_)) ==> r == Err::<Command, CommandError>(
                CommandError::InvalidCommand,
            ),
            v matches RespFrame::Array(a) ==> (first_bulk(arr_view(a)) is None ==> r == Err::<
                Command,
                CommandError,
            >(CommandError::InvalidCommand)),
            v matches RespFrame::Array(a) ==> (first_bulk(arr_view(a)) matches Some(nm)
                ==> dispatched_post(a, lower_bytes(nm), r)),
    {
        match v {
            RespFrame::Array(a) => Command::try_from_array(a),
            _ => Err(CommandError::InvalidCommand),
        }
    }

    /// Parses a request array, dispatching on the lower-cased command name:
    /// each known name yields exactly what that command's parser yields, any
    /// other name the `Unrecognized` fallback, and a missing name token the
    /// command error.
    pub fn try_from_array(v: RespArray) -> (r: Result<Command, CommandError>)
        ensures
            first_bulk(arr_view(v)) is None ==> r == Err::<Command, CommandError>(
                CommandError::InvalidCommand,
            ),
            first_bulk(arr_view(v)) matches Some(nm) ==> dispatched_post(v, lower_bytes(nm), r),
    {
        let sel: u8 = {
            match &v.0 {
                None => {
                    return Err(CommandError::InvalidCommand);
                },
                Some(es) => {
                    if es.len() == 0 {
                        return Err(CommandError::InvalidCommand);
                    }
                    match &es[0] {
                        RespFrame::BulkString(BulkString(Some(d))) => {
                            if eq_lower(d.as_slice(), "get".as_bytes()) {
                                0
                            } else if eq_lower(d.as_slice(), "set".as_bytes()) {
                                1
                            } else if eq_lower(d.as_slice(), "hget".as_bytes()) {
                                2
                            } else if eq_lower(d.as_slice(), "hset".as_bytes()) {
                                3
                            } else if eq_lower(d.as_slice(), "hgetall".as_bytes()) {
                                4
                            } else if eq_lower(d.as_slice(), "hmget".as_bytes()) {
                                5
                            } else if eq_lower(d.as_slice(), "echo".as_bytes()) {
                                6
                            } else if eq_lower(d.as_slice(), "sadd".as_bytes()) {
                                7
                            } else if eq_lower(d.as_slice(), "sismember".as_bytes()) {
                                8
                            } else {
                                9
                            }
                        },
                        _ => {
                            return Err(CommandError::InvalidCommand);
                        },
                    }
                },
            }
        };
        if sel == 0 {
            match Get::try_from(v) {
                Ok(c) => Ok(Command::Get(c)),
                Err(e) => Err(e),
            }
        } else if sel == 1 {
            match SetCmd::try_from(v) {
                Ok(c) => Ok(Command::SetCmd(c)),
                Err(e) => Err(e),
            }
        } else if sel == 2 {
            match HGet::try_from(v) {
                Ok(c) => Ok(Command::HGet(c)),
                Err(e) => Err(e),
            }
        } else if sel == 3 {
            match HSet::try_from(v) {
                Ok(c) => Ok(Command::HSet(c)),
                Err(e) => Err(e),
            }
        } else if sel == 4 {
            match HGetAll::try_from(v) {
                Ok(c) => Ok(Command::HGetAll(c)),
                Err(e) => Err(e),
            }
        } else if sel == 5 {
            match HMGet::try_from(v) {
                Ok(c) => Ok(Command::HMGet(c)),
                Err(e) => Err(e),
            }
        } else if sel == 6 {
            match Echo::try_from(v) {
                Ok(c) => Ok(Command::Echo(c)),
                Err(e) => Err(e),
            }
        } else if sel == 7 {
            match SAdd::try_from(v) {
                Ok(c) => Ok(Command::SAdd(c)),
                Err(e) => Err(e),
            }
        } else if sel == 8 {
            match SIsmember::try_from(v) {
                Ok(c) => Ok(Command::SIsmember(c)),
                Err(e) => Err(e),
            }
        } else {
            Ok(Command::Unrecognized(Unrecognized))
        }
    }

    /// Executes the command against the backend. Execution never fails: a
    /// missing key or member is answered inside the reply frame, never as an
    /// error.
    pub fn execute(self, backend: &Backend) -> (r: RespFrame)
        ensures
            self matches Command::Echo(e) ==> r@ == FrameModel::SimpleString(e.message@),
            self matches Command::SetCmd(_) ==> r@ == ok_frame(),
            self matches Command::Unrecognized(_) ==> r@ == ok_frame(),
            self matches Command::HSet(_) ==> r@ == FrameModel::Integer(0) || r@
                == FrameModel::Integer(1),
            self matches Command::SAdd(_) ==> r@ == FrameModel::Integer(0) || r@
                == FrameModel::Integer(1),
            self matches Command::SIsmember(_) ==> r@ == FrameModel::Null || r@
                == FrameModel::Integer(0) || r@ == FrameModel::Integer(1),
            self matches Command::HMGet(g) ==> r@ matches FrameModel::Array(Some(items))
                && items.len() == g.gets@.len(),
            self matches Command::HGetAll(_) ==> r@ is Array,
    {
        match self {
            Command::Get(c) => c.execute(backend),
            Command::SetCmd(c) => c.execute(backend),
            Command::HGet(c) => c.execute(backend),
            Command::HSet(c) => c.execute(backend),
            Command::HGetAll(c) => c.execute(backend),
            Command::HMGet(c) => c.execute(backend),
            Command::Echo(c) => c.execute(backend),
            Command::SAdd(c) => c.execute(backend),
            Command::SIsmember(c) => c.execute(backend),
            Command::Unrecognized(c) => c.execute(backend),
        }
    }
}

/// The stored frame where one exists, the dedicated null where none does.
pub fn frame_or_null(v: Option<RespFrame>) -> (r: RespFrame)
    ensures
        r@ == match v {
            Some(f) => f@,
            None => FrameModel::Null,
        },
{
    match v {
        Some(f) => f,
        None => RespFrame::Null(RespNull),
    }
}

/// One as "newly created", zero as "already there": the integer reply
/// conventions of the write commands.
pub fn bool_int_reply(newly: bool) -> (r: RespFrame)
    ensures
        r@ == FrameModel::Integer(
            if newly {
                1
            } else {
                0
            },
        ),
{
    if newly {
        RespFrame::Integer(1)
    } else {
        RespFrame::Integer(0)
    }
}

/// Membership reply: null when the key itself is absent, else one or zero.
pub fn option_bool_reply(v: Option<bool>) -> (r: RespFrame)
    ensures
        r@ == match v {
            None => FrameModel::Null,
            Some(true) => FrameModel::Integer(1),
            Some(false) => FrameModel::Integer(0),
        },
{
    match v {
        None => RespFrame::Null(RespNull),
        Some(true) => RespFrame::Integer(1),
        Some(false) => RespFrame::Integer(0),
    }
}

/// The fixed "OK" acknowledgement frame.
pub fn resp_ok() -> (r: RespFrame)
    ensures
        r@ == ok_frame(),
{
    RespFrame::SimpleString(SimpleString("OK".as_bytes_vec()))
}

/// The in-band error frame that answers a refused request; the connection
/// stays open for the next request.
pub fn error_reply(e: CommandError) -> (r: RespFrame)
    ensures
        r@ == FrameModel::SimpleError(
            match e {
                CommandError::InvalidCommand => "ERR invalid command".spec_bytes(),
                CommandError::InvalidArgument => "ERR invalid argument".spec_bytes(),
            },
        ),
{
    match e {
        CommandError::InvalidCommand => RespFrame::SimpleError(
            SimpleError("ERR invalid command".as_bytes_vec()),
        ),
        CommandError::InvalidArgument => RespFrame::SimpleError(
            SimpleError("ERR invalid argument".as_bytes_vec()),
        ),
    }
}

} // verus!
