//! GET and SET: the flat string namespace. SET stores any frame value
//! unchanged, so whatever was stored round-trips through GET.
use vstd::prelude::*;
use vstd::string::StringSliceAdditionalSpecFns;

use crate::backend::Backend;
use crate::cmd::{
    arr_view, extract_args, frame_or_null, ok_frame, resp_ok, validate_command, validate_spec,
    CommandError,
};
use crate::resp::{BulkString, RespArray, RespFrame};

verus! {

#[derive(Debug)]
pub struct Get {
    pub key: Vec<u8>,
}

#[derive(Debug)]
pub struct SetCmd {
    pub key: Vec<u8>,
    pub value: RespFrame,
}

/// Exactly what parsing `GET` yields, for every request: validation errors
/// as they are, a non-bulk key as an argument error, else the key.
pub open spec fn parse_get_post(value: RespArray, r: Result<Get, CommandError>) -> bool {
    match validate_spec(arr_view(value), "get".spec_bytes(), 1, false) {
        Err(e) => r == Err::<Get, CommandError>(e),
        Ok(_) => match arr_view(value) {
            Some(es) => match es[1] {
                RespFrame::BulkString(BulkString(Some(d))) => r matches Ok(c) && c.key@ == d@,
                _ => r == Err::<Get, CommandError>(CommandError::InvalidArgument),
            },
            None => false,
        },
    }
}

/// Exactly what parsing `SET` yields, for every request.
pub open spec fn parse_set_post(value: RespArray, r: Result<SetCmd, CommandError>) -> bool {
    match validate_spec(arr_view(value), "set".spec_bytes(), 2, false) {
        Err(e) => r == Err::<SetCmd, CommandError>(e),
        Ok(_) => match arr_view(value) {
            Some(es) => match es[1] {
                RespFrame::BulkString(BulkString(Some(d))) => r matches Ok(c) && c.key@ == d@
                    && c.value@ == es[2]@,
                _ => r == Err::<SetCmd, CommandError>(CommandError::InvalidArgument),
            },
            None => false,
        },
    }
}

impl Get {
    /// Parses `GET key`: exactly one argument, a present bulk string.
    pub fn try_from(value: RespArray) -> (r: Result<Get, CommandError>)
        ensures
            parse_get_post(value, r),
    {
        match validate_command(&value, "get".as_bytes(), 1) {
            Err(e) => {
                return Err(e);
            },
            Ok(_) => {},
        }
        let mut args = match extract_args(value, 1) {
            Ok(a) => a,
            Err(e) => {
                return Err(e);
            },
        };
        let first = args.remove(0);
        match first {
            RespFrame::BulkString(BulkString(Some(d))) => Ok(Get { key: d }),
            _ => Err(CommandError::InvalidArgument),
        }
    }

    /// The reply is the stored frame, or the dedicated null when the key is
    /// absent; which of the two depends on the shared state at the moment of
    /// the read.
    pub fn execute(self, backend: &Backend) -> RespFrame {
        let stored = backend.get(self.key.as_slice());
        frame_or_null(stored)
    }
}

impl SetCmd {
    /// Parses `SET key value`: the key a present bulk string, the value kept
    /// as whatever frame it arrived as, so that any storable type
    /// round-trips through GET.
    pub fn try_from(value: RespArray) -> (r: Result<SetCmd, CommandError>)
        ensures
            parse_set_post(value, r),
    {
        match validate_command(&value, "set".as_bytes(), 2) {
            Err(e) => {
                return Err(e);
            },
            Ok(_) => {},
        }
        let mut args = match extract_args(value, 1) {
            Ok(a) => a,
            Err(e) => {
                return Err(e);
            },
        };
        let first = args.remove(0);
        let second = args.remove(0);
        match first {
            RespFrame::BulkString(BulkString(Some(d))) => Ok(SetCmd { key: d, value: second }),
            _ => Err(CommandError::InvalidArgument),
        }
    }

    /// Stores the value unconditionally and acknowledges with "OK".
    pub fn execute(self, backend: &Backend) -> (r: RespFrame)
        ensures
            r@ == ok_frame(),
    {
        backend.set(self.key, self.value);
        resp_ok()
    }
}

} // verus!
