//! ECHO: answers the given text back as a simple string.
use vstd::prelude::*;
use vstd::string::StringSliceAdditionalSpecFns;

use crate::backend::Backend;
use crate::cmd::{arr_view, extract_args, validate_command, validate_spec, CommandError};
use crate::resp::{BulkString, FrameModel, RespArray, RespFrame, SimpleString};

verus! {

#[derive(Debug)]
pub struct Echo {
    pub message: Vec<u8>,
}

/// Exactly what parsing `ECHO` yields, for every request.
pub open spec fn parse_echo_post(value: RespArray, r: Result<Echo, CommandError>) -> bool {
    match validate_spec(arr_view(value), "echo".spec_bytes(), 1, false) {
        Err(e) => r == Err::<Echo, CommandError>(e),
        Ok(_) => match arr_view(value) {
            Some(es) => match es[1] {
                RespFrame::BulkString(BulkString(Some(d))) => r matches Ok(c) && c.message@ == d@,
                _ => r == Err::<Echo, CommandError>(CommandError::InvalidArgument),
            },
            None => false,
        },
    }
}

impl Echo {
    /// Parses `ECHO text`: exactly one argument, a present bulk string.
    pub fn try_from(value: RespArray) -> (r: Result<Echo, CommandError>)
        ensures
            parse_echo_post(value, r),
    {
        match validate_command(&value, "echo".as_bytes(), 1) {
            Err(e) => {
                return Err(e);
            },
            Ok(_) => {},
        }
        let mut args = match extract_args(value, 1) {
            Ok(a) => a,
            Err(e) => {
                return Err(e);
            },
        };
        let first = args.remove(0);
        match first {
            RespFrame::BulkString(BulkString(Some(d))) => Ok(Echo { message: d }),
            _ => Err(CommandError::InvalidArgument),
        }
    }

    /// The reply is the message itself, as a simple string.
    pub fn execute(self, _backend: &Backend) -> (r: RespFrame)
        ensures
            r@ == FrameModel::SimpleString(self.message@),
    {
        RespFrame::SimpleString(SimpleString(self.message))
    }
}

} // verus!
