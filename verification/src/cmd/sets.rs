//! SADD and SISMEMBER: the membership-only set namespace. Members are plain
//! text, and SISMEMBER distinguishes "key absent" (null) from "member
//! absent" (zero).
use vstd::prelude::*;
use vstd::string::StringSliceAdditionalSpecFns;

use crate::backend::Backend;
use crate::cmd::{
    arr_view, bool_int_reply, extract_args, option_bool_reply, validate_command, validate_spec,
    CommandError,
};
use crate::resp::{BulkString, FrameModel, RespArray, RespFrame};

verus! {

#[derive(Debug)]
pub struct SAdd {
    pub key: Vec<u8>,
    pub member: Vec<u8>,
}

#[derive(Debug, PartialEq, Eq)]
pub struct SIsmember {
    pub key: Vec<u8>,
    pub member: Vec<u8>,
}

/// Exactly what parsing `SADD` yields, for every request.
pub open spec fn parse_sadd_post(value: RespArray, r: Result<SAdd, CommandError>) -> bool {
    match validate_spec(arr_view(value), "sadd".spec_bytes(), 2, false) {
        Err(e) => r == Err::<SAdd, CommandError>(e),
        Ok(_) => match arr_view(value) {
            Some(es) => match (es[1], es[2]) {
                (
                    RespFrame::BulkString(BulkString(Some(k))),
                    RespFrame::BulkString(BulkString(Some(m))),
                ) => r matches Ok(c) && c.key@ == k@ && c.member@ == m@,
                _ => r == Err::<SAdd, CommandError>(CommandError::InvalidArgument),
            },
            None => false,
        },
    }
}

/// Exactly what parsing `SISMEMBER` yields, for every request.
pub open spec fn parse_sismember_post(value: RespArray, r: Result<SIsmember, CommandError>) -> bool {
    match validate_spec(arr_view(value), "sismember".spec_bytes(), 2, false) {
        Err(e) => r == Err::<SIsmember, CommandError>(e),
        Ok(_) => match arr_view(value) {
            Some(es) => match (es[1], es[2]) {
                (
                    RespFrame::BulkString(BulkString(Some(k))),
                    RespFrame::BulkString(BulkString(Some(m))),
                ) => r matches Ok(c) && c.key@ == k@ && c.member@ == m@,
                _ => r == Err::<SIsmember, CommandError>(CommandError::InvalidArgument),
            },
            None => false,
        },
    }
}

impl SAdd {
    /// Parses `SADD key member`: two arguments, both present bulk strings.
    pub fn try_from(value: RespArray) -> (r: Result<SAdd, CommandError>)
        ensures
            parse_sadd_post(value, r),
    {
        match validate_command(&value, "sadd".as_bytes(), 2) {
            Err(e) => {
                return Err(e);
            },
            Ok(_) => {},
        }
        let mut args = match extract_args(value, 1) {
            Ok(a) => a,
            Err(e) => {
                return Err(e);
            },
        };
        let first = args.remove(0);
        let second = args.remove(0);
        match (first, second) {
            (
                RespFrame::BulkString(BulkString(Some(k))),
                RespFrame::BulkString(BulkString(Some(m))),
            ) => Ok(SAdd { key: k, member: m }),
            _ => Err(CommandError::InvalidArgument),
        }
    }

    /// One when the member was newly inserted, zero when it was already
    /// present; which of the two depends on the shared state.
    pub fn execute(self, backend: &Backend) -> (r: RespFrame)
        ensures
            r@ == FrameModel::Integer(1) || r@ == FrameModel::Integer(0),
    {
        let newly = backend.sadd(self.key, self.member);
        bool_int_reply(newly)
    }
}

impl SIsmember {
    /// Parses `SISMEMBER key member`: two arguments, both present bulk strings.
    pub fn try_from(value: RespArray) -> (r: Result<SIsmember, CommandError>)
        ensures
            parse_sismember_post(value, r),
    {
        match validate_command(&value, "sismember".as_bytes(), 2) {
            Err(e) => {
                return Err(e);
            },
            Ok(_) => {},
        }
        let mut args = match extract_args(value, 1) {
            Ok(a) => a,
            Err(e) => {
                return Err(e);
            },
        };
        let first = args.remove(0);
        let second = args.remove(0);
        match (first, second) {
            (
                RespFrame::BulkString(BulkString(Some(k))),
                RespFrame::BulkString(BulkString(Some(m))),
            ) => Ok(SIsmember { key: k, member: m }),
            _ => Err(CommandError::InvalidArgument),
        }
    }

    /// Null when the key itself is absent, one when the member is in the
    /// set, zero when it is not; which depends on the shared state.
    pub fn execute(self, backend: &Backend) -> (r: RespFrame)
        ensures
            r@ == FrameModel::Null || r@ == FrameModel::Integer(1) || r@ == FrameModel::Integer(0),
    {
        let held = backend.sismember(self.key.as_slice(), self.member.as_slice());
        option_bool_reply(held)
    }
}

} // verus!
