//! A verified core of a Redis-compatible server: the wire-format frame codec,
//! the typed command model with validation and execution, and the shared
//! in-memory backend store.
mod backend;
mod cmd;
mod resp;

pub use backend::Backend;
pub use cmd::{
    echo, hashes, sets, strings, unrecognized, validate_command, Command, CommandError, Echo, Get,
    HGet, HGetAll, HMGet, HSet, SAdd, SIsmember, SetCmd, Unrecognized,
};
pub use cmd::{error_reply, extract_args, frame_or_null, hgetall_reply, hmget_reply, resp_ok};
pub use resp::digits;
pub use resp::{
    bytes_eq, clone_bytes, frame_clone, frame_eq, frame_view, frame_views, frame_wf, frames_wf,
    BulkString, FrameModel, RespArray, RespError, RespFrame, RespNull, SimpleError, SimpleString,
};
pub use resp::{decode, encode, laws};
