//! The lenient fallback: an unknown command name is acknowledged with the
//! fixed "OK" reply rather than refused, and the connection stays open.
use vstd::prelude::*;

use crate::backend::Backend;
use crate::cmd::{ok_frame, resp_ok};
use crate::resp::RespFrame;

verus! {

#[derive(Debug)]
pub struct Unrecognized;

impl Unrecognized {
    /// The reply is the fixed acknowledgement.
    pub fn execute(self, _backend: &Backend) -> (r: RespFrame)
        ensures
            r@ == ok_frame(),
    {
        resp_ok()
    }
}

} // verus!
