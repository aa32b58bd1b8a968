//! The shared in-memory keyspace: three concurrently accessible namespaces
//! (scalar frames, hashes of frames, sets of members), held in sharded
//! concurrent maps and shared between connections through one
//! reference-counted handle.
//!
//! Every operation here mutates or reads state that other tasks change
//! concurrently through `&self`, so no contract can relate one call's result
//! to another's; the contracts state only what holds of every outcome, and
//! the verified reply functions in the command layer take these results as
//! arguments and pin the replies down exactly.
use vstd::prelude::*;

use std::sync::Arc;

use dashmap::{DashMap, DashSet};

use crate::resp::RespFrame;

verus! {

/// The three keyspaces. Hidden from verification: a sharded concurrent map
/// changes under `&self`, which has no functional model.
#[verifier::external_body]
pub struct BackendInner {
    map: DashMap<Vec<u8>, RespFrame>,
    hmap: DashMap<Vec<u8>, DashMap<Vec<u8>, RespFrame>>,
    set: DashMap<Vec<u8>, DashSet<Vec<u8>>>,
}

/// The process-wide shared backend handle; cloning it shares the same state.
#[derive(Clone)]
pub struct Backend {
    inner: Arc<BackendInner>,
}

impl Backend {
    /// Relies on dashmap's `DashMap::new`: builds the three empty keyspaces.
    #[verifier::external_body]
    pub fn new() -> Backend {
        Backend {
            inner: Arc::new(
                BackendInner { map: DashMap::new(), hmap: DashMap::new(), set: DashMap::new() },
            ),
        }
    }

    /// Relies on dashmap's `DashMap::get`: the frame currently stored under
    /// `key` in the string namespace, if any.
    #[verifier::external_body]
    pub fn get(&self, key: &[u8]) -> Option<RespFrame> {
        self.inner.map.get(key).map(|v| v.value().clone())
    }

    /// Relies on dashmap's `DashMap::insert`: stores `value` under `key` in
    /// the string namespace, unconditionally overwriting.
    #[verifier::external_body]
    pub fn set(&self, key: Vec<u8>, value: RespFrame) {
        self.inner.map.insert(key, value);
    }

    /// Relies on dashmap's `DashMap::get`: the frame currently stored under
    /// `field` of the hash at `key`, if both exist.
    #[verifier::external_body]
    pub fn hget(&self, key: &[u8], field: &[u8]) -> Option<RespFrame> {
        self.inner.hmap.get(key).and_then(|m| m.get(field).map(|v| v.value().clone()))
    }

    /// Relies on dashmap's `Entry::or_default` and `DashMap::insert`: stores
    /// `value` under `field` of the hash at `key`, creating the hash on first
    /// write, and returns the value the field held before, if any.
    #[verifier::external_body]
    pub fn hset(&self, key: Vec<u8>, field: Vec<u8>, value: RespFrame) -> Option<RespFrame> {
        let hm = self.inner.hmap.entry(key).or_default();
        hm.insert(field, value)
    }

    /// Relies on dashmap's `DashMap::get` and `DashMap::iter`: a snapshot of
    /// the hash at `key`, if it exists. A map walk yields each field at most
    /// once, so the snapshot's field names are pairwise distinct; their order
    /// is whatever the walk produced.
    #[verifier::external_body]
    pub fn hgetall(&self, key: &[u8]) -> (r: Option<Vec<(Vec<u8>, RespFrame)>>)
        ensures
            r matches Some(pairs) ==> forall|i: int, j: int|
                0 <= i < j < pairs@.len() ==> (#[trigger] pairs@[i]).0@ != (
                #[trigger] pairs@[j]).0@,
    {
        self.inner.hmap.get(key).map(
            |m| m.iter().map(|e| (e.key().clone(), e.value().clone())).collect(),
        )
    }

    /// Relies on dashmap's `Entry::or_default` and `DashSet::insert`: adds
    /// `member` to the set at `key`, creating the set on first write, and
    /// returns whether the member was newly inserted.
    #[verifier::external_body]
    pub fn sadd(&self, key: Vec<u8>, member: Vec<u8>) -> bool {
        let set_ref = self.inner.set.entry(key).or_default();
        set_ref.insert(member)
    }

    /// Relies on dashmap's `DashMap::get` and `DashSet::contains`: whether
    /// `member` is in the set at `key`, or nothing when no such set exists.
    #[verifier::external_body]
    pub fn sismember(&self, key: &[u8], member: &[u8]) -> Option<bool> {
        self.inner.set.get(key).map(|s| s.contains(member))
    }
}

} // verus!
