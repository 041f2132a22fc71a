//! The interface every storage engine offers: `set`, `get` and `remove`
//! against a map from keys to values.

use vstd::prelude::*;
use crate::KvError;

verus! {

/// A pluggable storage engine.
///
/// `model` is the engine's observable contents. An engine whose backing
/// store this library can reason about answers `true` to `models`, and the
/// contracts below then pin each operation's effect on `model`; an engine
/// whose store lives outside the library answers `false`, and the
/// contracts promise nothing of it beyond its own inherent ones. `ready`
/// is the engine's own invariant, established by its constructors and kept
/// by every operation.
pub trait KvsEngine: Sized {
    /// The observable contents of the engine.
    spec fn model(&self) -> Map<Seq<char>, Seq<char>>;

    /// Whether the contracts below speak for this engine.
    spec fn models(&self) -> bool;

    /// The engine's invariant.
    spec fn ready(&self) -> bool;

    /// Durably assign `v` to `k`; the assignment is visible to every
    /// subsequent `get`.
    fn set(&mut self, k: String, v: String) -> (r: Result<(), KvError>)
        requires
            old(self).ready(),
        ensures
            final(self).ready(),
            final(self).models() == old(self).models(),
            old(self).models() ==> r is Ok && final(self).model() == old(self).model().insert(
                k@,
                v@,
            ),
    ;

    /// The most recent value of `k`, or `None` where `k` is absent or
    /// removed.
    fn get(&self, k: String) -> (r: Result<Option<String>, KvError>)
        requires
            self.ready(),
        ensures
            self.models() ==> match r {
                Ok(Some(v)) => self.model().contains_key(k@) && v@ == self.model()[k@],
                Ok(None) => !self.model().contains_key(k@),
                Err(_) => false,
            },
    ;

    /// Remove `k`; fails with `KeyNotFound` exactly when `k` is absent.
    fn remove(&mut self, k: String) -> (r: Result<(), KvError>)
        requires
            old(self).ready(),
        ensures
            final(self).ready(),
            final(self).models() == old(self).models(),
            old(self).models() ==> match r {
                Ok(_) => old(self).model().contains_key(k@) && final(self).model() == old(
                    self,
                ).model().remove(k@),
                Err(e) => e == KvError::KeyNotFound && !old(self).model().contains_key(k@)
                    && final(self).model() == old(self).model(),
            },
    ;
}

} // verus!
