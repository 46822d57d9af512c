//! Single-writer ownership: a process-local registry in front of an operating
//! system file lock.
//!
//! The registry excludes a second writer of the same process, which a file lock
//! would let through; the file lock excludes other processes. The registry is
//! keyed on the directory's stable filesystem identity, never on path text.

use crate::error::IoError;
use crate::error::IoErrorKind;
use crate::error::StoreError;
use crate::error::StoreLockError;
use crate::options::AccessMode;
use crate::paths::join;
use crate::paths::joined;
use vstd::prelude::*;

verus! {

/// Name of the persistent lock file.
pub const STORE_LOCK_FILE: &'static str = "writer.lock";

/// Stable filesystem identity of a store directory.
#[derive(Clone, Copy, Debug, PartialEq, Eq, Structural)]
pub struct StoreKey {
    pub device: u64,
    pub file: u64,
}

/// The stores that this process writes.
#[derive(Debug)]
pub struct HeldStores {
    pub keys: Vec<StoreKey>,
}

/// Exclusive writer ownership of one store.
#[derive(Clone, Copy, Debug, PartialEq, Eq, Structural)]
pub struct StoreLock {
    pub key: StoreKey,
}

/// An I/O failure at a path.
pub open spec fn is_io(error: StoreLockError, path: Seq<char>, source: IoError) -> bool {
    error matches StoreLockError::Io { path: at, source: cause } && at@ == path && cause == source
}

/// A contended lock at a path.
pub open spec fn is_contended(error: StoreLockError, path: Seq<char>) -> bool {
    error matches StoreLockError::Io { path: at, source: cause } && at@ == path && cause.kind
        == IoErrorKind::WouldBlock && cause.message@ == "operation would block"@
}

/// One store, and no other, is out of the registry.
pub open spec fn taken_out(before: Seq<StoreKey>, after: Seq<StoreKey>, key: StoreKey) -> bool {
    &&& !after.contains(key)
    &&& forall|other: StoreKey|
        other != key ==> (#[trigger] after.contains(other) <==> before.contains(other))
}

/// The outcome of the system's lock call.
#[derive(Clone, Debug, PartialEq, Eq)]
pub enum LockCall {
    Locked,
    /// The call failed with this code.
    Failed { code: i32, error: IoError },
}

impl HeldStores {
    /// No store is registered twice.
    pub open spec fn wf(self) -> bool {
        self.keys@.no_duplicates()
    }

    /// A registry without stores.
    pub fn new() -> (held: HeldStores)
        ensures
            held.wf(),
            held.keys@ == Seq::<StoreKey>::empty(),
    {
        HeldStores { keys: Vec::new() }
    }

    /// Whether a store is registered.
    pub fn holds(&self, key: StoreKey) -> (result: bool)
        ensures
            result == self.keys@.contains(key),
    {
        let mut at: usize = 0;
        while at < self.keys.len()
            invariant
                at <= self.keys@.len(),
                forall|i: int| 0 <= i < at ==> self.keys@[i] != key,
            decreases self.keys.len() - at,
        {
            if self.keys[at] == key {
                return true;
            }
            at = at + 1;
        }
        false
    }

    /// Registers a store before its lock file is touched. `identity` is the
    /// directory's identity or why it could not be read.
    pub fn register(&mut self, directory: &str, identity: Result<StoreKey, IoError>) -> (result:
        Result<StoreKey, StoreLockError>)
        requires
            old(self).wf(),
        ensures
            final(self).wf(),
            match identity {
                Err(source) => {
                    &&& result matches Err(error) && is_io(error, directory@, source)
                    &&& final(self).keys@ == old(self).keys@
                },
                Ok(key) => if old(self).keys@.contains(key) {
                    &&& result matches Err(error) && is_contended(
                        error,
                        joined(directory@, STORE_LOCK_FILE@),
                    )
                    &&& final(self).keys@ == old(self).keys@
                } else {
                    &&& result == Ok::<StoreKey, StoreLockError>(key)
                    &&& final(self).keys@ == old(self).keys@.push(key)
                },
            },
    {
        let key = match identity {
            Ok(key) => key,
            Err(source) => {
                return Err(StoreLockError::Io { path: directory.to_owned(), source });
            },
        };
        if self.holds(key) {
            return Err(
                StoreLockError::Io {
                    path: join(directory, STORE_LOCK_FILE),
                    source: would_block(),
                },
            );
        }
        self.keys.push(key);
        Ok(key)
    }

    /// Takes a store out of the registry.
    pub fn unregister(&mut self, key: StoreKey)
        requires
            old(self).wf(),
        ensures
            final(self).wf(),
            taken_out(old(self).keys@, final(self).keys@, key),
    {
        let mut at: usize = 0;
        while at < self.keys.len()
            invariant
                at <= self.keys@.len(),
                self.keys@ == old(self).keys@,
                old(self).wf(),
                forall|i: int| 0 <= i < at ==> self.keys@[i] != key,
            decreases self.keys.len() - at,
        {
            if self.keys[at] == key {
                let ghost before = self.keys@;
                self.keys.remove(at);
                let ghost after = self.keys@;
                assert(after == before.remove(at as int));
                assert forall|other: StoreKey| other != key implies (#[trigger] after.contains(
                    other,
                ) <==> before.contains(other)) by {
                    if before.contains(other) {
                        let i = choose|i: int| 0 <= i < before.len() && before[i] == other;
                        if i < at {
                            assert(after[i] == other);
                        } else {
                            assert(after[i - 1] == other);
                        }
                    }
                    if after.contains(other) {
                        let i = choose|i: int| 0 <= i < after.len() && after[i] == other;
                        if i < at {
                            assert(before[i] == other);
                        } else {
                            assert(before[i + 1] == other);
                        }
                    }
                }
                assert(!after.contains(key)) by {
                    if after.contains(key) {
                        let i = choose|i: int| 0 <= i < after.len() && after[i] == key;
                        if i < at {
                            assert(before[i] == key);
                        } else {
                            assert(before[i + 1] == key);
                        }
                    }
                }
                return;
            }
            at = at + 1;
        }
        assert(!self.keys@.contains(key));
    }

    /// Completes an acquisition whose store is registered: `opened` says whether
    /// the lock file could be opened and `call` how the system's lock went. A
    /// failure takes the store out of the registry again, so that a failed
    /// attempt never leaves it unopenable.
    pub fn complete(
        &mut self,
        directory: &str,
        key: StoreKey,
        opened: Result<(), IoError>,
        call: LockCall,
        again: i32,
        denied: i32,
    ) -> (result: Result<StoreLock, StoreLockError>)
        requires
            old(self).wf(),
        ensures
            final(self).wf(),
            result is Ok <==> opened is Ok && call is Locked,
            result is Ok ==> result == Ok::<StoreLock, StoreLockError>(StoreLock { key })
                && final(self).keys@ == old(self).keys@,
            result matches Err(error) ==> {
                &&& taken_out(old(self).keys@, final(self).keys@, key)
                &&& match opened {
                    Err(source) => is_io(error, joined(directory@, STORE_LOCK_FILE@), source),
                    Ok(_) => call matches LockCall::Failed { code, error: source } && if code
                        == again || code == denied {
                        is_contended(error, joined(directory@, STORE_LOCK_FILE@))
                    } else {
                        is_io(error, joined(directory@, STORE_LOCK_FILE@), source)
                    },
                }
            },
    {
        match opened {
            Err(source) => {
                self.unregister(key);
                return Err(StoreLockError::Io { path: join(directory, STORE_LOCK_FILE), source });
            },
            Ok(_) => {},
        }
        match call {
            LockCall::Locked => Ok(StoreLock { key }),
            LockCall::Failed { code, error } => {
                self.unregister(key);
                let source = if code == again || code == denied {
                    would_block()
                } else {
                    error
                };
                Err(StoreLockError::Io { path: join(directory, STORE_LOCK_FILE), source })
            },
        }
    }

    /// Gives a lock's store back.
    pub fn release(&mut self, lock: StoreLock)
        requires
            old(self).wf(),
        ensures
            final(self).wf(),
            taken_out(old(self).keys@, final(self).keys@, lock.key),
    {
        self.unregister(lock.key);
    }
}

fn would_block() -> (error: IoError)
    ensures
        error.kind == IoErrorKind::WouldBlock,
        error.message@ == "operation would block"@,
{
    IoError { kind: IoErrorKind::WouldBlock, message: "operation would block".to_owned() }
}

/// What a writer-lock failure is reported as: contention is a busy store.
pub open spec fn reported(error: StoreLockError) -> StoreError {
    match error {
        StoreLockError::Io { path, source } => if source.kind == IoErrorKind::WouldBlock {
            StoreError::StoreBusy { path }
        } else {
            StoreError::Lock(StoreLockError::Io { path, source })
        },
    }
}

/// What a writer-lock failure is reported as.
pub fn map_lock_error(error: StoreLockError) -> (result: StoreError)
    ensures
        result == reported(error),
{
    match error {
        StoreLockError::Io { path, source } => {
            if source.kind == IoErrorKind::WouldBlock {
                StoreError::StoreBusy { path }
            } else {
                StoreError::Lock(StoreLockError::Io { path, source })
            }
        },
    }
}

/// Whether opening a store takes the writer lock.
pub fn takes_writer_lock(access_mode: AccessMode) -> (result: bool)
    ensures
        result == (access_mode == AccessMode::ReadWrite),
{
    access_mode == AccessMode::ReadWrite
}

/// A failed attempt to take a store leaves the registry as it was, so that it
/// never makes a store unopenable.
pub proof fn lemma_failed_attempt_leaves_no_trace(
    before: Seq<StoreKey>,
    after: Seq<StoreKey>,
    key: StoreKey,
    other: StoreKey,
)
    requires
        !before.contains(key),
        taken_out(before.push(key), after, key),
    ensures
        after.contains(other) <==> before.contains(other),
{
    if other != key {
        if before.contains(other) {
            let at = choose|i: int| 0 <= i < before.len() && before[i] == other;
            assert(before.push(key)[at] == other);
        }
        assert(after.contains(other) <==> before.push(key).contains(other));
        if before.push(key).contains(other) {
            let at = choose|i: int|
                0 <= i < before.push(key).len() && before.push(key)[i] == other;
            assert(before[at] == other);
        }
    }
}

/// A store that was taken stays taken while locks of other stores are released,
/// so that nobody takes it twice; behind its own release it can be taken again.
pub proof fn lemma_one_owner_per_store(
    before: Seq<StoreKey>,
    after: Seq<StoreKey>,
    key: StoreKey,
    released: StoreKey,
)
    requires
        taken_out(before.push(key), after, released),
    ensures
        after.contains(key) <==> released != key,
{
    assert(before.push(key)[before.len() as int] == key);
    assert(before.push(key).contains(key));
}

/// A contended lock is reported as a busy store at the lock file's path, and a
/// failure of another kind never is.
pub proof fn lemma_contention_is_a_busy_store(error: StoreLockError, path: Seq<char>)
    ensures
        is_contended(error, path) ==> (reported(error) matches StoreError::StoreBusy { path: at }
            && at@ == path),
        reported(error) is StoreBusy <==> error->source.kind == IoErrorKind::WouldBlock,
{
}

} // verus!
