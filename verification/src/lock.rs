//! Per-repository lock bookkeeping.
//!
//! The exclusive, non-blocking advisory lock itself is taken by the
//! caller with the host's file-locking primitive; the library only
//! computes the marker path and names the ways acquisition can fail.

use vstd::prelude::*;
use vstd::string::StringExecFns;

verus! {

/// Why a repository lock could not be acquired.
#[derive(Debug)]
pub enum LockError {
    /// The directory of the marker file could not be created.
    LockPathCreateFailed(String),
    /// The marker file could not be opened.
    LockFileOpenFailed(String),
    /// Another holder has the lock.
    LockBusy(String),
}

/// The lock-marker path of a repository: a fixed name inside its
/// object store.
pub fn lock_file_path(repo: &str) -> (r: String)
    ensures
        r@ == repo@ + "/.git/objects/git-share-obj.lock"@,
{
    String::from_str(repo).concat("/.git/objects/git-share-obj.lock")
}

} // verus!
