//! Where repositories are stored.

pub mod dispatch;
pub mod git_ssh;
pub mod local;
pub mod sftp;

use crate::text::join2;
use vstd::prelude::*;

verus! {

/// Why storage did not do as it was asked.
#[derive(Debug)]
pub enum StorageError {
    /// There is no file at a path.
    NotFound(String),
    /// The system or the network failed; it says why.
    Io(String),
    /// Anything else, in words.
    Other(String),
}

/// What a `StorageError` stands for.
pub enum StorageFault {
    NotFound(Seq<char>),
    Io(Seq<char>),
    Other(Seq<char>),
}

impl View for StorageError {
    type V = StorageFault;

    open spec fn view(&self) -> StorageFault {
        match *self {
            StorageError::NotFound(path) => StorageFault::NotFound(path@),
            StorageError::Io(e) => StorageFault::Io(e@),
            StorageError::Other(e) => StorageFault::Other(e@),
        }
    }
}

/// What the user is told of a fault.
pub open spec fn storage_error_text(fault: StorageFault) -> Seq<char> {
    match fault {
        StorageFault::NotFound(path) => "File not found: "@ + path,
        StorageFault::Io(e) => "Network/IO error: "@ + e,
        StorageFault::Other(e) => e,
    }
}

impl StorageError {
    /// What the user is told of this error.
    pub fn message(&self) -> (text: String)
        ensures
            text@ == storage_error_text(self@),
    {
        match self {
            StorageError::NotFound(path) => join2("File not found: ", path.as_str()),
            StorageError::Io(e) => join2("Network/IO error: ", e.as_str()),
            StorageError::Other(e) => e.clone(),
        }
    }
}

/// What came of reading a file.
#[derive(Debug)]
pub enum FileAnswer {
    /// Its contents.
    Contents(Vec<u8>),
    /// There is none.
    Missing,
    /// It could not be read; the system says why.
    Failed(String),
}

/// Whether storage is held, and has to be let go.
pub struct LockGuard<S> {
    storage: S,
    locked: bool,
}

impl<S> LockGuard<S> {
    /// The storage that this guard is for.
    pub closed spec fn of(self) -> S {
        self.storage
    }

    /// Whether the storage is held.
    pub closed spec fn holds(self) -> bool {
        self.locked
    }

    /// A guard of storage that is held.
    pub fn held(storage: S) -> (guard: Self)
        ensures
            guard.of() == storage,
            guard.holds(),
    {
        LockGuard { storage, locked: true }
    }

    /// A guard of storage that knows no locks.
    pub fn unguarded(storage: S) -> (guard: Self)
        ensures
            guard.of() == storage,
            !guard.holds(),
    {
        LockGuard { storage, locked: false }
    }

    /// Gives the guard up.  The storage comes back where it has to be unlocked.
    pub fn release(self) -> (storage: Option<S>)
        ensures
            storage == if self.holds() {
                Some(self.of())
            } else {
                None
            },
    {
        if self.locked {
            Some(self.storage)
        } else {
            None
        }
    }
}

/// Each error says what it is about: the path that is missing, or the words of the
/// system or of the storage.
pub proof fn law_storage_errors_say_what_they_are_about(error: StorageError, text: String)
    requires
        call_ensures(StorageError::message, (&error,), text),
    ensures
        error matches StorageError::NotFound(path) ==> text@ == "File not found: "@ + path@,
        error matches StorageError::Io(e) ==> text@ == "Network/IO error: "@ + e@,
        error matches StorageError::Other(e) ==> text@ == e@,
{
}

/// A guard gives its storage back exactly where the storage is held.
pub proof fn law_only_what_is_held_is_let_go<S>(
    storage: S,
    held: LockGuard<S>,
    unguarded: LockGuard<S>,
    from_held: Option<S>,
    from_unguarded: Option<S>,
)
    requires
        call_ensures(LockGuard::<S>::held, (storage,), held),
        call_ensures(LockGuard::<S>::unguarded, (storage,), unguarded),
        call_ensures(LockGuard::<S>::release, (held,), from_held),
        call_ensures(LockGuard::<S>::release, (unguarded,), from_unguarded),
    ensures
        from_held == Some(storage),
        from_unguarded is None,
{
}

} // verus!
