//! Work on a repository, stage by stage.
//!
//! Whatever is done with a repository begins with its state as it is by now, and
//! a new key list is nothing before it is where the state is kept.  Each stage is
//! a value that only the stage before can make, and each is left with what the
//! storage gave back, so that the work can take no other order.

use crate::keys::{KeyError, KeyFault, PrivateKey};
use crate::outside;
use crate::storage::StorageError;
use crate::types::packfilerecord::Packfile;
use crate::workers::gitworker::GitWorker;
use crate::workers::keyworker;
use crate::workers::keyworker::{Encapsulation, KeyWorker, KeysJson, MASTER_KEY_SIZE};
use vstd::prelude::*;

verus! {

/// Work that waits for the state of the repository to be fetched.
pub struct FetchStage {
    repo_url: String,
}

/// Work on a repository whose state is fetched.
pub struct FreshStage {
    worker: KeyWorker,
}

/// Work that waits for its new key list to be written.
pub struct WriteStage {
    keys: KeysJson,
}

/// Work whose new key list is written, and that waits for the storage to bring it
/// to where the state is kept.
pub struct SyncStage {
    keys: KeysJson,
}

impl FetchStage {
    /// The URL of the repository.
    pub closed spec fn url(self) -> Seq<char> {
        self.repo_url@
    }

    /// Work on the repository at a URL.
    pub fn begin(repo_url: String) -> (stage: Self)
        ensures
            stage.url() == repo_url@,
    {
        FetchStage { repo_url }
    }

    /// Goes on where the state was fetched.
    pub fn fetched(self, outcome: Result<(), StorageError>) -> (stage: Result<
        FreshStage,
        StorageError,
    >)
        ensures
            match outcome {
                Ok(_) => stage matches Ok(s) && s.url() == self.url(),
                Err(e) => stage == Err::<FreshStage, StorageError>(e),
            },
    {
        match outcome {
            Ok(_) => Ok(FreshStage { worker: KeyWorker::new(self.repo_url) }),
            Err(e) => Err(e),
        }
    }
}

impl FreshStage {
    /// The URL of the repository.
    pub closed spec fn url(self) -> Seq<char> {
        self.worker@
    }

    /// The keys of the repository.
    pub fn worker(&self) -> (worker: &KeyWorker)
        ensures
            worker@ == self.url(),
    {
        &self.worker
    }

    /// Makes the key list of a new repository, unless there is one.
    pub fn init(self, keys_found: bool, private_key: &PrivateKey, comment: &str) -> (stage: Result<
        WriteStage,
        KeyError,
    >)
        ensures
            keys_found ==> (stage matches Err(e) && e@ == KeyFault::AlreadyInitialized),
            !keys_found ==> {
                &&& stage matches Ok(s)
                &&& s.list().len() == 1
                &&& exists|master_key: Seq<u8>|
                    master_key.len() == MASTER_KEY_SIZE && #[trigger] keyworker::wraps(
                        s.list()[0],
                        master_key,
                        outside::xwing_public(private_key@),
                        comment@,
                        self.url(),
                    )
            },
    {
        match self.worker.init_storage(keys_found, private_key, comment) {
            Ok(keys) => {
                let stage = WriteStage { keys };
                proof {
                    let public_key = outside::xwing_public(private_key@);
                    let master_key = choose|master_key: Seq<u8>|
                        master_key.len() == MASTER_KEY_SIZE && #[trigger] keyworker::wraps(
                            keys@[0],
                            master_key,
                            public_key,
                            comment@,
                            self.worker@,
                        );
                    assert(keyworker::wraps(
                        stage.list()[0],
                        master_key,
                        public_key,
                        comment@,
                        self.url(),
                    ));
                }
                Ok(stage)
            },
            Err(e) => Err(e),
        }
    }

    /// Adds a user to the key list.
    pub fn add_user(
        self,
        private_key: &PrivateKey,
        keys: &KeysJson,
        new_pubkey_b64: &str,
        comment: &str,
        current: Result<KeysJson, String>,
    ) -> (stage: Result<WriteStage, KeyError>)
        ensures
            keyworker::adds_user(
                match stage {
                    Ok(s) => Ok(s.list()),
                    Err(e) => Err(e@),
                },
                keys@,
                private_key@,
                new_pubkey_b64@,
                comment@,
                match current {
                    Ok(list) => Ok(list@),
                    Err(e) => Err(e@),
                },
                self.url(),
            ),
    {
        match self.worker.add_user(private_key, keys, new_pubkey_b64, comment, current) {
            Ok(keys) => Ok(WriteStage { keys }),
            Err(e) => Err(e),
        }
    }

    /// Unlocks the master key, and puts the helper to work.
    pub fn serve(self, private_key: &PrivateKey, keys: &KeysJson) -> (worker: Result<
        GitWorker,
        KeyError,
    >)
        ensures
            match keyworker::unlocked(keys@, private_key@, self.url()) {
                Ok(master_key) => {
                    &&& worker matches Ok(w)
                    &&& w.key() == master_key
                    &&& w.refs() == Seq::<(Seq<char>, Seq<char>)>::empty()
                    &&& w.packs() == Seq::<Packfile>::empty()
                    &&& w.waiting() == Seq::<Seq<char>>::empty()
                },
                Err(fault) => worker matches Err(e) && e@ == fault,
            },
    {
        match self.worker.unlock_master_key(private_key, keys) {
            Ok(master_key) => Ok(GitWorker::new(master_key)),
            Err(e) => Err(e),
        }
    }
}

impl WriteStage {
    /// The new key list.
    pub closed spec fn list(self) -> Seq<Encapsulation> {
        self.keys@
    }

    /// The new key list.
    pub fn keys(&self) -> (keys: &KeysJson)
        ensures
            keys@ == self.list(),
    {
        &self.keys
    }

    /// Goes on where the key list was written.
    pub fn written(self, outcome: Result<(), StorageError>) -> (stage: Result<
        SyncStage,
        StorageError,
    >)
        ensures
            match outcome {
                Ok(_) => stage matches Ok(s) && s.list() == self.list(),
                Err(e) => stage == Err::<SyncStage, StorageError>(e),
            },
    {
        match outcome {
            Ok(_) => Ok(SyncStage { keys: self.keys }),
            Err(e) => Err(e),
        }
    }
}

impl SyncStage {
    /// The new key list.
    pub closed spec fn list(self) -> Seq<Encapsulation> {
        self.keys@
    }

    /// The new key list, where the storage has brought it to where the state is
    /// kept: the work is not done before.
    pub fn synced(self, outcome: Result<(), StorageError>) -> (keys: Result<
        KeysJson,
        StorageError,
    >)
        ensures
            match outcome {
                Ok(_) => keys matches Ok(k) && k@ == self.list(),
                Err(e) => keys == Err::<KeysJson, StorageError>(e),
            },
    {
        match outcome {
            Ok(_) => Ok(self.keys),
            Err(e) => Err(e),
        }
    }
}

/// Nothing is done where the state was not fetched, and no key list is new before
/// it is written and is where the state is kept.
pub proof fn law_work_is_done_only_with_the_storage(
    start: FetchStage,
    fetch: Result<(), StorageError>,
    fresh: Result<FreshStage, StorageError>,
    unwritten: WriteStage,
    write: Result<(), StorageError>,
    written: Result<SyncStage, StorageError>,
    sync: Result<(), StorageError>,
    keys: Result<KeysJson, StorageError>,
)
    requires
        call_ensures(FetchStage::fetched, (start, fetch), fresh),
        call_ensures(WriteStage::written, (unwritten, write), written),
        written is Ok ==> call_ensures(SyncStage::synced, (written->Ok_0, sync), keys),
    ensures
        fresh is Ok <==> fetch is Ok,
        fresh matches Ok(stage) ==> stage.url() == start.url(),
        written is Ok <==> write is Ok,
        written is Ok ==> (keys is Ok <==> sync is Ok),
        written is Ok ==> (keys matches Ok(list) ==> list@ == unwritten.list()),
{
}

/// What is worked on is the repository whose state was fetched: its key list is
/// made, added to and unlocked under its URL.
pub proof fn law_work_is_on_the_repository_that_was_fetched(
    stage: FreshStage,
    keys_found: bool,
    private_key: PrivateKey,
    comment: &str,
    made: Result<WriteStage, KeyError>,
    keys: KeysJson,
    served: Result<GitWorker, KeyError>,
)
    requires
        call_ensures(FreshStage::init, (stage, keys_found, &private_key, comment), made),
        call_ensures(FreshStage::serve, (stage, &private_key, &keys), served),
        private_key@.len() == 32,
    ensures
        keys_found <==> made is Err,
        made matches Ok(s) ==> {
            &&& s.list().len() == 1
            &&& s.list()[0].comment == comment@
            &&& keyworker::unlocked(s.list(), private_key@, stage.url()) is Ok
        },
        match keyworker::unlocked(keys@, private_key@, stage.url()) {
            Ok(master_key) => served matches Ok(worker) && worker.key() == master_key
                && worker.refs().len() == 0 && worker.packs().len() == 0,
            Err(fault) => served matches Err(e) && e@ == fault,
        },
{
    if let Ok(s) = made {
        let master_key = choose|master_key: Seq<u8>|
            master_key.len() == MASTER_KEY_SIZE && #[trigger] keyworker::wraps(
                s.list()[0],
                master_key,
                outside::xwing_public(private_key@),
                comment@,
                stage.url(),
            );
        keyworker::law_creator_unlocks_the_master_key(
            s.list()[0],
            master_key,
            comment@,
            private_key@,
            stage.url(),
        );
        assert(s.list() =~= seq![s.list()[0]]);
    }
}

/// A user is added as the key list has it.
pub proof fn law_user_is_added_to_the_key_list(
    stage: FreshStage,
    private_key: PrivateKey,
    keys: KeysJson,
    new_pubkey_b64: &str,
    comment: &str,
    current: Result<KeysJson, String>,
    next: Result<WriteStage, KeyError>,
)
    requires
        call_ensures(
            FreshStage::add_user,
            (stage, &private_key, &keys, new_pubkey_b64, comment, current),
            next,
        ),
    ensures
        next matches Ok(s) ==> (current matches Ok(list) && {
            &&& s.list().len() == list@.len() + 1
            &&& s.list().drop_last() == list@
            &&& s.list().last().public_key == new_pubkey_b64@
            &&& s.list().last().comment == comment@
            &&& keyworker::unlocked(keys@, private_key@, stage.url()) is Ok
        }),
        keyworker::adds_user(
            match next {
                Ok(s) => Ok(s.list()),
                Err(e) => Err(e@),
            },
            keys@,
            private_key@,
            new_pubkey_b64@,
            comment@,
            match current {
                Ok(list) => Ok(list@),
                Err(e) => Err(e@),
            },
            stage.url(),
        ),
{
}

} // verus!
