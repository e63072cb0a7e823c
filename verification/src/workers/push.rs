//! A push, stage by stage.
//!
//! A push asks for outside work all along: a lock, a listing of branches, a
//! packfile, a place to store it, a manifest to save, and a storage to bring the
//! new state to where it is kept.  Each stage is a value
//! that only the stage before can make, and each is left with what the outside
//! work gave back, so that a push can take no other order.

use crate::outside;
use crate::outside::{random_uuid, STREAM_KEY_SIZE};
use crate::storage::StorageError;
use crate::text;
use crate::text::{join2, join3, list3, list5, split};
use crate::types::githash::GitHash;
use crate::types::gitref;
use crate::types::gitref::GitRef;
use crate::types::manifest;
use crate::types::packfilerecord::Packfile;
use crate::workers::cryptworker;
use crate::workers::cryptworker::CryptError;
use crate::workers::gitworker;
use crate::workers::gitworker::{resolve_local_heads, GitError, GitWorker};
use vstd::prelude::*;

verus! {

/// A push that waits for the lock.
pub struct LockStage {
    local: String,
    remote: String,
}

/// A push that deletes a reference, under the lock.
pub struct DeleteStage {
    remote: String,
}

/// A push that waits for a listing of local branches, under the lock.
pub struct ResolveStage {
    local: String,
    remote: String,
}

/// A push that waits for a packfile, under the lock.
pub struct PackStage {
    remote: GitRef,
    head: GitHash,
    range: String,
}

/// A push that waits for its packfile to be stored, under the lock.
pub struct StoreStage {
    remote: GitRef,
    head: GitHash,
    id: String,
    path: String,
    contents: Vec<u8>,
}

/// A push that waits for the manifest to be saved, under the lock.
pub struct SaveStage {
    remote: String,
}

/// A push whose manifest is saved, and that waits for the storage to bring the
/// new state to where it is kept, under the lock.
pub struct SyncStage {
    remote: String,
}

/// What a push is for.
pub enum PushKind {
    /// A reference is to be deleted.
    Delete(DeleteStage),
    /// A reference is to name a commit.
    Update(ResolveStage),
}

impl LockStage {
    /// What is pushed.
    pub closed spec fn local(self) -> Seq<char> {
        self.local@
    }

    /// What it is pushed to.
    pub closed spec fn remote(self) -> Seq<char> {
        self.remote@
    }

    /// A push by a refspec: what is pushed, a colon, and what it is pushed to.
    pub fn begin(ref_spec: &str) -> (stage: Result<Self, GitError>)
        ensures
            ({
                let parts = text::split_on(ref_spec@, ':');
                match stage {
                    Ok(s) => parts.len() == 2 && s.local() == parts[0] && s.remote() == parts[1],
                    Err(e) => parts.len() != 2 && (e matches GitError::InvalidRefspec(t) && t@
                        == ref_spec@),
                }
            }),
    {
        let parts = split(ref_spec, ':');
        assert(text::texts(parts@).len() == parts@.len());
        if parts.len() != 2 {
            return Err(GitError::InvalidRefspec(ref_spec.to_owned()));
        }
        assert(text::texts(parts@)[0] == parts@[0]@);
        assert(text::texts(parts@)[1] == parts@[1]@);
        Ok(LockStage { local: parts[0].clone(), remote: parts[1].clone() })
    }

    /// Goes on where the lock is held: a push of nothing is a deletion.
    pub fn locked(self, outcome: Result<(), StorageError>) -> (kind: Result<PushKind, GitError>)
        ensures
            match outcome {
                Ok(_) => if self.local().len() == 0 {
                    kind matches Ok(PushKind::Delete(stage)) && stage.remote() == self.remote()
                } else {
                    kind matches Ok(PushKind::Update(stage)) && stage.local() == self.local()
                        && stage.remote() == self.remote()
                },
                Err(e) => kind == Err::<PushKind, GitError>(GitError::Storage(e)),
            },
    {
        if let Err(e) = outcome {
            return Err(GitError::Storage(e));
        }
        if self.local.as_str().unicode_len() == 0 {
            Ok(PushKind::Delete(DeleteStage { remote: self.remote }))
        } else {
            Ok(PushKind::Update(ResolveStage { local: self.local, remote: self.remote }))
        }
    }
}

/// Whether a text is a reference.
fn names_ref(name: &str) -> (yes: bool)
    ensures
        yes == gitref::is_ref(name@),
{
    match GitRef::new(name.to_owned()) {
        Ok(_) => true,
        Err(_) => false,
    }
}

/// The reference that a text is.
fn reference_of(name: String) -> (reference: GitRef)
    requires
        gitref::is_ref(name@),
    ensures
        reference@ == name@,
{
    match GitRef::new(name) {
        Ok(reference) => reference,
        Err(_) => vstd::pervasive::unreached(),
    }
}

impl DeleteStage {
    /// What is deleted.
    pub closed spec fn remote(self) -> Seq<char> {
        self.remote@
    }

    /// Whether what is to be deleted is a reference.
    pub fn names_ref(&self) -> (yes: bool)
        ensures
            yes == gitref::is_ref(self.remote()),
    {
        names_ref(self.remote.as_str())
    }

    /// Deletes the reference; all else stays.
    pub fn delete(self, worker: &mut GitWorker) -> (stage: SaveStage)
        requires
            gitref::is_ref(self.remote()),
        ensures
            stage.remote() == self.remote(),
            gitworker::heads(*final(worker)) == gitworker::heads(*old(worker)).remove(
                self.remote(),
            ),
            final(worker).packs() == old(worker).packs(),
            final(worker).key() == old(worker).key(),
            final(worker).waiting() == old(worker).waiting(),
    {
        let remote = self.remote.clone();
        let reference = reference_of(self.remote);
        worker.forget(&reference);
        SaveStage { remote }
    }
}

/// What Git is to pack: what the new commit reaches and the old one does not.
pub open spec fn commit_range(
    heads: Map<Seq<char>, Seq<char>>,
    remote: Seq<char>,
    head: Seq<char>,
) -> Seq<char> {
    if heads.dom().contains(remote) {
        "^"@ + heads[remote] + "\n"@ + head + "\n"@
    } else {
        head + "\n"@
    }
}

impl ResolveStage {
    /// What is pushed.
    pub closed spec fn local(self) -> Seq<char> {
        self.local@
    }

    /// What it is pushed to.
    pub closed spec fn remote(self) -> Seq<char> {
        self.remote@
    }

    /// Whether what is pushed to is a reference.
    pub fn names_ref(&self) -> (yes: bool)
        ensures
            yes == gitref::is_ref(self.remote()),
    {
        names_ref(self.remote.as_str())
    }

    /// The arguments with which Git lists the local branches.
    pub fn listing_args(&self) -> (args: Vec<String>)
        ensures
            text::texts(args@) == seq!["ls-remote"@, "--heads"@, "."@],
    {
        list3("ls-remote", "--heads", ".")
    }

    /// Looks the reference up among the local branches, and says what is to be
    /// packed.
    pub fn resolved(self, worker: &GitWorker, listing: &str) -> (stage: Result<PackStage, GitError>)
        requires
            gitworker::names_refs(text::lines_of(listing@)),
            gitworker::heads_of(text::lines_of(listing@)) is Ok ==> gitref::is_ref(self.remote()),
        ensures
            match gitworker::heads_of(text::lines_of(listing@)) {
                Err(hash) => stage matches Err(GitError::InvalidHash(t)) && t@ == hash,
                Ok(local_heads) => if local_heads.dom().contains(self.remote()) {
                    &&& stage matches Ok(s)
                    &&& s.remote() == self.remote()
                    &&& s.head() == local_heads[self.remote()]
                    &&& s.range() == commit_range(
                        gitworker::heads(*worker),
                        self.remote(),
                        local_heads[self.remote()],
                    )
                } else {
                    stage matches Err(GitError::NoLocalRef(t)) && t@ == self.local()
                },
            },
    {
        let local_heads = match resolve_local_heads(listing) {
            Ok(local_heads) => local_heads,
            Err(e) => {
                return Err(e);
            },
        };
        let remote = reference_of(self.remote);
        let head = match local_heads.get(&remote) {
            Some(head) => head.clone(),
            None => {
                return Err(GitError::NoLocalRef(self.local));
            },
        };
        let range = match worker.head_of(&remote) {
            Some(old_head) => {
                let mut range = join3("^", old_head.as_str(), "\n");
                range.append(head.as_str());
                range.append("\n");
                range
            },
            None => join2(head.as_str(), "\n"),
        };
        Ok(PackStage { remote, head, range })
    }
}

/// Where a packfile is stored.
pub open spec fn pack_path(id: Seq<char>) -> Seq<char> {
    "objects/pack-"@ + id + ".pack.enc"@
}

impl PackStage {
    /// What is pushed to.
    pub closed spec fn remote(self) -> Seq<char> {
        self.remote@
    }

    /// The commit that it is to name.
    pub closed spec fn head(self) -> Seq<char> {
        self.head@
    }

    /// What Git is to pack.
    pub closed spec fn range(self) -> Seq<char> {
        self.range@
    }

    /// The arguments with which Git packs.
    pub fn packing_args(&self) -> (args: Vec<String>)
        ensures
            text::texts(args@) == seq![
                "pack-objects"@,
                "--stdout"@,
                "--revs"@,
                "--thin"@,
                "--delta-base-offset"@,
            ],
    {
        list5("pack-objects", "--stdout", "--revs", "--thin", "--delta-base-offset")
    }

    /// What Git is told to pack; an empty line ends it.
    pub fn packing_input(&self) -> (input: String)
        ensures
            input@ == self.range() + "\n"@,
    {
        join2(self.range.as_str(), "\n")
    }

    /// Encrypts the packfile that Git made, and says where it is to be stored:
    /// under a new random name.
    pub fn packed(self, worker: &GitWorker, success: bool, pack: &[u8]) -> (stage: Result<
        StoreStage,
        GitError,
    >)
        ensures
            stage is Ok <==> success && worker.key().len() == STREAM_KEY_SIZE
                && cryptworker::countable(pack@.len()),
            stage matches Ok(s) ==> {
                &&& s.remote() == self.remote()
                &&& s.head() == self.head()
                &&& outside::is_random_uuid(s.id())
                &&& cryptworker::encrypts(s.sealed_pack(), worker.key(), pack@)
            },
            stage matches Err(e) ==> e == if !success {
                GitError::PackObjects
            } else if worker.key().len() == STREAM_KEY_SIZE {
                GitError::Crypt(CryptError::SealStream)
            } else {
                GitError::Crypt(CryptError::KeyLength)
            },
    {
        if !success {
            return Err(GitError::PackObjects);
        }
        match worker.seal(pack) {
            Err(e) => Err(e),
            Ok(contents) => {
                let id = random_uuid();
                let path = join3("objects/pack-", id.as_str(), ".pack.enc");
                Ok(StoreStage { remote: self.remote, head: self.head, id, path, contents })
            },
        }
    }
}

impl StoreStage {
    #[verifier::type_invariant]
    spec fn is_stored_by_its_id(self) -> bool {
        self.path@ == pack_path(self.id@)
    }

    /// What is pushed to.
    pub closed spec fn remote(self) -> Seq<char> {
        self.remote@
    }

    /// The commit that it is to name.
    pub closed spec fn head(self) -> Seq<char> {
        self.head@
    }

    /// What tells the packfile from others.
    pub closed spec fn id(self) -> Seq<char> {
        self.id@
    }

    /// The encrypted packfile.
    pub closed spec fn sealed_pack(self) -> Seq<u8> {
        self.contents@
    }

    /// Where the packfile is to be stored.
    pub fn path(&self) -> (path: &str)
        ensures
            path@ == pack_path(self.id()),
    {
        proof {
            use_type_invariant(self);
        }
        self.path.as_str()
    }

    /// The encrypted packfile.
    pub fn contents(&self) -> (contents: &[u8])
        ensures
            contents@ == self.sealed_pack(),
    {
        self.contents.as_slice()
    }

    /// The record of the packfile.
    pub open spec fn packfile(self) -> Packfile {
        Packfile {
            id: self.id(),
            path: pack_path(self.id()),
            contains_commits: seq![self.head()],
        }
    }

    /// Notes the packfile where it was stored, and lets the reference name its
    /// new commit.  Where it was not stored, the worker stays as it was.
    pub fn stored(self, worker: &mut GitWorker, outcome: Result<(), StorageError>) -> (stage:
        Result<SaveStage, GitError>)
        ensures
            match outcome {
                Ok(_) => {
                    &&& stage matches Ok(s)
                    &&& s.remote() == self.remote()
                    &&& gitworker::heads(*final(worker)) == gitworker::heads(*old(worker)).insert(
                        self.remote(),
                        self.head(),
                    )
                    &&& final(worker).packs() == old(worker).packs().push(self.packfile())
                    &&& final(worker).key() == old(worker).key()
                    &&& final(worker).waiting() == old(worker).waiting()
                },
                Err(e) => {
                    &&& stage == Err::<SaveStage, GitError>(GitError::Storage(e))
                    &&& *final(worker) == *old(worker)
                },
            },
    {
        proof {
            use_type_invariant(&self);
        }
        if let Err(e) = outcome {
            return Err(GitError::Storage(e));
        }
        let remote = self.remote.as_str().to_owned();
        worker.record(self.remote, self.head, self.id, self.path);
        Ok(SaveStage { remote })
    }
}

impl SaveStage {
    /// What was pushed to.
    pub closed spec fn remote(self) -> Seq<char> {
        self.remote@
    }

    /// Goes on where the manifest is saved.
    pub fn saved(self, outcome: Result<(), StorageError>) -> (stage: Result<SyncStage, GitError>)
        ensures
            match outcome {
                Ok(_) => stage matches Ok(s) && s.remote() == self.remote(),
                Err(e) => stage == Err::<SyncStage, GitError>(GitError::Storage(e)),
            },
    {
        match outcome {
            Ok(_) => Ok(SyncStage { remote: self.remote }),
            Err(e) => Err(GitError::Storage(e)),
        }
    }
}

impl SyncStage {
    /// What was pushed to.
    pub closed spec fn remote(self) -> Seq<char> {
        self.remote@
    }

    /// What was pushed to, where the storage has brought the new state to where
    /// it is kept: a push is not done before.
    pub fn synced(self, outcome: Result<(), StorageError>) -> (remote: Result<String, GitError>)
        ensures
            match outcome {
                Ok(_) => remote matches Ok(r) && r@ == self.remote(),
                Err(e) => remote == Err::<String, GitError>(GitError::Storage(e)),
            },
    {
        match outcome {
            Ok(_) => Ok(self.remote),
            Err(e) => Err(GitError::Storage(e)),
        }
    }
}

/// What was pushed is listed: once a packfile is stored, Git is told that the
/// reference names the new commit, and every other reference is as it was.
pub proof fn law_pushed_reference_is_listed(
    listing: Seq<(Seq<char>, Seq<char>)>,
    before: Map<Seq<char>, Seq<char>>,
    remote: Seq<char>,
    head: Seq<char>,
    other: Seq<char>,
)
    requires
        manifest::as_map(listing) == before.insert(remote, head),
    ensures
        gitworker::list_answer(listing).contains(gitworker::ref_line((remote, head))),
        other != remote && before.dom().contains(other) ==> gitworker::list_answer(
            listing,
        ).contains(gitworker::ref_line((other, before[other]))),
{
    gitworker::law_references_are_listed(listing, remote);
    gitworker::law_references_are_listed(listing, other);
}

/// What was deleted is not listed.
pub proof fn law_deleted_reference_is_not_listed(
    listing: Seq<(Seq<char>, Seq<char>)>,
    before: Map<Seq<char>, Seq<char>>,
    remote: Seq<char>,
)
    requires
        manifest::as_map(listing) == before.remove(remote),
    ensures
        forall|i: int| 0 <= i < listing.len() ==> (#[trigger] listing[i]).0 != remote,
{
    gitworker::law_references_are_listed(listing, remote);
}

/// A refspec has one colon: what stands before it is pushed to what stands behind
/// it, and a text with none or with more is refused.
pub proof fn law_refspec_has_one_colon(
    ref_spec: &str,
    stage: Result<LockStage, GitError>,
    local: Seq<char>,
    remote: Seq<char>,
    more: Seq<char>,
)
    requires
        call_ensures(LockStage::begin, (ref_spec,), stage),
        forall|i: int| 0 <= i < local.len() ==> local[i] != ':',
        forall|i: int| 0 <= i < remote.len() ==> remote[i] != ':',
    ensures
        ref_spec@ == local + seq![':'] + remote ==> (stage matches Ok(s) && s.local() == local
            && s.remote() == remote),
        ref_spec@ == local ==> stage is Err,
        ref_spec@ == local + seq![':'] + (remote + seq![':'] + more) ==> stage is Err,
        stage matches Err(e) ==> (e matches GitError::InvalidRefspec(t) && t@ == ref_spec@),
{
    text::law_split_is_cut_at_each_occurrence(local, remote, ':');
    text::law_split_is_cut_at_each_occurrence(remote, more, ':');
    text::law_split_is_cut_at_each_occurrence(local, remote + seq![':'] + more, ':');
    text::lemma_split_is_not_empty(more, ':');
    let both = seq![local] + seq![remote];
    assert(both[0] == local && both[1] == remote);
}

/// Under the lock, a push of nothing deletes and any other updates; without the
/// lock there is neither.
pub proof fn law_push_of_nothing_deletes(
    stage: LockStage,
    outcome: Result<(), StorageError>,
    kind: Result<PushKind, GitError>,
)
    requires
        call_ensures(LockStage::locked, (stage, outcome), kind),
    ensures
        outcome is Err ==> kind is Err,
        outcome is Ok && stage.local().len() == 0 ==> (kind matches Ok(PushKind::Delete(s))
            && s.remote() == stage.remote()),
        outcome is Ok && stage.local().len() > 0 ==> (kind matches Ok(PushKind::Update(s))
            && s.local() == stage.local() && s.remote() == stage.remote()),
{
}

/// A push goes on with the commit that Git lists for what is pushed to, and packs
/// what that commit reaches and the commit that the repository has does not; a
/// branch that Git does not list is not pushed.
pub proof fn law_push_goes_on_with_the_listed_commit(
    stage: ResolveStage,
    worker: GitWorker,
    listing: &str,
    outcome: Result<PackStage, GitError>,
    i: int,
)
    requires
        call_ensures(ResolveStage::resolved, (stage, &worker, listing), outcome),
        forall|j: int|
            0 <= j < text::lines_of(listing@).len() ==> !gitworker::has_bad_hash(
                #[trigger] text::lines_of(listing@)[j],
            ),
        0 <= i <= text::lines_of(listing@).len(),
        i < text::lines_of(listing@).len() ==> text::words_of(text::lines_of(listing@)[i]).len()
            == 2 && text::words_of(text::lines_of(listing@)[i])[1] == stage.remote(),
        forall|j: int|
            0 <= j < text::lines_of(listing@).len() && (j > i || i == text::lines_of(
                listing@,
            ).len()) && text::words_of(#[trigger] text::lines_of(listing@)[j]).len() == 2
                ==> text::words_of(text::lines_of(listing@)[j])[1] != stage.remote(),
    ensures
        i == text::lines_of(listing@).len() ==> (outcome matches Err(GitError::NoLocalRef(t)) && t@
            == stage.local()),
        i < text::lines_of(listing@).len() ==> {
            let head = text::words_of(text::lines_of(listing@)[i])[0];
            let had = manifest::as_map(worker.refs());
            &&& outcome matches Ok(s)
            &&& s.remote() == stage.remote()
            &&& s.head() == head
            &&& !had.dom().contains(stage.remote()) ==> s.range() == head + "\n"@
            &&& had.dom().contains(stage.remote()) ==> s.range() == "^"@ + had[stage.remote()]
                + "\n"@ + head + "\n"@
        },
{
    let list = text::lines_of(listing@);
    gitworker::law_first_bad_hash_is_complained_of(list, list.len() as int);
    if i < list.len() {
        gitworker::law_every_line_of_a_listing_counts(list, i);
    } else {
        gitworker::law_nothing_else_is_read_from_a_listing(list, stage.remote());
    }
}

/// A packfile is stored under its own random name, encrypted under the master key,
/// where Git made it; and it is stored for the same reference and commit.
pub proof fn law_packfile_is_stored_under_its_own_name(
    stage: PackStage,
    worker: GitWorker,
    success: bool,
    pack: &[u8],
    stored: Result<StoreStage, GitError>,
    path: &str,
    contents: &[u8],
)
    requires
        call_ensures(PackStage::packed, (stage, &worker, success, pack), stored),
        stored is Ok,
        call_ensures(StoreStage::path, (&stored->Ok_0,), path),
        call_ensures(StoreStage::contents, (&stored->Ok_0,), contents),
    ensures
        success,
        path@ == "objects/pack-"@ + stored->Ok_0.id() + ".pack.enc"@,
        outside::is_random_uuid(stored->Ok_0.id()),
        cryptworker::decrypted(contents@, worker.key()) == Ok::<Seq<u8>, CryptError>(pack@),
        stored->Ok_0.remote() == stage.remote(),
        stored->Ok_0.head() == stage.head(),
        stored->Ok_0.packfile().path == path@,
        stored->Ok_0.packfile().id == stored->Ok_0.id(),
        stored->Ok_0.packfile().contains_commits == seq![stage.head()],
{
}

/// A push is done only when the manifest is saved and the state is where it is
/// kept; whatever the storage complains of before that is why it failed.
pub proof fn law_push_is_done_only_with_the_storage(
    unsaved: SaveStage,
    save: Result<(), StorageError>,
    saved: Result<SyncStage, GitError>,
    sync: Result<(), StorageError>,
    remote: Result<String, GitError>,
)
    requires
        call_ensures(SaveStage::saved, (unsaved, save), saved),
        saved is Ok ==> call_ensures(SyncStage::synced, (saved->Ok_0, sync), remote),
    ensures
        saved is Ok <==> save is Ok,
        save matches Err(e) ==> saved == Err::<SyncStage, GitError>(GitError::Storage(e)),
        saved is Ok ==> (remote is Ok <==> sync is Ok),
        saved is Ok ==> (remote matches Ok(r) ==> r@ == unsaved.remote()),
        saved is Ok ==> (sync matches Err(e) ==> remote == Err::<String, GitError>(
            GitError::Storage(e),
        )),
{
}

/// A deletion takes the reference away, and nothing else.
pub proof fn law_deletion_takes_the_reference_away(
    stage: DeleteStage,
    worker: &mut GitWorker,
    next: SaveStage,
    other: Seq<char>,
)
    requires
        call_ensures(DeleteStage::delete, (stage, worker), next),
    ensures
        ({
            let before = manifest::as_map(old(worker).refs());
            let after = manifest::as_map(final(worker).refs());
            &&& !after.dom().contains(stage.remote())
            &&& other != stage.remote() ==> (after.dom().contains(other) <==> before.dom().contains(
                other,
            ))
            &&& other != stage.remote() && before.dom().contains(other) ==> after[other]
                == before[other]
        }),
        final(worker).packs() == old(worker).packs(),
        final(worker).key() == old(worker).key(),
        next.remote() == stage.remote(),
{
}

/// A packfile that is stored lets its reference name its commit and every other as
/// before, and comes last among the packfiles; one that is not stored changes
/// nothing.
pub proof fn law_stored_packfile_is_noted(
    stage: StoreStage,
    worker: &mut GitWorker,
    outcome: Result<(), StorageError>,
    next: Result<SaveStage, GitError>,
    other: Seq<char>,
    i: int,
)
    requires
        call_ensures(StoreStage::stored, (stage, worker, outcome), next),
    ensures
        outcome matches Err(e) ==> *final(worker) == *old(worker) && next == Err::<
            SaveStage,
            GitError,
        >(GitError::Storage(e)),
        outcome is Ok ==> {
            let before = manifest::as_map(old(worker).refs());
            let after = manifest::as_map(final(worker).refs());
            let packs = final(worker).packs();
            &&& next matches Ok(s)
            &&& s.remote() == stage.remote()
            &&& after.dom().contains(stage.remote())
            &&& after[stage.remote()] == stage.head()
            &&& other != stage.remote() ==> (after.dom().contains(other) <==> before.dom().contains(
                other,
            ))
            &&& other != stage.remote() && before.dom().contains(other) ==> after[other]
                == before[other]
            &&& packs.len() == old(worker).packs().len() + 1
            &&& 0 <= i < old(worker).packs().len() ==> packs[i] == old(worker).packs()[i]
            &&& packs.last().id == stage.id()
            &&& packs.last().path == "objects/pack-"@ + stage.id() + ".pack.enc"@
            &&& packs.last().contains_commits == seq![stage.head()]
            &&& final(worker).key() == old(worker).key()
        },
{
}

/// Git is told what it is to list and to pack.
pub proof fn law_git_is_told_what_to_pack(
    resolving: ResolveStage,
    listing: Vec<String>,
    packing: PackStage,
    args: Vec<String>,
    input: String,
)
    requires
        call_ensures(ResolveStage::listing_args, (&resolving,), listing),
        call_ensures(PackStage::packing_args, (&packing,), args),
        call_ensures(PackStage::packing_input, (&packing,), input),
    ensures
        text::texts(listing@) == seq!["ls-remote"@, "--heads"@, "."@],
        text::texts(args@) == seq![
            "pack-objects"@,
            "--stdout"@,
            "--revs"@,
            "--thin"@,
            "--delta-base-offset"@,
        ],
        input@ == packing.range() + "\n"@,
{
}

} // verus!
