//! Storage in a Git repository, by way of a local cache.
//!
//! The cache is a clone whose working tree holds the files.  Git is run by the
//! caller: each operation here is a function from what happened last to what is
//! to be done next.

use crate::outside;
use crate::outside::url_safe_encode;
use crate::paths;
use crate::paths::join_path;
use crate::storage::local::LocalStorage;
use crate::storage::{StorageError, StorageFault};
use crate::text;
use crate::text::{
    contains, join2, join3, lines, list1, list2, list3, list4, same_text, starts_with, trim,
};
use vstd::prelude::*;

verus! {

/// Storage in a Git repository.
#[derive(Debug)]
pub struct GitStorage {
    local: LocalStorage,
    remote_url: String,
}

impl Clone for GitStorage {
    fn clone(&self) -> (copy: Self)
        ensures
            copy.cache() == self.cache(),
            copy.url() == self.url(),
    {
        GitStorage { local: self.local.clone(), remote_url: self.remote_url.clone() }
    }
}

/// Where the cache of a Git repository is.
pub open spec fn cache_path(cache_base: Seq<char>, repo_path: Seq<char>) -> Seq<char> {
    paths::joined(cache_base, "pqcrypt"@) + "/"@ + outside::url_safe_text(
        vstd::utf8::encode_utf8(repo_path),
    )
}

/// Whether a variable of the environment would point Git to another repository
/// than the cache.
pub fn is_git_variable(name: &str) -> (yes: bool)
    ensures
        yes == "GIT_"@.is_prefix_of(name@),
{
    starts_with(name, "GIT_")
}

impl GitStorage {
    /// The path of the cache.
    pub closed spec fn cache(self) -> Seq<char> {
        self.local@
    }

    /// The URL of the repository.
    pub closed spec fn url(self) -> Seq<char> {
        self.remote_url@
    }

    /// The storage in the repository at `repo_path`, with its cache under the
    /// cache directory of the system.  No two repositories share a cache.
    pub fn new(cache_base: Option<String>, repo_path: &str) -> (storage: Result<Self, StorageError>)
        ensures
            cache_base is None ==> (storage matches Err(e) && e@ == StorageFault::Other(
                "Could not determine system cache directory"@,
            )),
            cache_base matches Some(base) ==> {
                &&& storage matches Ok(s)
                &&& s.url() == repo_path@
                &&& s.cache() == cache_path(base@, repo_path@)
                &&& forall|other: Seq<char>| #[trigger]
                    cache_path(base@, other) == s.cache() ==> other == repo_path@
            },
    {
        match cache_base {
            None => Err(
                StorageError::Other("Could not determine system cache directory".to_owned()),
            ),
            Some(base) => {
                let name = url_safe_encode(repo_path.as_bytes());
                let directory = join_path(base.as_str(), "pqcrypt");
                let cache = join_path(directory.as_str(), name.as_str());
                proof {
                    reveal_strlit("pqcrypt");
                    assert(directory@.last() == 't');
                    assert(name@.len() > 0 ==> outside::is_url_safe(name@[0]));
                    assert(cache@ == cache_path(base@, repo_path@));
                    assert forall|other: Seq<char>| #[trigger]
                        cache_path(base@, other) == cache@ implies other == repo_path@ by {
                        let other_name = outside::url_safe_text(vstd::utf8::encode_utf8(other));
                        let front = (directory@ + "/"@).len() as int;
                        assert(cache_path(base@, other).skip(front) =~= other_name);
                        assert(cache@.skip(front) =~= name@);
                        vstd::utf8::encode_utf8_decode_utf8(other);
                        vstd::utf8::encode_utf8_decode_utf8(repo_path@);
                    }
                }
                let local = LocalStorage::new(cache.as_str());
                let storage = GitStorage { local, remote_url: repo_path.to_owned() };
                Ok(storage)
            },
        }
    }

    /// The files of the cache.
    pub fn files(&self) -> (local: &LocalStorage)
        ensures
            local@ == self.cache(),
    {
        &self.local
    }
}

/// What a run of Git gave back.
#[derive(Debug)]
pub struct GitOutput {
    /// Whether Git reported success.
    pub success: bool,
    /// What it printed.
    pub stdout: String,
    /// What it complained of.
    pub stderr: String,
}

/// What happened on the way to a usable cache.
#[derive(Debug)]
pub enum CacheEvent {
    /// The cache is wanted; whether its directory has a Git directory.
    Wanted { git_dir_exists: bool },
    /// Git was asked whether the cache is a repository.
    Checked { valid: bool },
    /// Git was asked to set the URL of the repository.
    OriginSet { success: bool },
    /// Git could not be run for that; the system says why.
    SetOriginFailed(String),
    /// A broken cache was removed.
    Removed,
    /// A broken cache could not be removed; the system says why.
    RemoveFailed(String),
    /// The directory of the cache was made.
    DirectoryMade,
    /// The directory of the cache could not be made; the system says why.
    DirectoryFailed(String),
    /// Git was asked to make a repository of the directory.
    Initialized { success: bool },
    /// Git could not be run for that; the system says why.
    InitializeFailed(String),
    /// Git was asked to add the URL of the repository.
    OriginAdded { success: bool },
    /// Git could not be run for that; the system says why.
    AddOriginFailed(String),
}

/// What is to be done next on the way to a usable cache.
#[derive(Debug)]
pub enum CacheAction {
    /// Run Git with these arguments to see whether the cache is a repository.
    Check(Vec<String>),
    /// Run Git with these arguments to set the URL of the repository.
    SetOrigin(Vec<String>),
    /// Tell the user this, and remove the directory.
    Remove(String),
    /// Make the directory.
    MakeDirectory,
    /// Run Git with these arguments to make a repository.
    Initialize(Vec<String>),
    /// Run Git with these arguments to add the URL of the repository.
    AddOrigin(Vec<String>),
    /// Nothing: the cache is a repository with the right URL.
    Ready,
    /// Nothing: there is no usable cache.
    Fail(StorageError),
}

/// What a `CacheAction` stands for.
pub enum CacheStep {
    Check(Seq<Seq<char>>),
    SetOrigin(Seq<Seq<char>>),
    Remove(Seq<char>),
    MakeDirectory,
    Initialize(Seq<Seq<char>>),
    AddOrigin(Seq<Seq<char>>),
    Ready,
    Fail(StorageFault),
}

impl View for CacheAction {
    type V = CacheStep;

    open spec fn view(&self) -> CacheStep {
        match *self {
            CacheAction::Check(args) => CacheStep::Check(text::texts(args@)),
            CacheAction::SetOrigin(args) => CacheStep::SetOrigin(text::texts(args@)),
            CacheAction::Remove(warning) => CacheStep::Remove(warning@),
            CacheAction::MakeDirectory => CacheStep::MakeDirectory,
            CacheAction::Initialize(args) => CacheStep::Initialize(text::texts(args@)),
            CacheAction::AddOrigin(args) => CacheStep::AddOrigin(text::texts(args@)),
            CacheAction::Ready => CacheStep::Ready,
            CacheAction::Fail(e) => CacheStep::Fail(e@),
        }
    }
}

/// The arguments with which Git sets the URL of a repository that has one.
pub open spec fn setting_origin(url: Seq<char>) -> Seq<Seq<char>> {
    seq!["remote"@, "set-url"@, "origin"@, url]
}

/// The arguments with which Git adds the URL of a repository that has none.
pub open spec fn adding_origin(url: Seq<char>) -> Seq<Seq<char>> {
    seq!["remote"@, "add"@, "origin"@, url]
}

/// What is to be done next on the way to a usable cache: one that is a
/// repository gets the right URL, any other is made anew.
pub open spec fn cache_step(event: CacheEvent, cache: Seq<char>, url: Seq<char>) -> CacheStep {
    match event {
        CacheEvent::Wanted { git_dir_exists } => if git_dir_exists {
            CacheStep::Check(seq!["rev-parse"@, "--git-dir"@])
        } else {
            CacheStep::MakeDirectory
        },
        CacheEvent::Checked { valid } => if valid {
            CacheStep::SetOrigin(setting_origin(url))
        } else {
            CacheStep::Remove("warning: Cache repo corrupted at "@ + cache + ", recreating..."@)
        },
        CacheEvent::OriginSet { success } => if success {
            CacheStep::Ready
        } else {
            CacheStep::AddOrigin(adding_origin(url))
        },
        CacheEvent::SetOriginFailed(e) => CacheStep::Fail(StorageFault::Io(e@)),
        CacheEvent::Removed => CacheStep::MakeDirectory,
        CacheEvent::RemoveFailed(e) => CacheStep::Fail(StorageFault::Io(e@)),
        CacheEvent::DirectoryMade => CacheStep::Initialize(seq!["init"@]),
        CacheEvent::DirectoryFailed(e) => CacheStep::Fail(StorageFault::Io(e@)),
        CacheEvent::Initialized { success } => if success {
            CacheStep::AddOrigin(adding_origin(url))
        } else {
            CacheStep::Fail(StorageFault::Other("Failed to run git init"@))
        },
        CacheEvent::InitializeFailed(e) => CacheStep::Fail(StorageFault::Io(e@)),
        CacheEvent::OriginAdded { success } => if success {
            CacheStep::Ready
        } else {
            CacheStep::Fail(StorageFault::Other("Failed to set the origin of the cache repo"@))
        },
        CacheEvent::AddOriginFailed(e) => CacheStep::Fail(StorageFault::Io(e@)),
    }
}

impl GitStorage {
    /// What is to be done next on the way to a usable cache.
    pub fn ensure_cache_repo(&self, event: CacheEvent) -> (action: CacheAction)
        ensures
            action@ == cache_step(event, self.cache(), self.url()),
    {
        match event {
            CacheEvent::Wanted { git_dir_exists } => if git_dir_exists {
                CacheAction::Check(list2("rev-parse", "--git-dir"))
            } else {
                CacheAction::MakeDirectory
            },
            CacheEvent::Checked { valid } => if valid {
                CacheAction::SetOrigin(
                    list4("remote", "set-url", "origin", self.remote_url.as_str()),
                )
            } else {
                CacheAction::Remove(
                    join3(
                        "warning: Cache repo corrupted at ",
                        self.local.root(),
                        ", recreating...",
                    ),
                )
            },
            CacheEvent::OriginSet { success } => if success {
                CacheAction::Ready
            } else {
                CacheAction::AddOrigin(list4("remote", "add", "origin", self.remote_url.as_str()))
            },
            CacheEvent::SetOriginFailed(e) => CacheAction::Fail(StorageError::Io(e)),
            CacheEvent::Removed => CacheAction::MakeDirectory,
            CacheEvent::RemoveFailed(e) => CacheAction::Fail(StorageError::Io(e)),
            CacheEvent::DirectoryMade => CacheAction::Initialize(list1("init")),
            CacheEvent::DirectoryFailed(e) => CacheAction::Fail(StorageError::Io(e)),
            CacheEvent::Initialized { success } => if success {
                CacheAction::AddOrigin(list4("remote", "add", "origin", self.remote_url.as_str()))
            } else {
                CacheAction::Fail(StorageError::Other("Failed to run git init".to_owned()))
            },
            CacheEvent::InitializeFailed(e) => CacheAction::Fail(StorageError::Io(e)),
            CacheEvent::OriginAdded { success } => if success {
                CacheAction::Ready
            } else {
                CacheAction::Fail(
                    StorageError::Other("Failed to set the origin of the cache repo".to_owned()),
                )
            },
            CacheEvent::AddOriginFailed(e) => CacheAction::Fail(StorageError::Io(e)),
        }
    }
}

/// Whether an event can come of a step.
pub open spec fn comes_of(event: CacheEvent, step: CacheStep) -> bool {
    match event {
        CacheEvent::Wanted { .. } => false,
        CacheEvent::Checked { .. } => step is Check,
        CacheEvent::OriginSet { .. } => step is SetOrigin,
        CacheEvent::SetOriginFailed(_) => step is SetOrigin,
        CacheEvent::Removed => step is Remove,
        CacheEvent::RemoveFailed(_) => step is Remove,
        CacheEvent::DirectoryMade => step is MakeDirectory,
        CacheEvent::DirectoryFailed(_) => step is MakeDirectory,
        CacheEvent::Initialized { .. } => step is Initialize,
        CacheEvent::InitializeFailed(_) => step is Initialize,
        CacheEvent::OriginAdded { .. } => step is AddOrigin,
        CacheEvent::AddOriginFailed(_) => step is AddOrigin,
    }
}

/// Whether events are those of one way to a usable cache, or of its beginning:
/// the cache is wanted, and each later event comes of the step before.
pub open spec fn is_way_to_cache(
    events: Seq<CacheEvent>,
    cache: Seq<char>,
    url: Seq<char>,
) -> bool {
    &&& events.len() > 0
    &&& events[0] is Wanted
    &&& forall|i: int|
        0 < i < events.len() ==> comes_of(
            #[trigger] events[i],
            cache_step(events[i - 1], cache, url),
        )
}

/// Whether Git was seen to succeed at giving the cache its URL.
pub open spec fn origin_was_given(event: CacheEvent, step: CacheStep, url: Seq<char>) -> bool {
    ||| event == (CacheEvent::OriginSet { success: true }) && step == CacheStep::SetOrigin(
        setting_origin(url),
    )
    ||| event == (CacheEvent::OriginAdded { success: true }) && step == CacheStep::AddOrigin(
        adding_origin(url),
    )
}

/// A cache that is ready has the right URL: whichever way led there, its last
/// step was to set or to add the URL of the repository, and Git succeeded.
pub proof fn law_ready_cache_has_the_right_url(
    events: Seq<CacheEvent>,
    cache: Seq<char>,
    url: Seq<char>,
)
    requires
        is_way_to_cache(events, cache, url),
        cache_step(events.last(), cache, url) is Ready,
    ensures
        events.len() > 1,
        origin_was_given(
            events.last(),
            cache_step(events[events.len() - 2], cache, url),
            url,
        ),
        setting_origin(url).last() == url,
        adding_origin(url).last() == url,
{
    let last = events.len() - 1;
    assert(comes_of(events[last], cache_step(events[last - 1], cache, url)));
}

/// A cache that is ready is a repository: on the way, Git either found it to be
/// one or made it one.
pub proof fn law_ready_cache_is_a_repository(
    events: Seq<CacheEvent>,
    cache: Seq<char>,
    url: Seq<char>,
)
    requires
        is_way_to_cache(events, cache, url),
        cache_step(events.last(), cache, url) is Ready,
    ensures
        exists|i: int|
            0 <= i < events.len() && (#[trigger] events[i] == (CacheEvent::Checked { valid: true })
                || events[i] == (CacheEvent::Initialized { success: true })),
{
    let last = events.len() - 1;
    assert(comes_of(events[last], cache_step(events[last - 1], cache, url)));
    if events[last] is OriginAdded && events[last - 1] is OriginSet {
        assert(comes_of(events[last - 1], cache_step(events[last - 2], cache, url)));
        assert(events[last - 2] == (CacheEvent::Checked { valid: true }));
    }
}

/// A broken cache is made anew from scratch: a way that finds it broken and ends
/// with it ready removes it, makes its directory, and has Git make a repository
/// of that and add the right URL.
pub proof fn law_broken_cache_is_made_anew(
    events: Seq<CacheEvent>,
    broken: int,
    cache: Seq<char>,
    url: Seq<char>,
)
    requires
        is_way_to_cache(events, cache, url),
        cache_step(events.last(), cache, url) is Ready,
        0 <= broken < events.len(),
        events[broken] == (CacheEvent::Checked { valid: false }),
    ensures
        events.len() == broken + 5,
        events[broken + 1] is Removed,
        events[broken + 2] is DirectoryMade,
        events[broken + 3] == (CacheEvent::Initialized { success: true }),
        events[broken + 4] == (CacheEvent::OriginAdded { success: true }),
{
    let last = events.len() - 1;
    assert(last > broken);
    assert(comes_of(events[broken + 1], cache_step(events[broken], cache, url)));
    assert(last > broken + 1);
    assert(comes_of(events[broken + 2], cache_step(events[broken + 1], cache, url)));
    assert(last > broken + 2);
    assert(comes_of(events[broken + 3], cache_step(events[broken + 2], cache, url)));
    assert(last > broken + 3);
    assert(comes_of(events[broken + 4], cache_step(events[broken + 3], cache, url)));
    if last > broken + 4 {
        assert(comes_of(events[broken + 5], cache_step(events[broken + 4], cache, url)));
    }
}

/// A cache that is a repository keeps its files: none is removed on a way that
/// finds it to be one.
pub proof fn law_valid_cache_keeps_its_files(
    events: Seq<CacheEvent>,
    valid: int,
    i: int,
    cache: Seq<char>,
    url: Seq<char>,
)
    requires
        is_way_to_cache(events, cache, url),
        0 <= valid < events.len(),
        events[valid] == (CacheEvent::Checked { valid: true }),
        0 <= i < events.len(),
    ensures
        !(cache_step(events[i], cache, url) is Remove),
{
    if cache_step(events[i], cache, url) is Remove {
        lemma_check_comes_second(events, i, cache, url);
        lemma_check_comes_second(events, valid, cache, url);
    }
}

/// Git is asked whether the cache is a repository once, at first.
proof fn lemma_check_comes_second(
    events: Seq<CacheEvent>,
    i: int,
    cache: Seq<char>,
    url: Seq<char>,
)
    requires
        is_way_to_cache(events, cache, url),
        0 <= i < events.len(),
        events[i] is Checked,
    ensures
        i == 1,
{
    assert(i > 0);
    assert(comes_of(events[i], cache_step(events[i - 1], cache, url)));
    if i > 1 {
        assert(comes_of(events[i - 1], cache_step(events[i - 2], cache, url)));
    }
}

/// The commands that a list of command lines stands for.
pub open spec fn commands(list: Seq<Vec<String>>) -> Seq<Seq<Seq<char>>> {
    Seq::new(list.len(), |i: int| text::texts(list[i]@))
}

/// What happened on the way of a state to the repository.
#[derive(Debug)]
pub enum PushEvent {
    /// The state is to be pushed; which of its files are there.
    Wanted { keys: bool, manifest: bool, objects: bool },
    /// The files were staged.
    Staged,
    /// Git was asked whether anything is staged.
    Compared { nothing_staged: bool },
    /// Git was asked to commit.
    Committed(GitOutput),
    /// Git was asked to push.
    Pushed(GitOutput),
    /// Git could not be run; the system says why.
    NotRun(String),
}

/// What is to be done next on the way of a state to the repository.
#[derive(Debug)]
pub enum PushAction {
    /// Run Git once with each of these command lines, whatever it reports.
    Stage(Vec<Vec<String>>),
    /// Run Git with these arguments to see whether anything is staged.
    Compare(Vec<String>),
    /// Run Git with these arguments to commit.
    Commit(Vec<String>),
    /// Run Git with these arguments to push.
    Push(Vec<String>),
    /// Nothing: the repository has the state.
    Done,
    /// Nothing: the repository has not got the state.
    Fail(StorageError),
}

/// What a `PushAction` stands for.
pub enum PushStep {
    Stage(Seq<Seq<Seq<char>>>),
    Compare(Seq<Seq<char>>),
    Commit(Seq<Seq<char>>),
    Push(Seq<Seq<char>>),
    Done,
    Fail(StorageFault),
}

impl View for PushAction {
    type V = PushStep;

    open spec fn view(&self) -> PushStep {
        match *self {
            PushAction::Stage(list) => PushStep::Stage(commands(list@)),
            PushAction::Compare(args) => PushStep::Compare(text::texts(args@)),
            PushAction::Commit(args) => PushStep::Commit(text::texts(args@)),
            PushAction::Push(args) => PushStep::Push(text::texts(args@)),
            PushAction::Done => PushStep::Done,
            PushAction::Fail(e) => PushStep::Fail(e@),
        }
    }
}

/// The command line that stages a file where it is there.
pub open spec fn staging(path: Seq<char>, exists: bool) -> Seq<Seq<Seq<char>>> {
    if exists {
        seq![seq!["add"@, "--force"@, path]]
    } else {
        Seq::empty()
    }
}

/// What a commit comes to that Git did not make: no fault where there was
/// nothing to commit, and a hint where Git does not know the user.
pub open spec fn failed_commit(stderr: Seq<char>) -> PushStep {
    if text::holds(stderr, "nothing to commit"@) {
        PushStep::Done
    } else if text::holds(stderr, "user.name"@) || text::holds(stderr, "user.email"@) {
        PushStep::Fail(
            StorageFault::Other(
                "Git identity not configured. Please run:\n  git config --global user.name \"Your Name\"\n  git config --global user.email \"you@example.com\""@,
            ),
        )
    } else {
        PushStep::Fail(StorageFault::Other("Failed to commit state.\nDetails:\n"@ + stderr))
    }
}

/// What a push comes to that Git did not make.
pub open spec fn failed_push(stderr: Seq<char>) -> StorageFault {
    if text::holds(stderr, "rejected"@) || text::holds(stderr, "non-fast-forward"@) {
        StorageFault::Other(
            "Push rejected (non-fast-forward). Please sync first.\nDetails:\n"@ + stderr,
        )
    } else {
        StorageFault::Other(
            "Failed to push state to remote Git repository.\nDetails:\n"@ + stderr,
        )
    }
}

/// What is to be done next on the way of a state to the repository: stage what
/// is there, and where that changed anything, commit and push it.
pub open spec fn push_step(event: PushEvent) -> PushStep {
    match event {
        PushEvent::Wanted { keys, manifest, objects } => PushStep::Stage(
            staging("keys.json"@, keys) + staging("manifest.enc"@, manifest) + staging(
                "objects/"@,
                objects,
            ),
        ),
        PushEvent::Staged => PushStep::Compare(seq!["diff"@, "--cached"@, "--quiet"@]),
        PushEvent::Compared { nothing_staged } => if nothing_staged {
            PushStep::Done
        } else {
            PushStep::Commit(seq!["commit"@, "-m"@, "pqcrypt: state update"@])
        },
        PushEvent::Committed(output) => if output.success {
            PushStep::Push(seq!["push"@, "origin"@, "HEAD"@])
        } else {
            failed_commit(output.stderr@)
        },
        PushEvent::Pushed(output) => if output.success {
            PushStep::Done
        } else {
            PushStep::Fail(failed_push(output.stderr@))
        },
        PushEvent::NotRun(e) => PushStep::Fail(StorageFault::Io(e@)),
    }
}

/// The command lines that stage what is there.
fn staging_commands(keys: bool, manifest: bool, objects: bool) -> (list: Vec<Vec<String>>)
    ensures
        commands(list@) == staging("keys.json"@, keys) + staging("manifest.enc"@, manifest)
            + staging("objects/"@, objects),
{
    let mut list: Vec<Vec<String>> = Vec::new();
    assert(commands(list@) =~= Seq::empty());
    if keys {
        let ghost before = commands(list@);
        list.push(list3("add", "--force", "keys.json"));
        assert(commands(list@) =~= before + staging("keys.json"@, true));
    }
    assert(commands(list@) =~= staging("keys.json"@, keys));
    if manifest {
        let ghost before = commands(list@);
        list.push(list3("add", "--force", "manifest.enc"));
        assert(commands(list@) =~= before + staging("manifest.enc"@, true));
    }
    assert(commands(list@) =~= staging("keys.json"@, keys) + staging("manifest.enc"@, manifest));
    if objects {
        let ghost before = commands(list@);
        list.push(list3("add", "--force", "objects/"));
        assert(commands(list@) =~= before + staging("objects/"@, true));
    }
    assert(commands(list@) =~= staging("keys.json"@, keys) + staging("manifest.enc"@, manifest)
        + staging("objects/"@, objects));
    list
}

/// What a commit comes to that Git did not make.
fn after_failed_commit(stderr: &str) -> (action: PushAction)
    ensures
        action@ == failed_commit(stderr@),
{
    if contains(stderr, "nothing to commit") {
        return PushAction::Done;
    }
    if contains(stderr, "user.name") || contains(stderr, "user.email") {
        return PushAction::Fail(
            StorageError::Other(
                "Git identity not configured. Please run:\n  git config --global user.name \"Your Name\"\n  git config --global user.email \"you@example.com\"".to_owned(),
            ),
        );
    }
    PushAction::Fail(StorageError::Other(join2("Failed to commit state.\nDetails:\n", stderr)))
}

/// What a push comes to that Git did not make.
fn after_failed_push(stderr: &str) -> (error: StorageError)
    ensures
        error@ == failed_push(stderr@),
{
    if contains(stderr, "rejected") || contains(stderr, "non-fast-forward") {
        StorageError::Other(
            join2("Push rejected (non-fast-forward). Please sync first.\nDetails:\n", stderr),
        )
    } else {
        StorageError::Other(
            join2("Failed to push state to remote Git repository.\nDetails:\n", stderr),
        )
    }
}

impl GitStorage {
    /// What is to be done next on the way of a state to the repository.
    pub fn do_push_sync(&self, event: PushEvent) -> (action: PushAction)
        ensures
            action@ == push_step(event),
    {
        match event {
            PushEvent::Wanted { keys, manifest, objects } => PushAction::Stage(
                staging_commands(keys, manifest, objects),
            ),
            PushEvent::Staged => PushAction::Compare(list3("diff", "--cached", "--quiet")),
            PushEvent::Compared { nothing_staged } => if nothing_staged {
                PushAction::Done
            } else {
                PushAction::Commit(list3("commit", "-m", "pqcrypt: state update"))
            },
            PushEvent::Committed(output) => if output.success {
                PushAction::Push(list3("push", "origin", "HEAD"))
            } else {
                after_failed_commit(output.stderr.as_str())
            },
            PushEvent::Pushed(output) => if output.success {
                PushAction::Done
            } else {
                PushAction::Fail(after_failed_push(output.stderr.as_str()))
            },
            PushEvent::NotRun(e) => PushAction::Fail(StorageError::Io(e)),
        }
    }
}

/// Whether an event can come of a step on the way to the repository.
pub open spec fn push_event_comes_of(event: PushEvent, step: PushStep) -> bool {
    match event {
        PushEvent::Wanted { .. } => false,
        PushEvent::Staged => step is Stage,
        PushEvent::Compared { .. } => step is Compare,
        PushEvent::Committed(_) => step is Commit,
        PushEvent::Pushed(_) => step is Push,
        PushEvent::NotRun(_) => !(step is Done || step is Fail),
    }
}

/// Whether events are those of one way of a state to the repository, or of its
/// beginning: the push is wanted, and each later event comes of the step before.
pub open spec fn is_way_to_repository(events: Seq<PushEvent>) -> bool {
    &&& events.len() > 0
    &&& events[0] is Wanted
    &&& forall|i: int|
        0 < i < events.len() ==> push_event_comes_of(
            #[trigger] events[i],
            push_step(events[i - 1]),
        )
}

/// Whether a way ends because nothing was staged.
pub open spec fn stages_nothing(events: Seq<PushEvent>) -> bool {
    &&& events.len() == 3
    &&& events[1] is Staged
    &&& events[2] == (PushEvent::Compared { nothing_staged: true })
}

/// Whether a way ends because Git refused to commit nothing.
pub open spec fn commits_nothing(events: Seq<PushEvent>) -> bool {
    &&& events.len() == 4
    &&& events[1] is Staged
    &&& events[2] == (PushEvent::Compared { nothing_staged: false })
    &&& events[3] matches PushEvent::Committed(commit)
    &&& !commit.success
    &&& text::holds(commit.stderr@, "nothing to commit"@)
}

/// Whether a way ends because Git made a commit and then pushed it.
pub open spec fn commits_and_pushes(events: Seq<PushEvent>) -> bool {
    &&& events.len() == 5
    &&& events[1] is Staged
    &&& events[2] == (PushEvent::Compared { nothing_staged: false })
    &&& events[3] matches PushEvent::Committed(commit)
    &&& commit.success
    &&& events[4] matches PushEvent::Pushed(push)
    &&& push.success
}

/// A push is done in one of three ways only, each of which stages what is there
/// and compares first: nothing was staged, or Git refused to commit nothing, or
/// Git made a commit and then pushed it.
pub proof fn law_push_is_done_when_the_repository_has_the_state(events: Seq<PushEvent>)
    requires
        is_way_to_repository(events),
        push_step(events.last()) is Done,
    ensures
        stages_nothing(events) || commits_nothing(events) || commits_and_pushes(events),
{
    let last = events.len() - 1;
    assert(last > 0);
    assert(push_event_comes_of(events[1], push_step(events[0])));
    assert(last > 1);
    assert(push_event_comes_of(events[2], push_step(events[1])));
    if last > 2 {
        assert(push_event_comes_of(events[3], push_step(events[2])));
    }
    if last > 3 {
        assert(push_event_comes_of(events[4], push_step(events[3])));
    }
    if last > 4 {
        assert(push_event_comes_of(events[5], push_step(events[4])));
    }
}

/// What happened on the way of the repository's state to the cache.
#[derive(Debug)]
pub enum FetchEvent {
    /// The state is to be fetched, and the cache is usable.
    Wanted,
    /// Git was asked to fetch.
    Fetched(GitOutput),
    /// Git was asked for the branches that it fetched.
    Listed(GitOutput),
    /// Git was asked to set the cache to a branch.
    Reset { target: String, output: GitOutput },
    /// The cache was emptied.
    Cleaned,
    /// Git could not be run; the system says why.
    NotRun(String),
}

/// What is to be done next on the way of the repository's state to the cache.
#[derive(Debug)]
pub enum FetchAction {
    /// Run Git with these arguments to fetch.
    Fetch(Vec<String>),
    /// Run Git with these arguments to list branches.
    List(Vec<String>),
    /// Run Git with these arguments, the last of which is the branch.
    Reset(Vec<String>),
    /// Run Git once with each of these command lines, whatever comes of it.
    Clean(Vec<Vec<String>>),
    /// Nothing: the cache has the state.
    Done,
    /// Nothing: the cache has not got the state.
    Fail(StorageError),
}

/// What a `FetchAction` stands for.
pub enum FetchStep {
    Fetch(Seq<Seq<char>>),
    List(Seq<Seq<char>>),
    Reset(Seq<Seq<char>>),
    Clean(Seq<Seq<Seq<char>>>),
    Done,
    Fail(StorageFault),
}

impl View for FetchAction {
    type V = FetchStep;

    open spec fn view(&self) -> FetchStep {
        match *self {
            FetchAction::Fetch(args) => FetchStep::Fetch(text::texts(args@)),
            FetchAction::List(args) => FetchStep::List(text::texts(args@)),
            FetchAction::Reset(args) => FetchStep::Reset(text::texts(args@)),
            FetchAction::Clean(list) => FetchStep::Clean(commands(list@)),
            FetchAction::Done => FetchStep::Done,
            FetchAction::Fail(e) => FetchStep::Fail(e@),
        }
    }
}

/// The lines of a text, without the white space at their ends.
pub open spec fn trimmed_lines(listing: Seq<char>) -> Seq<Seq<char>> {
    Seq::new(text::lines_of(listing).len(), |i: int| text::trimmed(text::lines_of(listing)[i]))
}

/// The first branch that is no alias of another.
pub open spec fn first_branch(branches: Seq<Seq<char>>) -> Option<Seq<char>>
    decreases branches.len(),
{
    if branches.len() == 0 {
        None
    } else if text::holds(branches[0], "->"@) {
        first_branch(branches.drop_first())
    } else {
        Some(branches[0])
    }
}

/// The branch that holds the state: `main`, or else `master`, or else the first
/// that is no alias of another.
pub open spec fn state_branch(branches: Seq<Seq<char>>) -> Option<Seq<char>> {
    if branches.contains("origin/main"@) {
        Some("origin/main"@)
    } else if branches.contains("origin/master"@) {
        Some("origin/master"@)
    } else {
        first_branch(branches)
    }
}

/// The command lines that empty the cache: tracked files, then the others.
pub open spec fn cleaning() -> Seq<Seq<Seq<char>>> {
    seq![
        seq!["rm"@, "-rf"@, "--ignore-unmatch"@, "."@],
        seq!["clean"@, "-fdx"@, "-e"@, ".git"@],
    ]
}

/// What is to be done next on the way of the repository's state to the cache:
/// an empty repository empties the cache, any other resets it.
pub open spec fn fetch_step(event: FetchEvent) -> FetchStep {
    match event {
        FetchEvent::Wanted => FetchStep::Fetch(seq!["fetch"@, "origin"@]),
        FetchEvent::Fetched(output) => if output.success {
            FetchStep::List(seq!["branch"@, "-r"@])
        } else if text::holds(output.stderr@, "no matching remote head"@) || text::holds(
            output.stderr@,
            "couldn't find remote ref"@,
        ) {
            FetchStep::Clean(cleaning())
        } else {
            FetchStep::Fail(
                StorageFault::Other(
                    "Failed to fetch from origin remote.\nDetails:\n"@ + output.stderr@,
                ),
            )
        },
        FetchEvent::Listed(output) => match state_branch(trimmed_lines(output.stdout@)) {
            Some(branch) if output.success => FetchStep::Reset(
                seq!["reset"@, "--hard"@, branch],
            ),
            _ => FetchStep::Clean(cleaning()),
        },
        FetchEvent::Reset { target, output } => if output.success {
            FetchStep::Done
        } else {
            FetchStep::Fail(
                StorageFault::Other(
                    "Failed to reset to "@ + target@ + ".\nDetails:\n"@ + output.stderr@,
                ),
            )
        },
        FetchEvent::Cleaned => FetchStep::Done,
        FetchEvent::NotRun(e) => FetchStep::Fail(StorageFault::Io(e@)),
    }
}

/// Whether a text is among others.
fn among(list: &Vec<String>, wanted: &str) -> (yes: bool)
    ensures
        yes == text::texts(list@).contains(wanted@),
{
    let mut i: usize = 0;
    while i < list.len()
        invariant
            i <= list@.len(),
            forall|j: int| 0 <= j < i ==> text::texts(list@)[j] != wanted@,
        decreases list@.len() - i,
    {
        assert(text::texts(list@)[i as int] == list@[i as int]@);
        if same_text(list[i].as_str(), wanted) {
            return true;
        }
        i = i + 1;
    }
    false
}

/// The lines of a text, without the white space at their ends.
fn trim_lines(listing: &str) -> (list: Vec<String>)
    ensures
        text::texts(list@) == trimmed_lines(listing@),
{
    let whole = lines(listing);
    let ghost all = text::lines_of(listing@);
    let mut list: Vec<String> = Vec::new();
    let mut i: usize = 0;
    while i < whole.len()
        invariant
            i <= whole@.len(),
            text::texts(whole@) == all,
            all == text::lines_of(listing@),
            list@.len() == i,
            forall|j: int| 0 <= j < i ==> (#[trigger] list@[j])@ == text::trimmed(all[j]),
        decreases whole@.len() - i,
    {
        assert(text::texts(whole@)[i as int] == whole@[i as int]@);
        list.push(trim(whole[i].as_str()));
        i = i + 1;
    }
    assert(text::texts(whole@).len() == whole@.len());
    assert(text::texts(list@) =~= trimmed_lines(listing@));
    list
}

/// The branch that holds the state, given the listing of branches.
pub fn choose_branch(listing: &str) -> (branch: Option<String>)
    ensures
        state_branch(trimmed_lines(listing@)) == match branch {
            Some(b) => Some(b@),
            None => None,
        },
{
    let branches = trim_lines(listing);
    if among(&branches, "origin/main") {
        return Some("origin/main".to_owned());
    }
    if among(&branches, "origin/master") {
        return Some("origin/master".to_owned());
    }
    let ghost all = text::texts(branches@);
    let mut i: usize = 0;
    assert(all.skip(0) =~= all);
    while i < branches.len()
        invariant
            i <= branches@.len(),
            all == text::texts(branches@),
            all == trimmed_lines(listing@),
            !all.contains("origin/main"@),
            !all.contains("origin/master"@),
            first_branch(all.skip(i as int)) == first_branch(all),
        decreases branches@.len() - i,
    {
        assert(all.skip(i as int)[0] == branches@[i as int]@);
        assert(all.skip(i as int).drop_first() =~= all.skip(i + 1));
        if !contains(branches[i].as_str(), "->") {
            return Some(branches[i].clone());
        }
        i = i + 1;
    }
    None
}

impl GitStorage {
    /// The command lines that empty the cache.
    pub fn clean_cache(&self) -> (list: Vec<Vec<String>>)
        ensures
            commands(list@) == cleaning(),
    {
        let mut list: Vec<Vec<String>> = Vec::new();
        list.push(list4("rm", "-rf", "--ignore-unmatch", "."));
        list.push(list4("clean", "-fdx", "-e", ".git"));
        assert(commands(list@) =~= cleaning());
        list
    }

    /// What is to be done next on the way of the repository's state to the
    /// cache.
    pub fn do_fetch_sync(&self, event: FetchEvent) -> (action: FetchAction)
        ensures
            action@ == fetch_step(event),
    {
        match event {
            FetchEvent::Wanted => FetchAction::Fetch(list2("fetch", "origin")),
            FetchEvent::Fetched(output) => {
                let stderr = output.stderr.as_str();
                if output.success {
                    FetchAction::List(list2("branch", "-r"))
                } else if contains(stderr, "no matching remote head") || contains(
                    stderr,
                    "couldn't find remote ref",
                ) {
                    FetchAction::Clean(self.clean_cache())
                } else {
                    FetchAction::Fail(
                        StorageError::Other(
                            join2("Failed to fetch from origin remote.\nDetails:\n", stderr),
                        ),
                    )
                }
            },
            FetchEvent::Listed(output) => if output.success {
                match choose_branch(output.stdout.as_str()) {
                    Some(branch) => FetchAction::Reset(list3("reset", "--hard", branch.as_str())),
                    None => FetchAction::Clean(self.clean_cache()),
                }
            } else {
                FetchAction::Clean(self.clean_cache())
            },
            FetchEvent::Reset { target, output } => if output.success {
                FetchAction::Done
            } else {
                let mut reason = join3("Failed to reset to ", target.as_str(), ".\nDetails:\n");
                reason.append(output.stderr.as_str());
                FetchAction::Fail(StorageError::Other(reason))
            },
            FetchEvent::Cleaned => FetchAction::Done,
            FetchEvent::NotRun(e) => FetchAction::Fail(StorageError::Io(e)),
        }
    }
}

/// Whether an event can come of a step on the way to the cache.  What the cache
/// is said to be reset to is the branch that Git was given.
pub open spec fn fetch_event_comes_of(event: FetchEvent, step: FetchStep) -> bool {
    match event {
        FetchEvent::Wanted => false,
        FetchEvent::Fetched(_) => step is Fetch,
        FetchEvent::Listed(_) => step is List,
        FetchEvent::Reset { target, .. } => step == FetchStep::Reset(
            seq!["reset"@, "--hard"@, target@],
        ),
        FetchEvent::Cleaned => step is Clean,
        FetchEvent::NotRun(_) => !(step is Done || step is Fail),
    }
}

/// Whether events are those of one way of the repository's state to the cache, or
/// of its beginning: the fetch is wanted, and each later event comes of the step
/// before.
pub open spec fn is_way_from_repository(events: Seq<FetchEvent>) -> bool {
    &&& events.len() > 0
    &&& events[0] is Wanted
    &&& forall|i: int|
        0 < i < events.len() ==> fetch_event_comes_of(
            #[trigger] events[i],
            fetch_step(events[i - 1]),
        )
}

/// Whether Git said that the repository is empty when it was asked to fetch.
pub open spec fn was_nothing_to_fetch(output: GitOutput) -> bool {
    !output.success && (text::holds(output.stderr@, "no matching remote head"@) || text::holds(
        output.stderr@,
        "couldn't find remote ref"@,
    ))
}

/// Whether Git listed a branch that holds the state, and which.
pub open spec fn listed_branch(output: GitOutput) -> Option<Seq<char>> {
    if output.success {
        state_branch(trimmed_lines(output.stdout@))
    } else {
        None
    }
}

/// Whether a way ends because Git reset the cache to the branch that holds the
/// state.
pub open spec fn resets_to_state(events: Seq<FetchEvent>) -> bool {
    &&& events.len() == 4
    &&& events[1] matches FetchEvent::Fetched(fetch)
    &&& fetch.success
    &&& events[2] matches FetchEvent::Listed(list)
    &&& events[3] matches FetchEvent::Reset { target, output }
    &&& listed_branch(list) == Some(target@)
    &&& output.success
}

/// Whether a way ends because there is no branch, and the cache was emptied.
pub open spec fn empties_without_branch(events: Seq<FetchEvent>) -> bool {
    &&& events.len() == 4
    &&& events[1] matches FetchEvent::Fetched(fetch)
    &&& fetch.success
    &&& events[2] matches FetchEvent::Listed(list)
    &&& listed_branch(list) is None
    &&& fetch_step(events[2]) == FetchStep::Clean(cleaning())
    &&& events[3] is Cleaned
}

/// Whether a way ends because there was nothing to fetch, and the cache was
/// emptied.
pub open spec fn empties_without_fetch(events: Seq<FetchEvent>) -> bool {
    &&& events.len() == 3
    &&& events[1] matches FetchEvent::Fetched(fetch)
    &&& was_nothing_to_fetch(fetch)
    &&& fetch_step(events[1]) == FetchStep::Clean(cleaning())
    &&& events[2] is Cleaned
}

/// A fetch is done in one of three ways only: Git fetched, listed a branch that
/// holds the state and reset the cache to it; or Git fetched and there is no such
/// branch, and the cache was emptied; or Git said that the repository is empty,
/// and the cache was emptied.
pub proof fn law_fetch_is_done_when_the_cache_has_the_state(events: Seq<FetchEvent>)
    requires
        is_way_from_repository(events),
        fetch_step(events.last()) is Done,
    ensures
        resets_to_state(events) || empties_without_branch(events) || empties_without_fetch(events),
{
    let last = events.len() - 1;
    assert(last > 0);
    assert(fetch_event_comes_of(events[1], fetch_step(events[0])));
    assert(last > 1);
    assert(fetch_event_comes_of(events[2], fetch_step(events[1])));
    if last > 2 {
        assert(fetch_event_comes_of(events[3], fetch_step(events[2])));
        if events[3] is Reset {
            let target = events[3]->target@;
            let branch = listed_branch(events[2]->Listed_0)->Some_0;
            assert(seq!["reset"@, "--hard"@, target][2] == seq!["reset"@, "--hard"@, branch][2]);
        }
    }
    if last > 3 {
        assert(fetch_event_comes_of(events[4], fetch_step(events[3])));
    }
}

/// What is staged is exactly what is there: each of the three files, where it is
/// there and whatever else is, once; and nothing else.
pub proof fn law_staged_is_what_is_there(
    storage: GitStorage,
    event: PushEvent,
    action: PushAction,
    keys: bool,
    manifest: bool,
    objects: bool,
)
    requires
        event == (PushEvent::Wanted { keys, manifest, objects }),
        call_ensures(GitStorage::do_push_sync, (&storage, event), action),
    ensures
        action matches PushAction::Stage(list) && {
            let keys_line = seq!["add"@, "--force"@, "keys.json"@];
            let manifest_line = seq!["add"@, "--force"@, "manifest.enc"@];
            let objects_line = seq!["add"@, "--force"@, "objects/"@];
            &&& list@.len() == (if keys { 1int } else { 0 }) + (if manifest { 1int } else { 0 }) + (
            if objects { 1int } else { 0 })
            &&& keys <==> exists|i: int|
                0 <= i < list@.len() && text::texts((#[trigger] list@[i])@) == keys_line
            &&& manifest <==> exists|i: int|
                0 <= i < list@.len() && text::texts((#[trigger] list@[i])@) == manifest_line
            &&& objects <==> exists|i: int|
                0 <= i < list@.len() && text::texts((#[trigger] list@[i])@) == objects_line
        },
{
    let list = action->Stage_0;
    let all = commands(list@);
    assert(all == staging("keys.json"@, keys) + staging("manifest.enc"@, manifest) + staging(
        "objects/"@,
        objects,
    ));
    assert(all.len() == list@.len());
    assert forall|i: int| 0 <= i < list@.len() implies all[i] == text::texts(
        (#[trigger] list@[i])@,
    ) by {}
    lemma_staged_lines_differ();
    let keys_place: int = 0;
    let manifest_place: int = if keys { 1 } else { 0 };
    let objects_place: int = manifest_place + if manifest { 1int } else { 0 };
    if keys {
        assert(text::texts(list@[keys_place]@) == all[keys_place]);
    }
    if manifest {
        assert(text::texts(list@[manifest_place]@) == all[manifest_place]);
    }
    if objects {
        assert(text::texts(list@[objects_place]@) == all[objects_place]);
    }
    assert forall|i: int| 0 <= i < list@.len() implies {
        let line = text::texts((#[trigger] list@[i])@);
        ||| keys && i == keys_place && line == seq!["add"@, "--force"@, "keys.json"@]
        ||| manifest && i == manifest_place && line == seq!["add"@, "--force"@, "manifest.enc"@]
        ||| objects && i == objects_place && line == seq!["add"@, "--force"@, "objects/"@]
    } by {
        assert(text::texts(list@[i]@) == all[i]);
    }
}

/// The lines that stage the three files are three.
proof fn lemma_staged_lines_differ()
    ensures
        seq!["add"@, "--force"@, "keys.json"@] != seq!["add"@, "--force"@, "manifest.enc"@],
        seq!["add"@, "--force"@, "keys.json"@] != seq!["add"@, "--force"@, "objects/"@],
        seq!["add"@, "--force"@, "manifest.enc"@] != seq!["add"@, "--force"@, "objects/"@],
{
    reveal_strlit("keys.json");
    reveal_strlit("manifest.enc");
    reveal_strlit("objects/");
    let keys = seq!["add"@, "--force"@, "keys.json"@];
    let manifest = seq!["add"@, "--force"@, "manifest.enc"@];
    let objects = seq!["add"@, "--force"@, "objects/"@];
    assert(keys[2].len() == 9);
    assert(manifest[2].len() == 12);
    assert(objects[2].len() == 8);
}

/// What is staged is compared, what differs is committed, and what is committed is
/// pushed: each with the one command that does it.
pub proof fn law_push_runs_the_commands_of_git(
    storage: GitStorage,
    event: PushEvent,
    action: PushAction,
)
    requires
        call_ensures(GitStorage::do_push_sync, (&storage, event), action),
    ensures
        event is Staged ==> (action matches PushAction::Compare(args) && text::texts(args@) == seq![
            "diff"@,
            "--cached"@,
            "--quiet"@,
        ]),
        event == (PushEvent::Compared { nothing_staged: true }) ==> action is Done,
        event == (PushEvent::Compared { nothing_staged: false }) ==> (
        action matches PushAction::Commit(args) && text::texts(args@) == seq![
            "commit"@,
            "-m"@,
            "pqcrypt: state update"@,
        ]),
        event matches PushEvent::Committed(output) ==> (output.success ==> (
        action matches PushAction::Push(args) && text::texts(args@) == seq![
            "push"@,
            "origin"@,
            "HEAD"@,
        ])),
        event matches PushEvent::Pushed(output) ==> (output.success <==> action is Done),
        event matches PushEvent::NotRun(e) ==> (action matches PushAction::Fail(error) && error@
            == StorageFault::Io(e@)),
{
}

/// A commit that Git did not make is no fault where Git says that there is nothing
/// to commit, and no success otherwise; the user is told how to name themselves
/// where Git does not know them, and what Git said in any other case.
pub proof fn law_failed_commit_is_explained(
    storage: GitStorage,
    output: GitOutput,
    action: PushAction,
)
    requires
        !output.success,
        call_ensures(GitStorage::do_push_sync, (&storage, PushEvent::Committed(output)), action),
    ensures
        action is Done <==> text::holds(output.stderr@, "nothing to commit"@),
        !text::holds(output.stderr@, "nothing to commit"@) ==> (
        action matches PushAction::Fail(error) && error@ == StorageFault::Other(
            if text::holds(output.stderr@, "user.name"@) || text::holds(
                output.stderr@,
                "user.email"@,
            ) {
                "Git identity not configured. Please run:\n  git config --global user.name \"Your Name\"\n  git config --global user.email \"you@example.com\""@
            } else {
                "Failed to commit state.\nDetails:\n"@ + output.stderr@
            },
        )),
{
}

/// A push that Git did not make fails: as rejected where Git says so, and with what
/// Git said in any case.
pub proof fn law_failed_push_is_explained(
    storage: GitStorage,
    output: GitOutput,
    action: PushAction,
)
    requires
        !output.success,
        call_ensures(GitStorage::do_push_sync, (&storage, PushEvent::Pushed(output)), action),
    ensures
        action matches PushAction::Fail(error) && error@ == StorageFault::Other(
            (if text::holds(output.stderr@, "rejected"@) || text::holds(
                output.stderr@,
                "non-fast-forward"@,
            ) {
                "Push rejected (non-fast-forward). Please sync first.\nDetails:\n"@
            } else {
                "Failed to push state to remote Git repository.\nDetails:\n"@
            }) + output.stderr@,
        ),
{
}

/// A cache is checked, given its URL, removed and made with the one command that
/// does it, and whatever goes wrong on the way is why there is no cache.
pub proof fn law_cache_runs_the_commands_of_git(
    storage: GitStorage,
    event: CacheEvent,
    action: CacheAction,
)
    requires
        call_ensures(GitStorage::ensure_cache_repo, (&storage, event), action),
    ensures
        event == (CacheEvent::Wanted { git_dir_exists: true }) ==> (
        action matches CacheAction::Check(args) && text::texts(args@) == seq![
            "rev-parse"@,
            "--git-dir"@,
        ]),
        event == (CacheEvent::Wanted { git_dir_exists: false }) || event is Removed
            ==> action is MakeDirectory,
        event == (CacheEvent::Checked { valid: true }) ==> (
        action matches CacheAction::SetOrigin(args) && text::texts(args@) == seq![
            "remote"@,
            "set-url"@,
            "origin"@,
            storage.url(),
        ]),
        event == (CacheEvent::Checked { valid: false }) ==> (
        action matches CacheAction::Remove(warning) && warning@
            == "warning: Cache repo corrupted at "@ + storage.cache() + ", recreating..."@),
        event is DirectoryMade ==> (action matches CacheAction::Initialize(args) && text::texts(
            args@,
        ) == seq!["init"@]),
        event == (CacheEvent::Initialized { success: true }) || event == (CacheEvent::OriginSet {
            success: false,
        }) ==> (action matches CacheAction::AddOrigin(args) && text::texts(args@) == seq![
            "remote"@,
            "add"@,
            "origin"@,
            storage.url(),
        ]),
        event == (CacheEvent::OriginSet { success: true }) || event == (CacheEvent::OriginAdded {
            success: true,
        }) <==> action is Ready,
        event == (CacheEvent::Initialized { success: false }) ==> (
        action matches CacheAction::Fail(error) && error@ == StorageFault::Other(
            "Failed to run git init"@,
        )),
        event == (CacheEvent::OriginAdded { success: false }) ==> action is Fail,
        event matches CacheEvent::SetOriginFailed(e) ==> (action matches CacheAction::Fail(error)
            && error@ == StorageFault::Io(e@)),
        event matches CacheEvent::RemoveFailed(e) ==> (action matches CacheAction::Fail(error)
            && error@ == StorageFault::Io(e@)),
        event matches CacheEvent::DirectoryFailed(e) ==> (action matches CacheAction::Fail(error)
            && error@ == StorageFault::Io(e@)),
        event matches CacheEvent::InitializeFailed(e) ==> (action matches CacheAction::Fail(error)
            && error@ == StorageFault::Io(e@)),
        event matches CacheEvent::AddOriginFailed(e) ==> (action matches CacheAction::Fail(error)
            && error@ == StorageFault::Io(e@)),
{
}

/// Where no branch before a place counts, the search goes on there.
proof fn lemma_first_branch(branches: Seq<Seq<char>>, i: int)
    requires
        0 <= i <= branches.len(),
        forall|j: int| 0 <= j < i ==> text::holds(#[trigger] branches[j], "->"@),
    ensures
        first_branch(branches) == first_branch(branches.skip(i)),
    decreases i,
{
    if i == 0 {
        assert(branches.skip(0) =~= branches);
    } else {
        let later = branches.drop_first();
        assert forall|j: int| 0 <= j < i - 1 implies text::holds(#[trigger] later[j], "->"@) by {
            assert(later[j] == branches[j + 1]);
        }
        lemma_first_branch(later, i - 1);
        assert(later.skip(i - 1) =~= branches.skip(i));
        assert(text::holds(branches[0], "->"@));
    }
}

/// The branch that holds the state is `main` where Git lists it, in whatever place;
/// else `master` where Git lists that; else the first that is no alias; and none
/// where there are only aliases.
pub proof fn law_state_branch_is_main_or_master_or_the_first(
    listing: &str,
    branch: Option<String>,
    i: int,
)
    requires
        call_ensures(choose_branch, (listing,), branch),
        0 <= i <= text::lines_of(listing@).len(),
    ensures
        ({
            let list = text::lines_of(listing@);
            let main = exists|j: int|
                0 <= j < list.len() && text::trimmed(#[trigger] list[j]) == "origin/main"@;
            let master = exists|j: int|
                0 <= j < list.len() && text::trimmed(#[trigger] list[j]) == "origin/master"@;
            let aliases = forall|j: int|
                0 <= j < i ==> text::holds(text::trimmed(#[trigger] list[j]), "->"@);
            &&& main ==> (branch matches Some(b) && b@ == "origin/main"@)
            &&& !main && master ==> (branch matches Some(b) && b@ == "origin/master"@)
            &&& !main && !master && aliases && i < list.len() && !text::holds(
                text::trimmed(list[i]),
                "->"@,
            ) ==> (branch matches Some(b) && b@ == text::trimmed(list[i]))
            &&& !main && !master && aliases && i == list.len() ==> branch is None
        }),
{
    let list = text::lines_of(listing@);
    let branches = trimmed_lines(listing@);
    assert(branches.len() == list.len());
    if branches.contains("origin/main"@) {
        let j = branches.index_of("origin/main"@);
        assert(text::trimmed(list[j]) == "origin/main"@);
    }
    if branches.contains("origin/master"@) {
        let j = branches.index_of("origin/master"@);
        assert(text::trimmed(list[j]) == "origin/master"@);
    }
    if exists|j: int| 0 <= j < list.len() && text::trimmed(#[trigger] list[j]) == "origin/main"@ {
        let j = choose|j: int|
            0 <= j < list.len() && text::trimmed(#[trigger] list[j]) == "origin/main"@;
        assert(branches[j] == "origin/main"@);
    }
    if exists|j: int| 0 <= j < list.len() && text::trimmed(#[trigger] list[j])
        == "origin/master"@ {
        let j = choose|j: int|
            0 <= j < list.len() && text::trimmed(#[trigger] list[j]) == "origin/master"@;
        assert(branches[j] == "origin/master"@);
    }
    if forall|j: int| 0 <= j < i ==> text::holds(text::trimmed(#[trigger] list[j]), "->"@) {
        assert forall|j: int| 0 <= j < i implies text::holds(#[trigger] branches[j], "->"@) by {
            assert(text::holds(text::trimmed(list[j]), "->"@));
        }
        lemma_first_branch(branches, i);
        if i < list.len() {
            assert(branches.skip(i)[0] == text::trimmed(list[i]));
        }
    }
}

/// The two command lines that empty a cache: what Git keeps, and then all else but
/// the repository itself.
pub open spec fn empties_the_cache(list: Seq<Vec<String>>) -> bool {
    &&& list.len() == 2
    &&& text::texts(list[0]@) == seq!["rm"@, "-rf"@, "--ignore-unmatch"@, "."@]
    &&& text::texts(list[1]@) == seq!["clean"@, "-fdx"@, "-e"@, ".git"@]
}

/// The state is fetched, listed and reset to with the one command that does it; a
/// repository without the state empties the cache; and whatever else goes wrong
/// fails with what Git said.
pub proof fn law_fetch_runs_the_commands_of_git(
    storage: GitStorage,
    event: FetchEvent,
    action: FetchAction,
    branch: Option<String>,
)
    requires
        call_ensures(GitStorage::do_fetch_sync, (&storage, event), action),
        event matches FetchEvent::Listed(output) ==> (exists|listing: &str|
            listing@ == output.stdout@ && #[trigger] call_ensures(choose_branch, (listing,), branch)),
    ensures
        event is Wanted ==> (action matches FetchAction::Fetch(args) && text::texts(args@) == seq![
            "fetch"@,
            "origin"@,
        ]),
        event matches FetchEvent::Fetched(output) ==> {
            &&& output.success ==> (action matches FetchAction::List(args) && text::texts(args@)
                == seq!["branch"@, "-r"@])
            &&& !output.success && (text::holds(output.stderr@, "no matching remote head"@)
                || text::holds(output.stderr@, "couldn't find remote ref"@)) ==> (
            action matches FetchAction::Clean(list) && empties_the_cache(list@))
            &&& !output.success && !text::holds(output.stderr@, "no matching remote head"@)
                && !text::holds(output.stderr@, "couldn't find remote ref"@) ==> (
            action matches FetchAction::Fail(error) && error@ == StorageFault::Other(
                "Failed to fetch from origin remote.\nDetails:\n"@ + output.stderr@,
            ))
        },
        event matches FetchEvent::Listed(output) ==> {
            &&& output.success ==> (branch matches Some(b) ==> (action matches FetchAction::Reset(
                args,
            ) && text::texts(args@) == seq!["reset"@, "--hard"@, b@]))
            &&& !output.success || branch is None ==> (action matches FetchAction::Clean(list)
                && empties_the_cache(list@))
        },
        event matches FetchEvent::Reset { target, output } ==> {
            &&& output.success ==> action is Done
            &&& !output.success ==> (action matches FetchAction::Fail(error) && error@
                == StorageFault::Other(
                "Failed to reset to "@ + target@ + ".\nDetails:\n"@ + output.stderr@,
            ))
        },
        event is Cleaned ==> action is Done,
        event matches FetchEvent::NotRun(e) ==> (action matches FetchAction::Fail(error) && error@
            == StorageFault::Io(e@)),
{
    if let FetchAction::Clean(list) = action {
        assert(commands(list@) == cleaning());
        assert(commands(list@).len() == list@.len());
        assert(commands(list@)[0] == text::texts(list@[0]@));
        assert(commands(list@)[1] == text::texts(list@[1]@));
    }
}

/// The cache of a repository is in the helper's own directory under the cache
/// directory of the system, and is named after the URL.
pub proof fn law_cache_is_named_after_the_url(
    base: String,
    url: &str,
    storage: Result<GitStorage, StorageError>,
    front: Seq<char>,
)
    requires
        call_ensures(GitStorage::new, (Some(base), url), storage),
        base@ == front || base@ == front.push('/'),
        front.len() > 0,
        front.last() != '/',
    ensures
        storage matches Ok(s) && s.url() == url@ && s.cache() == front + "/pqcrypt/"@
            + outside::url_safe_text(vstd::utf8::encode_utf8(url@)),
{
    reveal_strlit("/");
    reveal_strlit("pqcrypt");
    reveal_strlit("/pqcrypt/");
    let name = outside::url_safe_text(vstd::utf8::encode_utf8(url@));
    assert(cache_path(base@, url@) =~= front + "/pqcrypt/"@ + name);
}

/// Every variable that begins like those of Git is one of Git's, and no other is.
pub proof fn law_variables_of_git_begin_alike(name: &str, yes: bool, rest: Seq<char>)
    requires
        call_ensures(is_git_variable, (name,), yes),
    ensures
        name@ == "GIT_"@ + rest ==> yes,
        yes ==> name@.len() >= 4 && name@.take(4) == "GIT_"@,
{
    reveal_strlit("GIT_");
    if name@ == "GIT_"@ + rest {
        assert(name@.subrange(0, 4) =~= "GIT_"@);
    }
    if yes {
        assert(name@.take(4) =~= name@.subrange(0, 4));
    }
}

} // verus!
