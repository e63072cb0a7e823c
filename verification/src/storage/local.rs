//! Storage in a local directory, and its lock.

use crate::paths;
use crate::paths::join_path;
use crate::storage::{FileAnswer, StorageError, StorageFault};
use crate::text;
use crate::text::{decimal_text, join2, join3, lines, parse_u64};
use vstd::prelude::*;

verus! {

/// Seconds after which a lock is stale.
pub const LOCK_TIMEOUT_SECONDS: u64 = 600;

/// Storage in a local directory.
#[derive(Debug)]
pub struct LocalStorage {
    repo_root: String,
}

impl View for LocalStorage {
    type V = Seq<char>;

    closed spec fn view(&self) -> Seq<char> {
        self.repo_root@
    }
}

impl Clone for LocalStorage {
    fn clone(&self) -> (copy: Self)
        ensures
            copy@ == self@,
    {
        LocalStorage { repo_root: self.repo_root.clone() }
    }
}

impl LocalStorage {
    /// The storage in the directory at `repo_path`.
    pub fn new(repo_path: &str) -> (storage: Self)
        ensures
            storage@ == repo_path@,
    {
        LocalStorage { repo_root: repo_path.to_owned() }
    }

    /// The path of the directory.
    pub fn root(&self) -> (path: &str)
        ensures
            path@ == self@,
    {
        self.repo_root.as_str()
    }

    /// Where the file at `relative_path` of the storage is.
    pub fn full_path(&self, relative_path: &str) -> (path: String)
        ensures
            path@ == paths::joined(self@, relative_path@),
    {
        join_path(self.repo_root.as_str(), relative_path)
    }

    /// Where the lock is: a directory that is there while the storage is held.
    pub fn lock_dir(&self) -> (path: String)
        ensures
            path@ == paths::joined(self@, "pqcrypt.lock"@),
    {
        self.full_path("pqcrypt.lock")
    }

    /// Where it is written who holds the lock since when.
    pub fn lock_info(&self) -> (path: String)
        ensures
            path@ == paths::joined(paths::joined(self@, "pqcrypt.lock"@), "info"@),
    {
        join_path(self.lock_dir().as_str(), "info")
    }

    /// What reading the file at `path` of the storage gives.
    pub fn get(path: &str, answer: FileAnswer) -> (contents: Result<Vec<u8>, StorageError>)
        ensures
            match answer {
                FileAnswer::Contents(bytes) => contents == Ok::<Vec<u8>, StorageError>(bytes),
                FileAnswer::Missing => contents matches Err(e) && e@ == StorageFault::NotFound(
                    path@,
                ),
                FileAnswer::Failed(text) => contents matches Err(e) && e@ == StorageFault::Io(
                    text@,
                ),
            },
    {
        match answer {
            FileAnswer::Contents(bytes) => Ok(bytes),
            FileAnswer::Missing => Err(StorageError::NotFound(path.to_owned())),
            FileAnswer::Failed(text) => Err(StorageError::Io(text)),
        }
    }

    /// The names of a directory that are texts, in order.
    pub fn list(names: Vec<Option<String>>) -> (list: Vec<String>)
        ensures
            list@ == names_that_are_texts(names@),
    {
        let mut list: Vec<String> = Vec::new();
        let mut i: usize = 0;
        assert(names@.take(0) =~= Seq::<Option<String>>::empty());
        while i < names.len()
            invariant
                i <= names@.len(),
                list@ == names_that_are_texts(names@.take(i as int)),
            decreases names@.len() - i,
        {
            assert(names@.take(i + 1).drop_last() =~= names@.take(i as int));
            if let Some(name) = &names[i] {
                list.push(name.clone());
            }
            i = i + 1;
        }
        assert(names@.take(names@.len() as int) =~= names@);
        list
    }
}

/// The names that are there.
pub open spec fn names_that_are_texts(names: Seq<Option<String>>) -> Seq<String>
    decreases names.len(),
{
    if names.len() == 0 {
        Seq::empty()
    } else {
        let before = names_that_are_texts(names.drop_last());
        match names.last() {
            Some(name) => before.push(name),
            None => before,
        }
    }
}

/// Who wants the lock, and when.
#[derive(Debug)]
pub struct LockRequest {
    /// The name of the user.
    pub user: String,
    /// Seconds since the epoch.
    pub now: u64,
}

/// The name that a lock is taken in.
pub fn lock_user(user: Option<String>) -> (name: String)
    ensures
        name@ == match user {
            Some(u) => u@,
            None => "unknown"@,
        },
{
    match user {
        Some(user) => user,
        None => "unknown".to_owned(),
    }
}

/// What is written of a lock: who holds it, and since when.
pub open spec fn info_text(user: Seq<char>, now: u64) -> Seq<char> {
    user + "\n"@ + text::decimal(now as nat)
}

/// What is known of a lock.
#[derive(Debug)]
pub struct LockInfo {
    /// Who holds it.
    pub user: String,
    /// Since when, as it was written.
    pub stamp_text: String,
    /// Since when, in seconds since the epoch.
    pub stamp: u64,
}

/// What a text says of who holds a lock.
pub open spec fn info_user(info: Seq<char>) -> Seq<char> {
    let lines = text::lines_of(info);
    if lines.len() > 0 {
        lines[0]
    } else {
        "unknown"@
    }
}

/// What a text says of the time since when a lock is held.
pub open spec fn info_stamp_text(info: Seq<char>) -> Seq<char> {
    let lines = text::lines_of(info);
    if lines.len() > 1 {
        lines[1]
    } else {
        "0"@
    }
}

/// Since when a lock is held; the beginning of time where a text does not say.
pub open spec fn info_stamp(info: Seq<char>) -> u64 {
    match text::parsed(info_stamp_text(info)) {
        Some(stamp) => stamp,
        None => 0,
    }
}

/// Reads what is written of a lock.
pub fn parse_lock_info(info: &str) -> (parsed: LockInfo)
    ensures
        parsed.user@ == info_user(info@),
        parsed.stamp_text@ == info_stamp_text(info@),
        parsed.stamp == info_stamp(info@),
{
    let list = lines(info);
    let ghost all = text::lines_of(info@);
    assert(list@.len() == all.len());
    let user = if list.len() > 0 {
        assert(list@[0]@ == all[0]);
        list[0].clone()
    } else {
        "unknown".to_owned()
    };
    let stamp_text = if list.len() > 1 {
        assert(list@[1]@ == all[1]);
        list[1].clone()
    } else {
        "0".to_owned()
    };
    let stamp: u64 = match parse_u64(stamp_text.as_str()) {
        Some(stamp) => stamp,
        None => 0,
    };
    LockInfo { user, stamp_text, stamp }
}

/// What happened on the way to the lock.
#[derive(Debug)]
pub enum LockEvent {
    /// The lock is wanted.
    Wanted,
    /// The lock directory was made.
    DirectoryMade,
    /// The lock directory was there.
    DirectoryExists,
    /// The lock directory could not be made; the system says why.
    DirectoryFailed(String),
    /// It is written who holds the lock.
    InfoWritten,
    /// It could not be written who holds the lock; the system says why.
    InfoFailed(String),
    /// It was read who holds the lock.
    InfoRead(String),
    /// It could not be read who holds the lock.
    InfoUnreadable,
    /// A stale lock was removed.
    StaleRemoved,
}

/// What is to be done next on the way to the lock.
#[derive(Debug)]
pub enum LockAction {
    /// Make the lock directory.
    MakeDirectory,
    /// Write this text of who holds the lock.
    WriteInfo(String),
    /// Read who holds the lock.
    ReadInfo,
    /// Tell the user this, remove the lock, and wait a second.
    RemoveStale(String),
    /// Nothing: the lock is held.
    Hold,
    /// Nothing: the lock cannot be had.
    Fail(StorageError),
}

/// What a `LockAction` stands for.
pub enum LockStep {
    MakeDirectory,
    WriteInfo(Seq<char>),
    ReadInfo,
    RemoveStale(Seq<char>),
    Hold,
    Fail(StorageFault),
}

impl View for LockAction {
    type V = LockStep;

    open spec fn view(&self) -> LockStep {
        match *self {
            LockAction::MakeDirectory => LockStep::MakeDirectory,
            LockAction::WriteInfo(contents) => LockStep::WriteInfo(contents@),
            LockAction::ReadInfo => LockStep::ReadInfo,
            LockAction::RemoveStale(warning) => LockStep::RemoveStale(warning@),
            LockAction::Hold => LockStep::Hold,
            LockAction::Fail(e) => LockStep::Fail(e@),
        }
    }
}

/// Whether a lock that is held since `stamp` is stale at `now`.
pub open spec fn is_stale(stamp: u64, now: u64) -> bool {
    now > stamp + 600
}

/// What is to be done where another holds the lock: a stale lock is broken, any
/// other is respected.
pub open spec fn step_at_lock(info: Seq<char>, now: u64) -> LockStep {
    if is_stale(info_stamp(info), now) {
        LockStep::RemoveStale(
            "warning: Detected stale lock from "@ + info_user(info) + " at "@ + info_stamp_text(
                info,
            ) + ". Attempting to force remove."@,
        )
    } else {
        LockStep::Fail(
            StorageFault::Other(
                "Remote repository is locked by another process ("@ + info_user(info)
                    + "). Try again later."@,
            ),
        )
    }
}

/// What is to be done next on the way to the lock.
pub open spec fn lock_step(event: LockEvent, user: Seq<char>, now: u64) -> LockStep {
    match event {
        LockEvent::Wanted => LockStep::MakeDirectory,
        LockEvent::DirectoryMade => LockStep::WriteInfo(info_text(user, now)),
        LockEvent::DirectoryExists => LockStep::ReadInfo,
        LockEvent::DirectoryFailed(e) => LockStep::Fail(
            StorageFault::Other("Failed to acquire lock: "@ + e@),
        ),
        LockEvent::InfoWritten => LockStep::Hold,
        LockEvent::InfoFailed(e) => LockStep::Fail(StorageFault::Io(e@)),
        LockEvent::InfoRead(info) => step_at_lock(info@, now),
        LockEvent::InfoUnreadable => LockStep::Fail(
            StorageFault::Other(
                "Remote repository is locked by an unknown process. Lock directory exists but info file is unreadable."@,
            ),
        ),
        LockEvent::StaleRemoved => LockStep::MakeDirectory,
    }
}

impl LockRequest {
    /// What is to be done where another holds the lock.
    fn at_lock(&self, info: &str) -> (action: LockAction)
        requires
            info_stamp(info@) + 600 <= u64::MAX,
        ensures
            action@ == step_at_lock(info@, self.now),
    {
        let parsed = parse_lock_info(info);
        if self.now > parsed.stamp + LOCK_TIMEOUT_SECONDS {
            let mut warning = join3(
                "warning: Detected stale lock from ",
                parsed.user.as_str(),
                " at ",
            );
            warning.append(parsed.stamp_text.as_str());
            warning.append(". Attempting to force remove.");
            LockAction::RemoveStale(warning)
        } else {
            LockAction::Fail(
                StorageError::Other(
                    join3(
                        "Remote repository is locked by another process (",
                        parsed.user.as_str(),
                        "). Try again later.",
                    ),
                ),
            )
        }
    }

    /// What is to be done next on the way to the lock.  A time stamp so late
    /// that its timeout is beyond 64 bits has no meaning.
    pub fn lock(&self, event: LockEvent) -> (action: LockAction)
        requires
            event matches LockEvent::InfoRead(info) ==> info_stamp(info@) + 600 <= u64::MAX,
        ensures
            action@ == lock_step(event, self.user@, self.now),
    {
        match event {
            LockEvent::Wanted => LockAction::MakeDirectory,
            LockEvent::DirectoryMade => {
                let contents = join3(
                    self.user.as_str(),
                    "\n",
                    decimal_text(self.now).as_str(),
                );
                LockAction::WriteInfo(contents)
            },
            LockEvent::DirectoryExists => LockAction::ReadInfo,
            LockEvent::DirectoryFailed(e) => LockAction::Fail(
                StorageError::Other(join2("Failed to acquire lock: ", e.as_str())),
            ),
            LockEvent::InfoWritten => LockAction::Hold,
            LockEvent::InfoFailed(e) => LockAction::Fail(StorageError::Io(e)),
            LockEvent::InfoRead(info) => self.at_lock(info.as_str()),
            LockEvent::InfoUnreadable => LockAction::Fail(
                StorageError::Other(
                    "Remote repository is locked by an unknown process. Lock directory exists but info file is unreadable.".to_owned(),
                ),
            ),
            LockEvent::StaleRemoved => LockAction::MakeDirectory,
        }
    }
}

/// Whether a user name is one line, and stays so before a line feed.
pub open spec fn is_one_line(user: Seq<char>) -> bool {
    &&& forall|i: int| 0 <= i < user.len() ==> user[i] != '\n'
    &&& user.len() > 0 ==> user.last() != '\r'
}

/// What is written of a lock is read again, for a user whose name is one line.
pub proof fn law_lock_info_is_read_back(user: Seq<char>, now: u64)
    requires
        is_one_line(user),
    ensures
        info_user(info_text(user, now)) == user,
        info_stamp(info_text(user, now)) == now,
{
    reveal_strlit("\n");
    let info = info_text(user, now);
    let stamp = text::decimal(now as nat);
    text::law_decimal_is_read_back(now);
    assert(info[user.len() as int] == '\n');
    assert forall|j: int| 0 <= j < user.len() implies info[j] != '\n' by {
        assert(info[j] == user[j]);
    }
    text::lemma_first_of(info, '\n', user.len() as int);
    assert(info.take(user.len() as int) =~= user);
    assert(info.skip(user.len() as int + 1) =~= stamp);
    text::lemma_decimal_is_one_line(now as nat);
    assert(text::lines_of(info) =~= seq![user, stamp]);
}

/// A lock is respected for ten minutes: who comes before that is told who holds
/// it.
pub proof fn law_fresh_lock_is_respected(user: Seq<char>, since: u64, now: u64)
    requires
        is_one_line(user),
        now <= since + 600,
    ensures
        step_at_lock(info_text(user, since), now) == LockStep::Fail(
            StorageFault::Other(
                "Remote repository is locked by another process ("@ + user
                    + "). Try again later."@,
            ),
        ),
{
    law_lock_info_is_read_back(user, since);
}

/// No lock is broken but one that was read and is stale, and none is held before
/// it is written who holds it.
pub proof fn law_only_stale_locks_are_broken(event: LockEvent, user: Seq<char>, now: u64)
    ensures
        lock_step(event, user, now) is RemoveStale ==> (event matches LockEvent::InfoRead(info)
            && is_stale(info_stamp(info@), now)),
        lock_step(event, user, now) is Hold ==> event is InfoWritten,
{
}

/// A lock is broken after ten minutes.
pub proof fn law_stale_lock_is_broken(user: Seq<char>, since: u64, now: u64)
    requires
        is_one_line(user),
        now > since + 600,
    ensures
        step_at_lock(info_text(user, since), now) is RemoveStale,
{
    law_lock_info_is_read_back(user, since);
}

/// Whether an event can come of a step on the way to the lock.
pub open spec fn lock_event_comes_of(event: LockEvent, step: LockStep) -> bool {
    match event {
        LockEvent::Wanted => false,
        LockEvent::DirectoryMade => step is MakeDirectory,
        LockEvent::DirectoryExists => step is MakeDirectory,
        LockEvent::DirectoryFailed(_) => step is MakeDirectory,
        LockEvent::InfoWritten => step is WriteInfo,
        LockEvent::InfoFailed(_) => step is WriteInfo,
        LockEvent::InfoRead(_) => step is ReadInfo,
        LockEvent::InfoUnreadable => step is ReadInfo,
        LockEvent::StaleRemoved => step is RemoveStale,
    }
}

/// Whether events are those of one way of a user to the lock, or of its
/// beginning: the lock is wanted, and each later event comes of the step before.
pub open spec fn is_way_to_lock(events: Seq<LockEvent>, user: Seq<char>, now: u64) -> bool {
    &&& events.len() > 0
    &&& events[0] is Wanted
    &&& forall|i: int|
        0 < i < events.len() ==> lock_event_comes_of(
            #[trigger] events[i],
            lock_step(events[i - 1], user, now),
        )
}

/// Who holds the lock took it: a way ends with the lock held only where its last
/// steps made the lock directory, which was not there, and wrote into it who
/// holds the lock and since when.
pub proof fn law_held_lock_was_taken(events: Seq<LockEvent>, user: Seq<char>, now: u64)
    requires
        is_way_to_lock(events, user, now),
        lock_step(events.last(), user, now) is Hold,
    ensures
        events.len() >= 3,
        lock_step(events[events.len() - 3], user, now) is MakeDirectory,
        events[events.len() - 2] is DirectoryMade,
        lock_step(events[events.len() - 2], user, now) == LockStep::WriteInfo(
            info_text(user, now),
        ),
        events[events.len() - 1] is InfoWritten,
{
    let last = events.len() - 1;
    assert(last > 0);
    assert(lock_event_comes_of(events[last], lock_step(events[last - 1], user, now)));
    assert(last > 1);
    assert(lock_event_comes_of(events[last - 1], lock_step(events[last - 2], user, now)));
}

/// A lock is removed only where it was found, was read, and is stale: nobody's
/// lock is removed within its ten minutes, nor is one that this way took.
pub proof fn law_removed_lock_was_found_and_stale(
    events: Seq<LockEvent>,
    i: int,
    user: Seq<char>,
    now: u64,
)
    requires
        is_way_to_lock(events, user, now),
        0 <= i < events.len(),
        lock_step(events[i], user, now) is RemoveStale,
    ensures
        i >= 2,
        events[i - 1] is DirectoryExists,
        events[i] matches LockEvent::InfoRead(info) && is_stale(info_stamp(info@), now),
        forall|j: int| 0 <= j < i ==> !(#[trigger] events[j] is DirectoryMade),
{
    assert(i > 0);
    assert(lock_event_comes_of(events[i], lock_step(events[i - 1], user, now)));
    assert(i > 1);
    assert forall|j: int| 0 <= j < i implies !(#[trigger] events[j] is DirectoryMade) by {
        if events[j] is DirectoryMade {
            assert(lock_event_comes_of(events[j + 1], lock_step(events[j], user, now)));
            if j + 1 < i {
                assert(lock_event_comes_of(events[j + 2], lock_step(events[j + 1], user, now)));
            }
        }
    }
}

/// A listing keeps the names that are texts, all of them and in order, and leaves
/// out the others.
pub proof fn law_names_that_are_texts_are_kept(
    front: Seq<Option<String>>,
    back: Seq<Option<String>>,
    name: String,
)
    ensures
        names_that_are_texts(front + back) == names_that_are_texts(front) + names_that_are_texts(
            back,
        ),
        names_that_are_texts(seq![Some(name)]) == seq![name],
        names_that_are_texts(seq![None]) == Seq::<String>::empty(),
        names_that_are_texts(Seq::empty()) == Seq::<String>::empty(),
    decreases back.len(),
{
    assert(seq![Some(name)].drop_last() =~= Seq::empty());
    assert(names_that_are_texts(Seq::empty()) =~= Seq::empty());
    assert(seq![None::<String>].drop_last() =~= Seq::empty());
    assert(names_that_are_texts(seq![Some(name)]) =~= seq![name]);
    if back.len() == 0 {
        assert(front + back =~= front);
        assert(names_that_are_texts(front + back) =~= names_that_are_texts(front)
            + names_that_are_texts(back));
    } else {
        law_names_that_are_texts_are_kept(front, back.drop_last(), name);
        assert((front + back).drop_last() =~= front + back.drop_last());
        assert(names_that_are_texts(front + back) =~= names_that_are_texts(front)
            + names_that_are_texts(back));
    }
}

/// What is written of a lock is read line by line: who holds it, and since when;
/// who it is and when it was is unknown where the line is missing, and a time that
/// is no number is the beginning of time.
pub proof fn law_lock_info_is_read_line_by_line(info: &str, parsed: LockInfo)
    requires
        call_ensures(parse_lock_info, (info,), parsed),
    ensures
        ({
            let list = text::lines_of(info@);
            &&& list.len() == 0 ==> parsed.user@ == "unknown"@
            &&& list.len() > 0 ==> parsed.user@ == list[0]
            &&& list.len() < 2 ==> parsed.stamp_text@ == "0"@ && parsed.stamp == 0
            &&& list.len() >= 2 ==> parsed.stamp_text@ == list[1]
            &&& list.len() >= 2 ==> (match text::parsed(list[1]) {
                Some(stamp) => parsed.stamp == stamp,
                None => parsed.stamp == 0,
            })
        }),
{
    reveal_strlit("0");
    assert("0"@ =~= seq!['0']);
    text::law_number_is_read_digit_by_digit(Seq::empty(), '0');
}

/// The way to the lock takes each step for its own reason: the lock directory is
/// tried first, and again after a stale lock was removed; who made it writes who
/// holds the lock, and holds it when that is written; who found it reads who holds
/// it, removes a lock that is older than ten minutes, and leaves any other alone;
/// and nothing else leads to the lock.
pub proof fn law_each_step_to_the_lock_has_its_reason(
    request: LockRequest,
    event: LockEvent,
    action: LockAction,
    text: &str,
    parsed: LockInfo,
)
    requires
        call_ensures(LockRequest::lock, (&request, event), action),
        call_ensures(parse_lock_info, (text,), parsed),
        event matches LockEvent::InfoRead(info) ==> info@ == text@,
    ensures
        event is Wanted || event is StaleRemoved <==> action is MakeDirectory,
        event is DirectoryMade ==> (action matches LockAction::WriteInfo(contents) && contents@
            == request.user@ + "\n"@ + text::decimal(request.now as nat)),
        event is DirectoryExists <==> action is ReadInfo,
        event is InfoWritten <==> action is Hold,
        event is InfoRead && request.now > parsed.stamp + 600 ==> (
        action matches LockAction::RemoveStale(warning) && warning@
            == "warning: Detected stale lock from "@ + parsed.user@ + " at "@ + parsed.stamp_text@
            + ". Attempting to force remove."@),
        event is InfoRead && request.now <= parsed.stamp + 600 ==> (
        action matches LockAction::Fail(error) && error@ == StorageFault::Other(
            "Remote repository is locked by another process ("@ + parsed.user@
                + "). Try again later."@,
        )),
        event matches LockEvent::DirectoryFailed(e) ==> (action matches LockAction::Fail(error)
            && error@ == StorageFault::Other("Failed to acquire lock: "@ + e@)),
        event matches LockEvent::InfoFailed(e) ==> (action matches LockAction::Fail(error) && error@
            == StorageFault::Io(e@)),
        event is InfoUnreadable ==> (action matches LockAction::Fail(error) && error@
            == StorageFault::Other(
            "Remote repository is locked by an unknown process. Lock directory exists but info file is unreadable."@,
        )),
{
}

/// Files, the lock and what is written of the lock are under the root.
pub proof fn law_files_are_under_the_root(
    storage: LocalStorage,
    front: Seq<char>,
    relative: &str,
    path: String,
    lock: String,
    info: String,
)
    requires
        storage@ == front || storage@ == front.push('/'),
        front.len() > 0,
        front.last() != '/',
        relative@.len() == 0 || relative@[0] != '/',
        call_ensures(LocalStorage::full_path, (&storage, relative), path),
        call_ensures(LocalStorage::lock_dir, (&storage,), lock),
        call_ensures(LocalStorage::lock_info, (&storage,), info),
    ensures
        path@ == front + "/"@ + relative@,
        lock@ == front + "/pqcrypt.lock"@,
        info@ == front + "/pqcrypt.lock/info"@,
{
    reveal_strlit("/");
    reveal_strlit("pqcrypt.lock");
    reveal_strlit("info");
    reveal_strlit("/pqcrypt.lock");
    reveal_strlit("/pqcrypt.lock/info");
    assert(path@ =~= front + "/"@ + relative@);
    assert(lock@ =~= front + "/pqcrypt.lock"@);
    assert(info@ =~= front + "/pqcrypt.lock/info"@);
}

/// A file that is there is had as it is, one that is not is told from a failure.
pub proof fn law_missing_file_is_told_from_a_failure(
    path: &str,
    answer: FileAnswer,
    contents: Result<Vec<u8>, StorageError>,
)
    requires
        call_ensures(LocalStorage::get, (path, answer), contents),
    ensures
        answer matches FileAnswer::Contents(bytes) ==> contents == Ok::<Vec<u8>, StorageError>(
            bytes,
        ),
        answer is Missing ==> (contents matches Err(e) && e@ == StorageFault::NotFound(path@)),
        answer matches FileAnswer::Failed(text) ==> (contents matches Err(e) && e@
            == StorageFault::Io(text@)),
{
}

/// A lock is taken in the name of the user, or of nobody that is known.
pub proof fn law_lock_is_taken_in_the_name_of_the_user(user: Option<String>, name: String)
    requires
        call_ensures(lock_user, (user,), name),
    ensures
        user matches Some(u) ==> name@ == u@,
        user is None ==> name@ == "unknown"@,
{
}

/// What is listed is the names that are texts.
pub proof fn law_listing_has_the_names_that_are_texts(
    names: Vec<Option<String>>,
    list: Vec<String>,
    front: Seq<Option<String>>,
    name: Option<String>,
    back: Seq<Option<String>>,
)
    requires
        call_ensures(LocalStorage::list, (names,), list),
        names@ == front + (seq![name] + back),
    ensures
        list@ == names_that_are_texts(front) + ((match name {
            Some(text) => seq![text],
            None => Seq::<String>::empty(),
        }) + names_that_are_texts(back)),
{
    let any = match name {
        Some(text) => text,
        None => arbitrary(),
    };
    law_names_that_are_texts_are_kept(front, seq![name] + back, any);
    law_names_that_are_texts_are_kept(seq![name], back, any);
}

} // verus!
