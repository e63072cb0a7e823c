//! A fetch, step by step.
//!
//! Packfiles are taken in the order in which they were stored, as a later one
//! may build on an earlier one.  One whose commits are all there is passed over.

use crate::text;
use crate::text::list3;
use crate::types::packfilerecord::{Packfile, PackfileRecord};
use crate::workers::gitworker::{GitError, GitWorker};
use vstd::prelude::*;

verus! {

/// Where a fetch is: at a packfile, and at a commit of it.
#[derive(Debug, Clone, Copy, PartialEq, Eq, Structural)]
pub struct FetchCursor {
    /// The place of the packfile.
    pub pack: usize,
    /// The place of the commit.
    pub commit: usize,
}

/// What happened in a fetch.
#[derive(Debug, Clone, Copy, PartialEq, Eq, Structural)]
pub enum FetchEvent {
    /// It began.
    Begun,
    /// The commit that was asked for is there.
    Present,
    /// The commit that was asked for is not there.
    Missing,
    /// The packfile was unpacked.
    Unpacked,
}

/// What is to be done next in a fetch.
#[derive(Debug)]
pub enum FetchAction {
    /// See whether a commit is there.
    Check(String),
    /// Unpack the packfile that is stored at a path.
    Unpack(String),
    /// Nothing: all commits are there.
    Done,
}

/// What a `FetchAction` stands for.
pub enum FetchStep {
    Check(Seq<char>),
    Unpack(Seq<char>),
    Done,
}

impl View for FetchAction {
    type V = FetchStep;

    open spec fn view(&self) -> FetchStep {
        match *self {
            FetchAction::Check(hash) => FetchStep::Check(hash@),
            FetchAction::Unpack(path) => FetchStep::Unpack(path@),
            FetchAction::Done => FetchStep::Done,
        }
    }
}

/// The next commit to be asked for, from a place on: the place of its packfile,
/// and its place there.  At the end, the number of packfiles.
pub open spec fn next_commit(packs: Seq<Packfile>, pack: int, commit: int) -> (int, int)
    decreases packs.len() - pack,
{
    if pack >= packs.len() {
        (packs.len() as int, 0)
    } else if commit < packs[pack].contains_commits.len() {
        (pack, commit)
    } else {
        next_commit(packs, pack + 1, 0)
    }
}

/// What is to be asked for at a place: the commit, if there is one.
pub open spec fn question(packs: Seq<Packfile>, place: (int, int)) -> FetchStep {
    if place.0 >= packs.len() {
        FetchStep::Done
    } else {
        FetchStep::Check(packs[place.0].contains_commits[place.1])
    }
}

/// Where a fetch is after an event, and what is to be done next: a missing
/// commit has its packfile unpacked, and a commit that is there leads to the
/// next.
pub open spec fn fetch_step(
    packs: Seq<Packfile>,
    pack: int,
    commit: int,
    event: FetchEvent,
) -> ((int, int), FetchStep) {
    match event {
        FetchEvent::Begun => {
            let place = next_commit(packs, 0, 0);
            (place, question(packs, place))
        },
        FetchEvent::Present => {
            let place = next_commit(packs, pack, commit + 1);
            (place, question(packs, place))
        },
        FetchEvent::Missing => ((pack, commit), FetchStep::Unpack(packs[pack].path)),
        FetchEvent::Unpacked => {
            let place = next_commit(packs, pack + 1, 0);
            (place, question(packs, place))
        },
    }
}

impl FetchCursor {
    /// The beginning of a fetch.
    pub fn new() -> (cursor: Self)
        ensures
            cursor == (FetchCursor { pack: 0, commit: 0 }),
    {
        FetchCursor { pack: 0, commit: 0 }
    }

    /// Goes to the next commit to be asked for.
    fn seek(packs: &Vec<PackfileRecord>, from: FetchCursor) -> (cursor: FetchCursor)
        requires
            from.pack <= packs@.len(),
        ensures
            (cursor.pack as int, cursor.commit as int) == next_commit(
                Seq::new(packs@.len(), |i: int| packs@[i]@),
                from.pack as int,
                from.commit as int,
            ),
            cursor.pack <= packs@.len(),
            cursor.pack < packs@.len() ==> cursor.commit
                < packs@[cursor.pack as int].contains_commits@.len(),
    {
        let ghost all = Seq::new(packs@.len(), |i: int| packs@[i]@);
        let mut pack: usize = from.pack;
        let mut commit: usize = from.commit;
        while pack < packs.len()
            invariant
                pack <= packs@.len(),
                all == Seq::new(packs@.len(), |i: int| packs@[i]@),
                next_commit(all, pack as int, commit as int) == next_commit(
                    all,
                    from.pack as int,
                    from.commit as int,
                ),
            decreases packs@.len() - pack,
        {
            assert(all[pack as int] == packs@[pack as int]@);
            if commit < packs[pack].contains_commits.len() {
                return FetchCursor { pack, commit };
            }
            pack = pack + 1;
            commit = 0;
        }
        FetchCursor { pack, commit: 0 }
    }

    /// What is to be asked for at the cursor.
    fn ask(&self, packs: &Vec<PackfileRecord>) -> (action: FetchAction)
        requires
            self.pack < packs@.len() ==> self.commit
                < packs@[self.pack as int].contains_commits@.len(),
        ensures
            action@ == question(
                Seq::new(packs@.len(), |i: int| packs@[i]@),
                (self.pack as int, self.commit as int),
            ),
    {
        if self.pack < packs.len() {
            let ghost all = Seq::new(packs@.len(), |i: int| packs@[i]@);
            assert(all[self.pack as int] == packs@[self.pack as int]@);
            let hash = &packs[self.pack].contains_commits[self.commit];
            FetchAction::Check(hash.as_str().to_owned())
        } else {
            FetchAction::Done
        }
    }

    /// Goes on after an event, and says what is to be done next.
    pub fn advance(&mut self, worker: &GitWorker, event: FetchEvent) -> (action: FetchAction)
        requires
            event is Begun || (old(self).pack < worker.packs().len() && old(self).commit
                < worker.packs()[old(self).pack as int].contains_commits.len()),
        ensures
            ((final(self).pack as int, final(self).commit as int), action@) == fetch_step(
                worker.packs(),
                old(self).pack as int,
                old(self).commit as int,
                event,
            ),
            action is Done <==> final(self).pack >= worker.packs().len(),
            !(action is Done) ==> final(self).commit
                < worker.packs()[final(self).pack as int].contains_commits.len(),
    {
        let packs = &worker.manifest().packfiles;
        let ghost all = worker.packs();
        assert(all == Seq::new(packs@.len(), |i: int| packs@[i]@));
        match event {
            FetchEvent::Begun => {
                *self = FetchCursor::seek(packs, FetchCursor { pack: 0, commit: 0 });
                self.ask(packs)
            },
            FetchEvent::Present => {
                assert(all[self.pack as int] == packs@[self.pack as int]@);
                let commits: usize = packs[self.pack].contains_commits.len();
                assert(self.commit < commits);
                let commit: usize = self.commit + 1;
                *self = FetchCursor::seek(packs, FetchCursor { pack: self.pack, commit });
                self.ask(packs)
            },
            FetchEvent::Missing => {
                assert(all[self.pack as int] == packs@[self.pack as int]@);
                FetchAction::Unpack(packs[self.pack].path.clone())
            },
            FetchEvent::Unpacked => {
                let count: usize = packs.len();
                assert(self.pack < count);
                let pack: usize = self.pack + 1;
                *self = FetchCursor::seek(packs, FetchCursor { pack, commit: 0 });
                self.ask(packs)
            },
        }
    }
}

/// The arguments with which Git says whether a commit is there.
pub fn checking_args(hash: &str) -> (args: Vec<String>)
    ensures
        text::texts(args@) == seq!["cat-file"@, "-e"@, hash@],
{
    list3("cat-file", "-e", hash)
}

/// The arguments with which Git unpacks a packfile.
pub fn unpacking_args() -> (args: Vec<String>)
    ensures
        text::texts(args@) == seq!["index-pack"@, "--stdin"@, "--fix-thin"@],
{
    list3("index-pack", "--stdin", "--fix-thin")
}

/// What a check comes to.
pub fn after_checking(success: bool) -> (event: FetchEvent)
    ensures
        event == if success {
            FetchEvent::Present
        } else {
            FetchEvent::Missing
        },
{
    if success {
        FetchEvent::Present
    } else {
        FetchEvent::Missing
    }
}

/// What unpacking comes to.
pub fn after_unpacking(success: bool) -> (event: Result<FetchEvent, GitError>)
    ensures
        event == if success {
            Ok::<FetchEvent, GitError>(FetchEvent::Unpacked)
        } else {
            Err::<FetchEvent, GitError>(GitError::IndexPack)
        },
{
    if success {
        Ok(FetchEvent::Unpacked)
    } else {
        Err(GitError::IndexPack)
    }
}

/// From a place on, only packfiles without commits are passed over.
proof fn lemma_next_commit(packs: Seq<Packfile>, pack: int, commit: int)
    requires
        0 <= pack <= packs.len(),
        0 <= commit,
    ensures
        pack <= next_commit(packs, pack, commit).0 <= packs.len(),
        next_commit(packs, pack, commit).0 < packs.len() ==> 0 <= next_commit(packs, pack, commit).1
            < packs[next_commit(packs, pack, commit).0].contains_commits.len(),
        next_commit(packs, pack, commit).0 == pack && pack < packs.len() ==> next_commit(
            packs,
            pack,
            commit,
        ).1 == commit,
        forall|p: int|
            pack < p < next_commit(packs, pack, commit).0 ==> (
            #[trigger] packs[p]).contains_commits.len() == 0,
    decreases packs.len() - pack,
{
    if pack < packs.len() && commit >= packs[pack].contains_commits.len() {
        lemma_next_commit(packs, pack + 1, 0);
    }
}

/// A fetch leaves no packfile out: it goes forward only, and on the way from one
/// packfile to a later one it passes over packfiles without commits only.
pub proof fn law_fetch_leaves_no_packfile_out(
    packs: Seq<Packfile>,
    pack: int,
    commit: int,
    event: FetchEvent,
)
    requires
        0 <= pack < packs.len(),
        0 <= commit < packs[pack].contains_commits.len(),
        !(event is Begun),
    ensures
        ({
            let (place, step) = fetch_step(packs, pack, commit, event);
            &&& pack <= place.0 <= packs.len()
            &&& forall|p: int|
                pack < p < place.0 ==> (#[trigger] packs[p]).contains_commits.len() == 0
            &&& event is Unpacked ==> place.0 > pack
            &&& event is Present && place.0 == pack ==> place.1 == commit + 1
            &&& event is Present && place.0 > pack ==> commit + 1
                == packs[pack].contains_commits.len()
        }),
{
    match event {
        FetchEvent::Present => {
            lemma_next_commit(packs, pack, commit + 1);
        },
        FetchEvent::Unpacked => {
            lemma_next_commit(packs, pack + 1, 0);
            let place = next_commit(packs, pack + 1, 0);
            assert forall|p: int| pack < p < place.0 implies (
            #[trigger] packs[p]).contains_commits.len() == 0 by {
                if p == pack + 1 {
                    assert(place.0 > pack + 1);
                }
            }
        },
        _ => {},
    }
}

/// A packfile is unpacked exactly when one of its commits was asked for and is
/// missing, and it is that packfile.
pub proof fn law_packfile_is_unpacked_when_a_commit_is_missing(
    packs: Seq<Packfile>,
    pack: int,
    commit: int,
    event: FetchEvent,
)
    requires
        0 <= pack < packs.len(),
    ensures
        fetch_step(packs, pack, commit, event).1 is Unpack <==> event is Missing,
        event is Missing ==> fetch_step(packs, pack, commit, event) == (
            (pack, commit),
            FetchStep::Unpack(packs[pack].path),
        ),
{
}

/// A fetch begins with the first commit there is: only packfiles without commits
/// come before it, and it is done at once only where there is no commit at all.
pub proof fn law_fetch_begins_with_the_first_commit(packs: Seq<Packfile>, pack: int, commit: int)
    ensures
        ({
            let (place, step) = fetch_step(packs, pack, commit, FetchEvent::Begun);
            &&& 0 <= place.0 <= packs.len()
            &&& forall|p: int| 0 <= p < place.0 ==> (#[trigger] packs[p]).contains_commits.len() == 0
            &&& place.0 < packs.len() ==> {
                &&& packs[place.0].contains_commits.len() > 0
                &&& place.1 == 0
                &&& step == FetchStep::Check(packs[place.0].contains_commits[0])
            }
            &&& step is Done <==> forall|p: int|
                0 <= p < packs.len() ==> (#[trigger] packs[p]).contains_commits.len() == 0
        }),
{
    lemma_next_commit(packs, 0, 0);
    let place = next_commit(packs, 0, 0);
    if place.0 > 0 {
        assert(packs[0].contains_commits.len() == 0);
    }
    if place.0 < packs.len() {
        assert(packs[place.0].contains_commits.len() > 0);
        lemma_next_commit_is_first(packs, 0, 0);
    }
}

/// In a packfile that the search comes to, it begins with the first commit.
proof fn lemma_next_commit_is_first(packs: Seq<Packfile>, pack: int, commit: int)
    requires
        0 <= pack <= packs.len(),
        0 <= commit,
    ensures
        next_commit(packs, pack, commit).0 > pack && next_commit(packs, pack, commit).0
            < packs.len() ==> next_commit(packs, pack, commit).1 == 0,
    decreases packs.len() - pack,
{
    if pack < packs.len() && commit >= packs[pack].contains_commits.len() {
        lemma_next_commit_is_first(packs, pack + 1, 0);
        lemma_next_commit(packs, pack + 1, 0);
    }
}

/// After a commit that is there, and after a packfile that was unpacked, a fetch
/// asks for the very next commit: the next of the same packfile where there is
/// one, and else the first of the next packfile that has any; it is done only
/// where there is none.
pub proof fn law_fetch_goes_on_with_the_next_commit(
    packs: Seq<Packfile>,
    pack: int,
    commit: int,
    event: FetchEvent,
)
    requires
        0 <= pack < packs.len(),
        0 <= commit < packs[pack].contains_commits.len(),
        event is Present || event is Unpacked,
    ensures
        ({
            let (place, step) = fetch_step(packs, pack, commit, event);
            &&& event is Present && commit + 1 < packs[pack].contains_commits.len() ==> place == (
                pack,
                commit + 1,
            )
            &&& event is Unpacked || commit + 1 == packs[pack].contains_commits.len() ==> {
                &&& pack < place.0 <= packs.len()
                &&& forall|p: int|
                    pack < p < place.0 ==> (#[trigger] packs[p]).contains_commits.len() == 0
                &&& place.0 < packs.len() ==> place.1 == 0
            }
            &&& place.0 < packs.len() ==> {
                &&& 0 <= place.1 < packs[place.0].contains_commits.len()
                &&& step == FetchStep::Check(packs[place.0].contains_commits[place.1])
            }
            &&& step is Done <==> place.0 == packs.len()
        }),
{
    law_fetch_leaves_no_packfile_out(packs, pack, commit, event);
    if event is Present {
        lemma_next_commit(packs, pack, commit + 1);
        lemma_next_commit_is_first(packs, pack, commit + 1);
    } else {
        lemma_next_commit(packs, pack + 1, 0);
        lemma_next_commit_is_first(packs, pack + 1, 0);
    }
}

/// A moment of a fetch: what happened, where the fetch is then, and what is to be
/// done.
pub struct FetchMoment {
    pub event: FetchEvent,
    pub place: (int, int),
    pub step: FetchStep,
}

/// Whether an event can come of a step of a fetch.
pub open spec fn comes_of(event: FetchEvent, step: FetchStep) -> bool {
    match event {
        FetchEvent::Begun => false,
        FetchEvent::Present => step is Check,
        FetchEvent::Missing => step is Check,
        FetchEvent::Unpacked => step is Unpack,
    }
}

/// Whether moments are those of one fetch, or of its beginning.
pub open spec fn is_fetch(packs: Seq<Packfile>, moments: Seq<FetchMoment>) -> bool {
    &&& moments.len() > 0
    &&& moments[0].event is Begun
    &&& (moments[0].place, moments[0].step) == fetch_step(packs, 0, 0, FetchEvent::Begun)
    &&& forall|i: int|
        0 < i < moments.len() ==> {
            let before = moments[i - 1];
            let now = #[trigger] moments[i];
            &&& comes_of(now.event, before.step)
            &&& (now.place, now.step) == fetch_step(
                packs,
                before.place.0,
                before.place.1,
                now.event,
            )
        }
}

/// Whether a commit was seen to be there at a moment, or its packfile was
/// unpacked: Git was asked for that commit, or given that packfile, just before.
pub open spec fn is_had_at(
    packs: Seq<Packfile>,
    moments: Seq<FetchMoment>,
    pack: int,
    commit: int,
    i: int,
) -> bool {
    &&& 0 < i < moments.len()
    &&& {
        ||| {
            &&& moments[i].event is Present
            &&& moments[i - 1].place == (pack, commit)
            &&& moments[i - 1].step == FetchStep::Check(packs[pack].contains_commits[commit])
        }
        ||| {
            &&& moments[i].event is Unpacked
            &&& moments[i - 1].place.0 == pack
            &&& moments[i - 1].step == FetchStep::Unpack(packs[pack].path)
        }
    }
}

/// Whether a place comes before another.
spec fn precedes(pack: int, commit: int, place: (int, int)) -> bool {
    pack < place.0 || (pack == place.0 && commit < place.1)
}

/// Up to a moment, a fetch is where its step says, and has all that comes before.
proof fn lemma_fetch_so_far(
    packs: Seq<Packfile>,
    moments: Seq<FetchMoment>,
    last: int,
    pack: int,
    commit: int,
)
    requires
        is_fetch(packs, moments),
        0 <= last < moments.len(),
        0 <= pack < packs.len(),
        0 <= commit < packs[pack].contains_commits.len(),
    ensures
        ({
            let place = moments[last].place;
            &&& 0 <= place.0 <= packs.len()
            &&& place.0 < packs.len() ==> 0 <= place.1 < packs[place.0].contains_commits.len()
            &&& match moments[last].step {
                FetchStep::Done => place.0 == packs.len(),
                FetchStep::Check(hash) => place.0 < packs.len() && hash
                    == packs[place.0].contains_commits[place.1],
                FetchStep::Unpack(path) => place.0 < packs.len() && path == packs[place.0].path,
            }
            &&& precedes(pack, commit, place) ==> exists|i: int|
                i <= last && #[trigger] is_had_at(packs, moments, pack, commit, i)
        }),
    decreases last,
{
    if last == 0 {
        law_fetch_begins_with_the_first_commit(packs, 0, 0);
        if pack < moments[0].place.0 {
            assert(packs[pack].contains_commits.len() == 0);
        }
        lemma_next_commit(packs, 0, 0);
    } else {
        lemma_fetch_so_far(packs, moments, last - 1, pack, commit);
        let before = moments[last - 1];
        let now = moments[last];
        assert(comes_of(now.event, before.step));
        if now.event is Present || now.event is Unpacked {
            law_fetch_goes_on_with_the_next_commit(
                packs,
                before.place.0,
                before.place.1,
                now.event,
            );
        }
        if precedes(pack, commit, now.place) && !precedes(pack, commit, before.place) {
            if pack > before.place.0 {
                assert(packs[pack].contains_commits.len() == 0);
            }
            assert(is_had_at(packs, moments, pack, commit, last));
        }
    }
}

/// A fetch is done only when everything is there: each commit of each packfile was
/// seen to be there, or its packfile was unpacked.
pub proof fn law_fetch_is_done_when_every_commit_is_there(
    packs: Seq<Packfile>,
    moments: Seq<FetchMoment>,
    pack: int,
    commit: int,
)
    requires
        is_fetch(packs, moments),
        moments.last().step is Done,
        0 <= pack < packs.len(),
        0 <= commit < packs[pack].contains_commits.len(),
    ensures
        exists|i: int| #[trigger] is_had_at(packs, moments, pack, commit, i),
{
    lemma_fetch_so_far(packs, moments, moments.len() - 1, pack, commit);
}

/// A missing commit has its packfile unpacked, and no commit is passed over where
/// Git has not said that it is there.
pub proof fn law_check_says_what_git_said(success: bool, event: FetchEvent)
    requires
        call_ensures(after_checking, (success,), event),
    ensures
        event is Present <==> success,
        event is Missing <==> !success,
{
}

/// A cursor goes where the fetch goes, from its beginning on.
pub proof fn law_cursor_goes_where_the_fetch_goes(
    cursor: &mut FetchCursor,
    worker: GitWorker,
    event: FetchEvent,
    action: FetchAction,
)
    requires
        call_ensures(FetchCursor::advance, (cursor, &worker, event), action),
    ensures
        ((final(cursor).pack as int, final(cursor).commit as int), action@) == fetch_step(
            worker.packs(),
            old(cursor).pack as int,
            old(cursor).commit as int,
            event,
        ),
{
}

/// What Git is asked: whether it has the very commit, and to unpack what it is
/// given; and a packfile that it did not unpack ends the fetch.
pub proof fn law_git_is_asked_for_the_commit(
    hash: &str,
    args: Vec<String>,
    unpacking: Vec<String>,
    success: bool,
    event: Result<FetchEvent, GitError>,
)
    requires
        call_ensures(checking_args, (hash,), args),
        call_ensures(unpacking_args, (), unpacking),
        call_ensures(after_unpacking, (success,), event),
    ensures
        text::texts(args@) == seq!["cat-file"@, "-e"@, hash@],
        text::texts(unpacking@) == seq!["index-pack"@, "--stdin"@, "--fix-thin"@],
        success ==> (event matches Ok(e) && e is Unpacked),
        !success ==> event == Err::<FetchEvent, GitError>(GitError::IndexPack),
{
}

} // verus!
