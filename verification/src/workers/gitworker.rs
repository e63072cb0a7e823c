//! The conversation with Git: what it asks on a line, and what is answered.

use crate::outside::{wipe, STREAM_KEY_SIZE};
use crate::storage;
use crate::storage::StorageError;
use crate::text;
use crate::text::{
    join2, join3, lines, list1, list3, list4, same_text, split, starts_with, trim, trim_leading, words,
};
use crate::types::githash;
use crate::types::githash::GitHash;
use crate::types::gitref;
use crate::types::gitref::GitRef;
use crate::types::manifest;
use crate::types::manifest::{Heads, Manifest};
use crate::types::packfilerecord::{Packfile, PackfileRecord};
use crate::workers::cryptworker;
use crate::workers::cryptworker::{decrypt_bytes, encrypt_bytes, CryptError};
use vstd::prelude::*;

verus! {

/// The helper at work on one repository.
pub struct GitWorker {
    /// The master key of the repository.
    master_key: Vec<u8>,
    /// What the repository holds.
    manifest: Manifest,
    /// The commands that wait for the end of their batch.
    batch: Vec<String>,
}

/// One command of a batch.
#[derive(Debug)]
pub enum BatchItem {
    /// Push by a refspec; `dst` is what the answer calls it.
    Push { refspec: String, dst: String },
    /// Fetch; `arg` is what a complaint calls it.
    Fetch { arg: String },
}

/// What a `BatchItem` stands for.
pub enum Command {
    Push { refspec: Seq<char>, dst: Seq<char> },
    Fetch { arg: Seq<char> },
}

impl View for BatchItem {
    type V = Command;

    open spec fn view(&self) -> Command {
        match *self {
            BatchItem::Push { refspec, dst } => Command::Push { refspec: refspec@, dst: dst@ },
            BatchItem::Fetch { arg } => Command::Fetch { arg: arg@ },
        }
    }
}

/// What is to be done about a line.
#[derive(Debug)]
pub enum LineAction {
    /// Print these lines.
    Print(Vec<String>),
    /// Tell the user this, aside from the conversation.
    Complain(String),
    /// Nothing: the command waits.
    Wait,
    /// Nothing: there was no batch.
    Flush,
    /// Run these commands as a batch.
    Run(Vec<BatchItem>),
}

/// What a `LineAction` stands for.
pub enum LineStep {
    Print(Seq<Seq<char>>),
    Complain(Seq<char>),
    Wait,
    Flush,
    Run(Seq<Command>),
}

/// What a batch stands for.
pub open spec fn items(list: Seq<BatchItem>) -> Seq<Command> {
    Seq::new(list.len(), |i: int| list[i]@)
}

impl View for LineAction {
    type V = LineStep;

    open spec fn view(&self) -> LineStep {
        match *self {
            LineAction::Print(list) => LineStep::Print(text::texts(list@)),
            LineAction::Complain(complaint) => LineStep::Complain(complaint@),
            LineAction::Wait => LineStep::Wait,
            LineAction::Flush => LineStep::Flush,
            LineAction::Run(list) => LineStep::Run(items(list@)),
        }
    }
}

/// What a push by a refspec is called in its answer: what stands behind the
/// colon, or the whole.
pub open spec fn destination(refspec: Seq<char>) -> Seq<char> {
    let parts = text::split_on(refspec, ':');
    if parts.len() > 1 {
        parts[1]
    } else {
        refspec
    }
}

/// The argument of a command line: its second word.
pub open spec fn argument(line: Seq<char>) -> Seq<char> {
    let parts = text::words_of(line);
    if parts.len() > 1 {
        parts[1]
    } else {
        ""@
    }
}

/// The first word of a line, or none.
pub open spec fn first_word(line: Seq<char>) -> Seq<char> {
    let parts = text::words_of(line);
    if parts.len() > 0 {
        parts[0]
    } else {
        ""@
    }
}

/// The command that a line of a batch asks for.
pub open spec fn command(line: Seq<char>) -> Command {
    if first_word(line) == "push"@ {
        let refspec = text::after_leading(argument(line), '+');
        Command::Push { refspec, dst: destination(refspec) }
    } else {
        Command::Fetch { arg: argument(line) }
    }
}

/// The commands that lines ask for.
pub open spec fn batch_of(list: Seq<Seq<char>>) -> Seq<Command> {
    Seq::new(list.len(), |i: int| command(list[i]))
}

/// The word at a place of a line, or none.
fn word_at(line: &str, place: usize) -> (word: String)
    ensures
        word@ == if place < text::words_of(line@).len() {
            text::words_of(line@)[place as int]
        } else {
            ""@
        },
{
    let parts = words(line);
    assert(text::texts(parts@).len() == parts@.len());
    if place < parts.len() {
        assert(text::texts(parts@)[place as int] == parts@[place as int]@);
        parts[place].clone()
    } else {
        "".to_owned()
    }
}

/// What a push by a refspec is called in its answer.
fn destination_of(refspec: &str) -> (dst: String)
    ensures
        dst@ == destination(refspec@),
{
    let parts = split(refspec, ':');
    assert(text::texts(parts@).len() == parts@.len());
    if parts.len() > 1 {
        assert(text::texts(parts@)[1] == parts@[1]@);
        parts[1].clone()
    } else {
        refspec.to_owned()
    }
}

/// The command that a line of a batch asks for.
fn parse_command(line: &str) -> (item: BatchItem)
    ensures
        item@ == command(line@),
{
    let arg = word_at(line, 1);
    if same_text(word_at(line, 0).as_str(), "push") {
        let refspec = trim_leading(arg.as_str(), '+');
        let dst = destination_of(refspec.as_str());
        BatchItem::Push { refspec, dst }
    } else {
        BatchItem::Fetch { arg }
    }
}

/// The line that names a reference and its commit.
pub open spec fn ref_line(entry: (Seq<char>, Seq<char>)) -> Seq<char> {
    entry.1 + " "@ + entry.0
}

/// The lines that name all references.
pub open spec fn ref_lines(listing: Seq<(Seq<char>, Seq<char>)>) -> Seq<Seq<char>> {
    Seq::new(listing.len(), |i: int| ref_line(listing[i]))
}

/// Whether the branch `main` is among references.
pub open spec fn has_main(listing: Seq<(Seq<char>, Seq<char>)>) -> bool {
    exists|i: int| manifest::names_at(listing, "refs/heads/main"@, i)
}

/// What `HEAD` points to: the branch `main`, or else the first reference.
pub open spec fn head_target(listing: Seq<(Seq<char>, Seq<char>)>) -> Seq<char> {
    if has_main(listing) {
        "refs/heads/main"@
    } else {
        listing[0].0
    }
}

/// The line that says what `HEAD` points to, where there is anything to point
/// to.
pub open spec fn head_lines(listing: Seq<(Seq<char>, Seq<char>)>) -> Seq<Seq<char>> {
    if listing.len() == 0 {
        Seq::empty()
    } else {
        seq!["@"@ + head_target(listing) + " HEAD"@]
    }
}

/// The answer to a question for the references; an empty line ends it.
pub open spec fn list_answer(listing: Seq<(Seq<char>, Seq<char>)>) -> Seq<Seq<char>> {
    ref_lines(listing) + head_lines(listing) + seq![""@]
}

/// The answer to a question for what the helper can do.
pub open spec fn capabilities_answer() -> Seq<Seq<char>> {
    seq!["push"@, "fetch"@, ""@]
}

/// What is to be done about a line, given the references and the commands that
/// wait.
pub open spec fn line_step(
    line: Seq<char>,
    listing: Seq<(Seq<char>, Seq<char>)>,
    waiting: Seq<Seq<char>>,
) -> LineStep {
    let asked = text::trimmed(line);
    let word = first_word(asked);
    if asked.len() == 0 {
        if waiting.len() == 0 {
            LineStep::Flush
        } else {
            LineStep::Run(batch_of(waiting))
        }
    } else if word == "capabilities"@ {
        LineStep::Print(capabilities_answer())
    } else if word == "list"@ {
        LineStep::Print(list_answer(listing))
    } else if word == "push"@ || word == "fetch"@ {
        LineStep::Wait
    } else {
        LineStep::Complain("error: Unknown command: "@ + asked)
    }
}

/// The commands that wait after a line: a push or a fetch waits with the others,
/// and an empty line sets all of them off.
pub open spec fn waiting_after(line: Seq<char>, waiting: Seq<Seq<char>>) -> Seq<Seq<char>> {
    let asked = text::trimmed(line);
    let word = first_word(asked);
    if asked.len() == 0 {
        Seq::empty()
    } else if word == "push"@ || word == "fetch"@ {
        waiting.push(asked)
    } else {
        waiting
    }
}

/// Whether a reference is among others.
fn mentions(heads: &Heads, name: &str) -> (yes: bool)
    ensures
        yes == exists|i: int| manifest::names_at(heads.listing(), name@, i),
{
    let mut i: usize = 0;
    while i < heads.len()
        invariant
            i <= heads.listing().len(),
            forall|j: int| 0 <= j < i ==> !manifest::names_at(heads.listing(), name@, j),
        decreases heads.listing().len() - i,
    {
        let (reference, _) = heads.entry(i);
        if same_text(reference.as_str(), name) {
            assert(manifest::names_at(heads.listing(), name@, i as int));
            return true;
        }
        i = i + 1;
    }
    false
}

impl GitWorker {
    /// The master key.
    pub closed spec fn key(self) -> Seq<u8> {
        self.master_key@
    }

    /// The references and their commits.
    pub closed spec fn refs(self) -> Seq<(Seq<char>, Seq<char>)> {
        self.manifest.heads.listing()
    }

    /// The packfiles.
    pub closed spec fn packs(self) -> Seq<Packfile> {
        self.manifest.packs()
    }

    /// The commands that wait.
    pub closed spec fn waiting(self) -> Seq<Seq<char>> {
        text::texts(self.batch@)
    }

    /// The helper at work with a master key, before it has seen the manifest.
    pub fn new(master_key: Vec<u8>) -> (worker: Self)
        ensures
            worker.key() == master_key@,
            worker.refs() == Seq::<(Seq<char>, Seq<char>)>::empty(),
            worker.packs() == Seq::<Packfile>::empty(),
            worker.waiting() == Seq::<Seq<char>>::empty(),
    {
        let worker = GitWorker { master_key, manifest: Manifest::new(), batch: Vec::new() };
        assert(worker.packs() =~= Seq::empty());
        assert(worker.waiting() =~= Seq::empty());
        worker
    }

    /// Overwrites the master key: nothing can be stored or read any more.
    pub fn erase(&mut self)
        ensures
            final(self).key() == Seq::new(old(self).key().len(), |i: int| 0u8),
            final(self).refs() == old(self).refs(),
            final(self).packs() == old(self).packs(),
            final(self).waiting() == old(self).waiting(),
    {
        wipe(&mut self.master_key);
    }

    /// The answer to a question for the references.
    pub fn list_refs(&self) -> (answer: Vec<String>)
        ensures
            text::texts(answer@) == list_answer(self.refs()),
    {
        let heads = &self.manifest.heads;
        let ghost listing = self.refs();
        let mut answer: Vec<String> = Vec::new();
        let mut i: usize = 0;
        while i < heads.len()
            invariant
                heads.listing() == listing,
                i <= listing.len(),
                answer@.len() == i,
                forall|j: int| 0 <= j < i ==> (#[trigger] answer@[j])@ == ref_line(listing[j]),
            decreases listing.len() - i,
        {
            let (reference, hash) = heads.entry(i);
            answer.push(join3(hash.as_str(), " ", reference.as_str()));
            i = i + 1;
        }
        assert(text::texts(answer@) =~= ref_lines(listing));
        if heads.len() > 0 {
            let ghost before = text::texts(answer@);
            let line = if mentions(heads, "refs/heads/main") {
                join3("@", "refs/heads/main", " HEAD")
            } else {
                let (first, _) = heads.entry(0);
                join3("@", first.as_str(), " HEAD")
            };
            answer.push(line);
            assert(text::texts(answer@) =~= before.push(line@));
        }
        assert(text::texts(answer@) =~= ref_lines(listing) + head_lines(listing));
        let ghost before = text::texts(answer@);
        answer.push("".to_owned());
        assert(text::texts(answer@) =~= before.push(""@));
        assert(text::texts(answer@) =~= list_answer(listing));
        answer
    }

    /// The commands that wait.
    fn batch_items(&self) -> (list: Vec<BatchItem>)
        ensures
            items(list@) == batch_of(self.waiting()),
    {
        let mut list: Vec<BatchItem> = Vec::new();
        let mut i: usize = 0;
        while i < self.batch.len()
            invariant
                i <= self.batch@.len(),
                list@.len() == i,
                forall|j: int| 0 <= j < i ==> (#[trigger] list@[j])@ == command(self.batch@[j]@),
            decreases self.batch@.len() - i,
        {
            list.push(parse_command(self.batch[i].as_str()));
            i = i + 1;
        }
        assert(items(list@) =~= batch_of(self.waiting()));
        list
    }

    /// What is to be done about a line.
    pub fn run(&mut self, line: &str) -> (action: LineAction)
        ensures
            action@ == line_step(line@, old(self).refs(), old(self).waiting()),
            final(self).waiting() == waiting_after(line@, old(self).waiting()),
            final(self).key() == old(self).key(),
            final(self).refs() == old(self).refs(),
            final(self).packs() == old(self).packs(),
    {
        let asked = trim(line);
        if asked.as_str().unicode_len() == 0 {
            if self.batch.len() == 0 {
                assert(self.waiting() =~= Seq::empty());
                return LineAction::Flush;
            }
            let list = self.batch_items();
            self.batch = Vec::new();
            assert(self.waiting() =~= Seq::empty());
            return LineAction::Run(list);
        }
        let word = word_at(asked.as_str(), 0);
        proof {
            reveal_strlit("capabilities");
            reveal_strlit("list");
            reveal_strlit("push");
            reveal_strlit("fetch");
            assert("list"@[0] != "push"@[0]);
            assert("capabilities"@.len() != "push"@.len());
            assert("capabilities"@.len() != "fetch"@.len());
        }
        if same_text(word.as_str(), "capabilities") {
            return LineAction::Print(list3("push", "fetch", ""));
        }
        if same_text(word.as_str(), "list") {
            return LineAction::Print(self.list_refs());
        }
        if same_text(word.as_str(), "push") || same_text(word.as_str(), "fetch") {
            let ghost before = self.waiting();
            self.batch.push(asked);
            assert(self.waiting() =~= before.push(asked@));
            return LineAction::Wait;
        }
        LineAction::Complain(join2("error: Unknown command: ", asked.as_str()))
    }
}

/// The answer to a push.
pub open spec fn push_answer(dst: Seq<char>, outcome: Result<(), Seq<char>>) -> Seq<char> {
    match outcome {
        Ok(_) => "ok "@ + dst,
        Err(e) => "error "@ + dst + " "@ + e,
    }
}

/// What the outcome of a command stands for.
pub open spec fn outcome_of(outcome: Result<(), String>) -> Result<(), Seq<char>> {
    match outcome {
        Ok(_) => Ok(()),
        Err(e) => Err(e@),
    }
}

/// The answer to a push.
pub fn answer_push(dst: &str, outcome: &Result<(), String>) -> (answer: String)
    ensures
        answer@ == push_answer(dst@, outcome_of(*outcome)),
{
    match outcome {
        Ok(_) => join2("ok ", dst),
        Err(e) => {
            let mut answer = join3("error ", dst, " ");
            answer.append(e.as_str());
            answer
        },
    }
}

/// What the user is told of a fetch that failed.
pub fn complain_of_fetch(arg: &str, e: &str) -> (complaint: String)
    ensures
        complaint@ == "error: fetch "@ + arg@ + " failed: "@ + e@,
{
    let mut complaint = join3("error: fetch ", arg, " failed: ");
    complaint.append(e);
    complaint
}

/// A batch at work: its commands, and what came of those that were run.
pub struct BatchRun {
    list: Vec<BatchItem>,
    outcomes: Vec<Result<(), String>>,
}

/// A batch one of whose commands is being run.
pub struct BatchTurn {
    list: Vec<BatchItem>,
    outcomes: Vec<Result<(), String>>,
}

/// What is to be done next of a batch.
pub enum BatchAction {
    /// Push by a refspec.
    Push { refspec: String, turn: BatchTurn },
    /// Fetch.
    Fetch { turn: BatchTurn },
    /// Print these lines; the batch is done.
    Finish(Vec<String>),
}

/// What is to be done when a command of a batch was run.
#[derive(Debug)]
pub enum BatchReply {
    /// Print this line.
    Print(String),
    /// Tell the user this, aside from the conversation.
    Complain(String),
    /// Nothing.
    Silence,
}

/// What a `BatchReply` stands for.
pub enum Reply {
    Print(Seq<char>),
    Complain(Seq<char>),
    Silence,
}

impl View for BatchReply {
    type V = Reply;

    open spec fn view(&self) -> Reply {
        match *self {
            BatchReply::Print(line) => Reply::Print(line@),
            BatchReply::Complain(complaint) => Reply::Complain(complaint@),
            BatchReply::Silence => Reply::Silence,
        }
    }
}

/// What is to be done when a command was run: a push is answered whatever came of
/// it, and a fetch is not, but the user is told where it failed.
pub open spec fn reply_to(command: Command, outcome: Result<(), Seq<char>>) -> Reply {
    match command {
        Command::Push { dst, .. } => Reply::Print(push_answer(dst, outcome)),
        Command::Fetch { arg } => match outcome {
            Ok(_) => Reply::Silence,
            Err(e) => Reply::Complain("error: fetch "@ + arg + " failed: "@ + e),
        },
    }
}

/// What the outcomes of commands stand for.
pub open spec fn outcomes_of(outcomes: Seq<Result<(), String>>) -> Seq<Result<(), Seq<char>>> {
    Seq::new(outcomes.len(), |i: int| outcome_of(outcomes[i]))
}

/// The lines that a reply prints.
pub open spec fn printed_by(reply: Reply) -> Seq<Seq<char>> {
    match reply {
        Reply::Print(line) => seq![line],
        _ => Seq::empty(),
    }
}

/// The lines that are printed while the commands of a batch are run, after as
/// many of them as there are outcomes: the answers to the pushes, in order.
pub open spec fn batch_lines(
    commands: Seq<Command>,
    outcomes: Seq<Result<(), Seq<char>>>,
) -> Seq<Seq<char>>
    decreases outcomes.len(),
{
    if outcomes.len() == 0 {
        Seq::empty()
    } else {
        batch_lines(commands, outcomes.drop_last()) + printed_by(
            reply_to(commands[outcomes.len() - 1], outcomes.last()),
        )
    }
}

/// The whole answer to a batch: the answers to its pushes, in order, and an empty
/// line.
pub open spec fn batch_answer(
    commands: Seq<Command>,
    outcomes: Seq<Result<(), Seq<char>>>,
) -> Seq<Seq<char>> {
    batch_lines(commands, outcomes).push(""@)
}

impl BatchTurn {
    #[verifier::type_invariant]
    spec fn has_a_command(self) -> bool {
        self.outcomes@.len() < self.list@.len()
    }

    /// The commands of the batch.
    pub closed spec fn commands(self) -> Seq<Command> {
        items(self.list@)
    }

    /// What came of the commands that were run.
    pub closed spec fn outcomes(self) -> Seq<Result<(), Seq<char>>> {
        outcomes_of(self.outcomes@)
    }

    /// Goes on where the command was run, whatever came of it, and says what is to
    /// be done about that.
    pub fn ran(self, outcome: Result<(), String>) -> (next: (BatchReply, BatchRun))
        ensures
            next.1.commands() == self.commands(),
            next.1.outcomes() == self.outcomes().push(outcome_of(outcome)),
            next.0@ == reply_to(
                self.commands()[self.outcomes().len() as int],
                outcome_of(outcome),
            ),
            batch_lines(next.1.commands(), next.1.outcomes()) == batch_lines(
                self.commands(),
                self.outcomes(),
            ) + printed_by(next.0@),
    {
        proof {
            use_type_invariant(&self);
        }
        let list = self.list;
        let mut outcomes = self.outcomes;
        let reply = match &list[outcomes.len()] {
            BatchItem::Push { dst, .. } => BatchReply::Print(answer_push(dst.as_str(), &outcome)),
            BatchItem::Fetch { arg } => match &outcome {
                Ok(_) => BatchReply::Silence,
                Err(e) => BatchReply::Complain(complain_of_fetch(arg.as_str(), e.as_str())),
            },
        };
        let ghost before = outcomes_of(outcomes@);
        outcomes.push(outcome);
        assert(outcomes_of(outcomes@) =~= before.push(outcome_of(outcome)));
        assert(before.push(outcome_of(outcome)).drop_last() =~= before);
        (reply, BatchRun { list, outcomes })
    }
}

impl BatchRun {
    #[verifier::type_invariant]
    spec fn has_run_no_more_than_there_is(self) -> bool {
        self.outcomes@.len() <= self.list@.len()
    }

    /// The commands of the batch.
    pub closed spec fn commands(self) -> Seq<Command> {
        items(self.list@)
    }

    /// What came of the commands that were run.
    pub closed spec fn outcomes(self) -> Seq<Result<(), Seq<char>>> {
        outcomes_of(self.outcomes@)
    }

    /// A batch none of whose commands was run yet.
    pub fn new(list: Vec<BatchItem>) -> (run: Self)
        ensures
            run.commands() == items(list@),
            run.outcomes() == Seq::<Result<(), Seq<char>>>::empty(),
    {
        let run = BatchRun { list, outcomes: Vec::new() };
        assert(run.outcomes() =~= Seq::empty());
        run
    }

    /// What is to be done next: the commands are run one by one, whatever came of
    /// those before, and an empty line ends the answer.
    pub fn next(self) -> (action: BatchAction)
        ensures
            self.outcomes().len() <= self.commands().len(),
            match action {
                BatchAction::Push { refspec, turn } => {
                    &&& self.outcomes().len() < self.commands().len()
                    &&& self.commands()[self.outcomes().len() as int] matches Command::Push {
                        refspec: asked,
                        ..
                    }
                    &&& refspec@ == asked
                    &&& turn.commands() == self.commands()
                    &&& turn.outcomes() == self.outcomes()
                },
                BatchAction::Fetch { turn } => {
                    &&& self.outcomes().len() < self.commands().len()
                    &&& self.commands()[self.outcomes().len() as int] is Fetch
                    &&& turn.commands() == self.commands()
                    &&& turn.outcomes() == self.outcomes()
                },
                BatchAction::Finish(lines) => {
                    &&& self.outcomes().len() == self.commands().len()
                    &&& text::texts(lines@) == seq![""@]
                    &&& batch_lines(self.commands(), self.outcomes()) + text::texts(lines@)
                        == batch_answer(self.commands(), self.outcomes())
                },
            },
    {
        proof {
            use_type_invariant(&self);
        }
        if self.outcomes.len() == self.list.len() {
            let lines = list1("");
            assert(batch_lines(self.commands(), self.outcomes()) + text::texts(lines@)
                =~= batch_answer(self.commands(), self.outcomes()));
            return BatchAction::Finish(lines);
        }
        let list = self.list;
        let outcomes = self.outcomes;
        let refspec = match &list[outcomes.len()] {
            BatchItem::Push { refspec, .. } => Some(refspec.clone()),
            BatchItem::Fetch { .. } => None,
        };
        let turn = BatchTurn { list, outcomes };
        match refspec {
            Some(refspec) => BatchAction::Push { refspec, turn },
            None => BatchAction::Fetch { turn },
        }
    }
}

/// Where a push stands among the pushes of a batch: how many come before it.
pub open spec fn pushes_before(commands: Seq<Command>, place: int) -> nat
    decreases place,
{
    if place <= 0 {
        0
    } else if commands[place - 1] is Push {
        pushes_before(commands, place - 1) + 1
    } else {
        pushes_before(commands, place - 1)
    }
}

/// Each push is answered once, and in order, whatever came of the others, and no
/// fetch is: the answer to a batch has a line for each push, and an empty line at
/// its end; the answer to a push stands behind those to the pushes before it.
pub proof fn law_each_push_is_answered_once(
    commands: Seq<Command>,
    outcomes: Seq<Result<(), Seq<char>>>,
    place: int,
)
    requires
        outcomes.len() == commands.len(),
        0 <= place < commands.len(),
    ensures
        batch_answer(commands, outcomes).len() == pushes_before(
            commands,
            commands.len() as int,
        ) + 1,
        batch_answer(commands, outcomes).last() == ""@,
        commands[place] matches Command::Push { dst, .. } ==> batch_answer(
            commands,
            outcomes,
        )[pushes_before(commands, place) as int] == push_answer(dst, outcomes[place]),
{
    lemma_push_is_answered(commands, outcomes, place);
}

/// The answer to a push stands behind those to the pushes before it.
proof fn lemma_push_is_answered(
    commands: Seq<Command>,
    outcomes: Seq<Result<(), Seq<char>>>,
    place: int,
)
    requires
        outcomes.len() <= commands.len(),
    ensures
        batch_lines(commands, outcomes).len() == pushes_before(commands, outcomes.len() as int),
        0 <= place < outcomes.len() ==> (commands[place] matches Command::Push { dst, .. } ==> {
            &&& pushes_before(commands, place) < batch_lines(commands, outcomes).len()
            &&& batch_lines(commands, outcomes)[pushes_before(commands, place) as int]
                == push_answer(dst, outcomes[place])
        }),
    decreases outcomes.len(),
{
    if outcomes.len() > 0 {
        lemma_push_is_answered(commands, outcomes.drop_last(), place);
    }
}

/// The commands that wait after some lines.
pub open spec fn waiting_after_all(list: Seq<Seq<char>>, waiting: Seq<Seq<char>>) -> Seq<Seq<char>>
    decreases list.len(),
{
    if list.len() == 0 {
        waiting
    } else {
        waiting_after(list.last(), waiting_after_all(list.drop_last(), waiting))
    }
}

/// Whether a line asks for a push or a fetch.
pub open spec fn is_command(line: Seq<char>) -> bool {
    let asked = text::trimmed(line);
    asked.len() > 0 && (first_word(asked) == "push"@ || first_word(asked) == "fetch"@)
}

/// What waits is run in order, and once: after some commands, an empty line sets
/// off exactly those, and leaves nothing waiting.
pub proof fn law_batch_runs_what_waited(
    list: Seq<Seq<char>>,
    blank: Seq<char>,
    listing: Seq<(Seq<char>, Seq<char>)>,
)
    requires
        list.len() > 0,
        forall|i: int| 0 <= i < list.len() ==> is_command(#[trigger] list[i]),
        text::trimmed(blank).len() == 0,
    ensures
        line_step(blank, listing, waiting_after_all(list, Seq::empty())) == LineStep::Run(
            batch_of(Seq::new(list.len(), |i: int| text::trimmed(list[i]))),
        ),
        waiting_after(blank, waiting_after_all(list, Seq::empty())) == Seq::<Seq<char>>::empty(),
{
    lemma_commands_wait(list);
}

/// Commands wait in order.
proof fn lemma_commands_wait(list: Seq<Seq<char>>)
    requires
        forall|i: int| 0 <= i < list.len() ==> is_command(#[trigger] list[i]),
    ensures
        waiting_after_all(list, Seq::empty()) == Seq::new(
            list.len(),
            |i: int| text::trimmed(list[i]),
        ),
    decreases list.len(),
{
    let waiting = Seq::new(list.len(), |i: int| text::trimmed(list[i]));
    if list.len() == 0 {
        assert(waiting_after_all(list, Seq::empty()) =~= waiting);
    } else {
        let shorter = list.drop_last();
        assert forall|i: int| 0 <= i < shorter.len() implies is_command(#[trigger] shorter[i]) by {
            assert(is_command(list[i]));
        }
        lemma_commands_wait(shorter);
        assert(is_command(list[list.len() - 1]));
        assert(waiting_after_all(list, Seq::empty()) =~= waiting);
    }
}

/// Why a push or a fetch failed.
#[derive(Debug)]
pub enum GitError {
    /// A refspec is not one reference, a colon and another.
    InvalidRefspec(String),
    /// There is no branch to push to a reference.
    NoLocalRef(String),
    /// Git gave a text for a hash that is none.
    InvalidHash(String),
    /// Git did not make a packfile.
    PackObjects,
    /// Git did not unpack a packfile.
    IndexPack,
    /// What is stored could not be encrypted or decrypted.
    Crypt(CryptError),
    /// The storage failed.
    Storage(StorageError),
}

impl GitError {
    /// What the user is told of this error.
    pub fn message(&self) -> (text: String)
        ensures
            text@ == match *self {
                GitError::InvalidRefspec(refspec) => "Invalid refspec: "@ + refspec@,
                GitError::NoLocalRef(name) => "No local ref found for "@ + name@,
                GitError::InvalidHash(hash) => "Invalid Git SHA-1 hash format: "@ + hash@,
                GitError::PackObjects => "git pack-objects failed"@,
                GitError::IndexPack => "git index-pack failed"@,
                GitError::Crypt(e) => cryptworker::crypt_error_text(e),
                GitError::Storage(e) => storage::storage_error_text(e@),
            },
    {
        match self {
            GitError::InvalidRefspec(refspec) => join2("Invalid refspec: ", refspec.as_str()),
            GitError::NoLocalRef(name) => join2("No local ref found for ", name.as_str()),
            GitError::InvalidHash(hash) => join2(
                "Invalid Git SHA-1 hash format: ",
                hash.as_str(),
            ),
            GitError::PackObjects => "git pack-objects failed".to_owned(),
            GitError::IndexPack => "git index-pack failed".to_owned(),
            GitError::Crypt(e) => e.message(),
            GitError::Storage(e) => e.message(),
        }
    }
}

/// The references that a listing of branches names, and their commits; the text
/// of the first hash that is none where there is one.  Lines that are not two
/// words say nothing.
pub open spec fn heads_of(list: Seq<Seq<char>>) -> Result<Map<Seq<char>, Seq<char>>, Seq<char>>
    decreases list.len(),
{
    if list.len() == 0 {
        Ok(Map::empty())
    } else {
        match heads_of(list.drop_last()) {
            Err(e) => Err(e),
            Ok(heads) => {
                let parts = text::words_of(list.last());
                if parts.len() != 2 {
                    Ok(heads)
                } else if githash::is_hash(parts[0]) {
                    Ok(heads.insert(parts[1], parts[0]))
                } else {
                    Err(parts[0])
                }
            },
        }
    }
}

/// Whether a listing of branches names references only, as far as it is read.
pub open spec fn names_refs(list: Seq<Seq<char>>) -> bool {
    forall|i: int|
        0 <= i < list.len() && heads_of(list.take(i)) is Ok && text::words_of(
            #[trigger] list[i],
        ).len() == 2 ==> gitref::is_ref(text::words_of(list[i])[1])
}

/// A hash that is none stays the answer, whatever follows it.
proof fn lemma_bad_hash_stays(list: Seq<Seq<char>>, i: int, j: int)
    requires
        0 <= i <= j <= list.len(),
        heads_of(list.take(i)) is Err,
    ensures
        heads_of(list.take(j)) == heads_of(list.take(i)),
    decreases j,
{
    if i < j {
        lemma_bad_hash_stays(list, i, j - 1);
        assert(list.take(j).drop_last() =~= list.take(j - 1));
    }
}

/// Why a listing of branches could not be read.
enum ListingFault {
    /// A text for a hash is none.
    Hash(String),
    /// A text for a reference is none.
    Reference,
}

/// Reads a listing of branches.
fn read_listing(listing: &str) -> (heads: Result<Heads, ListingFault>)
    ensures
        match heads {
            Ok(h) => names_refs(text::lines_of(listing@)) && heads_of(text::lines_of(listing@))
                == Ok::<Map<Seq<char>, Seq<char>>, Seq<char>>(manifest::as_map(h.listing())),
            Err(ListingFault::Hash(t)) => names_refs(text::lines_of(listing@)) && heads_of(
                text::lines_of(listing@),
            ) == Err::<Map<Seq<char>, Seq<char>>, Seq<char>>(t@),
            Err(ListingFault::Reference) => !names_refs(text::lines_of(listing@)),
        },
{
    let list = lines(listing);
    let ghost all = text::lines_of(listing@);
    let mut heads = Heads::new();
    let mut i: usize = 0;
    proof {
        assert(text::texts(list@).len() == list@.len());
        assert(all.take(0) =~= Seq::empty());
        assert(manifest::as_map(heads.listing()) =~= Map::empty());
    }
    while i < list.len()
        invariant
            i <= list@.len(),
            list@.len() == all.len(),
            text::texts(list@) == all,
            all == text::lines_of(listing@),
            heads_of(all.take(i as int)) == Ok::<Map<Seq<char>, Seq<char>>, Seq<char>>(
                manifest::as_map(heads.listing()),
            ),
            forall|j: int|
                0 <= j < i && text::words_of(#[trigger] all[j]).len() == 2 ==> gitref::is_ref(
                    text::words_of(all[j])[1],
                ),
        decreases list@.len() - i,
    {
        assert(text::texts(list@)[i as int] == list@[i as int]@);
        let ghost parts_view = text::words_of(all[i as int]);
        assert(all.take(i + 1).drop_last() =~= all.take(i as int));
        let parts = words(list[i].as_str());
        assert(text::texts(parts@).len() == parts@.len());
        if parts.len() == 2 {
            assert(text::texts(parts@)[0] == parts@[0]@);
            assert(text::texts(parts@)[1] == parts@[1]@);
            let reference = match GitRef::new(parts[1].clone()) {
                Ok(reference) => reference,
                Err(_) => {
                    assert(!gitref::is_ref(text::words_of(all[i as int])[1]));
                    return Err(ListingFault::Reference);
                },
            };
            let hash = match GitHash::new(parts[0].clone()) {
                Ok(hash) => hash,
                Err(e) => {
                    proof {
                        let next = i + 1;
                        assert(heads_of(all.take(next)) is Err);
                        lemma_bad_hash_stays(all, next, all.len() as int);
                        assert(all.take(all.len() as int) =~= all);
                        assert forall|j: int|
                            0 <= j < all.len() && heads_of(all.take(j)) is Ok && text::words_of(
                                #[trigger] all[j],
                            ).len() == 2 implies gitref::is_ref(text::words_of(all[j])[1]) by {
                            if j > i {
                                lemma_bad_hash_stays(all, next, j);
                            }
                        }
                    }
                    return Err(ListingFault::Hash(e.text));
                },
            };
            heads.insert(reference, hash);
        }
        i = i + 1;
    }
    assert(all.take(all.len() as int) =~= all);
    Ok(heads)
}

/// Whether a listing of branches names references only, as far as it is read.
pub fn names_only_refs(listing: &str) -> (yes: bool)
    ensures
        yes == names_refs(text::lines_of(listing@)),
{
    match read_listing(listing) {
        Err(ListingFault::Reference) => false,
        _ => true,
    }
}

/// The branches of the local repository, given the listing of Git.
pub fn resolve_local_heads(listing: &str) -> (heads: Result<Heads, GitError>)
    requires
        names_refs(text::lines_of(listing@)),
    ensures
        match heads {
            Ok(h) => heads_of(text::lines_of(listing@)) == Ok::<
                Map<Seq<char>, Seq<char>>,
                Seq<char>,
            >(manifest::as_map(h.listing())),
            Err(e) => e matches GitError::InvalidHash(t) && heads_of(text::lines_of(listing@))
                == Err::<Map<Seq<char>, Seq<char>>, Seq<char>>(t@),
        },
{
    match read_listing(listing) {
        Ok(heads) => Ok(heads),
        Err(ListingFault::Hash(t)) => Err(GitError::InvalidHash(t)),
        Err(ListingFault::Reference) => vstd::pervasive::unreached(),
    }
}

/// The commits that a worker's references name.
pub open spec fn heads(worker: GitWorker) -> Map<Seq<char>, Seq<char>> {
    manifest::as_map(worker.refs())
}

/// What came of looking for the manifest.
#[derive(Debug)]
pub enum LoadedManifest {
    /// It is there; its plaintext.
    Plaintext(Vec<u8>),
    /// It is not there; what the user is told.
    Missing(String),
}

/// Whether `loaded` is what a stored manifest gives under a key: its plaintext, or
/// why there is none.
pub open spec fn is_loaded_from(
    loaded: Result<LoadedManifest, GitError>,
    stored: Seq<u8>,
    key: Seq<u8>,
) -> bool {
    match cryptworker::decrypted(stored, key) {
        Ok(plaintext) => loaded matches Ok(LoadedManifest::Plaintext(bytes)) && bytes@ == plaintext,
        Err(error) => loaded == Err::<LoadedManifest, GitError>(GitError::Crypt(error)),
    }
}

/// What was saved is loaded again: what `load_manifest` makes of what
/// `save_manifest` of a worker with the same master key gave is the plaintext
/// that was saved.
pub proof fn law_saved_manifest_is_loaded_again(
    saver: GitWorker,
    loader: GitWorker,
    plaintext: Seq<u8>,
    stored: Seq<u8>,
    loaded: Result<LoadedManifest, GitError>,
)
    requires
        loader.key() == saver.key(),
        cryptworker::encrypts(stored, saver.key(), plaintext),
        is_loaded_from(loaded, stored, loader.key()),
    ensures
        loaded matches Ok(LoadedManifest::Plaintext(bytes)) && bytes@ == plaintext,
{
    cryptworker::law_decryption_undoes_encryption(stored, saver.key(), plaintext);
}

/// What a text in which a manifest is kept says: the commits that references
/// name, and the packfiles in order; nothing where it is no such text.
pub type ManifestReader = spec_fn(Seq<u8>) -> Option<(Map<Seq<char>, Seq<char>>, Seq<Packfile>)>;

/// References and packfiles are loaded as they were saved: whatever form a
/// manifest is written in, where that form is read as what the saving worker
/// held, so is what a worker with the same master key loads, with the same
/// references and the same packfiles in the same order.
pub proof fn law_saved_references_and_packfiles_are_loaded_again(
    saver: GitWorker,
    loader: GitWorker,
    plaintext: Seq<u8>,
    stored: Seq<u8>,
    loaded: Result<LoadedManifest, GitError>,
    read: ManifestReader,
)
    requires
        read(plaintext) == Some((heads(saver), saver.packs())),
        loader.key() == saver.key(),
        cryptworker::encrypts(stored, saver.key(), plaintext),
        is_loaded_from(loaded, stored, loader.key()),
    ensures
        loaded matches Ok(LoadedManifest::Plaintext(bytes)) && read(bytes@) == Some(
            (heads(saver), saver.packs()),
        ),
{
    law_saved_manifest_is_loaded_again(saver, loader, plaintext, stored, loaded);
}

impl GitWorker {
    /// What the repository holds.
    pub fn manifest(&self) -> (manifest: &Manifest)
        ensures
            manifest.heads.listing() == self.refs(),
            manifest.packs() == self.packs(),
    {
        &self.manifest
    }

    /// Takes a manifest over.
    pub fn adopt_manifest(&mut self, manifest: Manifest)
        ensures
            final(self).refs() == manifest.heads.listing(),
            final(self).packs() == manifest.packs(),
            final(self).key() == old(self).key(),
            final(self).waiting() == old(self).waiting(),
    {
        self.manifest = manifest;
    }

    /// The commit that a reference names.
    pub fn head_of(&self, reference: &GitRef) -> (hash: Option<&GitHash>)
        ensures
            hash is Some <==> heads(*self).dom().contains(reference@),
            hash matches Some(h) ==> h@ == heads(*self)[reference@],
    {
        self.manifest.heads.get(reference)
    }

    /// Forgets a reference.
    pub(crate) fn forget(&mut self, reference: &GitRef)
        ensures
            heads(*final(self)) == heads(*old(self)).remove(reference@),
            final(self).packs() == old(self).packs(),
            final(self).key() == old(self).key(),
            final(self).waiting() == old(self).waiting(),
    {
        self.manifest.heads.remove(reference);
    }

    /// Lets a reference name a commit, and notes the packfile that brings it.
    pub(crate) fn record(&mut self, reference: GitRef, head: GitHash, id: String, path: String)
        ensures
            heads(*final(self)) == heads(*old(self)).insert(reference@, head@),
            final(self).packs() == old(self).packs().push(
                (Packfile { id: id@, path: path@, contains_commits: seq![head@] }),
            ),
            final(self).key() == old(self).key(),
            final(self).waiting() == old(self).waiting(),
    {
        let ghost before = self.packs();
        let mut commits: Vec<GitHash> = Vec::new();
        commits.push(head.clone());
        let record = PackfileRecord { id, path, contains_commits: commits };
        assert(record@.contains_commits =~= seq![head@]);
        self.manifest.heads.insert(reference, head);
        self.manifest.packfiles.push(record);
        assert(self.packs() =~= before.push(record@));
    }

    /// Encrypts what is to be stored.
    pub(crate) fn seal(&self, plaintext: &[u8]) -> (stored: Result<Vec<u8>, GitError>)
        ensures
            stored is Ok <==> self.key().len() == STREAM_KEY_SIZE && cryptworker::countable(
                plaintext@.len(),
            ),
            stored matches Ok(bytes) ==> cryptworker::encrypts(bytes@, self.key(), plaintext@),
            stored matches Err(e) ==> e == GitError::Crypt(
                if self.key().len() == STREAM_KEY_SIZE {
                    CryptError::SealStream
                } else {
                    CryptError::KeyLength
                },
            ),
    {
        match encrypt_bytes(plaintext, self.master_key.as_slice()) {
            Ok(bytes) => Ok(bytes),
            Err(e) => Err(GitError::Crypt(e)),
        }
    }

    /// Decrypts what was stored.
    pub fn open(&self, stored: &[u8]) -> (plaintext: Result<Vec<u8>, GitError>)
        ensures
            match plaintext {
                Ok(bytes) => cryptworker::decrypted(stored@, self.key()) == Ok::<
                    Seq<u8>,
                    CryptError,
                >(bytes@),
                Err(e) => e matches GitError::Crypt(error) && cryptworker::decrypted(
                    stored@,
                    self.key(),
                ) == Err::<Seq<u8>, CryptError>(error),
            },
    {
        match decrypt_bytes(stored, self.master_key.as_slice()) {
            Ok(bytes) => Ok(bytes),
            Err(e) => Err(GitError::Crypt(e)),
        }
    }

    /// Decrypts the manifest, where the storage has one.  A repository without
    /// is taken for empty.
    pub fn load_manifest(&mut self, answer: Result<Vec<u8>, StorageError>) -> (loaded: Result<
        LoadedManifest,
        GitError,
    >)
        ensures
            final(self).key() == old(self).key(),
            final(self).waiting() == old(self).waiting(),
            match answer {
                Ok(stored) => {
                    &&& final(self).refs() == old(self).refs()
                    &&& final(self).packs() == old(self).packs()
                    &&& is_loaded_from(loaded, stored@, old(self).key())
                },
                Err(e) => {
                    &&& final(self).refs() == Seq::<(Seq<char>, Seq<char>)>::empty()
                    &&& final(self).packs() == Seq::<Packfile>::empty()
                    &&& loaded matches Ok(LoadedManifest::Missing(warning))
                    &&& warning@ == "warning: Could not load manifest.enc: "@
                        + storage::storage_error_text(e@) + ". Assuming empty repository."@
                },
            },
    {
        match answer {
            Ok(stored) => match self.open(stored.as_slice()) {
                Ok(bytes) => Ok(LoadedManifest::Plaintext(bytes)),
                Err(e) => Err(e),
            },
            Err(e) => {
                self.manifest = Manifest::new();
                assert(self.packs() =~= Seq::empty());
                Ok(
                    LoadedManifest::Missing(
                        join3(
                            "warning: Could not load manifest.enc: ",
                            e.message().as_str(),
                            ". Assuming empty repository.",
                        ),
                    ),
                )
            },
        }
    }

    /// Encrypts the plaintext of the manifest.
    pub fn save_manifest(&self, plaintext: &[u8]) -> (stored: Result<Vec<u8>, GitError>)
        ensures
            stored is Ok <==> self.key().len() == STREAM_KEY_SIZE && cryptworker::countable(
                plaintext@.len(),
            ),
            stored matches Ok(bytes) ==> cryptworker::encrypts(bytes@, self.key(), plaintext@),
            stored matches Err(e) ==> e == GitError::Crypt(
                if self.key().len() == STREAM_KEY_SIZE {
                    CryptError::SealStream
                } else {
                    CryptError::KeyLength
                },
            ),
    {
        self.seal(plaintext)
    }
}

/// Git is told of every reference, with the commit that it names, and of no
/// other.
pub proof fn law_references_are_listed(
    listing: Seq<(Seq<char>, Seq<char>)>,
    reference: Seq<char>,
)
    ensures
        manifest::as_map(listing).dom().contains(reference) ==> list_answer(listing).contains(
            ref_line((reference, manifest::as_map(listing)[reference])),
        ),
        !manifest::as_map(listing).dom().contains(reference) ==> forall|i: int|
            0 <= i < listing.len() ==> (#[trigger] listing[i]).0 != reference,
{
    if manifest::as_map(listing).dom().contains(reference) {
        let i = choose|i: int| manifest::names_at(listing, reference, i);
        assert(list_answer(listing)[i] == ref_line(listing[i]));
    } else {
        assert forall|i: int| 0 <= i < listing.len() implies (#[trigger] listing[i]).0
            != reference by {
            assert(!manifest::names_at(listing, reference, i));
        }
    }
}

/// `HEAD` points to a reference that is there, and to `main` where that is there.
pub proof fn law_head_points_to_a_reference(listing: Seq<(Seq<char>, Seq<char>)>)
    requires
        listing.len() > 0,
    ensures
        exists|i: int| #[trigger] manifest::names_at(listing, head_target(listing), i),
        manifest::as_map(listing).dom().contains("refs/heads/main"@) ==> head_target(listing)
            == "refs/heads/main"@,
{
    if has_main(listing) {
        let i = choose|i: int| manifest::names_at(listing, "refs/heads/main"@, i);
        assert(manifest::names_at(listing, head_target(listing), i));
    } else {
        assert(manifest::names_at(listing, head_target(listing), 0));
    }
}

/// The URL of the first remote of the local repository that is one of the
/// helper's, given the listing of Git: a name, a URL and what it is for, line by
/// line.
pub open spec fn first_helper_url(list: Seq<Seq<char>>) -> Option<Seq<char>>
    decreases list.len(),
{
    if list.len() == 0 {
        None
    } else {
        let parts = text::words_of(list[0]);
        if parts.len() > 1 && "pqcrypt"@.is_prefix_of(parts[1]) {
            Some(parts[1])
        } else {
            first_helper_url(list.drop_first())
        }
    }
}

/// The URL of the repository that is meant where none is given: that of the
/// first remote whose URL starts with `pqcrypt`.
pub fn get_default_repo_url(listing: &str) -> (url: Option<String>)
    ensures
        first_helper_url(text::lines_of(listing@)) == match url {
            Some(u) => Some(u@),
            None => None,
        },
{
    let list = lines(listing);
    let ghost all = text::lines_of(listing@);
    let mut i: usize = 0;
    assert(text::texts(list@).len() == list@.len());
    assert(all.skip(0) =~= all);
    while i < list.len()
        invariant
            i <= list@.len(),
            text::texts(list@) == all,
            list@.len() == all.len(),
            all == text::lines_of(listing@),
            first_helper_url(all.skip(i as int)) == first_helper_url(all),
        decreases list@.len() - i,
    {
        assert(text::texts(list@)[i as int] == list@[i as int]@);
        assert(all.skip(i as int)[0] == all[i as int]);
        assert(all.skip(i as int).drop_first() =~= all.skip(i + 1));
        let parts = words(list[i].as_str());
        assert(text::texts(parts@).len() == parts@.len());
        if parts.len() > 1 {
            assert(text::texts(parts@)[1] == parts@[1]@);
            if starts_with(parts[1].as_str(), "pqcrypt") {
                return Some(parts[1].clone());
            }
        }
        i = i + 1;
    }
    None
}

/// The arguments with which Git adds the remote `pqcrypt`.
pub fn add_pqcrypt_remote(url: &str) -> (args: Vec<String>)
    ensures
        text::texts(args@) == seq!["remote"@, "add"@, "pqcrypt"@, url@],
{
    list4("remote", "add", "pqcrypt", url)
}

/// Whether a line of a listing of branches says something: a hash and a reference.
pub open spec fn says_something(line: Seq<char>) -> bool {
    text::words_of(line).len() == 2
}

/// Whether a line of a listing of branches has a text for a hash that is none.
pub open spec fn has_bad_hash(line: Seq<char>) -> bool {
    says_something(line) && !githash::is_hash(text::words_of(line)[0])
}

/// What a listing without bad hashes is read as, from its beginning on.
proof fn lemma_listing_is_read(list: Seq<Seq<char>>, i: int)
    requires
        forall|j: int| 0 <= j < list.len() ==> !has_bad_hash(#[trigger] list[j]),
    ensures
        heads_of(list) is Ok,
        0 <= i < list.len() && says_something(list[i]) && (forall|j: int|
            i < j < list.len() && says_something(#[trigger] list[j]) ==> text::words_of(list[j])[1]
                != text::words_of(list[i])[1]) ==> heads_of(list)->Ok_0.dom().contains(
            text::words_of(list[i])[1],
        ) && heads_of(list)->Ok_0[text::words_of(list[i])[1]] == text::words_of(list[i])[0],
    decreases list.len(),
{
    if list.len() > 0 {
        let shorter = list.drop_last();
        assert forall|j: int| 0 <= j < shorter.len() implies !has_bad_hash(
            #[trigger] shorter[j],
        ) by {
            assert(!has_bad_hash(list[j]));
        }
        lemma_listing_is_read(shorter, i);
        assert(!has_bad_hash(list[list.len() - 1]));
        if 0 <= i < shorter.len() && says_something(list[i]) && (forall|j: int|
            i < j < list.len() && says_something(#[trigger] list[j]) ==> text::words_of(list[j])[1]
                != text::words_of(list[i])[1]) {
            assert(shorter[i] == list[i]);
            assert forall|j: int| i < j < shorter.len() && says_something(
                #[trigger] shorter[j],
            ) implies text::words_of(shorter[j])[1] != text::words_of(shorter[i])[1] by {
                assert(shorter[j] == list[j]);
            }
            if says_something(list.last()) {
                assert(list[list.len() - 1] == list.last());
            }
        }
    }
}

/// Every line of a listing of branches counts: where no hash is bad, each
/// reference that a line names is there, with the hash of the last line that
/// names it.
pub proof fn law_every_line_of_a_listing_counts(list: Seq<Seq<char>>, i: int)
    requires
        forall|j: int| 0 <= j < list.len() ==> !has_bad_hash(#[trigger] list[j]),
        0 <= i < list.len(),
        text::words_of(list[i]).len() == 2,
        forall|j: int|
            i < j < list.len() && text::words_of(#[trigger] list[j]).len() == 2 ==> text::words_of(
                list[j],
            )[1] != text::words_of(list[i])[1],
    ensures
        heads_of(list) matches Ok(heads) && heads.dom().contains(text::words_of(list[i])[1])
            && heads[text::words_of(list[i])[1]] == text::words_of(list[i])[0],
{
    assert forall|j: int| i < j < list.len() && says_something(#[trigger] list[j]) implies text::words_of(
        list[j],
    )[1] != text::words_of(list[i])[1] by {
        assert(text::words_of(list[j]).len() == 2);
    }
    lemma_listing_is_read(list, i);
}

/// Nothing but what a line names is read from a listing of branches.
pub proof fn law_nothing_else_is_read_from_a_listing(list: Seq<Seq<char>>, reference: Seq<char>)
    ensures
        heads_of(list) matches Ok(heads) ==> (heads.dom().contains(reference) ==> exists|i: int|
            0 <= i < list.len() && text::words_of(#[trigger] list[i]).len() == 2 && text::words_of(
                list[i],
            )[1] == reference && text::words_of(list[i])[0] == heads[reference]),
    decreases list.len(),
{
    if list.len() > 0 {
        let shorter = list.drop_last();
        law_nothing_else_is_read_from_a_listing(shorter, reference);
        if heads_of(list) is Ok && heads_of(list)->Ok_0.dom().contains(reference) {
            let heads = heads_of(list)->Ok_0;
            let parts = text::words_of(list.last());
            if parts.len() == 2 && parts[1] == reference {
                assert(list[list.len() - 1] == list.last());
            } else {
                let i = choose|i: int|
                    0 <= i < shorter.len() && text::words_of(#[trigger] shorter[i]).len() == 2
                        && text::words_of(shorter[i])[1] == reference && text::words_of(
                        shorter[i],
                    )[0] == heads[reference];
                assert(list[i] == shorter[i]);
            }
        }
    }
}

/// The first bad hash of a listing of branches is what is complained of, whatever
/// comes before or behind it; where no hash is bad, the listing is read.
pub proof fn law_first_bad_hash_is_complained_of(list: Seq<Seq<char>>, i: int)
    requires
        0 <= i <= list.len(),
        forall|j: int| 0 <= j < i ==> !has_bad_hash(#[trigger] list[j]),
        i < list.len() ==> has_bad_hash(list[i]),
    ensures
        i < list.len() ==> heads_of(list) == Err::<Map<Seq<char>, Seq<char>>, Seq<char>>(
            text::words_of(list[i])[0],
        ),
        i == list.len() ==> heads_of(list) is Ok,
{
    let front = list.take(i);
    assert forall|j: int| 0 <= j < front.len() implies !has_bad_hash(#[trigger] front[j]) by {
        assert(!has_bad_hash(list[j]));
    }
    lemma_listing_is_read(front, 0);
    assert(list.take(list.len() as int) =~= list);
    if i < list.len() {
        assert(list.take(i + 1).drop_last() =~= front);
        assert(list.take(i + 1).last() == list[i]);
        lemma_bad_hash_stays(list, i + 1, list.len() as int);
    }
}

/// A listing of branches names references only, as far as it is read: up to the
/// first bad hash, each line that says something names one.
pub proof fn law_listing_is_read_up_to_a_bad_hash(list: Seq<Seq<char>>)
    ensures
        names_refs(list) <==> forall|i: int|
            0 <= i < list.len() && says_something(#[trigger] list[i]) && (forall|j: int|
                0 <= j < i ==> !has_bad_hash(#[trigger] list[j])) ==> gitref::is_ref(
                text::words_of(list[i])[1],
            ),
{
    assert forall|i: int| 0 <= i < list.len() implies ((#[trigger] heads_of(list.take(i)) is Ok)
        <==> forall|j: int| 0 <= j < i ==> !has_bad_hash(#[trigger] list[j])) by {
        let front = list.take(i);
        if forall|j: int| 0 <= j < i ==> !has_bad_hash(#[trigger] list[j]) {
            assert forall|j: int| 0 <= j < front.len() implies !has_bad_hash(
                #[trigger] front[j],
            ) by {
                assert(!has_bad_hash(list[j]));
            }
            lemma_listing_is_read(front, 0);
        } else {
            lemma_bad_hash_is_found(list, i);
        }
    }
    if names_refs(list) {
        assert forall|i: int|
            0 <= i < list.len() && says_something(#[trigger] list[i]) && (forall|j: int|
                0 <= j < i ==> !has_bad_hash(#[trigger] list[j])) implies gitref::is_ref(
            text::words_of(list[i])[1],
        ) by {
            assert(heads_of(list.take(i)) is Ok);
        }
    } else {
        let i = choose|i: int|
            0 <= i < list.len() && heads_of(list.take(i)) is Ok && text::words_of(
                #[trigger] list[i],
            ).len() == 2 && !gitref::is_ref(text::words_of(list[i])[1]);
        assert(says_something(list[i]));
        assert(heads_of(list.take(i)) is Ok);
    }
}

/// A bad hash before a place is found before it.
proof fn lemma_bad_hash_is_found(list: Seq<Seq<char>>, i: int)
    requires
        0 <= i <= list.len(),
        exists|j: int| 0 <= j < i && has_bad_hash(#[trigger] list[j]),
    ensures
        heads_of(list.take(i)) is Err,
    decreases i,
{
    let front = list.take(i);
    assert(front.drop_last() =~= list.take(i - 1));
    assert(front.last() == list[i - 1]);
    if !has_bad_hash(list[i - 1]) {
        let j = choose|j: int| 0 <= j < i && has_bad_hash(#[trigger] list[j]);
        assert(j < i - 1);
        lemma_bad_hash_is_found(list, i - 1);
    }
}

/// The local branches are those that Git lists: from a listing in which no hash is
/// bad, each branch is had with the commit of the last line that names it, and no
/// other is had.
pub proof fn law_local_branches_are_those_that_git_lists(
    listing: &str,
    heads: Result<Heads, GitError>,
    i: int,
    reference: Seq<char>,
)
    requires
        call_ensures(resolve_local_heads, (listing,), heads),
        forall|j: int|
            0 <= j < text::lines_of(listing@).len() ==> !has_bad_hash(
                #[trigger] text::lines_of(listing@)[j],
            ),
        0 <= i < text::lines_of(listing@).len(),
        text::words_of(text::lines_of(listing@)[i]).len() == 2,
        forall|j: int|
            i < j < text::lines_of(listing@).len() && text::words_of(
                #[trigger] text::lines_of(listing@)[j],
            ).len() == 2 ==> text::words_of(text::lines_of(listing@)[j])[1] != text::words_of(
                text::lines_of(listing@)[i],
            )[1],
    ensures
        heads matches Ok(h) && {
            let had = manifest::as_map(h.listing());
            let parts = text::words_of(text::lines_of(listing@)[i]);
            &&& had.dom().contains(parts[1])
            &&& had[parts[1]] == parts[0]
            &&& had.dom().contains(reference) ==> exists|j: int|
                0 <= j < text::lines_of(listing@).len() && text::words_of(
                    #[trigger] text::lines_of(listing@)[j],
                ).len() == 2 && text::words_of(text::lines_of(listing@)[j])[1] == reference
        },
{
    let list = text::lines_of(listing@);
    law_every_line_of_a_listing_counts(list, i);
    law_nothing_else_is_read_from_a_listing(list, reference);
}

/// A push is by the refspec behind its plus signs, and is called what stands
/// between the first colon and the next, or the whole where there is no colon.
pub proof fn law_push_is_called_by_its_destination(
    line: Seq<char>,
    pluses: nat,
    local: Seq<char>,
    remote: Seq<char>,
    more: Seq<char>,
)
    requires
        text::words_of(line).len() > 1,
        text::words_of(line)[0] == "push"@,
        local.len() == 0 || local[0] != '+',
        forall|i: int| 0 <= i < local.len() ==> local[i] != ':',
        forall|i: int| 0 <= i < remote.len() ==> remote[i] != ':',
    ensures
        ({
            let plus = Seq::new(pluses, |i: int| '+');
            let given = text::words_of(line)[1];
            &&& given == plus + local ==> command(line) == (Command::Push {
                refspec: local,
                dst: local,
            })
            &&& given == plus + (local + seq![':'] + remote) ==> command(line) == (Command::Push {
                refspec: local + seq![':'] + remote,
                dst: remote,
            })
            &&& given == plus + (local + seq![':'] + (remote + seq![':'] + more)) ==> command(line)
                == (Command::Push {
                refspec: local + seq![':'] + (remote + seq![':'] + more),
                dst: remote,
            })
        }),
{
    text::law_repeated_ends_are_taken_off(pluses, local, '+');
    text::law_repeated_ends_are_taken_off(pluses, local + seq![':'] + remote, '+');
    text::law_repeated_ends_are_taken_off(
        pluses,
        local + seq![':'] + (remote + seq![':'] + more),
        '+',
    );
    text::law_split_is_cut_at_each_occurrence(local, remote, ':');
    text::law_split_is_cut_at_each_occurrence(local, remote + seq![':'] + more, ':');
    text::law_split_is_cut_at_each_occurrence(remote, more, ':');
    let one = seq![local];
    assert((one + seq![remote])[1] == remote);
    assert((one + (seq![remote] + text::split_on(more, ':')))[1] == remote);
}

/// A push without a refspec pushes nothing to nothing; and what does not begin
/// with the word `push` is a fetch of its second word, or of nothing.
pub proof fn law_other_commands_are_fetches(line: Seq<char>)
    ensures
        text::words_of(line) == seq!["push"@] ==> command(line) == (Command::Push {
            refspec: ""@,
            dst: ""@,
        }),
        text::words_of(line).len() == 0 ==> command(line) == (Command::Fetch { arg: ""@ }),
        text::words_of(line).len() > 0 && text::words_of(line)[0] != "push"@ ==> command(line) == (
        Command::Fetch {
            arg: if text::words_of(line).len() > 1 {
                text::words_of(line)[1]
            } else {
                ""@
            },
        }),
{
    reveal_strlit("push");
    reveal_strlit("");
    assert(""@ =~= Seq::empty());
    text::law_split_is_cut_at_each_occurrence(""@, ""@, ':');
}

/// The answer to a question for the references is one line for each reference, in
/// order, its commit first; then, where there are any, what `HEAD` points to,
/// which is `main` where that is there and else the first; and an empty line.
pub proof fn law_list_is_answered_line_by_line(listing: Seq<(Seq<char>, Seq<char>)>, i: int)
    ensures
        list_answer(listing).len() == listing.len() + if listing.len() == 0 {
            1int
        } else {
            2int
        },
        0 <= i < listing.len() ==> list_answer(listing)[i] == listing[i].1 + " "@ + listing[i].0,
        listing.len() > 0 && (exists|j: int|
            0 <= j < listing.len() && (#[trigger] listing[j]).0 == "refs/heads/main"@)
            ==> list_answer(listing)[listing.len() as int] == "@"@ + "refs/heads/main"@ + " HEAD"@,
        listing.len() > 0 && (forall|j: int|
            0 <= j < listing.len() ==> (#[trigger] listing[j]).0 != "refs/heads/main"@)
            ==> list_answer(listing)[listing.len() as int] == "@"@ + listing[0].0 + " HEAD"@,
        list_answer(listing).last() == ""@,
{
    if exists|j: int| 0 <= j < listing.len() && (#[trigger] listing[j]).0 == "refs/heads/main"@ {
        let j = choose|j: int|
            0 <= j < listing.len() && (#[trigger] listing[j]).0 == "refs/heads/main"@;
        assert(manifest::names_at(listing, "refs/heads/main"@, j));
    }
}

/// Each line is answered by its first word, and changes what waits as it should:
/// `capabilities` and `list` are answered at once; a push or a fetch waits behind
/// the others; an empty line runs all that waits, one command for each, and leaves
/// nothing waiting; any other line is complained of and changes nothing.
pub proof fn law_line_is_answered_by_its_first_word(
    line: Seq<char>,
    listing: Seq<(Seq<char>, Seq<char>)>,
    waiting: Seq<Seq<char>>,
    i: int,
)
    ensures
        ({
            let asked = text::trimmed(line);
            let parts = text::words_of(asked);
            let step = line_step(line, listing, waiting);
            let after = waiting_after(line, waiting);
            &&& asked.len() == 0 && waiting.len() == 0 ==> step is Flush
            &&& asked.len() == 0 && waiting.len() > 0 ==> {
                &&& step matches LineStep::Run(commands)
                &&& commands.len() == waiting.len()
                &&& 0 <= i < waiting.len() ==> commands[i] == command(waiting[i])
            }
            &&& asked.len() == 0 ==> after.len() == 0
            &&& asked.len() > 0 && parts.len() > 0 ==> {
                &&& parts[0] == "capabilities"@ ==> step == LineStep::Print(
                    seq!["push"@, "fetch"@, ""@],
                ) && after == waiting
                &&& parts[0] == "list"@ ==> step == LineStep::Print(list_answer(listing)) && after
                    == waiting
                &&& parts[0] == "push"@ || parts[0] == "fetch"@ ==> step is Wait && after
                    == waiting.push(asked)
                &&& parts[0] != "capabilities"@ && parts[0] != "list"@ && parts[0] != "push"@
                    && parts[0] != "fetch"@ ==> step == LineStep::Complain(
                    "error: Unknown command: "@ + asked,
                ) && after == waiting
            }
        }),
{
    reveal_strlit("capabilities");
    reveal_strlit("list");
    reveal_strlit("push");
    reveal_strlit("fetch");
    assert("capabilities"@.len() == 12);
    assert("fetch"@.len() == 5);
    assert("list"@[0] == 'l');
    assert("push"@[0] == 'p');
}

/// A push that went well is answered `ok` and its name; one that failed is
/// answered `error`, its name and why; a fetch is answered nothing, and the user
/// is told of one that failed.
pub proof fn law_answers_say_what_came_of_a_command(
    refspec: Seq<char>,
    name: Seq<char>,
    reason: Seq<char>,
)
    ensures
        ({
            let push = Command::Push { refspec, dst: name };
            let fetch = Command::Fetch { arg: name };
            &&& reply_to(push, Ok(())) == Reply::Print("ok "@ + name)
            &&& reply_to(push, Err(reason)) == Reply::Print("error "@ + name + " "@ + reason)
            &&& reply_to(fetch, Ok(())) == Reply::Silence
            &&& reply_to(fetch, Err(reason)) == Reply::Complain(
                "error: fetch "@ + name + " failed: "@ + reason,
            )
        }),
{
}

/// Only the first helper's URL counts.
proof fn lemma_first_helper_url(list: Seq<Seq<char>>, i: int)
    requires
        0 <= i <= list.len(),
        forall|j: int|
            0 <= j < i ==> !(text::words_of(#[trigger] list[j]).len() > 1
                && "pqcrypt"@.is_prefix_of(text::words_of(list[j])[1])),
    ensures
        first_helper_url(list) == first_helper_url(list.skip(i)),
    decreases i,
{
    if i == 0 {
        assert(list.skip(0) =~= list);
    } else {
        let later = list.drop_first();
        assert forall|j: int| 0 <= j < i - 1 implies !(text::words_of(#[trigger] later[j]).len() > 1
            && "pqcrypt"@.is_prefix_of(text::words_of(later[j])[1])) by {
            assert(later[j] == list[j + 1]);
        }
        lemma_first_helper_url(later, i - 1);
        assert(later.skip(i - 1) =~= list.skip(i));
        assert(!(text::words_of(list[0]).len() > 1 && "pqcrypt"@.is_prefix_of(
            text::words_of(list[0])[1],
        )));
    }
}

/// The repository that is meant where none is given is that of the first remote
/// whose URL begins with `pqcrypt`, whatever remotes come before or behind it; and
/// there is none where no remote has such a URL.
pub proof fn law_first_remote_of_the_helper_is_meant(
    listing: &str,
    url: Option<String>,
    i: int,
)
    requires
        call_ensures(get_default_repo_url, (listing,), url),
        0 <= i <= text::lines_of(listing@).len(),
        forall|j: int|
            0 <= j < i ==> !(text::words_of(#[trigger] text::lines_of(listing@)[j]).len() > 1
                && "pqcrypt"@.is_prefix_of(text::words_of(text::lines_of(listing@)[j])[1])),
    ensures
        i == text::lines_of(listing@).len() ==> url is None,
        i < text::lines_of(listing@).len() && text::words_of(text::lines_of(listing@)[i]).len() > 1
            && "pqcrypt"@.is_prefix_of(text::words_of(text::lines_of(listing@)[i])[1]) ==> (
        url matches Some(u) && u@ == text::words_of(text::lines_of(listing@)[i])[1]),
{
    let list = text::lines_of(listing@);
    lemma_first_helper_url(list, i);
    if i < list.len() {
        assert(list.skip(i)[0] == list[i]);
    }
}

/// A manifest that cannot be decrypted is no empty repository: loading it fails.
pub proof fn law_broken_manifest_is_not_loaded(
    loaded: Result<LoadedManifest, GitError>,
    stored: Seq<u8>,
    key: Seq<u8>,
)
    requires
        is_loaded_from(loaded, stored, key),
    ensures
        cryptworker::decrypted(stored, key) is Err ==> loaded is Err,
        cryptworker::decrypted(stored, key) matches Ok(plaintext) ==> (
        loaded matches Ok(LoadedManifest::Plaintext(bytes)) && bytes@ == plaintext),
{
}

/// Each error says what it is about.
pub proof fn law_git_errors_say_what_they_are_about(error: GitError, text: String)
    requires
        call_ensures(GitError::message, (&error,), text),
    ensures
        error matches GitError::InvalidRefspec(refspec) ==> text@ == "Invalid refspec: "@ + refspec@,
        error matches GitError::NoLocalRef(name) ==> text@ == "No local ref found for "@ + name@,
        error matches GitError::InvalidHash(hash) ==> text@ == "Invalid Git SHA-1 hash format: "@
            + hash@,
        error is PackObjects ==> text@ == "git pack-objects failed"@,
        error is IndexPack ==> text@ == "git index-pack failed"@,
        error matches GitError::Crypt(e) ==> text@ == cryptworker::crypt_error_text(e),
        error matches GitError::Storage(e) ==> text@ == storage::storage_error_text(e@),
{
}

/// A line is met with the step that it asks for, and leaves all but the commands
/// that wait as it was.
pub proof fn law_line_leaves_the_repository_as_it_was(
    worker: &mut GitWorker,
    line: &str,
    action: LineAction,
)
    requires
        call_ensures(GitWorker::run, (worker, line), action),
    ensures
        action@ == line_step(line@, old(worker).refs(), old(worker).waiting()),
        final(worker).waiting() == waiting_after(line@, old(worker).waiting()),
        final(worker).refs() == old(worker).refs(),
        final(worker).packs() == old(worker).packs(),
        final(worker).key() == old(worker).key(),
{
}

/// A manifest that is there is decrypted, and one that is not leaves an empty
/// repository and a warning; a manifest is what the repository holds from the time
/// on when it is taken over.
pub proof fn law_manifest_is_loaded_or_the_repository_is_empty(
    worker: &mut GitWorker,
    answer: Result<Vec<u8>, StorageError>,
    loaded: Result<LoadedManifest, GitError>,
)
    requires
        call_ensures(GitWorker::load_manifest, (worker, answer), loaded),
    ensures
        final(worker).key() == old(worker).key(),
        answer matches Ok(stored) ==> match cryptworker::decrypted(stored@, old(worker).key()) {
            Ok(plaintext) => loaded matches Ok(LoadedManifest::Plaintext(bytes)) && bytes@
                == plaintext,
            Err(error) => loaded == Err::<LoadedManifest, GitError>(GitError::Crypt(error)),
        },
        answer matches Ok(_) ==> final(worker).refs() == old(worker).refs() && final(worker).packs()
            == old(worker).packs(),
        answer matches Err(e) ==> {
            &&& loaded matches Ok(LoadedManifest::Missing(warning))
            &&& warning@ == "warning: Could not load manifest.enc: "@ + storage::storage_error_text(
                e@,
            ) + ". Assuming empty repository."@
            &&& final(worker).refs().len() == 0
            &&& final(worker).packs().len() == 0
        },
{
}

/// A manifest that is taken over is what the repository holds, as it is.
pub proof fn law_manifest_is_taken_over_as_it_is(worker: &mut GitWorker, manifest: Manifest)
    requires
        call_ensures(GitWorker::adopt_manifest, (worker, manifest), ()),
    ensures
        final(worker).refs() == manifest.heads.listing(),
        final(worker).packs() == manifest.packs(),
        final(worker).key() == old(worker).key(),
        final(worker).waiting() == old(worker).waiting(),
{
}

/// What a worker saves, a worker with the same master key opens again.
pub proof fn law_what_is_saved_is_opened_again(
    saver: GitWorker,
    opener: GitWorker,
    plaintext: &[u8],
    stored: Result<Vec<u8>, GitError>,
    file: &[u8],
    opened: Result<Vec<u8>, GitError>,
)
    requires
        saver.key() == opener.key(),
        call_ensures(GitWorker::save_manifest, (&saver, plaintext), stored),
        stored is Ok ==> file@ == stored->Ok_0@,
        call_ensures(GitWorker::open, (&opener, file), opened),
    ensures
        stored is Ok <==> saver.key().len() == 32 && plaintext@.len() < 0x1_0000 * 0x1_0000_0000,
        stored is Ok ==> (opened matches Ok(bytes) && bytes@ == plaintext@),
{
}

/// Commands of a batch are run in order, each once and whatever came of those
/// before; when all were run, an empty line is printed.
pub proof fn law_commands_are_run_in_order(run: BatchRun, action: BatchAction)
    requires
        call_ensures(BatchRun::next, (run,), action),
    ensures
        ({
            let done = run.outcomes().len();
            &&& done <= run.commands().len()
            &&& done == run.commands().len() ==> (action matches BatchAction::Finish(list)
                && text::texts(list@) == seq![""@])
            &&& done < run.commands().len() ==> match run.commands()[done as int] {
                Command::Push { refspec, .. } => action matches BatchAction::Push {
                    refspec: asked,
                    turn,
                } && asked@ == refspec && turn.commands() == run.commands() && turn.outcomes()
                    == run.outcomes(),
                Command::Fetch { .. } => action matches BatchAction::Fetch { turn }
                    && turn.commands() == run.commands() && turn.outcomes() == run.outcomes(),
            }
        }),
{
}

/// A command that was run is replied to as what came of it asks, and counts as run
/// whatever that was.
pub proof fn law_command_that_was_run_is_replied_to(
    turn: BatchTurn,
    outcome: Result<(), String>,
    next: (BatchReply, BatchRun),
)
    requires
        call_ensures(BatchTurn::ran, (turn, outcome), next),
    ensures
        next.1.commands() == turn.commands(),
        next.1.outcomes().len() == turn.outcomes().len() + 1,
        next.1.outcomes().drop_last() == turn.outcomes(),
        next.1.outcomes().last() == outcome_of(outcome),
        next.0@ == reply_to(
            turn.commands()[turn.outcomes().len() as int],
            match outcome {
                Ok(_) => Ok(()),
                Err(e) => Err(e@),
            },
        ),
{
    assert(next.1.outcomes().drop_last() =~= turn.outcomes());
}

/// What the helper is called for a new remote, and what it says of a fetch that
/// failed.
pub proof fn law_remote_is_added_under_the_name_of_the_helper(
    url: &str,
    args: Vec<String>,
    arg: &str,
    e: &str,
    complaint: String,
)
    requires
        call_ensures(add_pqcrypt_remote, (url,), args),
        call_ensures(complain_of_fetch, (arg, e), complaint),
    ensures
        text::texts(args@) == seq!["remote"@, "add"@, "pqcrypt"@, url@],
        complaint@ == "error: fetch "@ + arg@ + " failed: "@ + e@,
{
}

/// An erased master key is gone: each byte of it is zero.
pub proof fn law_erased_master_key_is_gone(worker: &mut GitWorker, i: int)
    requires
        call_ensures(GitWorker::erase, (worker,), ()),
    ensures
        final(worker).key().len() == old(worker).key().len(),
        0 <= i < final(worker).key().len() ==> final(worker).key()[i] == 0,
{
}

/// The references that a worker has are those that it lists and has in its
/// manifest, each with its commit.
pub proof fn law_worker_lists_what_it_has(
    worker: GitWorker,
    answer: Vec<String>,
    manifest: &Manifest,
    reference: GitRef,
    hash: Option<&GitHash>,
    i: int,
)
    requires
        call_ensures(GitWorker::list_refs, (&worker,), answer),
        call_ensures(GitWorker::manifest, (&worker,), manifest),
        call_ensures(GitWorker::head_of, (&worker, &reference), hash),
        0 <= i < worker.refs().len(),
        manifest::no_ref_twice(worker.refs()),
    ensures
        answer@.len() == worker.refs().len() + 2,
        answer@[i]@ == worker.refs()[i].1 + " "@ + worker.refs()[i].0,
        answer@.last()@ == ""@,
        manifest.heads.listing() == worker.refs(),
        manifest.packs() == worker.packs(),
        reference@ == worker.refs()[i].0 ==> (hash matches Some(h) && h@ == worker.refs()[i].1),
        hash is Some ==> exists|j: int|
            0 <= j < worker.refs().len() && (#[trigger] worker.refs()[j]).0 == reference@,
{
    let listing = worker.refs();
    law_list_is_answered_line_by_line(listing, i);
    manifest::law_map_has_each_entry_and_no_other(listing, reference@);
    let lines = text::texts(answer@);
    assert(lines.len() == answer@.len());
    assert(lines[i] == answer@[i]@);
    assert(lines.last() == answer@.last()@);
}

/// A listing of branches is taken for one of references exactly where it names no
/// other, up to the first bad hash.
pub proof fn law_listing_of_other_names_is_seen(listing: &str, yes: bool)
    requires
        call_ensures(names_only_refs, (listing,), yes),
    ensures
        yes <==> forall|i: int|
            0 <= i < text::lines_of(listing@).len() && says_something(
                #[trigger] text::lines_of(listing@)[i],
            ) && (forall|j: int|
                0 <= j < i ==> !has_bad_hash(#[trigger] text::lines_of(listing@)[j]))
                ==> gitref::is_ref(text::words_of(text::lines_of(listing@)[i])[1]),
{
    law_listing_is_read_up_to_a_bad_hash(text::lines_of(listing@));
}

/// An answer names what was pushed to, and why it failed where it did.
pub proof fn law_push_is_answered_with_its_name(
    dst: &str,
    outcome: Result<(), String>,
    answer: String,
)
    requires
        call_ensures(answer_push, (dst, &outcome), answer),
    ensures
        outcome is Ok ==> answer@ == "ok "@ + dst@,
        outcome matches Err(e) ==> answer@ == "error "@ + dst@ + " "@ + e@,
{
}

} // verus!
