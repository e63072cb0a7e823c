//! The command line: how the program was called, and what the user is asked.

use crate::paths;
use crate::paths::{ends_in_name, join_path};
use crate::text;
use crate::text::{join3, same_lowered, same_text, strip_prefix, trim};
use vstd::prelude::*;

verus! {

/// Whether a word is a subcommand of the program.
pub open spec fn is_subcommand(word: Seq<char>) -> bool {
    word == "init"@ || word == "add-user"@ || word == "keygen"@ || word == "pubgen"@ || word
        == "help"@
}

/// Whether Git called the program: as `git-remote-pqcrypt`, with the name of a
/// remote and a URL.  A first argument that is a subcommand is a user's.
pub open spec fn called_by_git(args: Seq<Seq<char>>) -> bool {
    &&& args.len() == 3
    &&& paths::is_named(args[0], "git-remote-pqcrypt"@)
    &&& !is_subcommand(args[1])
}

/// Whether Git called the program.
pub fn invoked_as_git_remote_helper(args: &Vec<String>) -> (yes: bool)
    ensures
        yes == called_by_git(text::texts(args@)),
{
    if args.len() != 3 {
        return false;
    }
    assert(text::texts(args@)[0] == args@[0]@);
    assert(text::texts(args@)[1] == args@[1]@);
    if !ends_in_name(args[0].as_str(), "git-remote-pqcrypt") {
        return false;
    }
    let first = args[1].as_str();
    !(same_text(first, "init") || same_text(first, "add-user") || same_text(first, "keygen")
        || same_text(first, "pubgen") || same_text(first, "help"))
}

/// The comment that a user gave when asked for one.
pub fn comment_of(answer: &str) -> (comment: String)
    ensures
        comment@ == text::trimmed(answer@),
{
    trim(answer)
}

/// The question where a new private key is to be kept.
pub struct KeyPathPrompt {
    path: String,
}

/// What happened since the last question.
#[derive(Debug)]
pub enum PathEvent {
    /// It was seen whether there is a file at the path.
    Checked { exists: bool },
    /// The user chose what becomes of the file that is there.
    Chosen(String),
    /// The user gave another path; the home directory is what `~` stands for.
    Entered { answer: String, home: Option<String> },
}

/// What is to be done next.
#[derive(Debug)]
pub enum PathAction {
    /// See whether there is a file at this path.
    Check(String),
    /// Say that a path cannot be empty, and see whether there is a file at this
    /// path, as before.
    Retry(String),
    /// Ask this, which is what becomes of the file that is there.
    Ask(String),
    /// Ask for another path.
    Enter,
    /// Keep the key at this path.
    Keep(String),
    /// Say that the file is overwritten, and keep the key at this path.
    Overwrite(String),
    /// Say that no key is made.
    Abort,
}

/// What a `PathAction` stands for.
pub enum PathStep {
    Check(Seq<char>),
    Retry(Seq<char>),
    Ask(Seq<char>),
    Enter,
    Keep(Seq<char>),
    Overwrite(Seq<char>),
    Abort,
}

impl View for PathAction {
    type V = PathStep;

    open spec fn view(&self) -> PathStep {
        match *self {
            PathAction::Check(path) => PathStep::Check(path@),
            PathAction::Retry(path) => PathStep::Retry(path@),
            PathAction::Ask(question) => PathStep::Ask(question@),
            PathAction::Enter => PathStep::Enter,
            PathAction::Keep(path) => PathStep::Keep(path@),
            PathAction::Overwrite(path) => PathStep::Overwrite(path@),
            PathAction::Abort => PathStep::Abort,
        }
    }
}

/// The path that a user means: `~/` stands for the home directory, where there
/// is one.
pub open spec fn meant_path(entered: Seq<char>, home: Option<String>) -> Seq<char> {
    match home {
        Some(home) if "~/"@.is_prefix_of(entered) => paths::joined(
            home@,
            entered.skip("~/"@.len() as int),
        ),
        _ => entered,
    }
}

/// What is to be done about a choice.
pub open spec fn choice_step(path: Seq<char>, choice: Seq<char>) -> PathStep {
    let chosen = text::lowered(text::trimmed(choice));
    if chosen == "o"@ || chosen == "overwrite"@ {
        PathStep::Overwrite(path)
    } else if chosen == "c"@ || chosen == "change"@ {
        PathStep::Enter
    } else {
        PathStep::Abort
    }
}

/// The path after an event, and what is to be done next.
pub open spec fn path_step(path: Seq<char>, event: PathEvent) -> (Seq<char>, PathStep) {
    match event {
        PathEvent::Checked { exists } => if exists {
            (
                path,
                PathStep::Ask(
                    "Warning: File '"@ + path
                        + "' already exists.\n[O]verwrite, [C]hange path, or [A]bort? "@,
                ),
            )
        } else {
            (path, PathStep::Keep(path))
        },
        PathEvent::Chosen(choice) => (path, choice_step(path, choice@)),
        PathEvent::Entered { answer, home } => {
            let entered = text::trimmed(answer@);
            if entered.len() == 0 {
                (path, PathStep::Retry(path))
            } else {
                (meant_path(entered, home), PathStep::Check(meant_path(entered, home)))
            }
        },
    }
}

/// The path that a user means.
fn resolve_path(entered: &str, home: Option<String>) -> (path: String)
    ensures
        path@ == meant_path(entered@, home),
{
    match (strip_prefix(entered, "~/"), home) {
        (Some(rest), Some(home)) => join_path(home.as_str(), rest.as_str()),
        _ => entered.to_owned(),
    }
}

impl KeyPathPrompt {
    /// The path that is asked about.
    pub closed spec fn path(self) -> Seq<char> {
        self.path@
    }

    /// The question, at first about the path that the user gave, or else about
    /// the default; there is no default without a home directory.
    pub fn new(output: Option<String>, home: Option<String>) -> (prompt: Option<Self>)
        ensures
            match (output, home) {
                (Some(path), _) => prompt matches Some(p) && p.path() == path@,
                (None, Some(home)) => prompt matches Some(p) && p.path() == paths::joined(
                    home@,
                    ".config/pqcrypt/key"@,
                ),
                (None, None) => prompt is None,
            },
    {
        match (output, home) {
            (Some(path), _) => Some(KeyPathPrompt { path }),
            (None, Some(home)) => Some(
                KeyPathPrompt { path: join_path(home.as_str(), ".config/pqcrypt/key") },
            ),
            (None, None) => None,
        }
    }

    /// Where to look first.
    pub fn first(&self) -> (action: PathAction)
        ensures
            action@ == PathStep::Check(self.path()),
    {
        PathAction::Check(self.path.clone())
    }

    /// What is to be done about a choice.
    fn chosen(&self, choice: &str) -> (action: PathAction)
        ensures
            action@ == choice_step(self.path(), choice@),
    {
        let choice = trim(choice);
        let choice = choice.as_str();
        if same_lowered(choice, "o") || same_lowered(choice, "overwrite") {
            PathAction::Overwrite(self.path.clone())
        } else if same_lowered(choice, "c") || same_lowered(choice, "change") {
            PathAction::Enter
        } else {
            PathAction::Abort
        }
    }

    /// What is to be done after an event.
    pub fn resolve_key_path(&mut self, event: PathEvent) -> (action: PathAction)
        ensures
            (final(self).path(), action@) == path_step(old(self).path(), event),
    {
        match event {
            PathEvent::Checked { exists } => if exists {
                PathAction::Ask(
                    join3(
                        "Warning: File '",
                        self.path.as_str(),
                        "' already exists.\n[O]verwrite, [C]hange path, or [A]bort? ",
                    ),
                )
            } else {
                PathAction::Keep(self.path.clone())
            },
            PathEvent::Chosen(choice) => self.chosen(choice.as_str()),
            PathEvent::Entered { answer, home } => {
                let entered = trim(answer.as_str());
                if entered.as_str().unicode_len() == 0 {
                    PathAction::Retry(self.path.clone())
                } else {
                    let path = resolve_path(entered.as_str(), home);
                    self.path = path.clone();
                    PathAction::Check(path)
                }
            },
        }
    }
}

/// No file is overwritten unasked: a key is kept at a path with a file only
/// where the user chose to overwrite it.
pub proof fn law_no_file_is_overwritten_unasked(path: Seq<char>, event: PathEvent)
    ensures
        path_step(path, event).1 is Keep ==> event == (PathEvent::Checked { exists: false }),
        path_step(path, event).1 is Overwrite ==> (event matches PathEvent::Chosen(choice) && (
        text::lowered(text::trimmed(choice@)) == "o"@ || text::lowered(text::trimmed(choice@))
            == "overwrite"@)),
{
}

/// Git calls the program by its name as a remote helper, with two arguments the
/// first of which is no subcommand; any other call is a user's.
pub proof fn law_git_calls_by_name_with_two_arguments(args: Vec<String>, yes: bool)
    requires
        call_ensures(invoked_as_git_remote_helper, (&args,), yes),
    ensures
        yes <==> args@.len() == 3 && paths::is_named(args@[0]@, "git-remote-pqcrypt"@)
            && args@[1]@ != "init"@ && args@[1]@ != "add-user"@ && args@[1]@ != "keygen"@
            && args@[1]@ != "pubgen"@ && args@[1]@ != "help"@,
{
    let list = text::texts(args@);
    assert(list.len() == args@.len());
    if args@.len() == 3 {
        assert(list[0] == args@[0]@);
        assert(list[1] == args@[1]@);
    }
}

/// The question is first about the path that the user gave, else about the default
/// in the home directory, and there is none without either.
pub proof fn law_question_is_about_the_given_path_or_the_default(
    output: Option<String>,
    home: Option<String>,
    prompt: Option<KeyPathPrompt>,
)
    requires
        call_ensures(KeyPathPrompt::new, (output, home), prompt),
    ensures
        output matches Some(path) ==> (prompt matches Some(p) && p.path() == path@),
        output is None && home is None ==> prompt is None,
        output is None ==> (home matches Some(h) ==> (prompt matches Some(p) && p.path()
            == paths::joined(h@, ".config/pqcrypt/key"@))),
{
}

/// A path without a file is taken; one with a file is asked about, and is
/// overwritten, changed or given up as the user chooses: by the letter or the word,
/// in either case, whatever white space is around it; any other choice gives up.
/// The path stays the same all along.
pub proof fn law_file_becomes_what_the_user_chooses(
    path: Seq<char>,
    choice: String,
)
    ensures
        path_step(path, PathEvent::Checked { exists: false }) == (path, PathStep::Keep(path)),
        path_step(path, PathEvent::Checked { exists: true }) == (
            path,
            PathStep::Ask(
                "Warning: File '"@ + path
                    + "' already exists.\n[O]verwrite, [C]hange path, or [A]bort? "@,
            ),
        ),
        ({
            let chosen = text::lowered(text::trimmed(choice@));
            let (after, step) = path_step(path, PathEvent::Chosen(choice));
            &&& after == path
            &&& chosen == "o"@ || chosen == "overwrite"@ ==> step == PathStep::Overwrite(path)
            &&& chosen == "c"@ || chosen == "change"@ ==> step is Enter
            &&& chosen != "o"@ && chosen != "overwrite"@ && chosen != "c"@ && chosen != "change"@
                ==> step is Abort
        }),
{
    reveal_strlit("o");
    reveal_strlit("overwrite");
    reveal_strlit("c");
    reveal_strlit("change");
    assert("o"@[0] == 'o');
    assert("c"@[0] == 'c');
    assert("overwrite"@.len() == 9);
    assert("change"@.len() == 6);
}

/// Another path is looked at as the user gave it, without the white space around
/// it; `~/` in front stands for the home directory, where there is one; and no path
/// at all leaves the old one.
pub proof fn law_other_path_is_what_the_user_gave(
    path: Seq<char>,
    answer: String,
    home: Option<String>,
    rest: Seq<char>,
)
    ensures
        ({
            let entered = text::trimmed(answer@);
            let (after, step) = path_step(path, PathEvent::Entered { answer, home });
            &&& entered.len() == 0 ==> after == path && step == PathStep::Retry(path)
            &&& entered.len() > 0 ==> step == PathStep::Check(after)
            &&& entered.len() > 0 && (home is None || !"~/"@.is_prefix_of(entered)) ==> after
                == entered
            &&& entered == "~/"@ + rest ==> (home matches Some(h) ==> after == paths::joined(
                h@,
                rest,
            ))
        }),
{
    reveal_strlit("~/");
    if text::trimmed(answer@) == "~/"@ + rest {
        let entered = text::trimmed(answer@);
        assert(entered.subrange(0, 2) =~= "~/"@);
        assert(entered.skip(2) =~= rest);
    }
}

/// The answers to the questions lead from path to path as they should.
pub proof fn law_questions_go_as_the_answers_do(
    prompt: &mut KeyPathPrompt,
    event: PathEvent,
    action: PathAction,
    first: PathAction,
)
    requires
        call_ensures(KeyPathPrompt::resolve_key_path, (prompt, event), action),
        call_ensures(KeyPathPrompt::first, (&*old(prompt),), first),
    ensures
        (final(prompt).path(), action@) == path_step(old(prompt).path(), event),
        first@ == PathStep::Check(old(prompt).path()),
{
}

/// A comment is what the user gave, without the white space around it.
pub proof fn law_comment_is_what_the_user_gave(
    answer: &str,
    comment: String,
    front: Seq<char>,
    inner: Seq<char>,
    back: Seq<char>,
)
    requires
        call_ensures(comment_of, (answer,), comment),
        answer@ == front + inner + back,
        forall|i: int| 0 <= i < front.len() ==> text::is_space(front[i]),
        forall|i: int| 0 <= i < back.len() ==> text::is_space(back[i]),
        inner.len() > 0 ==> !text::is_space(inner[0]) && !text::is_space(inner.last()),
    ensures
        comment@ == inner,
{
    text::law_trimming_takes_the_white_space_at_both_ends(front, inner, back);
}

} // verus!
