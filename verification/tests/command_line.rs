use pqcrypt::cli::{
    comment_of, invoked_as_git_remote_helper, KeyPathPrompt, PathAction, PathEvent,
};

fn args(list: &[&str]) -> Vec<String> {
    list.iter().map(|a| a.to_string()).collect()
}

#[test]
fn git_is_told_from_a_user() {
    let name = "/usr/bin/git-remote-pqcrypt";
    assert!(invoked_as_git_remote_helper(&args(&[name, "origin", "pqcrypt::/srv/store"])));
    assert!(invoked_as_git_remote_helper(&args(&["git-remote-pqcrypt", "x", "y"])));
    assert!(!invoked_as_git_remote_helper(&args(&[name, "origin"])));
    assert!(!invoked_as_git_remote_helper(&args(&[name, "origin", "url", "more"])));
    assert!(!invoked_as_git_remote_helper(&args(&["/usr/bin/other", "origin", "url"])));
    for subcommand in ["init", "add-user", "keygen", "pubgen", "help"] {
        assert!(!invoked_as_git_remote_helper(&args(&[name, subcommand, "url"])));
    }
}

#[test]
fn a_comment_has_no_white_space_around() {
    assert_eq!(comment_of("  work laptop \n"), "work laptop");
    assert_eq!(comment_of("\n"), "");
}

fn prompt(path: &str) -> KeyPathPrompt {
    KeyPathPrompt::new(Some(path.to_string()), None).unwrap()
}

fn chosen(choice: &str) -> PathAction {
    prompt("/k").resolve_key_path(PathEvent::Chosen(choice.to_string()))
}

#[test]
fn the_default_is_in_the_home_directory() {
    let prompt = KeyPathPrompt::new(None, Some("/home/ann".to_string())).unwrap();
    match prompt.first() {
        PathAction::Check(path) => assert_eq!(path, "/home/ann/.config/pqcrypt/key"),
        other => panic!("{other:?}"),
    }
    assert!(KeyPathPrompt::new(None, None).is_none());
    match KeyPathPrompt::new(Some("/k".to_string()), None).unwrap().first() {
        PathAction::Check(path) => assert_eq!(path, "/k"),
        other => panic!("{other:?}"),
    }
}

#[test]
fn no_file_is_overwritten_unasked() {
    match prompt("/k").resolve_key_path(PathEvent::Checked { exists: false }) {
        PathAction::Keep(path) => assert_eq!(path, "/k"),
        other => panic!("{other:?}"),
    }
    match prompt("/k").resolve_key_path(PathEvent::Checked { exists: true }) {
        PathAction::Ask(question) => assert_eq!(
            question,
            "Warning: File '/k' already exists.\n[O]verwrite, [C]hange path, or [A]bort? "
        ),
        other => panic!("{other:?}"),
    }
    for choice in ["o\n", "O", " OverWrite \n"] {
        assert!(matches!(chosen(choice), PathAction::Overwrite(path) if path == "/k"));
    }
    for choice in ["c\n", "Change"] {
        assert!(matches!(chosen(choice), PathAction::Enter));
    }
    for choice in ["", "a", "abort", "over", "yes"] {
        assert!(matches!(chosen(choice), PathAction::Abort));
    }
}

#[test]
fn another_path_may_begin_at_the_home_directory() {
    let mut prompt = prompt("/k");
    let mut enter = |answer: &str, home: Option<&str>| {
        let event = PathEvent::Entered {
            answer: answer.to_string(),
            home: home.map(|h| h.to_string()),
        };
        prompt.resolve_key_path(event)
    };
    assert!(matches!(enter(" \n", None), PathAction::Retry(path) if path == "/k"));
    assert!(matches!(enter("/x/key\n", Some("/h")), PathAction::Check(path) if path == "/x/key"));
    assert!(matches!(enter("~/key\n", Some("/h")), PathAction::Check(path) if path == "/h/key"));
    assert!(matches!(enter("~/key\n", None), PathAction::Check(path) if path == "~/key"));
    assert!(matches!(enter("\n", None), PathAction::Retry(path) if path == "~/key"));
}
