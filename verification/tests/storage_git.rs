use pqcrypt::storage::git_ssh::{
    choose_branch, is_git_variable, CacheAction, CacheEvent, FetchAction, FetchEvent, GitOutput,
    GitStorage, PushAction, PushEvent,
};

fn storage() -> GitStorage {
    GitStorage::new(Some("/home/ann/.cache".to_string()), "git@example.com:org/store.git").unwrap()
}

fn output(success: bool, stdout: &str, stderr: &str) -> GitOutput {
    GitOutput { success, stdout: stdout.to_string(), stderr: stderr.to_string() }
}

fn push_failure(action: PushAction) -> String {
    match action {
        PushAction::Fail(e) => e.message(),
        other => panic!("{other:?}"),
    }
}

fn fetch_failure(action: FetchAction) -> String {
    match action {
        FetchAction::Fail(e) => e.message(),
        other => panic!("{other:?}"),
    }
}

#[test]
fn the_cache_is_named_after_the_url() {
    assert_eq!(
        storage().files().root(),
        "/home/ann/.cache/pqcrypt/Z2l0QGV4YW1wbGUuY29tOm9yZy9zdG9yZS5naXQ"
    );
    let other = GitStorage::new(Some("/c/".to_string()), "x?>~").unwrap();
    assert_eq!(other.files().root(), "/c/pqcrypt/eD8-fg");
    let error = GitStorage::new(None, "git@h:r").unwrap_err();
    assert_eq!(error.message(), "Could not determine system cache directory");
}

#[test]
fn no_two_repositories_share_a_cache() {
    let roots: Vec<String> = ["", "a", "b", "ab", "a.git", "git@h:a", "git@h:b"]
        .iter()
        .map(|url| {
            GitStorage::new(Some("/c".to_string()), url).unwrap().files().root().to_string()
        })
        .collect();
    for (i, a) in roots.iter().enumerate() {
        for b in &roots[i + 1..] {
            assert_ne!(a, b);
        }
    }
}

#[test]
fn git_variables_are_told_from_others() {
    assert!(is_git_variable("GIT_DIR"));
    assert!(is_git_variable("GIT_"));
    assert!(!is_git_variable("GITHUB_TOKEN"));
    assert!(!is_git_variable("PATH"));
}

#[test]
fn a_usable_cache_gets_the_right_url() {
    let storage = storage();
    match storage.ensure_cache_repo(CacheEvent::Wanted { git_dir_exists: true }) {
        CacheAction::Check(args) => assert_eq!(args, ["rev-parse", "--git-dir"]),
        other => panic!("{other:?}"),
    }
    match storage.ensure_cache_repo(CacheEvent::Checked { valid: true }) {
        CacheAction::SetOrigin(args) => {
            assert_eq!(args, ["remote", "set-url", "origin", "git@example.com:org/store.git"])
        }
        other => panic!("{other:?}"),
    }
    let set = storage.ensure_cache_repo(CacheEvent::OriginSet { success: true });
    assert!(matches!(set, CacheAction::Ready));
}

#[test]
fn a_cache_without_a_url_gets_one() {
    let storage = storage();
    match storage.ensure_cache_repo(CacheEvent::OriginSet { success: false }) {
        CacheAction::AddOrigin(args) => {
            assert_eq!(args, ["remote", "add", "origin", "git@example.com:org/store.git"])
        }
        other => panic!("{other:?}"),
    }
}

#[test]
fn a_broken_cache_is_made_anew() {
    let storage = storage();
    match storage.ensure_cache_repo(CacheEvent::Checked { valid: false }) {
        CacheAction::Remove(warning) => assert_eq!(
            warning,
            format!("warning: Cache repo corrupted at {}, recreating...", storage.files().root())
        ),
        other => panic!("{other:?}"),
    }
    assert!(matches!(storage.ensure_cache_repo(CacheEvent::Removed), CacheAction::MakeDirectory));
    assert!(matches!(
        storage.ensure_cache_repo(CacheEvent::Wanted { git_dir_exists: false }),
        CacheAction::MakeDirectory
    ));
    match storage.ensure_cache_repo(CacheEvent::DirectoryMade) {
        CacheAction::Initialize(args) => assert_eq!(args, ["init"]),
        other => panic!("{other:?}"),
    }
    match storage.ensure_cache_repo(CacheEvent::Initialized { success: true }) {
        CacheAction::AddOrigin(args) => {
            assert_eq!(args, ["remote", "add", "origin", "git@example.com:org/store.git"])
        }
        other => panic!("{other:?}"),
    }
    let added = storage.ensure_cache_repo(CacheEvent::OriginAdded { success: true });
    assert!(matches!(added, CacheAction::Ready));
}

#[test]
fn a_cache_that_cannot_be_made_says_why() {
    let storage = storage();
    for (event, expected) in [
        (CacheEvent::DirectoryFailed("denied".to_string()), "Network/IO error: denied"),
        (CacheEvent::InitializeFailed("no git".to_string()), "Network/IO error: no git"),
        (CacheEvent::Initialized { success: false }, "Failed to run git init"),
        (CacheEvent::SetOriginFailed("no git".to_string()), "Network/IO error: no git"),
        (CacheEvent::AddOriginFailed("no git".to_string()), "Network/IO error: no git"),
        (CacheEvent::RemoveFailed("in use".to_string()), "Network/IO error: in use"),
        (
            CacheEvent::OriginAdded { success: false },
            "Failed to set the origin of the cache repo",
        ),
    ] {
        match storage.ensure_cache_repo(event) {
            CacheAction::Fail(e) => assert_eq!(e.message(), expected),
            other => panic!("{other:?}"),
        }
    }
}

#[test]
fn what_is_there_is_staged_committed_and_pushed() {
    let storage = storage();
    let wanted = PushEvent::Wanted { keys: true, manifest: false, objects: true };
    match storage.do_push_sync(wanted) {
        PushAction::Stage(list) => assert_eq!(
            list,
            [vec!["add", "--force", "keys.json"], vec!["add", "--force", "objects/"]]
        ),
        other => panic!("{other:?}"),
    }
    match storage.do_push_sync(PushEvent::Wanted { keys: false, manifest: true, objects: false }) {
        PushAction::Stage(list) => assert_eq!(list, [vec!["add", "--force", "manifest.enc"]]),
        other => panic!("{other:?}"),
    }
    match storage.do_push_sync(PushEvent::Staged) {
        PushAction::Compare(args) => assert_eq!(args, ["diff", "--cached", "--quiet"]),
        other => panic!("{other:?}"),
    }
    match storage.do_push_sync(PushEvent::Compared { nothing_staged: false }) {
        PushAction::Commit(args) => assert_eq!(args, ["commit", "-m", "pqcrypt: state update"]),
        other => panic!("{other:?}"),
    }
    match storage.do_push_sync(PushEvent::Committed(output(true, "", ""))) {
        PushAction::Push(args) => assert_eq!(args, ["push", "origin", "HEAD"]),
        other => panic!("{other:?}"),
    }
    let pushed = storage.do_push_sync(PushEvent::Pushed(output(true, "", "")));
    assert!(matches!(pushed, PushAction::Done));
    let compared = storage.do_push_sync(PushEvent::Compared { nothing_staged: true });
    assert!(matches!(compared, PushAction::Done));
}

#[test]
fn a_failed_commit_is_explained() {
    let storage = storage();
    let nothing = output(false, "", "On branch main\nnothing to commit, working tree clean");
    assert!(matches!(storage.do_push_sync(PushEvent::Committed(nothing)), PushAction::Done));
    for stderr in ["set user.name first", "set user.email first"] {
        let action = storage.do_push_sync(PushEvent::Committed(output(false, "", stderr)));
        assert_eq!(
            push_failure(action),
            "Git identity not configured. Please run:\n  git config --global user.name \"Your Name\"\n  git config --global user.email \"you@example.com\""
        );
    }
    let action = storage.do_push_sync(PushEvent::Committed(output(false, "", "hook said no")));
    assert_eq!(push_failure(action), "Failed to commit state.\nDetails:\nhook said no");
    let action = storage.do_push_sync(PushEvent::NotRun("no git".to_string()));
    assert_eq!(push_failure(action), "Network/IO error: no git");
}

#[test]
fn a_failed_push_is_explained() {
    let storage = storage();
    for stderr in ["! [rejected] main", "non-fast-forward update"] {
        let action = storage.do_push_sync(PushEvent::Pushed(output(false, "", stderr)));
        assert_eq!(
            push_failure(action),
            format!("Push rejected (non-fast-forward). Please sync first.\nDetails:\n{stderr}")
        );
    }
    let action = storage.do_push_sync(PushEvent::Pushed(output(false, "", "timeout")));
    assert_eq!(
        push_failure(action),
        "Failed to push state to remote Git repository.\nDetails:\ntimeout"
    );
}

#[test]
fn the_branch_with_the_state_is_chosen() {
    for (listing, expected) in [
        ("  origin/HEAD -> origin/dev\n  origin/dev\n  origin/main\n", Some("origin/main")),
        ("  origin/dev\n  origin/master\n", Some("origin/master")),
        ("  origin/master\n  origin/main\n", Some("origin/main")),
        ("  origin/HEAD -> origin/dev\n  origin/dev\n  origin/x\n", Some("origin/dev")),
        ("  origin/HEAD -> origin/dev\n", None),
        ("", None),
        ("\norigin/x\n", Some("")),
    ] {
        assert_eq!(choose_branch(listing).as_deref(), expected, "{listing:?}");
    }
}

#[test]
fn the_cache_follows_the_repository() {
    let storage = storage();
    match storage.do_fetch_sync(FetchEvent::Wanted) {
        FetchAction::Fetch(args) => assert_eq!(args, ["fetch", "origin"]),
        other => panic!("{other:?}"),
    }
    match storage.do_fetch_sync(FetchEvent::Fetched(output(true, "", ""))) {
        FetchAction::List(args) => assert_eq!(args, ["branch", "-r"]),
        other => panic!("{other:?}"),
    }
    match storage.do_fetch_sync(FetchEvent::Listed(output(true, "  origin/main\n", ""))) {
        FetchAction::Reset(args) => assert_eq!(args, ["reset", "--hard", "origin/main"]),
        other => panic!("{other:?}"),
    }
    let reset = |success, stderr| FetchEvent::Reset {
        target: "origin/main".to_string(),
        output: output(success, "", stderr),
    };
    assert!(matches!(storage.do_fetch_sync(reset(true, "")), FetchAction::Done));
    assert_eq!(
        fetch_failure(storage.do_fetch_sync(reset(false, "locked"))),
        "Failed to reset to origin/main.\nDetails:\nlocked"
    );
    assert_eq!(
        fetch_failure(storage.do_fetch_sync(FetchEvent::NotRun("no git".to_string()))),
        "Network/IO error: no git"
    );
    assert_eq!(
        fetch_failure(storage.do_fetch_sync(FetchEvent::Fetched(output(false, "", "no route")))),
        "Failed to fetch from origin remote.\nDetails:\nno route"
    );
}

#[test]
fn an_empty_repository_empties_the_cache() {
    let storage = storage();
    for event in [
        FetchEvent::Fetched(output(false, "", "fatal: no matching remote head")),
        FetchEvent::Fetched(output(false, "", "fatal: couldn't find remote ref HEAD")),
        FetchEvent::Listed(output(true, "", "")),
        FetchEvent::Listed(output(false, "  origin/main\n", "")),
    ] {
        match storage.do_fetch_sync(event) {
            FetchAction::Clean(list) => assert_eq!(
                list,
                [
                    vec!["rm", "-rf", "--ignore-unmatch", "."],
                    vec!["clean", "-fdx", "-e", ".git"]
                ]
            ),
            other => panic!("{other:?}"),
        }
    }
    assert!(matches!(storage.do_fetch_sync(FetchEvent::Cleaned), FetchAction::Done));
}

#[test]
fn a_push_is_done_after_a_commit_that_was_pushed() {
    let storage = storage();
    let steps = |events: Vec<PushEvent>| -> Vec<&str> {
        events
            .into_iter()
            .map(|event| match storage.do_push_sync(event) {
                PushAction::Stage(_) => "stage",
                PushAction::Compare(_) => "compare",
                PushAction::Commit(_) => "commit",
                PushAction::Push(_) => "push",
                PushAction::Done => "done",
                PushAction::Fail(_) => "fail",
            })
            .collect()
    };
    let front = || {
        vec![
            PushEvent::Wanted { keys: true, manifest: true, objects: true },
            PushEvent::Staged,
            PushEvent::Compared { nothing_staged: false },
            PushEvent::Committed(output(true, "", "")),
        ]
    };
    let mut events = front();
    events.push(PushEvent::Pushed(output(true, "", "")));
    assert_eq!(steps(events), ["stage", "compare", "commit", "push", "done"]);
    let mut events = front();
    events.push(PushEvent::Pushed(output(false, "", "timeout")));
    assert_eq!(steps(events), ["stage", "compare", "commit", "push", "fail"]);
}

#[test]
fn a_fetch_is_done_after_a_reset_to_the_branch_that_was_chosen() {
    let storage = storage();
    let listed = FetchEvent::Listed(output(true, "  origin/dev\n  origin/master\n", ""));
    let target = match storage.do_fetch_sync(listed) {
        FetchAction::Reset(args) => args.last().unwrap().clone(),
        other => panic!("{other:?}"),
    };
    assert_eq!(target, "origin/master");
    let reset = FetchEvent::Reset { target, output: output(true, "", "") };
    assert!(matches!(storage.do_fetch_sync(reset), FetchAction::Done));
}
