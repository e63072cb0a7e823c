use pqcrypt::storage::StorageError;
use pqcrypt::types::githash::GitHash;
use pqcrypt::types::gitref::GitRef;
use pqcrypt::types::manifest::Manifest;
use pqcrypt::types::packfilerecord::PackfileRecord;
use pqcrypt::workers::cryptworker::decrypt_bytes;
use pqcrypt::workers::fetch::{
    after_checking, after_unpacking, checking_args, unpacking_args, FetchAction, FetchCursor,
    FetchEvent,
};
use pqcrypt::workers::gitworker::{
    add_pqcrypt_remote, answer_push, complain_of_fetch, get_default_repo_url, names_only_refs,
    resolve_local_heads, BatchAction, BatchItem, BatchReply, BatchRun, GitWorker, LineAction, LoadedManifest,
};
use pqcrypt::workers::push::{LockStage, PackStage, PushKind, ResolveStage};

const A: &str = "aaaaaaaaaaaaaaaaaaaaaaaaaaaaaaaaaaaaaaaa";
const B: &str = "bbbbbbbbbbbbbbbbbbbbbbbbbbbbbbbbbbbbbbbb";
const KEY: [u8; 32] = [3; 32];

fn worker() -> GitWorker {
    GitWorker::new(KEY.to_vec())
}

fn printed(action: LineAction) -> Vec<String> {
    match action {
        LineAction::Print(lines) => lines,
        other => panic!("{other:?}"),
    }
}

fn resolving(refspec: &str) -> ResolveStage {
    match LockStage::begin(refspec).unwrap().locked(Ok(())).unwrap() {
        PushKind::Update(stage) => stage,
        PushKind::Delete(_) => panic!("a deletion"),
    }
}

fn packing(worker: &GitWorker, name: &str, hash: &str) -> PackStage {
    let stage = resolving(&format!("{name}:{name}"));
    assert!(stage.names_ref());
    stage.resolved(worker, &format!("{hash}\t{name}\n")).unwrap()
}

fn push(worker: &mut GitWorker, name: &str, hash: &str) -> String {
    let stage = packing(worker, name, hash).packed(worker, true, b"PACK").unwrap();
    let path = stage.path().to_string();
    let stage = stage.stored(worker, Ok(())).unwrap().saved(Ok(())).unwrap();
    assert_eq!(stage.synced(Ok(())).unwrap(), name);
    path
}

#[test]
fn capabilities_are_push_and_fetch() {
    assert_eq!(printed(worker().run("capabilities\n")), ["push", "fetch", ""]);
}

#[test]
fn an_empty_repository_has_no_references() {
    assert_eq!(printed(worker().run("list for-push\n")), [""]);
}

#[test]
fn references_are_listed_with_their_commits() {
    let mut worker = worker();
    push(&mut worker, "refs/heads/dev", A);
    assert_eq!(
        printed(worker.run("list")),
        [format!("{A} refs/heads/dev"), "@refs/heads/dev HEAD".to_string(), String::new()]
    );
    push(&mut worker, "refs/heads/main", B);
    assert_eq!(
        worker.list_refs(),
        [
            format!("{A} refs/heads/dev"),
            format!("{B} refs/heads/main"),
            "@refs/heads/main HEAD".to_string(),
            String::new()
        ]
    );
}

#[test]
fn what_waits_is_run_in_order_and_once() {
    let mut worker = worker();
    assert!(matches!(worker.run("\n"), LineAction::Flush));
    assert!(matches!(worker.run("push +refs/heads/a:refs/heads/b\n"), LineAction::Wait));
    assert!(matches!(worker.run(" fetch 123 refs/heads/c \n"), LineAction::Wait));
    assert!(matches!(worker.run("push nocolon\n"), LineAction::Wait));
    assert!(matches!(worker.run("fetch\n"), LineAction::Wait));
    match worker.run("  \n") {
        LineAction::Run(items) => {
            let seen: Vec<(String, String)> = items
                .into_iter()
                .map(|item| match item {
                    BatchItem::Push { refspec, dst } => (refspec, dst),
                    BatchItem::Fetch { arg } => ("fetch".to_string(), arg),
                })
                .collect();
            let expected = [
                ("refs/heads/a:refs/heads/b", "refs/heads/b"),
                ("fetch", "123"),
                ("nocolon", "nocolon"),
                ("fetch", ""),
            ];
            assert_eq!(seen, expected.map(|(a, b)| (a.to_string(), b.to_string())));
        }
        other => panic!("{other:?}"),
    }
    assert!(matches!(worker.run("\n"), LineAction::Flush));
}

#[test]
fn an_unknown_command_is_complained_of() {
    match worker().run("  option verbosity 1\n") {
        LineAction::Complain(text) => {
            assert_eq!(text, "error: Unknown command: option verbosity 1")
        }
        other => panic!("{other:?}"),
    }
}

#[test]
fn answers_name_the_destination() {
    assert_eq!(answer_push("refs/heads/main", &Ok(())), "ok refs/heads/main");
    assert_eq!(
        answer_push("refs/heads/main", &Err("locked".to_string())),
        "error refs/heads/main locked"
    );
    assert_eq!(complain_of_fetch("123", "gone"), "error: fetch 123 failed: gone");
}

#[test]
fn each_push_of_a_batch_is_answered_and_an_empty_line_ends_the_answer() {
    let push = |refspec: &str, dst: &str| BatchItem::Push {
        refspec: refspec.to_string(),
        dst: dst.to_string(),
    };
    let fetch = |arg: &str| BatchItem::Fetch { arg: arg.to_string() };
    let mut run = BatchRun::new(vec![push("a:b", "b"), fetch("1"), fetch("2"), push("c:d", "d")]);
    let mut outcomes = vec![
        Err("locked".to_string()),
        Ok(()),
        Err("gone".to_string()),
        Ok(()),
    ]
    .into_iter();
    let (mut asked, mut printed, mut complaints) = (vec![], vec![], vec![]);
    loop {
        let turn = match run.next() {
            BatchAction::Push { refspec, turn } => {
                asked.push(refspec);
                turn
            }
            BatchAction::Fetch { turn } => {
                asked.push("fetch".to_string());
                turn
            }
            BatchAction::Finish(lines) => {
                printed.extend(lines);
                break;
            }
        };
        let (reply, next) = turn.ran(outcomes.next().unwrap());
        match reply {
            BatchReply::Print(line) => printed.push(line),
            BatchReply::Complain(complaint) => complaints.push(complaint),
            BatchReply::Silence => {}
        }
        run = next;
    }
    assert_eq!(asked, ["a:b", "fetch", "fetch", "c:d"]);
    assert_eq!(printed, ["error b locked", "ok d", ""]);
    assert_eq!(complaints, ["error: fetch 2 failed: gone"]);
}

#[test]
fn a_refspec_has_one_colon() {
    for refspec in ["main", "a:b:c", ""] {
        match LockStage::begin(refspec) {
            Err(e) => assert_eq!(e.message(), format!("Invalid refspec: {refspec}")),
            Ok(_) => panic!("{refspec}"),
        }
    }
}

#[test]
fn a_push_of_nothing_deletes_the_reference() {
    let mut worker = worker();
    push(&mut worker, "refs/heads/main", A);
    push(&mut worker, "refs/heads/dev", B);
    match LockStage::begin(":refs/heads/main").unwrap().locked(Ok(())).unwrap() {
        PushKind::Delete(stage) => {
            assert!(stage.names_ref());
            let stage = stage.delete(&mut worker).saved(Ok(())).unwrap();
            assert_eq!(stage.synced(Ok(())).unwrap(), "refs/heads/main");
        }
        PushKind::Update(_) => panic!("no deletion"),
    }
    let main = GitRef::new("refs/heads/main".to_string()).unwrap();
    let dev = GitRef::new("refs/heads/dev".to_string()).unwrap();
    assert!(worker.head_of(&main).is_none());
    assert_eq!(worker.head_of(&dev).unwrap().as_str(), B);
    assert_eq!(worker.manifest().packfiles.len(), 2);
    assert_eq!(
        worker.list_refs(),
        [format!("{B} refs/heads/dev"), "@refs/heads/dev HEAD".to_string(), String::new()]
    );
    match LockStage::begin(":main").unwrap().locked(Ok(())).unwrap() {
        PushKind::Delete(stage) => assert!(!stage.names_ref()),
        PushKind::Update(_) => panic!("no deletion"),
    }
}

#[test]
fn a_push_packs_what_is_new() {
    let mut worker = worker();
    let stage = packing(&worker, "refs/heads/main", A);
    assert_eq!(stage.packing_input(), format!("{A}\n\n"));
    assert_eq!(
        stage.packing_args(),
        ["pack-objects", "--stdout", "--revs", "--thin", "--delta-base-offset"]
    );
    push(&mut worker, "refs/heads/main", A);
    let stage = packing(&worker, "refs/heads/main", B);
    assert_eq!(stage.packing_input(), format!("^{A}\n{B}\n\n"));
    assert_eq!(
        resolving("a:refs/heads/x").listing_args(),
        ["ls-remote", "--heads", "."]
    );
}

#[test]
fn a_push_of_what_is_not_there_fails() {
    let worker = worker();
    let stage = resolving("refs/heads/x:refs/heads/y");
    match stage.resolved(&worker, &format!("{A}\trefs/heads/x\n")) {
        Err(e) => assert_eq!(e.message(), "No local ref found for refs/heads/x"),
        Ok(_) => panic!("found"),
    }
    match resolving("refs/heads/x:refs/heads/x").resolved(&worker, "123\trefs/heads/x\n") {
        Err(e) => assert_eq!(e.message(), "Invalid Git SHA-1 hash format: 123"),
        Ok(_) => panic!("found"),
    }
    assert!(!resolving("refs/heads/x:x").names_ref());
}

#[test]
fn a_packfile_is_stored_encrypted_under_a_new_name() {
    let mut worker = worker();
    let stage = packing(&worker, "refs/heads/main", A).packed(&worker, true, b"PACK").unwrap();
    let path = stage.path().to_string();
    assert!(path.starts_with("objects/pack-") && path.ends_with(".pack.enc"));
    let id = path["objects/pack-".len()..path.len() - ".pack.enc".len()].to_string();
    assert_eq!(id.len(), 36);
    assert_eq!(id.split('-').map(|part| part.len()).collect::<Vec<_>>(), [8, 4, 4, 4, 12]);
    assert_eq!(&id[14..15], "4");
    assert_eq!(decrypt_bytes(stage.contents(), &KEY).unwrap(), b"PACK");
    assert_eq!(worker.open(stage.contents()).unwrap(), b"PACK");
    stage.stored(&mut worker, Ok(())).unwrap();
    let record = &worker.manifest().packfiles[0];
    assert_eq!(record.id, id);
    assert_eq!(record.path, path);
    assert_eq!(record.contains_commits.len(), 1);
    assert_eq!(record.contains_commits[0].as_str(), A);
    assert_ne!(push(&mut worker, "refs/heads/main", B), path);
}

#[test]
fn a_packfile_that_cannot_be_made_or_sealed_is_reported() {
    let worker = worker();
    match packing(&worker, "refs/heads/main", A).packed(&worker, false, b"") {
        Err(e) => assert_eq!(e.message(), "git pack-objects failed"),
        Ok(_) => panic!("packed"),
    }
    let short = GitWorker::new(vec![0; 5]);
    match packing(&short, "refs/heads/main", A).packed(&short, true, b"PACK") {
        Err(e) => assert_eq!(e.message(), "Key must be exactly 32 bytes"),
        Ok(_) => panic!("sealed"),
    }
}

#[test]
fn a_push_is_done_when_the_new_state_is_where_it_is_kept() {
    let failed = || Err(StorageError::Other("no route".to_string()));
    let stage = |worker: &mut GitWorker| {
        let stage = packing(worker, "refs/heads/main", A).packed(worker, true, b"PACK").unwrap();
        stage.stored(worker, Ok(())).unwrap()
    };
    match LockStage::begin("refs/heads/main:refs/heads/main").unwrap().locked(failed()) {
        Err(e) => assert_eq!(e.message(), "no route"),
        Ok(_) => panic!("locked"),
    }
    let mut worker = worker();
    let unstored = packing(&worker, "refs/heads/main", A).packed(&worker, true, b"PACK").unwrap();
    match unstored.stored(&mut worker, failed()) {
        Err(e) => assert_eq!(e.message(), "no route"),
        Ok(_) => panic!("stored"),
    }
    assert_eq!(worker.list_refs(), [""]);
    assert!(worker.manifest().packfiles.is_empty());
    match stage(&mut worker).saved(failed()) {
        Err(e) => assert_eq!(e.message(), "no route"),
        Ok(_) => panic!("saved"),
    }
    let saved = stage(&mut worker).saved(Ok(())).unwrap();
    assert_eq!(saved.synced(failed()).unwrap_err().message(), "no route");
}

#[test]
fn local_branches_are_read_from_a_listing() {
    let listing = format!("{A}\trefs/heads/main\none\nfour words say nothing\n{B} refs/heads/main\n");
    assert!(names_only_refs(&listing));
    let heads = resolve_local_heads(&listing).unwrap();
    assert_eq!(heads.len(), 1);
    assert_eq!(heads.entry(0).1.as_str(), B);
    assert!(!names_only_refs(&format!("{A}\tmain\n")));
    assert!(!names_only_refs("123 main\n"));
    assert!(names_only_refs(&format!("123 refs/heads/x\n{A} main\n")));
    let error = resolve_local_heads("123 refs/heads/x\n").err().unwrap();
    assert_eq!(error.message(), "Invalid Git SHA-1 hash format: 123");
}

#[test]
fn a_saved_manifest_is_loaded_again() {
    let mut worker = worker();
    let stored = worker.save_manifest(b"{}").unwrap();
    match worker.load_manifest(Ok(stored.clone())).unwrap() {
        LoadedManifest::Plaintext(bytes) => assert_eq!(bytes, b"{}"),
        other => panic!("{other:?}"),
    }
    let mut other = GitWorker::new(vec![4; 32]);
    let error = other.load_manifest(Ok(stored)).unwrap_err();
    assert_eq!(error.message(), "Corrupted EOF block or bad key: aead::Error");
}

#[test]
fn an_erased_master_key_opens_nothing() {
    let mut worker = worker();
    let stored = worker.save_manifest(b"{}").unwrap();
    worker.erase();
    assert!(worker.open(&stored).is_err());
    assert_eq!(decrypt_bytes(&worker.save_manifest(b"{}").unwrap(), &[0; 32]).unwrap(), b"{}");
}

#[test]
fn a_repository_without_manifest_is_empty() {
    let mut worker = worker();
    push(&mut worker, "refs/heads/main", A);
    match worker.load_manifest(Err(StorageError::NotFound("manifest.enc".to_string()))).unwrap() {
        LoadedManifest::Missing(warning) => assert_eq!(
            warning,
            "warning: Could not load manifest.enc: File not found: manifest.enc. Assuming empty repository."
        ),
        other => panic!("{other:?}"),
    }
    assert_eq!(worker.list_refs(), [""]);
    assert!(worker.manifest().packfiles.is_empty());
}

fn record(path: &str, commits: &[&str]) -> PackfileRecord {
    PackfileRecord {
        id: path.to_string(),
        path: path.to_string(),
        contains_commits: commits
            .iter()
            .map(|c| GitHash::from_stored(c.to_string()))
            .collect(),
    }
}

/// Fetches with some commits there at first, and gives the packfiles that were
/// unpacked and the commits that were asked for.
fn fetched(packs: Vec<PackfileRecord>, present: &[&str]) -> (Vec<String>, Vec<String>) {
    let mut worker = worker();
    let mut manifest = Manifest::new();
    manifest.packfiles = packs;
    worker.adopt_manifest(manifest);
    let mut unpacked = Vec::new();
    let mut asked = Vec::new();
    let mut cursor = FetchCursor::new();
    let mut event = FetchEvent::Begun;
    loop {
        match cursor.advance(&worker, event) {
            FetchAction::Check(hash) => {
                event = after_checking(present.contains(&hash.as_str()));
                asked.push(hash);
            }
            FetchAction::Unpack(path) => {
                unpacked.push(path);
                event = after_unpacking(true).unwrap();
            }
            FetchAction::Done => return (unpacked, asked),
        }
    }
}

#[test]
fn packfiles_with_missing_commits_are_unpacked_in_order() {
    let packs = || {
        vec![
            record("p0", &["a", "b"]),
            record("p1", &[]),
            record("p2", &["c"]),
            record("p3", &["d", "e", "f"]),
        ]
    };
    assert_eq!(fetched(packs(), &[]).0, ["p0", "p2", "p3"]);
    assert_eq!(fetched(packs(), &["a", "b", "c", "d", "e", "f"]).0, Vec::<String>::new());
    let (unpacked, asked) = fetched(packs(), &["a", "d", "f"]);
    assert_eq!(unpacked, ["p0", "p2", "p3"]);
    assert_eq!(asked, ["a", "b", "c", "d", "e"]);
    assert_eq!(fetched(packs(), &["a", "b", "d", "e", "f"]).0, ["p2"]);
    assert_eq!(fetched(Vec::new(), &[]).0, Vec::<String>::new());
    assert_eq!(checking_args(A), ["cat-file", "-e", A]);
    assert_eq!(unpacking_args(), ["index-pack", "--stdin", "--fix-thin"]);
    assert_eq!(after_unpacking(false).unwrap_err().message(), "git index-pack failed");
}

#[test]
fn the_first_remote_of_the_helper_is_the_default() {
    let listing = "origin\tgit@example.com:x.git (fetch)\nenc\tpqcrypt::/srv/a (fetch)\nenc2 pqcrypt:/srv/b (push)\n";
    assert_eq!(get_default_repo_url(listing).as_deref(), Some("pqcrypt::/srv/a"));
    assert_eq!(get_default_repo_url("origin\thttps://x (fetch)\n"), None);
    assert_eq!(get_default_repo_url(""), None);
    assert_eq!(
        add_pqcrypt_remote("pqcrypt::/srv/a"),
        ["remote", "add", "pqcrypt", "pqcrypt::/srv/a"]
    );
}
