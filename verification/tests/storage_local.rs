use pqcrypt::storage::local::{
    lock_user, parse_lock_info, LocalStorage, LockAction, LockEvent, LockRequest,
};
use pqcrypt::storage::{FileAnswer, LockGuard, StorageError};

fn request(user: &str, now: u64) -> LockRequest {
    LockRequest { user: user.to_string(), now }
}

fn failure(action: LockAction) -> String {
    match action {
        LockAction::Fail(e) => e.message(),
        other => panic!("{other:?}"),
    }
}

#[test]
fn files_are_under_the_root() {
    let storage = LocalStorage::new("/srv/store");
    assert_eq!(storage.root(), "/srv/store");
    assert_eq!(storage.full_path("objects/pack-1.pack.enc"), "/srv/store/objects/pack-1.pack.enc");
    assert_eq!(storage.full_path("/keys.json"), "/keys.json");
    assert_eq!(storage.lock_dir(), "/srv/store/pqcrypt.lock");
    assert_eq!(storage.clone().lock_info(), "/srv/store/pqcrypt.lock/info");
}

#[test]
fn reading_a_file_tells_a_missing_one_from_a_failure() {
    let bytes = LocalStorage::get("keys.json", FileAnswer::Contents(vec![1, 2, 3])).unwrap();
    assert_eq!(bytes, [1, 2, 3]);
    let missing = LocalStorage::get("keys.json", FileAnswer::Missing).unwrap_err();
    assert!(matches!(missing, StorageError::NotFound(_)));
    assert_eq!(missing.message(), "File not found: keys.json");
    let failed = LocalStorage::get("keys.json", FileAnswer::Failed("denied".to_string()));
    assert_eq!(failed.unwrap_err().message(), "Network/IO error: denied");
    assert_eq!(StorageError::Other("in words".to_string()).message(), "in words");
}

#[test]
fn names_that_are_no_texts_are_passed_over() {
    let names = vec![Some("b".to_string()), None, Some("a".to_string())];
    assert_eq!(LocalStorage::list(names), ["b", "a"]);
}

#[test]
fn a_free_lock_is_taken() {
    let request = request("ann", 1_000);
    assert!(matches!(request.lock(LockEvent::Wanted), LockAction::MakeDirectory));
    match request.lock(LockEvent::DirectoryMade) {
        LockAction::WriteInfo(info) => assert_eq!(info, "ann\n1000"),
        other => panic!("{other:?}"),
    }
    assert!(matches!(request.lock(LockEvent::InfoWritten), LockAction::Hold));
    assert!(matches!(request.lock(LockEvent::DirectoryExists), LockAction::ReadInfo));
    assert!(matches!(request.lock(LockEvent::StaleRemoved), LockAction::MakeDirectory));
}

/// What a way to the lock asks for, step by step.
fn way_to_lock(request: &LockRequest, events: Vec<LockEvent>) -> Vec<&'static str> {
    events
        .into_iter()
        .map(|event| match request.lock(event) {
            LockAction::MakeDirectory => "make",
            LockAction::WriteInfo(_) => "write",
            LockAction::ReadInfo => "read",
            LockAction::RemoveStale(_) => "remove",
            LockAction::Hold => "hold",
            LockAction::Fail(_) => "fail",
        })
        .collect()
}

#[test]
fn a_lock_is_held_by_who_made_its_directory() {
    let info = |text: &str| LockEvent::InfoRead(text.to_string());
    let stale = vec![
        LockEvent::Wanted,
        LockEvent::DirectoryExists,
        info("ann\n1000"),
        LockEvent::StaleRemoved,
        LockEvent::DirectoryMade,
        LockEvent::InfoWritten,
    ];
    let steps = way_to_lock(&request("bob", 2_000), stale);
    assert_eq!(steps, ["make", "read", "remove", "make", "write", "hold"]);
    let fresh = vec![LockEvent::Wanted, LockEvent::DirectoryExists, info("ann\n1500")];
    assert_eq!(way_to_lock(&request("bob", 2_000), fresh), ["make", "read", "fail"]);
}

#[test]
fn a_fresh_lock_is_respected_for_ten_minutes() {
    for now in [0, 1_000, 1_600] {
        let action = request("bob", now).lock(LockEvent::InfoRead("ann\n1000".to_string()));
        assert_eq!(
            failure(action),
            "Remote repository is locked by another process (ann). Try again later."
        );
    }
}

#[test]
fn a_stale_lock_is_broken_after_ten_minutes() {
    match request("bob", 1_601).lock(LockEvent::InfoRead("ann\n1000".to_string())) {
        LockAction::RemoveStale(warning) => assert_eq!(
            warning,
            "warning: Detected stale lock from ann at 1000. Attempting to force remove."
        ),
        other => panic!("{other:?}"),
    }
}

#[test]
fn a_lock_that_cannot_be_had_says_why() {
    let request = request("ann", 5);
    assert_eq!(
        failure(request.lock(LockEvent::DirectoryFailed("read-only".to_string()))),
        "Failed to acquire lock: read-only"
    );
    assert_eq!(
        failure(request.lock(LockEvent::InfoFailed("disk full".to_string()))),
        "Network/IO error: disk full"
    );
    assert_eq!(
        failure(request.lock(LockEvent::InfoUnreadable)),
        "Remote repository is locked by an unknown process. Lock directory exists but info file is unreadable."
    );
}

#[test]
fn what_is_written_of_a_lock_is_read_back() {
    for (user, now) in [("ann", 0), ("", 7), ("a b", u64::MAX)] {
        match request(user, now).lock(LockEvent::DirectoryMade) {
            LockAction::WriteInfo(info) => {
                let parsed = parse_lock_info(&info);
                assert_eq!(parsed.user, user);
                assert_eq!(parsed.stamp, now);
            }
            other => panic!("{other:?}"),
        }
    }
}

#[test]
fn what_a_lock_does_not_say_has_defaults() {
    let empty = parse_lock_info("");
    assert_eq!((empty.user.as_str(), empty.stamp_text.as_str(), empty.stamp), ("unknown", "0", 0));
    let one = parse_lock_info("ann\r\n");
    assert_eq!((one.user.as_str(), one.stamp_text.as_str(), one.stamp), ("ann", "0", 0));
    let odd = parse_lock_info("ann\nyesterday\nmore");
    assert_eq!((odd.stamp_text.as_str(), odd.stamp), ("yesterday", 0));
    assert_eq!(lock_user(None), "unknown");
    assert_eq!(lock_user(Some("ann".to_string())), "ann");
}

#[test]
fn only_what_is_held_is_let_go() {
    assert_eq!(LockGuard::held(7).release(), Some(7));
    assert_eq!(LockGuard::unguarded(7).release(), None);
}
