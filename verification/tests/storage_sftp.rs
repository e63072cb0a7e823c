use pqcrypt::storage::sftp::{ensure_parent_dirs, is_not_found, parse_sftp_url, rpath, SftpStorage};
use pqcrypt::storage::StorageError;

#[test]
fn a_url_is_a_connection_and_a_path() {
    for (url, connection, path) in [
        ("sftp://user@example.com/path/to/store", "ssh://user@example.com", "/path/to/store"),
        ("sftp://example.com:2222//srv", "ssh://example.com:2222", "/srv"),
        ("sftp://example.com", "ssh://example.com", "/"),
        ("ssh://user@example.com/store", "ssh://user@example.com", "/store"),
        ("example.com/x", "ssh://example.com", "/x"),
        ("", "ssh://", "/"),
    ] {
        assert_eq!(
            parse_sftp_url(url),
            (connection.to_string(), path.to_string()),
            "{url}"
        );
    }
    let storage = SftpStorage::new("sftp://h/store/").clone();
    assert_eq!(storage.connection, "ssh://h");
    assert_eq!(storage.full_path("keys.json"), "/store/keys.json");
    assert_eq!(storage.temporary_path("manifest.enc"), "/store/manifest.enc.tmp");
}

#[test]
fn one_slash_stands_between_root_and_file() {
    assert_eq!(rpath("/srv", "a"), "/srv/a");
    assert_eq!(rpath("/srv//", "a"), "/srv/a");
    assert_eq!(rpath("/", "a"), "/a");
}

#[test]
fn parents_are_made_from_the_root_down() {
    assert_eq!(ensure_parent_dirs("/a/b/c.enc"), ["/a", "/a/b"]);
    assert_eq!(ensure_parent_dirs("a/b/c"), ["a", "a/b"]);
    assert_eq!(ensure_parent_dirs("/c"), Vec::<String>::new());
    assert_eq!(ensure_parent_dirs("c"), Vec::<String>::new());
    assert_eq!(ensure_parent_dirs("a//b/c"), ["a", "a//b"]);
}

#[test]
fn a_missing_file_is_told_from_a_failure() {
    assert!(is_not_found("SFTP error: No Such File"));
    assert!(is_not_found("entry NOT FOUND"));
    assert!(!is_not_found("permission denied"));
    assert_eq!(SftpStorage::get("keys.json", Ok(vec![9])).unwrap(), [9]);
    let missing = SftpStorage::get("keys.json", Err("no such file".to_string())).unwrap_err();
    assert!(matches!(missing, StorageError::NotFound(_)));
    assert_eq!(missing.message(), "File not found: keys.json");
    let failed = SftpStorage::get("keys.json", Err("broken pipe".to_string())).unwrap_err();
    assert_eq!(failed.message(), "broken pipe");
}

#[test]
fn removing_what_is_not_there_is_no_failure() {
    assert!(SftpStorage::delete(Ok(())).is_ok());
    assert!(SftpStorage::delete(Err("No such file".to_string())).is_ok());
    let failed = SftpStorage::delete(Err("denied".to_string())).unwrap_err();
    assert_eq!(failed.message(), "denied");
}
