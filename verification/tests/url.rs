use pqcrypt::storage::dispatch::{determine_type, StorageType};
use pqcrypt::url::parse_pqcrypt_url;

#[test]
fn the_three_spellings_are_equivalent() {
    for url in ["pqcrypt:///path/to/store", "pqcrypt::/path/to/store", "pqcrypt:/path/to/store"] {
        let parsed = parse_pqcrypt_url(url);
        assert_eq!(parsed.canonical, "pqcrypt::/path/to/store");
        assert_eq!(parsed.storage_path, "/path/to/store");
    }
}

#[test]
fn a_text_without_scheme_is_a_path() {
    let parsed = parse_pqcrypt_url("git@example.com:org/store.git");
    assert_eq!(parsed.canonical, "pqcrypt::git@example.com:org/store.git");
    assert_eq!(parsed.storage_path, "git@example.com:org/store.git");
}

#[test]
fn the_first_spelling_that_fits_is_taken() {
    assert_eq!(parse_pqcrypt_url("pqcrypt::://x").storage_path, "://x");
    assert_eq!(parse_pqcrypt_url("pqcrypt:").storage_path, "");
    assert_eq!(parse_pqcrypt_url("pqcrypt").storage_path, "pqcrypt");
}

#[test]
fn the_canonical_url_leads_back_and_normalizing_is_idempotent() {
    for url in ["pqcrypt://x", "pqcrypt::sftp://h/p", "pqcrypt:y", "z", ""] {
        let once = parse_pqcrypt_url(url);
        let twice = parse_pqcrypt_url(&once.canonical);
        assert_eq!(twice.storage_path, once.storage_path);
        assert_eq!(twice.canonical, once.canonical);
        assert_eq!(once.clone().canonical, once.canonical);
    }
}

#[test]
fn the_path_decides_on_the_backend() {
    for (path, kind) in [
        ("/local/path", StorageType::Local),
        ("sftp://user@example.com/path", StorageType::Sftp),
        ("ssh://user@example.com/path", StorageType::Sftp),
        ("git@example.com:org/store", StorageType::Git),
        ("/srv/store.git", StorageType::Git),
        ("https://github.com/org/store", StorageType::Git),
        ("https://example.com/store", StorageType::Local),
        ("sftp://host/store.git", StorageType::Sftp),
        ("pqcrypt://sftp://host/store", StorageType::Sftp),
        ("pqcrypt::git@host:store", StorageType::Local),
        ("", StorageType::Local),
    ] {
        assert_eq!(determine_type(path), kind, "{path}");
    }
}
