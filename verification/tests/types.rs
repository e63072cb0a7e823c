use pqcrypt::types::githash::GitHash;
use pqcrypt::types::gitref::GitRef;
use pqcrypt::types::manifest::{Heads, Manifest};
use std::collections::HashSet;

const A: &str = "0123456789abcdef0123456789ABCDEF01234567";
const B: &str = "ffffffffffffffffffffffffffffffffffffffff";

fn reference(name: &str) -> GitRef {
    GitRef::new(name.to_string()).unwrap()
}

fn hash(text: &str) -> GitHash {
    GitHash::new(text.to_string()).unwrap()
}

fn listing(heads: &Heads) -> Vec<(String, String)> {
    (0..heads.len())
        .map(|i| {
            let (r, h) = heads.entry(i);
            (r.as_str().to_string(), h.as_str().to_string())
        })
        .collect()
}

#[test]
fn a_hash_is_forty_hexadecimal_digits() {
    assert_eq!(hash(A).as_str(), A);
    for text in ["", "abc", &A[1..], &format!("{A}0"), &A.replace('0', "g"), &A.replace("01", "é")] {
        let error = GitHash::new(text.to_string()).unwrap_err();
        assert_eq!(error.message(), format!("Invalid Git SHA-1 hash format: {text}"));
    }
    assert_eq!(GitHash::from_stored("anything".to_string()).as_str(), "anything");
    assert_eq!(hash(B).clone().as_str(), B);
    assert_eq!(B.parse::<GitHash>().unwrap(), hash(B));
    assert_ne!(hash(A), hash(B));
    assert!("abc".parse::<GitHash>().is_err());
}

#[test]
fn a_reference_is_head_or_a_branch_or_a_tag() {
    for name in ["HEAD", "refs/heads/main", "refs/tags/v1", "refs/heads/"] {
        assert_eq!(reference(name).as_str(), name);
    }
    for name in ["", "main", "HEADS", "refs/remotes/origin/main", "xrefs/heads/main"] {
        let error = GitRef::new(name.to_string()).unwrap_err();
        assert_eq!(
            error.message(),
            "Invalid reference! Must be 'HEAD', or start with 'refs/heads/' or 'refs/tags/'."
        );
    }
    for name in ["refs/heads/a b", " HEAD", "HEAD\n", "x\u{2003}y"] {
        let error = GitRef::new(name.to_string()).unwrap_err();
        assert_eq!(
            error.message(),
            "Invalid reference! Git references cannot contain whitespace."
        );
    }
    assert_eq!(GitRef::from_stored("main".to_string()).clone().as_str(), "main");
    assert_eq!("HEAD".parse::<GitRef>().unwrap(), reference("HEAD"));
    assert_ne!(reference("HEAD"), reference("refs/heads/main"));
    assert!("main".parse::<GitRef>().is_err());
    let set: HashSet<GitRef> = [reference("HEAD"), reference("HEAD")].into_iter().collect();
    assert_eq!(set.len(), 1);
}

#[test]
fn a_new_manifest_is_empty() {
    let manifest = Manifest::default();
    assert_eq!((manifest.heads.len(), manifest.packfiles.len()), (0, 0));
    assert!(format!("{manifest:?}").starts_with("Manifest"));
    let manifest = Manifest::new();
    assert_eq!(manifest.heads.len(), 0);
    assert!(manifest.packfiles.is_empty());
}

#[test]
fn each_reference_names_one_commit() {
    let mut heads = Heads::new();
    heads.insert(reference("refs/heads/main"), hash(A));
    heads.insert(reference("refs/heads/dev"), hash(A));
    heads.insert(reference("refs/tags/v1"), hash(A));
    heads.insert(reference("refs/heads/dev"), hash(B));
    assert_eq!(heads.get(&reference("refs/heads/dev")).unwrap().as_str(), B);
    assert_eq!(heads.get(&reference("refs/heads/main")).unwrap().as_str(), A);
    assert!(heads.get(&reference("HEAD")).is_none());
    let names: Vec<String> = listing(&heads).into_iter().map(|e| e.0).collect();
    assert_eq!(names, ["refs/heads/main", "refs/heads/dev", "refs/tags/v1"]);
}

#[test]
fn a_reference_that_was_removed_is_gone_and_the_others_stay() {
    let mut heads = Heads::new();
    heads.insert(reference("refs/heads/a"), hash(A));
    heads.insert(reference("refs/heads/b"), hash(B));
    heads.insert(reference("refs/heads/c"), hash(A));
    heads.remove(&reference("refs/heads/b"));
    heads.remove(&reference("refs/heads/x"));
    assert!(heads.get(&reference("refs/heads/b")).is_none());
    assert_eq!(
        listing(&heads),
        [
            ("refs/heads/a".to_string(), A.to_string()),
            ("refs/heads/c".to_string(), A.to_string())
        ]
    );
}
