use base64::engine::general_purpose::STANDARD;
use base64::Engine;
use pqcrypt::keys::PrivateKey;
use pqcrypt::storage::StorageError;
use pqcrypt::workers::keyworker::{KeyEncapsulation, KeyWorker, KeysJson};
use pqcrypt::workers::update::{FetchStage, FreshStage};

const URL: &str = "pqcrypt::/srv/store";

fn key(seed: u8) -> PrivateKey {
    PrivateKey::from_bytes(vec![seed; 32]).unwrap()
}

fn fresh() -> FreshStage {
    match FetchStage::begin(URL.to_string()).fetched(Ok(())) {
        Ok(stage) => stage,
        Err(e) => panic!("{e:?}"),
    }
}

fn failed() -> Result<(), StorageError> {
    Err(StorageError::Other("no route".to_string()))
}

/// The key list of a new repository of the owner of a key.
fn made(seed: u8) -> KeysJson {
    let stage = fresh().init(false, &key(seed), "ann").unwrap();
    stage.written(Ok(())).unwrap().synced(Ok(())).unwrap()
}

fn copy(keys: &KeysJson) -> KeysJson {
    let copy_entry = |e: &KeyEncapsulation| KeyEncapsulation {
        public_key: e.public_key.clone(),
        encapsulated_key: e.encapsulated_key.clone(),
        auth_tag: e.auth_tag.clone(),
        wrapped_master_key: e.wrapped_master_key.clone(),
        comment: e.comment.clone(),
    };
    let list = &keys.master_key_encapsulations;
    KeysJson { master_key_encapsulations: list.iter().map(copy_entry).collect() }
}

#[test]
fn nothing_is_done_before_the_state_is_fetched() {
    match FetchStage::begin(URL.to_string()).fetched(failed()) {
        Err(e) => assert_eq!(e.message(), "no route"),
        Ok(_) => panic!("fetched"),
    }
    let keys = made(1);
    let master_key = fresh().worker().unlock_master_key(&key(1), &keys).unwrap();
    assert_eq!(master_key, KeyWorker::new(URL.to_string()).unlock_master_key(&key(1), &keys).unwrap());
}

#[test]
fn a_new_repository_is_there_when_its_key_list_is_where_it_is_kept() {
    let stage = || fresh().init(false, &key(1), "ann").unwrap_or_else(|e| panic!("{e:?}"));
    assert_eq!(stage().keys().master_key_encapsulations.len(), 1);
    match stage().written(failed()) {
        Err(e) => assert_eq!(e.message(), "no route"),
        Ok(_) => panic!("written"),
    }
    let written = stage().written(Ok(())).unwrap_or_else(|e| panic!("{e:?}"));
    assert_eq!(written.synced(failed()).unwrap_err().message(), "no route");
    match fresh().init(true, &key(1), "ann") {
        Err(e) => assert!(e.message().starts_with("Repository already initialized")),
        Ok(_) => panic!("made twice"),
    }
}

#[test]
fn who_was_added_is_served_with_the_same_master_key() {
    let keys = made(1);
    let pubkey = STANDARD.encode(key(2).public_key().as_bytes());
    let stage = fresh().add_user(&key(1), &keys, &pubkey, "bob", Ok(copy(&keys)));
    let stage = stage.unwrap_or_else(|e| panic!("{e:?}"));
    let longer = stage.written(Ok(())).unwrap().synced(Ok(())).unwrap();
    assert_eq!(longer.master_key_encapsulations.len(), 2);
    let ann = fresh().serve(&key(1), &longer).unwrap_or_else(|e| panic!("{e:?}"));
    let bob = fresh().serve(&key(2), &longer).unwrap_or_else(|e| panic!("{e:?}"));
    assert_eq!(bob.open(&ann.save_manifest(b"PACK").unwrap()).unwrap(), b"PACK");
    assert_eq!(bob.list_refs(), [""]);
    match fresh().serve(&key(3), &longer) {
        Err(e) => assert_eq!(e.message(), "User not authorized"),
        Ok(_) => panic!("served"),
    }
}
