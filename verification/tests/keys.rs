use base64::engine::general_purpose::STANDARD;
use base64::Engine;
use pqcrypt::keys::{KeyError, PrivateKey, PublicKey};
use pqcrypt::outside::HpkeFault;
use pqcrypt::workers::keyworker::{
    accept_master_key, append_entry, assemble, check_private_key, find_entry, find_matching_key,
    generate_and_save_keypair, get_default_key_path, get_pubkey_from_file, init_key_source,
    lists_key, load_key_from_file, resolve_or_generate_init_key, ConfigAnswer, InitKeyFile,
    InitKeyResult, InitKeySource, KeyEncapsulation, KeyLookup, KeyPlace, KeyWorker, KeysJson,
};

const URL: &str = "pqcrypt::/srv/store";

fn worker() -> KeyWorker {
    KeyWorker::new(URL.to_string())
}

fn key(seed: u8) -> PrivateKey {
    PrivateKey::from_bytes(vec![seed; 32]).unwrap()
}

fn public_text(key: &PrivateKey) -> String {
    STANDARD.encode(key.public_key().as_bytes())
}

fn copy(keys: &KeysJson) -> KeysJson {
    let list = &keys.master_key_encapsulations;
    KeysJson { master_key_encapsulations: list.iter().map(copy_entry).collect() }
}

fn copy_entry(e: &KeyEncapsulation) -> KeyEncapsulation {
    KeyEncapsulation {
        public_key: e.public_key.clone(),
        encapsulated_key: e.encapsulated_key.clone(),
        auth_tag: e.auth_tag.clone(),
        wrapped_master_key: e.wrapped_master_key.clone(),
        comment: e.comment.clone(),
    }
}

fn message<T>(result: Result<T, KeyError>) -> String {
    match result {
        Ok(_) => panic!("no error"),
        Err(e) => e.message(),
    }
}

#[test]
fn a_private_key_has_thirty_two_bytes() {
    assert!(PrivateKey::from_bytes(vec![0; 31]).is_none());
    assert!(PrivateKey::from_bytes(vec![0; 33]).is_none());
    assert_eq!(key(5).as_bytes(), [5; 32]);
    assert_eq!(key(5).public_key().as_bytes().len(), 1216);
    assert_ne!(key(5).public_key().as_bytes(), key(6).public_key().as_bytes());
}

#[test]
fn an_erased_key_is_gone() {
    let mut key = key(5);
    key.erase();
    assert_eq!(key.as_bytes(), [0; 32]);
}

#[test]
fn a_public_key_is_read_again() {
    let (private_key, public_key) = PrivateKey::generate();
    assert_eq!(private_key.public_key().as_bytes(), public_key.as_bytes());
    let read = PublicKey::from_bytes(public_key.as_bytes()).unwrap();
    assert_eq!(read.as_bytes(), public_key.as_bytes());
    assert!(PublicKey::from_bytes(&[0; 1215]).is_none());
    assert!(PublicKey::from_bytes(&[0xff; 1216]).is_none());
}

#[test]
fn a_key_file_is_base64_with_white_space_around() {
    let text = format!("  {}\n", STANDARD.encode([3; 32]));
    assert_eq!(load_key_from_file(&text, "/k").unwrap().as_bytes(), [3; 32]);
    let short = STANDARD.encode([3; 31]);
    assert_eq!(message(load_key_from_file(&short, "/k")), "Invalid private key format at /k");
    assert_eq!(message(check_private_key(vec![0; 33], "/x")), "Invalid private key format at /x");
    let error = STANDARD.decode("no base64!").unwrap_err().to_string();
    assert_eq!(message(load_key_from_file("no base64!", "/k")), error);
    assert_eq!(message(load_key_from_file("QQ", "/k")), STANDARD.decode("QQ").unwrap_err().to_string());
}

#[test]
fn the_public_key_of_a_generated_file_is_found_again() {
    let file = generate_and_save_keypair("/home/ann/.config/pqcrypt/key");
    assert_eq!(file.path, "/home/ann/.config/pqcrypt/key");
    assert_eq!(get_pubkey_from_file(&file.contents, "/k").unwrap(), file.pubkey_b64);
    let loaded = load_key_from_file(&file.contents, "/k").unwrap();
    assert_eq!(public_text(&loaded), file.pubkey_b64);
    assert_ne!(generate_and_save_keypair("/k").contents, file.contents);
    assert_eq!(file.mode, 0o600);
    assert_eq!(message(get_pubkey_from_file("QUJD", "/k")), "Invalid private key format at /k");
}

#[test]
fn the_creator_unlocks_the_master_key() {
    let keys = worker().add_new_master_key(&key(1), "work-laptop").unwrap();
    assert_eq!(keys.master_key_encapsulations.len(), 1);
    let entry = &keys.master_key_encapsulations[0];
    assert_eq!(entry.comment, "work-laptop");
    assert_eq!(entry.public_key, public_text(&key(1)));
    let master_key = worker().unlock_master_key(&key(1), &keys).unwrap();
    assert_eq!(master_key.len(), 32);
    assert_ne!(STANDARD.decode(&entry.wrapped_master_key).unwrap(), master_key);
    let again = worker().unlock_master_key(&key(1), &keys).unwrap();
    assert_eq!(again, master_key);
}

#[test]
fn all_users_unlock_the_same_master_key() {
    let mut keys = worker().add_new_master_key(&key(1), "").unwrap();
    let master_key = worker().unlock_master_key(&key(1), &keys).unwrap();
    for seed in 2..5 {
        let pubkey = public_text(&key(seed));
        let current = Ok(copy(&keys));
        keys = worker().add_user(&key(seed - 1), &keys, &pubkey, "new", current).unwrap();
        assert_eq!(keys.master_key_encapsulations.len(), seed as usize);
        assert_eq!(keys.master_key_encapsulations.last().unwrap().public_key, pubkey);
        assert_eq!(keys.master_key_encapsulations.last().unwrap().comment, "new");
        for user in 1..=seed {
            assert_eq!(worker().unlock_master_key(&key(user), &keys).unwrap(), master_key);
        }
    }
}

#[test]
fn a_user_is_not_added_twice() {
    let keys = worker().add_new_master_key(&key(1), "").unwrap();
    let pubkey = public_text(&key(1));
    let result = worker().add_user(&key(1), &keys, &pubkey, "", Ok(copy(&keys)));
    assert_eq!(message(result), "Public key already exists");
    let entry = copy_entry(&keys.master_key_encapsulations[0]);
    assert_eq!(message(append_entry(copy(&keys), entry)), "Public key already exists");
    let other = worker().add_new_master_key(&key(2), "").unwrap();
    let entry = copy_entry(&other.master_key_encapsulations[0]);
    let longer = append_entry(keys, entry).unwrap();
    assert_eq!(longer.master_key_encapsulations.len(), 2);
}

#[test]
fn adding_a_user_fails_in_order() {
    let keys = worker().add_new_master_key(&key(1), "").unwrap();
    let pubkey = public_text(&key(2));
    let current = || Err("gone".to_string());
    let result = worker().add_user(&key(9), &keys, "bad text", "", current());
    assert_eq!(message(result), "User not authorized");
    let result = worker().add_user(&key(1), &keys, "bad text", "", current());
    assert_eq!(message(result), STANDARD.decode("bad text").unwrap_err().to_string());
    let result = worker().add_user(&key(1), &keys, "QUJD", "", current());
    assert_eq!(message(result), "Invalid pubkey format");
    let result = worker().add_user(&key(1), &keys, &pubkey, "", current());
    assert_eq!(message(result), "gone");
}

#[test]
fn the_url_and_the_comment_are_bound_to_the_master_key() {
    let keys = worker().add_new_master_key(&key(1), "work").unwrap();
    assert!(worker().unlock_master_key(&key(1), &keys).is_ok());
    let elsewhere = KeyWorker::new("pqcrypt::/srv/other".to_string());
    assert_eq!(
        message(elsewhere.unlock_master_key(&key(1), &keys)),
        "HPKE open failed: Failed to open ciphertext"
    );
    let mut changed = copy(&keys);
    changed.master_key_encapsulations[0].comment = "play".to_string();
    assert_eq!(
        message(worker().unlock_master_key(&key(1), &changed)),
        "HPKE open failed: Failed to open ciphertext"
    );
}

#[test]
fn an_entry_that_is_not_whole_does_not_open() {
    let keys = worker().add_new_master_key(&key(1), "").unwrap();
    let mut changed = copy(&keys);
    changed.master_key_encapsulations[0].encapsulated_key = STANDARD.encode([0; 7]);
    assert_eq!(message(worker().unlock_master_key(&key(1), &changed)), "Invalid enc key");
    let mut changed = copy(&keys);
    changed.master_key_encapsulations[0].auth_tag = STANDARD.encode([0; 7]);
    assert_eq!(
        message(worker().unlock_master_key(&key(1), &changed)),
        "Invalid authentication tag"
    );
    let mut changed = copy(&keys);
    changed.master_key_encapsulations[0].wrapped_master_key = "?".to_string();
    assert_eq!(
        message(worker().unlock_master_key(&key(1), &changed)),
        STANDARD.decode("?").unwrap_err().to_string()
    );
    assert_eq!(message(worker().unlock_master_key(&key(2), &keys)), "User not authorized");
}

#[test]
fn a_master_key_has_its_length() {
    let entry = worker().wrap_master_key(&[1; 31], &key(1).public_key(), "").unwrap();
    let keys = KeysJson { master_key_encapsulations: vec![entry] };
    assert_eq!(message(worker().unlock_master_key(&key(1), &keys)), "Invalid key length");
    let entry = worker().wrap_master_key(&[9; 32], &key(1).public_key(), "c").unwrap();
    let keys = KeysJson { master_key_encapsulations: vec![entry] };
    assert_eq!(worker().unlock_master_key(&key(1), &keys).unwrap(), [9; 32]);
    assert_eq!(accept_master_key(Ok(vec![4; 32])).unwrap(), [4; 32]);
    assert_eq!(message(accept_master_key(Ok(vec![4; 33]))), "Invalid key length");
    assert_eq!(
        message(accept_master_key(Err(HpkeFault::Setup("no".to_string())))),
        "HPKE receiver setup failed: no"
    );
    assert_eq!(
        message(accept_master_key(Err(HpkeFault::Message("no".to_string())))),
        "HPKE open failed: no"
    );
}

#[test]
fn the_first_entry_for_a_key_is_found() {
    let bad = || Err::<Vec<u8>, String>("bad".to_string());
    let decoded = vec![Ok(vec![1]), Ok(vec![2]), Ok(vec![2]), bad()];
    assert_eq!(find_entry(&decoded, &[2]).unwrap(), 1);
    assert_eq!(message(find_entry(&decoded, &[3])), "bad");
    assert_eq!(message(find_entry(&vec![bad(), Ok(vec![3])], &[3])), "bad");
    assert_eq!(message(find_entry(&vec![Ok(vec![1])], &[3])), "User not authorized");
    assert!(lists_key(&vec![bad(), Ok(vec![3])], &[3]));
    assert!(!lists_key(&decoded, &[3]));
}

#[test]
fn the_parts_of_an_entry_are_checked_in_order() {
    let bad = |text: &str| Err::<Vec<u8>, String>(text.to_string());
    assert_eq!(message(assemble(bad("e"), bad("w"), bad("t"))), "e");
    assert_eq!(message(assemble(Ok(vec![0; 9]), bad("w"), bad("t"))), "Invalid enc key");
    assert_eq!(message(assemble(Ok(vec![0; 1120]), bad("w"), bad("t"))), "w");
    assert_eq!(message(assemble(Ok(vec![0; 1120]), Ok(vec![]), bad("t"))), "t");
    assert_eq!(
        message(assemble(Ok(vec![0; 1120]), Ok(vec![]), Ok(vec![0; 17]))),
        "Invalid authentication tag"
    );
    let sealed = assemble(Ok(vec![1; 1120]), Ok(vec![2]), Ok(vec![3; 16])).unwrap();
    assert_eq!(sealed.encapsulated_key, [1; 1120]);
    assert_eq!(sealed.ciphertext, [2]);
    assert_eq!(sealed.tag, [3; 16]);
}

#[test]
fn a_matching_key_is_found_in_a_directory() {
    let keys = worker().add_new_master_key(&key(2), "").unwrap();
    let contents: Vec<String> = vec![
        "no key".to_string(),
        STANDARD.encode([1; 32]),
        format!("{}\n", STANDARD.encode([2; 32])),
        STANDARD.encode([2; 32]),
    ];
    let found = find_matching_key(&keys, &contents, "/d").unwrap();
    assert_eq!(found.as_bytes(), [2; 32]);
    assert!(worker().unlock_master_key(&found, &keys).is_ok());
    let none = find_matching_key(&keys, &contents[..2].to_vec(), "/d");
    assert_eq!(message(none), "No matching key found in /d");
}

fn lookup() -> KeyLookup {
    KeyLookup {
        environment: None,
        git_config: ConfigAnswer::Unset,
        local_key_exists: false,
        home: Some("/home/ann".to_string()),
        global_directory_exists: true,
    }
}

fn file(place: Result<KeyPlace, KeyError>) -> String {
    match place {
        Ok(KeyPlace::File(path)) => path,
        _ => panic!("no file"),
    }
}

#[test]
fn places_for_a_key_are_tried_in_order() {
    let worker = worker();
    let mut all = lookup();
    all.environment = Some("/env/key".to_string());
    all.git_config = ConfigAnswer::Text("/git/key\n".to_string());
    all.local_key_exists = true;
    assert_eq!(file(worker.get_local_key(all)), "/env/key");
    let mut some = lookup();
    some.environment = Some(String::new());
    some.git_config = ConfigAnswer::Text(" /git/key\n".to_string());
    some.local_key_exists = true;
    assert_eq!(file(worker.get_local_key(some)), "/git/key");
    let mut some = lookup();
    some.git_config = ConfigAnswer::Text(" \n".to_string());
    some.local_key_exists = true;
    assert_eq!(file(worker.get_local_key(some)), ".pqcrypt/key");
    match worker.get_local_key(lookup()) {
        Ok(KeyPlace::Directory(path)) => assert_eq!(path, "/home/ann/.config/pqcrypt"),
        _ => panic!("no directory"),
    }
}

#[test]
fn a_key_that_is_nowhere_is_reported() {
    let worker = worker();
    let mut none = lookup();
    none.global_directory_exists = false;
    assert_eq!(message(worker.get_local_key(none)), "No suitable private key found");
    let mut none = lookup();
    none.home = None;
    assert_eq!(message(worker.get_local_key(none)), "No home directory");
    let mut odd = lookup();
    odd.git_config = ConfigAnswer::NotText("invalid utf-8".to_string());
    assert_eq!(message(worker.get_local_key(odd)), "invalid utf-8");
}

#[test]
fn the_key_of_a_new_repository_comes_from_a_file_or_is_made() {
    let home = || Some("/home/ann".to_string());
    match init_key_source(Some("/k".to_string()), None, false).unwrap() {
        InitKeySource::Load(path) => assert_eq!(path, "/k"),
        other => panic!("{other:?}"),
    }
    match init_key_source(None, home(), true).unwrap() {
        InitKeySource::Load(path) => assert_eq!(path, "/home/ann/.config/pqcrypt/key"),
        other => panic!("{other:?}"),
    }
    match init_key_source(None, home(), false).unwrap() {
        InitKeySource::Generate(path) => assert_eq!(path, "/home/ann/.config/pqcrypt/key"),
        other => panic!("{other:?}"),
    }
    assert_eq!(message(init_key_source(None, None, true)), "No home directory found");
    assert_eq!(get_default_key_path(home()).unwrap(), "/home/ann/.config/pqcrypt/key");

    let read = InitKeyFile::Read { path: "/k".to_string(), contents: STANDARD.encode([1; 32]) };
    let init = resolve_or_generate_init_key(read).unwrap();
    assert_eq!(init.key.as_bytes(), [1; 32]);
    assert!(matches!(init.result, InitKeyResult::Existing));
    assert!(init.file.is_none());
    let bad = InitKeyFile::Read { path: "/k".to_string(), contents: "QUJD".to_string() };
    assert_eq!(message(resolve_or_generate_init_key(bad)), "Invalid private key format at /k");

    let missing = InitKeyFile::Missing { path: "/new".to_string() };
    let init = resolve_or_generate_init_key(missing).unwrap();
    let file = init.file.unwrap();
    assert_eq!(load_key_from_file(&file.contents, "").unwrap().as_bytes(), init.key.as_bytes());
    assert_eq!((file.path.as_str(), file.mode), ("/new", 0o600));
    match init.result {
        InitKeyResult::Generated { pubkey_b64, path } => {
            assert_eq!(pubkey_b64, public_text(&init.key));
            assert_eq!(path, "/new");
        }
        InitKeyResult::Existing => panic!("not generated"),
    }
}

#[test]
fn a_key_list_is_never_replaced() {
    assert_eq!(
        message(worker().init_storage(true, &key(1), "")),
        "Repository already initialized (keys.json already exists). Aborting to prevent overwriting the master key."
    );
    let keys = worker().init_storage(false, &key(1), "home").unwrap();
    assert!(worker().unlock_master_key(&key(1), &keys).is_ok());
}

#[test]
fn faults_of_sealing_have_their_words() {
    assert_eq!(KeyError::SealSetup("x".to_string()).message(), "HPKE setup failed: x");
    assert_eq!(KeyError::Seal("x".to_string()).message(), "HPKE seal failed: x");
}
