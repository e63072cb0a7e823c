//! The key list of a repository: whom its master key is wrapped for, and how
//! it is unlocked.

use crate::keys;
use crate::keys::{KeyError, KeyFault, PrivateKey, PublicKey};
use crate::outside;
use crate::outside::{
    base64_decode, base64_encode, hpke_open, hpke_seal, random_bytes, wipe, wipe_text, HpkeFault,
    SealedMessage, ENCAPSULATED_KEY_SIZE, PRIVATE_KEY_SIZE, TAG_SIZE,
};
use crate::paths;
use crate::paths::join_path;
use crate::text;
use crate::text::{same_text, trim};
use vstd::prelude::*;

verus! {

/// Bytes of a master key.
pub const MASTER_KEY_SIZE: usize = 32;

/// The key list of a repository.
#[derive(Debug)]
pub struct KeysJson {
    /// One entry for each user, in the order in which they came.
    pub master_key_encapsulations: Vec<KeyEncapsulation>,
}

/// The master key, wrapped for one user.  All but the comment is Base64.
#[derive(Debug)]
pub struct KeyEncapsulation {
    /// The public key of the user.
    pub public_key: String,
    /// The encapsulated key.
    pub encapsulated_key: String,
    /// The authentication tag.
    pub auth_tag: String,
    /// The encrypted master key.
    pub wrapped_master_key: String,
    /// What the user is called; authenticated along with the master key.
    pub comment: String,
}

/// What a `KeyEncapsulation` stands for.
#[verifier::ext_equal]
pub struct Encapsulation {
    pub public_key: Seq<char>,
    pub encapsulated_key: Seq<char>,
    pub auth_tag: Seq<char>,
    pub wrapped_master_key: Seq<char>,
    pub comment: Seq<char>,
}

impl View for KeyEncapsulation {
    type V = Encapsulation;

    open spec fn view(&self) -> Encapsulation {
        Encapsulation {
            public_key: self.public_key@,
            encapsulated_key: self.encapsulated_key@,
            auth_tag: self.auth_tag@,
            wrapped_master_key: self.wrapped_master_key@,
            comment: self.comment@,
        }
    }
}

impl View for KeysJson {
    type V = Seq<Encapsulation>;

    open spec fn view(&self) -> Seq<Encapsulation> {
        Seq::new(
            self.master_key_encapsulations@.len(),
            |i: int| self.master_key_encapsulations@[i]@,
        )
    }
}

/// How the private key of a new repository was come by.
#[derive(Debug)]
pub enum InitKeyResult {
    /// From a file that was there.
    Existing,
    /// Generated, as there was none.
    Generated {
        /// The public key that belongs to it, in Base64.
        pubkey_b64: String,
        /// Where it is to be kept.
        path: String,
    },
}

/// The keys of the repository at one URL.
pub struct KeyWorker {
    repo_url: String,
}

impl View for KeyWorker {
    type V = Seq<char>;

    closed spec fn view(&self) -> Seq<char> {
        self.repo_url@
    }
}

/// The private key that bytes out of a file make.
pub open spec fn checked(bytes: Seq<u8>, path: Seq<char>) -> Result<Seq<u8>, KeyFault> {
    if bytes.len() == PRIVATE_KEY_SIZE {
        Ok(bytes)
    } else {
        Err(KeyFault::InvalidPrivateKey(path))
    }
}

/// The private key that a file holds: its Base64, with white space around it.
pub open spec fn loaded(contents: Seq<char>, path: Seq<char>) -> Result<Seq<u8>, KeyFault> {
    match outside::base64_bytes(text::trimmed(contents)) {
        Err(e) => Err(KeyFault::Base64(e)),
        Ok(bytes) => checked(bytes, path),
    }
}

/// The private key that bytes out of the file at `path` make.
pub fn check_private_key(bytes: Vec<u8>, path: &str) -> (key: Result<PrivateKey, KeyError>)
    ensures
        keys::outcome(key) == checked(bytes@, path@),
{
    match PrivateKey::from_bytes(bytes) {
        Some(key) => Ok(key),
        None => Err(KeyError::InvalidPrivateKey(path.to_owned())),
    }
}

/// The private key that the file at `path` holds, given what was read from it.
pub fn load_key_from_file(contents: &str, path: &str) -> (key: Result<PrivateKey, KeyError>)
    ensures
        keys::outcome(key) == loaded(contents@, path@),
{
    let mut key_b64 = trim(contents);
    let decoded = base64_decode(key_b64.as_str());
    wipe_text(&mut key_b64);
    match decoded {
        Err(e) => Err(KeyError::Base64(e)),
        Ok(bytes) => check_private_key(bytes, path),
    }
}

/// The public key, in Base64, of the private key that the file at `path` holds.
pub fn get_pubkey_from_file(contents: &str, path: &str) -> (key: Result<String, KeyError>)
    ensures
        keys::outcome(key) == match loaded(contents@, path@) {
            Ok(private_key) => Ok(outside::base64_text(outside::xwing_public(private_key))),
            Err(e) => Err(e),
        },
{
    match load_key_from_file(contents, path) {
        Err(e) => Err(e),
        Ok(private_key) => {
            let pubkey_b64 = base64_encode(private_key.public_key().as_bytes());
            let mut private_key = private_key;
            private_key.erase();
            Ok(pubkey_b64)
        },
    }
}

/// What a decoded text stands for.
pub open spec fn decoding(text: Result<Vec<u8>, String>) -> Result<Seq<u8>, Seq<char>> {
    match text {
        Ok(bytes) => Ok(bytes@),
        Err(error) => Err(error@),
    }
}

/// What a list of decoded texts stands for.
pub open spec fn decodings(list: Seq<Result<Vec<u8>, String>>) -> Seq<
    Result<Seq<u8>, Seq<char>>,
> {
    Seq::new(list.len(), |i: int| decoding(list[i]))
}

/// The public keys of a key list, decoded.
pub open spec fn public_keys(keys: Seq<Encapsulation>) -> Seq<Result<Seq<u8>, Seq<char>>> {
    Seq::new(keys.len(), |i: int| outside::base64_bytes(keys[i].public_key))
}

/// Which entry is for `public_key`: the first with that key, unless an entry
/// before it has no key at all.
pub open spec fn entry_for(
    decoded: Seq<Result<Seq<u8>, Seq<char>>>,
    public_key: Seq<u8>,
) -> Result<nat, KeyFault>
    decreases decoded.len(),
{
    if decoded.len() == 0 {
        Err(KeyFault::NotAuthorized)
    } else {
        match decoded[0] {
            Err(e) => Err(KeyFault::Base64(e)),
            Ok(bytes) => if bytes == public_key {
                Ok(0)
            } else {
                match entry_for(decoded.drop_first(), public_key) {
                    Ok(i) => Ok(i + 1),
                    Err(e) => Err(e),
                }
            },
        }
    }
}

/// `entry_for` on the entries from `from` on, where none before is for the key.
proof fn lemma_entry_for(
    decoded: Seq<Result<Seq<u8>, Seq<char>>>,
    public_key: Seq<u8>,
    from: int,
)
    requires
        0 <= from <= decoded.len(),
        forall|i: int|
            0 <= i < from ==> (#[trigger] decoded[i] matches Ok(bytes) && bytes != public_key),
    ensures
        entry_for(decoded, public_key) == match entry_for(decoded.skip(from), public_key) {
            Ok(i) => Ok(i + from as nat),
            Err(e) => Err(e),
        },
    decreases from,
{
    if from == 0 {
        assert(decoded.skip(0) =~= decoded);
    } else {
        let later = decoded.drop_first();
        assert forall|i: int| 0 <= i < from - 1 implies (#[trigger] later[i] matches Ok(bytes)
            && bytes != public_key) by {
            assert(later[i] == decoded[i + 1]);
        }
        lemma_entry_for(later, public_key, from - 1);
        assert(later.skip(from - 1) =~= decoded.skip(from));
        assert(decoded[0] matches Ok(bytes) && bytes != public_key);
    }
}

/// Whether two rows of bytes are the same.
fn same_bytes(a: &[u8], b: &[u8]) -> (same: bool)
    ensures
        same == (a@ == b@),
{
    if a.len() != b.len() {
        return false;
    }
    let mut i: usize = 0;
    while i < a.len()
        invariant
            a@.len() == b@.len(),
            i <= a@.len(),
            forall|j: int| 0 <= j < i ==> a@[j] == b@[j],
        decreases a@.len() - i,
    {
        if a[i] != b[i] {
            return false;
        }
        i = i + 1;
    }
    assert(a@ =~= b@);
    true
}

/// Which entry is for `public_key`, given the decoded public keys of all.
pub fn find_entry(decoded: &Vec<Result<Vec<u8>, String>>, public_key: &[u8]) -> (place: Result<
    usize,
    KeyError,
>)
    ensures
        place matches Ok(i) ==> i < decoded@.len(),
        entry_for(decodings(decoded@), public_key@) == match place {
            Ok(i) => Ok(i as nat),
            Err(e) => Err(e@),
        },
{
    let ghost all = decodings(decoded@);
    let mut i: usize = 0;
    while i < decoded.len()
        invariant
            i <= decoded@.len(),
            all == decodings(decoded@),
            forall|j: int|
                0 <= j < i ==> (#[trigger] all[j] matches Ok(bytes) && bytes != public_key@),
        decreases decoded@.len() - i,
    {
        proof {
            lemma_entry_for(all, public_key@, i as int);
            assert(all.skip(i as int)[0] == all[i as int]);
        }
        match &decoded[i] {
            Err(e) => {
                return Err(KeyError::Base64(e.clone()));
            },
            Ok(bytes) => {
                if same_bytes(bytes.as_slice(), public_key) {
                    return Ok(i);
                }
            },
        }
        i = i + 1;
    }
    proof {
        lemma_entry_for(all, public_key@, i as int);
    }
    Err(KeyError::NotAuthorized)
}

/// The parts of a sealed master key.
pub struct SealedParts {
    pub encapsulated_key: Seq<u8>,
    pub ciphertext: Seq<u8>,
    pub tag: Seq<u8>,
}

impl View for SealedMessage {
    type V = SealedParts;

    open spec fn view(&self) -> SealedParts {
        SealedParts {
            encapsulated_key: self.encapsulated_key@,
            ciphertext: self.ciphertext@,
            tag: self.tag@,
        }
    }
}

/// The sealed master key that the decoded texts of an entry make.  A ciphertext
/// of a length that the cipher does not answer to is one that does not open.
pub open spec fn assembled(
    encapsulated_key: Result<Seq<u8>, Seq<char>>,
    wrapped_master_key: Result<Seq<u8>, Seq<char>>,
    auth_tag: Result<Seq<u8>, Seq<char>>,
) -> Result<SealedParts, KeyFault> {
    match (encapsulated_key, wrapped_master_key, auth_tag) {
        (Err(e), _, _) => Err(KeyFault::Base64(e)),
        (Ok(enc), wrapped, tag) => if enc.len() != ENCAPSULATED_KEY_SIZE {
            Err(KeyFault::InvalidEncapsulatedKey)
        } else {
            match (wrapped, tag) {
                (Err(e), _) => Err(KeyFault::Base64(e)),
                (Ok(_), Err(e)) => Err(KeyFault::Base64(e)),
                (Ok(ciphertext), Ok(tag)) => if tag.len() != TAG_SIZE {
                    Err(KeyFault::InvalidTag)
                } else if !outside::cipher_answers(ciphertext.len() as int) {
                    Err(KeyFault::Open("Failed to open ciphertext"@))
                } else {
                    Ok(SealedParts { encapsulated_key: enc, ciphertext, tag })
                },
            }
        },
    }
}

/// Whether the cipher answers to a message of this length.
fn cipher_answers_to(length: usize) -> (yes: bool)
    ensures
        yes == outside::cipher_answers(length as int),
{
    let length: u64 = length as u64;
    length <= 64 * 0xffff_fffe || length >= 64 * 0xffff_ffff
}

/// The sealed master key that the decoded texts of an entry make.
pub fn assemble(
    encapsulated_key: Result<Vec<u8>, String>,
    wrapped_master_key: Result<Vec<u8>, String>,
    auth_tag: Result<Vec<u8>, String>,
) -> (sealed: Result<SealedMessage, KeyError>)
    ensures
        keys::outcome(sealed) == assembled(
            decoding(encapsulated_key),
            decoding(wrapped_master_key),
            decoding(auth_tag),
        ),
{
    let encapsulated_key = match encapsulated_key {
        Ok(bytes) => bytes,
        Err(e) => {
            return Err(KeyError::Base64(e));
        },
    };
    if encapsulated_key.len() != ENCAPSULATED_KEY_SIZE {
        return Err(KeyError::InvalidEncapsulatedKey);
    }
    let ciphertext = match wrapped_master_key {
        Ok(bytes) => bytes,
        Err(e) => {
            return Err(KeyError::Base64(e));
        },
    };
    let tag = match auth_tag {
        Ok(bytes) => bytes,
        Err(e) => {
            return Err(KeyError::Base64(e));
        },
    };
    if tag.len() != TAG_SIZE {
        return Err(KeyError::InvalidTag);
    }
    if !cipher_answers_to(ciphertext.len()) {
        return Err(KeyError::Open("Failed to open ciphertext".to_owned()));
    }
    Ok(SealedMessage { encapsulated_key, ciphertext, tag })
}

/// The master key that an opened message makes.
pub open spec fn accepted(opened: Option<Seq<u8>>) -> Result<Seq<u8>, KeyFault> {
    match opened {
        None => Err(KeyFault::Open("Failed to open ciphertext"@)),
        Some(message) => if message.len() == MASTER_KEY_SIZE {
            Ok(message)
        } else {
            Err(KeyFault::KeyLength)
        },
    }
}

/// The master key that an opened message makes.
pub fn accept_master_key(opened: Result<Vec<u8>, HpkeFault>) -> (key: Result<Vec<u8>, KeyError>)
    ensures
        match opened {
            Ok(message) => keys::outcome(key) == accepted(Some(message@)),
            Err(HpkeFault::Setup(e)) => key matches Err(error) && error@ == KeyFault::OpenSetup(e@),
            Err(HpkeFault::Message(e)) => key matches Err(error) && error@ == KeyFault::Open(e@),
        },
{
    match opened {
        Err(HpkeFault::Setup(e)) => Err(KeyError::OpenSetup(e)),
        Err(HpkeFault::Message(e)) => Err(KeyError::Open(e)),
        Ok(message) => if message.len() == MASTER_KEY_SIZE {
            Ok(message)
        } else {
            let mut message = message;
            wipe(&mut message);
            Err(KeyError::KeyLength)
        },
    }
}

/// The master key that an entry holds for the owner of a private key.
pub open spec fn opened_entry(
    entry: Encapsulation,
    private_key: Seq<u8>,
    repo_url: Seq<char>,
) -> Result<Seq<u8>, KeyFault> {
    match assembled(
        outside::base64_bytes(entry.encapsulated_key),
        outside::base64_bytes(entry.wrapped_master_key),
        outside::base64_bytes(entry.auth_tag),
    ) {
        Err(e) => Err(e),
        Ok(sealed) => accepted(
            outside::hpke_opened(
                private_key,
                sealed.encapsulated_key,
                vstd::utf8::encode_utf8(repo_url),
                vstd::utf8::encode_utf8(entry.comment),
                sealed.ciphertext,
                sealed.tag,
            ),
        ),
    }
}

/// The master key that a key list holds for the owner of a private key.
pub open spec fn unlocked(
    keys: Seq<Encapsulation>,
    private_key: Seq<u8>,
    repo_url: Seq<char>,
) -> Result<Seq<u8>, KeyFault> {
    match entry_for(public_keys(keys), outside::xwing_public(private_key)) {
        Err(e) => Err(e),
        Ok(i) => opened_entry(keys[i as int], private_key, repo_url),
    }
}

/// Whether an entry holds a master key for the owner of a public key: the one
/// text of that key, the comment, and what each private key of that public key
/// opens to the master key.
pub open spec fn wraps(
    entry: Encapsulation,
    master_key: Seq<u8>,
    public_key: Seq<u8>,
    comment: Seq<char>,
    repo_url: Seq<char>,
) -> bool {
    &&& entry.public_key == outside::base64_text(public_key)
    &&& forall|text: Seq<char>|
        (#[trigger] outside::base64_bytes(text) matches Ok(bytes) && bytes == public_key) <==> text
            == entry.public_key
    &&& entry.comment == comment
    &&& forall|private_key: Seq<u8>|
        private_key.len() == PRIVATE_KEY_SIZE && #[trigger] outside::xwing_public(private_key)
            == public_key ==> opened_entry(entry, private_key, repo_url) == accepted(
            Some(master_key),
        )
}

/// The public keys of a key list, decoded.
fn decode_public_keys(keys: &KeysJson) -> (decoded: Vec<Result<Vec<u8>, String>>)
    ensures
        decodings(decoded@) == public_keys(keys@),
{
    let mut decoded: Vec<Result<Vec<u8>, String>> = Vec::new();
    let mut i: usize = 0;
    while i < keys.master_key_encapsulations.len()
        invariant
            i <= keys@.len(),
            keys@.len() == keys.master_key_encapsulations@.len(),
            decoded@.len() == i,
            forall|j: int|
                0 <= j < i ==> decoding(#[trigger] decoded@[j]) == outside::base64_bytes(
                    keys@[j].public_key,
                ),
        decreases keys@.len() - i,
    {
        let entry = &keys.master_key_encapsulations[i];
        assert(entry@ == keys@[i as int]);
        decoded.push(base64_decode(entry.public_key.as_str()));
        i = i + 1;
    }
    assert(decodings(decoded@) =~= public_keys(keys@));
    decoded
}

impl KeyWorker {
    /// The keys of the repository at `repo_url`.
    pub fn new(repo_url: String) -> (worker: Self)
        ensures
            worker@ == repo_url@,
    {
        KeyWorker { repo_url }
    }

    /// Unlocks the master key with a private key.
    pub fn unlock_master_key(&self, private_key: &PrivateKey, keys: &KeysJson) -> (master_key:
        Result<Vec<u8>, KeyError>)
        ensures
            keys::outcome(master_key) == unlocked(keys@, private_key@, self@),
    {
        let public_key = private_key.public_key();
        let decoded = decode_public_keys(keys);
        let place: usize = match find_entry(&decoded, public_key.as_bytes()) {
            Ok(place) => place,
            Err(e) => {
                return Err(e);
            },
        };
        assert(decodings(decoded@).len() == public_keys(keys@).len());
        let entry = &keys.master_key_encapsulations[place];
        assert(entry@ == keys@[place as int]);
        let sealed = match assemble(
            base64_decode(entry.encapsulated_key.as_str()),
            base64_decode(entry.wrapped_master_key.as_str()),
            base64_decode(entry.auth_tag.as_str()),
        ) {
            Ok(sealed) => sealed,
            Err(e) => {
                return Err(e);
            },
        };
        let opened = hpke_open(
            private_key.as_bytes(),
            &sealed,
            self.repo_url.as_str().as_bytes(),
            entry.comment.as_str().as_bytes(),
        );
        accept_master_key(opened)
    }

    /// Wraps a master key for the owner of a public key.
    pub fn wrap_master_key(
        &self,
        master_key: &[u8],
        public_key: &PublicKey,
        comment: &str,
    ) -> (entry: Result<KeyEncapsulation, KeyError>)
        requires
            outside::cipher_answers(master_key@.len() as int),
        ensures
            master_key@.len() <= 64 * 0xffff_fffe ==> entry is Ok,
            entry matches Ok(e) ==> wraps(e@, master_key@, public_key@, comment@, self@),
            entry matches Err(e) ==> e@ == KeyFault::Seal("Failed to seal plaintext"@),
    {
        let key_bytes = public_key.as_bytes();
        let info = self.repo_url.as_str().as_bytes();
        match hpke_seal(key_bytes, info, comment.as_bytes(), master_key) {
            Err(HpkeFault::Setup(e)) => Err(KeyError::SealSetup(e)),
            Err(HpkeFault::Message(e)) => Err(KeyError::Seal(e)),
            Ok(sealed) => {
                let entry = KeyEncapsulation {
                    public_key: base64_encode(key_bytes),
                    encapsulated_key: base64_encode(sealed.encapsulated_key.as_slice()),
                    auth_tag: base64_encode(sealed.tag.as_slice()),
                    wrapped_master_key: base64_encode(sealed.ciphertext.as_slice()),
                    comment: comment.to_owned(),
                };
                Ok(entry)
            },
        }
    }
}

/// Whether a key list has an entry with this text of a public key.
pub open spec fn listed(keys: Seq<Encapsulation>, public_key: Seq<char>) -> bool {
    exists|i: int| 0 <= i < keys.len() && (#[trigger] keys[i]).public_key == public_key
}

/// Appends an entry to a key list that has none for its public key.
pub fn append_entry(keys: KeysJson, entry: KeyEncapsulation) -> (longer: Result<KeysJson, KeyError>)
    ensures
        keys::outcome(longer) == if listed(keys@, entry@.public_key) {
            Err(KeyFault::AlreadyExists)
        } else {
            Ok(keys@.push(entry@))
        },
{
    let mut list = keys.master_key_encapsulations;
    let mut i: usize = 0;
    while i < list.len()
        invariant
            i <= list@.len(),
            list@ == keys.master_key_encapsulations@,
            forall|j: int| 0 <= j < i ==> (#[trigger] keys@[j]).public_key != entry@.public_key,
        decreases list@.len() - i,
    {
        assert(list@[i as int]@ == keys@[i as int]);
        if same_text(list[i].public_key.as_str(), entry.public_key.as_str()) {
            return Err(KeyError::AlreadyExists);
        }
        i = i + 1;
    }
    list.push(entry);
    let longer = KeysJson { master_key_encapsulations: list };
    assert(longer@ =~= keys@.push(entry@));
    Ok(longer)
}

/// Whether `result` is what adding a user gives: `keys` is the key list that
/// the master key is unlocked from, `current` the one that the user is added to.
pub open spec fn adds_user(
    result: Result<Seq<Encapsulation>, KeyFault>,
    keys: Seq<Encapsulation>,
    private_key: Seq<u8>,
    new_pubkey_b64: Seq<char>,
    comment: Seq<char>,
    current: Result<Seq<Encapsulation>, Seq<char>>,
    repo_url: Seq<char>,
) -> bool {
    match unlocked(keys, private_key, repo_url) {
        Err(e) => result == Err::<Seq<Encapsulation>, KeyFault>(e),
        Ok(master_key) => match outside::base64_bytes(new_pubkey_b64) {
            Err(e) => result == Err::<Seq<Encapsulation>, KeyFault>(KeyFault::Base64(e)),
            Ok(public_key) => if !outside::xwing_accepts(public_key) {
                result == Err::<Seq<Encapsulation>, KeyFault>(KeyFault::InvalidPublicKey)
            } else {
                match current {
                    Err(e) => result == Err::<Seq<Encapsulation>, KeyFault>(KeyFault::Storage(e)),
                    Ok(list) => if listed(list, new_pubkey_b64) {
                        result == Err::<Seq<Encapsulation>, KeyFault>(KeyFault::AlreadyExists)
                    } else {
                        &&& result is Ok
                        &&& result->Ok_0.len() == list.len() + 1
                        &&& result->Ok_0.drop_last() == list
                        &&& result->Ok_0.last().public_key == new_pubkey_b64
                        &&& wraps(result->Ok_0.last(), master_key, public_key, comment, repo_url)
                    },
                }
            },
        },
    }
}

impl KeyWorker {
    /// Makes the key list of a new repository: a random master key, wrapped for
    /// the owner of a private key.
    pub fn add_new_master_key(&self, private_key: &PrivateKey, comment: &str) -> (keys: Result<
        KeysJson,
        KeyError,
    >)
        ensures
            keys matches Ok(list) && list@.len() == 1 && exists|master_key: Seq<u8>|
                master_key.len() == MASTER_KEY_SIZE && #[trigger] wraps(
                    list@[0],
                    master_key,
                    outside::xwing_public(private_key@),
                    comment@,
                    self@,
                ),
    {
        let mut master_key = random_bytes(MASTER_KEY_SIZE);
        let entry = self.wrap_master_key(
            master_key.as_slice(),
            &private_key.public_key(),
            comment,
        );
        let ghost master = master_key@;
        wipe(&mut master_key);
        match entry {
            Err(e) => Err(e),
            Ok(entry) => {
                let mut list: Vec<KeyEncapsulation> = Vec::new();
                list.push(entry);
                let keys = KeysJson { master_key_encapsulations: list };
                assert(wraps(
                    keys@[0],
                    master,
                    outside::xwing_public(private_key@),
                    comment@,
                    self@,
                ));
                Ok(keys)
            },
        }
    }

    /// Adds a user: unlocks the master key from `keys`, wraps it for the new
    /// public key, and appends that to the key list as it stands by now.
    pub fn add_user(
        &self,
        private_key: &PrivateKey,
        keys: &KeysJson,
        new_pubkey_b64: &str,
        comment: &str,
        current: Result<KeysJson, String>,
    ) -> (longer: Result<KeysJson, KeyError>)
        ensures
            adds_user(
                keys::outcome(longer),
                keys@,
                private_key@,
                new_pubkey_b64@,
                comment@,
                match current {
                    Ok(list) => Ok(list@),
                    Err(e) => Err(e@),
                },
                self@,
            ),
    {
        let mut master_key = match self.unlock_master_key(private_key, keys) {
            Ok(master_key) => master_key,
            Err(e) => {
                return Err(e);
            },
        };
        let key_bytes = match base64_decode(new_pubkey_b64) {
            Ok(bytes) => bytes,
            Err(e) => {
                wipe(&mut master_key);
                return Err(KeyError::Base64(e));
            },
        };
        let public_key = match PublicKey::from_bytes(key_bytes.as_slice()) {
            Some(key) => key,
            None => {
                wipe(&mut master_key);
                return Err(KeyError::InvalidPublicKey);
            },
        };
        let wrapped = self.wrap_master_key(master_key.as_slice(), &public_key, comment);
        wipe(&mut master_key);
        let entry = match wrapped {
            Ok(entry) => entry,
            Err(e) => {
                return Err(e);
            },
        };
        match current {
            Err(e) => Err(KeyError::Storage(e)),
            Ok(list) => {
                let longer = append_entry(list, entry);
                proof {
                    if longer is Ok {
                        assert(longer->Ok_0@.drop_last() =~= list@);
                    }
                }
                longer
            },
        }
    }
}

/// Whether every public key of a key list is Base64.
pub open spec fn all_decode(keys: Seq<Encapsulation>) -> bool {
    forall|i: int| 0 <= i < keys.len() ==> outside::base64_bytes((#[trigger] keys[i]).public_key) is Ok
}

/// Whether no two entries of a key list have the same text of a public key.
pub open spec fn no_key_twice(keys: Seq<Encapsulation>) -> bool {
    forall|i: int, j: int|
        0 <= i < j < keys.len() ==> (#[trigger] keys[i]).public_key != (
        #[trigger] keys[j]).public_key
}

/// Whether some entry of a key list is for a public key.
pub open spec fn knows(keys: Seq<Encapsulation>, public_key: Seq<u8>) -> bool {
    exists|i: int|
        0 <= i < keys.len() && (outside::base64_bytes((#[trigger] keys[i]).public_key) matches Ok(bytes)
            && bytes == public_key)
}

/// What is unlocked is a master key: it has the length of one.
pub proof fn law_unlocked_key_has_the_length_of_one(
    keys: Seq<Encapsulation>,
    private_key: Seq<u8>,
    repo_url: Seq<char>,
)
    ensures
        unlocked(keys, private_key, repo_url) matches Ok(master_key) ==> master_key.len()
            == MASTER_KEY_SIZE,
{
}

/// An entry that was found stays found, and stays the one, when a list grows.
proof fn lemma_entry_for_grows(
    decoded: Seq<Result<Seq<u8>, Seq<char>>>,
    next: Result<Seq<u8>, Seq<char>>,
    public_key: Seq<u8>,
)
    ensures
        entry_for(decoded, public_key) != Err::<nat, KeyFault>(KeyFault::NotAuthorized)
            ==> entry_for(decoded.push(next), public_key) == entry_for(decoded, public_key),
        entry_for(decoded, public_key) == Err::<nat, KeyFault>(KeyFault::NotAuthorized)
            ==> entry_for(decoded.push(next), public_key) == match next {
            Err(e) => Err(KeyFault::Base64(e)),
            Ok(bytes) => if bytes == public_key {
                Ok(decoded.len())
            } else {
                Err(KeyFault::NotAuthorized)
            },
        },
    decreases decoded.len(),
{
    let longer = decoded.push(next);
    if decoded.len() == 0 {
        assert(longer.drop_first() =~= decoded);
    } else {
        lemma_entry_for_grows(decoded.drop_first(), next, public_key);
        assert(longer.drop_first() =~= decoded.drop_first().push(next));
        assert(longer[0] == decoded[0]);
    }
}

/// The entry that is found for a key has that key.
proof fn lemma_found_entry(decoded: Seq<Result<Seq<u8>, Seq<char>>>, public_key: Seq<u8>)
    ensures
        entry_for(decoded, public_key) matches Ok(i) ==> i < decoded.len() && (
        decoded[i as int] matches Ok(bytes) && bytes == public_key),
    decreases decoded.len(),
{
    if decoded.len() > 0 {
        lemma_found_entry(decoded.drop_first(), public_key);
    }
}

/// A new user takes nothing from those who are there: whatever a private key
/// unlocked before an entry was appended, it unlocks after.
pub proof fn law_access_is_kept(
    keys: Seq<Encapsulation>,
    entry: Encapsulation,
    private_key: Seq<u8>,
    repo_url: Seq<char>,
)
    requires
        unlocked(keys, private_key, repo_url) is Ok,
    ensures
        unlocked(keys.push(entry), private_key, repo_url) == unlocked(keys, private_key, repo_url),
{
    let public_key = outside::xwing_public(private_key);
    let next = outside::base64_bytes(entry.public_key);
    lemma_entry_for_grows(public_keys(keys), next, public_key);
    lemma_found_entry(public_keys(keys), public_key);
    assert(public_keys(keys.push(entry)) =~= public_keys(keys).push(next));
}

/// Each authorized user has the same master key: one who was appended, where
/// every entry before has a public key and none has theirs, unlocks the master
/// key that was wrapped for them.
pub proof fn law_added_user_unlocks_the_master_key(
    keys: Seq<Encapsulation>,
    entry: Encapsulation,
    master_key: Seq<u8>,
    comment: Seq<char>,
    private_key: Seq<u8>,
    repo_url: Seq<char>,
)
    requires
        private_key.len() == PRIVATE_KEY_SIZE,
        master_key.len() == MASTER_KEY_SIZE,
        wraps(entry, master_key, outside::xwing_public(private_key), comment, repo_url),
        all_decode(keys),
        !listed(keys, entry.public_key),
    ensures
        unlocked(keys.push(entry), private_key, repo_url) matches Ok(unlocked_key) && unlocked_key
            == master_key,
{
    let public_key = outside::xwing_public(private_key);
    let next = outside::base64_bytes(entry.public_key);
    let decoded = public_keys(keys);
    assert forall|i: int| 0 <= i < decoded.len() implies (#[trigger] decoded[i] matches Ok(bytes)
        && bytes != public_key) by {
        assert(outside::base64_bytes(keys[i].public_key) is Ok);
        assert(keys[i].public_key != entry.public_key);
    }
    lemma_entry_for(decoded, public_key, decoded.len() as int);
    assert(decoded.skip(decoded.len() as int) =~= Seq::empty());
    lemma_entry_for_grows(decoded, next, public_key);
    assert(public_keys(keys.push(entry)) =~= decoded.push(next));
    assert(next matches Ok(bytes) && bytes == public_key);
}

/// Who makes a repository can unlock it: a key list of one entry that wraps a
/// master key opens to that master key.
pub proof fn law_creator_unlocks_the_master_key(
    entry: Encapsulation,
    master_key: Seq<u8>,
    comment: Seq<char>,
    private_key: Seq<u8>,
    repo_url: Seq<char>,
)
    requires
        private_key.len() == PRIVATE_KEY_SIZE,
        master_key.len() == MASTER_KEY_SIZE,
        wraps(entry, master_key, outside::xwing_public(private_key), comment, repo_url),
    ensures
        unlocked(seq![entry], private_key, repo_url) matches Ok(unlocked_key) && unlocked_key
            == master_key,
{
    law_added_user_unlocks_the_master_key(
        Seq::empty(),
        entry,
        master_key,
        comment,
        private_key,
        repo_url,
    );
    assert(Seq::empty().push(entry) =~= seq![entry]);
}

/// Adding a user keeps the public keys of a key list apart.
pub proof fn law_no_key_is_listed_twice(keys: Seq<Encapsulation>, entry: Encapsulation)
    requires
        no_key_twice(keys),
        !listed(keys, entry.public_key),
    ensures
        no_key_twice(keys.push(entry)),
{
    assert forall|i: int, j: int| 0 <= i < j < keys.push(entry).len() implies (
    #[trigger] keys.push(entry)[i]).public_key != (#[trigger] keys.push(entry)[j]).public_key by {
        assert(keys.push(entry)[i] == keys[i]);
        if j < keys.len() {
            assert(keys.push(entry)[j] == keys[j]);
        }
    }
}

/// A private key whose public key a key list knows is authorized: where all
/// public keys of the list are Base64, one of its entries is opened with it.
pub proof fn law_known_key_is_authorized(
    keys: Seq<Encapsulation>,
    private_key: Seq<u8>,
    repo_url: Seq<char>,
)
    requires
        all_decode(keys),
        knows(keys, outside::xwing_public(private_key)),
    ensures
        exists|i: int|
            0 <= i < keys.len() && unlocked(keys, private_key, repo_url) == #[trigger] opened_entry(
                keys[i],
                private_key,
                repo_url,
            ),
{
    let public_key = outside::xwing_public(private_key);
    let decoded = public_keys(keys);
    let place = choose|i: int|
        0 <= i < keys.len() && (outside::base64_bytes((#[trigger] keys[i]).public_key) matches Ok(bytes)
            && bytes == public_key);
    assert(decoded[place] matches Ok(bytes) && bytes == public_key);
    assert forall|i: int| 0 <= i < decoded.len() implies #[trigger] decoded[i] is Ok by {
        assert(outside::base64_bytes(keys[i].public_key) is Ok);
    }
    lemma_known_key_has_entry(decoded, public_key, place);
    lemma_found_entry(decoded, public_key);
    let i = entry_for(decoded, public_key)->Ok_0 as int;
    assert(unlocked(keys, private_key, repo_url) == opened_entry(keys[i], private_key, repo_url));
}

/// A public key that stands in a list of public keys has an entry.
proof fn lemma_known_key_has_entry(
    decoded: Seq<Result<Seq<u8>, Seq<char>>>,
    public_key: Seq<u8>,
    place: int,
)
    requires
        0 <= place < decoded.len(),
        decoded[place] matches Ok(bytes) && bytes == public_key,
        forall|i: int| 0 <= i < decoded.len() ==> #[trigger] decoded[i] is Ok,
    ensures
        entry_for(decoded, public_key) is Ok,
    decreases decoded.len(),
{
    assert(decoded[0] is Ok);
    if place > 0 {
        let later = decoded.drop_first();
        assert(later[place - 1] == decoded[place]);
        assert forall|i: int| 0 <= i < later.len() implies #[trigger] later[i] is Ok by {
            assert(later[i] == decoded[i + 1]);
        }
        lemma_known_key_has_entry(later, public_key, place - 1);
    }
}

/// What an optional text stands for.
pub open spec fn optional(text: Option<String>) -> Option<Seq<char>> {
    match text {
        Some(t) => Some(t@),
        None => None,
    }
}

/// The first of the contents of files that is a private key which a key list
/// knows.
pub open spec fn matching(keys: Seq<Encapsulation>, contents: Seq<Seq<char>>) -> Option<Seq<u8>>
    decreases contents.len(),
{
    if contents.len() == 0 {
        None
    } else {
        match loaded(contents[0], Seq::empty()) {
            Ok(key) if knows(keys, outside::xwing_public(key)) => Some(key),
            _ => matching(keys, contents.drop_first()),
        }
    }
}

/// Whether a public key stands among decoded public keys.
pub fn lists_key(decoded: &Vec<Result<Vec<u8>, String>>, public_key: &[u8]) -> (yes: bool)
    ensures
        yes == exists|i: int|
            0 <= i < decoded@.len() && (decoding(#[trigger] decoded@[i]) matches Ok(bytes) && bytes
                == public_key@),
{
    let mut i: usize = 0;
    while i < decoded.len()
        invariant
            i <= decoded@.len(),
            forall|j: int|
                0 <= j < i ==> !(decoding(#[trigger] decoded@[j]) matches Ok(bytes) && bytes
                    == public_key@),
        decreases decoded@.len() - i,
    {
        if let Ok(bytes) = &decoded[i] {
            if same_bytes(bytes.as_slice(), public_key) {
                assert(decoding(decoded@[i as int]) matches Ok(b) && b == public_key@);
                return true;
            }
        }
        i = i + 1;
    }
    false
}

/// The first private key among the contents of the files of a directory that a
/// key list knows.  Contents that are no private key are passed over.
pub fn find_matching_key(keys: &KeysJson, contents: &Vec<String>, directory: &str) -> (key: Result<
    PrivateKey,
    KeyError,
>)
    ensures
        keys::outcome(key) == match matching(keys@, text::texts(contents@)) {
            Some(found) => Ok(found),
            None => Err(KeyFault::NoMatchingKey(directory@)),
        },
{
    let decoded = decode_public_keys(keys);
    let ghost all = text::texts(contents@);
    let mut i: usize = 0;
    assert(all.skip(0) =~= all);
    while i < contents.len()
        invariant
            i <= contents@.len(),
            all == text::texts(contents@),
            decodings(decoded@) == public_keys(keys@),
            matching(keys@, all.skip(i as int)) == matching(keys@, all),
        decreases contents@.len() - i,
    {
        assert(all.skip(i as int)[0] == contents@[i as int]@);
        assert(all.skip(i as int).drop_first() =~= all.skip(i + 1));
        if let Ok(key) = load_key_from_file(contents[i].as_str(), "") {
            let mut key = key;
            let public_key = key.public_key();
            let known = lists_key(&decoded, public_key.as_bytes());
            proof {
                reveal_strlit("");
                assert(""@ =~= Seq::empty());
                assert(decodings(decoded@).len() == public_keys(keys@).len());
                assert forall|j: int| 0 <= j < keys@.len() implies decoding(#[trigger] decoded@[j])
                    == outside::base64_bytes(keys@[j].public_key) by {
                    assert(decodings(decoded@)[j] == public_keys(keys@)[j]);
                }
                if known {
                    let j = choose|j: int|
                        0 <= j < decoded@.len() && (decoding(#[trigger] decoded@[j]) matches Ok(
                            bytes,
                        ) && bytes == public_key@);
                    assert(outside::base64_bytes(keys@[j].public_key) == decoding(decoded@[j]));
                }
                if knows(keys@, public_key@) {
                    let j = choose|j: int|
                        0 <= j < keys@.len() && (outside::base64_bytes(
                            (#[trigger] keys@[j]).public_key,
                        ) matches Ok(bytes) && bytes == public_key@);
                    assert(outside::base64_bytes(keys@[j].public_key) == decoding(decoded@[j]));
                }
            }
            if known {
                return Ok(key);
            }
            key.erase();
        } else {
            proof {
                reveal_strlit("");
                assert(""@ =~= Seq::empty());
            }
        }
        i = i + 1;
    }
    Err(KeyError::NoMatchingKey(directory.to_owned()))
}

/// A key that was found in a directory is one that the key list knows.
pub proof fn law_matching_key_is_known(keys: Seq<Encapsulation>, contents: Seq<Seq<char>>)
    ensures
        matching(keys, contents) matches Some(key) ==> key.len() == PRIVATE_KEY_SIZE && knows(
            keys,
            outside::xwing_public(key),
        ),
    decreases contents.len(),
{
    if contents.len() > 0 {
        law_matching_key_is_known(keys, contents.drop_first());
    }
}

/// What Git says of the setting that names a key file.
#[derive(Debug)]
pub enum ConfigAnswer {
    /// It is not set, or Git could not be asked.
    Unset,
    /// It is set; what Git printed.
    Text(String),
    /// What Git printed is no text; the decoder says why.
    NotText(String),
}

/// What there is to know of the places where a private key may be.
#[derive(Debug)]
pub struct KeyLookup {
    /// The environment variable that names a key file.
    pub environment: Option<String>,
    /// The setting of Git that names a key file.
    pub git_config: ConfigAnswer,
    /// Whether there is a key file in the current directory.
    pub local_key_exists: bool,
    /// The home directory.
    pub home: Option<String>,
    /// Whether there is a key directory in the home directory.
    pub global_directory_exists: bool,
}

/// Where a private key is to be taken from.
#[derive(Debug)]
pub enum KeyPlace {
    /// The file at a path.
    File(String),
    /// Whichever file of a directory holds a key that the key list knows.
    Directory(String),
}

/// What a `KeyPlace` stands for.
pub enum Place {
    File(Seq<char>),
    Directory(Seq<char>),
}

impl View for KeyPlace {
    type V = Place;

    open spec fn view(&self) -> Place {
        match *self {
            KeyPlace::File(path) => Place::File(path@),
            KeyPlace::Directory(path) => Place::Directory(path@),
        }
    }
}

/// Where the private key is to be taken from when neither the environment nor
/// Git names a file: the current directory goes before the home directory.
pub open spec fn unnamed_place(
    local_key_exists: bool,
    home: Option<Seq<char>>,
    global_directory_exists: bool,
) -> Result<Place, KeyFault> {
    if local_key_exists {
        Ok(Place::File(".pqcrypt/key"@))
    } else {
        match home {
            None => Err(KeyFault::NoHome),
            Some(home) => if global_directory_exists {
                Ok(Place::Directory(paths::joined(home, ".config/pqcrypt"@)))
            } else {
                Err(KeyFault::NoKey)
            },
        }
    }
}

/// Where the private key is to be taken from: the environment goes before Git,
/// and Git before any other place.
pub open spec fn chosen_place(lookup: KeyLookup) -> Result<Place, KeyFault> {
    let unnamed = unnamed_place(
        lookup.local_key_exists,
        optional(lookup.home),
        lookup.global_directory_exists,
    );
    match lookup.environment {
        Some(path) if path@.len() > 0 => Ok(Place::File(path@)),
        _ => match lookup.git_config {
            ConfigAnswer::Unset => unnamed,
            ConfigAnswer::NotText(e) => Err(KeyFault::NotText(e@)),
            ConfigAnswer::Text(answer) => if text::trimmed(answer@).len() > 0 {
                Ok(Place::File(text::trimmed(answer@)))
            } else {
                unnamed
            },
        },
    }
}

/// The directory of key files in a home directory.
pub fn global_key_directory(home: &str) -> (path: String)
    ensures
        path@ == paths::joined(home@, ".config/pqcrypt"@),
{
    join_path(home, ".config/pqcrypt")
}

/// Where the private key is to be taken from when neither the environment nor
/// Git names a file.
fn choose_unnamed_place(
    local_key_exists: bool,
    home: Option<String>,
    global_directory_exists: bool,
) -> (place: Result<KeyPlace, KeyError>)
    ensures
        keys::outcome(place) == unnamed_place(
            local_key_exists,
            optional(home),
            global_directory_exists,
        ),
{
    if local_key_exists {
        return Ok(KeyPlace::File(".pqcrypt/key".to_owned()));
    }
    match home {
        None => Err(KeyError::NoHome),
        Some(home) => if global_directory_exists {
            Ok(KeyPlace::Directory(global_key_directory(home.as_str())))
        } else {
            Err(KeyError::NoKey)
        },
    }
}

impl KeyWorker {
    /// Where the private key of this user is to be taken from.
    pub fn get_local_key(&self, lookup: KeyLookup) -> (place: Result<KeyPlace, KeyError>)
        ensures
            keys::outcome(place) == chosen_place(lookup),
    {
        if let Some(path) = lookup.environment {
            if path.as_str().unicode_len() > 0 {
                return Ok(KeyPlace::File(path));
            }
        }
        match lookup.git_config {
            ConfigAnswer::Unset => {},
            ConfigAnswer::NotText(e) => {
                return Err(KeyError::NotText(e));
            },
            ConfigAnswer::Text(answer) => {
                let path = trim(answer.as_str());
                if path.as_str().unicode_len() > 0 {
                    return Ok(KeyPlace::File(path));
                }
            },
        }
        choose_unnamed_place(lookup.local_key_exists, lookup.home, lookup.global_directory_exists)
    }
}

/// The path of the default key file.
pub open spec fn default_key_path(home: Option<Seq<char>>) -> Result<Seq<char>, KeyFault> {
    match home {
        None => Err(KeyFault::NoHomeForDefault),
        Some(home) => Ok(paths::joined(home, ".config/pqcrypt/key"@)),
    }
}

/// The path of the default key file.
pub fn get_default_key_path(home: Option<String>) -> (path: Result<String, KeyError>)
    ensures
        keys::outcome(path) == default_key_path(optional(home)),
{
    match home {
        None => Err(KeyError::NoHomeForDefault),
        Some(home) => Ok(join_path(home.as_str(), ".config/pqcrypt/key")),
    }
}

/// The permission bits of a key file: its owner reads and writes it, and nobody
/// else does either.
pub const KEY_FILE_MODE: u32 = 0o600;

/// A key file that is to be written.
#[derive(Debug)]
pub struct NewKeyFile {
    /// Where it is to be kept.
    pub path: String,
    /// What it is to hold: the private key, in Base64.
    pub contents: String,
    /// The permission bits that it is to have.
    pub mode: u32,
    /// The public key that belongs to it, in Base64.
    pub pubkey_b64: String,
}

/// Whether a text is the whole contents of a key file: the private key is read
/// from it again, whatever the path of the file.
pub open spec fn holds_key(contents: Seq<char>, private_key: Seq<u8>) -> bool {
    &&& contents == outside::base64_text(private_key)
    &&& forall|path: Seq<char>|
        #[trigger] loaded(contents, path) == Ok::<Seq<u8>, KeyFault>(private_key)
}

/// The contents of the file of a private key.
fn key_file_contents(private_key: &PrivateKey) -> (contents: String)
    ensures
        holds_key(contents@, private_key@),
{
    let bytes = private_key.as_bytes();
    let contents = base64_encode(bytes);
    proof {
        assert forall|i: int| 0 <= i < contents@.len() implies !text::is_space(contents@[i]) by {
            assert(outside::is_base64(contents@[i]));
        }
        text::lemma_trimmed_unspaced(contents@);
    }
    contents
}

/// Whether a key file is to be made at a path for a private key: one that holds
/// the key and that only its owner can read.
pub open spec fn keeps_key(file: NewKeyFile, path: Seq<char>, private_key: Seq<u8>) -> bool {
    &&& file.path@ == path
    &&& file.mode == 0o600
    &&& holds_key(file.contents@, private_key)
    &&& file.pubkey_b64@ == outside::base64_text(outside::xwing_public(private_key))
}

/// A new private key, and the file that is to be made for it at a path.
fn new_key_file(path: String) -> (made: (PrivateKey, NewKeyFile))
    ensures
        made.0@.len() == PRIVATE_KEY_SIZE,
        keeps_key(made.1, path@, made.0@),
{
    let (private_key, public_key) = PrivateKey::generate();
    let contents = key_file_contents(&private_key);
    let pubkey_b64 = base64_encode(public_key.as_bytes());
    (private_key, NewKeyFile { path, contents, mode: KEY_FILE_MODE, pubkey_b64 })
}

/// Generates a key pair, and says what is to be written where, for whose eyes.
pub fn generate_and_save_keypair(output_path: &str) -> (file: NewKeyFile)
    ensures
        file.path@ == output_path@,
        file.mode == 0o600,
        exists|private_key: Seq<u8>|
            private_key.len() == PRIVATE_KEY_SIZE && #[trigger] keeps_key(
                file,
                output_path@,
                private_key,
            ),
{
    let (mut private_key, file) = new_key_file(output_path.to_owned());
    assert(keeps_key(file, output_path@, private_key@));
    private_key.erase();
    file
}

/// The public key that `get_pubkey_from_file` gives for a file of
/// `generate_and_save_keypair` is the one that came with the file.
pub proof fn law_public_key_is_found_again(
    contents: Seq<char>,
    private_key: Seq<u8>,
    path: Seq<char>,
)
    requires
        holds_key(contents, private_key),
    ensures
        loaded(contents, path) matches Ok(key) && outside::base64_text(outside::xwing_public(key))
            == outside::base64_text(outside::xwing_public(private_key)),
{
    assert(loaded(contents, path) == Ok::<Seq<u8>, KeyFault>(private_key));
}

/// Where the private key of a new repository is to come from.
#[derive(Debug)]
pub enum InitKeySource {
    /// From the file at a path.
    Load(String),
    /// It is to be generated, and kept at a path.
    Generate(String),
}

/// What an `InitKeySource` stands for.
pub enum InitSource {
    Load(Seq<char>),
    Generate(Seq<char>),
}

impl View for InitKeySource {
    type V = InitSource;

    open spec fn view(&self) -> InitSource {
        match *self {
            InitKeySource::Load(path) => InitSource::Load(path@),
            InitKeySource::Generate(path) => InitSource::Generate(path@),
        }
    }
}

/// Where the private key of a new repository is to come from: the file that the
/// user names, or the default key file, which is made where it is missing.
pub fn init_key_source(
    key_path: Option<String>,
    home: Option<String>,
    default_exists: bool,
) -> (source: Result<InitKeySource, KeyError>)
    ensures
        keys::outcome(source) == match optional(key_path) {
            Some(path) => Ok(InitSource::Load(path)),
            None => match default_key_path(optional(home)) {
                Err(e) => Err(e),
                Ok(path) => if default_exists {
                    Ok(InitSource::Load(path))
                } else {
                    Ok(InitSource::Generate(path))
                },
            },
        },
{
    if let Some(path) = key_path {
        return Ok(InitKeySource::Load(path));
    }
    match get_default_key_path(home) {
        Err(e) => Err(e),
        Ok(path) => if default_exists {
            Ok(InitKeySource::Load(path))
        } else {
            Ok(InitKeySource::Generate(path))
        },
    }
}

/// What became of the source of a private key.
#[derive(Debug)]
pub enum InitKeyFile {
    /// The file at `path` was read.
    Read { path: String, contents: String },
    /// There is no file at `path`; a key is to be generated for it.
    Missing { path: String },
}

/// The private key of a new repository.
pub struct InitKey {
    /// The key.
    pub key: PrivateKey,
    /// How it was come by.
    pub result: InitKeyResult,
    /// The file that is to be made for it, where it was generated.
    pub file: Option<NewKeyFile>,
}

/// The private key of a new repository: what the file holds, or a new one.
pub fn resolve_or_generate_init_key(file: InitKeyFile) -> (key: Result<InitKey, KeyError>)
    ensures
        match file {
            InitKeyFile::Read { path, contents } => match loaded(contents@, path@) {
                Ok(bytes) => key matches Ok(init) && init.key@ == bytes && init.result is Existing
                    && init.file is None,
                Err(fault) => key matches Err(e) && e@ == fault,
            },
            InitKeyFile::Missing { path } => {
                &&& key matches Ok(init)
                &&& init.key@.len() == PRIVATE_KEY_SIZE
                &&& init.result matches InitKeyResult::Generated { pubkey_b64, path: kept }
                &&& kept@ == path@
                &&& pubkey_b64@ == outside::base64_text(outside::xwing_public(init.key@))
                &&& init.file matches Some(file)
                &&& keeps_key(file, path@, init.key@)
            },
        },
{
    match file {
        InitKeyFile::Read { path, contents } => {
            let loaded_key = load_key_from_file(contents.as_str(), path.as_str());
            let mut contents = contents;
            wipe_text(&mut contents);
            match loaded_key {
                Ok(key) => Ok(InitKey { key, result: InitKeyResult::Existing, file: None }),
                Err(e) => Err(e),
            }
        },
        InitKeyFile::Missing { path } => {
            let result_path = path.clone();
            let (key, file) = new_key_file(path);
            let pubkey_b64 = file.pubkey_b64.clone();
            let result = InitKeyResult::Generated { pubkey_b64, path: result_path };
            Ok(InitKey { key, result, file: Some(file) })
        },
    }
}

impl KeyWorker {
    /// Makes the key list of a new repository, unless there is one: a key list
    /// that was found is never replaced.
    pub fn init_storage(&self, keys_found: bool, private_key: &PrivateKey, comment: &str) -> (keys:
        Result<KeysJson, KeyError>)
        ensures
            keys_found ==> (keys matches Err(e) && e@ == KeyFault::AlreadyInitialized),
            !keys_found ==> {
                &&& keys matches Ok(list)
                &&& list@.len() == 1
                &&& exists|master_key: Seq<u8>|
                    master_key.len() == MASTER_KEY_SIZE && #[trigger] wraps(
                        list@[0],
                        master_key,
                        outside::xwing_public(private_key@),
                        comment@,
                        self@,
                    )
            },
    {
        if keys_found {
            return Err(KeyError::AlreadyInitialized);
        }
        self.add_new_master_key(private_key, comment)
    }
}

/// Whether an entry holds a master key for some user.
pub open spec fn wraps_for_someone(
    entry: Encapsulation,
    master_key: Seq<u8>,
    repo_url: Seq<char>,
) -> bool {
    exists|public_key: Seq<u8>, comment: Seq<char>|
        wraps(entry, master_key, public_key, comment, repo_url)
}

/// Whether a key list is as it should be: each entry holds the one master key
/// for some user, and no user is there twice.
pub open spec fn well_made(
    keys: Seq<Encapsulation>,
    master_key: Seq<u8>,
    repo_url: Seq<char>,
) -> bool {
    &&& master_key.len() == MASTER_KEY_SIZE
    &&& no_key_twice(keys)
    &&& forall|i: int|
        0 <= i < keys.len() ==> wraps_for_someone(#[trigger] keys[i], master_key, repo_url)
}

/// The key list of a new repository is as it should be.
pub proof fn law_new_key_list_is_well_made(
    entry: Encapsulation,
    master_key: Seq<u8>,
    public_key: Seq<u8>,
    comment: Seq<char>,
    repo_url: Seq<char>,
)
    requires
        master_key.len() == MASTER_KEY_SIZE,
        wraps(entry, master_key, public_key, comment, repo_url),
    ensures
        well_made(seq![entry], master_key, repo_url),
{
    assert(wraps_for_someone(entry, master_key, repo_url));
}

/// Adding a user leaves a key list as it should be, with the same master key.
pub proof fn law_adding_a_user_keeps_the_key_list_well_made(
    longer: Seq<Encapsulation>,
    keys: Seq<Encapsulation>,
    current: Seq<Encapsulation>,
    private_key: Seq<u8>,
    new_pubkey_b64: Seq<char>,
    comment: Seq<char>,
    master_key: Seq<u8>,
    repo_url: Seq<char>,
)
    requires
        well_made(keys, master_key, repo_url),
        well_made(current, master_key, repo_url),
        private_key.len() == PRIVATE_KEY_SIZE,
        adds_user(
            Ok(longer),
            keys,
            private_key,
            new_pubkey_b64,
            comment,
            Ok(current),
            repo_url,
        ),
    ensures
        well_made(longer, master_key, repo_url),
{
    let entry = longer.last();
    assert(longer =~= current.push(entry));
    let found = entry_for(public_keys(keys), outside::xwing_public(private_key));
    assert(found is Ok);
    lemma_found_entry(public_keys(keys), outside::xwing_public(private_key));
    lemma_known(keys, private_key);
    law_all_users_unlock_the_master_key(keys, private_key, master_key, repo_url);
    law_no_key_is_listed_twice(current, entry);
    assert forall|i: int| 0 <= i < longer.len() implies wraps_for_someone(
        #[trigger] longer[i],
        master_key,
        repo_url,
    ) by {
        if i < current.len() {
            assert(longer[i] == current[i]);
        }
    }
}

/// A key that an entry is found for is known.
proof fn lemma_known(keys: Seq<Encapsulation>, private_key: Seq<u8>)
    requires
        entry_for(public_keys(keys), outside::xwing_public(private_key)) is Ok,
    ensures
        knows(keys, outside::xwing_public(private_key)),
{
    let public_key = outside::xwing_public(private_key);
    let decoded = public_keys(keys);
    lemma_found_entry(decoded, public_key);
    let i = entry_for(decoded, public_key)->Ok_0 as int;
    assert(decoded[i] == outside::base64_bytes(keys[i].public_key));
}

/// All users unlock the same master key: on a key list that is as it should be,
/// every private key whose public key the list knows unlocks the one master key.
pub proof fn law_all_users_unlock_the_master_key(
    keys: Seq<Encapsulation>,
    private_key: Seq<u8>,
    master_key: Seq<u8>,
    repo_url: Seq<char>,
)
    requires
        well_made(keys, master_key, repo_url),
        private_key.len() == PRIVATE_KEY_SIZE,
        knows(keys, outside::xwing_public(private_key)),
    ensures
        unlocked(keys, private_key, repo_url) == Ok::<Seq<u8>, KeyFault>(master_key),
{
    let public_key = outside::xwing_public(private_key);
    let decoded = public_keys(keys);
    assert forall|i: int| 0 <= i < decoded.len() implies #[trigger] decoded[i] is Ok by {
        assert(wraps_for_someone(keys[i], master_key, repo_url));
        let (owner, comment) = choose|owner: Seq<u8>, comment: Seq<char>|
            wraps(keys[i], master_key, owner, comment, repo_url);
        assert(outside::base64_bytes(keys[i].public_key) matches Ok(bytes) && bytes == owner);
    }
    let place = choose|i: int|
        0 <= i < keys.len() && (outside::base64_bytes((#[trigger] keys[i]).public_key) matches Ok(bytes)
            && bytes == public_key);
    assert(decoded[place] matches Ok(bytes) && bytes == public_key);
    lemma_known_key_has_entry(decoded, public_key, place);
    lemma_found_entry(decoded, public_key);
    let i = entry_for(decoded, public_key)->Ok_0 as int;
    assert(wraps_for_someone(keys[i], master_key, repo_url));
    let (owner, comment) = choose|owner: Seq<u8>, comment: Seq<char>|
        wraps(keys[i], master_key, owner, comment, repo_url);
    assert(outside::base64_bytes(keys[i].public_key) matches Ok(bytes) && bytes == owner);
    assert(decoded[i] == outside::base64_bytes(keys[i].public_key));
    assert(owner == public_key);
}

/// An entry with another comment.
pub open spec fn with_comment(entry: Encapsulation, comment: Seq<char>) -> Encapsulation {
    Encapsulation { comment, ..entry }
}

/// Whether the cipher opens what an entry holds, under a comment and a URL.
pub open spec fn entry_opens(
    entry: Encapsulation,
    private_key: Seq<u8>,
    comment: Seq<char>,
    repo_url: Seq<char>,
) -> bool {
    outside::hpke_opened(
        private_key,
        outside::base64_bytes(entry.encapsulated_key)->Ok_0,
        vstd::utf8::encode_utf8(repo_url),
        vstd::utf8::encode_utf8(comment),
        outside::base64_bytes(entry.wrapped_master_key)->Ok_0,
        outside::base64_bytes(entry.auth_tag)->Ok_0,
    ) is Some
}

/// The comment and the URL are bound to the master key: where the comment of the
/// entry for a private key was changed, or the repository is taken for that at
/// another URL, nothing is unlocked, where the cipher does not open the entry
/// under the new comment and URL.
pub proof fn law_other_comment_or_url_does_not_unlock(
    keys: Seq<Encapsulation>,
    place: nat,
    private_key: Seq<u8>,
    master_key: Seq<u8>,
    comment: Seq<char>,
    repo_url: Seq<char>,
    new_comment: Seq<char>,
    new_url: Seq<char>,
)
    requires
        entry_for(public_keys(keys), outside::xwing_public(private_key)) == Ok::<nat, KeyFault>(
            place,
        ),
        wraps(
            keys[place as int],
            master_key,
            outside::xwing_public(private_key),
            comment,
            repo_url,
        ),
        new_comment != comment || new_url != repo_url,
        !entry_opens(keys[place as int], private_key, new_comment, new_url),
    ensures
        unlocked(
            keys.update(place as int, with_comment(keys[place as int], new_comment)),
            private_key,
            new_url,
        ) is Err,
{
    let changed = keys.update(place as int, with_comment(keys[place as int], new_comment));
    lemma_found_entry(public_keys(keys), outside::xwing_public(private_key));
    assert(public_keys(changed) =~= public_keys(keys));
}

/// The private key is looked for in order, and the first place that is named or
/// there is taken: the file that the environment names, the file that Git names,
/// the file in the current directory, the directory in the home directory.  A name
/// of nothing, or of white space where Git gives it, is no name.
pub proof fn law_key_is_looked_for_in_order(
    worker: KeyWorker,
    lookup: KeyLookup,
    place: Result<KeyPlace, KeyError>,
)
    requires
        call_ensures(KeyWorker::get_local_key, (&worker, lookup), place),
    ensures
        ({
            let environment_is_silent = match lookup.environment {
                Some(path) => path@.len() == 0,
                None => true,
            };
            let git_is_silent = match lookup.git_config {
                ConfigAnswer::Unset => true,
                ConfigAnswer::Text(answer) => text::trimmed(answer@).len() == 0,
                ConfigAnswer::NotText(_) => false,
            };
            let unnamed = environment_is_silent && git_is_silent;
            &&& !environment_is_silent ==> (place matches Ok(KeyPlace::File(path)) && path@
                == lookup.environment->Some_0@)
            &&& environment_is_silent && !git_is_silent ==> match lookup.git_config {
                ConfigAnswer::Text(answer) => place matches Ok(KeyPlace::File(path)) && path@
                    == text::trimmed(answer@),
                ConfigAnswer::NotText(e) => place matches Err(error) && error@
                    == KeyFault::NotText(e@),
                ConfigAnswer::Unset => false,
            }
            &&& unnamed && lookup.local_key_exists ==> (place matches Ok(KeyPlace::File(path))
                && path@ == ".pqcrypt/key"@)
            &&& unnamed && !lookup.local_key_exists ==> match lookup.home {
                None => place matches Err(error) && error@ == KeyFault::NoHome,
                Some(home) => if lookup.global_directory_exists {
                    place matches Ok(KeyPlace::Directory(path)) && path@ == paths::joined(
                        home@,
                        ".config/pqcrypt"@,
                    )
                } else {
                    place matches Err(error) && error@ == KeyFault::NoKey
                },
            }
        }),
{
}

/// The default key file is in the home directory, and there is none without one.
pub proof fn law_default_key_is_in_the_home_directory(
    home: Option<String>,
    path: Result<String, KeyError>,
)
    requires
        call_ensures(get_default_key_path, (home,), path),
    ensures
        home is None ==> (path matches Err(e) && e@ == KeyFault::NoHomeForDefault),
        home matches Some(h) ==> (path matches Ok(p) && p@ == paths::joined(
            h@,
            ".config/pqcrypt/key"@,
        )),
{
}

/// A new repository takes the key that the user names, else the default key where
/// there is one, and has one made there where there is none.
pub proof fn law_new_repository_takes_the_named_key_or_the_default(
    key_path: Option<String>,
    home: Option<String>,
    default_exists: bool,
    source: Result<InitKeySource, KeyError>,
)
    requires
        call_ensures(init_key_source, (key_path, home, default_exists), source),
    ensures
        key_path matches Some(path) ==> (source matches Ok(InitKeySource::Load(from)) && from@
            == path@),
        key_path is None && home is None ==> (source matches Err(e) && e@
            == KeyFault::NoHomeForDefault),
        key_path is None && default_exists ==> (home matches Some(h) ==> (
        source matches Ok(InitKeySource::Load(from)) && from@ == paths::joined(
            h@,
            ".config/pqcrypt/key"@,
        ))),
        key_path is None && !default_exists ==> (home matches Some(h) ==> (
        source matches Ok(InitKeySource::Generate(at)) && at@ == paths::joined(
            h@,
            ".config/pqcrypt/key"@,
        ))),
{
}

/// A key file holds the Base64 of 32 bytes, whatever white space is around it, and
/// that is the key; no other contents are one.
pub proof fn law_key_file_holds_base64(
    contents: &str,
    path: &str,
    key: Result<PrivateKey, KeyError>,
    front: Seq<char>,
    inner: Seq<char>,
    back: Seq<char>,
)
    requires
        call_ensures(load_key_from_file, (contents, path), key),
        contents@ == front + inner + back,
        forall|i: int| 0 <= i < front.len() ==> text::is_space(front[i]),
        forall|i: int| 0 <= i < back.len() ==> text::is_space(back[i]),
        inner.len() > 0 ==> !text::is_space(inner[0]) && !text::is_space(inner.last()),
    ensures
        match outside::base64_bytes(inner) {
            Err(e) => key matches Err(error) && error@ == KeyFault::Base64(e),
            Ok(bytes) => if bytes.len() == 32 {
                key matches Ok(k) && k@ == bytes
            } else {
                key matches Err(error) && error@ == KeyFault::InvalidPrivateKey(path@)
            },
        },
{
    text::law_trimming_takes_the_white_space_at_both_ends(front, inner, back);
}

/// The public key of a file is that of the private key in it, and there is none
/// where there is no private key.
pub proof fn law_public_key_is_that_of_the_private_key(
    contents: &str,
    path: &str,
    key: Result<PrivateKey, KeyError>,
    public_key: Result<String, KeyError>,
)
    requires
        call_ensures(load_key_from_file, (contents, path), key),
        call_ensures(get_pubkey_from_file, (contents, path), public_key),
    ensures
        match key {
            Ok(k) => public_key matches Ok(text) && text@ == outside::base64_text(
                outside::xwing_public(k@),
            ),
            Err(e) => public_key matches Err(error) && error@ == e@,
        },
{
}

/// The entry for a key is the first that has it, whatever comes behind; an entry
/// before it that is no Base64 is complained of; and who has no entry is not
/// authorized.
pub proof fn law_first_entry_for_a_key_is_taken(
    decoded: Vec<Result<Vec<u8>, String>>,
    public_key: &[u8],
    place: Result<usize, KeyError>,
    i: int,
)
    requires
        call_ensures(find_entry, (&decoded, public_key), place),
        0 <= i <= decoded@.len(),
        forall|j: int|
            0 <= j < i ==> (#[trigger] decoded@[j] matches Ok(bytes) && bytes@ != public_key@),
    ensures
        i == decoded@.len() ==> (place matches Err(e) && e@ == KeyFault::NotAuthorized),
        i < decoded@.len() ==> match decoded@[i] {
            Ok(bytes) => bytes@ == public_key@ ==> (place matches Ok(found) && found == i),
            Err(e) => place matches Err(error) && error@ == KeyFault::Base64(e@),
        },
{
    let all = decodings(decoded@);
    assert forall|j: int| 0 <= j < i implies (#[trigger] all[j] matches Ok(bytes) && bytes
        != public_key@) by {
        assert(decoded@[j] matches Ok(bytes) && bytes@ != public_key@);
    }
    lemma_entry_for(all, public_key@, i);
    if i < all.len() {
        assert(all.skip(i)[0] == all[i]);
    }
}

/// An entry is taken apart in order, and the first part that is wrong is complained
/// of; what is opened is what the texts of the entry hold.
pub proof fn law_entry_is_taken_apart_in_order(
    encapsulated_key: Result<Vec<u8>, String>,
    wrapped_master_key: Result<Vec<u8>, String>,
    auth_tag: Result<Vec<u8>, String>,
    sealed: Result<SealedMessage, KeyError>,
)
    requires
        call_ensures(assemble, (encapsulated_key, wrapped_master_key, auth_tag), sealed),
    ensures
        match encapsulated_key {
            Err(e) => sealed matches Err(error) && error@ == KeyFault::Base64(e@),
            Ok(enc) => if enc@.len() != 1120 {
                sealed matches Err(error) && error@ == KeyFault::InvalidEncapsulatedKey
            } else {
                match wrapped_master_key {
                    Err(e) => sealed matches Err(error) && error@ == KeyFault::Base64(e@),
                    Ok(wrapped) => match auth_tag {
                        Err(e) => sealed matches Err(error) && error@ == KeyFault::Base64(e@),
                        Ok(tag) => {
                            &&& tag@.len() != 16 ==> (sealed matches Err(error) && error@
                                == KeyFault::InvalidTag)
                            &&& tag@.len() == 16 && wrapped@.len() <= 64 * 0xffff_fffe ==> (
                            sealed matches Ok(s) && s.encapsulated_key@ == enc@ && s.ciphertext@
                                == wrapped@ && s.tag@ == tag@)
                        },
                    },
                }
            },
        },
{
    if let Ok(s) = sealed {
        assert(s@.encapsulated_key == s.encapsulated_key@);
    }
}

/// What an entry opens to is a master key where it has 32 bytes.
pub proof fn law_opened_message_of_the_right_length_is_the_master_key(
    opened: Result<Vec<u8>, HpkeFault>,
    key: Result<Vec<u8>, KeyError>,
)
    requires
        call_ensures(accept_master_key, (opened,), key),
    ensures
        opened matches Ok(message) ==> (message@.len() == 32 ==> (key matches Ok(k) && k@
            == message@)),
        opened matches Ok(message) ==> (message@.len() != 32 ==> (key matches Err(error) && error@
            == KeyFault::KeyLength)),
        opened matches Err(HpkeFault::Setup(e)) ==> (key matches Err(error) && error@
            == KeyFault::OpenSetup(e@)),
        opened matches Err(HpkeFault::Message(e)) ==> (key matches Err(error) && error@
            == KeyFault::Open(e@)),
{
}

/// To unlock the master key is to open the first entry for the user's key: with
/// their private key, the URL of the repository as what it is sealed for, and the
/// comment of that entry as what is authenticated along with it.
pub proof fn law_unlocking_opens_the_entry_for_the_key(
    worker: KeyWorker,
    private_key: PrivateKey,
    keys: KeysJson,
    master_key: Result<Vec<u8>, KeyError>,
    i: int,
)
    requires
        call_ensures(KeyWorker::unlock_master_key, (&worker, &private_key, &keys), master_key),
        0 <= i < keys@.len(),
        forall|j: int|
            0 <= j < i ==> (outside::base64_bytes((#[trigger] keys@[j]).public_key) matches Ok(bytes)
                && bytes != outside::xwing_public(private_key@)),
        outside::base64_bytes(keys@[i].public_key) == Ok::<Seq<u8>, Seq<char>>(
            outside::xwing_public(private_key@),
        ),
        outside::base64_bytes(keys@[i].encapsulated_key) matches Ok(enc) && enc.len() == 1120,
        outside::base64_bytes(keys@[i].wrapped_master_key) matches Ok(wrapped) && wrapped.len() <= 64
            * 0xffff_fffe,
        outside::base64_bytes(keys@[i].auth_tag) matches Ok(tag) && tag.len() == 16,
    ensures
        match outside::hpke_opened(
            private_key@,
            outside::base64_bytes(keys@[i].encapsulated_key)->Ok_0,
            vstd::utf8::encode_utf8(worker@),
            vstd::utf8::encode_utf8(keys@[i].comment),
            outside::base64_bytes(keys@[i].wrapped_master_key)->Ok_0,
            outside::base64_bytes(keys@[i].auth_tag)->Ok_0,
        ) {
            Some(message) => if message.len() == 32 {
                master_key matches Ok(k) && k@ == message
            } else {
                master_key matches Err(error) && error@ == KeyFault::KeyLength
            },
            None => master_key matches Err(error) && error@ == KeyFault::Open(
                "Failed to open ciphertext"@,
            ),
        },
{
    let decoded = public_keys(keys@);
    let public_key = outside::xwing_public(private_key@);
    assert forall|j: int| 0 <= j < i implies (#[trigger] decoded[j] matches Ok(bytes) && bytes
        != public_key) by {
        assert(decoded[j] == outside::base64_bytes(keys@[j].public_key));
    }
    lemma_entry_for(decoded, public_key, i);
    assert(decoded.skip(i)[0] == decoded[i]);
    assert(entry_for(decoded, public_key) == Ok::<nat, KeyFault>(i as nat));
}

/// A master key that is wrapped for a public key is opened by its owner, and is
/// listed under that key and that comment.
pub proof fn law_wrapped_key_is_for_its_owner(
    worker: KeyWorker,
    master_key: &[u8],
    public_key: PublicKey,
    comment: &str,
    entry: Result<KeyEncapsulation, KeyError>,
    private_key: Seq<u8>,
)
    requires
        call_ensures(
            KeyWorker::wrap_master_key,
            (&worker, master_key, &public_key, comment),
            entry,
        ),
        master_key@.len() == 32,
        private_key.len() == 32,
        outside::xwing_public(private_key) == public_key@,
    ensures
        entry matches Ok(e) && {
            &&& e.public_key@ == outside::base64_text(public_key@)
            &&& e.comment@ == comment@
            &&& unlocked(seq![e@], private_key, worker@) == Ok::<Seq<u8>, KeyFault>(master_key@)
        },
{
    let e = entry->Ok_0;
    law_creator_unlocks_the_master_key(e@, master_key@, comment@, private_key, worker@);
}

/// A user is added where the master key is unlocked, the new key is one, and it is
/// not there yet; the entries that are there stay as they are, the new one comes
/// last with its key and comment, and its owner opens it to the same master key.
/// What is wrong first is complained of.
pub proof fn law_user_is_added_behind_the_others(
    worker: KeyWorker,
    private_key: PrivateKey,
    keys: KeysJson,
    new_pubkey_b64: &str,
    comment: &str,
    current: Result<KeysJson, String>,
    longer: Result<KeysJson, KeyError>,
    owner: Seq<u8>,
    i: int,
)
    requires
        call_ensures(
            KeyWorker::add_user,
            (&worker, &private_key, &keys, new_pubkey_b64, comment, current),
            longer,
        ),
        owner.len() == 32,
    ensures
        match unlocked(keys@, private_key@, worker@) {
            Err(fault) => longer matches Err(e) && e@ == fault,
            Ok(master_key) => match outside::base64_bytes(new_pubkey_b64@) {
                Err(why) => longer matches Err(e) && e@ == KeyFault::Base64(why),
                Ok(public_key) => {
                    &&& !outside::xwing_accepts(public_key) ==> (longer matches Err(e) && e@
                        == KeyFault::InvalidPublicKey)
                    &&& outside::xwing_accepts(public_key) ==> match current {
                        Err(why) => longer matches Err(e) && e@ == KeyFault::Storage(why@),
                        Ok(list) => {
                            let known = exists|j: int|
                                0 <= j < list@.len() && (#[trigger] list@[j]).public_key
                                    == new_pubkey_b64@;
                            &&& known ==> (longer matches Err(e) && e@ == KeyFault::AlreadyExists)
                            &&& !known ==> {
                                &&& longer matches Ok(all)
                                &&& all@.len() == list@.len() + 1
                                &&& 0 <= i < list@.len() ==> all@[i] == list@[i]
                                &&& all@.last().public_key == new_pubkey_b64@
                                &&& all@.last().comment == comment@
                                &&& outside::xwing_public(owner) == public_key ==> unlocked(
                                    seq![all@.last()],
                                    owner,
                                    worker@,
                                ) == Ok::<Seq<u8>, KeyFault>(master_key)
                            }
                        },
                    }
                },
            },
        },
{
    law_unlocked_key_has_the_length_of_one(keys@, private_key@, worker@);
    if let Ok(all) = longer {
        if let Ok(list) = current {
            if 0 <= i < list@.len() {
                assert(all@.drop_last()[i] == list@[i]);
            }
            let master_key = unlocked(keys@, private_key@, worker@)->Ok_0;
            let public_key = outside::base64_bytes(new_pubkey_b64@)->Ok_0;
            if outside::xwing_public(owner) == public_key {
                law_creator_unlocks_the_master_key(
                    all@.last(),
                    master_key,
                    comment@,
                    owner,
                    worker@,
                );
            }
        }
    }
}

/// A repository is made once: where there is a key list, none is made; else the
/// new one has one entry, under the key and comment of who makes it, which opens to
/// a master key for them.
pub proof fn law_repository_is_made_once(
    worker: KeyWorker,
    keys_found: bool,
    private_key: PrivateKey,
    comment: &str,
    keys: Result<KeysJson, KeyError>,
)
    requires
        call_ensures(KeyWorker::init_storage, (&worker, keys_found, &private_key, comment), keys),
        private_key@.len() == 32,
    ensures
        keys_found ==> (keys matches Err(e) && e@ == KeyFault::AlreadyInitialized),
        !keys_found ==> {
            &&& keys matches Ok(list)
            &&& list@.len() == 1
            &&& list@[0].public_key == outside::base64_text(outside::xwing_public(private_key@))
            &&& list@[0].comment == comment@
            &&& unlocked(list@, private_key@, worker@) matches Ok(master_key)
            &&& master_key.len() == 32
        },
{
    if !keys_found {
        let list = keys->Ok_0;
        let master_key = choose|master_key: Seq<u8>|
            master_key.len() == MASTER_KEY_SIZE && #[trigger] wraps(
                list@[0],
                master_key,
                outside::xwing_public(private_key@),
                comment@,
                worker@,
            );
        law_creator_unlocks_the_master_key(
            list@[0],
            master_key,
            comment@,
            private_key@,
            worker@,
        );
        assert(list@ =~= seq![list@[0]]);
    }
}

/// Where no contents before a place match, the search goes on there.
proof fn lemma_matching(keys: Seq<Encapsulation>, contents: Seq<Seq<char>>, i: int)
    requires
        0 <= i <= contents.len(),
        forall|j: int|
            0 <= j < i ==> !(loaded(#[trigger] contents[j], Seq::empty()) matches Ok(key) && knows(
                keys,
                outside::xwing_public(key),
            )),
    ensures
        matching(keys, contents) == matching(keys, contents.skip(i)),
    decreases i,
{
    if i == 0 {
        assert(contents.skip(0) =~= contents);
    } else {
        let later = contents.drop_first();
        assert forall|j: int| 0 <= j < i - 1 implies !(loaded(
            #[trigger] later[j],
            Seq::empty(),
        ) matches Ok(key) && knows(keys, outside::xwing_public(key))) by {
            assert(later[j] == contents[j + 1]);
        }
        lemma_matching(keys, later, i - 1);
        assert(later.skip(i - 1) =~= contents.skip(i));
        assert(!(loaded(contents[0], Seq::empty()) matches Ok(key) && knows(
            keys,
            outside::xwing_public(key),
        )));
    }
}

/// Of the files of a directory, the first is taken that holds a private key whose
/// public key stands in the key list, whatever the others hold; and none where
/// there is no such file.
pub proof fn law_first_file_with_a_known_key_is_taken(
    keys: KeysJson,
    contents: Vec<String>,
    directory: &str,
    key: Result<PrivateKey, KeyError>,
    i: int,
)
    requires
        call_ensures(find_matching_key, (&keys, &contents, directory), key),
        0 <= i <= contents@.len(),
        forall|j: int|
            0 <= j < i ==> !(loaded((#[trigger] contents@[j])@, Seq::empty()) matches Ok(k) && knows(
                keys@,
                outside::xwing_public(k),
            )),
    ensures
        i == contents@.len() ==> (key matches Err(e) && e@ == KeyFault::NoMatchingKey(directory@)),
        i < contents@.len() ==> (loaded(contents@[i]@, Seq::empty()) matches Ok(k) ==> (knows(
            keys@,
            outside::xwing_public(k),
        ) ==> (key matches Ok(found) && found@ == k))),
{
    let all = text::texts(contents@);
    assert forall|j: int| 0 <= j < i implies !(loaded(#[trigger] all[j], Seq::empty()) matches Ok(k)
        && knows(keys@, outside::xwing_public(k))) by {
        assert(all[j] == contents@[j]@);
    }
    lemma_matching(keys@, all, i);
    if i < all.len() {
        assert(all.skip(i)[0] == contents@[i]@);
    }
}

/// A file of a new key is read again as that key, and only its owner can read it.
pub proof fn law_new_key_file_is_read_again(
    output_path: &str,
    file: NewKeyFile,
    path: &str,
    key: Result<PrivateKey, KeyError>,
    public_key: Result<String, KeyError>,
    contents: &str,
)
    requires
        call_ensures(generate_and_save_keypair, (output_path,), file),
        contents@ == file.contents@,
        call_ensures(load_key_from_file, (contents, path), key),
        call_ensures(get_pubkey_from_file, (contents, path), public_key),
    ensures
        file.path@ == output_path@,
        file.mode == 0o600,
        key is Ok,
        public_key matches Ok(text) && text@ == file.pubkey_b64@,
{
    let private_key = choose|private_key: Seq<u8>|
        private_key.len() == PRIVATE_KEY_SIZE && #[trigger] keeps_key(
            file,
            output_path@,
            private_key,
        );
    assert(loaded(file.contents@, path@) == Ok::<Seq<u8>, KeyFault>(private_key));
}

/// The key of a new repository is the one in the file that was read, and nothing is
/// to be written then; where there is no file, it is a new one, and its file is to
/// be made at that path, for its owner only, and is read again as that key.
pub proof fn law_key_of_a_new_repository_is_read_or_made(
    file: InitKeyFile,
    init: Result<InitKey, KeyError>,
    contents: &str,
    path: &str,
    key: Result<PrivateKey, KeyError>,
)
    requires
        call_ensures(resolve_or_generate_init_key, (file,), init),
        call_ensures(load_key_from_file, (contents, path), key),
        match file {
            InitKeyFile::Read { path: from, contents: text } => text@ == contents@ && from@ == path@,
            InitKeyFile::Missing { .. } => init matches Ok(i) ==> (i.file matches Some(new)
                ==> new.contents@ == contents@),
        },
    ensures
        file is Read ==> match key {
            Ok(k) => init matches Ok(i) && i.key@ == k@ && i.result is Existing && i.file is None,
            Err(e) => init matches Err(error) && error@ == e@,
        },
        file matches InitKeyFile::Missing { path: at } ==> {
            &&& init matches Ok(i)
            &&& i.file matches Some(new)
            &&& new.path@ == at@
            &&& new.mode == 0o600
            &&& key matches Ok(k)
            &&& k@ == i.key@
            &&& i.result matches InitKeyResult::Generated { pubkey_b64, path: kept }
            &&& kept@ == at@
            &&& pubkey_b64@ == outside::base64_text(outside::xwing_public(k@))
            &&& new.pubkey_b64@ == pubkey_b64@
        },
{
    if let Ok(i) = init {
        if let Some(new) = i.file {
            if file is Missing {
                assert(loaded(new.contents@, path@) == Ok::<Seq<u8>, KeyFault>(i.key@));
            }
        }
    }
}

/// An entry is appended behind the others, where none has its public key; any
/// other is refused.
pub proof fn law_entry_is_appended_once(
    keys: KeysJson,
    entry: KeyEncapsulation,
    longer: Result<KeysJson, KeyError>,
    i: int,
)
    requires
        call_ensures(append_entry, (keys, entry), longer),
    ensures
        (exists|j: int|
            0 <= j < keys@.len() && (#[trigger] keys@[j]).public_key == entry.public_key@) ==> (
        longer matches Err(e) && e@ == KeyFault::AlreadyExists),
        (forall|j: int|
            0 <= j < keys@.len() ==> (#[trigger] keys@[j]).public_key != entry.public_key@) ==> (
        longer matches Ok(all) && all@.len() == keys@.len() + 1 && (0 <= i < keys@.len() ==> all@[i]
            == keys@[i]) && all@.last() == entry@),
{
}

/// Bytes out of a file are a private key where there are 32, and the path is what is
/// complained of otherwise.
pub proof fn law_bytes_of_the_right_length_are_a_key(
    bytes: Vec<u8>,
    path: &str,
    key: Result<PrivateKey, KeyError>,
)
    requires
        call_ensures(check_private_key, (bytes, path), key),
    ensures
        bytes@.len() == 32 ==> (key matches Ok(k) && k@ == bytes@),
        bytes@.len() != 32 ==> (key matches Err(e) && e@ == KeyFault::InvalidPrivateKey(path@)),
{
}

} // verus!
