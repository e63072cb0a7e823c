//! X-Wing keys, and what can go wrong with them.

use crate::outside;
use crate::outside::{
    wipe, xwing_key_pair, xwing_public_key, xwing_read_public_key, PRIVATE_KEY_SIZE, PUBLIC_KEY_SIZE,
};
use crate::text::join2;
use vstd::prelude::*;

verus! {

/// Why a key could not be used, or a repository not be unlocked or changed.
#[derive(Debug)]
pub enum KeyError {
    /// A text is no Base64; the decoder says why.
    Base64(String),
    /// What a file holds is no private key; the path of the file.
    InvalidPrivateKey(String),
    /// Bytes are no public key.
    InvalidPublicKey,
    /// Bytes are no encapsulated key.
    InvalidEncapsulatedKey,
    /// Bytes are no authentication tag.
    InvalidTag,
    /// The sender's context could not be set up.
    SealSetup(String),
    /// The master key could not be sealed.
    Seal(String),
    /// The receiver's context could not be set up.
    OpenSetup(String),
    /// The master key could not be opened.
    Open(String),
    /// What was unlocked has not the length of a master key.
    KeyLength,
    /// No entry of the key list is for this private key.
    NotAuthorized,
    /// The key list has an entry for this public key already.
    AlreadyExists,
    /// No file of a directory holds a key that the key list knows; its path.
    NoMatchingKey(String),
    /// There is no home directory to look for keys in.
    NoHome,
    /// There is no home directory to keep the default key in.
    NoHomeForDefault,
    /// There is no place left to look for a key in.
    NoKey,
    /// The repository has a key list already.
    AlreadyInitialized,
    /// The answer of a program is no text; the decoder says why.
    NotText(String),
    /// The key list could not be had; the storage says why.
    Storage(String),
}

/// What a `KeyError` stands for, its texts as sequences of characters.
pub enum KeyFault {
    Base64(Seq<char>),
    InvalidPrivateKey(Seq<char>),
    InvalidPublicKey,
    InvalidEncapsulatedKey,
    InvalidTag,
    SealSetup(Seq<char>),
    Seal(Seq<char>),
    OpenSetup(Seq<char>),
    Open(Seq<char>),
    KeyLength,
    NotAuthorized,
    AlreadyExists,
    NoMatchingKey(Seq<char>),
    NoHome,
    NoHomeForDefault,
    NoKey,
    AlreadyInitialized,
    NotText(Seq<char>),
    Storage(Seq<char>),
}

impl View for KeyError {
    type V = KeyFault;

    open spec fn view(&self) -> KeyFault {
        match *self {
            KeyError::Base64(e) => KeyFault::Base64(e@),
            KeyError::InvalidPrivateKey(path) => KeyFault::InvalidPrivateKey(path@),
            KeyError::InvalidPublicKey => KeyFault::InvalidPublicKey,
            KeyError::InvalidEncapsulatedKey => KeyFault::InvalidEncapsulatedKey,
            KeyError::InvalidTag => KeyFault::InvalidTag,
            KeyError::SealSetup(e) => KeyFault::SealSetup(e@),
            KeyError::Seal(e) => KeyFault::Seal(e@),
            KeyError::OpenSetup(e) => KeyFault::OpenSetup(e@),
            KeyError::Open(e) => KeyFault::Open(e@),
            KeyError::KeyLength => KeyFault::KeyLength,
            KeyError::NotAuthorized => KeyFault::NotAuthorized,
            KeyError::AlreadyExists => KeyFault::AlreadyExists,
            KeyError::NoMatchingKey(path) => KeyFault::NoMatchingKey(path@),
            KeyError::NoHome => KeyFault::NoHome,
            KeyError::NoHomeForDefault => KeyFault::NoHomeForDefault,
            KeyError::NoKey => KeyFault::NoKey,
            KeyError::AlreadyInitialized => KeyFault::AlreadyInitialized,
            KeyError::NotText(e) => KeyFault::NotText(e@),
            KeyError::Storage(e) => KeyFault::Storage(e@),
        }
    }
}

/// What a result stands for.
pub open spec fn outcome<T: View>(result: Result<T, KeyError>) -> Result<T::V, KeyFault> {
    match result {
        Ok(value) => Ok(value@),
        Err(error) => Err(error@),
    }
}

/// What the user is told of a fault.
pub open spec fn fault_text(fault: KeyFault) -> Seq<char> {
    match fault {
        KeyFault::Base64(e) => e,
        KeyFault::InvalidPrivateKey(path) => "Invalid private key format at "@ + path,
        KeyFault::InvalidPublicKey => "Invalid pubkey format"@,
        KeyFault::InvalidEncapsulatedKey => "Invalid enc key"@,
        KeyFault::InvalidTag => "Invalid authentication tag"@,
        KeyFault::SealSetup(e) => "HPKE setup failed: "@ + e,
        KeyFault::Seal(e) => "HPKE seal failed: "@ + e,
        KeyFault::OpenSetup(e) => "HPKE receiver setup failed: "@ + e,
        KeyFault::Open(e) => "HPKE open failed: "@ + e,
        KeyFault::KeyLength => "Invalid key length"@,
        KeyFault::NotAuthorized => "User not authorized"@,
        KeyFault::AlreadyExists => "Public key already exists"@,
        KeyFault::NoMatchingKey(path) => "No matching key found in "@ + path,
        KeyFault::NoHome => "No home directory"@,
        KeyFault::NoHomeForDefault => "No home directory found"@,
        KeyFault::NoKey => "No suitable private key found"@,
        KeyFault::AlreadyInitialized =>
            "Repository already initialized (keys.json already exists). Aborting to prevent overwriting the master key."@,
        KeyFault::NotText(e) => e,
        KeyFault::Storage(e) => e,
    }
}

impl KeyError {
    /// What the user is told of this error.
    pub fn message(&self) -> (text: String)
        ensures
            text@ == fault_text(self@),
    {
        match self {
            KeyError::Base64(e) => e.clone(),
            KeyError::InvalidPrivateKey(path) => join2(
                "Invalid private key format at ",
                path.as_str(),
            ),
            KeyError::InvalidPublicKey => "Invalid pubkey format".to_owned(),
            KeyError::InvalidEncapsulatedKey => "Invalid enc key".to_owned(),
            KeyError::InvalidTag => "Invalid authentication tag".to_owned(),
            KeyError::SealSetup(e) => join2("HPKE setup failed: ", e.as_str()),
            KeyError::Seal(e) => join2("HPKE seal failed: ", e.as_str()),
            KeyError::OpenSetup(e) => join2("HPKE receiver setup failed: ", e.as_str()),
            KeyError::Open(e) => join2("HPKE open failed: ", e.as_str()),
            KeyError::KeyLength => "Invalid key length".to_owned(),
            KeyError::NotAuthorized => "User not authorized".to_owned(),
            KeyError::AlreadyExists => "Public key already exists".to_owned(),
            KeyError::NoMatchingKey(path) => join2("No matching key found in ", path.as_str()),
            KeyError::NoHome => "No home directory".to_owned(),
            KeyError::NoHomeForDefault => "No home directory found".to_owned(),
            KeyError::NoKey => "No suitable private key found".to_owned(),
            KeyError::AlreadyInitialized =>
                "Repository already initialized (keys.json already exists). Aborting to prevent overwriting the master key.".to_owned(),
            KeyError::NotText(e) => e.clone(),
            KeyError::Storage(e) => e.clone(),
        }
    }
}

/// A private key.
pub struct PrivateKey {
    bytes: Vec<u8>,
}

/// A public key that messages can be sealed for.
pub struct PublicKey {
    bytes: Vec<u8>,
}

impl View for PrivateKey {
    type V = Seq<u8>;

    closed spec fn view(&self) -> Seq<u8> {
        self.bytes@
    }
}

impl View for PublicKey {
    type V = Seq<u8>;

    closed spec fn view(&self) -> Seq<u8> {
        self.bytes@
    }
}

impl PrivateKey {
    #[verifier::type_invariant]
    spec fn has_the_length_of_a_key(self) -> bool {
        self.bytes@.len() == PRIVATE_KEY_SIZE
    }

    /// The private key of these bytes: any 32 bytes are one.
    pub fn from_bytes(bytes: Vec<u8>) -> (key: Option<Self>)
        ensures
            key is Some <==> bytes@.len() == PRIVATE_KEY_SIZE,
            key matches Some(k) ==> k@ == bytes@,
    {
        if bytes.len() == PRIVATE_KEY_SIZE {
            Some(PrivateKey { bytes })
        } else {
            let mut bytes = bytes;
            wipe(&mut bytes);
            None
        }
    }

    /// The bytes of this key.
    pub fn as_bytes(&self) -> (bytes: &[u8])
        ensures
            bytes@ == self@,
            bytes@.len() == PRIVATE_KEY_SIZE,
    {
        proof {
            use_type_invariant(self);
        }
        self.bytes.as_slice()
    }

    /// The public key that belongs to this key.
    pub fn public_key(&self) -> (key: PublicKey)
        ensures
            key@ == outside::xwing_public(self@),
    {
        PublicKey { bytes: xwing_public_key(self.as_bytes()) }
    }

    /// Overwrites this key, which is then no use any more.
    pub fn erase(&mut self)
        ensures
            final(self)@ == Seq::new(PRIVATE_KEY_SIZE as nat, |i: int| 0u8),
    {
        let mut bytes: Vec<u8> = vec![0u8; PRIVATE_KEY_SIZE];
        std::mem::swap(&mut bytes, &mut self.bytes);
        wipe(&mut bytes);
    }

    /// A new random key, and the public key that belongs to it.
    pub fn generate() -> (pair: (PrivateKey, PublicKey))
        ensures
            pair.0@.len() == PRIVATE_KEY_SIZE,
            pair.1@ == outside::xwing_public(pair.0@),
    {
        let (private_bytes, public_bytes) = xwing_key_pair();
        (PrivateKey { bytes: private_bytes }, PublicKey { bytes: public_bytes })
    }
}

impl PublicKey {
    #[verifier::type_invariant]
    spec fn is_taken(self) -> bool {
        &&& self.bytes@.len() == PUBLIC_KEY_SIZE
        &&& outside::xwing_accepts(self.bytes@)
    }

    /// The public key of these bytes, where they are one.
    pub fn from_bytes(bytes: &[u8]) -> (key: Option<Self>)
        ensures
            key is Some <==> outside::xwing_accepts(bytes@),
            key matches Some(k) ==> k@ == bytes@,
    {
        match xwing_read_public_key(bytes) {
            Some(bytes) => Some(PublicKey { bytes }),
            None => None,
        }
    }

    /// The bytes of this key.
    pub fn as_bytes(&self) -> (bytes: &[u8])
        ensures
            bytes@ == self@,
            bytes@.len() == PUBLIC_KEY_SIZE,
            outside::xwing_accepts(bytes@),
    {
        proof {
            use_type_invariant(self);
        }
        self.bytes.as_slice()
    }
}

/// Each error says what it is about.
pub proof fn law_key_errors_say_what_they_are_about(error: KeyError, text: String)
    requires
        call_ensures(KeyError::message, (&error,), text),
    ensures
        error matches KeyError::Base64(e) ==> text@ == e@,
        error matches KeyError::InvalidPrivateKey(path) ==> text@
            == "Invalid private key format at "@ + path@,
        error is InvalidPublicKey ==> text@ == "Invalid pubkey format"@,
        error is InvalidEncapsulatedKey ==> text@ == "Invalid enc key"@,
        error is InvalidTag ==> text@ == "Invalid authentication tag"@,
        error matches KeyError::SealSetup(e) ==> text@ == "HPKE setup failed: "@ + e@,
        error matches KeyError::Seal(e) ==> text@ == "HPKE seal failed: "@ + e@,
        error matches KeyError::OpenSetup(e) ==> text@ == "HPKE receiver setup failed: "@ + e@,
        error matches KeyError::Open(e) ==> text@ == "HPKE open failed: "@ + e@,
        error is KeyLength ==> text@ == "Invalid key length"@,
        error is NotAuthorized ==> text@ == "User not authorized"@,
        error is AlreadyExists ==> text@ == "Public key already exists"@,
        error matches KeyError::NoMatchingKey(path) ==> text@ == "No matching key found in "@
            + path@,
        error is NoHome ==> text@ == "No home directory"@,
        error is NoHomeForDefault ==> text@ == "No home directory found"@,
        error is NoKey ==> text@ == "No suitable private key found"@,
        error is AlreadyInitialized ==> text@
            == "Repository already initialized (keys.json already exists). Aborting to prevent overwriting the master key."@,
        error matches KeyError::NotText(e) ==> text@ == e@,
        error matches KeyError::Storage(e) ==> text@ == e@,
{
}

/// A private key is any bytes of the right length, and no others; it keeps them,
/// and its public key is the one that belongs to them.
pub proof fn law_private_key_is_its_bytes(
    bytes: Vec<u8>,
    key: Option<PrivateKey>,
    own: &[u8],
    public: PublicKey,
)
    requires
        call_ensures(PrivateKey::from_bytes, (bytes,), key),
        key is Some ==> call_ensures(PrivateKey::as_bytes, (&key->Some_0,), own),
        key is Some ==> call_ensures(PrivateKey::public_key, (&key->Some_0,), public),
    ensures
        key is Some <==> bytes@.len() == 32,
        key is Some ==> own@ == bytes@,
        key is Some ==> public@ == outside::xwing_public(bytes@),
{
}

/// An erased private key is gone: each byte of it is zero.
pub proof fn law_erased_private_key_is_gone(key: &mut PrivateKey, i: int)
    requires
        call_ensures(PrivateKey::erase, (key,), ()),
    ensures
        0 <= i < final(key)@.len() ==> final(key)@[i] == 0,
{
}

} // verus!
