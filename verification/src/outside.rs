//! Calls into outside crates.
//!
//! Everything in this file is believed rather than proved: each function here
//! makes one outside call (or the few calls that lead from plain bytes to one
//! outside result) and says what is claimed of it.  Results that cannot be
//! written down in a few lines have a name, a spec function without a body.

use base64::engine::general_purpose::{STANDARD, URL_SAFE_NO_PAD};
use base64::Engine;
use chacha20poly1305::aead::stream::{NewStream, StreamBE32, StreamPrimitive};
use chacha20poly1305::{Key, KeyInit, XChaCha20Poly1305};
use hpke::aead::{AeadTag, ChaCha20Poly1305};
use hpke::inout::InOutBuf;
use hpke::kdf::HkdfSha384;
use hpke::kem::XWing;
use hpke::{Deserializable, Kem, OpModeR, OpModeS, Serializable};
use rand::rngs::OsRng;
use rand::RngCore;
use uuid::Uuid;
use vstd::prelude::*;
use zeroize::Zeroize;

verus! {

/// Bytes of a key of the stream cipher.
pub const STREAM_KEY_SIZE: usize = 32;

/// Bytes of the nonce of a whole stream: the cipher's nonce without the block
/// counter and the last-block flag.
pub const STREAM_NONCE_SIZE: usize = 19;

/// Bytes by which a sealed block is longer than its plaintext.
pub const TAG_SIZE: usize = 16;

/// Whether ChaCha20Poly1305 answers to a message of this length.  It takes one of
/// 2^32 - 2 blocks of 64 bytes at most, and refuses one of 2^32 - 1 blocks or
/// more; in between, where the last block is begun and not full, it panics.
pub open spec fn cipher_answers(length: int) -> bool {
    length <= 64 * 0xffff_fffe || length >= 64 * 0xffff_ffff
}

/// What `StreamBE32::encrypt` of `XChaCha20Poly1305` makes of a block.
pub uninterp spec fn stream_sealed(
    key: Seq<u8>,
    nonce: Seq<u8>,
    position: u32,
    last: bool,
    plaintext: Seq<u8>,
) -> Seq<u8>;

/// What `StreamBE32::decrypt` of `XChaCha20Poly1305` makes of a sealed block;
/// `None` where it reports an error.
pub uninterp spec fn stream_opened(
    key: Seq<u8>,
    nonce: Seq<u8>,
    position: u32,
    last: bool,
    ciphertext: Seq<u8>,
) -> Option<Seq<u8>>;

/// Calls `StreamPrimitive::encrypt` on a `StreamBE32` over
/// `XChaCha20Poly1305`.
///
/// Claimed: the result is a function of the arguments, it succeeds on every
/// block within the cipher's limit, a sealed block is 16 bytes longer than its
/// plaintext, and opening it under the same key, nonce, position and flag gives
/// the plaintext back.  A key or nonce of another length would panic, and so
/// would a block that the cipher does not answer to.
#[verifier::external_body]
pub(crate) fn stream_seal(
    key: &[u8],
    nonce: &[u8],
    position: u32,
    last: bool,
    plaintext: &[u8],
) -> (sealed: Option<Vec<u8>>)
    requires
        key@.len() == STREAM_KEY_SIZE,
        nonce@.len() == STREAM_NONCE_SIZE,
        cipher_answers(plaintext@.len() as int),
    ensures
        plaintext@.len() <= 64 * 0xffff_fffe ==> sealed is Some,
        sealed matches Some(c) ==> {
            &&& c@ == stream_sealed(key@, nonce@, position, last, plaintext@)
            &&& c@.len() == plaintext@.len() + TAG_SIZE
            &&& stream_opened(key@, nonce@, position, last, c@) == Some(plaintext@)
        },
{
    let cipher = XChaCha20Poly1305::new(Key::from_slice(key));
    let stream = StreamBE32::from_aead(cipher, nonce.into());
    stream.encrypt(position, last, plaintext).ok()
}

/// Calls `StreamPrimitive::decrypt` on a `StreamBE32` over
/// `XChaCha20Poly1305`.
///
/// Claimed: the result is a function of the arguments, and an opened block is
/// 16 bytes shorter than the sealed one.  A key or nonce of another length
/// would panic, and so would a block that the cipher does not answer to.
#[verifier::external_body]
pub(crate) fn stream_open(
    key: &[u8],
    nonce: &[u8],
    position: u32,
    last: bool,
    ciphertext: &[u8],
) -> (opened: Option<Vec<u8>>)
    requires
        key@.len() == STREAM_KEY_SIZE,
        nonce@.len() == STREAM_NONCE_SIZE,
        cipher_answers(ciphertext@.len() - TAG_SIZE),
    ensures
        opened is Some <==> stream_opened(key@, nonce@, position, last, ciphertext@) is Some,
        opened matches Some(p) ==> {
            &&& stream_opened(key@, nonce@, position, last, ciphertext@) == Some(p@)
            &&& p@.len() + TAG_SIZE == ciphertext@.len()
        },
{
    let cipher = XChaCha20Poly1305::new(Key::from_slice(key));
    let stream = StreamBE32::from_aead(cipher, nonce.into());
    stream.decrypt(position, last, ciphertext).ok()
}

/// Calls `OsRng::fill_bytes` of the `rand` crate on a buffer of `length`
/// bytes.
///
/// Claimed: the buffer keeps its length.  Nothing is claimed of the bytes,
/// which are random; the call panics where the system has no random source.
#[verifier::external_body]
pub(crate) fn random_bytes(length: usize) -> (bytes: Vec<u8>)
    ensures
        bytes@.len() == length,
{
    let mut bytes = vec![0u8; length];
    OsRng.fill_bytes(&mut bytes);
    bytes
}

/// Calls `Zeroize::zeroize` of the `zeroize` crate on the bytes of a vector.
///
/// Claimed: each byte is zero afterwards.  That the compiler does not leave the
/// writes out is what the call is for, and cannot be stated here.
#[verifier::external_body]
pub(crate) fn wipe(bytes: &mut Vec<u8>)
    ensures
        final(bytes)@ == Seq::new(old(bytes)@.len(), |i: int| 0u8),
{
    bytes.as_mut_slice().zeroize();
}

/// Calls `Zeroize::zeroize` of the `zeroize` crate on a text.
///
/// Claimed: the text is empty afterwards.  That its bytes are overwritten first
/// is what the call is for, and cannot be stated here.
#[verifier::external_body]
pub(crate) fn wipe_text(text: &mut String)
    ensures
        final(text)@.len() == 0,
{
    text.zeroize();
}

/// What `STANDARD.encode` of the `base64` crate makes of bytes.
pub uninterp spec fn base64_text(bytes: Seq<u8>) -> Seq<char>;

/// What `STANDARD.decode` of the `base64` crate makes of a text: the bytes, or
/// the text of its error.
pub uninterp spec fn base64_bytes(text: Seq<char>) -> Result<Seq<u8>, Seq<char>>;

/// Whether `c` is of the standard Base64 alphabet, or the padding.
pub open spec fn is_base64(c: char) -> bool {
    'A' <= c <= 'Z' || 'a' <= c <= 'z' || '0' <= c <= '9' || c == '+' || c == '/' || c == '='
}

/// Calls `STANDARD.encode` of the `base64` crate.
///
/// Claimed: the result is a function of the bytes, it is made of letters,
/// digits, `+`, `/` and `=`, decoding it gives the bytes back, and no other text
/// is decoded to them (decoding takes canonical texts only).
#[verifier::external_body]
pub(crate) fn base64_encode(bytes: &[u8]) -> (text: String)
    ensures
        text@ == base64_text(bytes@),
        forall|i: int| 0 <= i < text@.len() ==> is_base64(#[trigger] text@[i]),
        base64_bytes(text@) is Ok,
        base64_bytes(text@)->Ok_0 == bytes@,
        forall|other: Seq<char>|
            (#[trigger] base64_bytes(other) matches Ok(b) && b == bytes@) ==> other == text@,
{
    STANDARD.encode(bytes)
}

/// Calls `STANDARD.decode` of the `base64` crate.
///
/// Claimed: the result is a function of the text.  The engine takes canonical
/// texts only (padding where it belongs, no stray bits in the last character),
/// so what it decodes is the encoding of the bytes it returns.
#[verifier::external_body]
pub(crate) fn base64_decode(text: &str) -> (bytes: Result<Vec<u8>, String>)
    ensures
        bytes matches Ok(b) ==> {
            &&& base64_bytes(text@) matches Ok(decoded) && decoded == b@
            &&& base64_text(b@) == text@
        },
        bytes matches Err(e) ==> base64_bytes(text@) matches Err(error) && error == e@,
{
    STANDARD.decode(text).map_err(|e| e.to_string())
}

/// What `URL_SAFE_NO_PAD.encode` of the `base64` crate makes of bytes.
pub uninterp spec fn url_safe_text(bytes: Seq<u8>) -> Seq<char>;

/// Whether `c` is of the URL-safe Base64 alphabet.
pub open spec fn is_url_safe(c: char) -> bool {
    'A' <= c <= 'Z' || 'a' <= c <= 'z' || '0' <= c <= '9' || c == '-' || c == '_'
}

/// Calls `URL_SAFE_NO_PAD.encode` of the `base64` crate.
///
/// Claimed: the result is a function of the bytes, it is made of letters,
/// digits, `-` and `_`, and no other bytes give the same text.
#[verifier::external_body]
pub(crate) fn url_safe_encode(bytes: &[u8]) -> (text: String)
    ensures
        text@ == url_safe_text(bytes@),
        forall|i: int| 0 <= i < text@.len() ==> is_url_safe(#[trigger] text@[i]),
        forall|other: Seq<u8>| #[trigger] url_safe_text(other) == text@ ==> other == bytes@,
{
    URL_SAFE_NO_PAD.encode(bytes)
}

/// Bytes of an X-Wing private key.
pub const PRIVATE_KEY_SIZE: usize = 32;

/// Bytes of an X-Wing public key.
pub const PUBLIC_KEY_SIZE: usize = 1216;

/// Bytes of an X-Wing encapsulated key.
pub const ENCAPSULATED_KEY_SIZE: usize = 1120;

/// The bytes of what `XWing::sk_to_pk` gives for the private key of these
/// bytes.
pub uninterp spec fn xwing_public(private_key: Seq<u8>) -> Seq<u8>;

/// Whether `PublicKey::from_bytes` of `XWing` takes these bytes.
pub uninterp spec fn xwing_accepts(public_key: Seq<u8>) -> bool;

/// Calls `XWing::sk_to_pk` on the private key that `PrivateKey::from_bytes`
/// makes of the bytes, and `to_bytes` on the result.
///
/// Claimed: any 32 bytes are a private key, the public key is a function of
/// them, it has 1216 bytes, and it is one that `PublicKey::from_bytes` takes.
/// Bytes of another length are no private key.
#[verifier::external_body]
pub(crate) fn xwing_public_key(private_key: &[u8]) -> (public_key: Vec<u8>)
    requires
        private_key@.len() == PRIVATE_KEY_SIZE,
    ensures
        public_key@ == xwing_public(private_key@),
        public_key@.len() == PUBLIC_KEY_SIZE,
        xwing_accepts(public_key@),
{
    let key = <XWing as Kem>::PrivateKey::from_bytes(private_key).unwrap();
    XWing::sk_to_pk(&key).to_bytes().to_vec()
}

/// Calls `XWing::gen_keypair`, and `to_bytes` on both keys.
///
/// Claimed: the private key has 32 bytes, and the public key is the one that
/// belongs to it.  Nothing more is claimed of the bytes, which are random; the
/// call panics where the system has no random source.
#[verifier::external_body]
pub(crate) fn xwing_key_pair() -> (pair: (Vec<u8>, Vec<u8>))
    ensures
        pair.0@.len() == PRIVATE_KEY_SIZE,
        pair.1@ == xwing_public(pair.0@),
        pair.1@.len() == PUBLIC_KEY_SIZE,
        xwing_accepts(pair.1@),
{
    let (private_key, public_key) = XWing::gen_keypair();
    (private_key.to_bytes().to_vec(), public_key.to_bytes().to_vec())
}

/// Calls `PublicKey::from_bytes` of `XWing`, and `to_bytes` on the result.
///
/// Claimed: which bytes are taken is a function of the bytes, none but 1216
/// bytes are taken, and a key that was taken has the same bytes again.
#[verifier::external_body]
pub(crate) fn xwing_read_public_key(bytes: &[u8]) -> (public_key: Option<Vec<u8>>)
    ensures
        public_key is Some <==> xwing_accepts(bytes@),
        public_key is Some ==> bytes@.len() == PUBLIC_KEY_SIZE,
        public_key matches Some(pk) ==> pk@ == bytes@,
{
    let key = <XWing as Kem>::PublicKey::from_bytes(bytes).ok()?;
    Some(key.to_bytes().to_vec())
}

/// A message sealed for one public key.
#[derive(Debug)]
pub struct SealedMessage {
    /// What the receiver takes the shared secret from.
    pub encapsulated_key: Vec<u8>,
    /// The message, encrypted.
    pub ciphertext: Vec<u8>,
    /// The authentication tag.
    pub tag: Vec<u8>,
}

/// Which half of an HPKE operation failed, with the text of the error.
#[derive(Debug)]
pub enum HpkeFault {
    /// The context could not be set up.
    Setup(String),
    /// The message could not be sealed or opened.
    Message(String),
}

/// What `open_inout_detached` makes of a sealed message in a context of
/// `setup_receiver` with X-Wing, HKDF-SHA384 and ChaCha20Poly1305 in base mode;
/// `None` where it reports an error.
pub uninterp spec fn hpke_opened(
    private_key: Seq<u8>,
    encapsulated_key: Seq<u8>,
    info: Seq<u8>,
    aad: Seq<u8>,
    ciphertext: Seq<u8>,
    tag: Seq<u8>,
) -> Option<Seq<u8>>;

/// Calls `setup_sender` of the `hpke` crate with X-Wing, HKDF-SHA384 and
/// ChaCha20Poly1305 in base mode, and `seal_inout_detached` on the context.
///
/// Claimed: setting up does not fail for X-Wing, sealing fails for messages
/// beyond the cipher's limit only, the encapsulated key has 1120 bytes, the
/// ciphertext has the length of the message and the tag 16 bytes, and the owner
/// of the public key opens the result, under the same info and associated data,
/// to the message.  The bytes themselves are random; the call panics where the
/// system has no random source, and for a message that the cipher does not
/// answer to.  A limit on the length of `info` that the
/// documentation names is one of other key derivations: this one hashes it,
/// whatever its length.  The design of ML-KEM, a part of X-Wing, lets
/// decapsulation fail with a probability of about 2^-164: as the crate's
/// documentation does, the claim passes over that.
#[verifier::external_body]
pub(crate) fn hpke_seal(
    public_key: &[u8],
    info: &[u8],
    aad: &[u8],
    message: &[u8],
) -> (sealed: Result<SealedMessage, HpkeFault>)
    requires
        xwing_accepts(public_key@),
        cipher_answers(message@.len() as int),
    ensures
        message@.len() <= 64 * 0xffff_fffe ==> sealed is Ok,
        sealed matches Ok(s) ==> {
            &&& s.encapsulated_key@.len() == ENCAPSULATED_KEY_SIZE
            &&& s.ciphertext@.len() == message@.len()
            &&& s.tag@.len() == TAG_SIZE
            &&& forall|private_key: Seq<u8>|
                private_key.len() == PRIVATE_KEY_SIZE && #[trigger] xwing_public(private_key)
                    == public_key@ ==> hpke_opened(
                    private_key,
                    s.encapsulated_key@,
                    info@,
                    aad@,
                    s.ciphertext@,
                    s.tag@,
                ) == Some(message@)
        },
        sealed matches Err(f) ==> f matches HpkeFault::Message(e) && e@
            == "Failed to seal plaintext"@,
{
    let key = <XWing as Kem>::PublicKey::from_bytes(public_key)
        .map_err(|e| HpkeFault::Setup(e.to_string()))?;
    let (encapsulated, mut context) =
        hpke::setup_sender::<ChaCha20Poly1305, HkdfSha384, XWing>(&OpModeS::Base, &key, info)
            .map_err(|e| HpkeFault::Setup(e.to_string()))?;
    let mut ciphertext = message.to_vec();
    let tag = context
        .seal_inout_detached(InOutBuf::from(&mut ciphertext[..]), aad)
        .map_err(|e| HpkeFault::Message(e.to_string()))?;
    let encapsulated_key = encapsulated.to_bytes().to_vec();
    Ok(SealedMessage { encapsulated_key, ciphertext, tag: tag.to_bytes().to_vec() })
}

/// Calls `setup_receiver` of the `hpke` crate with X-Wing, HKDF-SHA384 and
/// ChaCha20Poly1305 in base mode, and `open_inout_detached` on the context.
///
/// Claimed: the result is a function of the arguments, setting up does not fail
/// for X-Wing, and a message that was opened has the length of the ciphertext.
/// Keys or a tag of another length would be refused before the call, and a
/// ciphertext that the cipher does not answer to would panic.  As for sealing,
/// `info` may have any length.
#[verifier::external_body]
pub(crate) fn hpke_open(
    private_key: &[u8],
    sealed: &SealedMessage,
    info: &[u8],
    aad: &[u8],
) -> (message: Result<Vec<u8>, HpkeFault>)
    requires
        private_key@.len() == PRIVATE_KEY_SIZE,
        sealed.encapsulated_key@.len() == ENCAPSULATED_KEY_SIZE,
        sealed.tag@.len() == TAG_SIZE,
        cipher_answers(sealed.ciphertext@.len() as int),
    ensures
        message matches Ok(m) ==> {
            &&& hpke_opened(
                private_key@,
                sealed.encapsulated_key@,
                info@,
                aad@,
                sealed.ciphertext@,
                sealed.tag@,
            ) == Some(m@)
            &&& m@.len() == sealed.ciphertext@.len()
        },
        message matches Err(f) ==> {
            &&& hpke_opened(
                private_key@,
                sealed.encapsulated_key@,
                info@,
                aad@,
                sealed.ciphertext@,
                sealed.tag@,
            ) is None
            &&& f matches HpkeFault::Message(e) && e@ == "Failed to open ciphertext"@
        },
{
    let setup = |e: hpke::HpkeError| HpkeFault::Setup(e.to_string());
    let key = <XWing as Kem>::PrivateKey::from_bytes(private_key).map_err(setup)?;
    let enc = <XWing as Kem>::EncappedKey::from_bytes(&sealed.encapsulated_key).map_err(setup)?;
    let tag = AeadTag::<ChaCha20Poly1305>::from_bytes(&sealed.tag).map_err(setup)?;
    let mode = OpModeR::Base;
    let mut context =
        hpke::setup_receiver::<ChaCha20Poly1305, HkdfSha384, XWing>(&mode, &key, &enc, info)
            .map_err(setup)?;
    let mut message = sealed.ciphertext.clone();
    context
        .open_inout_detached(InOutBuf::from(&mut message[..]), aad, &tag)
        .map_err(|e| HpkeFault::Message(e.to_string()))?;
    Ok(message)
}

/// Whether `c` is a lower-case hexadecimal digit.
pub open spec fn is_lower_hex(c: char) -> bool {
    '0' <= c <= '9' || 'a' <= c <= 'f'
}

/// Whether a text has the form of a random UUID, hyphenated, in lower case.
pub open spec fn is_random_uuid(text: Seq<char>) -> bool {
    &&& text.len() == 36
    &&& forall|i: int|
        0 <= i < 36 ==> if i == 8 || i == 13 || i == 18 || i == 23 {
            #[trigger] text[i] == '-'
        } else {
            is_lower_hex(text[i])
        }
    &&& text[14] == '4'
    &&& (text[19] == '8' || text[19] == '9' || text[19] == 'a' || text[19] == 'b')
}

/// Calls `Uuid::new_v4` of the `uuid` crate and writes the result out with
/// `to_string`.
///
/// Claimed: the text has the form of a random UUID.  The digits themselves are
/// random; the call panics where the system has no random source.
#[verifier::external_body]
pub(crate) fn random_uuid() -> (text: String)
    ensures
        is_random_uuid(text@),
{
    Uuid::new_v4().to_string()
}

} // verus!
