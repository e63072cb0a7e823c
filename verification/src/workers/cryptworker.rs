//! Stream encryption of stored files.
//!
//! A stored file is a random nonce followed by sealed blocks.  Every block but
//! the last holds [`CHUNK_SIZE`] bytes of plaintext; the last holds what is
//! left, possibly nothing, and is sealed with a flag that says so.

use crate::outside::{
    random_bytes, stream_open, stream_seal, wipe, STREAM_KEY_SIZE, STREAM_NONCE_SIZE, TAG_SIZE,
};
use crate::text::join2;
use vstd::prelude::*;
use vstd::slice::slice_subrange;
use vstd::slice::slice_to_vec;

verus! {

/// Bytes of plaintext in every block but the last.
pub const CHUNK_SIZE: usize = 64 * 1024;

/// Which way a stream is piped.
#[derive(Debug)]
pub enum CryptoMode {
    /// From plaintext to a stored file.
    Encrypt,
    /// From a stored file to plaintext.
    Decrypt,
}

/// Why a stream could not be piped.
#[derive(Debug)]
pub enum CryptError {
    /// The key does not have 32 bytes.
    KeyLength,
    /// The source failed in the middle of the stream.
    Read(String),
    /// The sink failed.
    Write(String),
    /// The source failed within the nonce.
    NonceRead(String),
    /// The source ended within the nonce.
    NonceTruncated,
    /// A full block could not be sealed: the stream has too many blocks.
    SealStream,
    /// The last block could not be sealed.
    SealFinal,
    /// A full block did not open.
    OpenStream,
    /// The last block did not open.
    OpenFinal,
}

/// What the user is told of an error.
pub open spec fn crypt_error_text(error: CryptError) -> Seq<char> {
    match error {
        CryptError::KeyLength => "Key must be exactly 32 bytes"@,
        CryptError::Read(e) => "I/O Read error: "@ + e@,
        CryptError::Write(e) => e@,
        CryptError::NonceRead(e) => "Failed to read stream nonce: "@ + e@,
        CryptError::NonceTruncated =>
            "Failed to read stream nonce: failed to fill whole buffer"@,
        CryptError::SealStream => "Stream encryption error: aead::Error"@,
        CryptError::SealFinal => "Final block encryption error: aead::Error"@,
        CryptError::OpenStream => "Corrupted stream or bad key: aead::Error"@,
        CryptError::OpenFinal => "Corrupted EOF block or bad key: aead::Error"@,
    }
}

impl CryptError {
    /// What the user is told of this error.
    pub fn message(&self) -> (text: String)
        ensures
            text@ == crypt_error_text(*self),
    {
        match self {
            CryptError::KeyLength => "Key must be exactly 32 bytes".to_owned(),
            CryptError::Read(e) => join2("I/O Read error: ", e.as_str()),
            CryptError::Write(e) => e.clone(),
            CryptError::NonceRead(e) => join2("Failed to read stream nonce: ", e.as_str()),
            CryptError::NonceTruncated =>
                "Failed to read stream nonce: failed to fill whole buffer".to_owned(),
            CryptError::SealStream => "Stream encryption error: aead::Error".to_owned(),
            CryptError::SealFinal => "Final block encryption error: aead::Error".to_owned(),
            CryptError::OpenStream => "Corrupted stream or bad key: aead::Error".to_owned(),
            CryptError::OpenFinal => "Corrupted EOF block or bad key: aead::Error".to_owned(),
        }
    }
}

/// One answer of a [`ByteSource`].
#[derive(Debug)]
pub enum ReadOutcome {
    /// Some bytes, or none at the end.
    Data(Vec<u8>),
    /// No bytes yet: the read is to be tried again.
    Interrupted,
    /// The source failed; it says why.
    Failed(String),
}

/// Something that bytes can be read from, a few at a time: some bytes, and then
/// the end or a failure.  A source that says nothing else of itself is taken to
/// be at its end.
pub trait ByteSource: Sized {
    /// The bytes that are still to come, before the end or the failure.
    open spec fn remaining(&self) -> Seq<u8> {
        Seq::empty()
    }

    /// What the source will say of the failure that comes after those bytes;
    /// none where it ends.
    open spec fn failure(&self) -> Option<Seq<char>> {
        None
    }

    /// How many more times the source may be interrupted.
    open spec fn patience(&self) -> nat {
        0
    }

    /// Reads at most `limit` bytes.  No bytes mean the end of the source.
    fn read(&mut self, limit: usize) -> (outcome: ReadOutcome)
        ensures
            final(self).failure() == old(self).failure(),
            match outcome {
                ReadOutcome::Data(bytes) => {
                    &&& bytes@.len() <= limit
                    &&& bytes@.len() <= old(self).remaining().len()
                    &&& bytes@ == old(self).remaining().take(bytes@.len() as int)
                    &&& final(self).remaining() == old(self).remaining().skip(bytes@.len() as int)
                    &&& bytes@.len() == 0 ==> limit == 0 || (old(self).remaining().len() == 0 && old(
                        self,
                    ).failure() is None)
                    &&& final(self).patience() <= old(self).patience()
                },
                ReadOutcome::Interrupted => {
                    &&& final(self).remaining() == old(self).remaining()
                    &&& final(self).patience() < old(self).patience()
                },
                ReadOutcome::Failed(text) => {
                    &&& old(self).remaining().len() == 0
                    &&& old(self).failure() == Some(text@)
                    &&& final(self).remaining().len() == 0
                },
            },
    ;
}

/// Bytes in memory, read from the front.
pub struct SliceSource<'a> {
    bytes: &'a [u8],
    position: usize,
}

impl<'a> SliceSource<'a> {
    #[verifier::type_invariant]
    spec fn within(self) -> bool {
        self.position <= self.bytes@.len()
    }

    /// The bytes of a slice, from its beginning.
    pub fn new(bytes: &'a [u8]) -> (source: Self)
        ensures
            source.remaining() == bytes@,
            source.failure() is None,
    {
        let source = SliceSource { bytes, position: 0 };
        assert(bytes@.skip(0) =~= bytes@);
        source
    }
}

impl<'a> ByteSource for SliceSource<'a> {
    closed spec fn remaining(&self) -> Seq<u8> {
        self.bytes@.skip(self.position as int)
    }

    open spec fn failure(&self) -> Option<Seq<char>> {
        None
    }

    open spec fn patience(&self) -> nat {
        0
    }

    fn read(&mut self, limit: usize) -> (outcome: ReadOutcome) {
        proof {
            use_type_invariant(&*self);
        }
        let left: usize = self.bytes.len() - self.position;
        let count: usize = if limit < left {
            limit
        } else {
            left
        };
        let start: usize = self.position;
        let data = slice_to_vec(slice_subrange(self.bytes, start, start + count));
        self.position = start + count;
        proof {
            assert(data@ =~= old(self).remaining().take(count as int));
            assert(self.remaining() =~= old(self).remaining().skip(count as int));
        }
        ReadOutcome::Data(data)
    }
}

/// How many more bytes a sink takes before it fails, and what it then says; none
/// where it never fails.
pub type Room = Option<(nat, Seq<char>)>;

/// Whether so many bytes go into the room of a sink.
pub open spec fn fits(room: Room, length: nat) -> bool {
    match room {
        Some((left, _)) => length <= left,
        None => true,
    }
}

/// The room of a sink after so many more bytes.
pub open spec fn less(room: Room, length: nat) -> Room {
    match room {
        Some((left, reason)) => Some(((left - length) as nat, reason)),
        None => None,
    }
}

/// Something that bytes can be written to.  A sink takes bytes, all of them or
/// those before it fails.
pub trait ByteSink: Sized {
    /// The bytes that it took.
    open spec fn written(&self) -> Seq<u8> {
        Seq::empty()
    }

    /// How many more it takes.
    open spec fn room(&self) -> Room {
        None
    }

    /// Writes all of `bytes`, or says why not.
    fn write_all(&mut self, bytes: &[u8]) -> (outcome: Result<(), String>)
        ensures
            match outcome {
                Ok(_) => {
                    &&& fits(old(self).room(), bytes@.len())
                    &&& final(self).written() == old(self).written() + bytes@
                    &&& final(self).room() == less(old(self).room(), bytes@.len())
                },
                Err(text) => {
                    &&& old(self).room() matches Some((left, reason))
                    &&& left < bytes@.len()
                    &&& text@ == reason
                    &&& final(self).written() == old(self).written() + bytes@.take(left as int)
                },
            },
    ;
}

impl ByteSink for Vec<u8> {
    open spec fn written(&self) -> Seq<u8> {
        self@
    }

    open spec fn room(&self) -> Room {
        None
    }

    fn write_all(&mut self, bytes: &[u8]) -> (outcome: Result<(), String>) {
        self.extend_from_slice(bytes);
        assert(self@ =~= old(self)@ + bytes@);
        Ok(())
    }
}

/// Whether the sink failed where `output` was to be written to it: it says so
/// with `e`, and took what there was room for.
pub open spec fn sink_fails(
    e: CryptError,
    output: Seq<u8>,
    room: Room,
    before: Seq<u8>,
    after: Seq<u8>,
) -> bool {
    &&& room matches Some((left, reason))
    &&& left < output.len()
    &&& e matches CryptError::Write(text)
    &&& text@ == reason
    &&& after == before + output.take(left as int)
}

/// The sink failed at a block, and so at the whole output, which that block is
/// part of.
proof fn lemma_sink_fails(
    output: Seq<u8>,
    out: Seq<u8>,
    block: Seq<u8>,
    room: Room,
    before: Seq<u8>,
    after: Seq<u8>,
)
    requires
        (out + block).is_prefix_of(output),
        fits(room, out.len()),
        room matches Some((left, _)) && left < out.len() + block.len() && after == before + out
            + block.take(left - out.len()),
    ensures
        after == before + output.take(room->Some_0.0 as int),
        room->Some_0.0 < output.len(),
{
    let left = room->Some_0.0 as int;
    assert(output.take(left) =~= out + block.take(left - out.len())) by {
        assert forall|i: int| 0 <= i < left implies output[i] == (out + block)[i] by {}
    }
    assert(after =~= before + output.take(left));
}

/// The first `limit` bytes of `bytes`, or all of them where there are fewer.
pub open spec fn front(bytes: Seq<u8>, limit: int) -> Seq<u8> {
    if bytes.len() <= limit {
        bytes
    } else {
        bytes.take(limit)
    }
}

/// What follows the first `limit` bytes of `bytes`.
pub open spec fn rest(bytes: Seq<u8>, limit: int) -> Seq<u8> {
    if bytes.len() <= limit {
        Seq::empty()
    } else {
        bytes.skip(limit)
    }
}

/// What fails where `limit` bytes are read of bytes that `failure` follows: a
/// failure that comes before the limit.
pub open spec fn read_failure(
    bytes: Seq<u8>,
    failure: Option<Seq<char>>,
    limit: int,
) -> Option<Seq<char>> {
    if bytes.len() < limit {
        failure
    } else {
        None
    }
}

/// Keeps reading until `limit` bytes are there or the source has ended or
/// failed: neither a short read nor an interruption ends the block.
pub fn read_up_to<R: ByteSource>(source: &mut R, limit: usize) -> (block: Result<
    Vec<u8>,
    CryptError,
>)
    ensures
        final(source).failure() == old(source).failure(),
        final(source).remaining() == rest(old(source).remaining(), limit as int),
        match block {
            Ok(bytes) => {
                &&& bytes@ == front(old(source).remaining(), limit as int)
                &&& read_failure(
                    old(source).remaining(),
                    old(source).failure(),
                    limit as int,
                ) is None
            },
            Err(e) => e matches CryptError::Read(text) && read_failure(
                old(source).remaining(),
                old(source).failure(),
                limit as int,
            ) == Some(text@),
        },
{
    let mut block: Vec<u8> = Vec::new();
    let ghost all = source.remaining();
    let mut ended = false;
    assert(all.take(0) =~= block@);
    assert(all.skip(0) =~= all);
    while block.len() < limit && !ended
        invariant
            block@.len() <= limit,
            block@.len() <= all.len(),
            block@ == all.take(block@.len() as int),
            source.remaining() == all.skip(block@.len() as int),
            ended ==> block@.len() == all.len() && source.failure() is None,
            source.failure() == old(source).failure(),
            all == old(source).remaining(),
        decreases (if ended { 0nat } else { 1nat }), limit - block@.len(), source.patience(),
    {
        let wanted: usize = limit - block.len();
        match source.read(wanted) {
            ReadOutcome::Data(bytes) => {
                if bytes.len() == 0 {
                    ended = true;
                    assert(all.skip(block@.len() as int).skip(0) =~= all.skip(block@.len() as int));
                } else {
                    let ghost before = block@;
                    block.extend_from_slice(bytes.as_slice());
                    assert(block@ =~= all.take(block@.len() as int));
                    assert(all.skip(before.len() as int).skip(bytes@.len() as int) =~= all.skip(
                        block@.len() as int,
                    ));
                    let mut bytes = bytes;
                    wipe(&mut bytes);
                }
            },
            ReadOutcome::Interrupted => {},
            ReadOutcome::Failed(text) => {
                wipe(&mut block);
                return Err(CryptError::Read(text));
            },
        }
    }
    proof {
        if all.len() <= limit {
            assert(all.take(all.len() as int) =~= all);
            assert(all.skip(all.len() as int) =~= Seq::<u8>::empty());
        }
    }
    Ok(block)
}

/// The sealed form of `plaintext` from block `position` on.
pub open spec fn sealed_blocks(
    key: Seq<u8>,
    nonce: Seq<u8>,
    position: nat,
    plaintext: Seq<u8>,
) -> Seq<u8>
    decreases plaintext.len(),
{
    if plaintext.len() < CHUNK_SIZE {
        crate::outside::stream_sealed(key, nonce, position as u32, true, plaintext)
    } else {
        crate::outside::stream_sealed(
            key,
            nonce,
            position as u32,
            false,
            plaintext.take(CHUNK_SIZE as int),
        ) + sealed_blocks(key, nonce, position + 1, plaintext.skip(CHUNK_SIZE as int))
    }
}

/// What the sealed blocks in `ciphertext` hold, from block `position` on.  The
/// block counter has 32 bits, and its last value is kept for a last block.
pub open spec fn opened_blocks(
    key: Seq<u8>,
    nonce: Seq<u8>,
    position: nat,
    ciphertext: Seq<u8>,
) -> Result<Seq<u8>, CryptError>
    decreases ciphertext.len(),
{
    let full = (CHUNK_SIZE + TAG_SIZE) as int;
    if ciphertext.len() < full {
        match crate::outside::stream_opened(key, nonce, position as u32, true, ciphertext) {
            Some(block) => Ok(block),
            None => Err(CryptError::OpenFinal),
        }
    } else if position >= u32::MAX {
        Err(CryptError::OpenStream)
    } else {
        match crate::outside::stream_opened(
            key,
            nonce,
            position as u32,
            false,
            ciphertext.take(full),
        ) {
            None => Err(CryptError::OpenStream),
            Some(block) => match opened_blocks(
                key,
                nonce,
                position + 1,
                ciphertext.skip(full),
            ) {
                Err(e) => Err(e),
                Ok(later) => Ok(block + later),
            },
        }
    }
}

/// The sealed form of the full blocks of `plaintext` from block `position` on, as
/// far as the block counter goes.
pub open spec fn sealed_front(
    key: Seq<u8>,
    nonce: Seq<u8>,
    position: nat,
    plaintext: Seq<u8>,
) -> Seq<u8>
    decreases plaintext.len(),
{
    if plaintext.len() < CHUNK_SIZE || position >= u32::MAX {
        Seq::empty()
    } else {
        crate::outside::stream_sealed(
            key,
            nonce,
            position as u32,
            false,
            plaintext.take(CHUNK_SIZE as int),
        ) + sealed_front(key, nonce, position + 1, plaintext.skip(CHUNK_SIZE as int))
    }
}

/// Whether all full blocks in `ciphertext` open, from block `position` on.
pub open spec fn full_blocks_open(
    key: Seq<u8>,
    nonce: Seq<u8>,
    position: nat,
    ciphertext: Seq<u8>,
) -> bool
    decreases ciphertext.len(),
{
    let full = (CHUNK_SIZE + TAG_SIZE) as int;
    if ciphertext.len() < full {
        true
    } else {
        &&& position < u32::MAX
        &&& crate::outside::stream_opened(
            key,
            nonce,
            position as u32,
            false,
            ciphertext.take(full),
        ) is Some
        &&& full_blocks_open(key, nonce, position + 1, ciphertext.skip(full))
    }
}

/// What the full blocks in `ciphertext` hold, from block `position` on, up to the
/// first that does not open.
pub open spec fn opened_front(
    key: Seq<u8>,
    nonce: Seq<u8>,
    position: nat,
    ciphertext: Seq<u8>,
) -> Seq<u8>
    decreases ciphertext.len(),
{
    let full = (CHUNK_SIZE + TAG_SIZE) as int;
    if ciphertext.len() < full || position >= u32::MAX {
        Seq::empty()
    } else {
        match crate::outside::stream_opened(
            key,
            nonce,
            position as u32,
            false,
            ciphertext.take(full),
        ) {
            None => Seq::empty(),
            Some(block) => block + opened_front(key, nonce, position + 1, ciphertext.skip(full)),
        }
    }
}

/// Where block `position` begins in the plaintext.
pub open spec fn block_start(position: nat) -> int {
    position as int * 0x1_0000
}

/// Whether a plaintext of this length has few enough full blocks for the block
/// counter.
pub open spec fn countable(length: nat) -> bool {
    length < block_start(0x1_0000_0000)
}

/// How long the sealed form of a plaintext is: each block carries a tag.
pub open spec fn sealed_length(length: nat) -> nat {
    length + 16 * (length / 0x1_0000 + 1)
}

/// The plaintext of a stored file under `key`, or why there is none.
pub open spec fn decrypted(stored: Seq<u8>, key: Seq<u8>) -> Result<Seq<u8>, CryptError> {
    if key.len() != STREAM_KEY_SIZE {
        Err(CryptError::KeyLength)
    } else if stored.len() < STREAM_NONCE_SIZE {
        Err(CryptError::NonceTruncated)
    } else {
        opened_blocks(key, nonce_of(stored), 0, body_of(stored))
    }
}

/// The nonce of a stored file.
pub open spec fn nonce_of(stored: Seq<u8>) -> Seq<u8> {
    stored.take(STREAM_NONCE_SIZE as int)
}

/// The sealed blocks of a stored file.
pub open spec fn body_of(stored: Seq<u8>) -> Seq<u8> {
    stored.skip(STREAM_NONCE_SIZE as int)
}

/// A full block in front of an opening stream opens to its plaintext in front.
proof fn lemma_open_full_block(
    key: Seq<u8>,
    nonce: Seq<u8>,
    position: nat,
    block: Seq<u8>,
    sealed: Seq<u8>,
    later: Seq<u8>,
)
    requires
        position < u32::MAX,
        sealed.len() == CHUNK_SIZE + TAG_SIZE,
        crate::outside::stream_opened(key, nonce, position as u32, false, sealed) == Some(block),
        opened_blocks(key, nonce, position + 1, later) is Ok,
    ensures
        opened_blocks(key, nonce, position, sealed + later) == Ok::<Seq<u8>, CryptError>(
            block + opened_blocks(key, nonce, position + 1, later)->Ok_0,
        ),
{
    let full = (CHUNK_SIZE + TAG_SIZE) as int;
    assert((sealed + later).take(full) =~= sealed);
    assert((sealed + later).skip(full) =~= later);
}

/// What the sealing of `plaintext`, which `failure` follows, puts out: all
/// blocks, or the full blocks where the source fails or there are too many.
pub open spec fn sealed_output(
    key: Seq<u8>,
    nonce: Seq<u8>,
    plaintext: Seq<u8>,
    failure: Option<Seq<char>>,
) -> Seq<u8> {
    if countable(plaintext.len()) && failure is None {
        sealed_blocks(key, nonce, 0, plaintext)
    } else {
        sealed_front(key, nonce, 0, plaintext)
    }
}

/// How many bytes the sealing of a plaintext of this length, which `failure`
/// follows, puts out.
pub open spec fn sealed_output_length(length: nat, failure: Option<Seq<char>>) -> nat {
    if countable(length) && failure is None {
        sealed_length(length)
    } else if length / 0x1_0000 <= u32::MAX {
        length / 0x1_0000 * 0x1_0010
    } else {
        u32::MAX as nat * 0x1_0010
    }
}

/// Seals everything that `source` still holds, under the given nonce, and
/// writes it to `dest`.
pub fn encrypt_stream<R: ByteSource, W: ByteSink>(
    source: &mut R,
    dest: &mut W,
    key: &[u8],
    nonce: &[u8],
) -> (outcome: Result<(), CryptError>)
    requires
        key@.len() == STREAM_KEY_SIZE,
        nonce@.len() == STREAM_NONCE_SIZE,
    ensures
        old(dest).written().is_prefix_of(final(dest).written()),
        outcome is Ok || !(outcome->Err_0 is Write) ==> {
            let output = sealed_output(
                key@,
                nonce@,
                old(source).remaining(),
                old(source).failure(),
            );
            &&& output.len() == sealed_output_length(
                old(source).remaining().len(),
                old(source).failure(),
            )
            &&& fits(old(dest).room(), output.len())
            &&& final(dest).written() == old(dest).written() + output
            &&& final(dest).room() == less(old(dest).room(), output.len())
        },
        match outcome {
            Ok(_) => {
                let plaintext = old(source).remaining();
                let sealed = sealed_blocks(key@, nonce@, 0, plaintext);
                &&& countable(plaintext.len())
                &&& old(source).failure() is None
                &&& sealed.len() == sealed_length(plaintext.len())
                &&& opened_blocks(key@, nonce@, 0, sealed) == Ok::<Seq<u8>, CryptError>(plaintext)
                &&& final(source).remaining().len() == 0
            },
            Err(e) => if e is Write {
                &&& sink_fails(
                    e,
                    sealed_output(key@, nonce@, old(source).remaining(), old(source).failure()),
                    old(dest).room(),
                    old(dest).written(),
                    final(dest).written(),
                )
                &&& !fits(
                    old(dest).room(),
                    sealed_output_length(old(source).remaining().len(), old(source).failure()),
                )
            } else if countable(old(source).remaining().len()) {
                e matches CryptError::Read(text) && old(source).failure() == Some(text@)
            } else {
                e == CryptError::SealStream
            },
        },
{
    let ghost all = source.remaining();
    let ghost start = dest.written();
    let ghost output = sealed_output(key@, nonce@, all, source.failure());
    let ghost mut out = Seq::<u8>::empty();
    let mut position: u32 = 0;
    proof {
        assert(all.skip(0) =~= all);
        assert(all.take(0) =~= Seq::<u8>::empty());
        assert(dest.written() =~= start + out);
        assert(sealed_blocks(key@, nonce@, 0, all) =~= out + sealed_blocks(key@, nonce@, 0, all));
        assert(sealed_front(key@, nonce@, 0, all) =~= out + sealed_front(key@, nonce@, 0, all));
        assert forall|ct: Seq<u8>| #[trigger]
            opened_blocks(key@, nonce@, 0, ct) is Ok implies opened_blocks(key@, nonce@, 0, out + ct)
            == Ok::<Seq<u8>, CryptError>(
            all.take(0) + opened_blocks(key@, nonce@, 0, ct)->Ok_0,
        ) by {
            assert(out + ct =~= ct);
            assert(all.take(0) + opened_blocks(key@, nonce@, 0, ct)->Ok_0 =~= opened_blocks(
                key@,
                nonce@,
                0,
                ct,
            )->Ok_0);
        }
    }
    loop
        invariant
            key@.len() == STREAM_KEY_SIZE,
            nonce@.len() == STREAM_NONCE_SIZE,
            all == old(source).remaining(),
            source.failure() == old(source).failure(),
            output == sealed_output(key@, nonce@, all, source.failure()),
            start == old(dest).written(),
            dest.written() == start + out,
            fits(old(dest).room(), out.len()),
            dest.room() == less(old(dest).room(), out.len()),
            out.len() == position * 0x1_0010,
            block_start(position as nat) <= all.len(),
            source.remaining() == all.skip(block_start(position as nat)),
            sealed_blocks(key@, nonce@, 0, all) == out + sealed_blocks(
                key@,
                nonce@,
                position as nat,
                all.skip(block_start(position as nat)),
            ),
            sealed_front(key@, nonce@, 0, all) == out + sealed_front(
                key@,
                nonce@,
                position as nat,
                all.skip(block_start(position as nat)),
            ),
            forall|ct: Seq<u8>| #[trigger]
                opened_blocks(key@, nonce@, position as nat, ct) is Ok ==> opened_blocks(
                    key@,
                    nonce@,
                    0,
                    out + ct,
                ) == Ok::<Seq<u8>, CryptError>(
                    all.take(block_start(position as nat)) + opened_blocks(
                        key@,
                        nonce@,
                        position as nat,
                        ct,
                    )->Ok_0,
                ),
        decreases all.len() - block_start(position as nat),
    {
        let ghost left = source.remaining();
        let mut block = match read_up_to(source, CHUNK_SIZE) {
            Ok(block) => block,
            Err(e) => {
                assert(countable(all.len())) by {
                    assert(all.len() < block_start((position + 1) as nat));
                }
                assert(out + sealed_front(key@, nonce@, position as nat, left) =~= out);
                return Err(e);
            },
        };
        let ghost held = block@;
        if block.len() == CHUNK_SIZE {
            if position == u32::MAX {
                assert(out + sealed_front(key@, nonce@, position as nat, left) =~= out);
                wipe(&mut block);
                return Err(CryptError::SealStream);
            }
            let sealed = match stream_seal(key, nonce, position, false, block.as_slice()) {
                Some(sealed) => sealed,
                None => {
                    wipe(&mut block);
                    return Err(CryptError::SealStream);
                },
            };
            wipe(&mut block);
            proof {
                assert(held =~= left.take(CHUNK_SIZE as int));
                let later = sealed_blocks(
                    key@,
                    nonce@,
                    (position + 1) as nat,
                    left.skip(CHUNK_SIZE as int),
                );
                let later_front = sealed_front(
                    key@,
                    nonce@,
                    (position + 1) as nat,
                    left.skip(CHUNK_SIZE as int),
                );
                assert(out + (sealed@ + later) =~= out + sealed@ + later);
                assert(out + (sealed@ + later_front) =~= out + sealed@ + later_front);
                assert((out + sealed@).is_prefix_of(output));
            }
            if let Err(e) = dest.write_all(sealed.as_slice()) {
                proof {
                    let room = old(dest).room();
                    lemma_sink_fails(output, out, sealed@, room, start, dest.written());
                }
                return Err(CryptError::Write(e));
            }
            proof {
                let here = position as nat;
                let at = block_start(position as nat);
                assert(held =~= left.take(CHUNK_SIZE as int));
                assert(rest(left, CHUNK_SIZE as int) =~= left.skip(CHUNK_SIZE as int));
                assert(left.skip(CHUNK_SIZE as int) =~= all.skip(at + CHUNK_SIZE));
                assert(sealed_blocks(key@, nonce@, here, left) == sealed@ + sealed_blocks(
                    key@,
                    nonce@,
                    here + 1,
                    all.skip(at + CHUNK_SIZE),
                ));
                let grown = out + sealed@;
                assert(dest.written() =~= start + grown);
                assert(sealed_blocks(key@, nonce@, 0, all) =~= grown + sealed_blocks(
                    key@,
                    nonce@,
                    here + 1,
                    all.skip(at + CHUNK_SIZE),
                ));
                assert(sealed_front(key@, nonce@, 0, all) =~= grown + sealed_front(
                    key@,
                    nonce@,
                    here + 1,
                    all.skip(at + CHUNK_SIZE),
                ));
                assert forall|ct: Seq<u8>| #[trigger]
                    opened_blocks(key@, nonce@, here + 1, ct) is Ok implies opened_blocks(
                    key@,
                    nonce@,
                    0,
                    grown + ct,
                ) == Ok::<Seq<u8>, CryptError>(
                    all.take(at + CHUNK_SIZE) + opened_blocks(key@, nonce@, here + 1, ct)->Ok_0,
                ) by {
                    lemma_open_full_block(key@, nonce@, here, held, sealed@, ct);
                    assert(grown + ct =~= out + (sealed@ + ct));
                    let tail = opened_blocks(key@, nonce@, here + 1, ct)->Ok_0;
                    assert(all.take(at) + (held + tail) =~= all.take(at + CHUNK_SIZE) + tail);
                }
                out = grown;
            }
            position = position + 1;
        } else {
            let sealed = match stream_seal(key, nonce, position, true, block.as_slice()) {
                Some(sealed) => sealed,
                None => {
                    wipe(&mut block);
                    return Err(CryptError::SealFinal);
                },
            };
            wipe(&mut block);
            proof {
                assert(held == left);
                assert(countable(all.len())) by {
                    assert(all.len() < block_start((position + 1) as nat));
                }
                assert(output == out + sealed@);
                assert((out + sealed@).is_prefix_of(output));
            }
            if let Err(e) = dest.write_all(sealed.as_slice()) {
                proof {
                    let room = old(dest).room();
                    lemma_sink_fails(output, out, sealed@, room, start, dest.written());
                }
                return Err(CryptError::Write(e));
            }
            proof {
                let at = block_start(position as nat);
                assert(opened_blocks(key@, nonce@, position as nat, sealed@) == Ok::<
                    Seq<u8>,
                    CryptError,
                >(left));
                assert(all.take(at) + left =~= all);
                assert(dest.written() =~= start + (out + sealed@));
                assert(all.len() / 0x1_0000 == position);
            }
            return Ok(());
        }
    }
}

/// Whether `e` is why sealed blocks that `failure` follows did not open: a full
/// block that does not open comes first, then the failure, and then a last block
/// that does not open.
pub open spec fn opening_fails(
    e: CryptError,
    opened: Result<Seq<u8>, CryptError>,
    full_blocks_open: bool,
    failure: Option<Seq<char>>,
) -> bool {
    match failure {
        Some(reason) if full_blocks_open => e matches CryptError::Read(text) && text@ == reason,
        _ => {
            &&& opened == Err::<Seq<u8>, CryptError>(e)
            &&& e == if full_blocks_open {
                CryptError::OpenFinal
            } else {
                CryptError::OpenStream
            }
        },
    }
}

/// What the opening of `ciphertext`, which `failure` follows, puts out: the whole
/// plaintext, or that of the full blocks up to the first that does not open.
pub open spec fn opened_output(
    key: Seq<u8>,
    nonce: Seq<u8>,
    ciphertext: Seq<u8>,
    failure: Option<Seq<char>>,
) -> Seq<u8> {
    match opened_blocks(key, nonce, 0, ciphertext) {
        Ok(plaintext) if failure is None => plaintext,
        _ => opened_front(key, nonce, 0, ciphertext),
    }
}

/// How long the plaintext of so many bytes of sealed blocks is, where all open.
pub open spec fn opened_length(length: nat) -> nat {
    let last = length % 0x1_0010;
    length / 0x1_0010 * 0x1_0000 + if last < 16 {
        0
    } else {
        (last - 16) as nat
    }
}

/// Opens the sealed blocks that `source` still holds, under the given nonce,
/// and writes their plaintext to `dest`.
pub fn decrypt_stream<R: ByteSource, W: ByteSink>(
    source: &mut R,
    dest: &mut W,
    key: &[u8],
    nonce: &[u8],
) -> (outcome: Result<(), CryptError>)
    requires
        key@.len() == STREAM_KEY_SIZE,
        nonce@.len() == STREAM_NONCE_SIZE,
    ensures
        old(dest).written().is_prefix_of(final(dest).written()),
        outcome is Ok || !(outcome->Err_0 is Write) ==> {
            let output = opened_output(
                key@,
                nonce@,
                old(source).remaining(),
                old(source).failure(),
            );
            &&& fits(old(dest).room(), output.len())
            &&& final(dest).written() == old(dest).written() + output
            &&& final(dest).room() == less(old(dest).room(), output.len())
        },
        match outcome {
            Ok(_) => {
                let opened = opened_blocks(key@, nonce@, 0, old(source).remaining());
                &&& old(source).failure() is None
                &&& opened is Ok
                &&& final(source).remaining().len() == 0
                &&& old(source).remaining().len() == sealed_length(opened->Ok_0.len())
            },
            Err(e) => if e is Write {
                &&& sink_fails(
                    e,
                    opened_output(key@, nonce@, old(source).remaining(), old(source).failure()),
                    old(dest).room(),
                    old(dest).written(),
                    final(dest).written(),
                )
                &&& !fits(old(dest).room(), opened_length(old(source).remaining().len()))
            } else {
                opening_fails(
                    e,
                    opened_blocks(key@, nonce@, 0, old(source).remaining()),
                    full_blocks_open(key@, nonce@, 0, old(source).remaining()),
                    old(source).failure(),
                )
            },
        },
{
    let ghost all = source.remaining();
    let ghost start = dest.written();
    let ghost output = opened_output(key@, nonce@, all, source.failure());
    let ghost mut out = Seq::<u8>::empty();
    let mut position: u32 = 0;
    assert(dest.written() =~= start + out);
    proof {
        let whole = opened_blocks(key@, nonce@, 0, all);
        if whole is Ok {
            assert(out + whole->Ok_0 =~= whole->Ok_0);
        }
        let front = opened_front(key@, nonce@, 0, all);
        assert(out + front =~= front);
    }
    loop
        invariant
            key@.len() == STREAM_KEY_SIZE,
            nonce@.len() == STREAM_NONCE_SIZE,
            all == old(source).remaining(),
            source.failure() == old(source).failure(),
            output == opened_output(key@, nonce@, all, source.failure()),
            start == old(dest).written(),
            dest.written() == start + out,
            fits(old(dest).room(), out.len()),
            dest.room() == less(old(dest).room(), out.len()),
            opened_blocks(key@, nonce@, 0, all) == (match opened_blocks(
                key@,
                nonce@,
                position as nat,
                source.remaining(),
            ) {
                Ok(later) => Ok::<Seq<u8>, CryptError>(out + later),
                Err(e) => Err(e),
            }),
            opened_front(key@, nonce@, 0, all) == out + opened_front(
                key@,
                nonce@,
                position as nat,
                source.remaining(),
            ),
            full_blocks_open(key@, nonce@, 0, all) == full_blocks_open(
                key@,
                nonce@,
                position as nat,
                source.remaining(),
            ),
            out.len() == position * 0x1_0000,
            all.len() == position * 0x1_0010 + source.remaining().len(),
        decreases source.remaining().len(),
    {
        let ghost left = source.remaining();
        let block = match read_up_to(source, CHUNK_SIZE + TAG_SIZE) {
            Ok(block) => block,
            Err(e) => {
                assert(out + opened_front(key@, nonce@, position as nat, left) =~= out);
                return Err(e);
            },
        };
        let ghost full = (CHUNK_SIZE + TAG_SIZE) as int;
        if block.len() == CHUNK_SIZE + TAG_SIZE {
            proof {
                assert(block@ =~= left.take(full));
                assert(source.remaining() =~= left.skip(full));
            }
            if position == u32::MAX {
                assert(out + opened_front(key@, nonce@, position as nat, left) =~= out);
                return Err(CryptError::OpenStream);
            }
            let mut plain = match stream_open(key, nonce, position, false, block.as_slice()) {
                Some(plain) => plain,
                None => {
                    assert(out + opened_front(key@, nonce@, position as nat, left) =~= out);
                    return Err(CryptError::OpenStream);
                },
            };
            let ghost held = plain@;
            let written = dest.write_all(plain.as_slice());
            wipe(&mut plain);
            proof {
                let later = opened_blocks(key@, nonce@, (position + 1) as nat, left.skip(full));
                if later is Ok {
                    assert(out + (held + later->Ok_0) =~= out + held + later->Ok_0);
                }
                let front = opened_front(key@, nonce@, (position + 1) as nat, left.skip(full));
                assert(out + (held + front) =~= out + held + front);
                assert((out + held).is_prefix_of(output));
            }
            if let Err(e) = written {
                proof {
                    let room = old(dest).room();
                    lemma_sink_fails(output, out, held, room, start, dest.written());
                }
                return Err(CryptError::Write(e));
            }
            proof {
                out = out + held;
                assert(dest.written() =~= start + out);
            }
            position = position + 1;
        } else {
            assert(block@ == left);
            let mut plain = match stream_open(key, nonce, position, true, block.as_slice()) {
                Some(plain) => plain,
                None => {
                    assert(out + opened_front(key@, nonce@, position as nat, left) =~= out);
                    return Err(CryptError::OpenFinal);
                },
            };
            let ghost held = plain@;
            let written = dest.write_all(plain.as_slice());
            wipe(&mut plain);
            assert(output == out + held);
            if let Err(e) = written {
                proof {
                    assert((out + held).is_prefix_of(output));
                    let room = old(dest).room();
                    lemma_sink_fails(output, out, held, room, start, dest.written());
                }
                return Err(CryptError::Write(e));
            }
            assert(dest.written() =~= start + (out + held));
            assert((out + held).len() / 0x1_0000 == position);
            return Ok(());
        }
    }
}

/// Whether `stored` is a file that holds `plaintext` under `key`: a nonce, and
/// the blocks sealed under it.
pub open spec fn encrypts(stored: Seq<u8>, key: Seq<u8>, plaintext: Seq<u8>) -> bool {
    &&& stored.len() == STREAM_NONCE_SIZE + sealed_length(plaintext.len())
    &&& body_of(stored) == sealed_blocks(key, nonce_of(stored), 0, plaintext)
    &&& decrypted(stored, key) == Ok::<Seq<u8>, CryptError>(plaintext)
}

/// Whether the sink failed at a file that would hold what the sealing of
/// `plaintext`, which `failure` follows, puts out: under some nonce, it took what
/// there was room for.
pub open spec fn sink_fails_at_file(
    e: CryptError,
    key: Seq<u8>,
    plaintext: Seq<u8>,
    failure: Option<Seq<char>>,
    room: Room,
    before: Seq<u8>,
    after: Seq<u8>,
) -> bool {
    exists|nonce: Seq<u8>|
        nonce.len() == STREAM_NONCE_SIZE && sink_fails(
            e,
            nonce + #[trigger] sealed_output(key, nonce, plaintext, failure),
            room,
            before,
            after,
        )
}

/// Whether `written` is the beginning of a file that would hold `plaintext` under
/// `key`: a nonce, and the full blocks sealed under it.
pub open spec fn encrypts_front(written: Seq<u8>, key: Seq<u8>, plaintext: Seq<u8>) -> bool {
    &&& written.len() >= STREAM_NONCE_SIZE
    &&& body_of(written) == sealed_front(key, nonce_of(written), 0, plaintext)
}

/// Pipes all of `source` through the stream cipher and writes the result to
/// `dest`.
///
/// What encryption writes differs from call to call, with the nonce; whatever
/// the nonce, decryption under the same key gives the plaintext back.
pub fn pipe_crypto<R: ByteSource, W: ByteSink>(
    source: &mut R,
    dest: &mut W,
    key: &[u8],
    mode: CryptoMode,
) -> (outcome: Result<(), CryptError>)
    ensures
        old(dest).written().is_prefix_of(final(dest).written()),
        key@.len() != STREAM_KEY_SIZE ==> outcome == Err::<(), CryptError>(CryptError::KeyLength)
            && *final(dest) == *old(dest) && *final(source) == *old(source),
        outcome is Ok ==> final(source).remaining().len() == 0,
        outcome is Ok || !(outcome->Err_0 is Write) ==> {
            let length = (final(dest).written().len() - old(dest).written().len()) as nat;
            &&& fits(old(dest).room(), length)
            &&& final(dest).room() == less(old(dest).room(), length)
        },
        key@.len() == STREAM_KEY_SIZE && mode is Encrypt ==> {
            let plaintext = old(source).remaining();
            let written = final(dest).written().skip(old(dest).written().len() as int);
            match outcome {
                Ok(_) => {
                    &&& countable(plaintext.len())
                    &&& old(source).failure() is None
                    &&& encrypts(written, key@, plaintext)
                },
                Err(e) => if e is Write {
                    &&& sink_fails_at_file(
                        e,
                        key@,
                        plaintext,
                        old(source).failure(),
                        old(dest).room(),
                        old(dest).written(),
                        final(dest).written(),
                    )
                    &&& !fits(
                        old(dest).room(),
                        STREAM_NONCE_SIZE as nat + sealed_output_length(
                            plaintext.len(),
                            old(source).failure(),
                        ),
                    )
                } else {
                    &&& encrypts_front(written, key@, plaintext)
                    &&& if countable(plaintext.len()) {
                        e matches CryptError::Read(text) && old(source).failure() == Some(text@)
                    } else {
                        e == CryptError::SealStream
                    }
                },
            }
        },
        key@.len() == STREAM_KEY_SIZE && mode is Decrypt && old(source).remaining().len()
            < STREAM_NONCE_SIZE ==> {
            &&& *final(dest) == *old(dest)
            &&& match old(source).failure() {
                None => outcome == Err::<(), CryptError>(CryptError::NonceTruncated),
                Some(reason) => outcome matches Err(CryptError::NonceRead(text)) && text@ == reason,
            }
        },
        key@.len() == STREAM_KEY_SIZE && mode is Decrypt && old(source).remaining().len()
            >= STREAM_NONCE_SIZE ==> {
            let stored = old(source).remaining();
            let plaintext = decrypted(stored, key@);
            match outcome {
                Ok(_) => {
                    &&& old(source).failure() is None
                    &&& plaintext is Ok
                    &&& final(dest).written() == old(dest).written() + plaintext->Ok_0
                    &&& stored.len() == STREAM_NONCE_SIZE + sealed_length(plaintext->Ok_0.len())
                },
                Err(e) => if e is Write {
                    &&& sink_fails(
                        e,
                        opened_output(
                            key@,
                            nonce_of(stored),
                            body_of(stored),
                            old(source).failure(),
                        ),
                        old(dest).room(),
                        old(dest).written(),
                        final(dest).written(),
                    )
                    &&& !fits(old(dest).room(), opened_length(body_of(stored).len()))
                } else {
                    &&& final(dest).written() == old(dest).written() + opened_front(
                        key@,
                        nonce_of(stored),
                        0,
                        body_of(stored),
                    )
                    &&& opening_fails(
                        e,
                        plaintext,
                        full_blocks_open(key@, nonce_of(stored), 0, body_of(stored)),
                        old(source).failure(),
                    )
                },
            }
        },
{
    if key.len() != STREAM_KEY_SIZE {
        return Err(CryptError::KeyLength);
    }
    let ghost start = dest.written();
    let ghost room = dest.room();
    let ghost all = source.remaining();
    match mode {
        CryptoMode::Encrypt => {
            let nonce = random_bytes(STREAM_NONCE_SIZE);
            let ghost sealed = sealed_output(key@, nonce@, all, source.failure());
            if let Err(e) = dest.write_all(nonce.as_slice()) {
                proof {
                    let none = Seq::<u8>::empty();
                    assert(none + nonce@ =~= nonce@);
                    assert(start + none =~= start);
                    lemma_sink_fails(nonce@ + sealed, none, nonce@, room, start, dest.written());
                }
                return Err(CryptError::Write(e));
            }
            let ghost headed = dest.written();
            let outcome = encrypt_stream(source, dest, key, nonce.as_slice());
            proof {
                assert(start.is_prefix_of(headed));
                if outcome is Err && outcome->Err_0 is Write {
                    let left = room->Some_0.0;
                    assert((nonce@ + sealed).take(left as int) =~= nonce@ + sealed.take(
                        left - nonce@.len(),
                    ));
                    assert(dest.written() =~= start + (nonce@ + sealed).take(left as int));
                } else {
                    let stored = dest.written().skip(start.len() as int);
                    assert(stored =~= nonce@ + sealed);
                    assert(nonce_of(stored) =~= nonce@);
                    assert(body_of(stored) =~= sealed);
                }
            }
            outcome
        },
        CryptoMode::Decrypt => {
            let nonce = match read_up_to(source, STREAM_NONCE_SIZE) {
                Ok(nonce) => nonce,
                Err(CryptError::Read(text)) => return Err(CryptError::NonceRead(text)),
                Err(e) => return Err(e),
            };
            if nonce.len() < STREAM_NONCE_SIZE {
                return Err(CryptError::NonceTruncated);
            }
            proof {
                assert(nonce@ =~= all.take(STREAM_NONCE_SIZE as int));
                assert(source.remaining() =~= all.skip(STREAM_NONCE_SIZE as int));
            }
            decrypt_stream(source, dest, key, nonce.as_slice())
        },
    }
}

/// Encrypts bytes in memory.
pub fn encrypt_bytes(plaintext: &[u8], key: &[u8]) -> (stored: Result<Vec<u8>, CryptError>)
    ensures
        match stored {
            Ok(bytes) => {
                &&& key@.len() == STREAM_KEY_SIZE
                &&& countable(plaintext@.len())
                &&& encrypts(bytes@, key@, plaintext@)
            },
            Err(CryptError::KeyLength) => key@.len() != STREAM_KEY_SIZE,
            Err(e) => {
                &&& e == CryptError::SealStream
                &&& key@.len() == STREAM_KEY_SIZE
                &&& !countable(plaintext@.len())
            },
        },
{
    let mut output: Vec<u8> = Vec::new();
    let mut source = SliceSource::new(plaintext);
    match pipe_crypto(&mut source, &mut output, key, CryptoMode::Encrypt) {
        Ok(_) => {
            assert(output@.skip(0) =~= output@);
            Ok(output)
        },
        Err(e) => Err(e),
    }
}

/// Decrypts bytes in memory.
pub fn decrypt_bytes(ciphertext: &[u8], key: &[u8]) -> (plaintext: Result<Vec<u8>, CryptError>)
    ensures
        match plaintext {
            Ok(bytes) => {
                &&& decrypted(ciphertext@, key@) == Ok::<Seq<u8>, CryptError>(bytes@)
                &&& ciphertext@.len() == STREAM_NONCE_SIZE + sealed_length(bytes@.len())
            },
            Err(e) => decrypted(ciphertext@, key@) == Err::<Seq<u8>, CryptError>(e),
        },
{
    let mut output: Vec<u8> = Vec::new();
    let mut source = SliceSource::new(ciphertext);
    match pipe_crypto(&mut source, &mut output, key, CryptoMode::Decrypt) {
        Ok(_) => {
            assert(output@ =~= decrypted(ciphertext@, key@)->Ok_0);
            Ok(output)
        },
        Err(e) => {
            wipe(&mut output);
            Err(e)
        },
    }
}

/// What was encrypted is decrypted to what it was, under the same key.
pub proof fn law_decryption_undoes_encryption(stored: Seq<u8>, key: Seq<u8>, plaintext: Seq<u8>)
    requires
        encrypts(stored, key, plaintext),
    ensures
        decrypted(stored, key) == Ok::<Seq<u8>, CryptError>(plaintext),
{
}

/// A stored file is longer than what it holds: a nonce, and a tag for each
/// block, of which there is one at least.
pub proof fn law_stored_length(stored: Seq<u8>, key: Seq<u8>, plaintext: Seq<u8>)
    requires
        encrypts(stored, key, plaintext),
    ensures
        stored.len() == 19 + plaintext.len() + 16 * (plaintext.len() / 0x1_0000 + 1),
{
}

/// Where the last of some sealed blocks stands: after the full ones.
pub open spec fn last_place(blocks: Seq<u8>) -> int {
    blocks.len() as int / 0x1_0010
}

/// The sealed block at a place.
pub open spec fn block_at(blocks: Seq<u8>, place: int) -> Seq<u8> {
    if place < last_place(blocks) {
        blocks.subrange(place * 0x1_0010, (place + 1) * 0x1_0010)
    } else {
        blocks.skip(last_place(blocks) * 0x1_0010)
    }
}

/// Whether the block at a place of a stored file opens under `key`: where it
/// stands, and as the last one where it is that.
pub open spec fn block_opens(stored: Seq<u8>, key: Seq<u8>, place: int) -> bool {
    crate::outside::stream_opened(
        key,
        nonce_of(stored),
        place as u32,
        place == last_place(body_of(stored)),
        block_at(body_of(stored), place),
    ) is Some
}

/// Where blocks open, each of them opens, in its place.
proof fn lemma_each_block_opens(
    key: Seq<u8>,
    nonce: Seq<u8>,
    position: nat,
    blocks: Seq<u8>,
    place: int,
)
    requires
        opened_blocks(key, nonce, position, blocks) is Ok,
        0 <= place <= last_place(blocks),
    ensures
        crate::outside::stream_opened(
            key,
            nonce,
            (position + place) as u32,
            place == last_place(blocks),
            block_at(blocks, place),
        ) is Some,
    decreases blocks.len(),
{
    let full = (CHUNK_SIZE + TAG_SIZE) as int;
    if blocks.len() < full {
        assert(blocks.skip(0) =~= blocks);
    } else {
        let later = blocks.skip(full);
        assert(last_place(later) == last_place(blocks) - 1);
        if place == 0 {
            assert(block_at(blocks, 0) =~= blocks.take(full));
        } else {
            lemma_each_block_opens(key, nonce, position + 1, later, place - 1);
            assert(block_at(blocks, place) =~= block_at(later, place - 1));
        }
    }
}

/// A block that does not open spoils the file: where one of the blocks of a
/// stored file does not open, nothing is decrypted.
pub proof fn law_block_that_does_not_open_spoils_the_file(
    stored: Seq<u8>,
    key: Seq<u8>,
    place: int,
)
    requires
        0 <= place <= last_place(body_of(stored)),
        !block_opens(stored, key, place),
    ensures
        decrypted(stored, key) is Err,
{
    if decrypted(stored, key) is Ok {
        lemma_each_block_opens(key, nonce_of(stored), 0, body_of(stored), place);
    }
}

/// The place of the block that a change at a place of a stored file spoils: the
/// block that holds it, or the first where the nonce holds it.
pub open spec fn spoiled_place(at: int) -> int {
    if at < STREAM_NONCE_SIZE {
        0
    } else {
        (at - STREAM_NONCE_SIZE) / 0x1_0010
    }
}

/// A file with a changed byte is not decrypted, where the cipher does not open
/// the block that the change spoils.
pub proof fn law_changed_file_is_not_decrypted(
    stored: Seq<u8>,
    key: Seq<u8>,
    plaintext: Seq<u8>,
    at: int,
    byte: u8,
)
    requires
        encrypts(stored, key, plaintext),
        0 <= at < stored.len(),
        byte != stored[at],
        !block_opens(stored.update(at, byte), key, spoiled_place(at)),
    ensures
        decrypted(stored.update(at, byte), key) is Err,
{
    law_block_that_does_not_open_spoils_the_file(
        stored.update(at, byte),
        key,
        spoiled_place(at),
    );
}

/// A file that was cut short or added to, at the end of a block or elsewhere, is
/// not decrypted, where the cipher does not open the block that is now the last.
pub proof fn law_cut_or_extended_file_is_not_decrypted(
    stored: Seq<u8>,
    key: Seq<u8>,
    plaintext: Seq<u8>,
    other: Seq<u8>,
)
    requires
        encrypts(stored, key, plaintext),
        other != stored,
        other.is_prefix_of(stored) || stored.is_prefix_of(other),
        other.len() >= STREAM_NONCE_SIZE ==> !block_opens(other, key, last_place(body_of(other))),
    ensures
        decrypted(other, key) is Err,
{
    if other.len() >= STREAM_NONCE_SIZE {
        law_block_that_does_not_open_spoils_the_file(other, key, last_place(body_of(other)));
    }
}

/// A file is not decrypted under another key, where the cipher does not open one
/// of its blocks under that key.
pub proof fn law_other_key_does_not_decrypt(
    stored: Seq<u8>,
    key: Seq<u8>,
    plaintext: Seq<u8>,
    other_key: Seq<u8>,
    place: int,
)
    requires
        encrypts(stored, key, plaintext),
        other_key != key,
        0 <= place <= last_place(body_of(stored)),
        other_key.len() == STREAM_KEY_SIZE ==> !block_opens(stored, other_key, place),
    ensures
        decrypted(stored, other_key) is Err,
{
    if other_key.len() == STREAM_KEY_SIZE {
        law_block_that_does_not_open_spoils_the_file(stored, other_key, place);
    }
}

/// Whether the block at a place of a file is the block at that place of another,
/// under the same nonce, and the last of both or of neither.
pub open spec fn is_block_of(stored: Seq<u8>, other: Seq<u8>, place: int) -> bool {
    &&& nonce_of(stored) == nonce_of(other)
    &&& place <= last_place(body_of(other))
    &&& (place == last_place(body_of(stored))) == (place == last_place(body_of(other)))
    &&& block_at(body_of(stored), place) == block_at(body_of(other), place)
}

/// Nothing but the file itself is decrypted, whatever was changed, cut off, added
/// or moved about: where the cipher opens no block that is not that block of what
/// was encrypted, no other file is decrypted under the key.
pub proof fn law_only_the_file_itself_is_decrypted(
    stored: Seq<u8>,
    key: Seq<u8>,
    plaintext: Seq<u8>,
    other: Seq<u8>,
)
    requires
        encrypts(stored, key, plaintext),
        other != stored,
        forall|place: int|
            0 <= place <= last_place(body_of(other)) && #[trigger] block_opens(other, key, place)
                ==> is_block_of(other, stored, place),
    ensures
        decrypted(other, key) is Err,
{
    if decrypted(other, key) is Ok {
        let blocks = body_of(other);
        let own = body_of(stored);
        let last = last_place(blocks);
        assert forall|place: int| 0 <= place <= last implies (
        #[trigger] block_at(blocks, place)) == block_at(own, place) by {
            lemma_each_block_opens(key, nonce_of(other), 0, blocks, place);
            assert(block_opens(other, key, place));
        }
        lemma_each_block_opens(key, nonce_of(other), 0, blocks, last);
        assert(block_opens(other, key, last));
        lemma_same_blocks(blocks, own);
        assert(other =~= nonce_of(other) + blocks);
        assert(stored =~= nonce_of(stored) + own);
    }
}

/// Rows of blocks with the same blocks are the same.
proof fn lemma_same_blocks(a: Seq<u8>, b: Seq<u8>)
    requires
        last_place(a) == last_place(b),
        forall|place: int|
            0 <= place <= last_place(a) ==> #[trigger] block_at(a, place) == block_at(b, place),
    ensures
        a == b,
{
    let last = last_place(a);
    assert(block_at(a, last) == block_at(b, last));
    assert(a.len() == last * 0x1_0010 + block_at(a, last).len());
    assert(b.len() == last * 0x1_0010 + block_at(b, last).len());
    assert forall|i: int| 0 <= i < a.len() implies a[i] == b[i] by {
        let place = i / 0x1_0010;
        assert(block_at(a, place) == block_at(b, place));
        let within = i - place * 0x1_0010;
        assert(block_at(a, place)[within] == a[i]);
        assert(block_at(b, place)[within] == b[i]);
    }
    assert(a =~= b);
}

/// Each error says what it is about.
pub proof fn law_crypt_errors_say_what_they_are_about(error: CryptError, text: String)
    requires
        call_ensures(CryptError::message, (&error,), text),
    ensures
        error is KeyLength ==> text@ == "Key must be exactly 32 bytes"@,
        error matches CryptError::Read(e) ==> text@ == "I/O Read error: "@ + e@,
        error matches CryptError::Write(e) ==> text@ == e@,
        error matches CryptError::NonceRead(e) ==> text@ == "Failed to read stream nonce: "@ + e@,
        error is NonceTruncated ==> text@
            == "Failed to read stream nonce: failed to fill whole buffer"@,
        error is SealStream ==> text@ == "Stream encryption error: aead::Error"@,
        error is SealFinal ==> text@ == "Final block encryption error: aead::Error"@,
        error is OpenStream ==> text@ == "Corrupted stream or bad key: aead::Error"@,
        error is OpenFinal ==> text@ == "Corrupted EOF block or bad key: aead::Error"@,
{
}

/// A plaintext is sealed block by block: each full block under its own number and
/// not as the last, and what is left, possibly nothing, as the last.
pub proof fn law_plaintext_is_sealed_block_by_block(
    key: Seq<u8>,
    nonce: Seq<u8>,
    position: nat,
    block: Seq<u8>,
    later: Seq<u8>,
)
    ensures
        block.len() == 0x1_0000 ==> sealed_blocks(key, nonce, position, block + later)
            == crate::outside::stream_sealed(key, nonce, position as u32, false, block)
            + sealed_blocks(key, nonce, position + 1, later),
        block.len() < 0x1_0000 ==> sealed_blocks(key, nonce, position, block)
            == crate::outside::stream_sealed(key, nonce, position as u32, true, block),
{
    if block.len() == 0x1_0000 {
        assert((block + later).take(CHUNK_SIZE as int) =~= block);
        assert((block + later).skip(CHUNK_SIZE as int) =~= later);
    }
}

/// Sealed blocks are opened block by block: each full one under its own number and
/// not as the last, and what is left as the last; the plaintext is all of theirs in
/// order, and there is none where one does not open.
pub proof fn law_blocks_are_opened_one_by_one(
    key: Seq<u8>,
    nonce: Seq<u8>,
    position: nat,
    block: Seq<u8>,
    later: Seq<u8>,
)
    ensures
        block.len() == 0x1_0010 && position < 0xffff_ffff ==> opened_blocks(
            key,
            nonce,
            position,
            block + later,
        ) == (match crate::outside::stream_opened(key, nonce, position as u32, false, block) {
            None => Err::<Seq<u8>, CryptError>(CryptError::OpenStream),
            Some(plain) => match opened_blocks(key, nonce, position + 1, later) {
                Ok(rest) => Ok(plain + rest),
                Err(e) => Err(e),
            },
        }),
        block.len() < 0x1_0010 ==> opened_blocks(key, nonce, position, block) == (
        match crate::outside::stream_opened(key, nonce, position as u32, true, block) {
            None => Err::<Seq<u8>, CryptError>(CryptError::OpenFinal),
            Some(plain) => Ok(plain),
        }),
{
    if block.len() == 0x1_0010 {
        let full = (CHUNK_SIZE + TAG_SIZE) as int;
        assert((block + later).take(full) =~= block);
        assert((block + later).skip(full) =~= later);
    }
}

/// A file is 19 bytes of nonce and its sealed blocks; it is decrypted by opening
/// the blocks under the nonce, with a key of 32 bytes, and a file without a whole
/// nonce is none.
pub proof fn law_file_is_a_nonce_and_its_blocks(
    ciphertext: &[u8],
    key: &[u8],
    plaintext: Result<Vec<u8>, CryptError>,
    nonce: Seq<u8>,
    blocks: Seq<u8>,
)
    requires
        call_ensures(decrypt_bytes, (ciphertext, key), plaintext),
    ensures
        key@.len() != 32 ==> plaintext == Err::<Vec<u8>, CryptError>(CryptError::KeyLength),
        key@.len() == 32 && ciphertext@.len() < 19 ==> plaintext == Err::<Vec<u8>, CryptError>(
            CryptError::NonceTruncated,
        ),
        key@.len() == 32 && nonce.len() == 19 && ciphertext@ == nonce + blocks ==> opened_blocks(
            key@,
            nonce,
            0,
            blocks,
        ) == (match plaintext {
            Ok(bytes) => Ok::<Seq<u8>, CryptError>(bytes@),
            Err(e) => Err(e),
        }),
{
    if nonce.len() == 19 && ciphertext@ == nonce + blocks {
        assert(nonce_of(ciphertext@) =~= nonce);
        assert(body_of(ciphertext@) =~= blocks);
    }
}

/// What is encrypted with a key of 32 bytes is a file of known length that is
/// decrypted to what it was; only a key of another length, or a plaintext of more
/// blocks than can be counted, is refused.
pub proof fn law_encrypted_bytes_are_decrypted_again(
    plaintext: &[u8],
    key: &[u8],
    stored: Result<Vec<u8>, CryptError>,
    file: &[u8],
    again: Result<Vec<u8>, CryptError>,
)
    requires
        call_ensures(encrypt_bytes, (plaintext, key), stored),
        stored is Ok ==> file@ == stored->Ok_0@,
        call_ensures(decrypt_bytes, (file, key), again),
    ensures
        stored is Ok <==> key@.len() == 32 && plaintext@.len() < 0x1_0000 * 0x1_0000_0000,
        stored is Ok ==> file@.len() == 19 + plaintext@.len() + 16 * (plaintext@.len() / 0x1_0000
            + 1),
        stored is Ok ==> (again matches Ok(bytes) && bytes@ == plaintext@),
        key@.len() != 32 ==> stored == Err::<Vec<u8>, CryptError>(CryptError::KeyLength),
{
}

/// A read gives the bytes in front up to the limit and leaves the others; it fails
/// only where the source fails before the limit.
pub proof fn law_read_takes_the_front_and_leaves_the_rest(
    bytes: Seq<u8>,
    failure: Option<Seq<char>>,
    limit: int,
)
    requires
        0 <= limit,
    ensures
        front(bytes, limit) + rest(bytes, limit) == bytes,
        front(bytes, limit).len() == if bytes.len() <= limit {
            bytes.len() as int
        } else {
            limit
        },
        bytes.len() >= limit ==> read_failure(bytes, failure, limit) is None,
        bytes.len() < limit ==> read_failure(bytes, failure, limit) == failure,
{
    assert(front(bytes, limit) + rest(bytes, limit) =~= bytes);
}

/// What is piped into a file under a key of 32 bytes is piped out of it again: the
/// file is decrypted to all that the source held, and nothing that was in the sink
/// before is touched.
pub proof fn law_piped_in_is_piped_out<R: ByteSource, W: ByteSink>(
    source: &mut R,
    dest: &mut W,
    key: &[u8],
    outcome: Result<(), CryptError>,
    file: Seq<u8>,
)
    requires
        call_ensures(pipe_crypto::<R, W>, (source, dest, key, CryptoMode::Encrypt), outcome),
        outcome is Ok,
        final(dest).written() == old(dest).written() + file,
    ensures
        key@.len() == 32,
        decrypted(file, key@) == Ok::<Seq<u8>, CryptError>(old(source).remaining()),
        final(source).remaining().len() == 0,
        old(source).failure() is None,
{
    let before = old(dest).written();
    assert(final(dest).written().skip(before.len() as int) =~= file);
}

/// What is piped out of a file is what it is decrypted to, and all of it; a file
/// that is not decrypted is never piped out in full.
pub proof fn law_piped_out_is_what_was_decrypted<R: ByteSource, W: ByteSink>(
    source: &mut R,
    dest: &mut W,
    key: &[u8],
    outcome: Result<(), CryptError>,
)
    requires
        call_ensures(pipe_crypto::<R, W>, (source, dest, key, CryptoMode::Decrypt), outcome),
    ensures
        outcome is Ok ==> (decrypted(old(source).remaining(), key@) matches Ok(plaintext)
            && final(dest).written() == old(dest).written() + plaintext),
        decrypted(old(source).remaining(), key@) is Err ==> outcome is Err,
        decrypted(old(source).remaining(), key@) is Ok && old(source).failure() is None && old(
            dest,
        ).room() is None ==> outcome is Ok,
{
    if decrypted(old(source).remaining(), key@) is Ok && old(source).failure() is None
        && outcome is Err {
        lemma_opening_goes_well(
            key@,
            nonce_of(old(source).remaining()),
            0,
            body_of(old(source).remaining()),
        );
    }
}

/// Where blocks open, the full ones do.
proof fn lemma_opening_goes_well(key: Seq<u8>, nonce: Seq<u8>, position: nat, blocks: Seq<u8>)
    requires
        opened_blocks(key, nonce, position, blocks) is Ok,
    ensures
        full_blocks_open(key, nonce, position, blocks),
    decreases blocks.len(),
{
    let full = (CHUNK_SIZE + TAG_SIZE) as int;
    if blocks.len() >= full {
        lemma_opening_goes_well(key, nonce, position + 1, blocks.skip(full));
    }
}

/// A wrong key touches neither the source nor the sink.
pub proof fn law_wrong_key_touches_nothing<R: ByteSource, W: ByteSink>(
    source: &mut R,
    dest: &mut W,
    key: &[u8],
    mode: CryptoMode,
    outcome: Result<(), CryptError>,
)
    requires
        call_ensures(pipe_crypto::<R, W>, (source, dest, key, mode), outcome),
        key@.len() != 32,
    ensures
        outcome == Err::<(), CryptError>(CryptError::KeyLength),
        *final(source) == *old(source),
        *final(dest) == *old(dest),
{
}

/// A sealing that breaks off leaves the full blocks, each sealed as it is in the
/// whole, and nothing of what is left.
pub proof fn law_broken_off_sealing_leaves_the_full_blocks(
    key: Seq<u8>,
    nonce: Seq<u8>,
    position: nat,
    block: Seq<u8>,
    later: Seq<u8>,
)
    ensures
        block.len() == 0x1_0000 && position < 0xffff_ffff ==> sealed_front(
            key,
            nonce,
            position,
            block + later,
        ) == crate::outside::stream_sealed(key, nonce, position as u32, false, block)
            + sealed_front(key, nonce, position + 1, later),
        block.len() < 0x1_0000 ==> sealed_front(key, nonce, position, block).len() == 0,
        position >= 0xffff_ffff ==> sealed_front(key, nonce, position, block).len() == 0,
{
    if block.len() == 0x1_0000 {
        assert((block + later).take(CHUNK_SIZE as int) =~= block);
        assert((block + later).skip(CHUNK_SIZE as int) =~= later);
    }
}

/// An opening that breaks off leaves the plaintext of the full blocks before the
/// first that does not open, and nothing of what is left.
pub proof fn law_broken_off_opening_leaves_the_full_blocks(
    key: Seq<u8>,
    nonce: Seq<u8>,
    position: nat,
    block: Seq<u8>,
    later: Seq<u8>,
)
    ensures
        block.len() == 0x1_0010 && position < 0xffff_ffff ==> match crate::outside::stream_opened(
            key,
            nonce,
            position as u32,
            false,
            block,
        ) {
            Some(plain) => {
                &&& opened_front(key, nonce, position, block + later) == plain + opened_front(
                    key,
                    nonce,
                    position + 1,
                    later,
                )
                &&& full_blocks_open(key, nonce, position, block + later) == full_blocks_open(
                    key,
                    nonce,
                    position + 1,
                    later,
                )
            },
            None => {
                &&& opened_front(key, nonce, position, block + later).len() == 0
                &&& !full_blocks_open(key, nonce, position, block + later)
            },
        },
        block.len() < 0x1_0010 ==> opened_front(key, nonce, position, block).len() == 0
            && full_blocks_open(key, nonce, position, block),
{
    if block.len() == 0x1_0010 {
        let full = (CHUNK_SIZE + TAG_SIZE) as int;
        assert((block + later).take(full) =~= block);
        assert((block + later).skip(full) =~= later);
    }
}

/// An encryption fails only where the source or the sink fails, or there are more
/// blocks than can be counted; what is then in a sink that takes everything is a
/// nonce and the full blocks.
pub proof fn law_failed_encryption_leaves_a_nonce_and_the_full_blocks<R: ByteSource, W: ByteSink>(
    source: &mut R,
    dest: &mut W,
    key: &[u8],
    outcome: Result<(), CryptError>,
    nonce: Seq<u8>,
    blocks: Seq<u8>,
)
    requires
        call_ensures(pipe_crypto::<R, W>, (source, dest, key, CryptoMode::Encrypt), outcome),
        key@.len() == 32,
        old(dest).room() is None,
        nonce.len() == 19,
        final(dest).written() == old(dest).written() + (nonce + blocks),
    ensures
        outcome is Ok <==> old(source).remaining().len() < 0x1_0000 * 0x1_0000_0000 && old(
            source,
        ).failure() is None,
        old(source).remaining().len() >= 0x1_0000 * 0x1_0000_0000 ==> outcome == Err::<
            (),
            CryptError,
        >(CryptError::SealStream),
        old(source).remaining().len() < 0x1_0000 * 0x1_0000_0000 ==> (old(
            source,
        ).failure() matches Some(reason) ==> (outcome matches Err(CryptError::Read(text)) && text@
            == reason)),
        outcome is Err ==> blocks == sealed_front(key@, nonce, 0, old(source).remaining()),
        outcome is Ok ==> blocks == sealed_blocks(key@, nonce, 0, old(source).remaining()),
{
    let before = old(dest).written();
    let written = final(dest).written().skip(before.len() as int);
    assert(written =~= nonce + blocks);
    assert(nonce_of(written) =~= nonce);
    assert(body_of(written) =~= blocks);
}

/// A decryption says what went wrong first: a nonce that is not whole, a full block
/// that does not open, a source that fails, or a last block that does not open; and
/// a sink that takes everything has what opened before.
pub proof fn law_failed_decryption_says_what_went_wrong_first<R: ByteSource, W: ByteSink>(
    source: &mut R,
    dest: &mut W,
    key: &[u8],
    outcome: Result<(), CryptError>,
    nonce: Seq<u8>,
    blocks: Seq<u8>,
)
    requires
        call_ensures(pipe_crypto::<R, W>, (source, dest, key, CryptoMode::Decrypt), outcome),
        key@.len() == 32,
        old(dest).room() is None,
    ensures
        old(source).remaining().len() < 19 ==> match old(source).failure() {
            None => outcome == Err::<(), CryptError>(CryptError::NonceTruncated),
            Some(reason) => outcome matches Err(CryptError::NonceRead(text)) && text@ == reason,
        },
        nonce.len() == 19 && old(source).remaining() == nonce + blocks ==> {
            &&& !full_blocks_open(key@, nonce, 0, blocks) ==> outcome == Err::<(), CryptError>(
                CryptError::OpenStream,
            )
            &&& full_blocks_open(key@, nonce, 0, blocks) ==> match old(source).failure() {
                Some(reason) => outcome matches Err(CryptError::Read(text)) && text@ == reason,
                None => if opened_blocks(key@, nonce, 0, blocks) is Ok {
                    outcome is Ok
                } else {
                    outcome == Err::<(), CryptError>(CryptError::OpenFinal)
                },
            }
            &&& outcome is Err ==> final(dest).written() == old(dest).written() + opened_front(
                key@,
                nonce,
                0,
                blocks,
            )
        },
{
    let stored = old(source).remaining();
    if nonce.len() == 19 && stored == nonce + blocks {
        assert(nonce_of(stored) =~= nonce);
        assert(body_of(stored) =~= blocks);
        if opened_blocks(key@, nonce, 0, blocks) is Ok {
            lemma_opening_goes_well(key@, nonce, 0, blocks);
        }
    }
}

/// A sink that fails is reported in its own words, and has taken what it had room
/// for; one with room for everything does not fail.
pub proof fn law_sink_fails_only_for_want_of_room<R: ByteSource, W: ByteSink>(
    source: &mut R,
    dest: &mut W,
    key: &[u8],
    mode: CryptoMode,
    outcome: Result<(), CryptError>,
    room: nat,
    reason: Seq<char>,
)
    requires
        call_ensures(pipe_crypto::<R, W>, (source, dest, key, mode), outcome),
        old(dest).room() == Some((room, reason)),
    ensures
        outcome matches Err(CryptError::Write(text)) ==> text@ == reason
            && final(dest).written().len() == old(dest).written().len() + room,
        !(outcome matches Err(CryptError::Write(_))) ==> final(dest).written().len() <= old(
            dest,
        ).written().len() + room,
        mode is Encrypt && room >= 19 + old(source).remaining().len() + 16 * (old(
            source,
        ).remaining().len() / 0x1_0000 + 1) ==> !(outcome matches Err(CryptError::Write(_))),
        mode is Decrypt && room >= old(source).remaining().len() ==> !(
        outcome matches Err(CryptError::Write(_))),
{
}

/// A read keeps on until it has what was asked for or the source ends or fails.
pub proof fn law_read_is_not_cut_short<R: ByteSource>(
    source: &mut R,
    limit: usize,
    block: Result<Vec<u8>, CryptError>,
)
    requires
        call_ensures(read_up_to::<R>, (source, limit), block),
    ensures
        old(source).remaining().len() >= limit ==> (block matches Ok(bytes) && bytes@ == old(
            source,
        ).remaining().take(limit as int) && final(source).remaining() == old(
            source,
        ).remaining().skip(limit as int)),
        old(source).remaining().len() < limit ==> match old(source).failure() {
            None => block matches Ok(bytes) && bytes@ == old(source).remaining(),
            Some(reason) => block matches Err(CryptError::Read(text)) && text@ == reason,
        },
{
    let all = old(source).remaining();
    if all.len() == limit {
        assert(all.take(limit as int) =~= all);
        assert(all.skip(limit as int) =~= Seq::empty());
    }
}

/// What a stream is sealed to under a nonce is opened under it again.
pub proof fn law_sealed_stream_is_opened_again<R: ByteSource, W: ByteSink, S: ByteSource, D: ByteSink>(
    source: &mut R,
    sealed: &mut W,
    stored: &mut S,
    dest: &mut D,
    key: &[u8],
    nonce: &[u8],
    sealing: Result<(), CryptError>,
    opening: Result<(), CryptError>,
)
    requires
        call_ensures(encrypt_stream::<R, W>, (source, sealed, key, nonce), sealing),
        sealing is Ok,
        call_ensures(decrypt_stream::<S, D>, (stored, dest, key, nonce), opening),
        final(sealed).written() == old(sealed).written() + old(stored).remaining(),
        old(stored).failure() is None,
        old(dest).room() is None,
    ensures
        opening is Ok,
        final(dest).written() == old(dest).written() + old(source).remaining(),
{
    let blocks = old(stored).remaining();
    let whole = sealed_blocks(key@, nonce@, 0, old(source).remaining());
    let before = old(sealed).written();
    assert((before + blocks).skip(before.len() as int) =~= blocks);
    assert((before + whole).skip(before.len() as int) =~= whole);
    lemma_opening_goes_well(key@, nonce@, 0, blocks);
}

} // verus!
