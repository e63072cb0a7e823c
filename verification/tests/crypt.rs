use pqcrypt::workers::cryptworker::{
    decrypt_bytes, encrypt_bytes, pipe_crypto, read_up_to, ByteSink, ByteSource, CryptError,
    CryptoMode, ReadOutcome, SliceSource, CHUNK_SIZE,
};

const KEY: [u8; 32] = [7; 32];

/// Gives out its bytes a few at a time, with an interruption before each, and
/// fails in the end where it is told to.
struct Dribble {
    bytes: Vec<u8>,
    step: usize,
    interrupt: bool,
    failure: Option<String>,
}

impl ByteSource for Dribble {
    fn read(&mut self, limit: usize) -> ReadOutcome {
        self.interrupt = !self.interrupt;
        if self.interrupt {
            return ReadOutcome::Interrupted;
        }
        if self.bytes.is_empty() {
            if let Some(failure) = &self.failure {
                return ReadOutcome::Failed(failure.clone());
            }
        }
        let count = self.step.min(limit).min(self.bytes.len());
        ReadOutcome::Data(self.bytes.drain(..count).collect())
    }
}

fn dribble(bytes: &[u8], step: usize, failure: Option<&str>) -> Dribble {
    Dribble {
        bytes: bytes.to_vec(),
        step,
        interrupt: false,
        failure: failure.map(|f| f.to_string()),
    }
}

/// Takes as many bytes as there is room for, and fails at the next.
struct Narrow {
    taken: Vec<u8>,
    room: usize,
}

impl ByteSink for Narrow {
    fn write_all(&mut self, bytes: &[u8]) -> Result<(), String> {
        let count = bytes.len().min(self.room);
        self.taken.extend_from_slice(&bytes[..count]);
        self.room -= count;
        if count < bytes.len() {
            Err("disk full".to_string())
        } else {
            Ok(())
        }
    }
}

fn sample(length: usize) -> Vec<u8> {
    (0..length).map(|i| (i * 31 % 251) as u8).collect()
}

#[test]
fn decryption_undoes_encryption() {
    for length in [0, 1, 19, CHUNK_SIZE - 1, CHUNK_SIZE, CHUNK_SIZE + 1, 3 * CHUNK_SIZE] {
        let plaintext = sample(length);
        let stored = encrypt_bytes(&plaintext, &KEY).unwrap();
        assert_eq!(stored.len(), 19 + length + 16 * (length / CHUNK_SIZE + 1));
        assert_eq!(decrypt_bytes(&stored, &KEY).unwrap(), plaintext);
    }
}

#[test]
fn what_is_stored_is_not_the_plaintext() {
    let plaintext = sample(100);
    let stored = encrypt_bytes(&plaintext, &KEY).unwrap();
    assert_ne!(&stored[19..119], &plaintext[..]);
    assert_ne!(stored, encrypt_bytes(&plaintext, &KEY).unwrap());
}

#[test]
fn a_key_has_thirty_two_bytes() {
    for length in [0, 31, 33] {
        let key = vec![1; length];
        let error = encrypt_bytes(b"x", &key).unwrap_err();
        assert_eq!(error.message(), "Key must be exactly 32 bytes");
        let error = decrypt_bytes(&[0; 64], &key).unwrap_err();
        assert_eq!(error.message(), "Key must be exactly 32 bytes");
    }
}

#[test]
fn another_key_does_not_open() {
    let stored = encrypt_bytes(b"secret", &KEY).unwrap();
    let error = decrypt_bytes(&stored, &[8; 32]).unwrap_err();
    assert_eq!(error.message(), "Corrupted EOF block or bad key: aead::Error");
    let stored = encrypt_bytes(&sample(CHUNK_SIZE), &KEY).unwrap();
    let error = decrypt_bytes(&stored, &[8; 32]).unwrap_err();
    assert_eq!(error.message(), "Corrupted stream or bad key: aead::Error");
}

#[test]
fn what_was_changed_or_cut_short_does_not_open() {
    let stored = encrypt_bytes(&sample(CHUNK_SIZE + 10), &KEY).unwrap();
    for place in [0, 18, 19, 100, stored.len() - 1] {
        let mut changed = stored.clone();
        changed[place] ^= 1;
        assert!(decrypt_bytes(&changed, &KEY).is_err());
    }
    for length in [0, 18] {
        assert!(decrypt_bytes(&stored[..length], &KEY).is_err());
    }
    for extra in [1, 16, CHUNK_SIZE, 2 * CHUNK_SIZE] {
        let mut longer = stored.clone();
        longer.extend(vec![0; extra]);
        assert!(decrypt_bytes(&longer, &KEY).is_err());
    }
    for length in [19, 100, 19 + CHUNK_SIZE + 16, stored.len() - 1] {
        let error = decrypt_bytes(&stored[..length], &KEY).unwrap_err();
        assert!(matches!(error, CryptError::OpenFinal));
    }
}

#[test]
fn a_stored_file_begins_with_its_nonce() {
    for length in [0, 18] {
        let error = decrypt_bytes(&vec![0; length], &KEY).unwrap_err();
        assert_eq!(
            error.message(),
            "Failed to read stream nonce: failed to fill whole buffer"
        );
    }
}

#[test]
fn a_source_may_be_slow_and_interrupted() {
    let plaintext = sample(CHUNK_SIZE + 500);
    let mut stored = vec![1, 2];
    let mut source = dribble(&plaintext, 1000, None);
    pipe_crypto(&mut source, &mut stored, &KEY, CryptoMode::Encrypt).unwrap();
    assert_eq!(&stored[..2], [1, 2]);
    assert_eq!(decrypt_bytes(&stored[2..], &KEY).unwrap(), plaintext);
    let mut read = vec![9];
    let mut source = dribble(&stored[2..], 777, None);
    pipe_crypto(&mut source, &mut read, &KEY, CryptoMode::Decrypt).unwrap();
    assert_eq!(read[0], 9);
    assert_eq!(&read[1..], plaintext);
}

#[test]
fn a_source_that_fails_is_reported() {
    let mut out = Vec::new();
    let mut source = dribble(&sample(10), 4, Some("cable cut"));
    let error = pipe_crypto(&mut source, &mut out, &KEY, CryptoMode::Encrypt).unwrap_err();
    assert_eq!(error.message(), "I/O Read error: cable cut");
    let mut source = dribble(&sample(10), 4, Some("cable cut"));
    let error = pipe_crypto(&mut source, &mut out, &KEY, CryptoMode::Decrypt).unwrap_err();
    assert_eq!(error.message(), "Failed to read stream nonce: cable cut");
    let plaintext = sample(CHUNK_SIZE + 5);
    let mut written = Vec::new();
    let mut source = dribble(&plaintext, 9999, Some("cable cut"));
    assert!(pipe_crypto(&mut source, &mut written, &KEY, CryptoMode::Encrypt).is_err());
    assert_eq!(written.len(), 19 + CHUNK_SIZE + 16);
    let mut read = dribble(&plaintext, 9999, None);
    assert!(pipe_crypto(&mut read, &mut written, &[1; 31], CryptoMode::Encrypt).is_err());
    assert_eq!(read.bytes.len(), plaintext.len());
    assert_eq!(written.len(), 19 + CHUNK_SIZE + 16);
    let mut source = dribble(&sample(30), 4, Some("cable cut"));
    let error = pipe_crypto(&mut source, &mut out, &KEY, CryptoMode::Decrypt).unwrap_err();
    assert_eq!(error.message(), "I/O Read error: cable cut");
}

#[test]
fn what_opened_before_a_failure_is_written() {
    let plaintext = sample(CHUNK_SIZE + 10);
    let mut stored = encrypt_bytes(&plaintext, &KEY).unwrap();
    let last = stored.len() - 1;
    stored[last] ^= 1;
    let mut out = vec![5];
    let mut source = SliceSource::new(&stored);
    let error = pipe_crypto(&mut source, &mut out, &KEY, CryptoMode::Decrypt).unwrap_err();
    assert!(matches!(error, CryptError::OpenFinal));
    assert_eq!(out[0], 5);
    assert_eq!(&out[1..], &plaintext[..CHUNK_SIZE]);
}

#[test]
fn a_sink_that_fails_is_reported_and_keeps_what_it_took() {
    let plaintext = sample(CHUNK_SIZE + 10);
    let whole = 19 + CHUNK_SIZE + 16 + 10 + 16;
    for room in [0, 18, 19, 20, 19 + CHUNK_SIZE + 16, whole - 1] {
        let mut sink = Narrow { taken: Vec::new(), room };
        let mut source = SliceSource::new(&plaintext);
        let error = pipe_crypto(&mut source, &mut sink, &KEY, CryptoMode::Encrypt).unwrap_err();
        assert_eq!(error.message(), "disk full");
        assert_eq!(sink.taken.len(), room);
    }
    let mut sink = Narrow { taken: Vec::new(), room: whole };
    let mut source = SliceSource::new(&plaintext);
    pipe_crypto(&mut source, &mut sink, &KEY, CryptoMode::Encrypt).unwrap();
    let stored = sink.taken;
    assert_eq!(decrypt_bytes(&stored, &KEY).unwrap(), plaintext);
    for room in [0, CHUNK_SIZE, CHUNK_SIZE + 9] {
        let mut sink = Narrow { taken: Vec::new(), room };
        let mut source = SliceSource::new(&stored);
        let error = pipe_crypto(&mut source, &mut sink, &KEY, CryptoMode::Decrypt).unwrap_err();
        assert!(matches!(error, CryptError::Write(_)));
        assert_eq!(sink.taken, plaintext[..room]);
    }
    let mut sink = Narrow { taken: Vec::new(), room: 0 };
    let empty = encrypt_bytes(b"", &KEY).unwrap();
    let mut source = SliceSource::new(&empty);
    assert!(pipe_crypto(&mut source, &mut sink, &KEY, CryptoMode::Decrypt).is_ok());
}

#[test]
fn reading_stops_at_the_limit_or_the_end() {
    let bytes = sample(10);
    let mut source = SliceSource::new(&bytes);
    assert_eq!(read_up_to(&mut source, 4).unwrap(), bytes[..4]);
    assert_eq!(read_up_to(&mut source, 100).unwrap(), bytes[4..]);
    assert_eq!(read_up_to(&mut source, 100).unwrap(), Vec::<u8>::new());
    let mut source = dribble(&bytes, 3, None);
    assert_eq!(read_up_to(&mut source, 8).unwrap(), bytes[..8]);
}

#[test]
fn errors_of_sealing_have_their_words() {
    assert_eq!(CryptError::SealStream.message(), "Stream encryption error: aead::Error");
    assert_eq!(CryptError::SealFinal.message(), "Final block encryption error: aead::Error");
}
