# pqcrypt

The logic of `git-remote-pqcrypt`, an encrypted Git remote helper, written in
Verus. Packfiles and the manifest of a repository are stored encrypted under a
master key; the master key is wrapped for each user with HPKE over X-Wing.

## Layout

- `src/` is the library, verified.
  - `workers/cryptworker.rs`: stream encryption of what is stored.
  - `workers/keyworker.rs`, `keys.rs`: key files, the key list, who can unlock the
    master key.
  - `workers/gitworker.rs`, `workers/push.rs`, `workers/fetch.rs`: the
    conversation with Git, a push stage by stage, a fetch step by step.
  - `workers/update.rs`: work on a repository, from fetching its state to bringing
    a new key list to where it is kept.
  - `storage/`: where repositories are kept (a local directory and its lock, a Git
    repository and its cache, an SFTP server). What involves files, processes or
    the network is decided here and done by the program.
  - `types/`, `url.rs`, `cli.rs`, `paths.rs`, `text.rs`: references, hashes and
    manifests, URLs, what the user is asked, paths and texts.
  - `outside.rs`: the calls into other crates, with what is believed of each.
- `tests/` runs the library, with the other crates linked.
- `app/` is the program around the library: the command line, files, processes,
  the network and JSON.

## What is proved

Each function states what it returns. Beyond that, the proof functions whose
names begin with `law_` state what holds of several functions together; among
them that decryption undoes encryption, that every user of a key list unlocks the
same master key, that a cache that is ready has the right URL, that a fresh lock
is never broken, that each push of a batch is answered once, and that what was
pushed is listed.
