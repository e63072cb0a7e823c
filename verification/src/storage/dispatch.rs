//! Which kind of storage a path is on.

use crate::text::{ends_with, starts_with, strip_prefix};
use vstd::prelude::*;

verus! {

/// A kind of storage.
#[derive(Debug, Clone, Copy, PartialEq, Eq, Structural)]
pub enum StorageType {
    /// A local directory.
    Local,
    /// A directory on an SFTP server.
    Sftp,
    /// A Git repository.
    Git,
}

/// A path without the long spelling of the scheme.
pub open spec fn without_scheme(url: Seq<char>) -> Seq<char> {
    if "pqcrypt://"@.is_prefix_of(url) {
        url.skip("pqcrypt://"@.len() as int)
    } else {
        url
    }
}

/// The kind of storage that a path without scheme is on.
pub open spec fn kind_of(path: Seq<char>) -> StorageType {
    if "sftp://"@.is_prefix_of(path) || "ssh://"@.is_prefix_of(path) {
        StorageType::Sftp
    } else if "git@"@.is_prefix_of(path) || ".git"@.is_suffix_of(path) || "https://git"@.is_prefix_of(
        path,
    ) {
        StorageType::Git
    } else {
        StorageType::Local
    }
}

/// The kind of storage that a path is on.
pub fn determine_type(url: &str) -> (kind: StorageType)
    ensures
        kind == kind_of(without_scheme(url@)),
{
    let path = match strip_prefix(url, "pqcrypt://") {
        Some(rest) => rest,
        None => url.to_owned(),
    };
    let path = path.as_str();
    if starts_with(path, "sftp://") || starts_with(path, "ssh://") {
        StorageType::Sftp
    } else if starts_with(path, "git@") || ends_with(path, ".git") || starts_with(
        path,
        "https://git",
    ) {
        StorageType::Git
    } else {
        StorageType::Local
    }
}

/// A path is on the storage that its scheme or its ending names, with or without
/// the long spelling of the helper's own scheme before it: `sftp://` and `ssh://`
/// name a server, whatever follows; else `git@` or `https://git` in front or
/// `.git` at the end name a Git repository; and what names neither is a local
/// directory.
pub proof fn law_scheme_or_ending_names_the_storage(
    url: &str,
    kind: StorageType,
    path: Seq<char>,
)
    requires
        call_ensures(determine_type, (url,), kind),
        url@ == "pqcrypt://"@ + path || (url@ == path && !"pqcrypt://"@.is_prefix_of(path)),
    ensures
        kind is Sftp <==> "sftp://"@.is_prefix_of(path) || "ssh://"@.is_prefix_of(path),
        kind is Git <==> !"sftp://"@.is_prefix_of(path) && !"ssh://"@.is_prefix_of(path) && (
        "git@"@.is_prefix_of(path) || "https://git"@.is_prefix_of(path) || ".git"@.is_suffix_of(
            path,
        )),
        kind is Local <==> !(kind is Sftp) && !(kind is Git),
{
    let scheme = "pqcrypt://"@;
    if url@ == scheme + path {
        assert(url@.subrange(0, scheme.len() as int) =~= scheme);
        assert(url@.skip(scheme.len() as int) =~= path);
    }
    assert(without_scheme(url@) == path);
}

/// Every path that ends in `.git` is on Git storage, whatever comes before, but
/// for one that names a server by its scheme.
pub proof fn law_dot_git_is_on_git_storage(front: Seq<char>)
    requires
        !"sftp://"@.is_prefix_of(front + ".git"@),
        !"ssh://"@.is_prefix_of(front + ".git"@),
    ensures
        kind_of(front + ".git"@) == StorageType::Git,
{
    let path = front + ".git"@;
    assert(path.subrange(path.len() - ".git"@.len(), path.len() as int) =~= ".git"@);
}

/// What follows the scheme of a server or the beginning of a Git repository makes
/// no difference.
pub proof fn law_beginning_names_the_storage(rest: Seq<char>)
    ensures
        kind_of("sftp://"@ + rest) == StorageType::Sftp,
        kind_of("ssh://"@ + rest) == StorageType::Sftp,
        kind_of("git@"@ + rest) == StorageType::Git,
        kind_of("https://git"@ + rest) == StorageType::Git,
{
    reveal_strlit("sftp://");
    reveal_strlit("ssh://");
    reveal_strlit("git@");
    reveal_strlit("https://git");
    let sftp = "sftp://"@ + rest;
    assert(sftp.subrange(0, "sftp://"@.len() as int) =~= "sftp://"@);
    let ssh = "ssh://"@ + rest;
    assert(ssh.subrange(0, "ssh://"@.len() as int) =~= "ssh://"@);
    let git = "git@"@ + rest;
    assert(git.subrange(0, "git@"@.len() as int) =~= "git@"@);
    assert(git[0] == 'g');
    if "sftp://"@.is_prefix_of(git) {
        assert(git.subrange(0, 7)[0] == 's');
    }
    if "ssh://"@.is_prefix_of(git) {
        assert(git.subrange(0, 6)[0] == 's');
    }
    let https = "https://git"@ + rest;
    assert(https.subrange(0, "https://git"@.len() as int) =~= "https://git"@);
    assert(https[0] == 'h');
    if "sftp://"@.is_prefix_of(https) {
        assert(https.subrange(0, 7)[0] == 's');
    }
    if "ssh://"@.is_prefix_of(https) {
        assert(https.subrange(0, 6)[0] == 's');
    }
}

} // verus!
