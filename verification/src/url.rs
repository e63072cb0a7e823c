//! URLs of repositories.

use crate::text::{join2, strip_prefix};
use vstd::prelude::*;

verus! {

/// The URL of a repository, taken apart.
#[derive(Debug)]
pub struct ParsedPqcryptUrl {
    /// The URL in its one canonical spelling.
    pub canonical: String,
    /// Where the storage is.
    pub storage_path: String,
}

impl Clone for ParsedPqcryptUrl {
    fn clone(&self) -> (copy: Self)
        ensures
            copy.canonical@ == self.canonical@,
            copy.storage_path@ == self.storage_path@,
    {
        ParsedPqcryptUrl {
            canonical: self.canonical.clone(),
            storage_path: self.storage_path.clone(),
        }
    }
}

/// Where the storage of a repository is: what follows the scheme, in any of its
/// three spellings, or the whole text where there is none.
pub open spec fn storage_path_of(input: Seq<char>) -> Seq<char> {
    if "pqcrypt::"@.is_prefix_of(input) {
        input.skip("pqcrypt::"@.len() as int)
    } else if "pqcrypt://"@.is_prefix_of(input) {
        input.skip("pqcrypt://"@.len() as int)
    } else if "pqcrypt:"@.is_prefix_of(input) {
        input.skip("pqcrypt:"@.len() as int)
    } else {
        input
    }
}

/// The canonical URL of the storage at a path.
pub open spec fn canonical_url(storage_path: Seq<char>) -> Seq<char> {
    "pqcrypt::"@ + storage_path
}

/// The parsed URL of the storage at a path.
fn url_of(storage_path: String) -> (parsed: ParsedPqcryptUrl)
    ensures
        parsed.storage_path@ == storage_path@,
        parsed.canonical@ == canonical_url(storage_path@),
{
    let canonical = join2("pqcrypt::", storage_path.as_str());
    ParsedPqcryptUrl { canonical, storage_path }
}

/// Takes the URL of a repository apart.
pub fn parse_pqcrypt_url(input: &str) -> (parsed: ParsedPqcryptUrl)
    ensures
        parsed.storage_path@ == storage_path_of(input@),
        parsed.canonical@ == canonical_url(storage_path_of(input@)),
{
    if let Some(rest) = strip_prefix(input, "pqcrypt::") {
        return url_of(rest);
    }
    if let Some(rest) = strip_prefix(input, "pqcrypt://") {
        return url_of(rest);
    }
    if let Some(rest) = strip_prefix(input, "pqcrypt:") {
        return url_of(rest);
    }
    url_of(input.to_owned())
}

/// The canonical URL of a storage path leads back to that path.
pub proof fn law_canonical_url_leads_back(storage_path: Seq<char>)
    ensures
        storage_path_of(canonical_url(storage_path)) == storage_path,
{
    let url = canonical_url(storage_path);
    let scheme = "pqcrypt::"@;
    assert(url.subrange(0, scheme.len() as int) =~= scheme);
    assert(url.skip(scheme.len() as int) =~= storage_path);
}

/// Normalizing twice is normalizing once.
pub proof fn law_normalizing_is_idempotent(input: Seq<char>)
    ensures
        canonical_url(storage_path_of(canonical_url(storage_path_of(input)))) == canonical_url(
            storage_path_of(input),
        ),
{
    law_canonical_url_leads_back(storage_path_of(input));
}

/// The three spellings of the scheme are equivalent.  The last is read so where
/// the path does not itself go on like one of the other two.
pub proof fn law_spellings_are_equivalent(storage_path: Seq<char>)
    ensures
        storage_path_of("pqcrypt::"@ + storage_path) == storage_path,
        storage_path_of("pqcrypt://"@ + storage_path) == storage_path,
        !":"@.is_prefix_of(storage_path) && !"//"@.is_prefix_of(storage_path) ==> storage_path_of(
            "pqcrypt:"@ + storage_path,
        ) == storage_path,
{
    reveal_strlit("pqcrypt::");
    reveal_strlit("pqcrypt://");
    reveal_strlit("pqcrypt:");
    reveal_strlit(":");
    reveal_strlit("//");
    law_canonical_url_leads_back(storage_path);
    let slashes = "pqcrypt://"@ + storage_path;
    assert(slashes.subrange(0, 10) =~= "pqcrypt://"@);
    assert(slashes[8] == '/');
    assert("pqcrypt::"@[8] == ':');
    assert(slashes.skip(10) =~= storage_path);
    let short = "pqcrypt:"@ + storage_path;
    assert(short.subrange(0, 8) =~= "pqcrypt:"@);
    assert(short.skip(8) =~= storage_path);
    if "pqcrypt::"@.is_prefix_of(short) {
        assert(short[8] == "pqcrypt::"@[8]);
        assert(storage_path[0] == ':');
        assert(storage_path.subrange(0, 1) =~= ":"@);
    }
    if "pqcrypt://"@.is_prefix_of(short) {
        assert(short[8] == "pqcrypt://"@[8]);
        assert(short[9] == "pqcrypt://"@[9]);
        assert(storage_path[0] == '/');
        assert(storage_path[1] == '/');
        assert(storage_path.subrange(0, 2) =~= "//"@);
    }
}

/// A text without the scheme is a storage path as it stands, and the canonical
/// URL is the scheme and the storage path whatever the spelling was.
pub proof fn law_url_is_scheme_and_storage_path(input: &str, parsed: ParsedPqcryptUrl, path: Seq<char>)
    requires
        call_ensures(parse_pqcrypt_url, (input,), parsed),
    ensures
        parsed.canonical@ == "pqcrypt::"@ + parsed.storage_path@,
        !"pqcrypt:"@.is_prefix_of(input@) ==> parsed.storage_path@ == input@,
        input@ == "pqcrypt::"@ + path ==> parsed.storage_path@ == path,
        input@ == "pqcrypt://"@ + path ==> parsed.storage_path@ == path,
        input@ == "pqcrypt:"@ + path && !":"@.is_prefix_of(path) && !"//"@.is_prefix_of(path)
            ==> parsed.storage_path@ == path,
{
    law_spellings_are_equivalent(path);
    reveal_strlit("pqcrypt::");
    reveal_strlit("pqcrypt://");
    reveal_strlit("pqcrypt:");
    let short = "pqcrypt:"@;
    if "pqcrypt::"@.is_prefix_of(input@) {
        assert(input@.subrange(0, 9) =~= "pqcrypt::"@);
        assert(input@.subrange(0, 8) =~= "pqcrypt::"@.subrange(0, 8));
        assert("pqcrypt::"@.subrange(0, 8) =~= short);
        assert(short.is_prefix_of(input@));
    }
    if "pqcrypt://"@.is_prefix_of(input@) {
        assert(input@.subrange(0, 10) =~= "pqcrypt://"@);
        assert(input@.subrange(0, 8) =~= "pqcrypt://"@.subrange(0, 8));
        assert("pqcrypt://"@.subrange(0, 8) =~= short);
        assert(short.is_prefix_of(input@));
    }
}

} // verus!
