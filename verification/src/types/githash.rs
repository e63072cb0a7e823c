//! Names of commits.

use crate::text::{chars_of, join2, same_text};
use vstd::prelude::*;

verus! {

/// The name of a commit: its SHA-1 hash in hexadecimal.
#[derive(Debug, Eq, Hash)]
pub struct GitHash {
    text: String,
}

/// A text that is no hash.
#[derive(Debug)]
pub struct InvalidHash {
    /// The text.
    pub text: String,
}

/// Whether `c` is a hexadecimal digit.
pub open spec fn is_hex(c: char) -> bool {
    '0' <= c <= '9' || 'a' <= c <= 'f' || 'A' <= c <= 'F'
}

/// Whether a text is a SHA-1 hash: 40 hexadecimal digits.
pub open spec fn is_hash(text: Seq<char>) -> bool {
    &&& text.len() == 40
    &&& forall|i: int| 0 <= i < text.len() ==> is_hex(#[trigger] text[i])
}

impl View for GitHash {
    type V = Seq<char>;

    closed spec fn view(&self) -> Seq<char> {
        self.text@
    }
}

impl PartialEq for GitHash {
    fn eq(&self, other: &Self) -> (same: bool) {
        same_text(self.text.as_str(), other.text.as_str())
    }
}

impl vstd::std_specs::cmp::PartialEqSpecImpl for GitHash {
    open spec fn obeys_eq_spec() -> bool {
        true
    }

    open spec fn eq_spec(&self, other: &Self) -> bool {
        self@ == other@
    }
}

impl std::str::FromStr for GitHash {
    type Err = InvalidHash;

    fn from_str(s: &str) -> (hash: Result<Self, InvalidHash>)
        ensures
            hash is Ok <==> is_hash(s@),
            hash matches Ok(h) ==> h@ == s@,
            hash matches Err(e) ==> e.text@ == s@,
    {
        GitHash::new(s.to_owned())
    }
}

impl Clone for GitHash {
    fn clone(&self) -> (copy: Self)
        ensures
            copy@ == self@,
    {
        GitHash { text: self.text.clone() }
    }
}

impl InvalidHash {
    /// What the user is told of this error.
    pub fn message(&self) -> (text: String)
        ensures
            text@ == "Invalid Git SHA-1 hash format: "@ + self.text@,
    {
        join2("Invalid Git SHA-1 hash format: ", self.text.as_str())
    }
}

impl GitHash {
    /// The hash that a text is.
    pub fn new(s: String) -> (hash: Result<Self, InvalidHash>)
        ensures
            hash is Ok <==> is_hash(s@),
            hash matches Ok(h) ==> h@ == s@,
            hash matches Err(e) ==> e.text@ == s@,
    {
        let chars = chars_of(s.as_str());
        if chars.len() != 40 {
            return Err(InvalidHash { text: s });
        }
        let mut i: usize = 0;
        while i < chars.len()
            invariant
                chars@ == s@,
                i <= chars@.len(),
                forall|j: int| 0 <= j < i ==> is_hex(#[trigger] s@[j]),
            decreases chars@.len() - i,
        {
            let c = chars[i];
            if !(('0' <= c && c <= '9') || ('a' <= c && c <= 'f') || ('A' <= c && c <= 'F')) {
                assert(!is_hex(s@[i as int]));
                return Err(InvalidHash { text: s });
            }
            i = i + 1;
        }
        Ok(GitHash { text: s })
    }

    /// The hash that a manifest holds: what was stored is taken as it stands.
    pub fn from_stored(text: String) -> (hash: Self)
        ensures
            hash@ == text@,
    {
        GitHash { text }
    }

    /// The text of this hash.
    pub fn as_str(&self) -> (text: &str)
        ensures
            text@ == self@,
    {
        self.text.as_str()
    }
}

/// A hash is forty of the hexadecimal digits, in either case, and nothing else.
pub proof fn law_hash_is_forty_hexadecimal_digits(s: String, hash: Result<GitHash, InvalidHash>)
    requires
        call_ensures(GitHash::new, (s,), hash),
    ensures
        hash is Ok <==> s@.len() == 40 && forall|i: int|
            0 <= i < s@.len() ==> "0123456789abcdefABCDEF"@.contains(#[trigger] s@[i]),
        hash matches Ok(h) ==> h@ == s@,
        hash matches Err(e) ==> e.text@ == s@,
{
    reveal_strlit("0123456789abcdefABCDEF");
    let digits = "0123456789abcdefABCDEF"@;
    assert forall|i: int| 0 <= i < s@.len() implies (is_hex(#[trigger] s@[i]) <==> digits.contains(
        s@[i],
    )) by {
        let c = s@[i];
        if is_hex(c) {
            let place: int = if c <= '9' {
                c as u32 - 48
            } else if c >= 'a' {
                10 + (c as u32 - 97)
            } else {
                16 + (c as u32 - 65)
            };
            assert(digits[place] == c);
        }
    }
}

/// A hash that was stored is taken as it stands, and every hash has its text.
pub proof fn law_stored_hash_is_taken_as_it_stands(text: String, hash: GitHash, own: &str)
    requires
        call_ensures(GitHash::from_stored, (text,), hash),
        call_ensures(GitHash::as_str, (&hash,), own),
    ensures
        own@ == text@,
        hash@ == text@,
{
}

} // verus!
