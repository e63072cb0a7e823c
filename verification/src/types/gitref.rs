//! Names of references.

use crate::text;
use crate::text::{has_space, same_text, starts_with};
use vstd::prelude::*;

verus! {

/// The name of a reference.
#[derive(Debug, Eq, Hash)]
pub struct GitRef {
    text: String,
}

/// Why a text is no reference.
#[derive(Debug)]
pub enum InvalidRef {
    /// It holds white space.
    WhiteSpace,
    /// It is neither `HEAD` nor a branch nor a tag.
    Namespace,
}

/// Whether a text is `HEAD`, or the full name of a branch or a tag.
pub open spec fn in_namespace(text: Seq<char>) -> bool {
    text == "HEAD"@ || "refs/heads/"@.is_prefix_of(text) || "refs/tags/"@.is_prefix_of(text)
}

/// Whether a text is a reference.
pub open spec fn is_ref(text: Seq<char>) -> bool {
    !text::spaced(text) && in_namespace(text)
}

impl View for GitRef {
    type V = Seq<char>;

    closed spec fn view(&self) -> Seq<char> {
        self.text@
    }
}

impl PartialEq for GitRef {
    fn eq(&self, other: &Self) -> (same: bool) {
        same_text(self.text.as_str(), other.text.as_str())
    }
}

impl vstd::std_specs::cmp::PartialEqSpecImpl for GitRef {
    open spec fn obeys_eq_spec() -> bool {
        true
    }

    open spec fn eq_spec(&self, other: &Self) -> bool {
        self@ == other@
    }
}

impl std::str::FromStr for GitRef {
    type Err = InvalidRef;

    fn from_str(s: &str) -> (reference: Result<Self, InvalidRef>)
        ensures
            reference is Ok <==> is_ref(s@),
            reference matches Ok(r) ==> r@ == s@,
            reference matches Err(e) ==> (e is WhiteSpace <==> text::spaced(s@)),
    {
        GitRef::new(s.to_owned())
    }
}

impl Clone for GitRef {
    fn clone(&self) -> (copy: Self)
        ensures
            copy@ == self@,
    {
        GitRef { text: self.text.clone() }
    }
}

impl InvalidRef {
    /// What the user is told of this error.
    pub fn message(&self) -> (text: String)
        ensures
            text@ == match self {
                InvalidRef::WhiteSpace =>
                    "Invalid reference! Git references cannot contain whitespace."@,
                InvalidRef::Namespace =>
                    "Invalid reference! Must be 'HEAD', or start with 'refs/heads/' or 'refs/tags/'."@,
            },
    {
        match self {
            InvalidRef::WhiteSpace =>
                "Invalid reference! Git references cannot contain whitespace.".to_owned(),
            InvalidRef::Namespace =>
                "Invalid reference! Must be 'HEAD', or start with 'refs/heads/' or 'refs/tags/'.".to_owned(),
        }
    }
}

impl GitRef {
    /// The reference that a text is.
    pub fn new(ref_name: String) -> (reference: Result<Self, InvalidRef>)
        ensures
            reference is Ok <==> is_ref(ref_name@),
            reference matches Ok(r) ==> r@ == ref_name@,
            reference matches Err(e) ==> (e is WhiteSpace <==> text::spaced(ref_name@)),
    {
        let name = ref_name.as_str();
        if has_space(name) {
            return Err(InvalidRef::WhiteSpace);
        }
        if same_text(name, "HEAD") || starts_with(name, "refs/heads/") || starts_with(
            name,
            "refs/tags/",
        ) {
            Ok(GitRef { text: ref_name })
        } else {
            Err(InvalidRef::Namespace)
        }
    }

    /// The reference that a manifest holds: what was stored is taken as it
    /// stands.
    pub fn from_stored(text: String) -> (reference: Self)
        ensures
            reference@ == text@,
    {
        GitRef { text }
    }

    /// The text of this reference.
    pub fn as_str(&self) -> (text: &str)
        ensures
            text@ == self@,
    {
        self.text.as_str()
    }
}

/// A reference is `HEAD`, or any name behind `refs/heads/` or `refs/tags/`,
/// without white space; no other text is one.
pub proof fn law_reference_is_head_or_a_branch_or_a_tag(
    name: String,
    reference: Result<GitRef, InvalidRef>,
    rest: Seq<char>,
)
    requires
        call_ensures(GitRef::new, (name,), reference),
    ensures
        name@ == "HEAD"@ || name@ == "refs/heads/"@ + rest || name@ == "refs/tags/"@ + rest ==> (
        reference is Ok <==> forall|i: int|
            0 <= i < name@.len() ==> !text::is_space(#[trigger] name@[i])),
        name@ != "HEAD"@ && !"refs/heads/"@.is_prefix_of(name@) && !"refs/tags/"@.is_prefix_of(
            name@,
        ) ==> reference is Err,
        reference matches Ok(r) ==> r@ == name@,
        reference matches Err(InvalidRef::WhiteSpace) <==> exists|i: int|
            0 <= i < name@.len() && text::is_space(#[trigger] name@[i]),
{
    let heads = "refs/heads/"@;
    let tags = "refs/tags/"@;
    if name@ == heads + rest {
        assert(name@.subrange(0, heads.len() as int) =~= heads);
    }
    if name@ == tags + rest {
        assert(name@.subrange(0, tags.len() as int) =~= tags);
    }
}

/// A reference that was stored is taken as it stands, and every reference has its
/// text.
pub proof fn law_stored_reference_is_taken_as_it_stands(
    text: String,
    reference: GitRef,
    own: &str,
)
    requires
        call_ensures(GitRef::from_stored, (text,), reference),
        call_ensures(GitRef::as_str, (&reference,), own),
    ensures
        own@ == text@,
        reference@ == text@,
{
}

} // verus!
