//! Unix paths as texts.

use crate::text;
use crate::text::{chars_of, join2, join3, same_text, split};
use vstd::prelude::*;

verus! {

/// The path that `relative` names from `base`: an absolute path stands for
/// itself, any other is set behind `base` with one slash between the two.
pub open spec fn joined(base: Seq<char>, relative: Seq<char>) -> Seq<char> {
    if relative.len() > 0 && relative[0] == '/' {
        relative
    } else if base.len() == 0 || base.last() == '/' {
        base + relative
    } else {
        base + "/"@ + relative
    }
}

/// The path that `relative` names from `base`.
pub fn join_path(base: &str, relative: &str) -> (path: String)
    ensures
        path@ == joined(base@, relative@),
{
    let back = chars_of(relative);
    if back.len() > 0 && back[0] == '/' {
        return relative.to_owned();
    }
    let front = chars_of(base);
    if front.len() == 0 || front[front.len() - 1] == '/' {
        join2(base, relative)
    } else {
        join3(base, "/", relative)
    }
}

/// The last of the names of a path that says something: neither empty nor the
/// name of the current directory.
pub open spec fn last_name(names: Seq<Seq<char>>) -> Option<Seq<char>>
    decreases names.len(),
{
    if names.len() == 0 {
        None
    } else if names.last() == ""@ || names.last() == "."@ {
        last_name(names.drop_last())
    } else {
        Some(names.last())
    }
}

/// Whether the last component of `path` is `name`.
pub open spec fn is_named(path: Seq<char>, name: Seq<char>) -> bool {
    last_name(text::split_on(path, '/')) == Some(name)
}

/// Whether the last component of `path` is `name`.
pub fn ends_in_name(path: &str, name: &str) -> (yes: bool)
    ensures
        yes == is_named(path@, name@),
{
    let names = split(path, '/');
    let mut length: usize = names.len();
    let ghost all = text::texts(names@);
    assert(all.take(length as int) =~= all);
    while length > 0
        invariant
            length <= names@.len(),
            all == text::texts(names@),
            all == text::split_on(path@, '/'),
            last_name(all.take(length as int)) == last_name(all),
        decreases length,
    {
        let ghost rest = all.take(length as int);
        assert(rest.last() == names@[length - 1]@);
        assert(rest.drop_last() =~= all.take(length - 1));
        let last = &names[length - 1];
        if same_text(last.as_str(), "") || same_text(last.as_str(), ".") {
            length = length - 1;
        } else {
            return same_text(last.as_str(), name);
        }
    }
    false
}

/// A path is named from another: behind it with one slash between the two, but
/// an absolute path is named by itself.
pub proof fn law_path_is_named_from_another(
    base: &str,
    relative: &str,
    path: String,
    front: Seq<char>,
    name: Seq<char>,
)
    requires
        call_ensures(join_path, (base, relative), path),
        relative@ == name,
        base@ == front || base@ == front.push('/'),
        front.len() > 0 ==> front.last() != '/',
    ensures
        name.len() > 0 && name[0] == '/' ==> path@ == name,
        name.len() == 0 || name[0] != '/' ==> path@ == if base@.len() == 0 {
            name
        } else {
            front.push('/') + name
        },
{
    reveal_strlit("/");
    assert(base@ + "/"@ + name =~= base@.push('/') + name);
    assert(Seq::<char>::empty() + name =~= name);
    assert(base@.len() == 0 ==> base@ =~= Seq::empty());
}

/// Whether a text can be the last component of a path: it is not empty, not the
/// name of the current directory, and has no slash in it.
pub open spec fn is_component(name: Seq<char>) -> bool {
    &&& name.len() > 0
    &&& name != seq!['.']
    &&& forall|i: int| 0 <= i < name.len() ==> name[i] != '/'
}

/// The last name is that of the longest front that has one.
proof fn lemma_last_name_of_more(names: Seq<Seq<char>>, more: Seq<char>)
    ensures
        more == ""@ || more == "."@ ==> last_name(names.push(more)) == last_name(names),
        more != ""@ && more != "."@ ==> last_name(names.push(more)) == Some(more),
{
    assert(names.push(more).drop_last() =~= names);
}

/// The last component of a path is its name: alone or behind a slash, whatever
/// directories come before it, and whatever slashes or names of the current
/// directory come behind it.
pub proof fn law_last_component_is_the_name(front: Seq<char>, name: Seq<char>, other: Seq<char>)
    requires
        is_component(name),
    ensures
        is_named(name, other) <==> other == name,
        is_named(front.push('/') + name, other) <==> other == name,
        is_named(front.push('/'), other) <==> is_named(front, other),
        is_named(front.push('/').push('.'), other) <==> is_named(front, other),
        !is_named(Seq::empty(), other),
{
    reveal_strlit("");
    reveal_strlit(".");
    assert(""@ =~= Seq::empty());
    assert("."@ =~= seq!['.']);
    assert(name != ""@);
    text::law_split_is_cut_at_each_occurrence(name, Seq::empty(), '/');
    assert(last_name(seq![name]) == Some(name));
    text::law_split_is_cut_at_each_occurrence(front, name, '/');
    assert(front + seq!['/'] + name =~= front.push('/') + name);
    let fronts = text::split_on(front, '/');
    assert(fronts + seq![name] =~= fronts.push(name));
    lemma_last_name_of_more(fronts, name);
    text::law_split_is_cut_at_each_occurrence(front, Seq::empty(), '/');
    text::law_split_is_cut_at_each_occurrence(Seq::empty(), Seq::empty(), '/');
    assert(front + seq!['/'] + Seq::empty() =~= front.push('/'));
    assert(fronts + seq![Seq::<char>::empty()] =~= fronts.push(Seq::empty()));
    lemma_last_name_of_more(fronts, Seq::empty());
    text::law_split_is_cut_at_each_occurrence(front, seq!['.'], '/');
    text::law_split_is_cut_at_each_occurrence(seq!['.'], Seq::empty(), '/');
    assert(front + seq!['/'] + seq!['.'] =~= front.push('/').push('.'));
    assert(fronts + seq![seq!['.']] =~= fronts.push(seq!['.']));
    lemma_last_name_of_more(fronts, seq!['.']);
    let none = seq![Seq::<char>::empty()];
    assert(none.drop_last() =~= Seq::empty());
    assert(last_name(Seq::<Seq<char>>::empty()) is None);
    assert(last_name(none) is None);
}

} // verus!
