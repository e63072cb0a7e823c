//! Storage on an SFTP server.

use crate::storage::{StorageError, StorageFault};
use crate::text;
use crate::text::{
    chars_of, contains_lowered, join2, join3, part, same_text, split, strip_prefix, trim_leading,
    trim_trailing,
};
use vstd::prelude::*;

verus! {

/// Storage in a directory of an SFTP server.
#[derive(Debug)]
pub struct SftpStorage {
    /// What to connect to.
    pub connection: String,
    /// The path of the directory.
    pub remote_root: String,
}

impl Clone for SftpStorage {
    /// The same directory of the same server.
    fn clone(&self) -> (storage: Self)
        ensures
            storage.connection@ == self.connection@,
            storage.remote_root@ == self.remote_root@,
    {
        SftpStorage { connection: self.connection.clone(), remote_root: self.remote_root.clone() }
    }
}

/// A URL without its scheme, of which there are two.
pub open spec fn without_scheme(url: Seq<char>) -> Seq<char> {
    if "sftp://"@.is_prefix_of(url) {
        url.skip("sftp://"@.len() as int)
    } else if "ssh://"@.is_prefix_of(url) {
        url.skip("ssh://"@.len() as int)
    } else {
        url
    }
}

/// What to connect to: all before the first slash.
pub open spec fn connection_of(url: Seq<char>) -> Seq<char> {
    let rest = without_scheme(url);
    "ssh://"@ + rest.take(text::first_of(rest, '/') as int)
}

/// The path on the server: one slash, and what follows the first slashes.
pub open spec fn remote_path_of(url: Seq<char>) -> Seq<char> {
    let rest = without_scheme(url);
    "/"@ + text::after_leading(rest.skip(text::first_of(rest, '/') as int), '/')
}

/// What to connect to, and the path on the server.
pub fn parse_sftp_url(url: &str) -> (parsed: (String, String))
    ensures
        parsed.0@ == connection_of(url@),
        parsed.1@ == remote_path_of(url@),
{
    let rest = match strip_prefix(url, "sftp://") {
        Some(rest) => rest,
        None => match strip_prefix(url, "ssh://") {
            Some(rest) => rest,
            None => url.to_owned(),
        },
    };
    let chars = chars_of(rest.as_str());
    let mut at: usize = 0;
    while at < chars.len() && chars[at] != '/'
        invariant
            chars@ == rest@,
            at <= chars@.len(),
            forall|j: int| 0 <= j < at ==> rest@[j] != '/',
        decreases chars@.len() - at,
    {
        at = at + 1;
    }
    proof {
        text::lemma_first_of(rest@, '/', at as int);
        assert(rest@.subrange(0, at as int) =~= rest@.take(at as int));
        assert(rest@.subrange(at as int, rest@.len() as int) =~= rest@.skip(at as int));
    }
    let authority = part(rest.as_str(), 0, at);
    let path = part(rest.as_str(), at, chars.len());
    (join2("ssh://", authority.as_str()), join2("/", trim_leading(path.as_str(), '/').as_str()))
}

/// The path of a file of the storage on the server.
pub open spec fn remote_path(root: Seq<char>, relative: Seq<char>) -> Seq<char> {
    text::before_trailing(root, '/') + "/"@ + relative
}

/// The path of a file of the storage on the server.
pub fn rpath(root: &str, relative: &str) -> (path: String)
    ensures
        path@ == remote_path(root@, relative@),
{
    join3(trim_trailing(root, '/').as_str(), "/", relative)
}

/// Whether an error of the server says that there is no such file.
pub open spec fn says_not_found(message: Seq<char>) -> bool {
    text::holds(text::lowered(message), "no such file"@) || text::holds(
        text::lowered(message),
        "not found"@,
    )
}

/// Whether an error of the server says that there is no such file.
pub fn is_not_found(message: &str) -> (yes: bool)
    ensures
        yes == says_not_found(message@),
{
    contains_lowered(message, "no such file") || contains_lowered(message, "not found")
}

impl SftpStorage {
    /// The storage at a URL.
    pub fn new(url: &str) -> (storage: Self)
        ensures
            storage.connection@ == connection_of(url@),
            storage.remote_root@ == remote_path_of(url@),
    {
        let (connection, remote_root) = parse_sftp_url(url);
        SftpStorage { connection, remote_root }
    }

    /// Where a file of the storage is on the server.
    pub fn full_path(&self, path: &str) -> (full: String)
        ensures
            full@ == remote_path(self.remote_root@, path@),
    {
        rpath(self.remote_root.as_str(), path)
    }

    /// Where a file is written before it takes the place of another.
    pub fn temporary_path(&self, path: &str) -> (full: String)
        ensures
            full@ == remote_path(self.remote_root@, path@) + ".tmp"@,
    {
        join2(self.full_path(path).as_str(), ".tmp")
    }

    /// What reading the file at `path` of the storage gives.
    pub fn get(path: &str, answer: Result<Vec<u8>, String>) -> (contents: Result<
        Vec<u8>,
        StorageError,
    >)
        ensures
            match answer {
                Ok(bytes) => contents == Ok::<Vec<u8>, StorageError>(bytes),
                Err(message) => contents matches Err(e) && e@ == if says_not_found(message@) {
                    StorageFault::NotFound(path@)
                } else {
                    StorageFault::Other(message@)
                },
            },
    {
        match answer {
            Ok(bytes) => Ok(bytes),
            Err(message) => if is_not_found(message.as_str()) {
                Err(StorageError::NotFound(path.to_owned()))
            } else {
                Err(StorageError::Other(message))
            },
        }
    }

    /// What removing a file comes to: one that is not there is as good as
    /// removed.
    pub fn delete(answer: Result<(), String>) -> (done: Result<(), StorageError>)
        ensures
            match answer {
                Ok(_) => done is Ok,
                Err(message) => if says_not_found(message@) {
                    done is Ok
                } else {
                    done matches Err(e) && e@ == StorageFault::Other(message@)
                },
            },
    {
        match answer {
            Ok(_) => Ok(()),
            Err(message) => if is_not_found(message.as_str()) {
                Ok(())
            } else {
                Err(StorageError::Other(message))
            },
        }
    }
}

/// A path that goes on with a component.
pub open spec fn extended(path: Seq<char>, component: Seq<char>) -> Seq<char> {
    if component == ""@ {
        path + "/"@
    } else if path.len() == 0 || path == "/"@ {
        path + component
    } else {
        path + "/"@ + component
    }
}

/// The path that components lead to.
pub open spec fn path_of(components: Seq<Seq<char>>) -> Seq<char>
    decreases components.len(),
{
    if components.len() == 0 {
        ""@
    } else {
        extended(path_of(components.drop_last()), components.last())
    }
}

/// The directories on the way along components, from the root down.
pub open spec fn directories(components: Seq<Seq<char>>) -> Seq<Seq<char>>
    decreases components.len(),
{
    if components.len() == 0 {
        Seq::empty()
    } else if components.last() == ""@ {
        directories(components.drop_last())
    } else {
        directories(components.drop_last()).push(path_of(components))
    }
}

/// The directories that a file at a path is in, from the root down.
pub open spec fn parents(path: Seq<char>) -> Seq<Seq<char>> {
    directories(text::split_on(path, '/').drop_last())
}

/// The directories that a file at a path is in, from the root down: what has to
/// be there before it is written.
pub fn ensure_parent_dirs(path: &str) -> (list: Vec<String>)
    ensures
        text::texts(list@) == parents(path@),
{
    let components = split(path, '/');
    let ghost all = text::split_on(path@, '/');
    proof {
        text::lemma_split_is_not_empty(path@, '/');
        assert(text::texts(components@).len() == components@.len());
    }
    let last: usize = components.len() - 1;
    let mut list: Vec<String> = Vec::new();
    let mut cumulative = "".to_owned();
    let mut i: usize = 0;
    assert(all.take(0) =~= Seq::empty());
    assert(text::texts(list@) =~= Seq::empty());
    while i < last
        invariant
            i <= last < components@.len(),
            all == text::texts(components@),
            cumulative@ == path_of(all.take(i as int)),
            text::texts(list@) == directories(all.take(i as int)),
        decreases last - i,
    {
        let ghost before = text::texts(list@);
        let component = &components[i];
        proof {
            assert(all.take(i + 1).drop_last() =~= all.take(i as int));
            assert(all.take(i + 1).last() == component@);
            reveal_strlit("");
            assert(cumulative@.len() == 0 ==> cumulative@ =~= ""@);
        }
        if same_text(component.as_str(), "") {
            cumulative.append("/");
        } else {
            if same_text(cumulative.as_str(), "") || same_text(cumulative.as_str(), "/") {
                cumulative.append(component.as_str());
            } else {
                cumulative.append("/");
                cumulative.append(component.as_str());
            }
            assert(cumulative@ =~= path_of(all.take(i + 1)));
            list.push(cumulative.clone());
            assert(text::texts(list@) =~= before.push(cumulative@));
        }
        i = i + 1;
    }
    assert(all.take(last as int) =~= all.drop_last());
    list
}

/// A directory comes after those that it is in.
pub proof fn law_directories_come_after_their_parents(
    components: Seq<Seq<char>>,
    i: int,
    j: int,
)
    requires
        0 <= i <= j < directories(components).len(),
    ensures
        directories(components)[i].is_prefix_of(directories(components)[j]),
    decreases components.len(),
{
    let shorter = components.drop_last();
    if components.last() == ""@ || j < directories(shorter).len() {
        law_directories_come_after_their_parents(shorter, i, j);
    } else if i < j {
        lemma_directories_lead_to_the_path(shorter, i);
        let before = directories(shorter)[i];
        let end = path_of(components);
        assert(path_of(shorter).is_prefix_of(end));
        assert(end.subrange(0, before.len() as int) =~= path_of(shorter).subrange(
            0,
            before.len() as int,
        ));
    } else {
        let end = path_of(components);
        assert(end.subrange(0, end.len() as int) =~= end);
    }
}

/// Each directory on the way is a beginning of the path.
proof fn lemma_directories_lead_to_the_path(components: Seq<Seq<char>>, i: int)
    requires
        0 <= i < directories(components).len(),
    ensures
        directories(components)[i].is_prefix_of(path_of(components)),
    decreases components.len(),
{
    let shorter = components.drop_last();
    let end = path_of(components);
    if i < directories(shorter).len() {
        lemma_directories_lead_to_the_path(shorter, i);
        let before = directories(shorter)[i];
        assert(path_of(shorter).is_prefix_of(end)) by {
            assert(end.subrange(0, path_of(shorter).len() as int) =~= path_of(shorter));
        }
        assert(end.subrange(0, before.len() as int) =~= path_of(shorter).subrange(
            0,
            before.len() as int,
        ));
    } else {
        assert(end.subrange(0, end.len() as int) =~= end);
    }
}

/// Whether components have no slash in them, and are empty at most at the front.
pub open spec fn are_plain(components: Seq<Seq<char>>) -> bool {
    &&& forall|i: int| 1 <= i < components.len() ==> (#[trigger] components[i]).len() > 0
    &&& forall|i: int, j: int|
        0 <= i < components.len() && 0 <= j < components[i].len() ==> (
        #[trigger] components[i][j]) != '/'
}

/// Plain components lead to the path that they are the pieces of.
proof fn lemma_path_of_plain_components(components: Seq<Seq<char>>)
    requires
        are_plain(components),
        components.len() > 0,
        components.len() > 1 || components[0].len() > 0,
    ensures
        path_of(components) == text::rejoined(components, '/'),
        path_of(components).len() > 0,
        components.len() > 1 ==> path_of(components).len() > 1,
    decreases components.len(),
{
    reveal_strlit("");
    reveal_strlit("/");
    let shorter = components.drop_last();
    let last = components.last();
    assert(last.len() > 0);
    if components.len() == 1 {
        assert(path_of(shorter) =~= ""@);
        assert(path_of(components) =~= last);
    } else {
        assert forall|i: int| 1 <= i < shorter.len() implies (#[trigger] shorter[i]).len() > 0 by {
            assert(components[i].len() > 0);
        }
        assert forall|i: int, j: int|
            0 <= i < shorter.len() && 0 <= j < shorter[i].len() implies (#[trigger] shorter[i][j])
            != '/' by {
            assert(components[i][j] != '/');
        }
        if shorter.len() == 1 && shorter[0].len() == 0 {
            assert(shorter[0] =~= ""@);
            assert(shorter.drop_last() =~= Seq::empty());
            assert(path_of(shorter.drop_last()) == ""@);
            assert(path_of(shorter) =~= "/"@);
            assert(text::rejoined(shorter, '/') =~= ""@);
            assert(path_of(components) =~= "/"@ + last);
        } else {
            lemma_path_of_plain_components(shorter);
            let path = path_of(shorter);
            if shorter.len() == 1 {
                assert(shorter[0][0] != '/');
                assert(path[0] != '/');
            }
            assert(path != "/"@) by {
                if path == "/"@ {
                    assert(path[0] == '/');
                }
            }
            assert(path_of(components) =~= path + "/"@ + last);
        }
        assert(path_of(components) =~= text::rejoined(components, '/'));
    }
}

/// Before a file is written, the directory that it is in is made: the last
/// directory that is made, a slash and the name of the file are its path.  Of
/// paths with two slashes in a row this is not said.
pub proof fn law_parent_is_made(path: Seq<char>)
    requires
        text::split_on(path, '/').len() > 1,
        text::split_on(path, '/').len() > 2 || text::split_on(path, '/')[0].len() > 0,
        forall|i: int|
            1 <= i < text::split_on(path, '/').len() ==> (#[trigger] text::split_on(
                path,
                '/',
            )[i]).len() > 0,
    ensures
        parents(path).len() > 0,
        parents(path).last() + "/"@ + text::split_on(path, '/').last() == path,
{
    reveal_strlit("");
    reveal_strlit("/");
    let pieces = text::split_on(path, '/');
    let components = pieces.drop_last();
    text::lemma_split(path, '/');
    assert forall|i: int| 1 <= i < components.len() implies (#[trigger] components[i]).len() > 0 by {
        assert(pieces[i].len() > 0);
    }
    assert forall|i: int, j: int|
        0 <= i < components.len() && 0 <= j < components[i].len() implies (
    #[trigger] components[i][j]) != '/' by {
        assert(pieces[i][j] != '/');
    }
    lemma_path_of_plain_components(components);
    assert(components.last().len() > 0);
    assert(parents(path).last() == path_of(components));
    assert(path_of(components) + "/"@ + pieces.last() =~= path);
}

/// A URL names a server and a path: with either scheme or none, the server is what
/// stands before the first slash, and the path is one slash and what follows the
/// slashes.
pub proof fn law_url_names_a_server_and_a_path(
    url: &str,
    parsed: (String, String),
    scheme: Seq<char>,
    server: Seq<char>,
    slashes: nat,
    rest: Seq<char>,
)
    requires
        call_ensures(parse_sftp_url, (url,), parsed),
        url@ == scheme + (server + (Seq::new(slashes, |i: int| '/') + rest)),
        scheme == "sftp://"@ || scheme == "ssh://"@ || (scheme.len() == 0
            && !"sftp://"@.is_prefix_of(url@) && !"ssh://"@.is_prefix_of(url@)),
        forall|i: int| 0 <= i < server.len() ==> server[i] != '/',
        rest.len() == 0 || (slashes > 0 && rest[0] != '/'),
    ensures
        parsed.0@ == "ssh://"@ + server,
        parsed.1@ == "/"@ + rest,
{
    reveal_strlit("sftp://");
    reveal_strlit("ssh://");
    let behind = Seq::new(slashes, |i: int| '/') + rest;
    let after = server + behind;
    assert(url@.skip(scheme.len() as int) =~= after);
    assert(url@.take(scheme.len() as int) =~= scheme);
    assert(url@.subrange(0, scheme.len() as int) =~= scheme);
    if scheme == "ssh://"@ && "sftp://"@.is_prefix_of(url@) {
        assert(url@.subrange(0, 7)[1] == 'f');
        assert(url@[1] == scheme[1]);
    }
    assert(without_scheme(url@) == after);
    if behind.len() > 0 {
        assert(behind[0] == '/');
    }
    text::lemma_first_of(after, '/', server.len() as int);
    assert(after.take(server.len() as int) =~= server);
    assert(after.skip(server.len() as int) =~= behind);
    text::law_repeated_ends_are_taken_off(slashes, rest, '/');
}

/// One slash stands between the root of the storage and a file of it, however many
/// the root ends with.
pub proof fn law_one_slash_stands_between_root_and_file(
    root: &str,
    relative: &str,
    path: String,
    front: Seq<char>,
    slashes: nat,
)
    requires
        call_ensures(rpath, (root, relative), path),
        root@ == front + Seq::new(slashes, |i: int| '/'),
        front.len() == 0 || front.last() != '/',
    ensures
        path@ == front + "/"@ + relative@,
{
    text::law_repeated_ends_are_taken_off(slashes, front, '/');
}

/// A file that is not there is told by the words of the server, in either case; to
/// read it is to find none, and to remove it is nothing to do; any other failure is
/// one.
pub proof fn law_missing_file_is_told_by_the_words_of_the_server(
    path: &str,
    message: String,
    yes: bool,
    contents: Result<Vec<u8>, StorageError>,
    done: Result<(), StorageError>,
)
    requires
        exists|words: &str| words@ == message@ && #[trigger] call_ensures(is_not_found, (words,), yes),
        call_ensures(SftpStorage::get, (path, Err(message)), contents),
        call_ensures(SftpStorage::delete, (Err(message),), done),
    ensures
        yes <==> text::holds(text::lowered(message@), "no such file"@) || text::holds(
            text::lowered(message@),
            "not found"@,
        ),
        yes ==> done is Ok && (contents matches Err(e) && e@ == StorageFault::NotFound(path@)),
        !yes ==> (done matches Err(e) && e@ == StorageFault::Other(message@)) && (
        contents matches Err(e) && e@ == StorageFault::Other(message@)),
{
}

/// Each component leads one directory further: an empty one is a slash, the first
/// stands alone or behind the root, any other behind a slash; and a directory is
/// made for each that is not empty.
pub proof fn law_each_component_leads_one_directory_further(
    components: Seq<Seq<char>>,
    next: Seq<char>,
)
    ensures
        ({
            let path = path_of(components);
            let further = path_of(components.push(next));
            &&& path_of(Seq::empty()).len() == 0
            &&& directories(Seq::empty()).len() == 0
            &&& next.len() == 0 ==> further == path.push('/') && directories(components.push(next))
                == directories(components)
            &&& next.len() > 0 ==> directories(components.push(next)) == directories(
                components,
            ).push(further)
            &&& next.len() > 0 && (path.len() == 0 || path == seq!['/']) ==> further == path + next
            &&& next.len() > 0 && path.len() > 0 && path != seq!['/'] ==> further == path + seq!['/']
                + next
        }),
{
    reveal_strlit("");
    reveal_strlit("/");
    assert("/"@ =~= seq!['/']);
    assert(""@ =~= Seq::empty());
    assert(next.len() == 0 ==> next =~= ""@);
    assert(components.push(next).drop_last() =~= components);
    assert(path_of(components) + "/"@ =~= path_of(components).push('/'));
}

/// The directories of a path are those of the components before its last slash.
pub proof fn law_directories_stand_before_the_last_slash(
    path: &str,
    list: Vec<String>,
    front: Seq<char>,
    name: Seq<char>,
)
    requires
        call_ensures(ensure_parent_dirs, (path,), list),
        forall|i: int| 0 <= i < name.len() ==> name[i] != '/',
        path@ == name || path@ == front + seq!['/'] + name,
    ensures
        path@ == name ==> list@.len() == 0,
        path@ == front + seq!['/'] + name ==> text::texts(list@) == directories(
            text::split_on(front, '/'),
        ),
{
    text::law_split_is_cut_at_each_occurrence(name, Seq::empty(), '/');
    text::law_split_is_cut_at_each_occurrence(front, name, '/');
    assert(text::texts(list@).len() == list@.len());
    assert(seq![name].drop_last() =~= Seq::empty());
    let fronts = text::split_on(front, '/');
    assert((fronts + seq![name]).drop_last() =~= fronts);
}

/// A storage is at the server and the path of its URL, and a file is first written
/// beside its place.
pub proof fn law_storage_is_at_its_url(
    url: &str,
    storage: SftpStorage,
    parsed: (String, String),
    path: &str,
    full: String,
    temporary: String,
)
    requires
        call_ensures(SftpStorage::new, (url,), storage),
        call_ensures(parse_sftp_url, (url,), parsed),
        call_ensures(SftpStorage::full_path, (&storage, path), full),
        call_ensures(SftpStorage::temporary_path, (&storage, path), temporary),
    ensures
        storage.connection@ == parsed.0@,
        storage.remote_root@ == parsed.1@,
        full@ == remote_path(parsed.1@, path@),
        temporary@ == full@ + ".tmp"@,
{
}

} // verus!
