//! The manifest of a repository.

use crate::text::same_text;
use crate::types::githash::GitHash;
use crate::types::gitref::GitRef;
use crate::types::packfilerecord::{Packfile, PackfileRecord};
use vstd::prelude::*;

verus! {

/// References and the commits they name, each reference at most once, in the
/// order in which they came.
#[derive(Debug)]
pub struct Heads {
    entries: Vec<(GitRef, GitHash)>,
}

/// Whether no two entries have the same reference.
pub open spec fn no_ref_twice(listing: Seq<(Seq<char>, Seq<char>)>) -> bool {
    forall|i: int, j: int|
        0 <= i < j < listing.len() ==> (#[trigger] listing[i]).0 != (#[trigger] listing[j]).0
}

/// Whether an entry for a reference stands at a place.
pub open spec fn names_at(
    listing: Seq<(Seq<char>, Seq<char>)>,
    reference: Seq<char>,
    place: int,
) -> bool {
    0 <= place < listing.len() && listing[place].0 == reference
}

/// The commits that references name.
pub open spec fn as_map(listing: Seq<(Seq<char>, Seq<char>)>) -> Map<Seq<char>, Seq<char>> {
    Map::new(
        |reference: Seq<char>| exists|i: int| names_at(listing, reference, i),
        |reference: Seq<char>| listing[choose|i: int| names_at(listing, reference, i)].1,
    )
}

/// What a row of entries stands for.
pub open spec fn listing_of(entries: Seq<(GitRef, GitHash)>) -> Seq<(Seq<char>, Seq<char>)> {
    Seq::new(entries.len(), |i: int| (entries[i].0@, entries[i].1@))
}

/// Where no reference is there twice, each entry is in the map.
pub proof fn lemma_entry_is_in_map(listing: Seq<(Seq<char>, Seq<char>)>, place: int)
    requires
        no_ref_twice(listing),
        0 <= place < listing.len(),
    ensures
        as_map(listing).dom().contains(listing[place].0),
        as_map(listing)[listing[place].0] == listing[place].1,
{
    let reference = listing[place].0;
    assert(names_at(listing, reference, place));
    let found = choose|i: int| names_at(listing, reference, i);
    if found < place {
        assert(listing[found].0 != listing[place].0);
    } else if place < found {
        assert(listing[place].0 != listing[found].0);
    }
}

/// The map of a row of entries is known by its entries.
proof fn lemma_is_map(
    listing: Seq<(Seq<char>, Seq<char>)>,
    map: Map<Seq<char>, Seq<char>>,
)
    requires
        no_ref_twice(listing),
        forall|i: int|
            0 <= i < listing.len() ==> map.dom().contains((#[trigger] listing[i]).0)
                && map[listing[i].0] == listing[i].1,
        forall|reference: Seq<char>| #[trigger]
            map.dom().contains(reference) ==> exists|i: int| names_at(listing, reference, i),
    ensures
        as_map(listing) == map,
{
    let other = as_map(listing);
    assert forall|reference: Seq<char>| #[trigger] other.dom().contains(reference)
        == map.dom().contains(reference) by {
        if other.dom().contains(reference) {
            let i = choose|i: int| names_at(listing, reference, i);
            assert(listing[i].0 == reference);
        }
    }
    assert forall|reference: Seq<char>| #[trigger] other.dom().contains(reference) implies other[reference]
        == map[reference] by {
        let i = choose|i: int| names_at(listing, reference, i);
        assert(listing[i].0 == reference);
        lemma_entry_is_in_map(listing, i);
    }
    assert(other =~= map);
}

/// A new commit at a place is a new commit in the map.
proof fn lemma_map_of_update(listing: Seq<(Seq<char>, Seq<char>)>, place: int, hash: Seq<char>)
    requires
        no_ref_twice(listing),
        0 <= place < listing.len(),
    ensures
        no_ref_twice(listing.update(place, (listing[place].0, hash))),
        as_map(listing.update(place, (listing[place].0, hash))) == as_map(listing).insert(
            listing[place].0,
            hash,
        ),
{
    let reference = listing[place].0;
    let later = listing.update(place, (reference, hash));
    assert forall|i: int| 0 <= i < later.len() implies (#[trigger] later[i]).0 == listing[i].0 by {}
    assert forall|i: int, j: int| 0 <= i < j < later.len() implies (#[trigger] later[i]).0 != (
    #[trigger] later[j]).0 by {
        assert(listing[i].0 != listing[j].0);
    }
    let map = as_map(listing).insert(reference, hash);
    assert forall|i: int| 0 <= i < later.len() implies map.dom().contains((#[trigger] later[i]).0)
        && map[later[i].0] == later[i].1 by {
        lemma_entry_is_in_map(listing, i);
        if i < place {
            assert(listing[i].0 != listing[place].0);
        } else if place < i {
            assert(listing[place].0 != listing[i].0);
        }
    }
    assert forall|other: Seq<char>| #[trigger] map.dom().contains(other) implies exists|i: int|
        names_at(later, other, i) by {
        if other == reference {
            assert(names_at(later, other, place));
        } else {
            let i = choose|i: int| names_at(listing, other, i);
            assert(names_at(later, other, i));
        }
    }
    lemma_is_map(later, map);
}

/// A new entry is a new reference in the map.
proof fn lemma_map_of_push(
    listing: Seq<(Seq<char>, Seq<char>)>,
    reference: Seq<char>,
    hash: Seq<char>,
)
    requires
        no_ref_twice(listing),
        forall|i: int| 0 <= i < listing.len() ==> (#[trigger] listing[i]).0 != reference,
    ensures
        no_ref_twice(listing.push((reference, hash))),
        as_map(listing.push((reference, hash))) == as_map(listing).insert(reference, hash),
{
    let later = listing.push((reference, hash));
    assert forall|i: int, j: int| 0 <= i < j < later.len() implies (#[trigger] later[i]).0 != (
    #[trigger] later[j]).0 by {
        assert(later[i] == listing[i]);
        if j < listing.len() {
            assert(later[j] == listing[j]);
        }
    }
    let map = as_map(listing).insert(reference, hash);
    assert forall|i: int| 0 <= i < later.len() implies map.dom().contains((#[trigger] later[i]).0)
        && map[later[i].0] == later[i].1 by {
        if i < listing.len() {
            assert(later[i] == listing[i]);
            lemma_entry_is_in_map(listing, i);
        }
    }
    assert forall|other: Seq<char>| #[trigger] map.dom().contains(other) implies exists|i: int|
        names_at(later, other, i) by {
        if other == reference {
            assert(names_at(later, other, listing.len() as int));
        } else {
            let i = choose|i: int| names_at(listing, other, i);
            assert(names_at(later, other, i));
        }
    }
    lemma_is_map(later, map);
}

/// An entry less is a reference less in the map.
proof fn lemma_map_of_remove(listing: Seq<(Seq<char>, Seq<char>)>, place: int)
    requires
        no_ref_twice(listing),
        0 <= place < listing.len(),
    ensures
        no_ref_twice(listing.remove(place)),
        as_map(listing.remove(place)) == as_map(listing).remove(listing[place].0),
{
    let reference = listing[place].0;
    let later = listing.remove(place);
    assert forall|i: int, j: int| 0 <= i < j < later.len() implies (#[trigger] later[i]).0 != (
    #[trigger] later[j]).0 by {
        let a = if i < place { i } else { i + 1 };
        let b = if j < place { j } else { j + 1 };
        assert(later[i] == listing[a]);
        assert(later[j] == listing[b]);
    }
    let map = as_map(listing).remove(reference);
    assert forall|i: int| 0 <= i < later.len() implies map.dom().contains((#[trigger] later[i]).0)
        && map[later[i].0] == later[i].1 by {
        let a = if i < place { i } else { i + 1 };
        assert(later[i] == listing[a]);
        lemma_entry_is_in_map(listing, a);
        if a < place {
            assert(listing[a].0 != listing[place].0);
        } else {
            assert(listing[place].0 != listing[a].0);
        }
    }
    assert forall|other: Seq<char>| #[trigger] map.dom().contains(other) implies exists|i: int|
        names_at(later, other, i) by {
        let i = choose|i: int| names_at(listing, other, i);
        let a = if i < place { i } else { i - 1 };
        assert(later[a] == listing[i]);
        assert(names_at(later, other, a));
    }
    lemma_is_map(later, map);
}

impl Heads {
    #[verifier::type_invariant]
    spec fn names_each_reference_once(self) -> bool {
        no_ref_twice(self.listing())
    }

    /// The references and their commits, in order.
    pub closed spec fn listing(self) -> Seq<(Seq<char>, Seq<char>)> {
        listing_of(self.entries@)
    }

    /// No references.
    pub fn new() -> (heads: Self)
        ensures
            heads.listing() == Seq::<(Seq<char>, Seq<char>)>::empty(),
    {
        let heads = Heads { entries: Vec::new() };
        assert(heads.listing() =~= Seq::empty());
        heads
    }

    /// How many references there are.
    pub fn len(&self) -> (length: usize)
        ensures
            length == self.listing().len(),
            no_ref_twice(self.listing()),
    {
        proof {
            use_type_invariant(self);
        }
        self.entries.len()
    }

    /// The reference at a place in the order, and its commit.
    pub fn entry(&self, place: usize) -> (entry: (&GitRef, &GitHash))
        requires
            place < self.listing().len(),
        ensures
            (entry.0@, entry.1@) == self.listing()[place as int],
    {
        let (reference, hash) = &self.entries[place];
        (reference, hash)
    }

    /// The place of a reference in the order, or the number of references.
    fn find(&self, reference: &GitRef) -> (place: usize)
        ensures
            place <= self.listing().len(),
            place < self.listing().len() ==> self.listing()[place as int].0 == reference@,
            forall|j: int|
                0 <= j < place ==> (#[trigger] self.listing()[j]).0 != reference@,
    {
        let mut i: usize = 0;
        while i < self.entries.len()
            invariant
                i <= self.entries@.len(),
                forall|j: int| 0 <= j < i ==> (#[trigger] self.listing()[j]).0 != reference@,
            decreases self.entries@.len() - i,
        {
            assert(self.listing()[i as int].0 == self.entries@[i as int].0@);
            if same_text(self.entries[i].0.as_str(), reference.as_str()) {
                return i;
            }
            i = i + 1;
        }
        i
    }

    /// The commit that a reference names.
    pub fn get(&self, reference: &GitRef) -> (hash: Option<&GitHash>)
        ensures
            hash is Some <==> as_map(self.listing()).dom().contains(reference@),
            hash matches Some(h) ==> h@ == as_map(self.listing())[reference@],
    {
        proof {
            use_type_invariant(self);
        }
        let place: usize = self.find(reference);
        if place < self.entries.len() {
            proof {
                lemma_entry_is_in_map(self.listing(), place as int);
            }
            Some(&self.entries[place].1)
        } else {
            None
        }
    }

    /// Lets a reference name a commit.  A reference that is there keeps its
    /// place, a new one comes last.
    pub fn insert(&mut self, reference: GitRef, hash: GitHash)
        ensures
            as_map(final(self).listing()) == as_map(old(self).listing()).insert(
                reference@,
                hash@,
            ),
            forall|i: int| #[trigger]
                names_at(old(self).listing(), reference@, i) ==> final(self).listing() == old(
                    self,
                ).listing().update(i, (reference@, hash@)),
            !as_map(old(self).listing()).dom().contains(reference@) ==> final(self).listing()
                == old(self).listing().push((reference@, hash@)),
    {
        proof {
            use_type_invariant(&*self);
        }
        let ghost before = self.listing();
        let place: usize = self.find(&reference);
        let mut entries: Vec<(GitRef, GitHash)> = Vec::new();
        std::mem::swap(&mut entries, &mut self.entries);
        let ghost new_entry = (reference@, hash@);
        if place < entries.len() {
            proof {
                lemma_map_of_update(before, place as int, hash@);
                lemma_entry_is_in_map(before, place as int);
            }
            entries.set(place, (reference, hash));
            assert(listing_of(entries@) =~= before.update(place as int, new_entry));
            assert forall|i: int| #[trigger] names_at(before, new_entry.0, i) implies i == place by {
                if i < place {
                    assert(before[i].0 != new_entry.0);
                } else if place < i {
                    assert(before[place as int].0 != before[i].0);
                }
            }
        } else {
            proof {
                lemma_map_of_push(before, new_entry.0, new_entry.1);
            }
            entries.push((reference, hash));
            assert(listing_of(entries@) =~= before.push(new_entry));
        }
        self.entries = entries;
    }

    /// Forgets a reference; the others keep their order.
    pub fn remove(&mut self, reference: &GitRef)
        ensures
            as_map(final(self).listing()) == as_map(old(self).listing()).remove(reference@),
            forall|i: int| #[trigger]
                names_at(old(self).listing(), reference@, i) ==> final(self).listing() == old(
                    self,
                ).listing().remove(i),
            !as_map(old(self).listing()).dom().contains(reference@) ==> final(self).listing()
                == old(self).listing(),
    {
        proof {
            use_type_invariant(&*self);
        }
        let ghost before = self.listing();
        let place: usize = self.find(reference);
        if place < self.entries.len() {
            let mut entries: Vec<(GitRef, GitHash)> = Vec::new();
            std::mem::swap(&mut entries, &mut self.entries);
            proof {
                lemma_map_of_remove(before, place as int);
                lemma_entry_is_in_map(before, place as int);
                assert forall|i: int| #[trigger] names_at(before, reference@, i) implies i == place by {
                    if i < place {
                        assert(before[i].0 != reference@);
                    } else if place < i {
                        assert(before[place as int].0 != before[i].0);
                    }
                }
            }
            entries.remove(place);
            assert(listing_of(entries@) =~= before.remove(place as int));
            self.entries = entries;
        } else {
            assert(!as_map(before).dom().contains(reference@));
            assert(as_map(before).remove(reference@) =~= as_map(before));
        }
    }
}

/// What a repository holds: its references, and its packfiles in the order in
/// which they were stored.
#[derive(Debug)]
pub struct Manifest {
    /// The references.
    pub heads: Heads,
    /// The packfiles.
    pub packfiles: Vec<PackfileRecord>,
}

impl Manifest {
    /// The packfiles, as what they stand for.
    pub open spec fn packs(self) -> Seq<Packfile> {
        Seq::new(self.packfiles@.len(), |i: int| self.packfiles@[i]@)
    }

    /// The manifest of an empty repository.
    pub fn new() -> (manifest: Self)
        ensures
            manifest.heads.listing() == Seq::<(Seq<char>, Seq<char>)>::empty(),
            manifest.packfiles@ == Seq::<PackfileRecord>::empty(),
    {
        Manifest { heads: Heads::new(), packfiles: Vec::new() }
    }
}

impl Default for Manifest {
    /// The manifest of an empty repository.
    fn default() -> (manifest: Self)
        ensures
            manifest.heads.listing() == Seq::<(Seq<char>, Seq<char>)>::empty(),
            manifest.packfiles@ == Seq::<PackfileRecord>::empty(),
    {
        Manifest::new()
    }
}

/// A map of references has those that are there and no others, each with the
/// commit of its entry.
pub proof fn law_map_has_each_entry_and_no_other(
    listing: Seq<(Seq<char>, Seq<char>)>,
    reference: Seq<char>,
)
    requires
        no_ref_twice(listing),
    ensures
        as_map(listing).dom().contains(reference) <==> exists|i: int|
            0 <= i < listing.len() && (#[trigger] listing[i]).0 == reference,
        forall|i: int|
            0 <= i < listing.len() && (#[trigger] listing[i]).0 == reference ==> as_map(
                listing,
            )[reference] == listing[i].1,
{
    if as_map(listing).dom().contains(reference) {
        let i = choose|i: int| names_at(listing, reference, i);
        assert(listing[i].0 == reference);
    }
    assert forall|i: int| 0 <= i < listing.len() && (#[trigger] listing[i]).0 == reference implies as_map(
        listing,
    )[reference] == listing[i].1 && as_map(listing).dom().contains(reference) by {
        lemma_entry_is_in_map(listing, i);
    }
}

/// A reference that is set is had with its commit and every other as before; one
/// that is removed is not had any more, and every other is as before.
pub proof fn law_reference_is_had_as_it_was_set(
    heads: &mut Heads,
    reference: GitRef,
    hash: GitHash,
    other: GitRef,
    before: Option<&GitHash>,
    after: Option<&GitHash>,
    itself: Option<&GitHash>,
)
    requires
        call_ensures(Heads::insert, (heads, reference, hash), ()),
        call_ensures(Heads::get, (&*old(heads), &other), before),
        call_ensures(Heads::get, (&*final(heads), &other), after),
        call_ensures(Heads::get, (&*final(heads), &reference), itself),
    ensures
        itself matches Some(h) && h@ == hash@,
        other@ != reference@ ==> (before is Some <==> after is Some),
        other@ != reference@ ==> (before matches Some(b) ==> (after matches Some(a) && a@ == b@)),
{
}

/// A reference that is removed is not had any more, and every other is as before.
pub proof fn law_removed_reference_is_not_had(
    heads: &mut Heads,
    reference: GitRef,
    other: GitRef,
    before: Option<&GitHash>,
    after: Option<&GitHash>,
    itself: Option<&GitHash>,
)
    requires
        call_ensures(Heads::remove, (heads, &reference), ()),
        call_ensures(Heads::get, (&*old(heads), &other), before),
        call_ensures(Heads::get, (&*final(heads), &other), after),
        call_ensures(Heads::get, (&*final(heads), &reference), itself),
    ensures
        itself is None,
        other@ != reference@ ==> (before is Some <==> after is Some),
        other@ != reference@ ==> (before matches Some(b) ==> (after matches Some(a) && a@ == b@)),
{
}

} // verus!
