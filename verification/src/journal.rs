//! The journal: an ordered collection of entries with id assignment.
//!
//! Ids are assigned densely: a new entry gets the current length of the
//! collection as its id. Removal keeps the relative order of the remaining
//! entries and does not renumber them, so an id removed from the middle
//! leaves a gap, and a later insertion can coin an id that an older entry
//! still carries. Every lookup by id therefore means: the first entry, in
//! order, with that id.

use vstd::prelude::*;
use crate::entry::{Entry, EntryV};

verus! {

/// The ordered entry collection, bound to the path of its backing file.
/// The path is opaque to the library: persistence hands it in and reads it
/// back, nothing else interprets it.
pub struct Journal {
    path: String,
    entries: Vec<Entry>,
}

/// The mathematical shape of a journal.
#[verifier::ext_equal]
pub ghost struct JournalV {
    pub path: Seq<char>,
    pub entries: Seq<EntryV>,
}

impl View for Journal {
    type V = JournalV;

    closed spec fn view(&self) -> JournalV {
        JournalV {
            path: self.path@,
            entries: self.entries.deep_view(),
        }
    }
}

/// The position of the first entry carrying `id`, if any.
pub open spec fn find_first(s: Seq<EntryV>, id: nat) -> Option<int>
    decreases s.len(),
{
    if s.len() == 0 {
        None
    } else if s[0].id == id {
        Some(0)
    } else {
        match find_first(s.drop_first(), id) {
            Some(i) => Some(i + 1),
            None => None,
        }
    }
}

/// What `find_first` finds: the entry at the returned position carries the
/// id and no earlier one does; `None` means no entry carries it.
pub proof fn lemma_find_first(s: Seq<EntryV>, id: nat)
    ensures
        match find_first(s, id) {
            Some(i) => 0 <= i < s.len() && s[i].id == id && forall|j: int|
                0 <= j < i ==> s[j].id != id,
            None => forall|j: int| 0 <= j < s.len() ==> s[j].id != id,
        },
    decreases s.len(),
{
    if s.len() > 0 && s[0].id != id {
        let t = s.drop_first();
        lemma_find_first(t, id);
        match find_first(t, id) {
            Some(i) => {
                assert(find_first(s, id) == Some(i + 1));
                assert(s[i + 1] == t[i]);
                assert forall|j: int| 0 <= j < i + 1 implies s[j].id != id by {
                    if j > 0 {
                        assert(s[j] == t[j - 1]);
                    }
                }
            },
            None => {
                assert forall|j: int| 0 <= j < s.len() implies s[j].id != id by {
                    if j > 0 {
                        assert(s[j] == t[j - 1]);
                    }
                }
            },
        }
    }
}

/// The converse: a position that carries the id, with none earlier, is the
/// one `find_first` returns.
pub proof fn lemma_find_first_at(s: Seq<EntryV>, id: nat, i: int)
    requires
        0 <= i < s.len(),
        s[i].id == id,
        forall|j: int| 0 <= j < i ==> s[j].id != id,
    ensures
        find_first(s, id) == Some(i),
    decreases s.len(),
{
    if i > 0 {
        lemma_find_first_at(s.drop_first(), id, i - 1);
    }
}

impl Journal {
    /// An empty journal bound to `path`.
    pub fn new(path: String) -> (j: Journal)
        ensures
            j@.path == path@,
            j@.entries == Seq::<EntryV>::empty(),
    {
        let j = Journal { path, entries: Vec::new() };
        proof {
            assert(j@.entries =~= Seq::<EntryV>::empty());
        }
        j
    }

    /// A journal hydrated from persisted entries.
    pub fn from_entries(path: String, entries: Vec<Entry>) -> (j: Journal)
        ensures
            j@.path == path@,
            j@.entries == entries.deep_view(),
    {
        Journal { path, entries }
    }

    /// The backing storage location.
    pub fn path(&self) -> (p: &String)
        ensures
            p@ == self@.path,
    {
        &self.path
    }

    /// The full ordered entry sequence.
    pub fn entries(&self) -> (es: &Vec<Entry>)
        ensures
            es.deep_view() == self@.entries,
    {
        &self.entries
    }

    /// The full ordered entry sequence.
    pub fn get_entries(&self) -> (es: &Vec<Entry>)
        ensures
            es.deep_view() == self@.entries,
    {
        &self.entries
    }

    /// The id the next added entry will get: the current entry count.
    pub fn next_id(&self) -> (id: usize)
        ensures
            id as nat == self@.entries.len(),
    {
        self.entries.len()
    }

    /// Appends `entry`, overwriting its id with the current entry count.
    /// Afterwards the entry stands last, under that id.
    pub fn add_entry(&mut self, entry: Entry)
        ensures
            final(self)@.path == old(self)@.path,
            final(self)@.entries == old(self)@.entries.push(
                EntryV { id: old(self)@.entries.len(), ..entry@ },
            ),
    {
        let id = self.entries.len();
        let entry = Entry { id, ..entry };
        self.entries.push(entry);
        proof {
            assert(self@.entries =~~= old(self)@.entries.push(
                EntryV { id: old(self)@.entries.len(), ..entry@ },
            ));
        }
    }

    /// Removes the first entry carrying `id` and returns it, keeping the
    /// order of the rest; returns `None`, changing nothing, when no entry
    /// carries `id`.
    pub fn remove_entry(&mut self, id: usize) -> (r: Option<Entry>)
        ensures
            final(self)@.path == old(self)@.path,
            match find_first(old(self)@.entries, id as nat) {
                Some(i) => {
                    &&& r is Some
                    &&& r->0@ == old(self)@.entries[i]
                    &&& final(self)@.entries == old(self)@.entries.remove(i)
                },
                None => r is None && final(self)@ == old(self)@,
            },
    {
        proof {
            lemma_find_first(old(self)@.entries, id as nat);
        }
        let n = self.entries.len();
        let mut i: usize = 0;
        while i < n
            invariant
                0 <= i <= n,
                n == self@.entries.len(),
                *self == *old(self),
                forall|j: int| 0 <= j < i ==> self@.entries[j].id != id as nat,
            decreases n - i,
        {
            if self.entries[i].id == id {
                proof {
                    lemma_find_first_at(self@.entries, id as nat, i as int);
                }
                let removed = self.entries.remove(i);
                proof {
                    assert(self@.entries =~~= old(self)@.entries.remove(i as int));
                }
                return Some(removed);
            }
            i += 1;
        }
        None
    }

    /// Replaces the first entry whose id equals `entry.id` with `entry`;
    /// does nothing when no entry carries that id.
    pub fn update_entry(&mut self, entry: Entry)
        ensures
            final(self)@.path == old(self)@.path,
            match find_first(old(self)@.entries, entry@.id) {
                Some(i) => final(self)@.entries == old(self)@.entries.update(i, entry@),
                None => final(self)@ == old(self)@,
            },
    {
        proof {
            lemma_find_first(old(self)@.entries, entry@.id);
        }
        let n = self.entries.len();
        let mut i: usize = 0;
        while i < n
            invariant
                0 <= i <= n,
                n == self@.entries.len(),
                *self == *old(self),
                forall|j: int| 0 <= j < i ==> self@.entries[j].id != entry@.id,
            decreases n - i,
        {
            if self.entries[i].id == entry.id {
                proof {
                    lemma_find_first_at(self@.entries, entry@.id, i as int);
                }
                self.entries[i] = entry;
                proof {
                    assert(self@.entries =~~= old(self)@.entries.update(i as int, entry@));
                }
                return ;
            }
            i += 1;
        }
    }

    /// The first entry carrying `id`, or `None` when no entry does.
    pub fn get_entry(&self, id: usize) -> (r: Option<&Entry>)
        ensures
            match find_first(self@.entries, id as nat) {
                Some(i) => r is Some && r->0@ == self@.entries[i],
                None => r is None,
            },
    {
        proof {
            lemma_find_first(self@.entries, id as nat);
        }
        let n = self.entries.len();
        let mut i: usize = 0;
        while i < n
            invariant
                0 <= i <= n,
                n == self@.entries.len(),
                forall|j: int| 0 <= j < i ==> self@.entries[j].id != id as nat,
            decreases n - i,
        {
            if self.entries[i].id == id {
                proof {
                    lemma_find_first_at(self@.entries, id as nat, i as int);
                }
                return Some(&self.entries[i]);
            }
            i += 1;
        }
        None
    }
}

/// Adding an entry and then looking its returned id up finds it again, with
/// body and tags identical — provided no live entry already carries the
/// coined id (after removals, a later insertion can coin such a duplicate,
/// and the lookup then finds the older entry first).
pub proof fn lemma_add_then_get(entries: Seq<EntryV>, e: EntryV)
    requires
        forall|j: int| 0 <= j < entries.len() ==> entries[j].id != entries.len(),
    ensures
        ({
            let added = EntryV { id: entries.len(), ..e };
            let after = entries.push(added);
            &&& find_first(after, entries.len()) == Some(entries.len() as int)
            &&& after[entries.len() as int].body == e.body
            &&& after[entries.len() as int].tags == e.tags
        }),
{
    let added = EntryV { id: entries.len(), ..e };
    let after = entries.push(added);
    lemma_find_first_at(after, entries.len(), entries.len() as int);
}

/// Removing an id, then removing it again, fails quietly the second time:
/// once the only entry carrying the id is gone, the lookup finds nothing —
/// provided the id was carried by at most one entry (duplicate ids can
/// exist after a removal followed by insertions).
pub proof fn lemma_remove_twice_fails(entries: Seq<EntryV>, id: nat)
    requires
        find_first(entries, id) is Some,
        forall|i: int, j: int|
            0 <= i < entries.len() && 0 <= j < entries.len() && i != j ==> !(
            entries[i].id == id && entries[j].id == id),
    ensures
        find_first(entries.remove(find_first(entries, id)->0), id) is None,
{
    let i = find_first(entries, id)->0;
    lemma_find_first(entries, id);
    let rest = entries.remove(i);
    assert forall|j: int| 0 <= j < rest.len() implies rest[j].id != id by {
        if j < i {
            assert(rest[j] == entries[j]);
        } else {
            assert(rest[j] == entries[j + 1]);
        }
    }
    lemma_find_first(rest, id);
}

} // verus!
