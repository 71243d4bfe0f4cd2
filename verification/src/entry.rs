//! Journal entries: immutable-after-creation records of one note.

use vstd::prelude::*;
use crate::date::{Date, Timestamp};
use crate::tag::Tag;

verus! {

/// One journal record: id, creation instant, calendar date, body text and
/// tag list.
#[derive(Clone, PartialEq, Debug)]
pub struct Entry {
    pub id: usize,
    pub timestamp: Timestamp,
    pub date: Date,
    pub body: String,
    pub tags: Vec<Tag>,
}

/// The mathematical shape of an entry: strings as character sequences, the
/// tag list as the sequence of tag names.
#[verifier::ext_equal]
pub ghost struct EntryV {
    pub id: nat,
    pub timestamp: Timestamp,
    pub date: Date,
    pub body: Seq<char>,
    pub tags: Seq<Seq<char>>,
}

/// The names of a sequence of tags.
pub open spec fn tag_names(tags: Seq<Tag>) -> Seq<Seq<char>> {
    tags.map_values(|t: Tag| t@)
}

impl View for Entry {
    type V = EntryV;

    open spec fn view(&self) -> EntryV {
        EntryV {
            id: self.id as nat,
            timestamp: self.timestamp,
            date: self.date,
            body: self.body@,
            tags: tag_names(self.tags@),
        }
    }
}

impl DeepView for Entry {
    type V = EntryV;

    open spec fn deep_view(&self) -> EntryV {
        self.view()
    }
}

impl Entry {
    /// Builds an entry dated now: the timestamp is one clock reading and the
    /// date is the calendar date of that same reading. Body and tags are
    /// stored as given; emptiness of the content is the caller's concern.
    pub fn new(id: usize, body: String, tags: Vec<Tag>) -> (e: Entry)
        ensures
            e@.id == id as nat,
            e@.body == body@,
            e@.tags == tag_names(tags@),
            e@.timestamp.valid(),
            e@.date == e@.timestamp.date,
    {
        let timestamp = Timestamp::now();
        Entry { id, timestamp, date: timestamp.date, body, tags }
    }

    /// An exact copy.
    pub fn duplicate(&self) -> (e: Entry)
        ensures
            e@ == self@,
    {
        Entry {
            id: self.id,
            timestamp: self.timestamp,
            date: self.date,
            body: self.body.clone(),
            tags: clone_tags(&self.tags),
        }
    }
}

/// A copy of a tag list, name for name.
pub fn clone_tags(tags: &Vec<Tag>) -> (r: Vec<Tag>)
    ensures
        tag_names(r@) == tag_names(tags@),
        r@.len() == tags@.len(),
{
    let mut out: Vec<Tag> = Vec::new();
    let mut i: usize = 0;
    while i < tags.len()
        invariant
            0 <= i <= tags@.len(),
            out@.len() == i,
            forall|j: int| 0 <= j < i ==> out@[j]@ == tags@[j]@,
        decreases tags@.len() - i,
    {
        out.push(tags[i].clone());
        i += 1;
    }
    proof {
        assert(tag_names(out@) =~= tag_names(tags@));
    }
    out
}

} // verus!
