//! Editing an entry: replace body and tags in place, keeping id, date and
//! timestamp.

use vstd::prelude::*;
use vstd::string::*;
use crate::entry::{Entry, EntryV, tag_names};
use crate::error::{JotError, JotResult};
use crate::journal::{Journal, find_first};
use crate::tag::Tag;

verus! {

/// The parameters of the edit command: which entry to edit.
pub struct EditArgs {
    pub id: usize,
}

/// Replaces the body and tags of the first entry carrying `id`, keeping
/// its id, date and creation instant; fails, changing nothing, when no
/// entry carries `id`.
pub fn apply_edit(journal: &mut Journal, id: usize, new_body: String, new_tags: Vec<Tag>) -> (r:
    JotResult<()>)
    ensures
        final(journal)@.path == old(journal)@.path,
        match find_first(old(journal)@.entries, id as nat) {
            Some(i) => {
                let prior = old(journal)@.entries[i];
                &&& r is Ok
                &&& final(journal)@.entries == old(journal)@.entries.update(
                    i,
                    EntryV {
                        id: prior.id,
                        timestamp: prior.timestamp,
                        date: prior.date,
                        body: new_body@,
                        tags: tag_names(new_tags@),
                    },
                )
            },
            None => r is Err && r->Err_0 is EditError && final(journal)@ == old(journal)@,
        },
{
    let (prior_ts, prior_date) = match journal.get_entry(id) {
        Some(e) => (e.timestamp, e.date),
        None => {
            let mut msg = String::from_str("Entry with ID ");
            let d = crate::num::fmt_usize(id);
            msg.append(d.as_str());
            msg.append(" not found");
            return Err(JotError::EditError(msg));
        },
    };
    proof {
        crate::journal::lemma_find_first(journal@.entries, id as nat);
    }
    let replacement = Entry {
        id,
        timestamp: prior_ts,
        date: prior_date,
        body: new_body,
        tags: new_tags,
    };
    journal.update_entry(replacement);
    Ok(())
}

} // verus!
