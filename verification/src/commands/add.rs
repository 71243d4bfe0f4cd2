//! Adding an entry: validate the content, extract tags, compose the body,
//! and append under the next id.

use vstd::prelude::*;
use vstd::string::*;
use crate::config::JournalConfig;
use crate::entry::{Entry, EntryV, tag_names};
use crate::error::{JotError, JotResult};
use crate::journal::Journal;
use crate::text::{spec_trim, spec_extract_tags, spec_body_text, trim, extract_tags, extract_body};

verus! {

/// The parameters of the add command: the raw content line.
pub struct AddArgs {
    pub content: String,
}

/// Appends a new entry built from `args.content`: the content is trimmed
/// and must not be empty; its `#` tokens become the tags; the body keeps
/// or drops the tag tokens as configured. The new entry stands last,
/// under the previous entry count as id, dated by the clock at the call.
pub fn execute(journal: &mut Journal, args: &AddArgs, config: &JournalConfig) -> (r: JotResult<
    usize,
>)
    ensures
        final(journal)@.path == old(journal)@.path,
        match r {
            Ok(id) => {
                let c = spec_trim(args.content@);
                let es = final(journal)@.entries;
                &&& c.len() > 0
                &&& id as nat == old(journal)@.entries.len()
                &&& es.len() == old(journal)@.entries.len() + 1
                &&& es.drop_last() == old(journal)@.entries
                &&& es.last().id == id as nat
                &&& es.last().body == (if config.body_tags {
                    c
                } else {
                    spec_body_text(c)
                })
                &&& es.last().tags == spec_extract_tags(c)
                &&& es.last().timestamp.valid()
                &&& es.last().date == es.last().timestamp.date
            },
            Err(e) => {
                &&& e is AddError
                &&& spec_trim(args.content@).len() == 0
                &&& final(journal)@ == old(journal)@
            },
        },
{
    let content = trim(args.content.as_str());
    if content.unicode_len() == 0 {
        return Err(JotError::AddError(String::from_str("Entry cannot be empty")));
    }
    let tags = extract_tags(content.as_str());
    let body = extract_body(content.as_str(), config.body_tags);
    let id = journal.next_id();
    let entry = Entry::new(id, body, tags);
    journal.add_entry(entry);
    proof {
        let es = journal@.entries;
        assert(es.drop_last() =~= old(journal)@.entries);
    }
    Ok(id)
}

} // verus!
