//! Initializing a journal: the configuration built from the user's
//! answers, and the content of a fresh journal file.

use vstd::prelude::*;
use vstd::string::*;
use crate::codec::spec_emit_entries;
use crate::config::{Config, JournalConfig, default_export_dir};
use crate::entry::EntryV;

verus! {

/// The parameters of the init command: an export directory, when one was
/// given on the command line rather than prompted for.
pub struct InitArgs {
    pub export_dir: Option<String>,
}

/// The configuration named by the user's answers; an absent export
/// directory falls back to the default.
pub fn build_config(export_dir: Option<String>, show_time: bool, body_tags: bool) -> (r: Config)
    ensures
        r.journal_cfg.show_time == show_time,
        r.journal_cfg.body_tags == body_tags,
        r.journal_cfg.export_dir@ == (match export_dir {
            Some(d) => d@,
            None => "exports"@,
        }),
{
    let dir = match export_dir {
        Some(d) => d,
        None => default_export_dir(),
    };
    Config { journal_cfg: JournalConfig { body_tags, show_time, export_dir: dir } }
}

/// The content of a journal file with no entries: exactly what the codec
/// renders for an empty entry sequence.
pub fn empty_journal_text() -> (r: String)
    ensures
        r@ == spec_emit_entries(Seq::<EntryV>::empty()),
{
    let r = String::from_str("[]");
    proof {
        reveal_strlit("[]");
        assert(spec_emit_entries(Seq::<EntryV>::empty()) =~= r@);
    }
    r
}

} // verus!
