//! The file names of the journal's storage: pure path composition. Where
//! the journal directory lies is the caller's concern.

use vstd::prelude::*;
use vstd::string::*;

verus! {

/// The journal file inside the journal directory.
pub fn get_journal_path(journal_dir: &str) -> (r: String)
    ensures
        r@ == journal_dir@ + "/journal.json"@,
{
    let mut r = String::from_str(journal_dir);
    r.append("/journal.json");
    r
}

/// The configuration file inside the journal directory.
pub fn get_config_path(journal_dir: &str) -> (r: String)
    ensures
        r@ == journal_dir@ + "/config.toml"@,
{
    let mut r = String::from_str(journal_dir);
    r.append("/config.toml");
    r
}

/// The temporary sibling a save writes before the rename.
pub fn temp_path_for(path: &str) -> (r: String)
    ensures
        r@ == path@ + ".tmp"@,
{
    let mut r = String::from_str(path);
    r.append(".tmp");
    r
}

/// The rotated backup beside a file.
pub fn backup_path_for(path: &str) -> (r: String)
    ensures
        r@ == path@ + ".bak"@,
{
    let mut r = String::from_str(path);
    r.append(".bak");
    r
}

/// The retained previous backup generation beside a file.
pub fn old_backup_path_for(path: &str) -> (r: String)
    ensures
        r@ == path@ + ".bak.old"@,
{
    let mut r = String::from_str(path);
    r.append(".bak.old");
    r
}

} // verus!
