//! The backup command: an explicit snapshot of the journal file, or a
//! restore from the snapshot. The core decides the action; copying files
//! is the caller's concern, driven by the plans in the persistence
//! module.

use vstd::prelude::*;
use vstd::string::*;

verus! {

/// What the backup command is asked to do.
#[derive(Clone, Copy, PartialEq, Eq, Structural, Debug)]
pub enum BackupAction {
    Create,
    Restore,
}

/// The parameters of the backup command.
pub struct BackupArgs {
    pub action: BackupAction,
}

/// Whether two texts are equal, character for character.
pub fn text_eq(a: &str, b: &str) -> (r: bool)
    ensures
        r == (a@ == b@),
{
    let n = a.unicode_len();
    let m = b.unicode_len();
    if n != m {
        return false;
    }
    let mut i: usize = 0;
    while i < n
        invariant
            0 <= i <= n,
            n == a@.len(),
            n == b@.len(),
            forall|j: int| 0 <= j < i ==> a@[j] == b@[j],
        decreases n - i,
    {
        if a.get_char(i) != b.get_char(i) {
            return false;
        }
        i += 1;
    }
    proof {
        assert(a@ =~= b@);
    }
    true
}

/// Reads a backup action word: `create` or `c`, `restore` or `r`;
/// anything else is refused.
pub fn parse_backup_action(s: &str) -> (r: Result<BackupAction, String>)
    ensures
        match r {
            Ok(BackupAction::Create) => s@ == "create"@ || s@ == "c"@,
            Ok(BackupAction::Restore) => s@ == "restore"@ || s@ == "r"@,
            Err(_) => s@ != "create"@ && s@ != "c"@ && s@ != "restore"@ && s@ != "r"@,
        },
{
    proof {
        reveal_strlit("create");
        reveal_strlit("c");
        reveal_strlit("restore");
        reveal_strlit("r");
    }
    if text_eq(s, "create") || text_eq(s, "c") {
        Ok(BackupAction::Create)
    } else if text_eq(s, "restore") || text_eq(s, "r") {
        Ok(BackupAction::Restore)
    } else {
        Err(String::from_str("Invalid backup action"))
    }
}

} // verus!
