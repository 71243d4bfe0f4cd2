//! The persistence plans: what a durable save, a backup snapshot and a
//! restore do to the journal's files, as a small state machine. The model
//! holds the contents of the four file slots; the planner emits the
//! filesystem actions, and the proofs state the save's guarantees: the
//! journal file ends with the new content, exactly one prior backup
//! generation is retained, and no prefix of the plan ever leaves the
//! journal file holding anything but the old or the new content.
//! Executing the actions against the real filesystem is the caller's
//! concern.

use vstd::prelude::*;
use vstd::string::*;

verus! {

/// One filesystem step of a persistence plan, over the journal file and
/// its three siblings (temporary, backup, retained old backup).
pub enum FsAction {
    /// Copy the journal file to the backup path.
    CopyJournalToBackup,
    /// Write the temporary sibling with this content.
    WriteTemp(String),
    /// Flush the temporary sibling to disk.
    SyncTemp,
    /// Atomically rename the temporary sibling over the journal file.
    RenameTempToJournal,
    /// Delete the retained old backup.
    RemoveOldBackup,
    /// Rename the backup to the retained old backup.
    RenameBackupToOld,
    /// Copy the backup over the journal file.
    CopyBackupToJournal,
}

/// The modelled state of the four file slots: the content of each file
/// that exists.
pub ghost struct FsModel {
    pub journal: Option<Seq<char>>,
    pub temp: Option<Seq<char>>,
    pub backup: Option<Seq<char>>,
    pub old_backup: Option<Seq<char>>,
}

/// What one action does to the model.
pub open spec fn apply_action(m: FsModel, a: FsAction) -> FsModel {
    match a {
        FsAction::CopyJournalToBackup => FsModel { backup: m.journal, ..m },
        FsAction::WriteTemp(s) => FsModel { temp: Some(s@), ..m },
        FsAction::SyncTemp => m,
        FsAction::RenameTempToJournal => FsModel { journal: m.temp, temp: None, ..m },
        FsAction::RemoveOldBackup => FsModel { old_backup: None, ..m },
        FsAction::RenameBackupToOld => FsModel { old_backup: m.backup, backup: None, ..m },
        FsAction::CopyBackupToJournal => FsModel { journal: m.backup, ..m },
    }
}

/// What a whole plan does to the model, first action first.
pub open spec fn apply_all(m: FsModel, plan: Seq<FsAction>) -> FsModel
    decreases plan.len(),
{
    if plan.len() == 0 {
        m
    } else {
        apply_all(apply_action(m, plan.first()), plan.drop_first())
    }
}

/// The durable-save plan: back the journal up beside itself when it
/// exists, write the new content to the temporary sibling, flush it,
/// rename it over the journal file, and rotate the backup into the single
/// retained old generation.
pub fn plan_save(journal_exists: bool, old_backup_exists: bool, content: String) -> (r: Vec<
    FsAction,
>)
    ensures
        forall|m: FsModel|
            (m.journal is Some <==> journal_exists) && m.temp is None ==> {
                let f = #[trigger] apply_all(m, r@);
                &&& f.journal == Some(content@)
                &&& (journal_exists ==> f.backup is None && f.old_backup == m.journal)
                &&& (!journal_exists ==> f.backup == m.backup && f.old_backup == m.old_backup)
            },
        forall|m: FsModel, k: int|
            (m.journal is Some <==> journal_exists) && m.temp is None && 0 <= k <= r@.len()
                ==> (#[trigger] apply_all(m, r@.subrange(0, k))).journal == m.journal || apply_all(
                m,
                r@.subrange(0, k),
            ).journal == Some(content@),
{
    let ghost c = content@;
    let mut plan: Vec<FsAction> = Vec::new();
    if journal_exists {
        plan.push(FsAction::CopyJournalToBackup);
    }
    plan.push(FsAction::WriteTemp(content));
    plan.push(FsAction::SyncTemp);
    plan.push(FsAction::RenameTempToJournal);
    if journal_exists {
        if old_backup_exists {
            plan.push(FsAction::RemoveOldBackup);
        }
        plan.push(FsAction::RenameBackupToOld);
    }
    proof {
        assert forall|m: FsModel|
            (m.journal is Some <==> journal_exists) && m.temp is None implies {
            let f = #[trigger] apply_all(m, plan@);
            &&& f.journal == Some(c)
            &&& (journal_exists ==> f.backup is None && f.old_backup == m.journal)
            &&& (!journal_exists ==> f.backup == m.backup && f.old_backup == m.old_backup)
        } by {
            lemma_apply_all_unfold(m, plan@);
        }
        assert forall|m: FsModel, k: int|
            (m.journal is Some <==> journal_exists) && m.temp is None && 0 <= k
                <= plan@.len() implies (#[trigger] apply_all(m, plan@.subrange(0, k))).journal
            == m.journal || apply_all(m, plan@.subrange(0, k)).journal == Some(c) by {
            lemma_apply_all_unfold(m, plan@.subrange(0, k));
        }
    }
    plan
}

/// Unrolls a plan of up to six actions, so that each concrete plan's
/// effect is plain.
proof fn lemma_apply_all_unfold(m: FsModel, plan: Seq<FsAction>)
    requires
        plan.len() <= 6,
    ensures
        apply_all(m, plan) == (if plan.len() == 0 {
            m
        } else if plan.len() == 1 {
            apply_action(m, plan[0])
        } else if plan.len() == 2 {
            apply_action(apply_action(m, plan[0]), plan[1])
        } else if plan.len() == 3 {
            apply_action(apply_action(apply_action(m, plan[0]), plan[1]), plan[2])
        } else if plan.len() == 4 {
            apply_action(
                apply_action(apply_action(apply_action(m, plan[0]), plan[1]), plan[2]),
                plan[3],
            )
        } else if plan.len() == 5 {
            apply_action(
                apply_action(
                    apply_action(apply_action(apply_action(m, plan[0]), plan[1]), plan[2]),
                    plan[3],
                ),
                plan[4],
            )
        } else {
            apply_action(
                apply_action(
                    apply_action(
                        apply_action(apply_action(apply_action(m, plan[0]), plan[1]), plan[2]),
                        plan[3],
                    ),
                    plan[4],
                ),
                plan[5],
            )
        }),
    decreases plan.len(),
{
    if plan.len() > 0 {
        lemma_apply_all_unfold(apply_action(m, plan.first()), plan.drop_first());
        assert(forall|j: int| 0 <= j < plan.len() - 1 ==> plan.drop_first()[j] == #[trigger] plan[
            j + 1
        ]);
    }
}

/// The snapshot plan: copy the journal file to the backup path.
pub fn plan_backup_create() -> (r: Vec<FsAction>)
    ensures
        forall|m: FsModel| (#[trigger] apply_all(m, r@)) == (FsModel { backup: m.journal, ..m }),
{
    let mut plan: Vec<FsAction> = Vec::new();
    plan.push(FsAction::CopyJournalToBackup);
    proof {
        assert forall|m: FsModel| (#[trigger] apply_all(m, plan@)) == FsModel {
            backup: m.journal,
            ..m
        } by {
            lemma_apply_all_unfold(m, plan@);
        }
    }
    plan
}

/// The restore plan: copy the backup over the journal file.
pub fn plan_backup_restore() -> (r: Vec<FsAction>)
    ensures
        forall|m: FsModel| (#[trigger] apply_all(m, r@)) == (FsModel { journal: m.backup, ..m }),
{
    let mut plan: Vec<FsAction> = Vec::new();
    plan.push(FsAction::CopyBackupToJournal);
    proof {
        assert forall|m: FsModel| (#[trigger] apply_all(m, plan@)) == FsModel {
            journal: m.backup,
            ..m
        } by {
            lemma_apply_all_unfold(m, plan@);
        }
    }
    plan
}

/// At most one backup generation is ever retained by a save: whatever
/// held before, after the plan the backup slot is empty and the old slot
/// holds the journal content from just before the save (or what it held,
/// when there was nothing to back up).
pub proof fn lemma_one_backup_generation(
    m: FsModel,
    journal_exists: bool,
    old_backup_exists: bool,
    plan: Seq<FsAction>,
    content: Seq<char>,
)
    requires
        m.journal is Some <==> journal_exists,
        m.temp is None,
        forall|m2: FsModel|
            (m2.journal is Some <==> journal_exists) && m2.temp is None ==> {
                let f = #[trigger] apply_all(m2, plan);
                &&& f.journal == Some(content)
                &&& (journal_exists ==> f.backup is None && f.old_backup == m2.journal)
                &&& (!journal_exists ==> f.backup == m2.backup && f.old_backup == m2.old_backup)
            },
    ensures
        journal_exists ==> apply_all(m, plan).backup is None && apply_all(m, plan).old_backup
            == m.journal,
        apply_all(m, plan).journal == Some(content),
{
    assert((m.journal is Some <==> journal_exists) && m.temp is None);
}

} // verus!
