//! What a synchronization and a repair of sessions tell the user.
use vstd::prelude::*;

use crate::sessions::{SessionRepairSummary, SessionSyncOptions, SessionSyncSummary};
use crate::text::decimal_text;
use crate::text::{decimal, views};

verus! {

/// What is said before rollouts are synchronized.
pub fn sync_notice(options: &SessionSyncOptions) -> (r: String)
    ensures
        r@ == (if options.full_rollout_rewrite {
            "  Warning: --rewrite-rollouts is enabled; whole rollout files are rewritten, and originals will be backed up first."@
        } else {
            "  Rollout JSONL: syncing metadata rows only; event/tool rows stay unchanged."@
        }),
{
    if options.full_rollout_rewrite {
        "  Warning: --rewrite-rollouts is enabled; whole rollout files are rewritten, and originals will be backed up first.".to_owned()
    } else {
        "  Rollout JSONL: syncing metadata rows only; event/tool rows stay unchanged.".to_owned()
    }
}

/// The line on the databases, where any record was updated.
pub open spec fn database_line(s: SessionSyncSummary) -> Seq<Seq<char>> {
    if s.db_records_updated > 0 {
        seq!["  Database: updated "@ + decimal(s.db_records_updated as nat) + " thread records"@]
    } else {
        Seq::empty()
    }
}

/// The line on the copies of the databases, where any was made.
pub open spec fn database_backup_line(s: SessionSyncSummary, backup_dir: Seq<char>) -> Seq<Seq<char>> {
    if s.db_backup_files > 0 {
        seq![
            "  Database backups: copied "@ + decimal(s.db_backup_files as nat) + " file(s) to "@
                + backup_dir,
        ]
    } else {
        Seq::empty()
    }
}

/// What is said of the databases after a synchronization.
pub fn database_lines(s: &SessionSyncSummary, backup_dir: &str) -> (r: Vec<String>)
    ensures
        views(r@) == database_line(*s) + database_backup_line(*s, backup_dir@),
{
    let mut out: Vec<String> = Vec::new();
    if s.db_records_updated > 0 {
        let mut line = "  Database: updated ".to_owned();
        line.push_str(decimal_text(s.db_records_updated as u64).as_str());
        line.push_str(" thread records");
        out.push(line);
    }
    if s.db_backup_files > 0 {
        let mut line = "  Database backups: copied ".to_owned();
        line.push_str(decimal_text(s.db_backup_files as u64).as_str());
        line.push_str(" file(s) to ");
        line.push_str(backup_dir);
        out.push(line);
    }
    proof {
        assert(views(out@) =~= database_line(*s) + database_backup_line(*s, backup_dir@));
    }
    out
}

/// What is said of the history index after a synchronization. No output of a command is shown.
pub fn history_line(s: &SessionSyncSummary) -> (r: String)
    ensures
        r@ == "  History index: "@ + decimal(s.history_rollouts_scanned as nat)
            + " rollout(s), "@ + decimal(s.history_tool_calls_indexed as nat)
            + " tool call(s), "@ + decimal(s.history_command_executions_indexed as nat)
            + " command execution(s)"@,
{
    let mut out = "  History index: ".to_owned();
    out.push_str(decimal_text(s.history_rollouts_scanned as u64).as_str());
    out.push_str(" rollout(s), ");
    out.push_str(decimal_text(s.history_tool_calls_indexed as u64).as_str());
    out.push_str(" tool call(s), ");
    out.push_str(decimal_text(s.history_command_executions_indexed as u64).as_str());
    out.push_str(" command execution(s)");
    out
}

/// The lines on the counts of a repair.
pub open spec fn repair_counts(s: SessionRepairSummary) -> Seq<Seq<char>> {
    seq![
        "Session repair: "@ + decimal(s.rollouts_scanned as nat) + " rollout(s) scanned, "@
            + decimal(s.rollouts_affected as nat) + " affected, "@ + decimal(
            s.rollouts_repaired as nat,
        ) + " repaired, "@ + decimal(s.errors as nat) + " error(s)"@,
        "  "@ + decimal(s.projection_rows_removed as nat)
            + " UCP display projection(s) removed"@,
        "  "@ + decimal(s.invalid_names_normalized as nat)
            + " invalid tool name(s) normalized"@,
    ]
}

/// The last line on a repair: where the originals are, or that nothing was changed.
pub open spec fn repair_ending(s: SessionRepairSummary, apply: bool) -> Seq<Seq<char>> {
    if !apply {
        seq!["Dry-run only; pass --apply to repair these rollouts."@]
    } else {
        match s.backup_dir {
            Some(dir) => seq!["  Backup: "@ + dir@],
            None => Seq::empty(),
        }
    }
}

/// What is said after a repair.
pub fn repair_lines(s: &SessionRepairSummary, apply: bool) -> (r: Vec<String>)
    ensures
        views(r@) == repair_counts(*s) + repair_ending(*s, apply),
{
    let mut counts = "Session repair: ".to_owned();
    counts.push_str(decimal_text(s.rollouts_scanned as u64).as_str());
    counts.push_str(" rollout(s) scanned, ");
    counts.push_str(decimal_text(s.rollouts_affected as u64).as_str());
    counts.push_str(" affected, ");
    counts.push_str(decimal_text(s.rollouts_repaired as u64).as_str());
    counts.push_str(" repaired, ");
    counts.push_str(decimal_text(s.errors as u64).as_str());
    counts.push_str(" error(s)");
    let mut projections = "  ".to_owned();
    projections.push_str(decimal_text(s.projection_rows_removed as u64).as_str());
    projections.push_str(" UCP display projection(s) removed");
    let mut names = "  ".to_owned();
    names.push_str(decimal_text(s.invalid_names_normalized as u64).as_str());
    names.push_str(" invalid tool name(s) normalized");
    let mut out: Vec<String> = Vec::new();
    out.push(counts);
    out.push(projections);
    out.push(names);
    if !apply {
        out.push("Dry-run only; pass --apply to repair these rollouts.".to_owned());
    } else if let Some(dir) = &s.backup_dir {
        let mut line = "  Backup: ".to_owned();
        line.push_str(dir.as_str());
        out.push(line);
    }
    proof {
        assert(views(out@) =~= repair_counts(*s) + repair_ending(*s, apply));
    }
    out
}

} // verus!
