use dupfinder::clean::{
    answered, execution_step, generate_clean_plan, record_execution, record_plan, ActionAnswers, CleanAction,
    CleanExecutionResult, CleanOptions, CleanPlan, DeletionMethod, ExecStep, PlanFacts,
};
use dupfinder::safety::{FileState, PathFacts};
use dupfinder::types::{CacheStats, DuplicateGroup, DuplicateReport, FileEntry, ScanInfo, ScanReport};
use std::collections::BTreeMap;

fn entry(path: &str, size: u64) -> FileEntry {
    FileEntry { path: path.to_string(), size, mtime: 0, dev: 0, ino: 0 }
}

fn report_of(groups: Vec<DuplicateGroup>, empty_files: Vec<String>, empty_dirs: Vec<String>) -> ScanReport {
    ScanReport {
        version: "0.1.0".to_string(),
        scan_info: ScanInfo {
            paths: vec!["/w".to_string()],
            timestamp: "t".to_string(),
            duration_nanos: 0,
            files_scanned: 0,
            dirs_scanned: 0,
        },
        duplicates: DuplicateReport {
            total_groups: groups.len(),
            total_redundant_files: groups.iter().map(|g| g.duplicates.len()).sum(),
            reclaimable_bytes: groups.iter().map(|g| g.size * g.duplicates.len() as u64).sum(),
            groups,
        },
        empty_files,
        empty_dirs,
        broken_symlinks: vec![],
        cache_stats: CacheStats::default(),
    }
}

fn make_test_report(original: &str, duplicate: &str, size: u64) -> ScanReport {
    report_of(
        vec![DuplicateGroup {
            hash: "h".to_string(),
            size,
            original: entry(original, size),
            duplicates: vec![entry(duplicate, size)],
        }],
        vec![],
        vec![],
    )
}

fn existing_at(p: &str) -> PathFacts {
    PathFacts { canonical: Some(Ok(p.to_string())), parent_canonical: None }
}

/// Facts for every path of a report, as if each existed at its own path.
fn facts_for(report: &ScanReport) -> PlanFacts {
    PlanFacts {
        originals: report.duplicates.groups.iter().map(|g| existing_at(&g.original.path)).collect(),
        duplicates: report.duplicates.groups.iter().map(|g| g.duplicates.iter().map(|d| existing_at(&d.path)).collect()).collect(),
        empty_files: report.empty_files.iter().map(|p| existing_at(p)).collect(),
        empty_dirs: report.empty_dirs.iter().map(|p| existing_at(p)).collect(),
    }
}

/// An in-memory disk: path to size.
struct Disk {
    files: BTreeMap<String, u64>,
}

impl Disk {
    fn inspect(&self, p: &str) -> Result<FileState, String> {
        match self.files.get(p) {
            Some(&len) => Ok(FileState { is_symlink: false, is_file: true, len, mtime: 0, dev: 0, ino: 0 }),
            None => Err("No such file or directory".to_string()),
        }
    }
    fn remove(&mut self, p: &str) -> Result<(), String> {
        match self.files.remove(p) {
            Some(_) => Ok(()),
            None => Err("No such file or directory".to_string()),
        }
    }
}

fn execute_clean_plan(plan: &CleanPlan, method: DeletionMethod, dry_run: bool, disk: &mut Disk) -> CleanExecutionResult {
    let mut answers = Vec::new();
    for action in &plan.actions {
        let mut inspected = None;
        let mut removal = None;
        loop {
            match execution_step(action, method, dry_run, &inspected) {
                ExecStep::Record => break,
                ExecStep::Inspect(p) => inspected = Some(disk.inspect(&p)),
                ExecStep::Trash(p) | ExecStep::RemoveFile(p) | ExecStep::RemoveDir(p) => {
                    removal = Some(disk.remove(&p));
                    break;
                },
            }
        }
        assert!(answered(action, method, dry_run, &inspected, &removal));
        answers.push(ActionAnswers { timestamp: "2026-01-01T00:00:00Z".to_string(), inspected, removal });
    }
    record_plan(plan, method, dry_run, &answers)
}

#[test]
fn test_generate_clean_plan_and_dry_run() {
    let mut disk = Disk { files: BTreeMap::from([("/w/orig.txt".to_string(), 7), ("/w/dup.txt".to_string(), 7)]) };
    let report = make_test_report("/w/orig.txt", "/w/dup.txt", 7);
    let options = CleanOptions { dry_run: true, ..Default::default() };

    let plan = generate_clean_plan(&report, &options, &facts_for(&report)).unwrap();
    assert_eq!(plan.total_files_to_remove, 1);
    assert_eq!(plan.total_bytes_reclaimable, 7);

    let res = execute_clean_plan(&plan, DeletionMethod::Permanent, true, &mut disk);
    assert_eq!(res.succeeded_files, 1);
    assert_eq!(res.bytes_reclaimed, 7);
    assert_eq!(res.manifest[0].status, "simulated");
    assert_eq!(res.manifest[0].action_type, "delete_duplicate (dry-run)");

    // Dry run must NOT delete files
    assert!(disk.files.contains_key("/w/orig.txt"));
    assert!(disk.files.contains_key("/w/dup.txt"));
}

#[test]
fn test_execute_permanent_deletion() {
    let mut disk = Disk { files: BTreeMap::from([("/w/orig.txt".to_string(), 7), ("/w/dup.txt".to_string(), 7)]) };
    let report = make_test_report("/w/orig.txt", "/w/dup.txt", 7);
    let options = CleanOptions::default();

    let plan = generate_clean_plan(&report, &options, &facts_for(&report)).unwrap();
    let res = execute_clean_plan(&plan, DeletionMethod::Permanent, false, &mut disk);

    assert_eq!(res.succeeded_files, 1);
    assert!(disk.files.contains_key("/w/orig.txt"), "Original file must be preserved");
    assert!(!disk.files.contains_key("/w/dup.txt"), "Duplicate file must be deleted");
    assert_eq!(res.manifest[0].action_type, "permanent_delete_duplicate");
    assert_eq!(res.manifest[0].original.as_deref(), Some("/w/orig.txt"));
}

#[test]
fn changed_file_is_not_deleted() {
    let mut disk = Disk { files: BTreeMap::from([("/w/orig.txt".to_string(), 7), ("/w/dup.txt".to_string(), 9)]) };
    let report = make_test_report("/w/orig.txt", "/w/dup.txt", 7);
    let plan = generate_clean_plan(&report, &CleanOptions::default(), &facts_for(&report)).unwrap();
    let res = execute_clean_plan(&plan, DeletionMethod::Trash, false, &mut disk);
    assert_eq!(res.succeeded_files, 0);
    assert_eq!(res.bytes_reclaimed, 0);
    assert!(disk.files.contains_key("/w/dup.txt"));
    assert_eq!(res.failed.len(), 1);
    assert_eq!(
        res.failed[0].1,
        "File state changed since scan at '/w/dup.txt': File size changed (expected 7 bytes, found 9 bytes)"
    );
    assert_eq!(res.manifest[0].status, "failed");
}

#[test]
fn failed_removal_is_reported() {
    let report = report_of(vec![], vec!["/w/e.txt".to_string()], vec!["/w/d".to_string()]);
    let options = CleanOptions { clean_empty_files: true, clean_empty_dirs: true, ..Default::default() };
    let plan = generate_clean_plan(&report, &options, &facts_for(&report)).unwrap();
    assert_eq!(plan.total_files_to_remove, 1);
    assert_eq!(plan.total_dirs_to_remove, 1);
    let mut disk = Disk { files: BTreeMap::from([("/w/d".to_string(), 0)]) };
    let res = execute_clean_plan(&plan, DeletionMethod::Trash, false, &mut disk);
    assert_eq!(res.succeeded_files, 0);
    assert_eq!(res.succeeded_dirs, 1);
    assert_eq!(res.failed[0].0, "/w/e.txt");
    assert_eq!(res.failed[0].1, "Remediation error: Trash error: No such file or directory");
}

#[test]
fn plan_blocks_and_skips() {
    let groups = vec![DuplicateGroup {
        hash: "h".to_string(),
        size: 5,
        original: entry("/w/o", 5),
        duplicates: vec![entry("/etc/hosts", 5), entry("/w/.hidden", 5), entry("/w/ok", 5)],
    }];
    let report = report_of(groups, vec!["/w/__init__.py".to_string(), "/w/.e".to_string()], vec![]);
    let options = CleanOptions { clean_empty_files: true, ..Default::default() };
    let plan = generate_clean_plan(&report, &options, &facts_for(&report)).unwrap();
    assert_eq!(plan.actions.len(), 5);
    assert!(matches!(&plan.actions[0], CleanAction::Blocked { reason, .. } if reason == "Protected system path or security vault"));
    assert!(matches!(&plan.actions[1], CleanAction::Skipped { reason, .. } if reason == "Hidden file (use --include-hidden to enable)"));
    assert!(matches!(&plan.actions[2], CleanAction::DeleteDuplicate { size: 5, .. }));
    assert!(matches!(&plan.actions[3], CleanAction::Skipped { reason, .. } if reason == "Structural sentinel file (e.g. __init__.py, .gitkeep)"));
    assert!(matches!(&plan.actions[4], CleanAction::Skipped { reason, .. } if reason == "Hidden file"));
    assert_eq!(plan.blocked_count, 1);
    assert_eq!(plan.skipped_count, 3);
    assert_eq!(plan.total_files_to_remove, 1);
    assert_eq!(plan.total_bytes_reclaimable, 5);

    let hidden_ok = CleanOptions { include_hidden: true, ..Default::default() };
    let plan2 = generate_clean_plan(&report, &hidden_ok, &facts_for(&report)).unwrap();
    assert_eq!(plan2.total_files_to_remove, 2);
    assert_eq!(plan2.actions.len(), 3);
}

#[test]
fn missing_original_blocks_its_duplicates() {
    let report = make_test_report("/w/o", "/w/d", 3);
    let mut facts = facts_for(&report);
    facts.originals[0] = PathFacts { canonical: None, parent_canonical: None };
    let plan = generate_clean_plan(&report, &CleanOptions::default(), &facts).unwrap();
    match &plan.actions[0] {
        CleanAction::Blocked { reason, .. } => assert_eq!(
            reason,
            "Original preservation violation: Designated original file '/w/o' does not exist on disk"
        ),
        other => panic!("unexpected {:?}", other),
    }
}

#[test]
fn steps_for_each_action() {
    let dup = CleanAction::DeleteDuplicate { path: "/d".to_string(), size: 2, original: "/o".to_string(), mtime: 0, dev: 0, ino: 0 };
    assert_eq!(execution_step(&dup, DeletionMethod::Trash, true, &None), ExecStep::Record);
    assert_eq!(execution_step(&dup, DeletionMethod::Trash, false, &None), ExecStep::Inspect("/d".to_string()));
    let same = Some(Ok(FileState { is_symlink: false, is_file: true, len: 2, mtime: 0, dev: 0, ino: 0 }));
    assert_eq!(execution_step(&dup, DeletionMethod::Trash, false, &same), ExecStep::Trash("/d".to_string()));
    assert_eq!(execution_step(&dup, DeletionMethod::Permanent, false, &same), ExecStep::RemoveFile("/d".to_string()));
    let dir = CleanAction::DeleteEmptyDir { path: "/x".to_string() };
    assert_eq!(execution_step(&dir, DeletionMethod::Trash, false, &None), ExecStep::Trash("/x".to_string()));
    assert_eq!(execution_step(&dir, DeletionMethod::Permanent, false, &None), ExecStep::RemoveDir("/x".to_string()));
    let blocked = CleanAction::Blocked { path: "/b".to_string(), reason: "r".to_string() };
    assert_eq!(execution_step(&blocked, DeletionMethod::Permanent, false, &None), ExecStep::Record);
    assert_eq!(dup.target_path(), "/d");
    assert_eq!(dup.reclaimable_bytes(), 2);
    assert_eq!(dir.reclaimable_bytes(), 0);
}

#[test]
fn planned_duplicate_carries_its_scan_stamp() {
    let mut dup = entry("/w/dup.txt", 7);
    dup.mtime = 5_000;
    dup.dev = 8;
    dup.ino = 99;
    let groups = vec![DuplicateGroup { hash: "h".to_string(), size: 7, original: entry("/w/orig.txt", 7), duplicates: vec![dup] }];
    let report = report_of(groups, vec![], vec![]);
    let plan = generate_clean_plan(&report, &CleanOptions::default(), &facts_for(&report)).unwrap();
    assert!(matches!(
        &plan.actions[0],
        CleanAction::DeleteDuplicate { mtime: 5_000, dev: 8, ino: 99, size: 7, .. }
    ));
    // The same length but a later modification time: the re-check refuses it.
    let touched = Some(Ok(FileState { is_symlink: false, is_file: true, len: 7, mtime: 6_000, dev: 8, ino: 99 }));
    assert_eq!(execution_step(&plan.actions[0], DeletionMethod::Permanent, false, &touched), ExecStep::Record);
    let mut result = CleanExecutionResult::default();
    let ts = "t".to_string();
    record_execution(&mut result, &plan.actions[0], DeletionMethod::Permanent, false, &ts, &touched, &None);
    assert_eq!(result.succeeded_files, 0);
    assert_eq!(result.failed[0].1, "File state changed since scan at '/w/dup.txt': File was modified since the scan");
    // Another inode at the same path: refused as well.
    let replaced = Some(Ok(FileState { is_symlink: false, is_file: true, len: 7, mtime: 5_000, dev: 8, ino: 100 }));
    assert_eq!(execution_step(&plan.actions[0], DeletionMethod::Permanent, false, &replaced), ExecStep::Record);
    let unchanged = Some(Ok(FileState { is_symlink: false, is_file: true, len: 7, mtime: 5_000, dev: 8, ino: 99 }));
    assert_eq!(
        execution_step(&plan.actions[0], DeletionMethod::Permanent, false, &unchanged),
        ExecStep::RemoveFile("/w/dup.txt".to_string())
    );
}

#[test]
fn empty_dirs_go_to_the_trash() {
    let report = report_of(vec![], vec![], vec!["/w/d".to_string()]);
    let options = CleanOptions { clean_empty_dirs: true, ..Default::default() };
    let plan = generate_clean_plan(&report, &options, &facts_for(&report)).unwrap();
    assert_eq!(execution_step(&plan.actions[0], DeletionMethod::Trash, false, &None), ExecStep::Trash("/w/d".to_string()));
    assert_eq!(
        execution_step(&plan.actions[0], DeletionMethod::Permanent, false, &None),
        ExecStep::RemoveDir("/w/d".to_string())
    );
    let ts = "t".to_string();
    let mut trashed = CleanExecutionResult::default();
    let refused = Some(Err("no trash here".to_string()));
    record_execution(&mut trashed, &plan.actions[0], DeletionMethod::Trash, false, &ts, &None, &refused);
    assert_eq!(trashed.failed[0].1, "Remediation error: Trash error: no trash here");
    let mut removed = CleanExecutionResult::default();
    record_execution(&mut removed, &plan.actions[0], DeletionMethod::Permanent, false, &ts, &None, &refused);
    assert_eq!(removed.failed[0].1, "no trash here");
}

#[test]
fn every_action_gets_one_manifest_entry() {
    let groups = vec![DuplicateGroup {
        hash: "h".to_string(),
        size: 5,
        original: entry("/w/o", 5),
        duplicates: vec![entry("/etc/hosts", 5), entry("/w/a", 5), entry("/w/b", 5)],
    }];
    let report = report_of(groups, vec!["/w/e".to_string()], vec!["/w/d".to_string()]);
    let options = CleanOptions { clean_empty_files: true, clean_empty_dirs: true, ..Default::default() };
    let plan = generate_clean_plan(&report, &options, &facts_for(&report)).unwrap();
    // /w/b is gone before the run: its re-check fails; the rest succeed.
    let mut disk = Disk {
        files: BTreeMap::from([
            ("/w/o".to_string(), 5),
            ("/w/a".to_string(), 5),
            ("/w/e".to_string(), 0),
            ("/w/d".to_string(), 0),
        ]),
    };
    let res = execute_clean_plan(&plan, DeletionMethod::Permanent, false, &mut disk);
    assert_eq!(res.manifest.len(), plan.actions.len());
    for (entry, action) in res.manifest.iter().zip(plan.actions.iter()) {
        assert_eq!(entry.path, action.target_path());
    }
    let statuses: Vec<&str> = res.manifest.iter().map(|e| e.status.as_str()).collect();
    assert_eq!(statuses, vec!["blocked", "success", "failed", "success", "success"]);
    assert_eq!(res.succeeded_files, 2);
    assert_eq!(res.succeeded_dirs, 1);
    assert_eq!(res.bytes_reclaimed, 5);
    assert_eq!(res.failed.len(), 1);
    assert_eq!(res.failed[0].0, "/w/b");
    assert_eq!(res.succeeded_files + res.succeeded_dirs + res.failed.len() + plan.blocked_count + plan.skipped_count, plan.actions.len());
}

#[test]
fn dry_run_counts_the_plan_totals() {
    let groups = vec![DuplicateGroup {
        hash: "h".to_string(),
        size: 4,
        original: entry("/w/o", 4),
        duplicates: vec![entry("/w/a", 4), entry("/w/b", 4)],
    }];
    let report = report_of(groups, vec!["/w/e".to_string()], vec!["/w/d".to_string()]);
    let options = CleanOptions { clean_empty_files: true, clean_empty_dirs: true, ..Default::default() };
    let plan = generate_clean_plan(&report, &options, &facts_for(&report)).unwrap();
    let mut disk = Disk { files: BTreeMap::new() };
    let res = execute_clean_plan(&plan, DeletionMethod::Trash, true, &mut disk);
    assert_eq!(res.succeeded_files, plan.total_files_to_remove);
    assert_eq!(res.succeeded_dirs, plan.total_dirs_to_remove);
    assert_eq!(res.bytes_reclaimed, plan.total_bytes_reclaimable);
    assert_eq!(res.bytes_reclaimed, 8);
    assert!(res.failed.is_empty());
    assert!(res.manifest.iter().all(|e| e.status == "simulated"));
}
