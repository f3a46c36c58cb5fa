use dupfinder::cache::CacheInfo;
use dupfinder::clean::{CleanAction, CleanExecutionResult, CleanPlan, DeletionMethod};
use dupfinder::cli::{asks_confirmation, clean_permitted, reviews_interactively, CleanArgs};
use dupfinder::images::is_supported_image;
use dupfinder::messages::{
    cache_info_text, confirm_prompt, confirmed, defaults_text, execution_summary_text, format_for_path,
    global_path_text, init_refusal, plan_summary_text,
};
use dupfinder::report::ReportFormat;

const RULE: &str = "========================================================\n";

fn plan(blocked: usize, skipped: usize) -> CleanPlan {
    CleanPlan {
        actions: vec![CleanAction::DeleteEmptyFile { path: "/e".to_string() }],
        total_files_to_remove: 3,
        total_dirs_to_remove: 1,
        total_bytes_reclaimable: 2048,
        blocked_count: blocked,
        skipped_count: skipped,
    }
}

#[test]
fn plan_summary_exact() {
    let expected = format!(
        "\n{RULE}           DUPFINDER REMEDIATION PLAN                   \n{RULE} Mode:                  OS Trash / Recycle Bin\n Duplicate Files:       3\n Empty Directories:     1\n Reclaimable Space:     2.00 KB\n ⚠️ Blocked (Protected): 2\n ℹ️ Skipped (Hidden/Sent): 1\n--------------------------------------------------------\n"
    );
    assert_eq!(plan_summary_text(&plan(2, 1), DeletionMethod::Trash, false), expected);
    let quiet = plan_summary_text(&plan(0, 0), DeletionMethod::Permanent, false);
    assert!(quiet.contains(" Mode:                  Permanent Unlink\n"));
    assert!(!quiet.contains("Blocked"));
    assert!(!quiet.contains("Skipped"));
    let dry = plan_summary_text(&plan(0, 0), DeletionMethod::Permanent, true);
    assert!(dry.contains("DRY RUN (Simulated - No Files Modified)"));
}

#[test]
fn execution_summary_exact() {
    let res = CleanExecutionResult {
        succeeded_files: 2,
        succeeded_dirs: 0,
        bytes_reclaimed: 10,
        failed: vec![("/a".to_string(), "boom".to_string()), ("/b".to_string(), "bang".to_string())],
        manifest: Vec::new(),
    };
    let expected = format!(
        "\n{RULE}           REMEDIATION EXECUTION COMPLETE               \n{RULE} Files Processed:       2\n Directories Removed:   0\n Space Reclaimed:       10 B\n ❌ Errors Encountered: 2\n   - /a: boom\n   - /b: bang\n{RULE}\n"
    );
    assert_eq!(execution_summary_text(&res, false), expected);
    let clean = CleanExecutionResult::default();
    let t = execution_summary_text(&clean, true);
    assert!(t.contains("DRY-RUN SIMULATION COMPLETE"));
    assert!(!t.contains("Errors"));
}

#[test]
fn confirmation_answers() {
    assert!(confirmed("y\n"));
    assert!(confirmed("  YES "));
    assert!(confirmed("Yes"));
    assert!(!confirmed(""));
    assert!(!confirmed("n"));
    assert!(!confirmed("yess"));
    assert!(!confirmed("ye"));
    assert_eq!(confirm_prompt(DeletionMethod::Trash), "Proceed to move duplicate files to Trash? [y/N]: ");
    assert!(confirm_prompt(DeletionMethod::Permanent).contains("permanently delete"));
}

#[test]
fn defaults_listing() {
    let t = defaults_text();
    assert!(t.starts_with("Built-in Ignore Categories & Ecosystem Presets:\n\n  \x1b[1mJVM (Java, Kotlin, Scala, Gradle, Maven)\x1b[0m\n"));
    assert!(t.contains("    Directories : target, build, .gradle, .m2, out, bin, .bsp, .metals, .sbt\n"));
    assert!(t.contains("    Patterns    : *.jar, *.war, *.ear, *.class, *.aar\n"));
    assert!(t.ends_with("Use --no-default-ignores to disable all built-in rules.\n"));
}

#[test]
fn cache_and_path_listings() {
    let info = CacheInfo { path: "/c/cache.json".to_string(), entry_count: 5, file_size_bytes: 2048, exists: true };
    assert_eq!(
        cache_info_text(&info),
        "dupfinder cache info\n────────────────────────────────────\n  Cache path:    /c/cache.json\n  Exists:        yes\n  Entries:       5\n  File size:     2.0 KB\n────────────────────────────────────\n"
    );
    assert_eq!(
        global_path_text("/g/dupignore", false),
        "Global ignore file location: /g/dupignore\nStatus: File does not exist (run 'dupfinder ignore init --global' to create)\n"
    );
    assert_eq!(global_path_text("/g", true), "Global ignore file location: /g\nStatus: File exists\n");
    assert_eq!(
        init_refusal(".dupignore", true, false),
        Some("File already exists at: .dupignore\nUse --force to overwrite.".to_string())
    );
    assert_eq!(init_refusal(".dupignore", true, true), None);
    assert_eq!(init_refusal(".dupignore", false, false), None);
}

#[test]
fn report_file_format_by_extension() {
    assert_eq!(format_for_path("/out/report.json"), ReportFormat::Json);
    assert_eq!(format_for_path("/out/report.txt"), ReportFormat::Text);
    assert_eq!(format_for_path("/out/report.JSON"), ReportFormat::Text);
    assert_eq!(format_for_path("/out/report"), ReportFormat::Text);
    assert_eq!(format_for_path("/out/.json"), ReportFormat::Text);
}

#[test]
fn test_is_supported_image() {
    assert!(is_supported_image("photo.jpg"));
    assert!(is_supported_image("photo.JPEG"));
    assert!(is_supported_image("image.PNG"));
    assert!(is_supported_image("graphic.webp"));
    assert!(is_supported_image("icon.bmp"));
    assert!(!is_supported_image("document.pdf"));
    assert!(!is_supported_image("archive.zip"));
    assert!(!is_supported_image("script.rs"));
    assert!(is_supported_image("/a/b.Tif"));
    assert!(!is_supported_image("/a/.png"));
    assert!(!is_supported_image("/a/png"));
}

fn clean_args() -> CleanArgs {
    CleanArgs {
        paths: vec!["/w".to_string()],
        interactive: false,
        trash: true,
        permanent: false,
        dry_run: false,
        clean_empty_files: false,
        clean_empty_dirs: false,
        include_hidden: false,
        yes: false,
        allow_root: false,
        manifest: None,
        min_size: "1".to_string(),
        exclude: vec![],
        exclude_dir: vec![],
        exclude_preset: None,
        no_default_ignores: false,
        ignore_files: vec![],
        include_jars: false,
        depth: None,
        quiet: false,
    }
}

#[test]
fn clean_command_gates() {
    let mut a = clean_args();
    assert!(clean_permitted(false, &a).is_ok());
    assert_eq!(
        clean_permitted(true, &a),
        Err("Execution blocked: running as root/administrator without --allow-root".to_string())
    );
    a.allow_root = true;
    assert!(clean_permitted(true, &a).is_ok());
    assert!(asks_confirmation(&a));
    a.yes = true;
    assert!(!asks_confirmation(&a));
    a.yes = false;
    a.interactive = true;
    assert!(!asks_confirmation(&a));
    assert!(reviews_interactively(&a));
    a.dry_run = true;
    assert!(!reviews_interactively(&a));
}
