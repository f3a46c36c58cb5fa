use dupfinder::clean::{CleanAction, CleanPlan};
use dupfinder::cli::{
    choose_preset, format_bytes, format_cache_size, parse_size, parse_size_str, report_format_from,
    review_choice, ReviewChoice, ReviewState,
};
use dupfinder::ignore::IgnorePreset;
use dupfinder::report::ReportFormat;

#[test]
fn test_parse_size_str_and_format_bytes() {
    assert_eq!(parse_size_str("1024").unwrap(), 1024);
    assert_eq!(parse_size_str("1KB").unwrap(), 1024);
    assert_eq!(parse_size_str("5MB").unwrap(), 5 * 1024 * 1024);
    assert_eq!(parse_size_str("2GB").unwrap(), 2 * 1024 * 1024 * 1024);
    assert!(parse_size_str("invalid").is_err());

    assert_eq!(format_bytes(500), "500 B");
    assert_eq!(format_bytes(1024), "1.00 KB");
    assert_eq!(format_bytes(1024 * 1024), "1.00 MB");
    assert_eq!(format_bytes(1024 * 1024 * 1024), "1.00 GB");
}

#[test]
fn parse_size_str_fractions_spaces_and_units() {
    assert_eq!(parse_size_str("").unwrap(), 0);
    assert_eq!(parse_size_str("   ").unwrap(), 0);
    assert_eq!(parse_size_str("1.5KB").unwrap(), 1536);
    assert_eq!(parse_size_str("2 gb").unwrap(), 2 * 1024 * 1024 * 1024);
    assert_eq!(parse_size_str("10b").unwrap(), 10);
    assert_eq!(parse_size_str("3bytes").unwrap(), 3);
    assert_eq!(parse_size_str("1k").unwrap(), 1024);
    assert_eq!(parse_size_str("1TiB").unwrap(), 1u64 << 40);
    assert_eq!(parse_size_str("0.1KB").unwrap(), 102);
    assert_eq!(
        parse_size_str("1e3").unwrap_err(),
        "Unknown size unit 'e3'. Use B, KB, MB, GB, TB"
    );
}

#[test]
fn parse_size_str_error_messages() {
    assert_eq!(parse_size_str("invalid").unwrap_err(), "Invalid number '' in size");
    assert_eq!(
        parse_size_str("5XB").unwrap_err(),
        "Unknown size unit 'XB'. Use B, KB, MB, GB, TB"
    );
    assert_eq!(parse_size_str("1.2.3KB").unwrap_err(), "Invalid number '1.2.3' in size");
}

#[test]
fn parse_size_plain_and_suffixed() {
    assert_eq!(parse_size("1024").unwrap(), 1024);
    assert_eq!(parse_size(" 1kb ").unwrap(), 1024);
    assert_eq!(parse_size("10MB").unwrap(), 10 * 1024 * 1024);
    assert_eq!(parse_size("1.5GB").unwrap(), 1536 * 1024 * 1024);
    assert_eq!(parse_size("2TB").unwrap(), 2u64 << 40);
    assert_eq!(parse_size("7B").unwrap(), 7);
    assert_eq!(parse_size("1e1KB").unwrap(), 10240);
    assert_eq!(
        parse_size("ten").unwrap_err(),
        "Invalid size format: TEN. Use e.g., 1024, 1KB, 10MB"
    );
    assert_eq!(parse_size("xKB").unwrap_err(), "Invalid size value: XKB");
}

#[test]
fn format_bytes_two_decimals() {
    assert_eq!(format_bytes(0), "0 B");
    assert_eq!(format_bytes(1023), "1023 B");
    assert_eq!(format_bytes(1536), "1.50 KB");
    assert_eq!(format_bytes(1024 * 1024 * 5 / 2), "2.50 MB");
    assert_eq!(format_bytes(3 * 1024 * 1024 * 1024), "3.00 GB");
}

#[test]
fn format_cache_size_one_decimal() {
    assert_eq!(format_cache_size(0), "0 B");
    assert_eq!(format_cache_size(512), "512 B");
    assert_eq!(format_cache_size(2048), "2.0 KB");
    assert_eq!(format_cache_size(1536), "1.5 KB");
    assert_eq!(format_cache_size(3 * 1024 * 1024), "3.0 MB");
}

#[test]
fn choose_preset_names_and_errors() {
    assert_eq!(choose_preset(true, &Some("jvm".to_string())), Ok(None));
    assert_eq!(choose_preset(false, &None), Ok(Some(IgnorePreset::Default)));
    assert_eq!(
        choose_preset(false, &Some("BUILD".to_string())),
        Ok(Some(IgnorePreset::BuildOnly))
    );
    assert_eq!(
        choose_preset(false, &Some("bogus".to_string())),
        Err("Invalid preset: 'bogus'. Valid presets: default, build, deps, jars, minimal, none".to_string())
    );
}

#[test]
fn report_format_names() {
    assert!(matches!(report_format_from("JSON"), Ok(ReportFormat::Json)));
    assert!(matches!(report_format_from("txt"), Ok(ReportFormat::Text)));
    assert!(matches!(report_format_from("Text"), Ok(ReportFormat::Text)));
    match report_format_from("XML") {
        Err(m) => assert_eq!(m, "Unknown format: xml. Use 'text' or 'json'"),
        Ok(_) => panic!("xml is no format"),
    }
}

#[test]
fn review_choice_answers() {
    assert_eq!(review_choice(""), ReviewChoice::Keep);
    assert_eq!(review_choice(" Y \n"), ReviewChoice::Keep);
    assert_eq!(review_choice("k"), ReviewChoice::Keep);
    assert_eq!(review_choice("A"), ReviewChoice::ApplyAll);
    assert_eq!(review_choice("q"), ReviewChoice::Quit);
    assert_eq!(review_choice("s"), ReviewChoice::Skip);
}

fn dup_action(path: &str, size: u64) -> CleanAction {
    CleanAction::DeleteDuplicate { path: path.to_string(), size, original: "/o".to_string(), mtime: 0, dev: 0, ino: 0 }
}

fn sample_plan() -> CleanPlan {
    let actions = vec![
        dup_action("/d1", 10),
        CleanAction::DeleteEmptyFile { path: "/e".to_string() },
        dup_action("/d2", 20),
        dup_action("/d3", 30),
    ];
    CleanPlan {
        actions,
        total_files_to_remove: 4,
        total_dirs_to_remove: 0,
        total_bytes_reclaimable: 60,
        blocked_count: 0,
        skipped_count: 0,
    }
}

#[test]
fn review_keeps_skips_and_applies_all() {
    let plan = sample_plan();
    let mut st = ReviewState::start(&plan);
    assert!(st.asks(&plan));
    assert_eq!(st.review(&plan, Some(ReviewChoice::Skip)), Some("Skipped duplicate: /d1".to_string()));
    assert!(!st.asks(&plan));
    assert_eq!(st.review(&plan, None), None);
    assert!(st.asks(&plan));
    assert_eq!(st.review(&plan, Some(ReviewChoice::ApplyAll)), None);
    assert!(!st.asks(&plan));
    assert_eq!(st.review(&plan, None), None);
    assert!(st.finished(&plan));
    let p = st.finish(plan.clone());
    assert_eq!(p.actions.len(), 3);
    assert_eq!(p.total_files_to_remove, 2);
    assert_eq!(p.total_bytes_reclaimable, 50);
}

#[test]
fn review_quit_stops() {
    let plan = sample_plan();
    let mut st = ReviewState::start(&plan);
    assert_eq!(
        st.review(&plan, Some(ReviewChoice::Quit)),
        Some("Interactive review aborted.".to_string())
    );
    assert!(st.finished(&plan));
    let p = st.finish(plan.clone());
    assert!(p.actions.is_empty());
    assert_eq!(p.total_bytes_reclaimable, 0);
}
