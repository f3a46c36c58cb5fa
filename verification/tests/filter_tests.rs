use dupfinder::filter::{ignore_file_candidates, is_hidden, FileFilter};
use dupfinder::ignore::IgnorePreset;
use dupfinder::types::FilterConfig;

fn filter_of(config: &FilterConfig) -> FileFilter {
    FileFilter::from_config(config, &Vec::new()).unwrap()
}

#[test]
fn test_is_hidden() {
    assert!(is_hidden(".hidden"));
    assert!(is_hidden("/some/path/.dotfile"));
    assert!(!is_hidden("visible"));
    assert!(!is_hidden("/some/path/normal.txt"));
}

#[test]
fn test_excluded_dir_defaults() {
    let config = FilterConfig::default();
    let filter = filter_of(&config);
    assert!(filter.is_excluded_dir(".git"));
    assert!(filter.is_excluded_dir("node_modules"));
    assert!(filter.is_excluded_dir("target"));
    assert!(filter.is_excluded_dir(".gradle"));
    assert!(filter.is_excluded_dir("__pycache__"));
    assert!(!filter.is_excluded_dir("src"));
}

#[test]
fn test_min_size() {
    let config = FilterConfig { min_size: 1024, ..Default::default() };
    let filter = filter_of(&config);
    assert!(!filter.meets_min_size(100));
    assert!(filter.meets_min_size(1024));
    assert!(filter.meets_min_size(2048));
}

#[test]
fn test_glob_exclusion() {
    let config = FilterConfig {
        exclude_patterns: vec!["*.log".to_string(), "*.tmp".to_string()],
        ..Default::default()
    };
    let filter = filter_of(&config);
    assert!(filter.is_excluded_by_pattern("debug.log"));
    assert!(filter.is_excluded_by_pattern("/var/app.tmp"));
    assert!(filter.is_excluded_by_pattern("app.jar"));
    assert!(!filter.is_excluded_by_pattern("main.rs"));
}

#[test]
fn test_no_presets() {
    let config = FilterConfig {
        preset: None,
        use_global_ignore: false,
        use_project_ignore: false,
        exclude_patterns: vec!["*.custom".to_string()],
        exclude_dirs: vec!["custom_dir".to_string()],
        ..Default::default()
    };
    let filter = filter_of(&config);
    assert!(!filter.is_excluded_dir("node_modules"));
    assert!(!filter.is_excluded_by_pattern("app.jar"));
    assert!(filter.is_excluded_dir("custom_dir"));
    assert!(filter.is_excluded_by_pattern("test.custom"));
}

#[test]
fn test_include_jars_toggle() {
    let config = FilterConfig {
        preset: Some(IgnorePreset::Default),
        include_jars: true,
        use_global_ignore: false,
        use_project_ignore: false,
        ..Default::default()
    };
    let filter = filter_of(&config);
    assert!(!filter.is_excluded_by_pattern("app.jar"));
    assert!(filter.is_excluded_by_pattern("main.o"));
}

#[test]
fn ignore_sources_are_applied_in_order() {
    let config = FilterConfig { preset: None, exclude_dirs: Vec::new(), ..Default::default() };
    let sources = vec!["*.txt\ncustom_cache/\n".to_string(), "# nothing\n".to_string()];
    let filter = FileFilter::from_config(&config, &sources).unwrap();
    assert!(filter.is_excluded_by_pattern("/p/notes.txt"));
    assert!(filter.is_excluded_dir("custom_cache"));
    assert!(!filter.is_excluded_by_pattern("/p/main.rs"));
    assert_eq!(filter.min_size, 1);
}

#[test]
fn ignore_file_candidates_order() {
    let config = FilterConfig { custom_ignore_files: vec!["/c/extra".to_string()], ..Default::default() };
    let roots = vec!["/p".to_string(), "/q/".to_string()];
    let got = ignore_file_candidates(&config, &roots, Some("/g/dupignore".to_string()));
    assert_eq!(
        got,
        vec![
            "/g/dupignore".to_string(),
            "/p/.dupignore".to_string(),
            "/q/.dupignore".to_string(),
            "/c/extra".to_string()
        ]
    );
    let off = FilterConfig { use_global_ignore: false, use_project_ignore: false, ..Default::default() };
    assert!(ignore_file_candidates(&off, &roots, Some("/g".to_string())).is_empty());
    assert_eq!(ignore_file_candidates(&config, &Vec::new(), None), vec!["/c/extra".to_string()]);
}
