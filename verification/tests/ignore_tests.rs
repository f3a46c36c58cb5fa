use dupfinder::ignore::{
    generate_starter_ignore_content, global_ignore_path_from, preset_catalog, IgnorePreset, IgnoreRules,
};

#[test]
fn test_preset_from_str() {
    assert_eq!(IgnorePreset::from_str_name("default"), Some(IgnorePreset::Default));
    assert_eq!(IgnorePreset::from_str_name("jvm"), Some(IgnorePreset::JarsOnly));
    assert_eq!(IgnorePreset::from_str_name("deps"), Some(IgnorePreset::Dependencies));
    assert_eq!(IgnorePreset::from_str_name("build"), Some(IgnorePreset::BuildOnly));
    assert_eq!(IgnorePreset::from_str_name("minimal"), Some(IgnorePreset::Minimal));
    assert_eq!(IgnorePreset::from_str_name("none"), Some(IgnorePreset::Empty));
    assert_eq!(IgnorePreset::from_str_name("invalid"), None);
}

#[test]
fn preset_names_ignore_case_and_aliases() {
    assert_eq!(IgnorePreset::from_str_name("ALL"), Some(IgnorePreset::Default));
    assert_eq!(IgnorePreset::from_str_name("Build-Only"), Some(IgnorePreset::BuildOnly));
    assert_eq!(IgnorePreset::from_str_name("modules"), Some(IgnorePreset::Dependencies));
    assert_eq!(IgnorePreset::from_str_name("JAR"), Some(IgnorePreset::JarsOnly));
    assert_eq!(IgnorePreset::from_str_name("vcs"), Some(IgnorePreset::Minimal));
    assert_eq!(IgnorePreset::from_str_name("empty"), Some(IgnorePreset::Empty));
    assert_eq!(IgnorePreset::from_str_name(""), None);
}

#[test]
fn test_default_preset_filtering() {
    let rules = IgnoreRules::from_preset(IgnorePreset::Default, false);
    assert!(rules.is_dir_excluded("node_modules"));
    assert!(rules.is_dir_excluded("target"));
    assert!(rules.is_dir_excluded(".gradle"));
    assert!(rules.is_dir_excluded("__pycache__"));
    assert!(rules.is_dir_excluded(".git"));

    assert!(rules.is_path_excluded("app.jar"));
    assert!(rules.is_path_excluded("/path/to/module.class"));
    assert!(rules.is_path_excluded("script.pyc"));
    assert!(rules.is_path_excluded("libcore.rlib"));
    assert!(rules.is_path_excluded("main.o"));

    assert!(!rules.is_path_excluded("main.rs"));
    assert!(!rules.is_path_excluded("index.ts"));
}

#[test]
fn test_include_jars_override() {
    let rules = IgnoreRules::from_preset(IgnorePreset::Default, true);
    assert!(!rules.is_path_excluded("app.jar"));
    assert!(!rules.is_path_excluded("library.war"));
    assert!(rules.is_path_excluded("main.o"));
    assert!(rules.is_dir_excluded("node_modules"));
}

#[test]
fn test_parse_ignore_content() {
    let mut rules = IgnoreRules::empty();
    let content = "
        # Custom ignore
        my_custom_cache/
        *.backup
        temp_*
        ";
    rules.parse_ignore_content(content);
    assert!(rules.is_dir_excluded("my_custom_cache"));
    assert!(rules.is_path_excluded("data.backup"));
    assert!(rules.is_path_excluded("temp_file.txt"));
    assert!(!rules.is_path_excluded("normal.txt"));
}

#[test]
fn bare_names_become_dirs_and_patterns() {
    let mut rules = IgnoreRules::empty();
    rules.parse_ignore_content("vendor\nnotes.md\n\n# comment\n");
    assert!(rules.is_dir_excluded("vendor"));
    assert!(!rules.is_dir_excluded("notes.md"));
    assert!(rules.is_path_excluded("/x/notes.md"));
    assert_eq!(rules.raw_patterns, vec!["vendor".to_string(), "notes.md".to_string()]);
}

#[test]
fn add_dir_and_pattern_trim_and_dedup() {
    let mut rules = IgnoreRules::empty();
    rules.add_dir("  build ");
    rules.add_dir("build");
    rules.add_dir("   ");
    rules.add_pattern("*.tmp");
    rules.add_pattern(" *.tmp ");
    assert_eq!(rules.exclude_dirs, vec!["build".to_string()]);
    assert_eq!(rules.raw_patterns, vec!["*.tmp".to_string()]);
    assert!(!rules.is_path_excluded("a.tmp"));
    rules.compile_globs();
    assert!(rules.is_path_excluded("a.tmp"));
}

#[test]
fn empty_preset_excludes_nothing() {
    let rules = IgnoreRules::from_preset(IgnorePreset::Empty, false);
    assert!(rules.exclude_dirs.is_empty());
    assert!(rules.exclude_globs.is_none());
    assert!(!rules.is_path_excluded("app.jar"));
    let minimal = IgnoreRules::from_preset(IgnorePreset::Minimal, false);
    assert!(minimal.is_dir_excluded(".git"));
    assert!(!minimal.is_dir_excluded("node_modules"));
}

#[test]
fn default_rules_are_default_preset() {
    let d = IgnoreRules::default();
    let p = IgnoreRules::from_preset(IgnorePreset::Default, false);
    assert_eq!(d.exclude_dirs, p.exclude_dirs);
    assert_eq!(d.raw_patterns, p.raw_patterns);
}

#[test]
fn starter_content_lists_every_category() {
    let content = generate_starter_ignore_content();
    assert!(content.starts_with("# dupfinder ignore configuration file (.dupignore)\n"));
    for cat in preset_catalog() {
        assert!(content.contains(cat.name));
        for d in cat.dirs {
            assert!(content.contains(&format!("{}/\n", d)));
        }
    }
    let mut rules = IgnoreRules::empty();
    rules.parse_ignore_content(&content);
    assert!(rules.is_dir_excluded("node_modules"));
    assert!(rules.is_path_excluded("x.class"));
}

#[test]
fn global_ignore_path_joins_config_dir() {
    assert_eq!(
        global_ignore_path_from(Some("/home/u/.config".to_string())),
        Some("/home/u/.config/dupfinder/dupignore".to_string())
    );
    assert_eq!(global_ignore_path_from(None), None);
}

#[test]
fn include_jars_empties_the_jars_preset() {
    let jars = IgnoreRules::from_preset(IgnorePreset::JarsOnly, false);
    assert!(jars.is_path_excluded("app.jar"));
    assert!(jars.is_dir_excluded(".gradle"));
    let scanned = IgnoreRules::from_preset(IgnorePreset::JarsOnly, true);
    assert!(scanned.raw_patterns.is_empty());
    assert!(!scanned.is_path_excluded("app.jar"));
    assert!(!scanned.is_path_excluded("Main.class"));
    assert!(scanned.is_dir_excluded(".gradle"));
    for preset in [IgnorePreset::Default, IgnorePreset::BuildOnly, IgnorePreset::Dependencies, IgnorePreset::JarsOnly] {
        let rules = IgnoreRules::from_preset(preset, true);
        for p in ["*.jar", "*.war", "*.ear", "*.class", "*.aar"] {
            assert!(!rules.raw_patterns.iter().any(|r| r == p));
        }
    }
}

#[test]
fn egg_info_is_a_python_pattern() {
    let rules = IgnoreRules::from_preset(IgnorePreset::Default, false);
    assert!(rules.raw_patterns.iter().any(|r| r == "*.egg-info"));
    assert!(!rules.exclude_dirs.iter().any(|d| d == "*.egg-info"));
    assert!(rules.is_path_excluded("pkg.egg-info"));
    assert!(rules.is_path_excluded("/src/mylib.egg-info"));
}

#[test]
fn starter_content_reads_as_default_preset() {
    let mut rules = IgnoreRules::empty();
    rules.parse_ignore_content(&generate_starter_ignore_content());
    let preset = IgnoreRules::from_preset(IgnorePreset::Default, false);
    assert_eq!(rules.exclude_dirs, preset.exclude_dirs);
    assert_eq!(rules.raw_patterns, preset.raw_patterns);
    assert!(rules.is_path_excluded("pkg.egg-info"));
}
