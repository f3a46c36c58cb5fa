//! File filtering: the compiled ignore rules and minimum size a scan applies.

use vstd::prelude::*;
use crate::ignore::{
    add_entries, apply_lines, excluded_by, preset_dirs, preset_patterns, string_views, IgnoreRules,
};
use crate::paths::{file_name_chars, file_name_of, join_path, join_spec};
use crate::text::{lines_of, string_from_str};
use crate::types::FilterConfig;

verus! {

/// Ignore-file contents applied one after another, as `.dupignore` lines.
pub open spec fn apply_sources(
    st: (Seq<Seq<char>>, Seq<Seq<char>>),
    sources: Seq<Seq<char>>,
) -> (Seq<Seq<char>>, Seq<Seq<char>>)
    decreases sources.len(),
{
    if sources.len() == 0 {
        st
    } else {
        apply_lines(apply_sources(st, sources.drop_last()), lines_of(sources.last()))
    }
}

/// The (directories, patterns) a filter configuration gives: the preset's
/// rules, then each ignore file's lines, then the configured directories and
/// patterns.
pub open spec fn filter_rules(config: FilterConfig, sources: Seq<Seq<char>>) -> (
    Seq<Seq<char>>,
    Seq<Seq<char>>,
) {
    let st0 = match config.preset {
        Some(p) => (
            add_entries(Seq::empty(), preset_dirs(p)),
            add_entries(Seq::empty(), preset_patterns(p, config.include_jars)),
        ),
        None => (Seq::<Seq<char>>::empty(), Seq::<Seq<char>>::empty()),
    };
    let st1 = apply_sources(st0, sources);
    (
        add_entries(st1.0, string_views(config.exclude_dirs@)),
        add_entries(st1.1, string_views(config.exclude_patterns@)),
    )
}

/// The ignore files a configuration loads, in order: the global file, each
/// scan root's `.dupignore`, then the custom files.
pub open spec fn ignore_file_paths(
    config: FilterConfig,
    roots: Seq<Seq<char>>,
    global: Option<Seq<char>>,
) -> Seq<Seq<char>> {
    (if config.use_global_ignore && global is Some {
        seq![global->0]
    } else {
        Seq::empty()
    }) + (if config.use_project_ignore {
        roots.map_values(|r: Seq<char>| join_spec(r, ".dupignore"@))
    } else {
        Seq::empty()
    }) + string_views(config.custom_ignore_files@)
}

/// The ignore files to load for a configuration and scan roots, given where
/// the global ignore file would be: the global file, each root's
/// `.dupignore`, then the custom files.
pub fn ignore_file_candidates(config: &FilterConfig, roots: &Vec<String>, global: Option<String>) -> (r:
    Vec<String>)
    ensures
        string_views(r@) == ignore_file_paths(
            *config,
            string_views(roots@),
            match global {
                Some(g) => Some(g@),
                None => None,
            },
        ),
{
    let mut out: Vec<String> = Vec::new();
    if config.use_global_ignore {
        if let Some(g) = global {
            out.push(g);
        }
    }
    let ghost a = string_views(out@);
    if config.use_project_ignore {
        let mut i: usize = 0;
        while i < roots.len()
            invariant
                i <= roots@.len(),
                string_views(out@) == a + string_views(roots@).take(i as int).map_values(
                    |r: Seq<char>| join_spec(r, ".dupignore"@),
                ),
            decreases roots@.len() - i,
        {
            let p = join_path(roots[i].as_str(), ".dupignore");
            let ghost prev = out@;
            out.push(p);
            assert(string_views(out@) =~= string_views(prev).push(join_spec(roots@[i as int]@, ".dupignore"@)));
            assert(string_views(roots@).take(i + 1) =~= string_views(roots@).take(i as int).push(roots@[i as int]@));
            i = i + 1;
            assert(string_views(out@) =~= a + string_views(roots@).take(i as int).map_values(
                |r: Seq<char>| join_spec(r, ".dupignore"@),
            ));
        }
        assert(string_views(roots@).take(roots@.len() as int) =~= string_views(roots@));
    }
    let ghost b = string_views(out@);
    let mut j: usize = 0;
    while j < config.custom_ignore_files.len()
        invariant
            j <= config.custom_ignore_files@.len(),
            string_views(out@) == b + string_views(config.custom_ignore_files@).take(j as int),
        decreases config.custom_ignore_files@.len() - j,
    {
        let c = config.custom_ignore_files[j].clone();
        let ghost prev = out@;
        out.push(c);
        assert(string_views(out@) =~= string_views(prev).push(config.custom_ignore_files@[j as int]@));
        assert(string_views(config.custom_ignore_files@).take(j + 1) =~= string_views(config.custom_ignore_files@).take(j as int).push(config.custom_ignore_files@[j as int]@));
        j = j + 1;
        assert(string_views(out@) =~= b + string_views(config.custom_ignore_files@).take(j as int));
    }
    assert(string_views(config.custom_ignore_files@).take(j as int) =~= string_views(
        config.custom_ignore_files@,
    ));
    assert(string_views(out@) =~= ignore_file_paths(
        *config,
        string_views(roots@),
        match global {
            Some(g) => Some(g@),
            None => None,
        },
    ));
    out
}

/// Compiled filter that tests files against configured rules and presets.
pub struct FileFilter {
    /// Minimum file size in bytes.
    pub min_size: u64,
    /// Ignore rules compiled from presets, ignore files, and configured exclusions.
    pub rules: IgnoreRules,
}

impl FileFilter {
    /// Build a filter from the configuration and the contents of the ignore
    /// files that were loaded (in the order `ignore_file_candidates` lists
    /// them).
    pub fn from_config(config: &FilterConfig, ignore_sources: &Vec<String>) -> (r: Result<
        FileFilter,
        globset::Error,
    >)
        ensures
            r matches Ok(f) && f.min_size == config.min_size && (f.rules.dirs_view(), f.rules.patterns_view())
                == filter_rules(*config, string_views(ignore_sources@)) && f.rules.is_compiled(),
    {
        let mut rules = match config.preset {
            Some(preset) => IgnoreRules::from_preset(preset, config.include_jars),
            None => IgnoreRules::empty(),
        };
        let ghost st0 = (rules.dirs_view(), rules.patterns_view());
        let mut i: usize = 0;
        while i < ignore_sources.len()
            invariant
                i <= ignore_sources@.len(),
                (rules.dirs_view(), rules.patterns_view()) == apply_sources(
                    st0,
                    string_views(ignore_sources@).take(i as int),
                ),
            decreases ignore_sources@.len() - i,
        {
            proof {
                assert(string_views(ignore_sources@).take(i + 1).drop_last() =~= string_views(
                    ignore_sources@,
                ).take(i as int));
            }
            rules.parse_ignore_content(ignore_sources[i].as_str());
            i = i + 1;
        }
        assert(string_views(ignore_sources@).take(i as int) =~= string_views(ignore_sources@));
        let ghost st1 = (rules.dirs_view(), rules.patterns_view());
        let mut j: usize = 0;
        while j < config.exclude_dirs.len()
            invariant
                j <= config.exclude_dirs@.len(),
                rules.dirs_view() == add_entries(st1.0, string_views(config.exclude_dirs@).take(j as int)),
                rules.patterns_view() == st1.1,
            decreases config.exclude_dirs@.len() - j,
        {
            proof {
                assert(string_views(config.exclude_dirs@).take(j + 1).drop_last() =~= string_views(
                    config.exclude_dirs@,
                ).take(j as int));
            }
            rules.add_dir(config.exclude_dirs[j].as_str());
            j = j + 1;
        }
        assert(string_views(config.exclude_dirs@).take(j as int) =~= string_views(config.exclude_dirs@));
        let mut k: usize = 0;
        while k < config.exclude_patterns.len()
            invariant
                k <= config.exclude_patterns@.len(),
                rules.dirs_view() == add_entries(st1.0, string_views(config.exclude_dirs@)),
                rules.patterns_view() == add_entries(
                    st1.1,
                    string_views(config.exclude_patterns@).take(k as int),
                ),
            decreases config.exclude_patterns@.len() - k,
        {
            proof {
                assert(string_views(config.exclude_patterns@).take(k + 1).drop_last() =~= string_views(
                    config.exclude_patterns@,
                ).take(k as int));
            }
            rules.add_pattern(config.exclude_patterns[k].as_str());
            k = k + 1;
        }
        assert(string_views(config.exclude_patterns@).take(k as int) =~= string_views(
            config.exclude_patterns@,
        ));
        rules.compile_globs();
        Ok(FileFilter { min_size: config.min_size, rules })
    }

    /// Check if a file should be excluded based on glob patterns.
    pub fn is_excluded_by_pattern(&self, path: &str) -> (r: bool)
        ensures
            r == excluded_by(self.rules.globs_view(), path@),
    {
        self.rules.is_path_excluded(path)
    }

    /// Check if a directory name is in the exclusion list.
    pub fn is_excluded_dir(&self, dir_name: &str) -> (r: bool)
        ensures
            r == self.rules.dirs_view().contains(dir_name@),
    {
        self.rules.is_dir_excluded(dir_name)
    }

    /// Check if a file meets the minimum size requirement.
    pub fn meets_min_size(&self, size: u64) -> (r: bool)
        ensures
            r == (size >= self.min_size),
    {
        size >= self.min_size
    }
}

/// Whether a path's file name starts with `.`.
pub open spec fn hidden_spec(path: Seq<char>) -> bool {
    match file_name_of(path) {
        Some(n) => n.len() > 0 && n[0] == '.',
        None => false,
    }
}

/// Check if a path names a hidden file/directory (its file name starts with '.').
pub fn is_hidden(path: &str) -> (r: bool)
    ensures
        r == hidden_spec(path@),
{
    match file_name_chars(path) {
        Some(n) => n.len() > 0 && n[0] == '.',
        None => false,
    }
}

} // verus!
