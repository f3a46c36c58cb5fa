//! Ignore rules: built-in presets, the `.dupignore` line format, and the
//! exclusion tests a scan applies to directory names and file paths.

use vstd::prelude::*;
use globset::GlobSet;
use crate::globs::{
    any_glob_matches, builder_add, builder_build, builder_globs, builder_new, glob_accepts,
    glob_new, globset_builds, globset_globs, globset_is_match,
};
use crate::paths::{file_name, file_name_of, join_path, join_spec};
use crate::text::{
    chars_contain, chars_end_with, chars_eq_str, chars_start_with, lower_text, to_lower,
    has_char, lines_chars, lines_of, push_str, string_from_chars, to_chars, trim, trim_chars,
};
use crate::text::{all_ascii, ascii_lower, is_ws, lemma_lines_concat, lemma_one_line, lemma_trim_keeps_first, lemma_trim_untouched, no_newline};

verus! {

/// Predefined ignore presets for common development ecosystems.
#[derive(Debug, Clone, Copy, PartialEq, Eq, Structural)]
pub enum IgnorePreset {
    /// Comprehensive: all common build dirs, vendor dirs, jars/bytecode, and OS metadata.
    Default,
    /// Compilation outputs and intermediate object files.
    BuildOnly,
    /// Downloaded third-party module and dependency directories.
    Dependencies,
    /// JVM archive artifacts (`*.jar`, `*.war`, `*.ear`, `*.class`, `*.aar`).
    JarsOnly,
    /// VCS and OS metadata only (`.git`, `.DS_Store`, etc.).
    Minimal,
    /// No presets (empty).
    Empty,
}

/// The preset a lower-cased name selects.
pub open spec fn preset_named(n: Seq<char>) -> Option<IgnorePreset> {
    if n == "default"@ || n == "all"@ {
        Some(IgnorePreset::Default)
    } else if n == "build"@ || n == "build-only"@ || n == "builds"@ {
        Some(IgnorePreset::BuildOnly)
    } else if n == "deps"@ || n == "dependencies"@ || n == "modules"@ {
        Some(IgnorePreset::Dependencies)
    } else if n == "jars"@ || n == "jar"@ || n == "jvm"@ {
        Some(IgnorePreset::JarsOnly)
    } else if n == "minimal"@ || n == "vcs"@ {
        Some(IgnorePreset::Minimal)
    } else if n == "none"@ || n == "empty"@ {
        Some(IgnorePreset::Empty)
    } else {
        None
    }
}

impl IgnorePreset {
    /// Parse a preset name, ignoring case.
    pub fn from_str_name(name: &str) -> (r: Option<IgnorePreset>)
        ensures
            r == preset_named(lower_text(name@)),
            all_ascii(name@) ==> r == preset_named(ascii_lower(name@)),
    {
        let n = to_chars(to_lower(name).as_str());
        if chars_eq_str(&n, "default") || chars_eq_str(&n, "all") {
            Some(IgnorePreset::Default)
        } else if chars_eq_str(&n, "build") || chars_eq_str(&n, "build-only") || chars_eq_str(
            &n,
            "builds",
        ) {
            Some(IgnorePreset::BuildOnly)
        } else if chars_eq_str(&n, "deps") || chars_eq_str(&n, "dependencies") || chars_eq_str(
            &n,
            "modules",
        ) {
            Some(IgnorePreset::Dependencies)
        } else if chars_eq_str(&n, "jars") || chars_eq_str(&n, "jar") || chars_eq_str(&n, "jvm") {
            Some(IgnorePreset::JarsOnly)
        } else if chars_eq_str(&n, "minimal") || chars_eq_str(&n, "vcs") {
            Some(IgnorePreset::Minimal)
        } else if chars_eq_str(&n, "none") || chars_eq_str(&n, "empty") {
            Some(IgnorePreset::Empty)
        } else {
            None
        }
    }
}

/// Catalog entry describing a category of ignored files/directories.
pub struct PresetCategory {
    pub name: &'static str,
    pub description: &'static str,
    pub dirs: Vec<&'static str>,
    pub patterns: Vec<&'static str>,
}

/// The views of a sequence of string slices.
pub open spec fn str_views(v: Seq<&str>) -> Seq<Seq<char>> {
    v.map_values(|s: &str| s@)
}

/// The views of a sequence of strings.
pub open spec fn string_views(v: Seq<String>) -> Seq<Seq<char>> {
    v.map_values(|s: String| s@)
}

/// One category of the built-in catalog: name, description, directory
/// names and file patterns.
pub struct CategorySpec {
    pub name: Seq<char>,
    pub description: Seq<char>,
    pub dirs: Seq<Seq<char>>,
    pub patterns: Seq<Seq<char>>,
}

/// The built-in category catalog.
pub open spec fn catalog_spec() -> Seq<CategorySpec> {
    seq![
        CategorySpec {
            name: "JVM (Java, Kotlin, Scala, Gradle, Maven)"@,
            description: "Build outputs, caches, dependency repos, and compiled archives"@,
            dirs: seq!["target"@, "build"@, ".gradle"@, ".m2"@, "out"@, "bin"@, ".bsp"@, ".metals"@, ".sbt"@],
            patterns: seq!["*.jar"@, "*.war"@, "*.ear"@, "*.class"@, "*.aar"@],
        },
        CategorySpec {
            name: "JavaScript / TypeScript / Node / Web"@,
            description: "Node modules, framework build outputs, and package caches"@,
            dirs: seq!["node_modules"@, ".next"@, ".nuxt"@, ".turbo"@, ".parcel-cache"@, "dist"@, "build"@, "out"@, ".svelte-kit"@, ".cache"@, ".yarn/cache"@, "bower_components"@],
            patterns: seq!["*.tsbuildinfo"@],
        },
        CategorySpec {
            name: "Python"@,
            description: "Bytecode cache, virtual environments, eggs, and build artifacts"@,
            dirs: seq!["__pycache__"@, ".venv"@, "venv"@, "env"@, ".pytest_cache"@, ".mypy_cache"@, ".ruff_cache"@, ".tox"@, ".nox"@, ".eggs"@, "build"@, "dist"@],
            patterns: seq!["*.pyc"@, "*.pyo"@, "*.pyd"@, "*.egg-info"@],
        },
        CategorySpec {
            name: "Rust"@,
            description: "Cargo build target directory and compiled artifacts"@,
            dirs: seq!["target"@],
            patterns: seq!["*.rlib"@, "*.rmeta"@],
        },
        CategorySpec {
            name: "C / C++ / CMake"@,
            description: "Build folders, object files, and compiled libraries"@,
            dirs: seq!["build"@, "cmake-build-debug"@, "cmake-build-release"@, "CMakeFiles"@, "obj"@, "bin"@],
            patterns: seq!["*.o"@, "*.obj"@, "*.a"@, "*.lib"@, "*.so"@, "*.dylib"@, "*.dll"@, "*.exe"@, "*.pdb"@],
        },
        CategorySpec {
            name: "Go"@,
            description: "Vendored packages and compiled binaries"@,
            dirs: seq!["vendor"@, "bin"@, "pkg"@],
            patterns: Seq::<Seq<char>>::empty(),
        },
        CategorySpec {
            name: ".NET / C# / F#"@,
            description: "Bin/obj folders, NuGet packages, and debug symbols"@,
            dirs: seq!["bin"@, "obj"@, "packages"@, ".vs"@],
            patterns: seq!["*.nupkg"@, "*.pdb"@],
        },
        CategorySpec {
            name: "PHP & Ruby"@,
            description: "Composer and Bundler vendor directories"@,
            dirs: seq!["vendor"@, "vendor/bundle"@, ".bundle"@],
            patterns: Seq::<Seq<char>>::empty(),
        },
        CategorySpec {
            name: "Mobile & Apple (Dart, Flutter, Swift)"@,
            description: "Flutter tool caches, CocoaPods, and Xcode DerivedData"@,
            dirs: seq![".dart_tool"@, "build"@, ".pub-cache"@, ".build"@, "DerivedData"@, "Pods"@],
            patterns: Seq::<Seq<char>>::empty(),
        },
        CategorySpec {
            name: "VCS & OS Metadata"@,
            description: "Version control directories, OS thumbnails, and editor metadata"@,
            dirs: seq![".git"@, ".svn"@, ".hg"@, ".DS_Store"@, "Thumbs.db"@, ".idea"@, ".vscode"@],
            patterns: seq![".DS_Store"@, "Thumbs.db"@, "desktop.ini"@, "*.tmp"@, "*.swp"@, "*~"@],
        },
    ]
}

/// Whether a catalog entry describes `spec`.
pub open spec fn category_matches(c: PresetCategory, spec: CategorySpec) -> bool {
    &&& c.name@ == spec.name
    &&& c.description@ == spec.description
    &&& str_views(c.dirs@) == spec.dirs
    &&& str_views(c.patterns@) == spec.patterns
}

fn category(
    name: &'static str,
    description: &'static str,
    dirs: Vec<&'static str>,
    patterns: Vec<&'static str>,
) -> (r: PresetCategory)
    ensures
        r.name == name,
        r.description == description,
        r.dirs == dirs,
        r.patterns == patterns,
{
    PresetCategory { name, description, dirs, patterns }
}

/// The built-in category catalog.
pub fn preset_catalog() -> (r: Vec<PresetCategory>)
    ensures
        r@.len() == catalog_spec().len(),
        forall|i: int| 0 <= i < r@.len() ==> category_matches(#[trigger] r@[i], catalog_spec()[i]),
{
    let mut v: Vec<PresetCategory> = Vec::new();
    v.push(
        category(
            "JVM (Java, Kotlin, Scala, Gradle, Maven)",
            "Build outputs, caches, dependency repos, and compiled archives",
            vec!["target", "build", ".gradle", ".m2", "out", "bin", ".bsp", ".metals", ".sbt"],
            vec!["*.jar", "*.war", "*.ear", "*.class", "*.aar"],
        ),
    );
    v.push(
        category(
            "JavaScript / TypeScript / Node / Web",
            "Node modules, framework build outputs, and package caches",
            vec![
                "node_modules",
                ".next",
                ".nuxt",
                ".turbo",
                ".parcel-cache",
                "dist",
                "build",
                "out",
                ".svelte-kit",
                ".cache",
                ".yarn/cache",
                "bower_components",
            ],
            vec!["*.tsbuildinfo"],
        ),
    );
    v.push(
        category(
            "Python",
            "Bytecode cache, virtual environments, eggs, and build artifacts",
            vec![
                "__pycache__",
                ".venv",
                "venv",
                "env",
                ".pytest_cache",
                ".mypy_cache",
                ".ruff_cache",
                ".tox",
                ".nox",
                ".eggs",
                "build",
                "dist",
            ],
            vec!["*.pyc", "*.pyo", "*.pyd", "*.egg-info"],
        ),
    );
    v.push(
        category(
            "Rust",
            "Cargo build target directory and compiled artifacts",
            vec!["target"],
            vec!["*.rlib", "*.rmeta"],
        ),
    );
    v.push(
        category(
            "C / C++ / CMake",
            "Build folders, object files, and compiled libraries",
            vec!["build", "cmake-build-debug", "cmake-build-release", "CMakeFiles", "obj", "bin"],
            vec!["*.o", "*.obj", "*.a", "*.lib", "*.so", "*.dylib", "*.dll", "*.exe", "*.pdb"],
        ),
    );
    v.push(
        category(
            "Go",
            "Vendored packages and compiled binaries",
            vec!["vendor", "bin", "pkg"],
            Vec::new(),
        ),
    );
    v.push(
        category(
            ".NET / C# / F#",
            "Bin/obj folders, NuGet packages, and debug symbols",
            vec!["bin", "obj", "packages", ".vs"],
            vec!["*.nupkg", "*.pdb"],
        ),
    );
    v.push(
        category(
            "PHP & Ruby",
            "Composer and Bundler vendor directories",
            vec!["vendor", "vendor/bundle", ".bundle"],
            Vec::new(),
        ),
    );
    v.push(
        category(
            "Mobile & Apple (Dart, Flutter, Swift)",
            "Flutter tool caches, CocoaPods, and Xcode DerivedData",
            vec![".dart_tool", "build", ".pub-cache", ".build", "DerivedData", "Pods"],
            Vec::new(),
        ),
    );
    v.push(
        category(
            "VCS & OS Metadata",
            "Version control directories, OS thumbnails, and editor metadata",
            vec![".git", ".svn", ".hg", ".DS_Store", "Thumbs.db", ".idea", ".vscode"],
            vec![".DS_Store", "Thumbs.db", "desktop.ini", "*.tmp", "*.swp", "*~"],
        ),
    );
    assert(catalog_spec().len() == 10);
    assert forall|i: int| 0 <= i < v@.len() implies category_matches(#[trigger] v@[i], catalog_spec()[i]) by {
        assert(str_views(v@[i].dirs@) =~= catalog_spec()[i].dirs);
        assert(str_views(v@[i].patterns@) =~= catalog_spec()[i].patterns);
    }
    v
}


/// Whether a file pattern is one of the JVM archive patterns that
/// `include_jars` keeps scanning.
pub open spec fn is_jar_pattern(p: Seq<char>) -> bool {
    p == "*.jar"@ || p == "*.war"@ || p == "*.ear"@ || p == "*.class"@ || p == "*.aar"@
}

/// The directory lists of catalog categories, concatenated.
pub open spec fn catalog_dirs(cats: Seq<CategorySpec>) -> Seq<Seq<char>>
    decreases cats.len(),
{
    if cats.len() == 0 {
        Seq::empty()
    } else {
        catalog_dirs(cats.drop_last()) + cats.last().dirs
    }
}

/// `ps` without the JVM archive patterns when `include_jars` is set.
pub open spec fn drop_jars(ps: Seq<Seq<char>>, include_jars: bool) -> Seq<Seq<char>>
    decreases ps.len(),
{
    if ps.len() == 0 {
        Seq::empty()
    } else {
        let k = drop_jars(ps.drop_last(), include_jars);
        if include_jars && is_jar_pattern(ps.last()) {
            k
        } else {
            k.push(ps.last())
        }
    }
}

/// The pattern lists of catalog categories, concatenated, without the JVM
/// archive patterns when `include_jars` is set.
pub open spec fn catalog_patterns(cats: Seq<CategorySpec>, include_jars: bool) -> Seq<Seq<char>>
    decreases cats.len(),
{
    if cats.len() == 0 {
        Seq::empty()
    } else {
        catalog_patterns(cats.drop_last(), include_jars) + drop_jars(cats.last().patterns, include_jars)
    }
}

/// The directory names a preset excludes, in the order they are added.
pub open spec fn preset_dirs(preset: IgnorePreset) -> Seq<Seq<char>> {
    match preset {
        IgnorePreset::Empty => Seq::empty(),
        IgnorePreset::Minimal => seq![".git"@, ".svn"@, ".hg"@, ".DS_Store"@, "Thumbs.db"@, ".idea"@, ".vscode"@],
        IgnorePreset::BuildOnly => seq!["target"@, "build"@, "dist"@, "out"@, "bin"@, "obj"@, "CMakeFiles"@, "cmake-build-debug"@, "cmake-build-release"@, ".next"@, ".nuxt"@, ".turbo"@, ".parcel-cache"@, ".svelte-kit"@],
        IgnorePreset::Dependencies => seq!["node_modules"@, ".venv"@, "venv"@, "env"@, "vendor"@, ".gradle"@, ".m2"@, "packages"@, "Pods"@, ".pub-cache"@, ".yarn/cache"@, "bower_components"@],
        IgnorePreset::JarsOnly => seq![".gradle"@, ".m2"@],
        IgnorePreset::Default => catalog_dirs(catalog_spec()),
    }
}

/// The file patterns a preset excludes, in the order they are added.
pub open spec fn preset_patterns(preset: IgnorePreset, include_jars: bool) -> Seq<Seq<char>> {
    match preset {
        IgnorePreset::Empty => Seq::empty(),
        IgnorePreset::Minimal => seq![".DS_Store"@, "Thumbs.db"@, "desktop.ini"@, "*.tmp"@, "*.swp"@, "*~"@],
        IgnorePreset::BuildOnly => seq!["*.o"@, "*.obj"@, "*.a"@, "*.lib"@, "*.so"@, "*.dylib"@, "*.dll"@, "*.exe"@, "*.pdb"@, "*.rlib"@, "*.rmeta"@, "*.pyc"@, "*.pyo"@] + (if include_jars {
            Seq::empty()
        } else {
            seq!["*.class"@, "*.jar"@, "*.war"@, "*.ear"@, "*.aar"@]
        }),
        IgnorePreset::Dependencies => if include_jars {
            Seq::empty()
        } else {
            seq!["*.jar"@, "*.aar"@, "*.nupkg"@]
        },
        IgnorePreset::JarsOnly => if include_jars {
            Seq::empty()
        } else {
            seq!["*.jar"@, "*.war"@, "*.ear"@, "*.class"@, "*.aar"@]
        },
        IgnorePreset::Default => catalog_patterns(catalog_spec(), include_jars),
    }
}

/// Adds one entry to a rule list: trimmed, and only when non-empty and not
/// already present.
pub open spec fn add_entry(list: Seq<Seq<char>>, e: Seq<char>) -> Seq<Seq<char>> {
    let t = trim(e);
    if t.len() > 0 && !list.contains(t) {
        list.push(t)
    } else {
        list
    }
}

/// Adds entries one after another.
pub open spec fn add_entries(list: Seq<Seq<char>>, es: Seq<Seq<char>>) -> Seq<Seq<char>>
    decreases es.len(),
{
    if es.len() == 0 {
        list
    } else {
        add_entry(add_entries(list, es.drop_last()), es.last())
    }
}

/// The patterns `Glob::new` accepts, in order.
pub open spec fn accepted_globs(ps: Seq<Seq<char>>) -> Seq<Seq<char>>
    decreases ps.len(),
{
    if ps.len() == 0 {
        Seq::empty()
    } else {
        let k = accepted_globs(ps.drop_last());
        if glob_accepts(ps.last()) {
            k.push(ps.last())
        } else {
            k
        }
    }
}

/// The glob set compiled from a pattern list: none for no patterns;
/// otherwise the accepted patterns, when the set builds.
pub open spec fn compiled(patterns: Seq<Seq<char>>) -> Option<Seq<Seq<char>>> {
    if patterns.len() == 0 {
        None
    } else if globset_builds(accepted_globs(patterns)) {
        Some(accepted_globs(patterns))
    } else {
        None
    }
}

/// Whether a path is excluded by a compiled set: the set matches the whole
/// path or its file name.
pub open spec fn excluded_by(globs: Option<Seq<Seq<char>>>, path: Seq<char>) -> bool {
    match globs {
        None => false,
        Some(g) => any_glob_matches(g, path) || (match file_name_of(path) {
            Some(n) => any_glob_matches(g, n),
            None => false,
        }),
    }
}

/// What one `.dupignore` line adds to (directories, patterns): comments and
/// blank lines nothing; `name/` a directory; a line with `/`, `*` or `?` a
/// pattern; another line a pattern, and a directory too when it has no `.`.
pub open spec fn apply_line(
    st: (Seq<Seq<char>>, Seq<Seq<char>>),
    raw: Seq<char>,
) -> (Seq<Seq<char>>, Seq<Seq<char>>) {
    let line = trim(raw);
    if line.len() == 0 || line[0] == '#' {
        st
    } else if line.last() == '/' {
        (add_entry(st.0, line.drop_last()), st.1)
    } else if has_char(line, '/') || has_char(line, '*') || has_char(line, '?') {
        (st.0, add_entry(st.1, line))
    } else {
        (
            if !has_char(line, '.') {
                add_entry(st.0, line)
            } else {
                st.0
            },
            add_entry(st.1, line),
        )
    }
}

/// `apply_line` over lines in order.
pub open spec fn apply_lines(
    st: (Seq<Seq<char>>, Seq<Seq<char>>),
    lines: Seq<Seq<char>>,
) -> (Seq<Seq<char>>, Seq<Seq<char>>)
    decreases lines.len(),
{
    if lines.len() == 0 {
        st
    } else {
        apply_line(apply_lines(st, lines.drop_last()), lines.last())
    }
}

/// Compiled collection of ignore rules (directory names, path patterns, glob set).
pub struct IgnoreRules {
    /// Directory names to skip when encountered.
    pub exclude_dirs: Vec<String>,
    /// Compiled glob set for file matching.
    pub exclude_globs: Option<GlobSet>,
    /// Raw patterns for debugging or inspection.
    pub raw_patterns: Vec<String>,
}

impl IgnoreRules {
    /// The excluded directory names.
    pub open spec fn dirs_view(&self) -> Seq<Seq<char>> {
        string_views(self.exclude_dirs@)
    }

    /// The raw file patterns.
    pub open spec fn patterns_view(&self) -> Seq<Seq<char>> {
        string_views(self.raw_patterns@)
    }

    /// The patterns of the compiled glob set, if there is one.
    pub open spec fn globs_view(&self) -> Option<Seq<Seq<char>>> {
        match self.exclude_globs {
            Some(s) => Some(globset_globs(s)),
            None => None,
        }
    }

    /// Whether the compiled set is the one the raw patterns give.
    pub open spec fn is_compiled(&self) -> bool {
        self.globs_view() == compiled(self.patterns_view())
    }

    /// An empty set of ignore rules.
    pub fn empty() -> (r: IgnoreRules)
        ensures
            r.dirs_view() == Seq::<Seq<char>>::empty(),
            r.patterns_view() == Seq::<Seq<char>>::empty(),
            r.globs_view() is None,
            r.is_compiled(),
    {
        let r = IgnoreRules { exclude_dirs: Vec::new(), exclude_globs: None, raw_patterns: Vec::new() };
        assert(r.dirs_view() =~= Seq::<Seq<char>>::empty());
        assert(r.patterns_view() =~= Seq::<Seq<char>>::empty());
        r
    }

    /// Add a directory to the exclusion list (trimmed, deduplicated).
    pub fn add_dir(&mut self, dir: &str)
        ensures
            final(self).dirs_view() == add_entry(old(self).dirs_view(), dir@),
            final(self).raw_patterns == old(self).raw_patterns,
            final(self).exclude_globs == old(self).exclude_globs,
    {
        let tc = trim_chars(&to_chars(dir));
        if tc.len() > 0 {
            let t = string_from_chars(&tc);
            if !contains_string(&self.exclude_dirs, &t) {
                self.exclude_dirs.push(t);
                assert(self.dirs_view() =~= old(self).dirs_view().push(trim(dir@)));
            }
        }
    }

    /// Add a glob pattern to the exclusion list (trimmed, deduplicated).
    pub fn add_pattern(&mut self, pattern: &str)
        ensures
            final(self).patterns_view() == add_entry(old(self).patterns_view(), pattern@),
            final(self).exclude_dirs == old(self).exclude_dirs,
            final(self).exclude_globs == old(self).exclude_globs,
    {
        let tc = trim_chars(&to_chars(pattern));
        if tc.len() > 0 {
            let t = string_from_chars(&tc);
            if !contains_string(&self.raw_patterns, &t) {
                self.raw_patterns.push(t);
                assert(self.patterns_view() =~= old(self).patterns_view().push(trim(pattern@)));
            }
        }
    }

    /// Compile the raw glob patterns into a `GlobSet`: patterns that do not
    /// parse are left out; no set when there are no patterns or it does not
    /// build.
    pub fn compile_globs(&mut self)
        ensures
            final(self).is_compiled(),
            final(self).exclude_dirs == old(self).exclude_dirs,
            final(self).raw_patterns == old(self).raw_patterns,
    {
        if self.raw_patterns.len() == 0 {
            self.exclude_globs = None;
            return;
        }
        let mut builder = builder_new();
        let mut i: usize = 0;
        while i < self.raw_patterns.len()
            invariant
                i <= self.raw_patterns@.len(),
                builder_globs(builder) == accepted_globs(self.patterns_view().take(i as int)),
            decreases self.raw_patterns@.len() - i,
        {
            proof {
                assert(self.patterns_view().take(i + 1).drop_last() =~= self.patterns_view().take(i as int));
            }
            match glob_new(self.raw_patterns[i].as_str()) {
                Ok(g) => builder_add(&mut builder, g),
                Err(_) => {},
            }
            i = i + 1;
        }
        assert(self.patterns_view().take(i as int) =~= self.patterns_view());
        self.exclude_globs = match builder_build(&builder) {
            Ok(s) => Some(s),
            Err(_) => None,
        };
    }

    /// Check if a directory name should be skipped.
    pub fn is_dir_excluded(&self, dir_name: &str) -> (r: bool)
        ensures
            r == self.dirs_view().contains(dir_name@),
    {
        let mut i: usize = 0;
        while i < self.exclude_dirs.len()
            invariant
                i <= self.exclude_dirs@.len(),
                forall|k: int| 0 <= k < i ==> self.exclude_dirs@[k]@ != dir_name@,
            decreases self.exclude_dirs@.len() - i,
        {
            if crate::text::str_eq(self.exclude_dirs[i].as_str(), dir_name) {
                assert(self.dirs_view()[i as int] == dir_name@);
                return true;
            }
            i = i + 1;
        }
        proof {
            if self.dirs_view().contains(dir_name@) {
                let k = choose|k: int| 0 <= k < self.dirs_view().len() && self.dirs_view()[k] == dir_name@;
                assert(self.exclude_dirs@[k]@ == dir_name@);
            }
        }
        false
    }

    /// Check if a file path is excluded by the compiled glob set: the whole
    /// path, or its file name.
    pub fn is_path_excluded(&self, path: &str) -> (r: bool)
        ensures
            r == excluded_by(self.globs_view(), path@),
    {
        match &self.exclude_globs {
            None => false,
            Some(globs) => {
                if globset_is_match(globs, path) {
                    return true;
                }
                match file_name(path) {
                    Some(n) => globset_is_match(globs, n.as_str()),
                    None => false,
                }
            },
        }
    }

    /// Parse lines in `.dupignore` format (comments `#`, blank lines,
    /// trailing `/` for directories), then recompile the glob set.
    pub fn parse_ignore_content(&mut self, content: &str)
        ensures
            (final(self).dirs_view(), final(self).patterns_view()) == apply_lines(
                (old(self).dirs_view(), old(self).patterns_view()),
                lines_of(content@),
            ),
            final(self).is_compiled(),
    {
        let lines = lines_chars(&to_chars(content));
        let ghost start = (self.dirs_view(), self.patterns_view());
        let mut i: usize = 0;
        while i < lines.len()
            invariant
                i <= lines@.len(),
                lines@.len() == lines_of(content@).len(),
                forall|k: int| 0 <= k < lines@.len() ==> (#[trigger] lines@[k])@ == lines_of(content@)[k],
                (self.dirs_view(), self.patterns_view()) == apply_lines(start, lines_of(content@).take(i as int)),
            decreases lines@.len() - i,
        {
            proof {
                assert(lines_of(content@).take(i + 1).drop_last() =~= lines_of(content@).take(i as int));
            }
            self.apply_line_exec(&lines[i]);
            i = i + 1;
        }
        assert(lines_of(content@).take(lines@.len() as int) =~= lines_of(content@));
        self.compile_globs();
    }

    /// One `.dupignore` line (`apply_line`).
    fn apply_line_exec(&mut self, raw: &Vec<char>)
        ensures
            (final(self).dirs_view(), final(self).patterns_view()) == apply_line(
                (old(self).dirs_view(), old(self).patterns_view()),
                raw@,
            ),
    {
        let line = trim_chars(raw);
        if line.len() == 0 || line[0] == '#' {
            return;
        }
        if line[line.len() - 1] == '/' {
            let mut d: Vec<char> = Vec::new();
            let mut j: usize = 0;
            let n1 = line.len() - 1;
            while j < n1
                invariant
                    j <= n1,
                    n1 + 1 == line@.len(),
                    d@ == line@.take(j as int),
                decreases line@.len() - j,
            {
                d.push(line[j]);
                j = j + 1;
            }
            assert(d@ =~= line@.drop_last());
            let ds = string_from_chars(&d);
            self.add_dir(ds.as_str());
        } else if chars_contain(&line, '/') || chars_contain(&line, '*') || chars_contain(&line, '?') {
            let ls = string_from_chars(&line);
            self.add_pattern(ls.as_str());
        } else {
            let ls = string_from_chars(&line);
            if !chars_contain(&line, '.') {
                self.add_dir(ls.as_str());
            }
            self.add_pattern(ls.as_str());
        }
    }

    /// Rules from a preset profile. With `include_jars`, the JVM archive
    /// patterns of the default preset (and of the build and dependency
    /// presets) are left out, so JARs are scanned.
    pub fn from_preset(preset: IgnorePreset, include_jars: bool) -> (r: IgnoreRules)
        ensures
            r.dirs_view() == add_entries(Seq::empty(), preset_dirs(preset)),
            r.patterns_view() == add_entries(Seq::empty(), preset_patterns(preset, include_jars)),
            r.is_compiled(),
    {
        let (dirs, patterns) = preset_lists(preset, include_jars);
        let mut rules = IgnoreRules::empty();
        let mut i: usize = 0;
        while i < dirs.len()
            invariant
                i <= dirs@.len(),
                str_views(dirs@) == preset_dirs(preset),
                rules.dirs_view() == add_entries(Seq::empty(), preset_dirs(preset).take(i as int)),
                rules.patterns_view() == Seq::<Seq<char>>::empty(),
            decreases dirs@.len() - i,
        {
            proof {
                assert(preset_dirs(preset).take(i + 1).drop_last() =~= preset_dirs(preset).take(i as int));
            }
            rules.add_dir(dirs[i]);
            i = i + 1;
        }
        assert(preset_dirs(preset).take(dirs@.len() as int) =~= preset_dirs(preset));
        let mut j: usize = 0;
        while j < patterns.len()
            invariant
                j <= patterns@.len(),
                str_views(patterns@) == preset_patterns(preset, include_jars),
                rules.dirs_view() == add_entries(Seq::empty(), preset_dirs(preset)),
                rules.patterns_view() == add_entries(Seq::empty(), preset_patterns(preset, include_jars).take(j as int)),
            decreases patterns@.len() - j,
        {
            proof {
                assert(preset_patterns(preset, include_jars).take(j + 1).drop_last() =~= preset_patterns(preset, include_jars).take(j as int));
            }
            rules.add_pattern(patterns[j]);
            j = j + 1;
        }
        assert(preset_patterns(preset, include_jars).take(patterns@.len() as int) =~= preset_patterns(preset, include_jars));
        rules.compile_globs();
        rules
    }
}

impl Default for IgnoreRules {
    /// The default preset, with JVM archives excluded.
    fn default() -> (r: IgnoreRules)
        ensures
            r.dirs_view() == add_entries(Seq::empty(), preset_dirs(IgnorePreset::Default)),
            r.patterns_view() == add_entries(Seq::empty(), preset_patterns(IgnorePreset::Default, false)),
            r.is_compiled(),
    {
        IgnoreRules::from_preset(IgnorePreset::Default, false)
    }
}

/// Whether `list` holds a string equal to `s`.
pub fn contains_string(list: &Vec<String>, s: &String) -> (r: bool)
    ensures
        r == string_views(list@).contains(s@),
{
    let mut i: usize = 0;
    while i < list.len()
        invariant
            i <= list@.len(),
            forall|k: int| 0 <= k < i ==> list@[k]@ != s@,
        decreases list@.len() - i,
    {
        if list[i].eq(s) {
            assert(string_views(list@)[i as int] == s@);
            return true;
        }
        i = i + 1;
    }
    proof {
        if string_views(list@).contains(s@) {
            let k = choose|k: int| 0 <= k < string_views(list@).len() && string_views(list@)[k] == s@;
            assert(list@[k]@ == s@);
        }
    }
    false
}

fn push_all(dst: &mut Vec<&'static str>, src: &Vec<&'static str>)
    ensures
        final(dst)@ == old(dst)@ + src@,
{
    let ghost start = dst@;
    let mut i: usize = 0;
    while i < src.len()
        invariant
            i <= src@.len(),
            dst@ == start + src@.take(i as int),
        decreases src@.len() - i,
    {
        dst.push(src[i]);
        i = i + 1;
        assert(src@.take(i as int) =~= src@.take((i - 1) as int).push(src@[i - 1]));
    }
    assert(src@.take(src@.len() as int) =~= src@);
}

fn is_jar_pattern_exec(p: &str) -> (r: bool)
    ensures
        r == is_jar_pattern(p@),
{
    crate::text::str_eq(p, "*.jar") || crate::text::str_eq(p, "*.war") || crate::text::str_eq(p, "*.ear")
        || crate::text::str_eq(p, "*.class") || crate::text::str_eq(p, "*.aar")
}

/// The directory and pattern lists of a preset, in the order they are added.
fn preset_lists(preset: IgnorePreset, include_jars: bool) -> (r: (Vec<&'static str>, Vec<&'static str>))
    ensures
        str_views(r.0@) == preset_dirs(preset),
        str_views(r.1@) == preset_patterns(preset, include_jars),
{
    match preset {
        IgnorePreset::Empty => {
            let r: (Vec<&'static str>, Vec<&'static str>) = (Vec::new(), Vec::new());
            assert(str_views(r.0@) =~= preset_dirs(preset));
            assert(str_views(r.1@) =~= preset_patterns(preset, include_jars));
            r
        },
        IgnorePreset::Minimal => {
            let r = (
                vec![".git", ".svn", ".hg", ".DS_Store", "Thumbs.db", ".idea", ".vscode"],
                vec![".DS_Store", "Thumbs.db", "desktop.ini", "*.tmp", "*.swp", "*~"],
            );
            assert(str_views(r.0@) =~= preset_dirs(preset));
            assert(str_views(r.1@) =~= preset_patterns(preset, include_jars));
            r
        },
        IgnorePreset::BuildOnly => {
            let d = vec![
                "target",
                "build",
                "dist",
                "out",
                "bin",
                "obj",
                "CMakeFiles",
                "cmake-build-debug",
                "cmake-build-release",
                ".next",
                ".nuxt",
                ".turbo",
                ".parcel-cache",
                ".svelte-kit",
            ];
            let mut p = vec![
                "*.o", "*.obj", "*.a", "*.lib", "*.so", "*.dylib", "*.dll", "*.exe", "*.pdb",
                "*.rlib", "*.rmeta", "*.pyc", "*.pyo",
            ];
            let ghost p0 = p@;
            if !include_jars {
                let extra = vec!["*.class", "*.jar", "*.war", "*.ear", "*.aar"];
                push_all(&mut p, &extra);
                assert(str_views(p@) =~= preset_patterns(preset, include_jars));
            } else {
                assert(str_views(p@) =~= preset_patterns(preset, include_jars));
            }
            assert(str_views(d@) =~= preset_dirs(preset));
            (d, p)
        },
        IgnorePreset::Dependencies => {
            let d = vec![
                "node_modules",
                ".venv",
                "venv",
                "env",
                "vendor",
                ".gradle",
                ".m2",
                "packages",
                "Pods",
                ".pub-cache",
                ".yarn/cache",
                "bower_components",
            ];
            let p: Vec<&'static str> = if !include_jars {
                vec!["*.jar", "*.aar", "*.nupkg"]
            } else {
                Vec::new()
            };
            assert(str_views(d@) =~= preset_dirs(preset));
            assert(str_views(p@) =~= preset_patterns(preset, include_jars));
            (d, p)
        },
        IgnorePreset::JarsOnly => {
            let p: Vec<&'static str> = if !include_jars {
                vec!["*.jar", "*.war", "*.ear", "*.class", "*.aar"]
            } else {
                Vec::new()
            };
            let r = (vec![".gradle", ".m2"], p);
            assert(str_views(r.0@) =~= preset_dirs(preset));
            assert(str_views(r.1@) =~= preset_patterns(preset, include_jars));
            r
        },
        IgnorePreset::Default => {
            let cats = preset_catalog();
            let mut d: Vec<&'static str> = Vec::new();
            let mut p: Vec<&'static str> = Vec::new();
            let mut i: usize = 0;
            while i < cats.len()
                invariant
                    i <= cats@.len(),
                    cats@.len() == catalog_spec().len(),
                    forall|k: int| 0 <= k < cats@.len() ==> category_matches(#[trigger] cats@[k], catalog_spec()[k]),
                    str_views(d@) == catalog_dirs(catalog_spec().take(i as int)),
                    str_views(p@) == catalog_patterns(catalog_spec().take(i as int), include_jars),
                decreases cats@.len() - i,
            {
                let cat = &cats[i];
                proof {
                    assert(catalog_spec().take(i + 1).drop_last() =~= catalog_spec().take(i as int));
                    assert(category_matches(cats@[i as int], catalog_spec()[i as int]));
                }
                let ghost d0 = d@;
                push_all(&mut d, &cat.dirs);
                assert(str_views(d@) =~= str_views(d0) + str_views(cat.dirs@));
                let ghost p0 = p@;
                let mut j: usize = 0;
                while j < cat.patterns.len()
                    invariant
                        j <= cat.patterns@.len(),
                        str_views(p@) == str_views(p0) + drop_jars(str_views(cat.patterns@).take(j as int), include_jars),
                    decreases cat.patterns@.len() - j,
                {
                    let pat = cat.patterns[j];
                    let ghost pv = str_views(cat.patterns@);
                    proof {
                        assert(pv.take(j + 1).drop_last() =~= pv.take(j as int));
                        assert(pv.take(j + 1).last() == pat@);
                    }
                    let ghost before = p@;
                    if !(include_jars && is_jar_pattern_exec(pat)) {
                        p.push(pat);
                        assert(str_views(p@) =~= str_views(before).push(pat@));
                    }
                    assert(str_views(p@) =~= str_views(p0) + drop_jars(pv.take(j + 1), include_jars));
                    j = j + 1;
                }
                assert(str_views(cat.patterns@).take(cat.patterns@.len() as int) =~= str_views(cat.patterns@));
                i = i + 1;
            }
            assert(catalog_spec().take(cats@.len() as int) =~= catalog_spec());
            (d, p)
        },
    }
}


/// Each item followed by `suffix`, concatenated.
pub open spec fn lines_with_suffix(items: Seq<Seq<char>>, suffix: Seq<char>) -> Seq<char>
    decreases items.len(),
{
    if items.len() == 0 {
        Seq::empty()
    } else {
        lines_with_suffix(items.drop_last(), suffix) + items.last() + suffix
    }
}

/// The starter file's section for one catalog category.
pub open spec fn category_block(c: CategorySpec) -> Seq<char> {
    "# ─── "@ + c.name + " ───\n"@ + "# "@ + c.description + "\n"@ + lines_with_suffix(c.dirs, "/\n"@)
        + lines_with_suffix(c.patterns, "\n"@) + "\n"@
}

/// The sections of catalog categories, concatenated.
pub open spec fn category_blocks(cats: Seq<CategorySpec>) -> Seq<char>
    decreases cats.len(),
{
    if cats.len() == 0 {
        Seq::empty()
    } else {
        category_blocks(cats.drop_last()) + category_block(cats.last())
    }
}

/// The starter `.dupignore` content: a header, then one section per
/// catalog category listing its directories (with a trailing `/`) and
/// patterns.
pub open spec fn starter_content() -> Seq<char> {
    "# dupfinder ignore configuration file (.dupignore)\n"@
        + "# Lines starting with '#' are comments. Trailing '/' specifies directories.\n\n"@
        + category_blocks(catalog_spec())
}

fn push_lines(out: &mut String, items: &Vec<&'static str>, suffix: &str)
    ensures
        final(out)@ == old(out)@ + lines_with_suffix(str_views(items@), suffix@),
{
    let ghost start = out@;
    let mut i: usize = 0;
    while i < items.len()
        invariant
            i <= items@.len(),
            out@ == start + lines_with_suffix(str_views(items@).take(i as int), suffix@),
        decreases items@.len() - i,
    {
        proof {
            assert(str_views(items@).take(i + 1).drop_last() =~= str_views(items@).take(i as int));
        }
        push_str(out, items[i]);
        push_str(out, suffix);
        i = i + 1;
        assert(out@ =~= start + lines_with_suffix(str_views(items@).take(i as int), suffix@));
    }
    assert(str_views(items@).take(items@.len() as int) =~= str_views(items@));
}

/// Generate default starter content for a `.dupignore` file.
pub fn generate_starter_ignore_content() -> (r: String)
    ensures
        r@ == starter_content(),
{
    let mut content = String::new();
    push_str(&mut content, "# dupfinder ignore configuration file (.dupignore)\n");
    push_str(&mut content, "# Lines starting with '#' are comments. Trailing '/' specifies directories.\n\n");
    let ghost head = content@;
    let cats = preset_catalog();
    let mut i: usize = 0;
    while i < cats.len()
        invariant
            i <= cats@.len(),
            cats@.len() == catalog_spec().len(),
            forall|k: int| 0 <= k < cats@.len() ==> category_matches(#[trigger] cats@[k], catalog_spec()[k]),
            content@ == head + category_blocks(catalog_spec().take(i as int)),
        decreases cats@.len() - i,
    {
        let cat = &cats[i];
        proof {
            assert(catalog_spec().take(i + 1).drop_last() =~= catalog_spec().take(i as int));
            assert(category_matches(cats@[i as int], catalog_spec()[i as int]));
        }
        let ghost before = content@;
        push_str(&mut content, "# ─── ");
        push_str(&mut content, cat.name);
        push_str(&mut content, " ───\n");
        push_str(&mut content, "# ");
        push_str(&mut content, cat.description);
        push_str(&mut content, "\n");
        push_lines(&mut content, &cat.dirs, "/\n");
        push_lines(&mut content, &cat.patterns, "\n");
        push_str(&mut content, "\n");
        assert(content@ =~= before + category_block(catalog_spec()[i as int]));
        i = i + 1;
    }
    assert(catalog_spec().take(cats@.len() as int) =~= catalog_spec());
    content
}

/// `dirs::config_dir()`: the user's configuration directory, when the
/// platform has one. Nothing is claimed of the result: it depends on the
/// environment.
#[verifier::external_body]
fn platform_config_dir() -> (r: Option<String>) {
    match dirs::config_dir() {
        Some(p) => Some(p.to_string_lossy().into_owned()),
        None => None,
    }
}

/// The global ignore file under a configuration directory.
pub open spec fn global_ignore_under(config_dir: Seq<char>) -> Seq<char> {
    join_spec(join_spec(config_dir, "dupfinder"@), "dupignore"@)
}

/// The global ignore file for a configuration directory, when there is one.
pub fn global_ignore_path_from(config_dir: Option<String>) -> (r: Option<String>)
    ensures
        match config_dir {
            Some(d) => r matches Some(p) && p@ == global_ignore_under(d@),
            None => r is None,
        },
{
    match config_dir {
        Some(d) => {
            let a = join_path(d.as_str(), "dupfinder");
            Some(join_path(a.as_str(), "dupignore"))
        },
        None => None,
    }
}

/// Get the path to the global user ignore file
/// (`<config dir>/dupfinder/dupignore`).
pub fn get_global_ignore_path() -> (r: Option<String>)
    ensures
        r matches Some(p) ==> exists|d: Seq<char>| p@ == global_ignore_under(d),
{
    global_ignore_path_from(platform_config_dir())
}

/// Whether a directory name makes a starter-file line that reads back as
/// that directory: no newline, no whitespace at either end, no comment mark
/// first.
pub open spec fn dir_line_ok(d: Seq<char>) -> bool {
    &&& d.len() > 0
    &&& no_newline(d)
    &&& !is_ws(d[0])
    &&& !is_ws(d.last())
    &&& d[0] != '#'
}

/// Whether a file pattern makes a starter-file line that reads back as that
/// pattern (and as no directory): as for a directory, not ending with `/`,
/// and holding a `/`, `*`, `?` or `.`.
pub open spec fn pattern_line_ok(p: Seq<char>) -> bool {
    &&& dir_line_ok(p)
    &&& p.last() != '/'
    &&& has_char(p, '/') || has_char(p, '*') || has_char(p, '?') || has_char(p, '.')
}

/// Whether a category's section of the starter file reads back as its
/// directories and patterns.
pub open spec fn category_ok(c: CategorySpec) -> bool {
    &&& no_newline(c.name)
    &&& no_newline(c.description)
    &&& c.description.len() == 0 || c.description.last() != '\r'
    &&& forall|i: int| 0 <= i < c.dirs.len() ==> dir_line_ok(#[trigger] c.dirs[i])
    &&& forall|i: int| 0 <= i < c.patterns.len() ==> pattern_line_ok(#[trigger] c.patterns[i])
}

/// The lines of a category's section of the starter file.
pub open spec fn block_lines(c: CategorySpec) -> Seq<Seq<char>> {
    seq!["# ─── "@ + c.name + " ───"@, "# "@ + c.description] + c.dirs.map_values(|d: Seq<char>| d + "/"@)
        + c.patterns + seq![Seq::<char>::empty()]
}

/// The lines of the sections of catalog categories.
pub open spec fn catalog_lines(cats: Seq<CategorySpec>) -> Seq<Seq<char>>
    decreases cats.len(),
{
    if cats.len() == 0 {
        Seq::empty()
    } else {
        catalog_lines(cats.drop_last()) + block_lines(cats.last())
    }
}

proof fn lemma_no_newline_concat(a: Seq<char>, b: Seq<char>)
    requires
        no_newline(a),
        no_newline(b),
    ensures
        no_newline(a + b),
{
    assert forall|i: int| 0 <= i < (a + b).len() implies (a + b)[i] != '\n' by {
        if i < a.len() {
            assert((a + b)[i] == a[i]);
        } else {
            assert((a + b)[i] == b[i - a.len()]);
        }
    }
}

proof fn lemma_suffix_lines(items: Seq<Seq<char>>)
    requires
        forall|i: int| 0 <= i < items.len() ==> no_newline(#[trigger] items[i]) && (items[i].len() == 0 || items[i].last() != '\r'),
    ensures
        lines_of(lines_with_suffix(items, "\n"@)) == items,
        lines_with_suffix(items, "\n"@).len() == 0 || lines_with_suffix(items, "\n"@).last() == '\n',
    decreases items.len(),
{
    reveal_strlit("\n");
    if items.len() == 0 {
        assert(lines_of(Seq::<char>::empty()) =~= Seq::<Seq<char>>::empty());
        assert(items =~= Seq::<Seq<char>>::empty());
    } else {
        let k = items.drop_last();
        assert forall|i: int| 0 <= i < k.len() implies no_newline(#[trigger] k[i]) && (k[i].len() == 0 || k[i].last() != '\r') by {
            assert(k[i] == items[i]);
        }
        lemma_suffix_lines(k);
        let x = items.last();
        assert(no_newline(items[items.len() - 1]));
        let a = lines_with_suffix(k, "\n"@);
        assert(lines_with_suffix(items, "\n"@) =~= a + (x + seq!['\n']));
        lemma_lines_concat(a, x + seq!['\n']);
        lemma_one_line(x);
        assert(k.push(x) =~= items);
    }
}

proof fn lemma_dir_suffix(dirs: Seq<Seq<char>>)
    ensures
        lines_with_suffix(dirs, "/\n"@) == lines_with_suffix(dirs.map_values(|d: Seq<char>| d + "/"@), "\n"@),
    decreases dirs.len(),
{
    reveal_strlit("/\n");
    reveal_strlit("/");
    reveal_strlit("\n");
    if dirs.len() > 0 {
        lemma_dir_suffix(dirs.drop_last());
        let m = dirs.map_values(|d: Seq<char>| d + "/"@);
        assert(m.drop_last() =~= dirs.drop_last().map_values(|d: Seq<char>| d + "/"@));
        assert(m.last() == dirs.last() + "/"@);
        assert(lines_with_suffix(dirs, "/\n"@) =~= lines_with_suffix(m, "\n"@));
    }
}

proof fn lemma_block_lines(c: CategorySpec)
    requires
        category_ok(c),
    ensures
        lines_of(category_block(c)) == block_lines(c),
        category_block(c).last() == '\n',
{
    reveal_strlit("# ─── ");
    reveal_strlit(" ───\n");
    reveal_strlit(" ───");
    reveal_strlit("# ");
    reveal_strlit("\n");
    reveal_strlit("/");
    let h1 = "# ─── "@ + c.name + " ───"@;
    let h2 = "# "@ + c.description;
    let dl = c.dirs.map_values(|d: Seq<char>| d + "/"@);
    lemma_no_newline_concat("# ─── "@, c.name);
    lemma_no_newline_concat("# ─── "@ + c.name, " ───"@);
    lemma_no_newline_concat("# "@, c.description);
    assert forall|i: int| 0 <= i < dl.len() implies no_newline(#[trigger] dl[i]) && (dl[i].len() == 0 || dl[i].last() != '\r') by {
        assert(dir_line_ok(c.dirs[i]));
        lemma_no_newline_concat(c.dirs[i], "/"@);
        assert(dl[i] == c.dirs[i] + "/"@);
    }
    assert forall|i: int| 0 <= i < c.patterns.len() implies no_newline(#[trigger] c.patterns[i]) && (c.patterns[i].len() == 0 || c.patterns[i].last() != '\r') by {
        assert(pattern_line_ok(c.patterns[i]));
    }
    lemma_suffix_lines(dl);
    lemma_suffix_lines(c.patterns);
    lemma_dir_suffix(c.dirs);
    let x1 = h1 + seq!['\n'];
    let x2 = h2 + seq!['\n'];
    let x3 = lines_with_suffix(dl, "\n"@);
    let x4 = lines_with_suffix(c.patterns, "\n"@);
    let x5 = seq!['\n'];
    assert(category_block(c) =~= x1 + (x2 + (x3 + (x4 + x5))));
    assert(h2.len() == 0 || h2.last() != '\r') by {
        if c.description.len() > 0 {
            assert(h2.last() == c.description.last());
        }
    }
    lemma_one_line(h1);
    lemma_one_line(h2);
    lemma_one_line(Seq::<char>::empty());
    assert(Seq::<char>::empty() + seq!['\n'] =~= x5);
    lemma_lines_concat(x4, x5);
    lemma_lines_concat(x3, x4 + x5);
    lemma_lines_concat(x2, x3 + (x4 + x5));
    lemma_lines_concat(x1, x2 + (x3 + (x4 + x5)));
    assert(lines_of(category_block(c)) =~= block_lines(c));
}

proof fn lemma_blocks_lines(cats: Seq<CategorySpec>)
    requires
        forall|i: int| 0 <= i < cats.len() ==> category_ok(#[trigger] cats[i]),
    ensures
        lines_of(category_blocks(cats)) == catalog_lines(cats),
        category_blocks(cats).len() == 0 || category_blocks(cats).last() == '\n',
    decreases cats.len(),
{
    if cats.len() == 0 {
        assert(lines_of(Seq::<char>::empty()) =~= Seq::<Seq<char>>::empty());
    } else {
        let k = cats.drop_last();
        assert forall|i: int| 0 <= i < k.len() implies category_ok(#[trigger] k[i]) by {
            assert(k[i] == cats[i]);
        }
        lemma_blocks_lines(k);
        assert(category_ok(cats[cats.len() - 1]));
        lemma_block_lines(cats.last());
        lemma_lines_concat(category_blocks(k), category_block(cats.last()));
    }
}

proof fn lemma_apply_concat(st: (Seq<Seq<char>>, Seq<Seq<char>>), a: Seq<Seq<char>>, b: Seq<Seq<char>>)
    ensures
        apply_lines(st, a + b) == apply_lines(apply_lines(st, a), b),
    decreases b.len(),
{
    if b.len() == 0 {
        assert(a + b =~= a);
    } else {
        lemma_apply_concat(st, a, b.drop_last());
        assert((a + b).drop_last() =~= a + b.drop_last());
        assert((a + b).last() == b.last());
    }
}

proof fn lemma_add_entries_concat(l: Seq<Seq<char>>, a: Seq<Seq<char>>, b: Seq<Seq<char>>)
    ensures
        add_entries(l, a + b) == add_entries(add_entries(l, a), b),
    decreases b.len(),
{
    if b.len() == 0 {
        assert(a + b =~= a);
    } else {
        lemma_add_entries_concat(l, a, b.drop_last());
        assert((a + b).drop_last() =~= a + b.drop_last());
        assert((a + b).last() == b.last());
    }
}

proof fn lemma_comment_line(st: (Seq<Seq<char>>, Seq<Seq<char>>), line: Seq<char>)
    requires
        line.len() == 0 || line[0] == '#',
    ensures
        apply_line(st, line) == st,
{
    if line.len() > 0 {
        lemma_trim_keeps_first(line);
    } else {
        assert(trim(line).len() == 0);
    }
}

proof fn lemma_comment_lines(st: (Seq<Seq<char>>, Seq<Seq<char>>), ls: Seq<Seq<char>>)
    requires
        forall|i: int| 0 <= i < ls.len() ==> (#[trigger] ls[i]).len() == 0 || ls[i][0] == '#',
    ensures
        apply_lines(st, ls) == st,
    decreases ls.len(),
{
    if ls.len() > 0 {
        let k = ls.drop_last();
        assert forall|i: int| 0 <= i < k.len() implies (#[trigger] k[i]).len() == 0 || k[i][0] == '#' by {
            assert(k[i] == ls[i]);
        }
        lemma_comment_lines(st, k);
        assert(ls[ls.len() - 1].len() == 0 || ls[ls.len() - 1][0] == '#');
        lemma_comment_line(st, ls.last());
    }
}

proof fn lemma_dir_lines(st: (Seq<Seq<char>>, Seq<Seq<char>>), dirs: Seq<Seq<char>>)
    requires
        forall|i: int| 0 <= i < dirs.len() ==> dir_line_ok(#[trigger] dirs[i]),
    ensures
        apply_lines(st, dirs.map_values(|d: Seq<char>| d + "/"@)) == (add_entries(st.0, dirs), st.1),
    decreases dirs.len(),
{
    reveal_strlit("/");
    let m = dirs.map_values(|d: Seq<char>| d + "/"@);
    if dirs.len() > 0 {
        let k = dirs.drop_last();
        assert forall|i: int| 0 <= i < k.len() implies dir_line_ok(#[trigger] k[i]) by {
            assert(k[i] == dirs[i]);
        }
        lemma_dir_lines(st, k);
        assert(m.drop_last() =~= k.map_values(|d: Seq<char>| d + "/"@));
        let d = dirs.last();
        assert(dir_line_ok(dirs[dirs.len() - 1]));
        let line = d + "/"@;
        assert(m.last() == line);
        assert(line[0] == d[0]);
        assert(line.last() == '/');
        lemma_trim_untouched(line);
        assert(line.drop_last() =~= d);
    } else {
        assert(m =~= Seq::<Seq<char>>::empty());
    }
}

proof fn lemma_pattern_lines(st: (Seq<Seq<char>>, Seq<Seq<char>>), ps: Seq<Seq<char>>)
    requires
        forall|i: int| 0 <= i < ps.len() ==> pattern_line_ok(#[trigger] ps[i]),
    ensures
        apply_lines(st, ps) == (st.0, add_entries(st.1, ps)),
    decreases ps.len(),
{
    if ps.len() > 0 {
        let k = ps.drop_last();
        assert forall|i: int| 0 <= i < k.len() implies pattern_line_ok(#[trigger] k[i]) by {
            assert(k[i] == ps[i]);
        }
        lemma_pattern_lines(st, k);
        assert(pattern_line_ok(ps[ps.len() - 1]));
        lemma_trim_untouched(ps.last());
    }
}

proof fn lemma_drop_jars_off(ps: Seq<Seq<char>>)
    ensures
        drop_jars(ps, false) == ps,
    decreases ps.len(),
{
    if ps.len() > 0 {
        lemma_drop_jars_off(ps.drop_last());
        assert(ps.drop_last().push(ps.last()) =~= ps);
    } else {
        assert(ps =~= Seq::<Seq<char>>::empty());
    }
}

proof fn lemma_catalog_apply(st: (Seq<Seq<char>>, Seq<Seq<char>>), cats: Seq<CategorySpec>)
    requires
        forall|i: int| 0 <= i < cats.len() ==> category_ok(#[trigger] cats[i]),
    ensures
        apply_lines(st, catalog_lines(cats)) == (
            add_entries(st.0, catalog_dirs(cats)),
            add_entries(st.1, catalog_patterns(cats, false)),
        ),
    decreases cats.len(),
{
    if cats.len() == 0 {
        assert(catalog_dirs(cats) =~= Seq::<Seq<char>>::empty());
    } else {
        let k = cats.drop_last();
        assert forall|i: int| 0 <= i < k.len() implies category_ok(#[trigger] k[i]) by {
            assert(k[i] == cats[i]);
        }
        lemma_catalog_apply(st, k);
        let c = cats.last();
        assert(category_ok(cats[cats.len() - 1]));
        let mid = apply_lines(st, catalog_lines(k));
        lemma_apply_concat(st, catalog_lines(k), block_lines(c));
        let hs = seq!["# ─── "@ + c.name + " ───"@, "# "@ + c.description];
        let dl = c.dirs.map_values(|d: Seq<char>| d + "/"@);
        let tail = seq![Seq::<char>::empty()];
        assert(block_lines(c) == hs + dl + c.patterns + tail);
        reveal_strlit("# ─── ");
        reveal_strlit("# ");
        lemma_apply_concat(mid, hs + dl + c.patterns, tail);
        lemma_apply_concat(mid, hs + dl, c.patterns);
        lemma_apply_concat(mid, hs, dl);
        assert(("# ─── "@ + c.name + " ───"@)[0] == '#');
        assert(("# "@ + c.description)[0] == '#');
        lemma_comment_lines(mid, hs);
        lemma_dir_lines(mid, c.dirs);
        let after_dirs = (add_entries(mid.0, c.dirs), mid.1);
        lemma_pattern_lines(after_dirs, c.patterns);
        let fin = (add_entries(mid.0, c.dirs), add_entries(mid.1, c.patterns));
        lemma_comment_lines(fin, tail);
        assert(apply_lines(mid, hs + dl) == after_dirs);
        assert(apply_lines(mid, hs + dl + c.patterns) == fin);
        assert(apply_lines(mid, block_lines(c)) == fin);
        assert(catalog_lines(cats) == catalog_lines(k) + block_lines(c));
        assert(apply_lines(st, catalog_lines(cats)) == fin);
        lemma_add_entries_concat(st.0, catalog_dirs(k), c.dirs);
        lemma_add_entries_concat(st.1, catalog_patterns(k, false), drop_jars(c.patterns, false));
        lemma_drop_jars_off(c.patterns);
        assert(catalog_dirs(cats) == catalog_dirs(k) + c.dirs);
        assert(catalog_patterns(cats, false) == catalog_patterns(k, false) + drop_jars(c.patterns, false));
    }
}

proof fn lemma_category_0_ok()
    ensures
        category_ok(catalog_spec()[0]),
{
    reveal_strlit("JVM (Java, Kotlin, Scala, Gradle, Maven)");
    reveal_strlit("Build outputs, caches, dependency repos, and compiled archives");
    reveal_strlit("target");
    reveal_strlit("build");
    reveal_strlit(".gradle");
    reveal_strlit(".m2");
    reveal_strlit("out");
    reveal_strlit("bin");
    reveal_strlit(".bsp");
    reveal_strlit(".metals");
    reveal_strlit(".sbt");
    reveal_strlit("*.jar");
    reveal_strlit("*.war");
    reveal_strlit("*.ear");
    reveal_strlit("*.class");
    reveal_strlit("*.aar");
    let c = catalog_spec()[0];
    assert(dir_line_ok(c.dirs[0]));
    assert(dir_line_ok(c.dirs[1]));
    assert(dir_line_ok(c.dirs[2]));
    assert(dir_line_ok(c.dirs[3]));
    assert(dir_line_ok(c.dirs[4]));
    assert(dir_line_ok(c.dirs[5]));
    assert(dir_line_ok(c.dirs[6]));
    assert(dir_line_ok(c.dirs[7]));
    assert(dir_line_ok(c.dirs[8]));
    assert(c.patterns[0][0] == '*');
    assert(pattern_line_ok(c.patterns[0]));
    assert(c.patterns[1][0] == '*');
    assert(pattern_line_ok(c.patterns[1]));
    assert(c.patterns[2][0] == '*');
    assert(pattern_line_ok(c.patterns[2]));
    assert(c.patterns[3][0] == '*');
    assert(pattern_line_ok(c.patterns[3]));
    assert(c.patterns[4][0] == '*');
    assert(pattern_line_ok(c.patterns[4]));
}

proof fn lemma_category_1_ok()
    ensures
        category_ok(catalog_spec()[1]),
{
    reveal_strlit("JavaScript / TypeScript / Node / Web");
    reveal_strlit("Node modules, framework build outputs, and package caches");
    reveal_strlit("node_modules");
    reveal_strlit(".next");
    reveal_strlit(".nuxt");
    reveal_strlit(".turbo");
    reveal_strlit(".parcel-cache");
    reveal_strlit("dist");
    reveal_strlit("build");
    reveal_strlit("out");
    reveal_strlit(".svelte-kit");
    reveal_strlit(".cache");
    reveal_strlit(".yarn/cache");
    reveal_strlit("bower_components");
    reveal_strlit("*.tsbuildinfo");
    let c = catalog_spec()[1];
    assert(dir_line_ok(c.dirs[0]));
    assert(dir_line_ok(c.dirs[1]));
    assert(dir_line_ok(c.dirs[2]));
    assert(dir_line_ok(c.dirs[3]));
    assert(dir_line_ok(c.dirs[4]));
    assert(dir_line_ok(c.dirs[5]));
    assert(dir_line_ok(c.dirs[6]));
    assert(dir_line_ok(c.dirs[7]));
    assert(dir_line_ok(c.dirs[8]));
    assert(dir_line_ok(c.dirs[9]));
    assert(dir_line_ok(c.dirs[10]));
    assert(dir_line_ok(c.dirs[11]));
    assert(c.patterns[0][0] == '*');
    assert(pattern_line_ok(c.patterns[0]));
}

proof fn lemma_category_2_ok()
    ensures
        category_ok(catalog_spec()[2]),
{
    reveal_strlit("Python");
    reveal_strlit("Bytecode cache, virtual environments, eggs, and build artifacts");
    reveal_strlit("__pycache__");
    reveal_strlit(".venv");
    reveal_strlit("venv");
    reveal_strlit("env");
    reveal_strlit(".pytest_cache");
    reveal_strlit(".mypy_cache");
    reveal_strlit(".ruff_cache");
    reveal_strlit(".tox");
    reveal_strlit(".nox");
    reveal_strlit(".eggs");
    reveal_strlit("build");
    reveal_strlit("dist");
    reveal_strlit("*.pyc");
    reveal_strlit("*.pyo");
    reveal_strlit("*.pyd");
    reveal_strlit("*.egg-info");
    let c = catalog_spec()[2];
    assert(dir_line_ok(c.dirs[0]));
    assert(dir_line_ok(c.dirs[1]));
    assert(dir_line_ok(c.dirs[2]));
    assert(dir_line_ok(c.dirs[3]));
    assert(dir_line_ok(c.dirs[4]));
    assert(dir_line_ok(c.dirs[5]));
    assert(dir_line_ok(c.dirs[6]));
    assert(dir_line_ok(c.dirs[7]));
    assert(dir_line_ok(c.dirs[8]));
    assert(dir_line_ok(c.dirs[9]));
    assert(dir_line_ok(c.dirs[10]));
    assert(dir_line_ok(c.dirs[11]));
    assert(c.patterns[0][0] == '*');
    assert(pattern_line_ok(c.patterns[0]));
    assert(c.patterns[1][0] == '*');
    assert(pattern_line_ok(c.patterns[1]));
    assert(c.patterns[2][0] == '*');
    assert(pattern_line_ok(c.patterns[2]));
    assert(c.patterns[3][0] == '*');
    assert(pattern_line_ok(c.patterns[3]));
}

proof fn lemma_category_3_ok()
    ensures
        category_ok(catalog_spec()[3]),
{
    reveal_strlit("Rust");
    reveal_strlit("Cargo build target directory and compiled artifacts");
    reveal_strlit("target");
    reveal_strlit("*.rlib");
    reveal_strlit("*.rmeta");
    let c = catalog_spec()[3];
    assert(dir_line_ok(c.dirs[0]));
    assert(c.patterns[0][0] == '*');
    assert(pattern_line_ok(c.patterns[0]));
    assert(c.patterns[1][0] == '*');
    assert(pattern_line_ok(c.patterns[1]));
}

proof fn lemma_category_4_ok()
    ensures
        category_ok(catalog_spec()[4]),
{
    reveal_strlit("C / C++ / CMake");
    reveal_strlit("Build folders, object files, and compiled libraries");
    reveal_strlit("build");
    reveal_strlit("cmake-build-debug");
    reveal_strlit("cmake-build-release");
    reveal_strlit("CMakeFiles");
    reveal_strlit("obj");
    reveal_strlit("bin");
    reveal_strlit("*.o");
    reveal_strlit("*.obj");
    reveal_strlit("*.a");
    reveal_strlit("*.lib");
    reveal_strlit("*.so");
    reveal_strlit("*.dylib");
    reveal_strlit("*.dll");
    reveal_strlit("*.exe");
    reveal_strlit("*.pdb");
    let c = catalog_spec()[4];
    assert(dir_line_ok(c.dirs[0]));
    assert(dir_line_ok(c.dirs[1]));
    assert(dir_line_ok(c.dirs[2]));
    assert(dir_line_ok(c.dirs[3]));
    assert(dir_line_ok(c.dirs[4]));
    assert(dir_line_ok(c.dirs[5]));
    assert(c.patterns[0][0] == '*');
    assert(pattern_line_ok(c.patterns[0]));
    assert(c.patterns[1][0] == '*');
    assert(pattern_line_ok(c.patterns[1]));
    assert(c.patterns[2][0] == '*');
    assert(pattern_line_ok(c.patterns[2]));
    assert(c.patterns[3][0] == '*');
    assert(pattern_line_ok(c.patterns[3]));
    assert(c.patterns[4][0] == '*');
    assert(pattern_line_ok(c.patterns[4]));
    assert(c.patterns[5][0] == '*');
    assert(pattern_line_ok(c.patterns[5]));
    assert(c.patterns[6][0] == '*');
    assert(pattern_line_ok(c.patterns[6]));
    assert(c.patterns[7][0] == '*');
    assert(pattern_line_ok(c.patterns[7]));
    assert(c.patterns[8][0] == '*');
    assert(pattern_line_ok(c.patterns[8]));
}

proof fn lemma_category_5_ok()
    ensures
        category_ok(catalog_spec()[5]),
{
    reveal_strlit("Go");
    reveal_strlit("Vendored packages and compiled binaries");
    reveal_strlit("vendor");
    reveal_strlit("bin");
    reveal_strlit("pkg");
    let c = catalog_spec()[5];
    assert(dir_line_ok(c.dirs[0]));
    assert(dir_line_ok(c.dirs[1]));
    assert(dir_line_ok(c.dirs[2]));
}

proof fn lemma_category_6_ok()
    ensures
        category_ok(catalog_spec()[6]),
{
    reveal_strlit(".NET / C# / F#");
    reveal_strlit("Bin/obj folders, NuGet packages, and debug symbols");
    reveal_strlit("bin");
    reveal_strlit("obj");
    reveal_strlit("packages");
    reveal_strlit(".vs");
    reveal_strlit("*.nupkg");
    reveal_strlit("*.pdb");
    let c = catalog_spec()[6];
    assert(dir_line_ok(c.dirs[0]));
    assert(dir_line_ok(c.dirs[1]));
    assert(dir_line_ok(c.dirs[2]));
    assert(dir_line_ok(c.dirs[3]));
    assert(c.patterns[0][0] == '*');
    assert(pattern_line_ok(c.patterns[0]));
    assert(c.patterns[1][0] == '*');
    assert(pattern_line_ok(c.patterns[1]));
}

proof fn lemma_category_7_ok()
    ensures
        category_ok(catalog_spec()[7]),
{
    reveal_strlit("PHP & Ruby");
    reveal_strlit("Composer and Bundler vendor directories");
    reveal_strlit("vendor");
    reveal_strlit("vendor/bundle");
    reveal_strlit(".bundle");
    let c = catalog_spec()[7];
    assert(dir_line_ok(c.dirs[0]));
    assert(dir_line_ok(c.dirs[1]));
    assert(dir_line_ok(c.dirs[2]));
}

proof fn lemma_category_8_ok()
    ensures
        category_ok(catalog_spec()[8]),
{
    reveal_strlit("Mobile & Apple (Dart, Flutter, Swift)");
    reveal_strlit("Flutter tool caches, CocoaPods, and Xcode DerivedData");
    reveal_strlit(".dart_tool");
    reveal_strlit("build");
    reveal_strlit(".pub-cache");
    reveal_strlit(".build");
    reveal_strlit("DerivedData");
    reveal_strlit("Pods");
    let c = catalog_spec()[8];
    assert(dir_line_ok(c.dirs[0]));
    assert(dir_line_ok(c.dirs[1]));
    assert(dir_line_ok(c.dirs[2]));
    assert(dir_line_ok(c.dirs[3]));
    assert(dir_line_ok(c.dirs[4]));
    assert(dir_line_ok(c.dirs[5]));
}

proof fn lemma_category_9_ok()
    ensures
        category_ok(catalog_spec()[9]),
{
    reveal_strlit("VCS & OS Metadata");
    reveal_strlit("Version control directories, OS thumbnails, and editor metadata");
    reveal_strlit(".git");
    reveal_strlit(".svn");
    reveal_strlit(".hg");
    reveal_strlit(".DS_Store");
    reveal_strlit("Thumbs.db");
    reveal_strlit(".idea");
    reveal_strlit(".vscode");
    reveal_strlit("desktop.ini");
    reveal_strlit("*.tmp");
    reveal_strlit("*.swp");
    reveal_strlit("*~");
    let c = catalog_spec()[9];
    assert(dir_line_ok(c.dirs[0]));
    assert(dir_line_ok(c.dirs[1]));
    assert(dir_line_ok(c.dirs[2]));
    assert(dir_line_ok(c.dirs[3]));
    assert(dir_line_ok(c.dirs[4]));
    assert(dir_line_ok(c.dirs[5]));
    assert(dir_line_ok(c.dirs[6]));
    assert(c.patterns[0][0] == '.');
    assert(pattern_line_ok(c.patterns[0]));
    assert(c.patterns[1][6] == '.');
    assert(pattern_line_ok(c.patterns[1]));
    assert(c.patterns[2][7] == '.');
    assert(pattern_line_ok(c.patterns[2]));
    assert(c.patterns[3][0] == '*');
    assert(pattern_line_ok(c.patterns[3]));
    assert(c.patterns[4][0] == '*');
    assert(pattern_line_ok(c.patterns[4]));
    assert(c.patterns[5][0] == '*');
    assert(pattern_line_ok(c.patterns[5]));
}

/// Every category of the catalog makes a section that reads back as its
/// directories and patterns.
proof fn lemma_catalog_ok()
    ensures
        forall|i: int| 0 <= i < catalog_spec().len() ==> category_ok(#[trigger] catalog_spec()[i]),
{
    lemma_category_0_ok();
    lemma_category_1_ok();
    lemma_category_2_ok();
    lemma_category_3_ok();
    lemma_category_4_ok();
    lemma_category_5_ok();
    lemma_category_6_ok();
    lemma_category_7_ok();
    lemma_category_8_ok();
    lemma_category_9_ok();
    assert(catalog_spec().len() == 10);
}

/// Reading the starter `.dupignore` content into empty rules gives the
/// default preset's rules: the catalog's directories and patterns, in order,
/// each once.
pub proof fn law_starter_content_reads_as_default_preset()
    ensures
        apply_lines((Seq::<Seq<char>>::empty(), Seq::<Seq<char>>::empty()), lines_of(starter_content())) == (
            add_entries(Seq::empty(), preset_dirs(IgnorePreset::Default)),
            add_entries(Seq::empty(), preset_patterns(IgnorePreset::Default, false)),
        ),
{
    let l1 = "# dupfinder ignore configuration file (.dupignore)\n"@;
    let l2 = "# Lines starting with '#' are comments. Trailing '/' specifies directories.\n\n"@;
    reveal_strlit("# dupfinder ignore configuration file (.dupignore)\n");
    reveal_strlit("# Lines starting with '#' are comments. Trailing '/' specifies directories.\n\n");
    let st0 = (Seq::<Seq<char>>::empty(), Seq::<Seq<char>>::empty());
    let blocks = category_blocks(catalog_spec());
    lemma_catalog_ok();
    lemma_blocks_lines(catalog_spec());
    let a1 = l1.drop_last();
    let a2 = l2.drop_last().drop_last();
    assert(no_newline(a1));
    assert(no_newline(a2));
    assert(l1 =~= a1 + seq!['\n']);
    assert(l2 =~= (a2 + seq!['\n']) + (Seq::<char>::empty() + seq!['\n']));
    lemma_one_line(a1);
    lemma_one_line(a2);
    lemma_one_line(Seq::<char>::empty());
    assert(starter_content() =~= l1 + ((a2 + seq!['\n']) + ((Seq::<char>::empty() + seq!['\n']) + blocks)));
    lemma_lines_concat(Seq::<char>::empty() + seq!['\n'], blocks);
    lemma_lines_concat(a2 + seq!['\n'], (Seq::<char>::empty() + seq!['\n']) + blocks);
    lemma_lines_concat(l1, (a2 + seq!['\n']) + ((Seq::<char>::empty() + seq!['\n']) + blocks));
    let hs = seq![a1, a2, Seq::<char>::empty()];
    assert(lines_of(starter_content()) =~= hs + catalog_lines(catalog_spec()));
    lemma_apply_concat(st0, hs, catalog_lines(catalog_spec()));
    assert(a1[0] == '#');
    assert(a2[0] == '#');
    lemma_comment_lines(st0, hs);
    lemma_catalog_apply(st0, catalog_spec());
}

/// A path is excluded whenever one of the compiled globs matches the whole
/// path (a pattern naming a folder, such as `*/fixtures/*`), and whenever one
/// matches its file name; with no compiled globs nothing is excluded.
pub proof fn law_glob_matches_exclude(globs: Seq<Seq<char>>, path: Seq<char>)
    ensures
        any_glob_matches(globs, path) ==> excluded_by(Some(globs), path),
        (file_name_of(path) matches Some(n) && any_glob_matches(globs, n)) ==> excluded_by(Some(globs), path),
        !excluded_by(None, path),
        excluded_by(Some(globs), path) ==> any_glob_matches(globs, path) || (file_name_of(path) matches Some(n)
            && any_glob_matches(globs, n)),
{
}

/// For rules whose globs are compiled, a glob matching the whole path
/// excludes it.
pub proof fn law_rules_exclude_whole_path_matches(rules: IgnoreRules, path: Seq<char>)
    requires
        rules.globs_view() matches Some(g) && any_glob_matches(g, path),
    ensures
        excluded_by(rules.globs_view(), path),
{
    law_glob_matches_exclude(rules.globs_view()->0, path);
}

} // verus!
