//! The texts the commands show: cleanup plan and execution summaries, the
//! confirmation prompt and how its answer is read, the built-in ignore
//! categories, the cache information and the global ignore file's place.
//! Printing them is left to the caller.

use vstd::prelude::*;
use crate::cache::CacheInfo;
use crate::clean::{CleanExecutionResult, CleanPlan, DeletionMethod};
use crate::cli::{bytes_text2, format_bytes};
use crate::ignore::{catalog_spec, preset_catalog, str_views, CategorySpec, PresetCategory};
use crate::report::ReportFormat;
use crate::text::{ascii_lower, ascii_lower_char, decimal, push_str, string_from_str, to_chars, trim, trim_chars, u64_to_string};

verus! {

/// The rule line of the cleanup summaries.
pub open spec fn rule_line() -> Seq<char> {
    "========================================================\n"@
}

/// How a cleanup removes files, as its summary names it.
pub open spec fn mode_text(method: DeletionMethod, dry_run: bool) -> Seq<char> {
    if dry_run {
        "DRY RUN (Simulated - No Files Modified)"@
    } else {
        match method {
            DeletionMethod::Trash => "OS Trash / Recycle Bin"@,
            DeletionMethod::Permanent => "Permanent Unlink"@,
        }
    }
}

/// The summary shown before a cleanup plan is carried out.
pub open spec fn plan_summary(plan: CleanPlan, method: DeletionMethod, dry_run: bool) -> Seq<char> {
    "\n"@ + rule_line() + "           DUPFINDER REMEDIATION PLAN                   \n"@ + rule_line()
        + " Mode:                  "@ + mode_text(method, dry_run) + "\n"@
        + " Duplicate Files:       "@ + decimal(plan.total_files_to_remove as nat) + "\n"@
        + " Empty Directories:     "@ + decimal(plan.total_dirs_to_remove as nat) + "\n"@
        + " Reclaimable Space:     "@ + bytes_text2(plan.total_bytes_reclaimable as nat) + "\n"@
        + (if plan.blocked_count > 0 {
        " ⚠️ Blocked (Protected): "@ + decimal(plan.blocked_count as nat) + "\n"@
    } else {
        Seq::empty()
    }) + (if plan.skipped_count > 0 {
        " ℹ️ Skipped (Hidden/Sent): "@ + decimal(plan.skipped_count as nat) + "\n"@
    } else {
        Seq::empty()
    }) + "--------------------------------------------------------\n"@
}

/// A labelled count line.
fn push_count(s: &mut String, label: &str, n: u64)
    ensures
        final(s)@ == old(s)@ + label@ + decimal(n as nat) + "\n"@,
{
    push_str(s, label);
    push_str(s, u64_to_string(n).as_str());
    push_str(s, "\n");
}

/// The summary shown before a cleanup plan is carried out.
pub fn plan_summary_text(plan: &CleanPlan, method: DeletionMethod, dry_run: bool) -> (r: String)
    ensures
        r@ == plan_summary(*plan, method, dry_run),
{
    let mut s = String::new();
    push_str(&mut s, "\n");
    push_str(&mut s, "========================================================\n");
    push_str(&mut s, "           DUPFINDER REMEDIATION PLAN                   \n");
    push_str(&mut s, "========================================================\n");
    push_str(&mut s, " Mode:                  ");
    if dry_run {
        push_str(&mut s, "DRY RUN (Simulated - No Files Modified)");
    } else {
        match method {
            DeletionMethod::Trash => push_str(&mut s, "OS Trash / Recycle Bin"),
            DeletionMethod::Permanent => push_str(&mut s, "Permanent Unlink"),
        }
    }
    push_str(&mut s, "\n");
    push_count(&mut s, " Duplicate Files:       ", plan.total_files_to_remove as u64);
    push_count(&mut s, " Empty Directories:     ", plan.total_dirs_to_remove as u64);
    push_str(&mut s, " Reclaimable Space:     ");
    push_str(&mut s, format_bytes(plan.total_bytes_reclaimable).as_str());
    push_str(&mut s, "\n");
    let ghost mid = s@;
    if plan.blocked_count > 0 {
        push_count(&mut s, " ⚠️ Blocked (Protected): ", plan.blocked_count as u64);
    }
    let ghost mid2 = s@;
    if plan.skipped_count > 0 {
        push_count(&mut s, " ℹ️ Skipped (Hidden/Sent): ", plan.skipped_count as u64);
    }
    let ghost mid3 = s@;
    push_str(&mut s, "--------------------------------------------------------\n");
    proof {
        let b = if plan.blocked_count > 0 {
            " ⚠️ Blocked (Protected): "@ + decimal(plan.blocked_count as nat) + "\n"@
        } else {
            Seq::empty()
        };
        let k = if plan.skipped_count > 0 {
            " ℹ️ Skipped (Hidden/Sent): "@ + decimal(plan.skipped_count as nat) + "\n"@
        } else {
            Seq::empty()
        };
        assert(mid2 =~= mid + b);
        assert(mid3 =~= mid + b + k);
    }
    assert(s@ =~= plan_summary(*plan, method, dry_run));
    s
}

/// One line per failed action: its path and the error.
pub open spec fn failure_lines(failed: Seq<(String, String)>) -> Seq<char>
    decreases failed.len(),
{
    if failed.len() == 0 {
        Seq::empty()
    } else {
        failure_lines(failed.drop_last()) + "   - "@ + failed.last().0@ + ": "@ + failed.last().1@ + "\n"@
    }
}

/// The summary shown after a cleanup was carried out (or simulated).
pub open spec fn execution_summary(res: CleanExecutionResult, dry_run: bool) -> Seq<char> {
    "\n"@ + rule_line() + (if dry_run {
        "           DRY-RUN SIMULATION COMPLETE                  \n"@
    } else {
        "           REMEDIATION EXECUTION COMPLETE               \n"@
    }) + rule_line() + " Files Processed:       "@ + decimal(res.succeeded_files as nat) + "\n"@
        + " Directories Removed:   "@ + decimal(res.succeeded_dirs as nat) + "\n"@ + " Space Reclaimed:       "@
        + bytes_text2(res.bytes_reclaimed as nat) + "\n"@ + (if res.failed@.len() > 0 {
        " ❌ Errors Encountered: "@ + decimal(res.failed@.len()) + "\n"@ + failure_lines(res.failed@)
    } else {
        Seq::empty()
    }) + rule_line() + "\n"@
}

/// The summary shown after a cleanup was carried out (or simulated).
pub fn execution_summary_text(res: &CleanExecutionResult, dry_run: bool) -> (r: String)
    ensures
        r@ == execution_summary(*res, dry_run),
{
    let mut s = String::new();
    push_str(&mut s, "\n");
    push_str(&mut s, "========================================================\n");
    if dry_run {
        push_str(&mut s, "           DRY-RUN SIMULATION COMPLETE                  \n");
    } else {
        push_str(&mut s, "           REMEDIATION EXECUTION COMPLETE               \n");
    }
    push_str(&mut s, "========================================================\n");
    push_count(&mut s, " Files Processed:       ", res.succeeded_files as u64);
    push_count(&mut s, " Directories Removed:   ", res.succeeded_dirs as u64);
    push_str(&mut s, " Space Reclaimed:       ");
    push_str(&mut s, format_bytes(res.bytes_reclaimed).as_str());
    push_str(&mut s, "\n");
    let ghost mid = s@;
    if res.failed.len() > 0 {
        push_count(&mut s, " ❌ Errors Encountered: ", res.failed.len() as u64);
        let ghost head = s@;
        let mut i: usize = 0;
        while i < res.failed.len()
            invariant
                i <= res.failed@.len(),
                s@ == head + failure_lines(res.failed@.take(i as int)),
            decreases res.failed@.len() - i,
        {
            proof {
                assert(res.failed@.take(i + 1).drop_last() =~= res.failed@.take(i as int));
            }
            let ghost before = s@;
            push_str(&mut s, "   - ");
            push_str(&mut s, res.failed[i].0.as_str());
            push_str(&mut s, ": ");
            push_str(&mut s, res.failed[i].1.as_str());
            push_str(&mut s, "\n");
            i = i + 1;
            assert(s@ =~= head + failure_lines(res.failed@.take(i as int)));
        }
        assert(res.failed@.take(i as int) =~= res.failed@);
    }
    let ghost mid2 = s@;
    push_str(&mut s, "========================================================\n");
    push_str(&mut s, "\n");
    proof {
        let f = if res.failed@.len() > 0 {
            " ❌ Errors Encountered: "@ + decimal(res.failed@.len()) + "\n"@ + failure_lines(res.failed@)
        } else {
            Seq::empty()
        };
        assert(mid2 =~= mid + f);
    }
    assert(s@ =~= execution_summary(*res, dry_run));
    s
}

/// The question asked before files are removed.
pub open spec fn confirm_prompt_spec(method: DeletionMethod) -> Seq<char> {
    match method {
        DeletionMethod::Trash => "Proceed to move duplicate files to Trash? [y/N]: "@,
        DeletionMethod::Permanent => "\x1b[1;31mWARNING: This will permanently delete files. Proceed? [y/N]: \x1b[0m"@,
    }
}

/// The question asked before files are removed.
pub fn confirm_prompt(method: DeletionMethod) -> (r: &'static str)
    ensures
        r@ == confirm_prompt_spec(method),
{
    match method {
        DeletionMethod::Trash => "Proceed to move duplicate files to Trash? [y/N]: ",
        DeletionMethod::Permanent => "\x1b[1;31mWARNING: This will permanently delete files. Proceed? [y/N]: \x1b[0m",
    }
}

/// Whether an answer confirms: `y` or `yes` in any ASCII case, blanks around
/// it ignored.
pub open spec fn confirms(input: Seq<char>) -> bool {
    ascii_lower(trim(input)) == "y"@ || ascii_lower(trim(input)) == "yes"@
}

/// `ascii_lower_char` on one character.
fn ascii_lower_exec(c: char) -> (r: char)
    ensures
        r == ascii_lower_char(c),
{
    if 'A' <= c && c <= 'Z' {
        let u: u32 = c as u32;
        crate::text::char_from_ascii(u + 32)
    } else {
        c
    }
}

/// Whether an answer to the confirmation question confirms.
pub fn confirmed(input: &str) -> (r: bool)
    ensures
        r == confirms(input@),
{
    let t = trim_chars(&to_chars(input));
    let ghost lt = ascii_lower(t@);
    proof {
        reveal_strlit("y");
        reveal_strlit("yes");
        assert(t@ == trim(input@));
        assert(lt.len() == t@.len());
    }
    if t.len() == 1 {
        let r = ascii_lower_exec(t[0]) == 'y';
        assert(lt[0] == ascii_lower_char(t@[0]));
        assert(r ==> lt =~= "y"@);
        assert(lt != "yes"@);
        r
    } else if t.len() == 3 {
        let r = ascii_lower_exec(t[0]) == 'y' && ascii_lower_exec(t[1]) == 'e' && ascii_lower_exec(t[2]) == 's';
        assert(lt[0] == ascii_lower_char(t@[0]) && lt[1] == ascii_lower_char(t@[1]) && lt[2] == ascii_lower_char(
            t@[2],
        ));
        assert(r ==> lt =~= "yes"@);
        assert(lt != "y"@);
        r
    } else {
        assert(lt != "y"@ && lt != "yes"@);
        false
    }
}

/// Items joined with `, `.
pub open spec fn comma_joined(items: Seq<Seq<char>>) -> Seq<char>
    decreases items.len(),
{
    if items.len() == 0 {
        Seq::empty()
    } else if items.len() == 1 {
        items[0]
    } else {
        comma_joined(items.drop_last()) + ", "@ + items.last()
    }
}

/// A category of the built-in ignore rules, as `dupfinder ignore
/// show-defaults` lists it.
pub open spec fn category_listing(c: CategorySpec) -> Seq<char> {
    "  \x1b[1m"@ + c.name + "\x1b[0m\n"@ + "    Description : "@ + c.description + "\n"@ + (if c.dirs.len() > 0 {
        "    Directories : "@ + comma_joined(c.dirs) + "\n"@
    } else {
        Seq::empty()
    }) + (if c.patterns.len() > 0 {
        "    Patterns    : "@ + comma_joined(c.patterns) + "\n"@
    } else {
        Seq::empty()
    }) + "\n"@
}

/// The listings of categories, concatenated.
pub open spec fn category_listings(cats: Seq<CategorySpec>) -> Seq<char>
    decreases cats.len(),
{
    if cats.len() == 0 {
        Seq::empty()
    } else {
        category_listings(cats.drop_last()) + category_listing(cats.last())
    }
}

/// The listing of the built-in ignore categories and presets.
pub open spec fn defaults_listing() -> Seq<char> {
    "Built-in Ignore Categories & Ecosystem Presets:\n\n"@ + category_listings(catalog_spec())
        + "Presets available via --exclude-preset: default, build, deps, jars, minimal, none\n"@
        + "Use --include-jars to keep default presets but enable scanning *.jar, *.war, *.ear\n"@
        + "Use --no-default-ignores to disable all built-in rules.\n"@
}

/// Appends the items joined with `, `.
fn push_joined(s: &mut String, items: &Vec<&'static str>)
    ensures
        final(s)@ == old(s)@ + comma_joined(str_views(items@)),
{
    let ghost start = s@;
    let mut i: usize = 0;
    while i < items.len()
        invariant
            i <= items@.len(),
            s@ == start + comma_joined(str_views(items@).take(i as int)),
        decreases items@.len() - i,
    {
        proof {
            assert(str_views(items@).take(i + 1).drop_last() =~= str_views(items@).take(i as int));
        }
        if i > 0 {
            push_str(s, ", ");
        }
        push_str(s, items[i]);
        i = i + 1;
        proof {
            if i == 1 {
                assert(str_views(items@).take(1) =~= seq![items@[0]@]);
            }
        }
        assert(s@ =~= start + comma_joined(str_views(items@).take(i as int)));
    }
    assert(str_views(items@).take(i as int) =~= str_views(items@));
}

/// The listing of one category.
fn push_category(s: &mut String, c: &PresetCategory, Ghost(spec): Ghost<CategorySpec>)
    requires
        crate::ignore::category_matches(*c, spec),
    ensures
        final(s)@ == old(s)@ + category_listing(spec),
{
    let ghost start = s@;
    push_str(s, "  \x1b[1m");
    push_str(s, c.name);
    push_str(s, "\x1b[0m\n");
    push_str(s, "    Description : ");
    push_str(s, c.description);
    push_str(s, "\n");
    let ghost a = s@;
    if c.dirs.len() > 0 {
        push_str(s, "    Directories : ");
        push_joined(s, &c.dirs);
        push_str(s, "\n");
    }
    let ghost b = s@;
    if c.patterns.len() > 0 {
        push_str(s, "    Patterns    : ");
        push_joined(s, &c.patterns);
        push_str(s, "\n");
    }
    let ghost d = s@;
    push_str(s, "\n");
    proof {
        assert(str_views(c.dirs@).len() == c.dirs@.len());
        assert(str_views(c.patterns@).len() == c.patterns@.len());
        let x = if spec.dirs.len() > 0 {
            "    Directories : "@ + comma_joined(spec.dirs) + "\n"@
        } else {
            Seq::empty()
        };
        let y = if spec.patterns.len() > 0 {
            "    Patterns    : "@ + comma_joined(spec.patterns) + "\n"@
        } else {
            Seq::empty()
        };
        assert(b =~= a + x);
        assert(d =~= a + x + y);
    }
    assert(s@ =~= start + category_listing(spec));
}

/// The listing of the built-in ignore categories and presets.
pub fn defaults_text() -> (r: String)
    ensures
        r@ == defaults_listing(),
{
    let mut s = String::new();
    push_str(&mut s, "Built-in Ignore Categories & Ecosystem Presets:\n\n");
    let ghost head = s@;
    let cats = preset_catalog();
    let mut i: usize = 0;
    while i < cats.len()
        invariant
            i <= cats@.len(),
            cats@.len() == catalog_spec().len(),
            forall|k: int| 0 <= k < cats@.len() ==> crate::ignore::category_matches(#[trigger] cats@[k], catalog_spec()[k]),
            s@ == head + category_listings(catalog_spec().take(i as int)),
        decreases cats@.len() - i,
    {
        proof {
            assert(catalog_spec().take(i + 1).drop_last() =~= catalog_spec().take(i as int));
        }
        let ghost before = s@;
        push_category(&mut s, &cats[i], Ghost(catalog_spec()[i as int]));
        i = i + 1;
        assert(s@ =~= head + category_listings(catalog_spec().take(i as int)));
    }
    assert(catalog_spec().take(i as int) =~= catalog_spec());
    push_str(&mut s, "Presets available via --exclude-preset: default, build, deps, jars, minimal, none\n");
    push_str(&mut s, "Use --include-jars to keep default presets but enable scanning *.jar, *.war, *.ear\n");
    push_str(&mut s, "Use --no-default-ignores to disable all built-in rules.\n");
    assert(s@ =~= defaults_listing());
    s
}

/// The information `dupfinder cache info` shows.
pub open spec fn cache_info_listing(info: CacheInfo) -> Seq<char> {
    "dupfinder cache info\n"@ + "────────────────────────────────────\n"@ + "  Cache path:    "@ + info.path@ + "\n"@
        + "  Exists:        "@ + (if info.exists {
        "yes"@
    } else {
        "no"@
    }) + "\n"@ + "  Entries:       "@ + decimal(info.entry_count as nat) + "\n"@ + "  File size:     "@
        + crate::cli::cache_size_text(info.file_size_bytes as nat) + "\n"@
        + "────────────────────────────────────\n"@
}

/// The information `dupfinder cache info` shows.
pub fn cache_info_text(info: &CacheInfo) -> (r: String)
    ensures
        r@ == cache_info_listing(*info),
{
    let mut s = String::new();
    push_str(&mut s, "dupfinder cache info\n");
    push_str(&mut s, "────────────────────────────────────\n");
    push_str(&mut s, "  Cache path:    ");
    push_str(&mut s, info.path.as_str());
    push_str(&mut s, "\n");
    push_str(&mut s, "  Exists:        ");
    if info.exists {
        push_str(&mut s, "yes");
    } else {
        push_str(&mut s, "no");
    }
    push_str(&mut s, "\n");
    push_count(&mut s, "  Entries:       ", info.entry_count as u64);
    push_str(&mut s, "  File size:     ");
    push_str(&mut s, crate::cli::format_cache_size(info.file_size_bytes).as_str());
    push_str(&mut s, "\n");
    push_str(&mut s, "────────────────────────────────────\n");
    assert(s@ =~= cache_info_listing(*info));
    s
}

/// What `dupfinder ignore path` shows for the global ignore file.
pub open spec fn global_path_listing(path: Seq<char>, exists: bool) -> Seq<char> {
    "Global ignore file location: "@ + path + "\n"@ + (if exists {
        "Status: File exists\n"@
    } else {
        "Status: File does not exist (run 'dupfinder ignore init --global' to create)\n"@
    })
}

/// What `dupfinder ignore path` shows for the global ignore file.
pub fn global_path_text(path: &str, exists: bool) -> (r: String)
    ensures
        r@ == global_path_listing(path@, exists),
{
    let mut s = string_from_str("Global ignore file location: ");
    push_str(&mut s, path);
    push_str(&mut s, "\n");
    if exists {
        push_str(&mut s, "Status: File exists\n");
    } else {
        push_str(&mut s, "Status: File does not exist (run 'dupfinder ignore init --global' to create)\n");
    }
    assert(s@ =~= global_path_listing(path@, exists));
    s
}

/// Why an ignore file is not written at `path`: it exists and overwriting
/// was not asked for.
pub open spec fn init_refusal_spec(path: Seq<char>, exists: bool, force: bool) -> Option<Seq<char>> {
    if exists && !force {
        Some("File already exists at: "@ + path + "\nUse --force to overwrite."@)
    } else {
        None
    }
}

/// Why an ignore file is not written at `path`, if it is not.
pub fn init_refusal(path: &str, exists: bool, force: bool) -> (r: Option<String>)
    ensures
        crate::cache::opt_view(r) == init_refusal_spec(path@, exists, force),
{
    if exists && !force {
        let mut m = string_from_str("File already exists at: ");
        push_str(&mut m, path);
        push_str(&mut m, "\nUse --force to overwrite.");
        Some(m)
    } else {
        None
    }
}

/// The format a report file is written in: JSON for a `.json` extension,
/// else text.
pub open spec fn file_format(path: Seq<char>) -> ReportFormat {
    match crate::paths::extension_of(path) {
        Some(e) => if e == "json"@ {
            ReportFormat::Json
        } else {
            ReportFormat::Text
        },
        None => ReportFormat::Text,
    }
}

/// The format a report file is written in, by its extension.
pub fn format_for_path(path: &str) -> (r: ReportFormat)
    ensures
        r == file_format(path@),
{
    match crate::paths::extension_chars(path) {
        Some(e) => if crate::text::chars_eq_str(&e, "json") {
            ReportFormat::Json
        } else {
            ReportFormat::Text
        },
        None => ReportFormat::Text,
    }
}

} // verus!
