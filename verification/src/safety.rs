//! Safety guardrails for cleanup: structural sentinel and hidden-file
//! checks, protected system path detection, the pre-deletion re-check of a
//! file's state, and the preservation of originals.
//!
//! What the file system says of a path (whether it exists, what it
//! canonicalizes to, its current metadata) is read by the caller and handed
//! in; these functions make every decision from it.

use vstd::prelude::*;
use crate::errors::{res_view, DupfinderError, ErrorView};
use crate::ignore::{str_views, string_views};
use crate::paths::{
    file_name, file_name_of, is_rooted, join_path, join_spec, lemma_normalized_same_path, normalize,
    parent_of, parent_path, path_parts, path_parts_exec, same_path,
};
use crate::text::{chars_eq_str, chars_start_with, decimal, push_str, starts_with, string_from_str, to_chars, u64_to_string};

verus! {

/// Structural sentinels that should never be deleted by empty-file cleanups.
pub open spec fn sentinel_names() -> Seq<Seq<char>> {
    seq!["__init__.py"@, ".gitkeep"@, ".keep"@, ".placeholder"@, "keep.me"@, ".touch"@]
}

/// The structural sentinel file names.
pub fn structural_sentinels() -> (r: Vec<&'static str>)
    ensures
        str_views(r@) == sentinel_names(),
{
    let r: Vec<&'static str> = vec!["__init__.py", ".gitkeep", ".keep", ".placeholder", "keep.me", ".touch"];
    assert(str_views(r@) =~= sentinel_names());
    r
}

/// Whether `s` is one of the strings of `list`.
pub fn chars_in_list(s: &Vec<char>, list: &Vec<&'static str>) -> (r: bool)
    ensures
        r == str_views(list@).contains(s@),
{
    let mut i: usize = 0;
    while i < list.len()
        invariant
            i <= list@.len(),
            forall|k: int| 0 <= k < i ==> list@[k]@ != s@,
        decreases list@.len() - i,
    {
        if chars_eq_str(s, list[i]) {
            assert(str_views(list@)[i as int] == s@);
            return true;
        }
        i = i + 1;
    }
    assert forall|k: int| 0 <= k < str_views(list@).len() implies str_views(list@)[k] != s@ by {
        assert(str_views(list@)[k] == list@[k]@);
    }
    false
}

/// Whether the path's file name is a structural sentinel.
pub open spec fn sentinel_spec(path: Seq<char>) -> bool {
    match file_name_of(path) {
        Some(n) => sentinel_names().contains(n),
        None => false,
    }
}

/// Check if a filename corresponds to a known structural sentinel file (e.g. `__init__.py`, `.gitkeep`).
pub fn is_structural_sentinel(path: &str) -> (r: bool)
    ensures
        r == sentinel_spec(path@),
{
    match file_name(path) {
        Some(n) => {
            let list = structural_sentinels();
            let cs = to_chars(n.as_str());
            chars_in_list(&cs, &list)
        },
        None => false,
    }
}

/// Whether the path's file name starts with `.` and is neither `.` nor `..`.
pub open spec fn hidden_path_spec(path: Seq<char>) -> bool {
    match file_name_of(path) {
        Some(n) => n.len() > 0 && n[0] == '.' && n != seq!['.'] && n != seq!['.', '.'],
        None => false,
    }
}

/// Check if the target file or directory is hidden (starts with `.`).
pub fn is_hidden_path(path: &str) -> (r: bool)
    ensures
        r == hidden_path_spec(path@),
{
    match file_name(path) {
        Some(n) => {
            let cs = to_chars(n.as_str());
            if cs.len() == 0 || cs[0] != '.' {
                return false;
            }
            let is_dot = cs.len() == 1;
            let is_dotdot = cs.len() == 2 && cs[1] == '.';
            proof {
                if cs@ == seq!['.'] {
                    assert(cs@.len() == 1);
                }
                if cs@ == seq!['.', '.'] {
                    assert(cs@.len() == 2 && cs@[1] == '.');
                }
                if is_dot {
                    assert(cs@ =~= seq!['.']);
                }
                if is_dotdot {
                    assert(cs@ =~= seq!['.', '.']);
                }
            }
            !is_dot && !is_dotdot
        },
        None => false,
    }
}

/// Locations where temporary files live, which are never protected.
pub open spec fn temp_prefixes() -> Seq<Seq<char>> {
    seq!["/tmp"@, "/var/tmp"@, "/var/folders"@, "/private/tmp"@, "/private/var/folders"@, "/private/var/tmp"@]
}

/// Operating-system hierarchies that cleanup never touches.
pub open spec fn protected_prefixes() -> Seq<Seq<char>> {
    seq![
        "/System"@,
        "/Library"@,
        "/Applications"@,
        "/private/etc"@,
        "/usr"@,
        "/etc"@,
        "/bin"@,
        "/sbin"@,
        "/lib"@,
        "/lib64"@,
        "/var"@,
        "/proc"@,
        "/sys"@,
        "/dev"@,
        "/boot"@,
        "/cores"@,
        "/opt/homebrew"@,
        "/opt/local"@,
    ]
}

/// Directory names of security vaults and toolchains, protected wherever
/// they occur in a path.
pub open spec fn sensitive_names() -> Seq<Seq<char>> {
    seq![".ssh"@, ".gnupg"@, ".aws"@, ".azure"@, ".kube"@, ".cargo"@, ".rustup"@, ".git"@, ".npm"@]
}

fn temp_prefix_list() -> (r: Vec<&'static str>)
    ensures
        str_views(r@) == temp_prefixes(),
{
    let r: Vec<&'static str> = vec!["/tmp", "/var/tmp", "/var/folders", "/private/tmp", "/private/var/folders", "/private/var/tmp"];
    assert(str_views(r@) =~= temp_prefixes());
    r
}

fn protected_prefix_list() -> (r: Vec<&'static str>)
    ensures
        str_views(r@) == protected_prefixes(),
{
    let r: Vec<&'static str> = vec![
        "/System",
        "/Library",
        "/Applications",
        "/private/etc",
        "/usr",
        "/etc",
        "/bin",
        "/sbin",
        "/lib",
        "/lib64",
        "/var",
        "/proc",
        "/sys",
        "/dev",
        "/boot",
        "/cores",
        "/opt/homebrew",
        "/opt/local",
    ];
    assert(str_views(r@) =~= protected_prefixes());
    r
}

fn sensitive_name_list() -> (r: Vec<&'static str>)
    ensures
        str_views(r@) == sensitive_names(),
{
    let r: Vec<&'static str> = vec![".ssh", ".gnupg", ".aws", ".azure", ".kube", ".cargo", ".rustup", ".git", ".npm"];
    assert(str_views(r@) =~= sensitive_names());
    r
}

/// Whether the path is the file system root (`Path` equality with `/`).
pub open spec fn is_root_path(c: Seq<char>) -> bool {
    is_rooted(c) && path_parts(c).len() == 0
}

/// Whether the path text starts with a temporary location.
pub open spec fn temp_allowed(c: Seq<char>) -> bool {
    exists|i: int| 0 <= i < temp_prefixes().len() && starts_with(c, #[trigger] temp_prefixes()[i])
}

/// Whether the path text is `p` or lies under it.
pub open spec fn under_prefix(c: Seq<char>, p: Seq<char>) -> bool {
    c == p || starts_with(c, p + seq!['/'])
}

/// Whether a canonical path is protected: the root; outside the temporary
/// locations, one of the system hierarchies or under one; or any path with
/// a sensitive directory among its components.
pub open spec fn protected_canonical(c: Seq<char>) -> bool {
    ||| is_root_path(c)
    ||| (!temp_allowed(c) && exists|i: int|
        0 <= i < protected_prefixes().len() && under_prefix(c, #[trigger] protected_prefixes()[i]))
    ||| exists|i: int| 0 <= i < path_parts(c).len() && sensitive_names().contains(#[trigger] path_parts(c)[i])
}

/// Whether the canonical path `canonical` is a protected OS directory, the
/// system root, or inside a sensitive toolchain or secret vault.
pub fn is_protected_canonical(canonical: &str) -> (r: bool)
    ensures
        r == protected_canonical(canonical@),
{
    let (rooted, parts) = path_parts_exec(canonical);
    if rooted && parts.len() == 0 {
        return true;
    }
    let cs = to_chars(canonical);
    let temps = temp_prefix_list();
    let mut temp = false;
    let mut i: usize = 0;
    while i < temps.len()
        invariant
            i <= temps@.len(),
            str_views(temps@) == temp_prefixes(),
            cs@ == canonical@,
            temp <==> exists|k: int| 0 <= k < i && starts_with(cs@, #[trigger] temp_prefixes()[k]),
        decreases temps@.len() - i,
    {
        let p = to_chars(temps[i]);
        assert(temp_prefixes()[i as int] == temps@[i as int]@);
        if chars_start_with(&cs, &p) {
            temp = true;
        }
        i = i + 1;
    }
    assert(temps@.len() == str_views(temps@).len());
    if !temp {
        assert(!temp_allowed(canonical@));
        let prots = protected_prefix_list();
        let mut j: usize = 0;
        while j < prots.len()
            invariant
                j <= prots@.len(),
                str_views(prots@) == protected_prefixes(),
                cs@ == canonical@,
                !temp_allowed(canonical@),
                forall|k: int| 0 <= k < j ==> !under_prefix(cs@, #[trigger] protected_prefixes()[k]),
            decreases prots@.len() - j,
        {
            let p = to_chars(prots[j]);
            assert(protected_prefixes()[j as int] == prots@[j as int]@);
            let mut ps = p.clone();
            ps.push('/');
            assert(ps@ == p@ + seq!['/']);
            if chars_eq_str(&cs, prots[j]) || chars_start_with(&cs, &ps) {
                assert(under_prefix(canonical@, protected_prefixes()[j as int]));
                return true;
            }
            j = j + 1;
        }
    }
    let names = sensitive_name_list();
    let mut k: usize = 0;
    while k < parts.len()
        invariant
            k <= parts@.len(),
            str_views(names@) == sensitive_names(),
            parts@.len() == path_parts(canonical@).len(),
            forall|m: int| 0 <= m < parts@.len() ==> (#[trigger] parts@[m])@ == path_parts(canonical@)[m],
            forall|m: int| 0 <= m < k ==> !sensitive_names().contains(#[trigger] path_parts(canonical@)[m]),
        decreases parts@.len() - k,
    {
        if chars_in_list(&parts[k], &names) {
            return true;
        }
        k = k + 1;
    }
    false
}

/// What the file system says of a path, read just before a decision on it.
pub struct PathFacts {
    /// The canonical form of the path (`fs::canonicalize`) when the path
    /// exists: its text, or the error's message; `None` when it does not exist.
    pub canonical: Option<Result<String, String>>,
    /// When the path does not exist, has a parent and the parent exists: the
    /// canonical form of the parent, or the error's message; else `None`.
    pub parent_canonical: Option<Result<String, String>>,
}

/// The canonical form of `path` that the protection check looks at: the
/// path's own when it exists; else its parent's, joined with the path's
/// file name, when the parent exists; else the path as given.
pub open spec fn canonical_spec(path: Seq<char>, facts: PathFacts) -> Result<Seq<char>, ErrorView> {
    match facts.canonical {
        Some(Ok(c)) => Ok(c@),
        Some(Err(e)) => Err(ErrorView::Io { path: path, message: e@ }),
        None => match parent_of(path) {
            Some(parent) => match facts.parent_canonical {
                Some(Ok(cp)) => match file_name_of(path) {
                    Some(n) => Ok(join_spec(cp@, n)),
                    None => Ok(cp@),
                },
                Some(Err(e)) => Err(ErrorView::Io { path: parent, message: e@ }),
                None => Ok(path),
            },
            None => Ok(path),
        },
    }
}

/// The canonical form of `path` used for the protection check.
pub fn resolve_canonical(path: &str, facts: &PathFacts) -> (r: Result<String, DupfinderError>)
    ensures
        match r {
            Ok(c) => canonical_spec(path@, *facts) == Ok::<Seq<char>, ErrorView>(c@),
            Err(e) => canonical_spec(path@, *facts) == Err::<Seq<char>, ErrorView>(e@),
        },
{
    match &facts.canonical {
        Some(Ok(c)) => Ok(c.clone()),
        Some(Err(e)) => Err(DupfinderError::IoError { path: string_from_str(path), message: e.clone() }),
        None => match parent_path(path) {
            Some(parent) => match &facts.parent_canonical {
                Some(Ok(cp)) => match file_name(path) {
                    Some(n) => Ok(join_path(cp.as_str(), n.as_str())),
                    None => Ok(cp.clone()),
                },
                Some(Err(e)) => Err(DupfinderError::IoError { path: parent, message: e.clone() }),
                None => Ok(string_from_str(path)),
            },
            None => Ok(string_from_str(path)),
        },
    }
}

/// Whether `path` is protected, as `protected_canonical` judges its
/// canonical form; an error when that form cannot be had.
pub open spec fn protected_spec(path: Seq<char>, facts: PathFacts) -> Result<bool, ErrorView> {
    match canonical_spec(path, facts) {
        Ok(c) => Ok(protected_canonical(c)),
        Err(e) => Err(e),
    }
}

/// Check if a path is a protected OS directory, system root, or sensitive
/// toolchain/secret vault. Paths are judged by their canonical form, so that
/// symlinks and `../` cannot bypass the check.
pub fn is_system_or_protected_path(path: &str, facts: &PathFacts) -> (r: Result<bool, DupfinderError>)
    ensures
        res_view(r) == protected_spec(path@, *facts),
{
    match resolve_canonical(path, facts) {
        Ok(c) => Ok(is_protected_canonical(c.as_str())),
        Err(e) => Err(e),
    }
}

/// A file's current metadata, read without following symlinks: its kind,
/// length, modification time (nanoseconds since the Unix epoch), device and
/// inode number.
pub struct FileState {
    pub is_symlink: bool,
    pub is_file: bool,
    pub len: u64,
    pub mtime: i128,
    pub dev: u64,
    pub ino: u64,
}

/// What the scan recorded of a file: its size, modification time, device
/// and inode number.
#[derive(Debug, Clone, Copy, PartialEq, Eq, Structural)]
pub struct ScanStamp {
    pub size: u64,
    pub mtime: i128,
    pub dev: u64,
    pub ino: u64,
}

/// The outcome of re-checking a file before deletion: refused when it can no
/// longer be read, is a symlink or no regular file now, has another size,
/// is another file (device or inode changed) or was modified since the scan.
pub open spec fn unmodified_spec(path: Seq<char>, expected: ScanStamp, state: Result<FileState, Seq<char>>) -> Result<
    (),
    ErrorView,
> {
    match state {
        Err(e) => Err(ErrorView::StateChanged { path: path, reason: "File inaccessible or deleted: "@ + e }),
        Ok(s) => if s.is_symlink {
            Err(ErrorView::StateChanged { path: path, reason: "Target was swapped for a symlink"@ })
        } else if !s.is_file {
            Err(ErrorView::StateChanged { path: path, reason: "Target is no longer a regular file"@ })
        } else if s.len != expected.size {
            Err(
                ErrorView::StateChanged {
                    path: path,
                    reason: "File size changed (expected "@ + decimal(expected.size as nat) + " bytes, found "@
                        + decimal(s.len as nat) + " bytes)"@,
                },
            )
        } else if s.dev != expected.dev || s.ino != expected.ino {
            Err(ErrorView::StateChanged { path: path, reason: "Target was replaced by another file"@ })
        } else if s.mtime != expected.mtime {
            Err(ErrorView::StateChanged { path: path, reason: "File was modified since the scan"@ })
        } else {
            Ok(())
        },
    }
}

/// The metadata result with its error taken by its text.
pub open spec fn state_view(state: Result<FileState, String>) -> Result<FileState, Seq<char>> {
    match state {
        Ok(s) => Ok(s),
        Err(e) => Err(e@),
    }
}

/// Verify that a file has not been mutated, replaced, or deleted since scan
/// time (TOCTOU guard); `expected` is what the scan recorded of it and
/// `state` its metadata read now.
pub fn verify_file_unmodified(path: &str, expected: ScanStamp, state: &Result<FileState, String>) -> (r: Result<
    (),
    DupfinderError,
>)
    ensures
        res_view(r) == unmodified_spec(path@, expected, state_view(*state)),
{
    match state {
        Err(e) => {
            let mut m = string_from_str("File inaccessible or deleted: ");
            push_str(&mut m, e.as_str());
            Err(DupfinderError::StateChangedError { path: string_from_str(path), reason: m })
        },
        Ok(s) => {
            if s.is_symlink {
                Err(
                    DupfinderError::StateChangedError {
                        path: string_from_str(path),
                        reason: string_from_str("Target was swapped for a symlink"),
                    },
                )
            } else if !s.is_file {
                Err(
                    DupfinderError::StateChangedError {
                        path: string_from_str(path),
                        reason: string_from_str("Target is no longer a regular file"),
                    },
                )
            } else if s.len != expected.size {
                let mut m = string_from_str("File size changed (expected ");
                push_str(&mut m, u64_to_string(expected.size).as_str());
                push_str(&mut m, " bytes, found ");
                push_str(&mut m, u64_to_string(s.len).as_str());
                push_str(&mut m, " bytes)");
                Err(DupfinderError::StateChangedError { path: string_from_str(path), reason: m })
            } else if s.dev != expected.dev || s.ino != expected.ino {
                Err(
                    DupfinderError::StateChangedError {
                        path: string_from_str(path),
                        reason: string_from_str("Target was replaced by another file"),
                    },
                )
            } else if s.mtime != expected.mtime {
                Err(
                    DupfinderError::StateChangedError {
                        path: string_from_str(path),
                        reason: string_from_str("File was modified since the scan"),
                    },
                )
            } else {
                Ok(())
            }
        },
    }
}

/// The path's canonical form when it has one, else the path itself
/// (`canonicalize(p).unwrap_or(p)`).
pub open spec fn canonical_or_self(path: Seq<char>, facts: PathFacts) -> Seq<char> {
    match facts.canonical {
        Some(Ok(c)) => c@,
        _ => path,
    }
}

/// The outcome of validating the deletion of the duplicates `dups[k]`
/// (with `facts[k]`) from `k` on, given the original's canonical form.
pub open spec fn dups_safety(
    original: Seq<char>,
    orig_canon: Seq<char>,
    dups: Seq<Seq<char>>,
    facts: Seq<PathFacts>,
    k: int,
) -> Result<(), ErrorView>
    decreases dups.len() - k,
{
    if k >= dups.len() || k < 0 {
        Ok(())
    } else if same_path(orig_canon, canonical_or_self(dups[k], facts[k])) {
        Err(
            ErrorView::OriginalPreservation(
                "Safety invariant violated: cannot delete original file '"@ + original + "'"@,
            ),
        )
    } else {
        match protected_spec(dups[k], facts[k]) {
            Err(e) => Err(e),
            Ok(true) => Err(
                ErrorView::ProtectedPath {
                    path: dups[k],
                    reason: "Operation on system or protected path is forbidden"@,
                },
            ),
            Ok(false) => dups_safety(original, orig_canon, dups, facts, k + 1),
        }
    }
}

/// The outcome of validating a duplicate cleanup: the original must exist,
/// no duplicate may be the original itself, and none may be protected.
pub open spec fn deletion_safety_spec(
    original: Seq<char>,
    original_facts: PathFacts,
    dups: Seq<Seq<char>>,
    facts: Seq<PathFacts>,
) -> Result<(), ErrorView> {
    if original_facts.canonical is None {
        Err(
            ErrorView::OriginalPreservation(
                "Designated original file '"@ + original + "' does not exist on disk"@,
            ),
        )
    } else {
        dups_safety(original, canonical_or_self(original, original_facts), dups, facts, 0)
    }
}

/// The path's canonical form when it has one, else the path itself.
fn canonical_or_self_exec(path: &str, facts: &PathFacts) -> (r: String)
    ensures
        r@ == canonical_or_self(path@, *facts),
{
    match &facts.canonical {
        Some(Ok(c)) => c.clone(),
        _ => string_from_str(path),
    }
}

/// Validate that a duplicate cleanup action preserves the original file and
/// obeys all safety boundaries. `original_facts` and `dup_facts[k]` say what
/// the file system holds of the original and of `duplicates[k]`.
pub fn validate_deletion_safety(
    original: &str,
    original_facts: &PathFacts,
    duplicates: &Vec<String>,
    dup_facts: &Vec<PathFacts>,
) -> (r: Result<(), DupfinderError>)
    requires
        dup_facts@.len() == duplicates@.len(),
    ensures
        res_view(r) == deletion_safety_spec(
            original@,
            *original_facts,
            string_views(duplicates@),
            dup_facts@,
        ),
{
    let ghost dv = string_views(duplicates@);
    if original_facts.canonical.is_none() {
        let mut m = string_from_str("Designated original file '");
        push_str(&mut m, original);
        push_str(&mut m, "' does not exist on disk");
        return Err(DupfinderError::OriginalPreservationError(m));
    }
    let orig_canon = canonical_or_self_exec(original, original_facts);
    let orig_norm = normalize(orig_canon.as_str());
    let mut i: usize = 0;
    while i < duplicates.len()
        invariant
            i <= duplicates@.len(),
            dup_facts@.len() == duplicates@.len(),
            original_facts.canonical is Some,
            dv == string_views(duplicates@),
            orig_canon@ == canonical_or_self(original@, *original_facts),
            orig_norm@ == crate::paths::normalized(orig_canon@),
            dups_safety(original@, orig_canon@, dv, dup_facts@, 0) == dups_safety(
                original@,
                orig_canon@,
                dv,
                dup_facts@,
                i as int,
            ),
        decreases duplicates@.len() - i,
    {
        let dup = &duplicates[i];
        let dc = canonical_or_self_exec(dup.as_str(), &dup_facts[i]);
        let dn = normalize(dc.as_str());
        proof {
            lemma_normalized_same_path(orig_canon@, dc@);
            assert(dv[i as int] == dup@);
            assert(dc@ == canonical_or_self(dv[i as int], dup_facts@[i as int]));
        }
        if crate::text::str_eq(orig_norm.as_str(), dn.as_str()) {
            let mut m = string_from_str("Safety invariant violated: cannot delete original file '");
            push_str(&mut m, original);
            push_str(&mut m, "'");
            return Err(DupfinderError::OriginalPreservationError(m));
        }
        match is_system_or_protected_path(dup.as_str(), &dup_facts[i]) {
            Err(e) => {
                return Err(e);
            },
            Ok(true) => {
                return Err(
                    DupfinderError::ProtectedPathError {
                        path: dup.clone(),
                        reason: string_from_str("Operation on system or protected path is forbidden"),
                    },
                );
            },
            Ok(false) => {},
        }
        i = i + 1;
    }
    Ok(())
}

/// An ordinary path is not protected: a canonical path that is not the
/// root, has none of `.ssh`, `.gnupg`, `.aws`, `.azure`, `.kube`, `.cargo`,
/// `.rustup`, `.git`, `.npm` among its components, and is neither one of
/// the operating-system hierarchies `/System`, `/Library`, `/Applications`,
/// `/private/etc`, `/usr`, `/etc`, `/bin`, `/sbin`, `/lib`, `/lib64`, `/var`,
/// `/proc`, `/sys`, `/dev`, `/boot`, `/cores`, `/opt/homebrew`, `/opt/local`
/// nor under one, is not protected (a file in a user's home folder, say).
pub proof fn law_ordinary_paths_are_not_protected(c: Seq<char>)
    requires
        !is_root_path(c),
        forall|i: int| 0 <= i < path_parts(c).len() ==> (#[trigger] path_parts(c)[i] != ".ssh"@ && #[trigger] path_parts(c)[i] != ".gnupg"@ && #[trigger] path_parts(c)[i] != ".aws"@ && #[trigger] path_parts(c)[i] != ".azure"@ && #[trigger] path_parts(c)[i] != ".kube"@ && #[trigger] path_parts(c)[i] != ".cargo"@ && #[trigger] path_parts(c)[i] != ".rustup"@ && #[trigger] path_parts(c)[i] != ".git"@ && #[trigger] path_parts(c)[i] != ".npm"@),
        !under_prefix(c, "/System"@),
        !under_prefix(c, "/Library"@),
        !under_prefix(c, "/Applications"@),
        !under_prefix(c, "/private/etc"@),
        !under_prefix(c, "/usr"@),
        !under_prefix(c, "/etc"@),
        !under_prefix(c, "/bin"@),
        !under_prefix(c, "/sbin"@),
        !under_prefix(c, "/lib"@),
        !under_prefix(c, "/lib64"@),
        !under_prefix(c, "/var"@),
        !under_prefix(c, "/proc"@),
        !under_prefix(c, "/sys"@),
        !under_prefix(c, "/dev"@),
        !under_prefix(c, "/boot"@),
        !under_prefix(c, "/cores"@),
        !under_prefix(c, "/opt/homebrew"@),
        !under_prefix(c, "/opt/local"@),
    ensures
        !protected_canonical(c),
{
    assert(protected_prefixes() =~= seq!["/System"@, "/Library"@, "/Applications"@, "/private/etc"@, "/usr"@, "/etc"@, "/bin"@, "/sbin"@, "/lib"@, "/lib64"@, "/var"@, "/proc"@, "/sys"@, "/dev"@, "/boot"@, "/cores"@, "/opt/homebrew"@, "/opt/local"@]);
    assert(sensitive_names() =~= seq![".ssh"@, ".gnupg"@, ".aws"@, ".azure"@, ".kube"@, ".cargo"@, ".rustup"@, ".git"@, ".npm"@]);
    assert forall|i: int| 0 <= i < protected_prefixes().len() implies !under_prefix(c, #[trigger] protected_prefixes()[i]) by {
        assert(protected_prefixes()[i] == seq!["/System"@, "/Library"@, "/Applications"@, "/private/etc"@, "/usr"@, "/etc"@, "/bin"@, "/sbin"@, "/lib"@, "/lib64"@, "/var"@, "/proc"@, "/sys"@, "/dev"@, "/boot"@, "/cores"@, "/opt/homebrew"@, "/opt/local"@][i]);
    }
    assert forall|i: int| 0 <= i < path_parts(c).len() implies !sensitive_names().contains(#[trigger] path_parts(c)[i]) by {
        if sensitive_names().contains(path_parts(c)[i]) {
            let k = choose|k: int| 0 <= k < sensitive_names().len() && sensitive_names()[k] == path_parts(c)[i];
            assert(sensitive_names()[k] == seq![".ssh"@, ".gnupg"@, ".aws"@, ".azure"@, ".kube"@, ".cargo"@, ".rustup"@, ".git"@, ".npm"@][k]);
        }
    }
}

/// An existing file whose canonical form is an ordinary path (as in
/// `law_ordinary_paths_are_not_protected`) is judged not protected, so its
/// duplicate can be cleaned.
pub proof fn law_ordinary_files_may_be_cleaned(path: Seq<char>, canonical: String, facts: PathFacts)
    requires
        facts.canonical == Some(Ok::<String, String>(canonical)),
        !is_root_path(canonical@),
        forall|i: int| 0 <= i < path_parts(canonical@).len() ==> (#[trigger] path_parts(canonical@)[i] != ".ssh"@ && #[trigger] path_parts(canonical@)[i] != ".gnupg"@ && #[trigger] path_parts(canonical@)[i] != ".aws"@ && #[trigger] path_parts(canonical@)[i] != ".azure"@ && #[trigger] path_parts(canonical@)[i] != ".kube"@ && #[trigger] path_parts(canonical@)[i] != ".cargo"@ && #[trigger] path_parts(canonical@)[i] != ".rustup"@ && #[trigger] path_parts(canonical@)[i] != ".git"@ && #[trigger] path_parts(canonical@)[i] != ".npm"@),
        !under_prefix(canonical@, "/System"@),
        !under_prefix(canonical@, "/Library"@),
        !under_prefix(canonical@, "/Applications"@),
        !under_prefix(canonical@, "/private/etc"@),
        !under_prefix(canonical@, "/usr"@),
        !under_prefix(canonical@, "/etc"@),
        !under_prefix(canonical@, "/bin"@),
        !under_prefix(canonical@, "/sbin"@),
        !under_prefix(canonical@, "/lib"@),
        !under_prefix(canonical@, "/lib64"@),
        !under_prefix(canonical@, "/var"@),
        !under_prefix(canonical@, "/proc"@),
        !under_prefix(canonical@, "/sys"@),
        !under_prefix(canonical@, "/dev"@),
        !under_prefix(canonical@, "/boot"@),
        !under_prefix(canonical@, "/cores"@),
        !under_prefix(canonical@, "/opt/homebrew"@),
        !under_prefix(canonical@, "/opt/local"@),
    ensures
        protected_spec(path, facts) == Ok::<bool, ErrorView>(false),
{
    law_ordinary_paths_are_not_protected(canonical@);
}

/// The file system root is protected; so is each operating-system
/// hierarchy listed in `law_ordinary_paths_are_not_protected`, and
/// everything under one, outside the temporary locations; and so is every
/// path through a security vault or toolchain directory.
pub proof fn law_system_paths_are_protected(c: Seq<char>)
    ensures
        is_root_path(c) ==> protected_canonical(c),
        (!temp_allowed(c) && (under_prefix(c, "/System"@) || under_prefix(c, "/Library"@) || under_prefix(c, "/Applications"@) || under_prefix(c, "/private/etc"@) || under_prefix(c, "/usr"@) || under_prefix(c, "/etc"@) || under_prefix(c, "/bin"@) || under_prefix(c, "/sbin"@) || under_prefix(c, "/lib"@) || under_prefix(c, "/lib64"@) || under_prefix(c, "/var"@) || under_prefix(c, "/proc"@) || under_prefix(c, "/sys"@) || under_prefix(c, "/dev"@) || under_prefix(c, "/boot"@) || under_prefix(c, "/cores"@) || under_prefix(c, "/opt/homebrew"@) || under_prefix(c, "/opt/local"@))) ==> protected_canonical(c),
        (exists|i: int| 0 <= i < path_parts(c).len() && (#[trigger] path_parts(c)[i] == ".ssh"@ || #[trigger] path_parts(c)[i] == ".gnupg"@ || #[trigger] path_parts(c)[i] == ".aws"@ || #[trigger] path_parts(c)[i] == ".azure"@ || #[trigger] path_parts(c)[i] == ".kube"@ || #[trigger] path_parts(c)[i] == ".cargo"@ || #[trigger] path_parts(c)[i] == ".rustup"@ || #[trigger] path_parts(c)[i] == ".git"@ || #[trigger] path_parts(c)[i] == ".npm"@))
            ==> protected_canonical(c),
{
    assert(protected_prefixes() =~= seq!["/System"@, "/Library"@, "/Applications"@, "/private/etc"@, "/usr"@, "/etc"@, "/bin"@, "/sbin"@, "/lib"@, "/lib64"@, "/var"@, "/proc"@, "/sys"@, "/dev"@, "/boot"@, "/cores"@, "/opt/homebrew"@, "/opt/local"@]);
    assert(sensitive_names() =~= seq![".ssh"@, ".gnupg"@, ".aws"@, ".azure"@, ".kube"@, ".cargo"@, ".rustup"@, ".git"@, ".npm"@]);
    if exists|i: int| 0 <= i < path_parts(c).len() && (#[trigger] path_parts(c)[i] == ".ssh"@ || #[trigger] path_parts(c)[i] == ".gnupg"@ || #[trigger] path_parts(c)[i] == ".aws"@ || #[trigger] path_parts(c)[i] == ".azure"@ || #[trigger] path_parts(c)[i] == ".kube"@ || #[trigger] path_parts(c)[i] == ".cargo"@ || #[trigger] path_parts(c)[i] == ".rustup"@ || #[trigger] path_parts(c)[i] == ".git"@ || #[trigger] path_parts(c)[i] == ".npm"@) {
        let i = choose|i: int| 0 <= i < path_parts(c).len() && (#[trigger] path_parts(c)[i] == ".ssh"@ || #[trigger] path_parts(c)[i] == ".gnupg"@ || #[trigger] path_parts(c)[i] == ".aws"@ || #[trigger] path_parts(c)[i] == ".azure"@ || #[trigger] path_parts(c)[i] == ".kube"@ || #[trigger] path_parts(c)[i] == ".cargo"@ || #[trigger] path_parts(c)[i] == ".rustup"@ || #[trigger] path_parts(c)[i] == ".git"@ || #[trigger] path_parts(c)[i] == ".npm"@);
        assert(sensitive_names().contains(path_parts(c)[i]));
    }
}

} // verus!
