//! What the command line decides: size arguments, byte counts as the
//! commands show them, and the choices a command makes from its arguments.

use vstd::prelude::*;
use crate::numtext::{float_scaled, parse_float_scaled, parse_float_text, all_digits, digits_value, sub_chars, all_digits_exec};
use crate::clean::{action_bytes, action_target, actions_view, bytes_in, ActionView, CleanAction, CleanOptions, CleanPlan, DeletionMethod};
use crate::ignore::{preset_named, IgnorePreset};
use crate::report::{round_half_even, ReportFormat};
use crate::types::{CacheConfig, FeatureFlags, FilterConfig, ScanConfig};
use crate::text::{
    chars_end_with, chars_eq_str, decimal, ends_with, lower_text, push_str, string_from_chars, to_lower,
    string_from_str, to_chars, trim, trim_chars, u64_to_string,
};

verus! {

/// Whether `c` has the Unicode Alphabetic property (`char::is_alphabetic`).
pub uninterp spec fn alphabetic(c: char) -> bool;

/// `char::is_alphabetic`. Claimed: the result is the named `alphabetic(c)`;
/// among ASCII characters exactly the letters are alphabetic.
#[verifier::external_body]
fn is_alphabetic(c: char) -> (r: bool)
    ensures
        r == alphabetic(c),
        (c as u32) < 128 ==> (r <==> (('a' <= c && c <= 'z') || ('A' <= c && c <= 'Z'))),
{
    c.is_alphabetic()
}

/// Whether `i` is the first position of an alphabetic character in `t`.
pub open spec fn is_first_alpha(t: Seq<char>, i: int) -> bool {
    &&& 0 <= i < t.len()
    &&& alphabetic(t[i])
    &&& forall|j: int| 0 <= j < i ==> !alphabetic(t[j])
}

/// The first position of an alphabetic character in `t`.
pub open spec fn first_alpha(t: Seq<char>) -> Option<int> {
    if exists|i: int| is_first_alpha(t, i) {
        Some(choose|i: int| is_first_alpha(t, i))
    } else {
        None
    }
}

/// The first position of an alphabetic character.
fn first_alpha_exec(t: &Vec<char>) -> (r: Option<usize>)
    ensures
        match r {
            Some(i) => first_alpha(t@) == Some(i as int) && i < t@.len(),
            None => first_alpha(t@) is None,
        },
{
    let mut i: usize = 0;
    while i < t.len()
        invariant
            i <= t@.len(),
            forall|j: int| 0 <= j < i ==> !alphabetic(t@[j]),
        decreases t@.len() - i,
    {
        if is_alphabetic(t[i]) {
            assert(is_first_alpha(t@, i as int));
            proof {
                let c = choose|c: int| is_first_alpha(t@, c);
                if c < i {
                    assert(alphabetic(t@[c]));
                } else if c > i {
                    assert(!alphabetic(t@[i as int]));
                }
            }
            return Some(i);
        }
        i = i + 1;
    }
    proof {
        if exists|c: int| is_first_alpha(t@, c) {
            let c = choose|c: int| is_first_alpha(t@, c);
            assert(!alphabetic(t@[c]));
        }
    }
    None
}

/// The power of two a size unit stands for (`""`, `b`, `bytes`: 0; `k`,
/// `kb`, `kib`: 10; and so on up to terabytes: 40), compared lower-cased.
pub open spec fn unit_shift(u: Seq<char>) -> Option<nat> {
    if u == ""@ || u == "b"@ || u == "bytes"@ {
        Some(0)
    } else if u == "k"@ || u == "kb"@ || u == "kib"@ {
        Some(10)
    } else if u == "m"@ || u == "mb"@ || u == "mib"@ {
        Some(20)
    } else if u == "g"@ || u == "gb"@ || u == "gib"@ {
        Some(30)
    } else if u == "t"@ || u == "tb"@ || u == "tib"@ {
        Some(40)
    } else {
        None
    }
}

fn unit_shift_exec(u: &Vec<char>) -> (r: Option<u32>)
    ensures
        match r {
            Some(k) => unit_shift(u@) == Some(k as nat),
            None => unit_shift(u@) is None,
        },
{
    if chars_eq_str(u, "") || chars_eq_str(u, "b") || chars_eq_str(u, "bytes") {
        Some(0)
    } else if chars_eq_str(u, "k") || chars_eq_str(u, "kb") || chars_eq_str(u, "kib") {
        Some(10)
    } else if chars_eq_str(u, "m") || chars_eq_str(u, "mb") || chars_eq_str(u, "mib") {
        Some(20)
    } else if chars_eq_str(u, "g") || chars_eq_str(u, "gb") || chars_eq_str(u, "gib") {
        Some(30)
    } else if chars_eq_str(u, "t") || chars_eq_str(u, "tb") || chars_eq_str(u, "tib") {
        Some(40)
    } else {
        None
    }
}

/// A result with its error message taken by its characters.
pub open spec fn res_text<T>(r: Result<T, String>) -> Result<T, Seq<char>> {
    match r {
        Ok(v) => Ok(v),
        Err(e) => Err(e@),
    }
}

/// What `parse_size_str` gives for `s`: empty text is 0; else the number
/// before the first letter times the unit after it (bytes when there is
/// none), rounded toward zero and clamped to `u64`.
pub open spec fn size_str_result(s: Seq<char>) -> Result<u64, Seq<char>> {
    let t = trim(s);
    if t.len() == 0 {
        Ok(0)
    } else {
        let num = match first_alpha(t) {
            Some(i) => t.take(i),
            None => t,
        };
        let unit = match first_alpha(t) {
            Some(i) => t.skip(i),
            None => Seq::empty(),
        };
        match parse_float_text(trim(num)) {
            None => Err("Invalid number '"@ + num + "' in size"@),
            Some(f) => match unit_shift(lower_text(unit)) {
                None => Err("Unknown size unit '"@ + unit + "'. Use B, KB, MB, GB, TB"@),
                Some(k) => Ok(float_scaled(f, k)),
            },
        }
    }
}

/// Parse a human-readable size such as `1024`, `1.5KB` or `2 gb` into bytes.
pub fn parse_size_str(s: &str) -> (r: Result<u64, String>)
    ensures
        res_text(r) == size_str_result(s@),
{
    let t = trim_chars(&to_chars(s));
    if t.len() == 0 {
        return Ok(0);
    }
    let (num, unit) = match first_alpha_exec(&t) {
        Some(i) => {
            let n = sub_chars(&t, 0, i);
            let u = sub_chars(&t, i, t.len());
            assert(n@ =~= t@.take(i as int));
            assert(u@ =~= t@.skip(i as int));
            (n, u)
        },
        None => {
            let n = sub_chars(&t, 0, t.len());
            assert(n@ =~= t@);
            (n, Vec::new())
        },
    };
    let tn = trim_chars(&num);
    let unit_lower = to_chars(to_lower(string_from_chars(&unit).as_str()).as_str());
    match unit_shift_exec(&unit_lower) {
        None => {
            match parse_float_scaled(&tn, 0) {
                None => {
                    let mut m = string_from_str("Invalid number '");
                    crate::text::push_chars(&mut m, &num);
                    push_str(&mut m, "' in size");
                    Err(m)
                },
                Some(_) => {
                    let mut m = string_from_str("Unknown size unit '");
                    crate::text::push_chars(&mut m, &unit);
                    push_str(&mut m, "'. Use B, KB, MB, GB, TB");
                    Err(m)
                },
            }
        },
        Some(k) => match parse_float_scaled(&tn, k) {
            None => {
                let mut m = string_from_str("Invalid number '");
                crate::text::push_chars(&mut m, &num);
                push_str(&mut m, "' in size");
                Err(m)
            },
            Some(v) => Ok(v),
        },
    }
}

/// `str::to_uppercase`: the Unicode upper case of a text.
pub uninterp spec fn upper_text(s: Seq<char>) -> Seq<char>;

/// `str::to_uppercase`. Claimed: the result is the named `upper_text` of
/// the argument; on ASCII text that is the text with its small letters in
/// upper case (Unicode's case tables for other characters are not restated
/// here).
#[verifier::external_body]
fn to_upper(s: &str) -> (r: String)
    ensures
        r@ == upper_text(s@),
        crate::text::all_ascii(s@) ==> r@ == crate::text::ascii_upper(s@),
{
    s.to_uppercase()
}

/// `u64::from_str`: an optional `+`, then decimal digits whose value fits.
pub open spec fn parse_u64_text(s: Seq<char>) -> Option<u64> {
    let d = if s.len() > 0 && s[0] == '+' {
        s.skip(1)
    } else {
        s
    };
    if d.len() > 0 && all_digits(d) && digits_value(d) <= u64::MAX {
        Some(digits_value(d) as u64)
    } else {
        None
    }
}

/// `u64::from_str` on characters.
fn parse_u64_exec(s: &Vec<char>) -> (r: Option<u64>)
    ensures
        r == parse_u64_text(s@),
{
    let start: usize = if s.len() > 0 && s[0] == '+' { 1 } else { 0 };
    let d = sub_chars(s, start, s.len());
    assert(d@ =~= (if s@.len() > 0 && s@[0] == '+' { s@.skip(1) } else { s@ }));
    if d.len() == 0 || !all_digits_exec(&d) {
        return None;
    }
    let mut v: u64 = 0;
    let mut i: usize = 0;
    while i < d.len()
        invariant
            i <= d@.len(),
            all_digits(d@),
            d@ == (if s@.len() > 0 && s@[0] == '+' { s@.skip(1) } else { s@ }),
            d@.len() > 0,
            v == digits_value(d@.take(i as int)),
        decreases d@.len() - i,
    {
        assert(crate::numtext::is_digit(d@[i as int]));
        let dv: u64 = ((d[i] as u32) - ('0' as u32)) as u64;
        assert(d@.take(i + 1).drop_last() =~= d@.take(i as int));
        assert(d@.take(i + 1).last() == d@[i as int]);
        if v > (u64::MAX - dv) / 10 {
            proof {
                // the rest of the digits only make the value larger
                crate::numtext::lemma_digits_append(d@.take(i + 1), d@.skip(i + 1));
                assert(d@.take(i + 1) + d@.skip(i + 1) =~= d@);
                vstd::arithmetic::power::lemma_pow_positive(10, d@.skip(i + 1).len());
                assert(digits_value(d@.take(i + 1)) > u64::MAX) by (nonlinear_arith)
                    requires
                        v > (u64::MAX - dv) / 10,
                        digits_value(d@.take(i + 1)) == v * 10 + dv,
                        dv <= 9,
                ;
                assert(digits_value(d@) >= digits_value(d@.take(i + 1))) by (nonlinear_arith)
                    requires
                        digits_value(d@) == digits_value(d@.take(i + 1)) * crate::numtext::pow10(
                            d@.skip(i + 1).len(),
                        ) + digits_value(d@.skip(i + 1)),
                        crate::numtext::pow10(d@.skip(i + 1).len()) >= 1,
                ;
            }
            return None;
        }
        v = v * 10 + dv;
        i = i + 1;
    }
    assert(d@.take(d@.len() as int) =~= d@);
    Some(v)
}

/// `s` with every trailing copy of `p` removed (`trim_end_matches`).
pub open spec fn trim_end_matches(s: Seq<char>, p: Seq<char>) -> Seq<char>
    decreases s.len(),
{
    if p.len() > 0 && ends_with(s, p) {
        trim_end_matches(s.take(s.len() - p.len()), p)
    } else {
        s
    }
}

/// `trim_end_matches` on characters.
fn trim_end_matches_exec(s: &Vec<char>, p: &Vec<char>) -> (r: Vec<char>)
    ensures
        r@ == trim_end_matches(s@, p@),
{
    let mut n: usize = s.len();
    let mut cur = sub_chars(s, 0, n);
    assert(cur@ =~= s@);
    while p.len() > 0 && chars_end_with(&cur, p)
        invariant
            cur@ == s@.take(n as int),
            n <= s@.len(),
            trim_end_matches(s@, p@) == trim_end_matches(cur@, p@),
        decreases n,
    {
        n = n - p.len();
        let next = sub_chars(s, 0, n);
        assert(next@ =~= cur@.take(cur@.len() - p@.len()));
        cur = next;
    }
    cur
}

/// The size suffixes tried, longest unit first, with their powers of two.
pub open spec fn size_suffix(i: int) -> (Seq<char>, nat) {
    if i == 0 {
        ("TB"@, 40)
    } else if i == 1 {
        ("GB"@, 30)
    } else if i == 2 {
        ("MB"@, 20)
    } else if i == 3 {
        ("KB"@, 10)
    } else {
        ("B"@, 0)
    }
}

/// What `parse_size` gives for the upper-cased text `u`, trying the
/// suffixes from the `i`-th on.
pub open spec fn suffix_result(u: Seq<char>, i: int) -> Result<u64, Seq<char>>
    decreases 5 - i,
{
    if i >= 5 || i < 0 {
        Err("Invalid size format: "@ + u + ". Use e.g., 1024, 1KB, 10MB"@)
    } else if ends_with(u, size_suffix(i).0) {
        match parse_float_text(trim(trim_end_matches(u, size_suffix(i).0))) {
            Some(f) => Ok(float_scaled(f, size_suffix(i).1)),
            None => Err("Invalid size value: "@ + u),
        }
    } else {
        suffix_result(u, i + 1)
    }
}

/// What `parse_size` gives for `s`: the trimmed, upper-cased text as a
/// plain number of bytes, or a number followed by TB, GB, MB, KB or B.
pub open spec fn size_result(s: Seq<char>) -> Result<u64, Seq<char>> {
    let u = upper_text(trim(s));
    match parse_u64_text(u) {
        Some(n) => Ok(n),
        None => suffix_result(u, 0),
    }
}

/// Parse a human-readable size string like "1KB", "10MB", or "1024" into bytes.
pub fn parse_size(s: &str) -> (r: Result<u64, String>)
    ensures
        res_text(r) == size_result(s@),
{
    let t = string_from_chars(&trim_chars(&to_chars(s)));
    let u = to_upper(t.as_str());
    let uc = to_chars(u.as_str());
    if let Some(n) = parse_u64_exec(&uc) {
        return Ok(n);
    }
    let suffixes: Vec<(&'static str, u32)> = vec![("TB", 40), ("GB", 30), ("MB", 20), ("KB", 10), ("B", 0)];
    let mut i: usize = 0;
    while i < 5
        invariant
            i <= 5,
            suffixes@.len() == 5,
            forall|j: int| 0 <= j < 5 ==> (#[trigger] suffixes@[j]).0@ == size_suffix(j).0 && suffixes@[j].1 == size_suffix(j).1,
            uc@ == u@,
            u@ == upper_text(trim(s@)),
            parse_u64_text(u@) is None,
            suffix_result(u@, 0) == suffix_result(u@, i as int),
        decreases 5 - i,
    {
        let (suf, k) = suffixes[i];
        let sc = to_chars(suf);
        if chars_end_with(&uc, &sc) {
            let stripped = trim_end_matches_exec(&uc, &sc);
            let num = trim_chars(&stripped);
            return match parse_float_scaled(&num, k) {
                Some(v) => Ok(v),
                None => {
                    let mut m = string_from_str("Invalid size value: ");
                    push_str(&mut m, u.as_str());
                    Err(m)
                },
            };
        }
        i = i + 1;
    }
    let mut m = string_from_str("Invalid size format: ");
    push_str(&mut m, u.as_str());
    push_str(&mut m, ". Use e.g., 1024, 1KB, 10MB");
    Err(m)
}

/// `num / den` to two decimal places (`{:.2}`), the exact quotient rounded
/// to the nearest hundredth, ties to even.
pub open spec fn two_decimals(num: nat, den: nat) -> Seq<char> {
    let t = round_half_even(num * 100, den);
    decimal(t / 100) + seq!['.'] + seq![crate::text::digit_char((t / 10) % 10)] + seq![crate::text::digit_char(t % 10)]
}

/// `num / den` to two decimal places.
fn two_decimals_text(num: u64, den: u64) -> (r: String)
    requires
        den > 0,
    ensures
        r@ == two_decimals(num as nat, den as nat),
{
    let n100: u128 = (num as u128) * 100;
    let d: u128 = den as u128;
    let q: u128 = n100 / d;
    let rem: u128 = n100 % d;
    let t: u128 = if 2 * rem > d {
        q + 1
    } else if 2 * rem < d {
        q
    } else if q % 2 == 0 {
        q
    } else {
        q + 1
    };
    assert(t == round_half_even(num as nat * 100, den as nat));
    assert(q <= n100) by (nonlinear_arith)
        requires
            q == n100 / d,
            d >= 1,
    ;
    let whole: u64 = (t / 100) as u64;
    let tens: u32 = ((t / 10) % 10) as u32;
    let ones: u32 = (t % 10) as u32;
    let mut r = u64_to_string(whole);
    crate::text::push_char(&mut r, '.');
    crate::text::push_char(&mut r, crate::text::char_from_ascii(tens + 48));
    crate::text::push_char(&mut r, crate::text::char_from_ascii(ones + 48));
    r
}

/// A byte count as the cleanup commands show it: `B` below a kilobyte, else
/// KB, MB or GB to two decimals.
pub open spec fn bytes_text2(b: nat) -> Seq<char> {
    if b >= crate::report::gib() {
        two_decimals(b, crate::report::gib()) + " GB"@
    } else if b >= crate::report::mib() {
        two_decimals(b, crate::report::mib()) + " MB"@
    } else if b >= crate::report::kib() {
        two_decimals(b, crate::report::kib()) + " KB"@
    } else {
        decimal(b) + " B"@
    }
}

/// Format a byte count as the cleanup commands show it.
pub fn format_bytes(bytes: u64) -> (r: String)
    ensures
        r@ == bytes_text2(bytes as nat),
{
    let gb: u64 = 1024 * 1024 * 1024;
    let mb: u64 = 1024 * 1024;
    let kb: u64 = 1024;
    let (mut r, unit) = if bytes >= gb {
        (two_decimals_text(bytes, gb), " GB")
    } else if bytes >= mb {
        (two_decimals_text(bytes, mb), " MB")
    } else if bytes >= kb {
        (two_decimals_text(bytes, kb), " KB")
    } else {
        (u64_to_string(bytes), " B")
    };
    push_str(&mut r, unit);
    r
}

/// A cache file's size as `dupfinder cache info` shows it: `0 B`, bytes
/// below a kilobyte, else KB or MB to one decimal.
pub open spec fn cache_size_text(b: nat) -> Seq<char> {
    if b == 0 {
        "0 B"@
    } else if b >= crate::report::mib() {
        crate::report::one_decimal(b, crate::report::mib()) + " MB"@
    } else if b >= crate::report::kib() {
        crate::report::one_decimal(b, crate::report::kib()) + " KB"@
    } else {
        decimal(b) + " B"@
    }
}

/// Format a cache file's size.
pub fn format_cache_size(bytes: u64) -> (r: String)
    ensures
        r@ == cache_size_text(bytes as nat),
{
    if bytes == 0 {
        return string_from_str("0 B");
    }
    let mb: u64 = 1024 * 1024;
    let kb: u64 = 1024;
    let (mut r, unit) = if bytes >= mb {
        (crate::report::one_decimal_text(bytes, mb), " MB")
    } else if bytes >= kb {
        (crate::report::one_decimal_text(bytes, kb), " KB")
    } else {
        (u64_to_string(bytes), " B")
    };
    push_str(&mut r, unit);
    r
}

/// Cache management actions.
#[derive(Debug, Clone)]
pub enum CacheAction {
    /// Show cache statistics.
    Info { cache_dir: Option<String> },
    /// Delete all cached data.
    Clear { cache_dir: Option<String> },
}

/// Arguments for the `clean` subcommand.
#[derive(Debug, Clone)]
pub struct CleanArgs {
    pub paths: Vec<String>,
    pub interactive: bool,
    pub trash: bool,
    pub permanent: bool,
    pub dry_run: bool,
    pub clean_empty_files: bool,
    pub clean_empty_dirs: bool,
    pub include_hidden: bool,
    pub yes: bool,
    pub allow_root: bool,
    pub manifest: Option<String>,
    pub min_size: String,
    pub exclude: Vec<String>,
    pub exclude_dir: Vec<String>,
    pub exclude_preset: Option<String>,
    pub no_default_ignores: bool,
    pub ignore_files: Vec<String>,
    pub include_jars: bool,
    pub depth: Option<usize>,
    pub quiet: bool,
}

/// Arguments for the `ignore` subcommand.
#[derive(Debug, Clone)]
pub struct IgnoreArgs {
    pub action: IgnoreAction,
}

/// Ignore-file management actions.
#[derive(Debug, Clone, Copy, PartialEq, Eq, Structural)]
pub enum IgnoreAction {
    /// Show built-in default ignore categories, directories, and file patterns.
    ShowDefaults,
    /// Generate a starter `.dupignore` file.
    Init { global: bool, force: bool },
    /// Show the path to the global user ignore file.
    Path,
}

/// Arguments for the `scan` subcommand.
#[derive(Debug, Clone)]
pub struct ScanArgs {
    pub paths: Vec<String>,
    pub no_duplicates: bool,
    pub no_empty_files: bool,
    pub no_empty_dirs: bool,
    pub no_broken_links: bool,
    pub min_size: String,
    pub exclude: Vec<String>,
    pub exclude_dir: Vec<String>,
    pub include_hidden: bool,
    pub exclude_preset: Option<String>,
    pub no_default_ignores: bool,
    pub ignore_files: Vec<String>,
    pub include_jars: bool,
    pub no_global_ignore: bool,
    pub no_project_ignore: bool,
    pub depth: Option<usize>,
    pub output: Option<String>,
    pub format: String,
    pub quiet: bool,
    pub verbose: bool,
    pub no_cache: bool,
    pub cache_dir: Option<String>,
}

/// Arguments for the `tui` subcommand.
#[derive(Debug, Clone)]
pub struct TuiArgs {
    pub paths: Vec<String>,
    pub min_size: String,
    pub exclude: Vec<String>,
    pub exclude_dir: Vec<String>,
    pub include_hidden: bool,
    pub exclude_preset: Option<String>,
    pub no_default_ignores: bool,
    pub ignore_files: Vec<String>,
    pub include_jars: bool,
    pub depth: Option<usize>,
}

/// The preset a command uses: none when built-in ignores are off; else the
/// named one; else the default.
pub open spec fn preset_choice(no_default_ignores: bool, name: Option<Seq<char>>) -> Result<Option<IgnorePreset>, Seq<char>> {
    if no_default_ignores {
        Ok(None)
    } else {
        match name {
            Some(n) => match preset_named(lower_text(n)) {
                Some(p) => Ok(Some(p)),
                None => Err(
                    "Invalid preset: '"@ + n + "'. Valid presets: default, build, deps, jars, minimal, none"@,
                ),
            },
            None => Ok(Some(IgnorePreset::Default)),
        }
    }
}

/// The preset a command uses.
pub fn choose_preset(no_default_ignores: bool, name: &Option<String>) -> (r: Result<Option<IgnorePreset>, String>)
    ensures
        res_text(r) == preset_choice(no_default_ignores, crate::cache::opt_view(*name)),
{
    if no_default_ignores {
        return Ok(None);
    }
    match name {
        Some(n) => match IgnorePreset::from_str_name(n.as_str()) {
            Some(p) => Ok(Some(p)),
            None => {
                let mut m = string_from_str("Invalid preset: '");
                push_str(&mut m, n.as_str());
                push_str(&mut m, "'. Valid presets: default, build, deps, jars, minimal, none");
                Err(m)
            },
        },
        None => Ok(Some(IgnorePreset::Default)),
    }
}

/// Copies of a list of strings.
fn copy_strings(v: &Vec<String>) -> (r: Vec<String>)
    ensures
        r@ == v@,
{
    let mut r: Vec<String> = Vec::new();
    let mut i: usize = 0;
    while i < v.len()
        invariant
            i <= v@.len(),
            r@ == v@.take(i as int),
        decreases v@.len() - i,
    {
        r.push(v[i].clone());
        i = i + 1;
        assert(r@ =~= v@.take(i as int));
    }
    assert(v@.take(v@.len() as int) =~= v@);
    r
}

/// The scan configuration of `dupfinder scan`.
pub fn scan_config_from_args(args: &ScanArgs, min_size: u64, preset: Option<IgnorePreset>) -> (c: ScanConfig)
    ensures
        c.paths@ == args.paths@,
        c.features == (FeatureFlags {
            duplicates: !args.no_duplicates,
            empty_files: !args.no_empty_files,
            empty_dirs: !args.no_empty_dirs,
            broken_links: !args.no_broken_links,
        }),
        c.filters.min_size == min_size,
        c.filters.exclude_patterns@ == args.exclude@,
        c.filters.exclude_dirs@ == args.exclude_dir@,
        c.filters.preset == preset,
        c.filters.include_jars == args.include_jars,
        c.filters.use_global_ignore == !args.no_global_ignore,
        c.filters.use_project_ignore == !args.no_project_ignore,
        c.filters.custom_ignore_files@ == args.ignore_files@,
        c.cache_config.enabled == !args.no_cache,
        c.cache_config.cache_dir == args.cache_dir,
        c.max_depth == args.depth,
        c.include_hidden == args.include_hidden,
{
    ScanConfig {
        paths: copy_strings(&args.paths),
        features: FeatureFlags {
            duplicates: !args.no_duplicates,
            empty_files: !args.no_empty_files,
            empty_dirs: !args.no_empty_dirs,
            broken_links: !args.no_broken_links,
        },
        filters: FilterConfig {
            min_size,
            exclude_patterns: copy_strings(&args.exclude),
            exclude_dirs: copy_strings(&args.exclude_dir),
            preset,
            include_jars: args.include_jars,
            use_global_ignore: !args.no_global_ignore,
            use_project_ignore: !args.no_project_ignore,
            custom_ignore_files: copy_strings(&args.ignore_files),
        },
        cache_config: CacheConfig {
            enabled: !args.no_cache,
            cache_dir: match &args.cache_dir {
                Some(d) => Some(d.clone()),
                None => None,
            },
        },
        max_depth: args.depth,
        include_hidden: args.include_hidden,
    }
}

/// The deletion method of `dupfinder clean`: permanent when asked, else the trash.
pub fn deletion_method(args: &CleanArgs) -> (m: DeletionMethod)
    ensures
        m == (if args.permanent { DeletionMethod::Permanent } else { DeletionMethod::Trash }),
{
    if args.permanent {
        DeletionMethod::Permanent
    } else {
        DeletionMethod::Trash
    }
}

/// Whether `dupfinder clean` may run: not with elevated privileges unless
/// `--allow-root` was given.
pub fn clean_permitted(elevated: bool, args: &CleanArgs) -> (r: Result<(), String>)
    ensures
        r is Ok <==> (!elevated || args.allow_root),
        r matches Err(m) ==> m@ == "Execution blocked: running as root/administrator without --allow-root"@,
{
    if elevated && !args.allow_root {
        Err(string_from_str("Execution blocked: running as root/administrator without --allow-root"))
    } else {
        Ok(())
    }
}

/// Whether `dupfinder clean` asks before removing: not in a dry run, not
/// with `--yes`, and not after an interactive review.
pub fn asks_confirmation(args: &CleanArgs) -> (r: bool)
    ensures
        r == (!args.dry_run && !args.yes && !args.interactive),
{
    !args.dry_run && !args.yes && !args.interactive
}

/// Whether `dupfinder clean` reviews the plan interactively: when asked,
/// except in a dry run.
pub fn reviews_interactively(args: &CleanArgs) -> (r: bool)
    ensures
        r == (args.interactive && !args.dry_run),
{
    args.interactive && !args.dry_run
}

/// The scan configuration of `dupfinder clean`: duplicates always, empty
/// files and directories when they are to be cleaned, never broken links;
/// global and project ignore files on; the default cache.
pub fn clean_scan_config(args: &CleanArgs, min_size: u64, preset: Option<IgnorePreset>) -> (c: ScanConfig)
    ensures
        c.paths@ == args.paths@,
        c.features == (FeatureFlags {
            duplicates: true,
            empty_files: args.clean_empty_files,
            empty_dirs: args.clean_empty_dirs,
            broken_links: false,
        }),
        c.filters.min_size == min_size,
        c.filters.exclude_patterns@ == args.exclude@,
        c.filters.exclude_dirs@ == args.exclude_dir@,
        c.filters.preset == preset,
        c.filters.include_jars == args.include_jars,
        c.filters.use_global_ignore,
        c.filters.use_project_ignore,
        c.filters.custom_ignore_files@ == args.ignore_files@,
        c.cache_config.enabled,
        c.cache_config.cache_dir is None,
        c.max_depth == args.depth,
        c.include_hidden == args.include_hidden,
{
    ScanConfig {
        paths: copy_strings(&args.paths),
        features: FeatureFlags {
            duplicates: true,
            empty_files: args.clean_empty_files,
            empty_dirs: args.clean_empty_dirs,
            broken_links: false,
        },
        filters: FilterConfig {
            min_size,
            exclude_patterns: copy_strings(&args.exclude),
            exclude_dirs: copy_strings(&args.exclude_dir),
            preset,
            include_jars: args.include_jars,
            use_global_ignore: true,
            use_project_ignore: true,
            custom_ignore_files: copy_strings(&args.ignore_files),
        },
        cache_config: CacheConfig::default(),
        max_depth: args.depth,
        include_hidden: args.include_hidden,
    }
}

/// The cleanup options of `dupfinder clean`.
pub fn clean_options_from_args(args: &CleanArgs) -> (o: CleanOptions)
    ensures
        o.method == (if args.permanent { DeletionMethod::Permanent } else { DeletionMethod::Trash }),
        o.clean_empty_files == args.clean_empty_files,
        o.clean_empty_dirs == args.clean_empty_dirs,
        o.include_hidden == args.include_hidden,
        o.dry_run == args.dry_run,
{
    CleanOptions {
        method: deletion_method(args),
        clean_empty_files: args.clean_empty_files,
        clean_empty_dirs: args.clean_empty_dirs,
        include_hidden: args.include_hidden,
        dry_run: args.dry_run,
    }
}

/// The scan configuration of `dupfinder tui`: duplicates only; global and
/// project ignore files on; the default cache.
pub fn tui_scan_config(args: &TuiArgs, min_size: u64, preset: Option<IgnorePreset>) -> (c: ScanConfig)
    ensures
        c.paths@ == args.paths@,
        c.features == (FeatureFlags { duplicates: true, empty_files: false, empty_dirs: false, broken_links: false }),
        c.filters.min_size == min_size,
        c.filters.exclude_patterns@ == args.exclude@,
        c.filters.exclude_dirs@ == args.exclude_dir@,
        c.filters.preset == preset,
        c.filters.include_jars == args.include_jars,
        c.filters.use_global_ignore,
        c.filters.use_project_ignore,
        c.filters.custom_ignore_files@ == args.ignore_files@,
        c.cache_config.enabled,
        c.cache_config.cache_dir is None,
        c.max_depth == args.depth,
        c.include_hidden == args.include_hidden,
{
    ScanConfig {
        paths: copy_strings(&args.paths),
        features: FeatureFlags { duplicates: true, empty_files: false, empty_dirs: false, broken_links: false },
        filters: FilterConfig {
            min_size,
            exclude_patterns: copy_strings(&args.exclude),
            exclude_dirs: copy_strings(&args.exclude_dir),
            preset,
            include_jars: args.include_jars,
            use_global_ignore: true,
            use_project_ignore: true,
            custom_ignore_files: copy_strings(&args.ignore_files),
        },
        cache_config: CacheConfig::default(),
        max_depth: args.depth,
        include_hidden: args.include_hidden,
    }
}

/// The report format named by `--format`: `json`, or `text`/`txt`.
pub open spec fn format_choice(name: Seq<char>) -> Result<ReportFormat, Seq<char>> {
    let l = lower_text(name);
    if l == "json"@ {
        Ok(ReportFormat::Json)
    } else if l == "text"@ || l == "txt"@ {
        Ok(ReportFormat::Text)
    } else {
        Err("Unknown format: "@ + l + ". Use 'text' or 'json'"@)
    }
}

/// The report format named by `--format`.
pub fn report_format_from(name: &str) -> (r: Result<ReportFormat, String>)
    ensures
        res_text(r) == format_choice(name@),
{
    let l = to_lower(name);
    if str_eq_lit(&l, "json") {
        Ok(ReportFormat::Json)
    } else if str_eq_lit(&l, "text") || str_eq_lit(&l, "txt") {
        Ok(ReportFormat::Text)
    } else {
        let mut m = string_from_str("Unknown format: ");
        push_str(&mut m, l.as_str());
        push_str(&mut m, ". Use 'text' or 'json'");
        Err(m)
    }
}

/// Whether a string equals a literal.
fn str_eq_lit(s: &String, lit: &str) -> (r: bool)
    ensures
        r == (s@ == lit@),
{
    crate::text::str_eq(s.as_str(), lit)
}

/// A user's answer for one duplicate during interactive review.
#[derive(Debug, Clone, Copy, PartialEq, Eq, Structural)]
pub enum ReviewChoice {
    /// Keep the original and delete this duplicate (`k`, `y` or nothing).
    Keep,
    /// Delete this and every later duplicate without asking (`a`).
    ApplyAll,
    /// Stop reviewing; nothing later is done (`q`).
    Quit,
    /// Leave this duplicate alone (anything else).
    Skip,
}

/// The answer a line of input gives.
pub open spec fn choice_of(input: Seq<char>) -> ReviewChoice {
    let c = lower_text(trim(input));
    if c == "k"@ || c == "y"@ || c == ""@ {
        ReviewChoice::Keep
    } else if c == "a"@ {
        ReviewChoice::ApplyAll
    } else if c == "q"@ {
        ReviewChoice::Quit
    } else {
        ReviewChoice::Skip
    }
}

/// The answer a line of input gives.
pub fn review_choice(input: &str) -> (r: ReviewChoice)
    ensures
        r == choice_of(input@),
{
    let t = string_from_chars(&trim_chars(&to_chars(input)));
    let c = to_lower(t.as_str());
    if str_eq_lit(&c, "k") || str_eq_lit(&c, "y") || str_eq_lit(&c, "") {
        ReviewChoice::Keep
    } else if str_eq_lit(&c, "a") {
        ReviewChoice::ApplyAll
    } else if str_eq_lit(&c, "q") {
        ReviewChoice::Quit
    } else {
        ReviewChoice::Skip
    }
}

/// The progress of an interactive review of a plan.
pub struct ReviewState {
    /// The position of the next action of the plan.
    pub next: usize,
    /// The actions kept so far.
    pub approved: Vec<CleanAction>,
    /// Whether every later duplicate is kept without asking.
    pub apply_all: bool,
    /// Whether the user stopped the review.
    pub stopped: bool,
    /// The duplicates kept for deletion so far, and their bytes.
    pub total_files: usize,
    pub total_bytes: u64,
}

impl ReviewState {
    /// Whether this state is a review of a prefix of `plan`.
    pub open spec fn reviews(&self, plan: CleanPlan) -> bool {
        &&& plan.tallied()
        &&& self.next <= plan.actions@.len()
        &&& self.approved@.len() <= self.next
        &&& self.total_files <= self.next
        &&& self.total_bytes <= bytes_in(actions_view(plan.actions@.take(self.next as int)))
    }

    /// A review that has not started.
    pub fn start(plan: &CleanPlan) -> (s: ReviewState)
        requires
            plan.tallied(),
        ensures
            s.reviews(*plan),
            s.next == 0,
            s.approved@.len() == 0,
            !s.apply_all,
            !s.stopped,
            s.total_files == 0,
            s.total_bytes == 0,
    {
        assert(actions_view(plan.actions@.take(0)) =~= Seq::<ActionView>::empty());
        ReviewState { next: 0, approved: Vec::new(), apply_all: false, stopped: false, total_files: 0, total_bytes: 0 }
    }

    /// Whether the review is over: stopped, or every action seen.
    pub fn finished(&self, plan: &CleanPlan) -> (r: bool)
        ensures
            r == (self.stopped || self.next >= plan.actions@.len()),
    {
        self.stopped || self.next >= plan.actions.len()
    }

    /// Whether the user is asked about the next action: a duplicate's
    /// deletion, unless every later one was already approved.
    pub fn asks(&self, plan: &CleanPlan) -> (r: bool)
        ensures
            r == (!self.stopped && self.next < plan.actions@.len() && !self.apply_all
                && plan.actions@[self.next as int] is DeleteDuplicate),
    {
        if self.stopped || self.next >= plan.actions.len() || self.apply_all {
            return false;
        }
        match &plan.actions[self.next] {
            CleanAction::DeleteDuplicate { .. } => true,
            _ => false,
        }
    }

    /// Takes the next action of the plan with the user's answer (`None` when
    /// the user was not asked); returns the line to show, if any.
    pub fn review(&mut self, plan: &CleanPlan, choice: Option<ReviewChoice>) -> (msg: Option<String>)
        requires
            old(self).reviews(*plan),
            !old(self).stopped,
            old(self).next < plan.actions@.len(),
            choice is Some <==> (!old(self).apply_all && plan.actions@[old(self).next as int] is DeleteDuplicate),
        ensures
            final(self).reviews(*plan),
            ({
                let a = plan.actions@[old(self).next as int];
                let bytes = action_bytes(a@);
                let dup = a is DeleteDuplicate;
                let keep = old(self).apply_all || !dup || choice == Some(ReviewChoice::Keep) || choice == Some(
                    ReviewChoice::ApplyAll,
                );
                &&& final(self).next == old(self).next + 1
                &&& final(self).stopped == (choice == Some(ReviewChoice::Quit))
                &&& final(self).apply_all == (old(self).apply_all || choice == Some(ReviewChoice::ApplyAll))
                &&& keep ==> final(self).approved@ == old(self).approved@.push(a)
                &&& !keep ==> final(self).approved@ == old(self).approved@
                &&& final(self).total_files == old(self).total_files + (if keep && dup { 1int } else { 0int })
                &&& final(self).total_bytes == old(self).total_bytes + (if keep && dup { bytes } else { 0int })
                &&& (choice == Some(ReviewChoice::Quit) ==> (msg matches Some(m) && m@ == "Interactive review aborted."@))
                &&& (choice == Some(ReviewChoice::Skip) ==> (msg matches Some(m) && m@ == "Skipped duplicate: "@
                    + action_target(a@)))
                &&& (choice != Some(ReviewChoice::Quit) && choice != Some(ReviewChoice::Skip) ==> msg is None)
            }),
    {
        let i = self.next;
        let ghost s0 = actions_view(plan.actions@.take(i as int));
        let ghost s1 = actions_view(plan.actions@.take(i + 1));
        proof {
            assert(s1.drop_last() =~= s0);
            assert(s1.last() == plan.actions@[i as int]@);
            crate::clean::lemma_bytes_prefix(actions_view(plan.actions@), i + 1);
            assert(actions_view(plan.actions@).take(i + 1) =~= s1);
        }
        assert(plan.actions@.len() == plan.actions.len());
        let a = &plan.actions[i];
        self.next = i + 1;
        let is_dup = match a {
            CleanAction::DeleteDuplicate { .. } => true,
            _ => false,
        };
        let (chose_keep, chose_all, chose_quit) = match choice {
            Some(ReviewChoice::Keep) => (true, false, false),
            Some(ReviewChoice::ApplyAll) => (false, true, false),
            Some(ReviewChoice::Quit) => (false, false, true),
            _ => (false, false, false),
        };
        let keep = self.apply_all || !is_dup || chose_keep || chose_all;
        if chose_all {
            self.apply_all = true;
        }
        if keep {
            self.approved.push(a.clone_action());
            if is_dup {
                self.total_files = self.total_files + 1;
                self.total_bytes = self.total_bytes + a.reclaimable_bytes();
            }
            return None;
        }
        if chose_quit {
            self.stopped = true;
            return Some(string_from_str("Interactive review aborted."));
        }
        let mut m = string_from_str("Skipped duplicate: ");
        push_str(&mut m, a.target_path());
        Some(m)
    }

    /// The plan the review leaves: the kept actions, with the kept
    /// duplicates' count and bytes as the plan's totals to remove and
    /// reclaim; the other counts as they were.
    pub fn finish(self, plan: CleanPlan) -> (p: CleanPlan)
        ensures
            p.actions@ == self.approved@,
            p.total_files_to_remove == self.total_files,
            p.total_bytes_reclaimable == self.total_bytes,
            p.total_dirs_to_remove == plan.total_dirs_to_remove,
            p.blocked_count == plan.blocked_count,
            p.skipped_count == plan.skipped_count,
    {
        CleanPlan {
            actions: self.approved,
            total_files_to_remove: self.total_files,
            total_dirs_to_remove: plan.total_dirs_to_remove,
            total_bytes_reclaimable: self.total_bytes,
            blocked_count: plan.blocked_count,
            skipped_count: plan.skipped_count,
        }
    }
}

} // verus!
