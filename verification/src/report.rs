//! Human-readable reports.
//!
//! Numbers are shown as `format!` shows them: integers in decimal, with
//! thousands separators where asked for, and fractions (sizes in KB, MB, GB,
//! durations, percentages) to one decimal, the exact quotient rounded to the
//! nearest tenth, ties to even.

use vstd::prelude::*;
use crate::cache::opt_view;
use crate::errors::{DupfinderError, ErrorView};
use crate::ignore::string_views;
use crate::types::{BrokenSymlink, DuplicateGroup, DuplicateReport, FileEntry, ScanReport};
use crate::text::{char_from_ascii, decimal, digit_char, push_char, push_str, string_from_str, u64_to_string};

verus! {

/// Output format for reports.
#[derive(Debug, Clone, Copy, PartialEq, Eq, Structural)]
pub enum ReportFormat {
    Text,
    Json,
}

/// The three digits of `n < 1000`, with leading zeros.
pub open spec fn pad3(n: nat) -> Seq<char> {
    seq![digit_char(n / 100), digit_char((n / 10) % 10), digit_char(n % 10)]
}

/// `n` in decimal with a `,` between groups of three digits.
pub open spec fn grouped_decimal(n: nat) -> Seq<char>
    decreases n,
{
    if n < 1000 {
        decimal(n)
    } else {
        grouped_decimal(n / 1000) + seq![','] + pad3(n % 1000)
    }
}

/// The decimal digit `d < 10`.
fn digit(d: u64) -> (c: char)
    requires
        d < 10,
    ensures
        c == digit_char(d as nat),
{
    char_from_ascii((d + 48) as u32)
}

/// Format a number with thousands separators.
pub fn format_number(n: u64) -> (r: String)
    ensures
        r@ == grouped_decimal(n as nat),
    decreases n,
{
    if n < 1000 {
        u64_to_string(n)
    } else {
        let mut r = format_number(n / 1000);
        let low = n % 1000;
        push_char(&mut r, ',');
        push_char(&mut r, digit(low / 100));
        push_char(&mut r, digit((low / 10) % 10));
        push_char(&mut r, digit(low % 10));
        assert(r@ =~= grouped_decimal(n as nat));
        r
    }
}

/// `num / den` rounded to the nearest integer, ties to the even one.
pub open spec fn round_half_even(num: nat, den: nat) -> nat
    recommends
        den > 0,
{
    let q = num / den;
    let r = num % den;
    if 2 * r > den {
        q + 1
    } else if 2 * r < den {
        q
    } else if q % 2 == 0 {
        q
    } else {
        q + 1
    }
}

/// `num / den` to one decimal place (`{:.1}`).
pub open spec fn one_decimal(num: nat, den: nat) -> Seq<char> {
    let t = round_half_even(num * 10, den);
    decimal(t / 10) + seq!['.'] + seq![digit_char(t % 10)]
}

/// `num / den` to one decimal place.
pub fn one_decimal_text(num: u64, den: u64) -> (r: String)
    requires
        den > 0,
    ensures
        r@ == one_decimal(num as nat, den as nat),
{
    let n10: u128 = (num as u128) * 10;
    let d: u128 = den as u128;
    let q: u128 = n10 / d;
    let rem: u128 = n10 % d;
    let t: u128 = if 2 * rem > d {
        q + 1
    } else if 2 * rem < d {
        q
    } else if q % 2 == 0 {
        q
    } else {
        q + 1
    };
    assert(t == round_half_even(num as nat * 10, den as nat));
    assert(q <= n10) by (nonlinear_arith)
        requires
            q == n10 / d,
            d >= 1,
    ;
    let whole: u64 = (t / 10) as u64;
    let frac: u64 = (t % 10) as u64;
    let mut r = u64_to_string(whole);
    push_char(&mut r, '.');
    push_char(&mut r, digit(frac));
    r
}

/// The kibibyte, mebibyte and gibibyte.
pub open spec fn kib() -> nat {
    1024
}

pub open spec fn mib() -> nat {
    1024 * 1024
}

pub open spec fn gib() -> nat {
    1024 * 1024 * 1024
}

/// A byte count as text: `B` below a kilobyte, else KB, MB or GB to one decimal.
pub open spec fn bytes_text(b: nat) -> Seq<char> {
    if b >= gib() {
        one_decimal(b, gib()) + " GB"@
    } else if b >= mib() {
        one_decimal(b, mib()) + " MB"@
    } else if b >= kib() {
        one_decimal(b, kib()) + " KB"@
    } else {
        decimal(b) + " B"@
    }
}

/// Format a byte count as a human-readable string.
pub fn format_bytes(bytes: u64) -> (r: String)
    ensures
        r@ == bytes_text(bytes as nat),
{
    let gb: u64 = 1024 * 1024 * 1024;
    let mb: u64 = 1024 * 1024;
    let kb: u64 = 1024;
    let (mut r, unit) = if bytes >= gb {
        (one_decimal_text(bytes, gb), " GB")
    } else if bytes >= mb {
        (one_decimal_text(bytes, mb), " MB")
    } else if bytes >= kb {
        (one_decimal_text(bytes, kb), " KB")
    } else {
        (u64_to_string(bytes), " B")
    };
    push_str(&mut r, unit);
    r
}

/// The UTC calendar date (`%Y-%m-%d`) of the instant `secs` seconds and
/// `nsecs` nanoseconds after the Unix epoch, as chrono writes it; `None`
/// when chrono cannot represent the instant.
pub uninterp spec fn utc_date_text(secs: i64, nsecs: u32) -> Option<Seq<char>>;

/// `chrono::DateTime::<Utc>::from_timestamp(secs, nsecs)`, formatted with
/// `%Y-%m-%d`. Claimed: the result is the named `utc_date_text` of the
/// arguments (chrono's calendar is not restated here).
#[verifier::external_body]
fn utc_date(secs: i64, nsecs: u32) -> (r: Option<String>)
    ensures
        opt_view(r) == utc_date_text(secs, nsecs),
{
    match chrono::DateTime::from_timestamp(secs, nsecs) {
        Some(d) => Some(d.format("%Y-%m-%d").to_string()),
        None => None,
    }
}

/// The date of a modification time (nanoseconds since the epoch): whole
/// seconds rounded down and the nanoseconds past them, as `SystemTime`
/// converts to chrono's `DateTime<Utc>`.
pub open spec fn mtime_date(mtime: i128) -> Option<Seq<char>> {
    let secs = mtime / 1_000_000_000;
    if i64::MIN <= secs <= i64::MAX {
        utc_date_text(secs as i64, (mtime % 1_000_000_000) as u32)
    } else {
        None
    }
}

/// Format a modification time as a date string, when it can be dated.
pub fn format_mtime(mtime: i128) -> (r: Option<String>)
    ensures
        opt_view(r) == mtime_date(mtime),
{
    let q0: i128 = mtime / 1_000_000_000;
    let r0: i128 = mtime % 1_000_000_000;
    let (secs, nsecs): (i128, i128) = if r0 < 0 {
        (q0 - 1, r0 + 1_000_000_000)
    } else {
        (q0, r0)
    };
    assert(mtime == secs * 1_000_000_000 + nsecs && 0 <= nsecs < 1_000_000_000);
    assert(secs == mtime / 1_000_000_000 && nsecs == mtime % 1_000_000_000);
    if secs < -9223372036854775808i128 || secs > 9223372036854775807i128 {
        return None;
    }
    utc_date(secs as i64, nsecs as u32)
}

/// The number of bytes of a character in UTF-8.
pub open spec fn utf8_width(c: char) -> nat {
    let u = c as u32;
    if u < 0x80 {
        1
    } else if u < 0x800 {
        2
    } else if u < 0x10000 {
        3
    } else {
        4
    }
}

/// The number of bytes of a text in UTF-8.
pub open spec fn utf8_len(s: Seq<char>) -> nat
    decreases s.len(),
{
    if s.len() == 0 {
        0
    } else {
        utf8_len(s.drop_last()) + utf8_width(s.last())
    }
}

/// Whether the first `n` bytes of `s` end at a character boundary (slicing
/// `s[..n]` panics otherwise); always so when `s` has at most `n` bytes.
pub open spec fn byte_prefix_ok(s: Seq<char>, n: nat) -> bool {
    utf8_len(s) <= n || exists|k: int| 0 <= k <= s.len() && #[trigger] utf8_len(s.take(k)) == n
}

/// The characters of `s[..min(n, s.len())]`.
pub open spec fn byte_prefix(s: Seq<char>, n: nat) -> Seq<char> {
    if utf8_len(s) <= n {
        s
    } else {
        s.take(choose|k: int| 0 <= k <= s.len() && #[trigger] utf8_len(s.take(k)) == n)
    }
}

proof fn lemma_utf8_len_take_mono(s: Seq<char>, a: int, b: int)
    requires
        0 <= a < b <= s.len(),
    ensures
        utf8_len(s.take(a)) < utf8_len(s.take(b)),
    decreases b - a,
{
    assert(s.take(b).drop_last() =~= s.take(b - 1));
    if a < b - 1 {
        lemma_utf8_len_take_mono(s, a, b - 1);
    }
}

/// The UTF-8 width of a character.
fn char_width(c: char) -> (r: usize)
    ensures
        r == utf8_width(c),
{
    let u = c as u32;
    if u < 0x80 {
        1
    } else if u < 0x800 {
        2
    } else if u < 0x10000 {
        3
    } else {
        4
    }
}

/// `&s[..min(n, s.len())]`, as characters.
pub fn byte_prefix_text(s: &str, n: usize) -> (r: String)
    requires
        byte_prefix_ok(s@, n as nat),
    ensures
        r@ == byte_prefix(s@, n as nat),
{
    let cs = crate::text::to_chars(s);
    let mut out: Vec<char> = Vec::new();
    let mut used: usize = 0;
    let mut k: usize = 0;
    while k < cs.len() && used < n
        invariant
            cs@ == s@,
            k <= cs@.len(),
            used == utf8_len(cs@.take(k as int)),
            used <= n,
            out@ == cs@.take(k as int),
            byte_prefix_ok(s@, n as nat),
        decreases cs@.len() - k,
    {
        let w = char_width(cs[k]);
        proof {
            assert(cs@.take(k + 1).drop_last() =~= cs@.take(k as int));
            assert(cs@.take(k + 1).last() == cs@[k as int]);
            if used + w > n {
                // the n-th byte would fall inside this character
                if utf8_len(s@) > n {
                    let j = choose|j: int| 0 <= j <= s@.len() && #[trigger] utf8_len(s@.take(j)) == n;
                    if j <= k {
                        if j < k {
                            lemma_utf8_len_take_mono(s@, j, k as int);
                        }
                    } else {
                        if j > k + 1 {
                            lemma_utf8_len_take_mono(s@, k + 1, j);
                        }
                    }
                } else {
                    assert(s@.take(s@.len() as int) =~= s@);
                    if k + 1 < s@.len() {
                        lemma_utf8_len_take_mono(s@, k + 1, s@.len() as int);
                    }
                }
            }
        }
        used = used + w;
        out.push(cs[k]);
        assert(out@ =~= cs@.take(k + 1));
        k = k + 1;
    }
    proof {
        if utf8_len(s@) <= n {
            if k < cs@.len() {
                assert(s@.take(s@.len() as int) =~= s@);
                lemma_utf8_len_take_mono(s@, k as int, s@.len() as int);
            }
            assert(cs@.take(k as int) =~= s@);
        } else {
            if k == cs@.len() {
                assert(cs@.take(k as int) =~= s@);
            }
            let j = choose|j: int| 0 <= j <= s@.len() && #[trigger] utf8_len(s@.take(j)) == n;
            if j < k {
                lemma_utf8_len_take_mono(s@, j, k as int);
            } else if j > k {
                lemma_utf8_len_take_mono(s@, k as int, j);
            }
        }
    }
    crate::text::string_from_chars(&out)
}

/// `s` right-aligned in a field of `w` characters (`{:>w}`).
pub open spec fn pad_left(s: Seq<char>, w: nat) -> Seq<char> {
    if s.len() < w {
        Seq::new((w - s.len()) as nat, |i: int| ' ') + s
    } else {
        s
    }
}

/// Appends `s` right-aligned in a field of `w` characters.
fn push_padded(out: &mut String, s: &str, w: usize)
    ensures
        final(out)@ == old(out)@ + pad_left(s@, w as nat),
{
    let cs = crate::text::to_chars(s);
    let ghost start = out@;
    if cs.len() < w {
        let mut i: usize = 0;
        while i < w - cs.len()
            invariant
                cs@ == s@,
                cs@.len() < w,
                i <= w - cs@.len(),
                out@ == start + Seq::new(i as nat, |j: int| ' '),
            decreases w - cs@.len() - i,
        {
            push_char(out, ' ');
            i = i + 1;
            assert(out@ =~= start + Seq::new(i as nat, |j: int| ' '));
        }
    }
    push_str(out, s);
    assert(out@ =~= start + pad_left(s@, w as nat));
}

/// `c` repeated `n` times.
pub open spec fn repeat_char(c: char, n: nat) -> Seq<char> {
    Seq::new(n, |i: int| c)
}

/// Appends `c` `n` times.
fn push_repeat(out: &mut String, c: char, n: usize)
    ensures
        final(out)@ == old(out)@ + repeat_char(c, n as nat),
{
    let ghost start = out@;
    let mut i: usize = 0;
    while i < n
        invariant
            i <= n,
            out@ == start + repeat_char(c, i as nat),
        decreases n - i,
    {
        push_char(out, c);
        i = i + 1;
        assert(out@ =~= start + repeat_char(c, i as nat));
    }
}

/// `part / total` as a percentage to one decimal.
pub fn percent_text(part: u64, total: u64) -> (r: String)
    requires
        0 < total,
        part <= total,
    ensures
        r@ == one_decimal(part as nat * 100, total as nat),
{
    let n10: u128 = (part as u128) * 1000;
    let d: u128 = total as u128;
    let q: u128 = n10 / d;
    let rem: u128 = n10 % d;
    assert(q <= 1000) by (nonlinear_arith)
        requires
            q == n10 / d,
            n10 == part * 1000,
            part <= d,
            d >= 1,
    ;
    let t: u128 = if 2 * rem > d {
        q + 1
    } else if 2 * rem < d {
        q
    } else if q % 2 == 0 {
        q
    } else {
        q + 1
    };
    assert((part as nat * 100) * 10 == n10);
    assert(t == round_half_even(part as nat * 100 * 10, total as nat));
    let whole: u64 = (t / 10) as u64;
    let frac: u64 = (t % 10) as u64;
    let mut r = u64_to_string(whole);
    push_char(&mut r, '.');
    push_char(&mut r, digit(frac));
    r
}

/// A line break.
pub open spec fn nl() -> Seq<char> {
    seq!['\n']
}

/// The heavy rule that frames a report.
pub open spec fn heavy_rule() -> Seq<char> {
    repeat_char('═', 65)
}

/// The light rule after a section title.
pub open spec fn light_rule() -> Seq<char> {
    repeat_char('─', 65)
}

/// `one` for a count of one, else `many`.
pub open spec fn plural(n: nat, one: Seq<char>, many: Seq<char>) -> Seq<char> {
    if n == 1 {
        one
    } else {
        many
    }
}

/// The texts joined with `sep` between them.
pub open spec fn joined(ps: Seq<Seq<char>>, sep: Seq<char>) -> Seq<char>
    decreases ps.len(),
{
    if ps.len() == 0 {
        Seq::empty()
    } else if ps.len() == 1 {
        ps[0]
    } else {
        joined(ps.drop_last(), sep) + sep + ps.last()
    }
}

/// The report's header: version, scanned paths, date and duration.
pub open spec fn header_text(r: ScanReport) -> Seq<char> {
    heavy_rule() + nl() + "  dupfinder v"@ + r.version@ + " — Scan Report"@ + nl() + "  Scanned: "@ + joined(
        string_views(r.scan_info.paths@),
        ", "@,
    ) + nl() + "  Date: "@ + r.scan_info.timestamp@ + nl() + "  Duration: "@ + one_decimal(
        r.scan_info.duration_nanos as nat,
        1_000_000_000,
    ) + "s"@ + nl() + heavy_rule() + nl() + nl()
}

/// A file's line: the label, its path and its modification date.
pub open spec fn entry_line(label: Seq<char>, e: FileEntry) -> Seq<char> {
    label + e.path@ + "  ("@ + mtime_date(e.mtime)->0 + ")"@ + nl()
}

/// The lines of a group's duplicates.
pub open spec fn duplicate_lines(ds: Seq<FileEntry>) -> Seq<char>
    decreases ds.len(),
{
    if ds.len() == 0 {
        Seq::empty()
    } else {
        duplicate_lines(ds.drop_last()) + entry_line("    [DUPLICATE] "@, ds.last())
    }
}

/// The block of the `i`-th group (counted from 0).
pub open spec fn group_text(i: nat, g: DuplicateGroup) -> Seq<char> {
    "  Group "@ + decimal(i + 1) + " — "@ + decimal(g.duplicates@.len() + 1) + " files, "@ + bytes_text(
        g.size as nat,
    ) + " each (BLAKE3: "@ + byte_prefix(g.hash@, 12) + "…)"@ + nl() + entry_line("    [ORIGINAL]  "@, g.original)
        + duplicate_lines(g.duplicates@) + nl()
}

/// The blocks of the groups, in order.
pub open spec fn groups_text(gs: Seq<DuplicateGroup>) -> Seq<char>
    decreases gs.len(),
{
    if gs.len() == 0 {
        Seq::empty()
    } else {
        groups_text(gs.drop_last()) + group_text((gs.len() - 1) as nat, gs.last())
    }
}

/// The duplicates section.
pub open spec fn duplicates_section(d: DuplicateReport) -> Seq<char> {
    "── Duplicate Files "@ + light_rule() + nl() + if d.groups@.len() > 0 {
        "  Found "@ + decimal(d.total_groups as nat) + " duplicate group"@ + plural(d.total_groups as nat, ""@, "s"@)
            + " ("@ + decimal(d.total_redundant_files as nat) + " redundant file"@ + plural(
            d.total_redundant_files as nat,
            ""@,
            "s"@,
        ) + ", "@ + bytes_text(d.reclaimable_bytes as nat) + " reclaimable)"@ + nl() + nl() + groups_text(d.groups@)
    } else {
        "  No duplicates found."@ + nl() + nl()
    }
}

/// One indented line per path, each followed by `suffix`.
pub open spec fn path_lines(ps: Seq<Seq<char>>, suffix: Seq<char>) -> Seq<char>
    decreases ps.len(),
{
    if ps.len() == 0 {
        Seq::empty()
    } else {
        path_lines(ps.drop_last(), suffix) + "    "@ + ps.last() + suffix + nl()
    }
}

/// The empty files section (nothing when there are none).
pub open spec fn empty_files_section(r: ScanReport) -> Seq<char> {
    let n = r.empty_files@.len();
    if n == 0 {
        Seq::empty()
    } else {
        "── Empty Files "@ + light_rule() + nl() + "  Found "@ + decimal(n) + " empty file"@ + plural(n, ""@, "s"@)
            + nl() + nl() + path_lines(string_views(r.empty_files@), ""@) + nl()
    }
}

/// The empty directories section (nothing when there are none).
pub open spec fn empty_dirs_section(r: ScanReport) -> Seq<char> {
    let n = r.empty_dirs@.len();
    if n == 0 {
        Seq::empty()
    } else {
        "── Empty Directories "@ + light_rule() + nl() + "  Found "@ + decimal(n) + " empty director"@ + plural(
            n,
            "y"@,
            "ies"@,
        ) + nl() + nl() + path_lines(string_views(r.empty_dirs@), "/"@) + nl()
    }
}

/// One line per broken link.
pub open spec fn link_lines(ls: Seq<BrokenSymlink>) -> Seq<char>
    decreases ls.len(),
{
    if ls.len() == 0 {
        Seq::empty()
    } else {
        link_lines(ls.drop_last()) + "    "@ + ls.last().link_path@ + " → "@ + ls.last().target_path@
            + " (target missing)"@ + nl()
    }
}

/// The broken links section (nothing when there are none).
pub open spec fn broken_links_section(r: ScanReport) -> Seq<char> {
    let n = r.broken_symlinks@.len();
    if n == 0 {
        Seq::empty()
    } else {
        "── Broken Symbolic Links "@ + light_rule() + nl() + "  Found "@ + decimal(n) + " broken symbolic link"@
            + plural(n, ""@, "s"@) + nl() + nl() + link_lines(r.broken_symlinks@) + nl()
    }
}

/// The summary section and the closing rule.
pub open spec fn summary_section(r: ScanReport) -> Seq<char> {
    let d = r.duplicates;
    let hits = r.cache_stats.hits as nat;
    let total = hits + r.cache_stats.misses as nat;
    "── Summary "@ + light_rule() + nl() + "  Scanned:          "@ + pad_left(
        grouped_decimal(r.scan_info.files_scanned as nat),
        8,
    ) + " files in "@ + grouped_decimal(r.scan_info.dirs_scanned as nat) + " directories"@ + nl() + (if d.total_groups
        > 0 {
        "  Duplicates:       "@ + decimal(d.total_groups as nat) + " group"@ + plural(d.total_groups as nat, ""@, "s"@)
            + " ("@ + decimal(d.total_redundant_files as nat) + " redundant, "@ + bytes_text(d.reclaimable_bytes as nat)
            + " reclaimable)"@ + nl()
    } else {
        "  Duplicates:       None"@ + nl()
    }) + "  Empty files:      "@ + decimal(r.empty_files@.len()) + nl() + "  Empty dirs:       "@ + decimal(
        r.empty_dirs@.len(),
    ) + nl() + "  Broken symlinks:  "@ + decimal(r.broken_symlinks@.len()) + nl() + (if total > 0 {
        "  Cache hits:       "@ + grouped_decimal(hits) + " / "@ + grouped_decimal(total) + " ("@ + one_decimal(
            hits * 100,
            total,
        ) + "%)"@ + nl()
    } else {
        Seq::empty()
    }) + heavy_rule() + nl()
}

/// The human-readable text report.
pub open spec fn text_report(r: ScanReport) -> Seq<char> {
    header_text(r) + duplicates_section(r.duplicates) + empty_files_section(r) + empty_dirs_section(r)
        + broken_links_section(r) + summary_section(r)
}

/// Whether every file of the group has a modification date.
pub open spec fn group_dated(g: DuplicateGroup) -> bool {
    &&& mtime_date(g.original.mtime) is Some
    &&& forall|k: int| 0 <= k < g.duplicates@.len() ==> (#[trigger] mtime_date(g.duplicates@[k].mtime)) is Some
}

/// Whether the report can be written out without a panic: every file's
/// modification time can be dated, every hash can be cut after its twelfth
/// byte, no group count overflows, and the cache counts add up within `u64`.
pub open spec fn renderable(r: ScanReport) -> bool {
    let gs = r.duplicates.groups@;
    &&& forall|g: int| 0 <= g < gs.len() ==> group_dated(#[trigger] gs[g])
    &&& forall|g: int| 0 <= g < gs.len() ==> byte_prefix_ok((#[trigger] gs[g]).hash@, 12)
    &&& forall|g: int| 0 <= g < gs.len() ==> (#[trigger] gs[g]).duplicates@.len() < usize::MAX
    &&& r.cache_stats.hits + r.cache_stats.misses <= u64::MAX
}

/// Appends the decimal text of a count.
fn push_count(out: &mut String, n: usize)
    ensures
        final(out)@ == old(out)@ + decimal(n as nat),
{
    let t = u64_to_string(n as u64);
    push_str(out, t.as_str());
}

/// Appends a file's line.
fn push_entry_line(out: &mut String, label: &str, e: &FileEntry)
    requires
        mtime_date(e.mtime) is Some,
    ensures
        final(out)@ == old(out)@ + entry_line(label@, *e),
{
    let ghost start = out@;
    push_str(out, label);
    push_str(out, e.path.as_str());
    push_str(out, "  (");
    match format_mtime(e.mtime) {
        Some(d) => push_str(out, d.as_str()),
        None => {},
    }
    push_str(out, ")\n");
    proof {
        reveal_strlit(")\n");
        assert(")\n"@ =~= ")"@ + nl()) by {
            reveal_strlit(")");
        }
    }
    assert(out@ =~= start + entry_line(label@, *e));
}

/// Appends the header.
fn push_header(out: &mut String, r: &ScanReport)
    ensures
        final(out)@ == old(out)@ + header_text(*r),
{
    let ghost start = out@;
    push_repeat(out, '═', 65);
    push_char(out, '\n');
    push_str(out, "  dupfinder v");
    push_str(out, r.version.as_str());
    push_str(out, " — Scan Report");
    push_char(out, '\n');
    push_str(out, "  Scanned: ");
    let paths = &r.scan_info.paths;
    let ghost mid = out@;
    let mut i: usize = 0;
    while i < paths.len()
        invariant
            i <= paths@.len(),
            out@ == mid + joined(string_views(paths@.take(i as int)), ", "@),
        decreases paths@.len() - i,
    {
        let ghost before = out@;
        if i > 0 {
            push_str(out, ", ");
        }
        push_str(out, paths[i].as_str());
        proof {
            let v = string_views(paths@.take(i + 1));
            assert(v.drop_last() =~= string_views(paths@.take(i as int)));
            assert(v.last() == paths@[i as int]@);
            if i == 0 {
                assert(v.len() == 1);
            }
        }
        i = i + 1;
    }
    assert(paths@.take(i as int) =~= paths@);
    push_char(out, '\n');
    push_str(out, "  Date: ");
    push_str(out, r.scan_info.timestamp.as_str());
    push_char(out, '\n');
    push_str(out, "  Duration: ");
    let dur = one_decimal_text(r.scan_info.duration_nanos, 1_000_000_000);
    push_str(out, dur.as_str());
    push_char(out, 's');
    push_char(out, '\n');
    push_repeat(out, '═', 65);
    push_char(out, '\n');
    push_char(out, '\n');
    proof {
        reveal_strlit("s");
        assert("s"@ =~= seq!['s']);
    }
    assert(out@ =~= start + header_text(*r));
}

/// The lines of a group's duplicates.
fn duplicate_lines_text(ds: &Vec<FileEntry>) -> (t: String)
    requires
        forall|k: int| 0 <= k < ds@.len() ==> (#[trigger] mtime_date(ds@[k].mtime)) is Some,
    ensures
        t@ == duplicate_lines(ds@),
{
    let mut t = String::new();
    let mut k: usize = 0;
    while k < ds.len()
        invariant
            k <= ds@.len(),
            forall|k: int| 0 <= k < ds@.len() ==> (#[trigger] mtime_date(ds@[k].mtime)) is Some,
            t@ == duplicate_lines(ds@.take(k as int)),
        decreases ds@.len() - k,
    {
        assert(mtime_date(ds@[k as int].mtime) is Some);
        push_entry_line(&mut t, "    [DUPLICATE] ", &ds[k]);
        assert(ds@.take(k + 1).drop_last() =~= ds@.take(k as int));
        assert(ds@.take(k + 1).last() == ds@[k as int]);
        k = k + 1;
    }
    assert(ds@.take(k as int) =~= ds@);
    t
}

/// The decimal text of a count.
fn count_text(n: usize) -> (t: String)
    ensures
        t@ == decimal(n as nat),
{
    u64_to_string(n as u64)
}

/// The block of the `i`-th group.
fn group_block(i: usize, g: &DuplicateGroup) -> (t: String)
    requires
        i < usize::MAX,
        group_dated(*g),
        byte_prefix_ok(g.hash@, 12),
        g.duplicates@.len() < usize::MAX,
    ensures
        t@ == group_text(i as nat, *g),
{
    let mut t = String::new();
    push_str(&mut t, "  Group ");
    assert(t@ =~= "  Group "@);
    push_str(&mut t, count_text(i + 1).as_str());
    push_str(&mut t, " — ");
    push_str(&mut t, count_text(g.duplicates.len() + 1).as_str());
    push_str(&mut t, " files, ");
    push_str(&mut t, format_bytes(g.size).as_str());
    push_str(&mut t, " each (BLAKE3: ");
    push_str(&mut t, byte_prefix_text(g.hash.as_str(), 12).as_str());
    push_str(&mut t, "…)");
    push_char(&mut t, '\n');
    push_entry_line(&mut t, "    [ORIGINAL]  ", &g.original);
    let d = duplicate_lines_text(&g.duplicates);
    push_str(&mut t, d.as_str());
    push_char(&mut t, '\n');
    t
}

/// The blocks of all groups.
fn groups_block(gs: &Vec<DuplicateGroup>) -> (t: String)
    requires
        forall|g: int| 0 <= g < gs@.len() ==> group_dated(#[trigger] gs@[g]),
        forall|g: int| 0 <= g < gs@.len() ==> byte_prefix_ok((#[trigger] gs@[g]).hash@, 12),
        forall|g: int| 0 <= g < gs@.len() ==> (#[trigger] gs@[g]).duplicates@.len() < usize::MAX,
    ensures
        t@ == groups_text(gs@),
{
    let mut t = String::new();
    let mut i: usize = 0;
    while i < gs.len()
        invariant
            i <= gs@.len(),
            forall|g: int| 0 <= g < gs@.len() ==> group_dated(#[trigger] gs@[g]),
            forall|g: int| 0 <= g < gs@.len() ==> byte_prefix_ok((#[trigger] gs@[g]).hash@, 12),
            forall|g: int| 0 <= g < gs@.len() ==> (#[trigger] gs@[g]).duplicates@.len() < usize::MAX,
            t@ == groups_text(gs@.take(i as int)),
        decreases gs@.len() - i,
    {
        assert(group_dated(gs@[i as int]));
        assert(byte_prefix_ok(gs@[i as int].hash@, 12));
        assert(gs@[i as int].duplicates@.len() < usize::MAX);
        let b = group_block(i, &gs[i]);
        push_str(&mut t, b.as_str());
        assert(gs@.take(i + 1).drop_last() =~= gs@.take(i as int));
        assert(gs@.take(i + 1).last() == gs@[i as int]);
        i = i + 1;
    }
    assert(gs@.take(i as int) =~= gs@);
    t
}

/// `""` for a count of one, else `"s"`.
fn plural_s(n: usize) -> (t: &'static str)
    ensures
        t@ == plural(n as nat, ""@, "s"@),
{
    if n == 1 {
        ""
    } else {
        "s"
    }
}

/// Appends the duplicates section.
fn push_duplicates_section(out: &mut String, d: &DuplicateReport)
    requires
        forall|g: int| 0 <= g < d.groups@.len() ==> group_dated(#[trigger] d.groups@[g]),
        forall|g: int| 0 <= g < d.groups@.len() ==> byte_prefix_ok((#[trigger] d.groups@[g]).hash@, 12),
        forall|g: int| 0 <= g < d.groups@.len() ==> (#[trigger] d.groups@[g]).duplicates@.len() < usize::MAX,
    ensures
        final(out)@ == old(out)@ + duplicates_section(*d),
{
    let mut body = String::new();
    if d.groups.len() > 0 {
        push_str(&mut body, "  Found ");
        assert(body@ =~= "  Found "@);
        push_str(&mut body, count_text(d.total_groups).as_str());
        push_str(&mut body, " duplicate group");
        push_str(&mut body, plural_s(d.total_groups));
        push_str(&mut body, " (");
        push_str(&mut body, count_text(d.total_redundant_files).as_str());
        push_str(&mut body, " redundant file");
        push_str(&mut body, plural_s(d.total_redundant_files));
        push_str(&mut body, ", ");
        push_str(&mut body, format_bytes(d.reclaimable_bytes).as_str());
        push_str(&mut body, " reclaimable)");
        push_char(&mut body, '\n');
        push_char(&mut body, '\n');
        let gb = groups_block(&d.groups);
        push_str(&mut body, gb.as_str());
    } else {
        push_str(&mut body, "  No duplicates found.");
        assert(body@ =~= "  No duplicates found."@);
        push_char(&mut body, '\n');
        push_char(&mut body, '\n');
    }
    let mut t = String::new();
    push_str(&mut t, "── Duplicate Files ");
    assert(t@ =~= "── Duplicate Files "@);
    push_repeat(&mut t, '─', 65);
    push_char(&mut t, '\n');
    push_str(&mut t, body.as_str());
    push_str(out, t.as_str());
}

/// Appends one indented line per path, each followed by `suffix`.
fn push_path_lines(out: &mut String, ps: &Vec<String>, suffix: &str)
    ensures
        final(out)@ == old(out)@ + path_lines(string_views(ps@), suffix@),
{
    let ghost start = out@;
    let mut i: usize = 0;
    while i < ps.len()
        invariant
            i <= ps@.len(),
            out@ == start + path_lines(string_views(ps@.take(i as int)), suffix@),
        decreases ps@.len() - i,
    {
        push_str(out, "    ");
        push_str(out, ps[i].as_str());
        push_str(out, suffix);
        push_char(out, '\n');
        proof {
            let v = string_views(ps@.take(i + 1));
            assert(v.drop_last() =~= string_views(ps@.take(i as int)));
            assert(v.last() == ps@[i as int]@);
        }
        i = i + 1;
    }
    assert(ps@.take(i as int) =~= ps@);
}

/// Appends the empty files section.
fn push_empty_files_section(out: &mut String, r: &ScanReport)
    ensures
        final(out)@ == old(out)@ + empty_files_section(*r),
{
    let ghost start = out@;
    let n = r.empty_files.len();
    if n == 0 {
        assert(out@ =~= start + empty_files_section(*r));
        return;
    }
    push_str(out, "── Empty Files ");
    push_repeat(out, '─', 65);
    push_char(out, '\n');
    push_str(out, "  Found ");
    push_count(out, n);
    push_str(out, " empty file");
    if n != 1 {
        push_str(out, "s");
    }
    push_char(out, '\n');
    push_char(out, '\n');
    push_path_lines(out, &r.empty_files, "");
    push_char(out, '\n');
    proof {
        reveal_strlit("");
        assert(""@ =~= Seq::<char>::empty());
    }
    assert(out@ =~= start + empty_files_section(*r));
}

/// Appends the empty directories section.
fn push_empty_dirs_section(out: &mut String, r: &ScanReport)
    ensures
        final(out)@ == old(out)@ + empty_dirs_section(*r),
{
    let ghost start = out@;
    let n = r.empty_dirs.len();
    if n == 0 {
        assert(out@ =~= start + empty_dirs_section(*r));
        return;
    }
    push_str(out, "── Empty Directories ");
    push_repeat(out, '─', 65);
    push_char(out, '\n');
    push_str(out, "  Found ");
    push_count(out, n);
    if n == 1 {
        push_str(out, " empty directory");
    } else {
        push_str(out, " empty directories");
    }
    proof {
        reveal_strlit(" empty directory");
        reveal_strlit(" empty directories");
        reveal_strlit(" empty director");
        reveal_strlit("y");
        reveal_strlit("ies");
        assert(" empty directory"@ =~= " empty director"@ + "y"@);
        assert(" empty directories"@ =~= " empty director"@ + "ies"@);
    }
    push_char(out, '\n');
    push_char(out, '\n');
    push_path_lines(out, &r.empty_dirs, "/");
    push_char(out, '\n');
    assert(out@ =~= start + empty_dirs_section(*r));
}

/// Appends the broken links section.
fn push_broken_links_section(out: &mut String, r: &ScanReport)
    ensures
        final(out)@ == old(out)@ + broken_links_section(*r),
{
    let ghost start = out@;
    let ls = &r.broken_symlinks;
    let n = ls.len();
    if n == 0 {
        assert(out@ =~= start + broken_links_section(*r));
        return;
    }
    push_str(out, "── Broken Symbolic Links ");
    push_repeat(out, '─', 65);
    push_char(out, '\n');
    push_str(out, "  Found ");
    push_count(out, n);
    push_str(out, " broken symbolic link");
    if n != 1 {
        push_str(out, "s");
    }
    push_char(out, '\n');
    push_char(out, '\n');
    proof {
        reveal_strlit("");
        assert(""@ =~= Seq::<char>::empty());
    }
    let ghost mid = out@;
    let mut i: usize = 0;
    while i < ls.len()
        invariant
            i <= ls@.len(),
            out@ == mid + link_lines(ls@.take(i as int)),
        decreases ls@.len() - i,
    {
        push_str(out, "    ");
        push_str(out, ls[i].link_path.as_str());
        push_str(out, " → ");
        push_str(out, ls[i].target_path.as_str());
        push_str(out, " (target missing)");
        push_char(out, '\n');
        assert(ls@.take(i + 1).drop_last() =~= ls@.take(i as int));
        i = i + 1;
    }
    assert(ls@.take(i as int) =~= ls@);
    push_char(out, '\n');
    assert(out@ =~= start + broken_links_section(*r));
}

/// The summary's duplicates line.
fn duplicates_line(d: &DuplicateReport) -> (t: String)
    ensures
        t@ == (if d.total_groups > 0 {
            "  Duplicates:       "@ + decimal(d.total_groups as nat) + " group"@ + plural(d.total_groups as nat, ""@, "s"@)
                + " ("@ + decimal(d.total_redundant_files as nat) + " redundant, "@ + bytes_text(d.reclaimable_bytes as nat)
                + " reclaimable)"@ + nl()
        } else {
            "  Duplicates:       None"@ + nl()
        }),
{
    let mut t = String::new();
    if d.total_groups > 0 {
        push_str(&mut t, "  Duplicates:       ");
        assert(t@ =~= "  Duplicates:       "@);
        push_str(&mut t, count_text(d.total_groups).as_str());
        push_str(&mut t, " group");
        push_str(&mut t, plural_s(d.total_groups));
        push_str(&mut t, " (");
        push_str(&mut t, count_text(d.total_redundant_files).as_str());
        push_str(&mut t, " redundant, ");
        push_str(&mut t, format_bytes(d.reclaimable_bytes).as_str());
        push_str(&mut t, " reclaimable)");
        push_char(&mut t, '\n');
    } else {
        push_str(&mut t, "  Duplicates:       None");
        assert(t@ =~= "  Duplicates:       None"@);
        push_char(&mut t, '\n');
    }
    t
}

/// The summary's cache line (nothing when no file was looked up).
fn cache_line(hits: u64, misses: u64) -> (t: String)
    requires
        hits + misses <= u64::MAX,
    ensures
        t@ == (if hits + misses > 0 {
            "  Cache hits:       "@ + grouped_decimal(hits as nat) + " / "@ + grouped_decimal(hits as nat + misses as nat)
                + " ("@ + one_decimal(hits as nat * 100, hits as nat + misses as nat) + "%)"@ + nl()
        } else {
            Seq::empty()
        }),
{
    let mut t = String::new();
    let total = hits + misses;
    if total > 0 {
        push_str(&mut t, "  Cache hits:       ");
        assert(t@ =~= "  Cache hits:       "@);
        push_str(&mut t, format_number(hits).as_str());
        push_str(&mut t, " / ");
        push_str(&mut t, format_number(total).as_str());
        push_str(&mut t, " (");
        push_str(&mut t, percent_text(hits, total).as_str());
        push_str(&mut t, "%)");
        push_char(&mut t, '\n');
    }
    t
}

/// Appends the summary section and the closing rule.
fn push_summary(out: &mut String, r: &ScanReport)
    requires
        r.cache_stats.hits + r.cache_stats.misses <= u64::MAX,
    ensures
        final(out)@ == old(out)@ + summary_section(*r),
{
    let mut t = String::new();
    push_str(&mut t, "── Summary ");
    assert(t@ =~= "── Summary "@);
    push_repeat(&mut t, '─', 65);
    push_char(&mut t, '\n');
    push_str(&mut t, "  Scanned:          ");
    push_padded(&mut t, format_number(r.scan_info.files_scanned).as_str(), 8);
    push_str(&mut t, " files in ");
    push_str(&mut t, format_number(r.scan_info.dirs_scanned).as_str());
    push_str(&mut t, " directories");
    push_char(&mut t, '\n');
    push_str(&mut t, duplicates_line(&r.duplicates).as_str());
    push_str(&mut t, "  Empty files:      ");
    push_str(&mut t, count_text(r.empty_files.len()).as_str());
    push_char(&mut t, '\n');
    push_str(&mut t, "  Empty dirs:       ");
    push_str(&mut t, count_text(r.empty_dirs.len()).as_str());
    push_char(&mut t, '\n');
    push_str(&mut t, "  Broken symlinks:  ");
    push_str(&mut t, count_text(r.broken_symlinks.len()).as_str());
    push_char(&mut t, '\n');
    push_str(&mut t, cache_line(r.cache_stats.hits, r.cache_stats.misses).as_str());
    push_repeat(&mut t, '═', 65);
    push_char(&mut t, '\n');
    push_str(out, t.as_str());
}

/// Writes the human-readable text report of a renderable report.
pub fn render_text_report(r: &ScanReport) -> (s: String)
    requires
        renderable(*r),
    ensures
        s@ == text_report(*r),
{
    let mut out = String::new();
    push_header(&mut out, r);
    push_duplicates_section(&mut out, &r.duplicates);
    push_empty_files_section(&mut out, r);
    push_empty_dirs_section(&mut out, r);
    push_broken_links_section(&mut out, r);
    push_summary(&mut out, r);
    assert(out@ =~= text_report(*r));
    out
}

/// Whether the first `n` bytes of `s` end at a character boundary.
pub fn byte_prefix_check(s: &str, n: usize) -> (r: bool)
    requires
        n <= usize::MAX - 4,
    ensures
        r == byte_prefix_ok(s@, n as nat),
{
    let cs = crate::text::to_chars(s);
    let mut used: usize = 0;
    let mut k: usize = 0;
    while k < cs.len() && used < n
        invariant
            cs@ == s@,
            n <= usize::MAX - 4,
            k <= cs@.len(),
            used == utf8_len(cs@.take(k as int)),
            k > 0 ==> utf8_len(cs@.take(k - 1)) < n,
            used <= n + 4,
        decreases cs@.len() - k,
    {
        let w = char_width(cs[k]);
        assert(cs@.take(k + 1).drop_last() =~= cs@.take(k as int));
        assert(cs@.take(k + 1).last() == cs@[k as int]);
        used = used + w;
        k = k + 1;
    }
    proof {
        if used <= n {
            if used < n {
                assert(k == cs@.len());
                assert(cs@.take(k as int) =~= s@);
            } else {
                assert(utf8_len(s@.take(k as int)) == n);
            }
        } else {
            assert(k > 0);
            if k < s@.len() {
                lemma_utf8_len_take_mono(s@, k as int, s@.len() as int);
            }
            assert(s@.take(s@.len() as int) =~= s@);
            assert(s@.take(k as int) =~= cs@.take(k as int));
            assert forall|j: int| 0 <= j <= s@.len() implies #[trigger] utf8_len(s@.take(j)) != n by {
                if j < k {
                    if j < k - 1 {
                        lemma_utf8_len_take_mono(s@, j, k - 1);
                    }
                } else if j > k {
                    lemma_utf8_len_take_mono(s@, k as int, j);
                }
            }
        }
    }
    used <= n
}

/// Whether every file of the group has a modification date.
fn group_dated_check(g: &DuplicateGroup) -> (r: bool)
    ensures
        r == group_dated(*g),
{
    if format_mtime(g.original.mtime).is_none() {
        return false;
    }
    let mut k: usize = 0;
    while k < g.duplicates.len()
        invariant
            k <= g.duplicates@.len(),
            forall|j: int| 0 <= j < k ==> (#[trigger] mtime_date(g.duplicates@[j].mtime)) is Some,
        decreases g.duplicates@.len() - k,
    {
        if format_mtime(g.duplicates[k].mtime).is_none() {
            return false;
        }
        k = k + 1;
    }
    true
}

/// Whether the report can be written out as text.
pub fn is_renderable(r: &ScanReport) -> (b: bool)
    ensures
        b == renderable(*r),
{
    let gs = &r.duplicates.groups;
    let mut i: usize = 0;
    while i < gs.len()
        invariant
            i <= gs@.len(),
            gs@ == r.duplicates.groups@,
            forall|g: int| 0 <= g < i ==> group_dated(#[trigger] gs@[g]),
            forall|g: int| 0 <= g < i ==> byte_prefix_ok((#[trigger] gs@[g]).hash@, 12),
            forall|g: int| 0 <= g < i ==> (#[trigger] gs@[g]).duplicates@.len() < usize::MAX,
        decreases gs@.len() - i,
    {
        let g = &gs[i];
        let dated = group_dated_check(g);
        let cut = byte_prefix_check(g.hash.as_str(), 12);
        if !dated || !cut || g.duplicates.len() == usize::MAX {
            assert(!group_dated(gs@[i as int]) || !byte_prefix_ok(gs@[i as int].hash@, 12)
                || gs@[i as int].duplicates@.len() >= usize::MAX);
            return false;
        }
        i = i + 1;
    }
    r.cache_stats.hits.checked_add(r.cache_stats.misses).is_some()
}

/// Generate a human-readable text report; an error when the report cannot
/// be written out (see `renderable`).
pub fn generate_text_report(r: &ScanReport) -> (res: Result<String, DupfinderError>)
    ensures
        match res {
            Ok(s) => renderable(*r) && s@ == text_report(*r),
            Err(e) => !renderable(*r) && e@ == ErrorView::Config(unrenderable_message()),
        },
{
    if is_renderable(r) {
        Ok(render_text_report(r))
    } else {
        Err(DupfinderError::ConfigError(string_from_str(UNRENDERABLE)))
    }
}

/// Why a report cannot be written out as text.
pub const UNRENDERABLE: &'static str = "report has an undatable modification time, a hash cut inside a character, or counts out of range";

/// The text of `UNRENDERABLE`.
pub open spec fn unrenderable_message() -> Seq<char> {
    UNRENDERABLE@
}

/// A group's duplicates are listed one `[DUPLICATE]` line each, in order:
/// the duplicate lines are the lines of the duplicates, concatenated.
pub proof fn law_one_line_per_duplicate(ds: Seq<FileEntry>)
    ensures
        duplicate_lines(ds) == ds.map_values(|e: FileEntry| entry_line("    [DUPLICATE] "@, e)).flatten(),
    decreases ds.len(),
{
    let ls = ds.map_values(|e: FileEntry| entry_line("    [DUPLICATE] "@, e));
    ls.lemma_flatten_and_flatten_alt_are_equivalent();
    if ds.len() > 0 {
        law_one_line_per_duplicate(ds.drop_last());
        let ks = ds.drop_last().map_values(|e: FileEntry| entry_line("    [DUPLICATE] "@, e));
        ks.lemma_flatten_and_flatten_alt_are_equivalent();
        assert(ls.drop_last() =~= ks);
        assert(ls.last() == entry_line("    [DUPLICATE] "@, ds.last()));
    } else {
        assert(ls =~= Seq::<Seq<char>>::empty());
    }
}

/// A group's block ends with its original's `[ORIGINAL]` line, then one
/// `[DUPLICATE]` line for each duplicate, in order, then a blank line.
pub proof fn law_group_lists_every_member(i: nat, g: DuplicateGroup)
    ensures
        exists|head: Seq<char>|
            group_text(i, g) == head + entry_line("    [ORIGINAL]  "@, g.original) + g.duplicates@.map_values(
                |e: FileEntry| entry_line("    [DUPLICATE] "@, e),
            ).flatten() + nl(),
{
    law_one_line_per_duplicate(g.duplicates@);
    let head = "  Group "@ + decimal(i + 1) + " — "@ + decimal(g.duplicates@.len() + 1) + " files, "@ + bytes_text(
        g.size as nat,
    ) + " each (BLAKE3: "@ + byte_prefix(g.hash@, 12) + "…)"@ + nl();
    assert(group_text(i, g) == head + entry_line("    [ORIGINAL]  "@, g.original) + g.duplicates@.map_values(
        |e: FileEntry| entry_line("    [DUPLICATE] "@, e),
    ).flatten() + nl());
}

} // verus!
