//! A model of Unix path syntax, as `std::path` reads it.
//!
//! A path string is split at `/`; empty pieces and `.` pieces are dropped,
//! except a `.` that begins a relative path. What is left (`path_parts`),
//! together with whether the path starts at the root, is what two paths are
//! compared by, what `file_name`, `parent` and the component count are taken
//! from.

use vstd::prelude::*;
use crate::text::{push_char, push_chars, split_chars, split_sep, string_from_chars, to_chars};

verus! {

/// Whether `s` starts at the file system root.
pub open spec fn is_rooted(s: Seq<char>) -> bool {
    s.len() > 0 && s[0] == '/'
}

/// Whether the raw piece `p`, found at index `idx`, is a component.
pub open spec fn keep_part(p: Seq<char>, idx: int) -> bool {
    p.len() > 0 && (p != seq!['.'] || idx == 0)
}

/// The components among raw pieces.
pub open spec fn kept_parts(parts: Seq<Seq<char>>) -> Seq<Seq<char>>
    decreases parts.len(),
{
    if parts.len() == 0 {
        Seq::empty()
    } else {
        let k = kept_parts(parts.drop_last());
        if keep_part(parts.last(), parts.len() - 1) {
            k.push(parts.last())
        } else {
            k
        }
    }
}

/// The components of `s` other than the root.
pub open spec fn path_parts(s: Seq<char>) -> Seq<Seq<char>> {
    kept_parts(split_sep(s, '/'))
}

/// Whether a component is a name (neither `.` nor `..`).
pub open spec fn is_normal_part(p: Seq<char>) -> bool {
    p != seq!['.'] && p != seq!['.', '.']
}

/// `Path::file_name`: the last component, when it is a name.
pub open spec fn file_name_of(s: Seq<char>) -> Option<Seq<char>> {
    let k = path_parts(s);
    if k.len() > 0 && is_normal_part(k.last()) {
        Some(k.last())
    } else {
        None
    }
}

/// `Path::components().count()`.
pub open spec fn depth_of(s: Seq<char>) -> nat {
    (if is_rooted(s) {
        1nat
    } else {
        0nat
    }) + path_parts(s).len()
}

/// Whether two path strings name the same path (`Path` equality).
pub open spec fn same_path(a: Seq<char>, b: Seq<char>) -> bool {
    is_rooted(a) == is_rooted(b) && path_parts(a) == path_parts(b)
}

/// Components joined with `/`.
pub open spec fn join_parts(parts: Seq<Seq<char>>) -> Seq<char>
    decreases parts.len(),
{
    if parts.len() == 0 {
        Seq::empty()
    } else if parts.len() == 1 {
        parts[0]
    } else {
        join_parts(parts.drop_last()) + seq!['/'] + parts.last()
    }
}

/// The normal form of a path: the root, then the components joined by `/`.
pub open spec fn norm_of(rooted: bool, parts: Seq<Seq<char>>) -> Seq<char> {
    (if rooted {
        seq!['/']
    } else {
        Seq::empty()
    }) + join_parts(parts)
}

/// The normal form of the path `s`.
pub open spec fn normalized(s: Seq<char>) -> Seq<char> {
    norm_of(is_rooted(s), path_parts(s))
}

/// `PathBuf::push` of `child` onto `base`: an absolute child replaces the
/// base; otherwise a `/` is put between them unless the base is empty or
/// already ends with one.
pub open spec fn join_spec(base: Seq<char>, child: Seq<char>) -> Seq<char> {
    if is_rooted(child) {
        child
    } else if base.len() > 0 && base.last() != '/' {
        base + seq!['/'] + child
    } else {
        base + child
    }
}

/// The extension `Path::extension` takes from a file name: after the last
/// `.`, unless there is none or it is the first character.
pub open spec fn extension_of_name(name: Seq<char>) -> Option<Seq<char>> {
    if name == seq!['.', '.'] {
        None
    } else {
        match last_dot(name) {
            Some(i) => if i == 0 {
                None
            } else {
                Some(name.skip(i + 1))
            },
            None => None,
        }
    }
}

/// The index of the last `.` in `s`.
pub open spec fn last_dot(s: Seq<char>) -> Option<int>
    decreases s.len(),
{
    if s.len() == 0 {
        None
    } else if s.last() == '.' {
        Some(s.len() - 1)
    } else {
        last_dot(s.drop_last())
    }
}

/// `Path::extension`.
pub open spec fn extension_of(s: Seq<char>) -> Option<Seq<char>> {
    match file_name_of(s) {
        Some(n) => extension_of_name(n),
        None => None,
    }
}

proof fn lemma_kept_len(parts: Seq<Seq<char>>)
    ensures
        kept_parts(parts).len() <= parts.len(),
    decreases parts.len(),
{
    if parts.len() > 0 {
        lemma_kept_len(parts.drop_last());
    }
}

/// The components of a path: whether it is rooted, and the rest.
pub fn path_parts_exec(s: &str) -> (r: (bool, Vec<Vec<char>>))
    ensures
        r.0 == is_rooted(s@),
        r.1@.len() == path_parts(s@).len(),
        forall|i: int| 0 <= i < r.1@.len() ==> (#[trigger] r.1@[i])@ == path_parts(s@)[i],
        r.0 ==> r.1@.len() < usize::MAX,
{
    let cs = to_chars(s);
    parts_of_chars(&cs)
}

/// `path_parts_exec` on a character vector.
pub fn parts_of_chars(cs: &Vec<char>) -> (r: (bool, Vec<Vec<char>>))
    ensures
        r.0 == is_rooted(cs@),
        r.1@.len() == path_parts(cs@).len(),
        forall|i: int| 0 <= i < r.1@.len() ==> (#[trigger] r.1@[i])@ == path_parts(cs@)[i],
        r.0 ==> r.1@.len() < usize::MAX,
{
    let rooted = cs.len() > 0 && cs[0] == '/';
    let raw = split_chars(cs, '/');
    let ghost rs = split_sep(cs@, '/');
    proof {
        if rooted {
            crate::text::lemma_split_lead_sep(cs@, '/');
        }
    }
    let mut kept: Vec<Vec<char>> = Vec::new();
    let mut i: usize = 0;
    while i < raw.len()
        invariant
            i <= raw@.len(),
            raw@.len() == rs.len(),
            forall|k: int| 0 <= k < raw@.len() ==> (#[trigger] raw@[k])@ == rs[k],
            kept@.len() == kept_parts(rs.take(i as int)).len(),
            forall|k: int| 0 <= k < kept@.len() ==> (#[trigger] kept@[k])@ == kept_parts(rs.take(i as int))[k],
            kept@.len() <= i,
            rooted ==> rs[0] == Seq::<char>::empty(),
            rooted && i >= 1 ==> kept@.len() < i,
        decreases raw@.len() - i,
    {
        let p = &raw[i];
        let is_dot = p.len() == 1 && p[0] == '.';
        proof {
            assert(rs.take(i + 1).drop_last() =~= rs.take(i as int));
            assert(rs.take(i + 1).last() == rs[i as int]);
            if p@ == seq!['.'] {
                assert(p@.len() == 1 && p@[0] == '.');
            }
            if is_dot {
                assert(p@ =~= seq!['.']);
            }
        }
        if p.len() > 0 && (!is_dot || i == 0) {
            kept.push(p.clone());
        }
        i = i + 1;
    }
    assert(rs.take(raw@.len() as int) =~= rs);
    (rooted, kept)
}

/// Whether a component is a name (neither `.` nor `..`).
pub fn is_normal_part_exec(p: &Vec<char>) -> (r: bool)
    ensures
        r == is_normal_part(p@),
{
    let is_dot = p.len() == 1 && p[0] == '.';
    let is_dotdot = p.len() == 2 && p[0] == '.' && p[1] == '.';
    proof {
        if p@ == seq!['.'] {
            assert(p@.len() == 1 && p@[0] == '.');
        }
        if p@ == seq!['.', '.'] {
            assert(p@.len() == 2 && p@[0] == '.' && p@[1] == '.');
        }
        if is_dot {
            assert(p@ =~= seq!['.']);
        }
        if is_dotdot {
            assert(p@ =~= seq!['.', '.']);
        }
    }
    !is_dot && !is_dotdot
}

/// `Path::file_name` of a path string, as characters.
pub fn file_name_chars(s: &str) -> (r: Option<Vec<char>>)
    ensures
        match r {
            Some(n) => file_name_of(s@) == Some(n@),
            None => file_name_of(s@) is None,
        },
{
    let (_rooted, parts) = path_parts_exec(s);
    if parts.len() > 0 {
        let last = &parts[parts.len() - 1];
        if is_normal_part_exec(last) {
            return Some(last.clone());
        }
    }
    None
}

/// `Path::file_name` of a path string.
pub fn file_name(s: &str) -> (r: Option<String>)
    ensures
        match r {
            Some(n) => file_name_of(s@) == Some(n@),
            None => file_name_of(s@) is None,
        },
{
    match file_name_chars(s) {
        Some(n) => Some(string_from_chars(&n)),
        None => None,
    }
}

/// `Path::components().count()` of a path string.
pub fn path_depth(s: &str) -> (r: usize)
    ensures
        r == depth_of(s@),
{
    let (rooted, parts) = path_parts_exec(s);
    if rooted {
        parts.len() + 1
    } else {
        parts.len()
    }
}

/// Components joined with `/` (`join_parts`).
pub fn join_parts_exec(parts: &Vec<Vec<char>>, n: usize) -> (r: Vec<char>)
    requires
        n <= parts@.len(),
    ensures
        r@ == join_parts(parts@.take(n as int).map_values(|p: Vec<char>| p@)),
    decreases n,
{
    let ghost views = parts@.take(n as int).map_values(|p: Vec<char>| p@);
    if n == 0 {
        assert(views =~= Seq::<Seq<char>>::empty());
        Vec::new()
    } else if n == 1 {
        assert(views.len() == 1);
        parts[0].clone()
    } else {
        let mut r = join_parts_exec(parts, n - 1);
        r.push('/');
        let last = &parts[n - 1];
        let mut i: usize = 0;
        let ghost base = r@;
        while i < last.len()
            invariant
                i <= last@.len(),
                r@ == base + last@.take(i as int),
            decreases last@.len() - i,
        {
            r.push(last[i]);
            i = i + 1;
            assert(last@.take(i as int) =~= last@.take((i - 1) as int).push(last@[i - 1]));
        }
        assert(last@.take(last@.len() as int) =~= last@);
        assert(views.drop_last() =~= parts@.take((n - 1) as int).map_values(|p: Vec<char>| p@));
        r
    }
}

/// The normal form of a path string (`normalized`).
pub fn normalize(s: &str) -> (r: String)
    ensures
        r@ == normalized(s@),
{
    let (rooted, parts) = path_parts_exec(s);
    let ghost pv = parts@.take(parts@.len() as int).map_values(|p: Vec<char>| p@);
    let j = join_parts_exec(&parts, parts.len());
    assert(pv =~= path_parts(s@));
    let mut out: Vec<char> = Vec::new();
    if rooted {
        out.push('/');
    }
    let ghost pre = out@;
    let mut i: usize = 0;
    while i < j.len()
        invariant
            i <= j@.len(),
            out@ == pre + j@.take(i as int),
        decreases j@.len() - i,
    {
        out.push(j[i]);
        i = i + 1;
        assert(j@.take(i as int) =~= j@.take((i - 1) as int).push(j@[i - 1]));
    }
    assert(j@.take(j@.len() as int) =~= j@);
    assert(out@ =~= normalized(s@));
    string_from_chars(&out)
}

/// `base.join(child)` on path strings.
pub fn join_path(base: &str, child: &str) -> (r: String)
    ensures
        r@ == join_spec(base@, child@),
{
    let cc = to_chars(child);
    if cc.len() > 0 && cc[0] == '/' {
        return string_from_chars(&cc);
    }
    let bc = to_chars(base);
    let mut out = string_from_chars(&bc);
    if bc.len() > 0 && bc[bc.len() - 1] != '/' {
        push_char(&mut out, '/');
    }
    push_chars(&mut out, &cc);
    out
}

/// The index of the last `.` in a character vector.
pub fn last_dot_exec(s: &Vec<char>) -> (r: Option<usize>)
    ensures
        match r {
            Some(i) => last_dot(s@) == Some(i as int) && i < s@.len(),
            None => last_dot(s@) is None,
        },
{
    let mut k: usize = s.len();
    assert(s@.take(k as int) =~= s@);
    while k > 0
        invariant
            k <= s.len(),
            last_dot(s@) == last_dot(s@.take(k as int)),
        decreases k,
    {
        proof {
            assert(s@.take(k as int).drop_last() =~= s@.take(k - 1));
        }
        if s[k - 1] == '.' {
            return Some(k - 1);
        }
        k = k - 1;
    }
    None
}

/// `Path::extension` of a path string, as characters.
pub fn extension_chars(s: &str) -> (r: Option<Vec<char>>)
    ensures
        match r {
            Some(e) => extension_of(s@) == Some(e@),
            None => extension_of(s@) is None,
        },
{
    match file_name_chars(s) {
        None => None,
        Some(name) => {
            let is_dotdot = name.len() == 2 && name[0] == '.' && name[1] == '.';
            proof {
                if name@ == seq!['.', '.'] {
                    assert(name@.len() == 2 && name@[0] == '.' && name@[1] == '.');
                }
                if is_dotdot {
                    assert(name@ =~= seq!['.', '.']);
                }
            }
            if is_dotdot {
                return None;
            }
            match last_dot_exec(&name) {
                None => None,
                Some(i) => {
                    if i == 0 {
                        None
                    } else {
                        let mut e: Vec<char> = Vec::new();
                        let mut j: usize = i + 1;
                        while j < name.len()
                            invariant
                                i + 1 <= j <= name@.len(),
                                e@ == name@.subrange(i + 1, j as int),
                            decreases name@.len() - j,
                        {
                            e.push(name[j]);
                            j = j + 1;
                        }
                        assert(e@ =~= name@.skip(i + 1));
                        Some(e)
                    }
                },
            }
        },
    }
}

/// Whether every component is non-empty and holds no `/`.
pub open spec fn clean_parts(parts: Seq<Seq<char>>) -> bool {
    forall|i: int| 0 <= i < parts.len() ==> (#[trigger] parts[i]).len() > 0 && !parts[i].contains('/')
}

/// A piece without separators splits into itself.
proof fn lemma_split_plain(t: Seq<char>, sep: char)
    requires
        !t.contains(sep),
    ensures
        split_sep(t, sep) == seq![t],
    decreases t.len(),
{
    if t.len() > 0 {
        assert(!t.drop_last().contains(sep)) by {
            if t.drop_last().contains(sep) {
                let i = choose|i: int| 0 <= i < t.drop_last().len() && t.drop_last()[i] == sep;
                assert(t[i] == sep);
            }
        }
        lemma_split_plain(t.drop_last(), sep);
        assert(t.last() != sep) by {
            assert(t[t.len() - 1] == t.last());
        }
        assert(t.drop_last().push(t.last()) =~= t);
    } else {
        assert(t =~= Seq::<char>::empty());
    }
}

/// Appending a separator and a piece without separators adds that piece.
proof fn lemma_split_append(s: Seq<char>, t: Seq<char>, sep: char)
    requires
        !t.contains(sep),
    ensures
        split_sep(s + seq![sep] + t, sep) == split_sep(s, sep).push(t),
    decreases t.len(),
{
    let u = s + seq![sep] + t;
    if t.len() == 0 {
        assert(u.drop_last() =~= s);
        assert(t =~= Seq::<char>::empty());
    } else {
        assert(!t.drop_last().contains(sep)) by {
            if t.drop_last().contains(sep) {
                let i = choose|i: int| 0 <= i < t.drop_last().len() && t.drop_last()[i] == sep;
                assert(t[i] == sep);
            }
        }
        lemma_split_append(s, t.drop_last(), sep);
        assert(u.drop_last() =~= s + seq![sep] + t.drop_last());
        assert(u.last() == t[t.len() - 1]);
        assert(t.drop_last().push(t.last()) =~= t);
        assert(split_sep(s, sep).push(t.drop_last()).update(split_sep(s, sep).len() as int, t) =~= split_sep(s, sep).push(t));
    }
}

/// Clean components joined with `/` split back into those components.
proof fn lemma_join_split(parts: Seq<Seq<char>>)
    requires
        parts.len() >= 1,
        clean_parts(parts),
    ensures
        split_sep(join_parts(parts), '/') == parts,
    decreases parts.len(),
{
    if parts.len() == 1 {
        lemma_split_plain(parts[0], '/');
        assert(seq![parts[0]] =~= parts);
    } else {
        lemma_join_split(parts.drop_last());
        assert(!parts.last().contains('/')) by {
            assert(parts[parts.len() - 1] == parts.last());
        }
        lemma_split_append(join_parts(parts.drop_last()), parts.last(), '/');
        assert(parts.drop_last().push(parts.last()) =~= parts);
    }
}

/// Joining clean components starts with the first component.
proof fn lemma_join_first(parts: Seq<Seq<char>>)
    requires
        parts.len() >= 1,
        clean_parts(parts),
    ensures
        join_parts(parts).len() >= parts[0].len() > 0,
        join_parts(parts)[0] == parts[0][0],
    decreases parts.len(),
{
    if parts.len() > 1 {
        lemma_join_first(parts.drop_last());
    }
}

/// Every piece of a split lacks the separator.
proof fn lemma_split_clean(s: Seq<char>, sep: char)
    ensures
        forall|i: int| 0 <= i < split_sep(s, sep).len() ==> !(#[trigger] split_sep(s, sep)[i]).contains(sep),
    decreases s.len(),
{
    if s.len() > 0 {
        lemma_split_clean(s.drop_last(), sep);
        crate::text::lemma_split_nonempty(s.drop_last(), sep);
        let p = split_sep(s.drop_last(), sep);
        if s.last() != sep {
            let q = p.last().push(s.last());
            assert(!q.contains(sep)) by {
                if q.contains(sep) {
                    let i = choose|i: int| 0 <= i < q.len() && q[i] == sep;
                    if i < p.last().len() {
                        assert(p.last()[i] == sep);
                        assert(p[p.len() - 1] == p.last());
                    }
                }
            }
        }
    }
}

/// The components kept from clean-of-separator pieces are clean.
proof fn lemma_kept_clean(parts: Seq<Seq<char>>)
    requires
        forall|i: int| 0 <= i < parts.len() ==> !(#[trigger] parts[i]).contains('/'),
    ensures
        clean_parts(kept_parts(parts)),
    decreases parts.len(),
{
    if parts.len() > 0 {
        lemma_kept_clean(parts.drop_last());
        assert(parts[parts.len() - 1] == parts.last());
    }
}

/// The components of a path are clean.
pub proof fn lemma_path_parts_clean(s: Seq<char>)
    ensures
        clean_parts(path_parts(s)),
{
    lemma_split_clean(s, '/');
    lemma_kept_clean(split_sep(s, '/'));
}

/// The normal form tells clean components apart: equal normal forms come
/// from equal rootedness and equal components.
pub proof fn lemma_norm_of_injective(r1: bool, p1: Seq<Seq<char>>, r2: bool, p2: Seq<Seq<char>>)
    requires
        clean_parts(p1),
        clean_parts(p2),
        norm_of(r1, p1) == norm_of(r2, p2),
    ensures
        r1 == r2,
        p1 == p2,
{
    let n = norm_of(r1, p1);
    if p1.len() > 0 {
        lemma_join_first(p1);
    }
    if p2.len() > 0 {
        lemma_join_first(p2);
    }
    // the first character tells whether the path is rooted
    if r1 != r2 {
        if r1 {
            assert(n[0] == '/');
            if p2.len() > 0 {
                assert(p2[0].contains(p2[0][0]));
            }
        } else {
            assert(norm_of(r2, p2)[0] == '/');
            if p1.len() > 0 {
                assert(p1[0].contains(p1[0][0]));
            }
        }
    }
    let pre = if r1 { seq!['/'] } else { Seq::<char>::empty() };
    assert(join_parts(p1) =~= n.skip(pre.len() as int));
    assert(join_parts(p2) =~= n.skip(pre.len() as int));
    if p1.len() > 0 && p2.len() > 0 {
        lemma_join_split(p1);
        lemma_join_split(p2);
    }
}

/// Two paths are the same path exactly when their normal forms are equal.
pub proof fn lemma_normalized_same_path(a: Seq<char>, b: Seq<char>)
    ensures
        same_path(a, b) <==> normalized(a) == normalized(b),
{
    lemma_path_parts_clean(a);
    lemma_path_parts_clean(b);
    if normalized(a) == normalized(b) {
        lemma_norm_of_injective(is_rooted(a), path_parts(a), is_rooted(b), path_parts(b));
    }
}

/// `Path::parent`: the path without its last component, when it has one.
pub open spec fn parent_of(s: Seq<char>) -> Option<Seq<char>> {
    if path_parts(s).len() > 0 {
        Some(norm_of(is_rooted(s), path_parts(s).drop_last()))
    } else {
        None
    }
}

/// `Path::parent` of a path string, in normal form.
pub fn parent_path(s: &str) -> (r: Option<String>)
    ensures
        match r {
            Some(p) => parent_of(s@) == Some(p@),
            None => parent_of(s@) is None,
        },
{
    let (rooted, parts) = path_parts_exec(s);
    if parts.len() == 0 {
        return None;
    }
    let j = join_parts_exec(&parts, parts.len() - 1);
    let ghost pv = parts@.take(parts@.len() - 1).map_values(|p: Vec<char>| p@);
    assert(pv =~= path_parts(s@).drop_last());
    let mut out: String = String::new();
    if rooted {
        push_char(&mut out, '/');
    }
    push_chars(&mut out, &j);
    assert(out@ =~= norm_of(is_rooted(s@), path_parts(s@).drop_last()));
    Some(out)
}

} // verus!
