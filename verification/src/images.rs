//! Perceptual image comparison: which files are compared, the distance of
//! two perceptual hashes, and how images are clustered by it. Decoding the
//! images and hashing them is left to the caller.

use vstd::prelude::*;
use crate::grouping::{is_stable_order, stable_order};
use crate::paths::{extension_chars, extension_of};
use crate::text::{chars_eq_str, lower_text, string_from_chars, to_chars, to_lower};
use crate::errors::DupfinderError;
use crate::text::string_from_str;
use crate::types::FileEntry;

verus! {

/// The perceptual hash of an image, given its file's path (whose extension
/// names the image format) and the file's bytes; `None` when the extension
/// names no known format or the bytes do not decode in it.
pub uninterp spec fn perceptual_hash_bytes(path: Seq<char>, bytes: Seq<u8>) -> Option<Seq<u8>>;

/// `image::ImageFormat::from_path`, then `image::load_from_memory_with_format`,
/// then `image_hasher`'s `hash_image` with an 8×8 hash: the hash's bytes.
/// Claimed: the hash is the named `perceptual_hash_bytes` of the path and
/// the bytes, of 8 × 8 bits in 8 bytes, and an error comes exactly when that
/// name gives none (the error's text is not stated).
#[verifier::external_body]
fn perceptual_hash_of(path: &str, bytes: &[u8]) -> (r: Result<Vec<u8>, String>)
    ensures
        match r {
            Ok(h) => perceptual_hash_bytes(path@, bytes@) == Some(h@) && h@.len() == 8,
            Err(_) => perceptual_hash_bytes(path@, bytes@) is None,
        },
{
    let format = image::ImageFormat::from_path(path).map_err(|e| e.to_string())?;
    let img = image::load_from_memory_with_format(bytes, format).map_err(|e| e.to_string())?;
    let hasher = image_hasher::HasherConfig::new().hash_size(8, 8).to_hasher();
    Ok(hasher.hash_image(&img).as_bytes().to_vec())
}

/// Compute the perceptual hash of an image file, given its path and its
/// bytes: the hash's 8 bytes, or an I/O error at the path when the image
/// cannot be decoded.
pub fn compute_perceptual_hash(path: &str, bytes: &Vec<u8>) -> (r: Result<Vec<u8>, DupfinderError>)
    ensures
        match r {
            Ok(h) => perceptual_hash_bytes(path@, bytes@) == Some(h@) && h@.len() == 8,
            Err(e) => perceptual_hash_bytes(path@, bytes@) is None && (e matches DupfinderError::IoError { path: p, .. }
                && p@ == path@),
        },
{
    match perceptual_hash_of(path, bytes.as_slice()) {
        Ok(h) => Ok(h),
        Err(message) => Err(DupfinderError::IoError { path: string_from_str(path), message }),
    }
}

/// The extensions (in lower case) of the image formats that are compared.
pub open spec fn image_extensions() -> Seq<Seq<char>> {
    seq!["jpg"@, "jpeg"@, "png"@, "webp"@, "bmp"@, "gif"@, "tiff"@, "tif"@]
}

/// Whether a path names a supported image: its extension, in lower case, is
/// one of `image_extensions`.
pub open spec fn supported_image(path: Seq<char>) -> bool {
    match extension_of(path) {
        Some(e) => image_extensions().contains(lower_text(e)),
        None => false,
    }
}

/// Returns `true` if the file extension corresponds to a supported image format.
pub fn is_supported_image(path: &str) -> (r: bool)
    ensures
        r == supported_image(path@),
{
    match extension_chars(path) {
        None => false,
        Some(e) => {
            let l = to_chars(to_lower(string_from_chars(&e).as_str()).as_str());
            let names: Vec<&'static str> = vec!["jpg", "jpeg", "png", "webp", "bmp", "gif", "tiff", "tif"];
            assert(names@.map_values(|s: &str| s@) =~= image_extensions());
            let mut i: usize = 0;
            while i < names.len()
                invariant
                    i <= names@.len(),
                    names@.map_values(|s: &str| s@) == image_extensions(),
                    l@ == lower_text(extension_of(path@)->0),
                    extension_of(path@) is Some,
                    forall|k: int| 0 <= k < i ==> image_extensions()[k] != l@,
                decreases names@.len() - i,
            {
                assert(image_extensions()[i as int] == names@[i as int]@);
                if chars_eq_str(&l, names[i]) {
                    assert(image_extensions()[i as int] == l@);
                    return true;
                }
                i = i + 1;
            }
            false
        },
    }
}

/// The positions of the files that are supported images, in order.
pub open spec fn image_positions(files: Seq<FileEntry>, n: int) -> Seq<usize>
    decreases n,
{
    if n <= 0 {
        Seq::empty()
    } else if supported_image(files[n - 1].path@) {
        image_positions(files, n - 1).push((n - 1) as usize)
    } else {
        image_positions(files, n - 1)
    }
}

/// The positions of the files with supported image extensions, in order.
pub fn image_candidates(files: &Vec<FileEntry>) -> (r: Vec<usize>)
    ensures
        r@ == image_positions(files@, files@.len() as int),
{
    let mut r: Vec<usize> = Vec::new();
    let mut i: usize = 0;
    while i < files.len()
        invariant
            i <= files@.len(),
            r@ == image_positions(files@, i as int),
        decreases files@.len() - i,
    {
        if is_supported_image(files[i].path.as_str()) {
            r.push(i);
        }
        i = i + 1;
    }
    r
}

/// The number of set bits of `x`.
pub open spec fn bit_count(x: nat) -> nat
    decreases x,
{
    if x == 0 {
        0
    } else {
        x % 2 + bit_count(x / 2)
    }
}

/// `2^k`.
pub open spec fn two_pow(k: nat) -> nat
    decreases k,
{
    if k == 0 {
        1
    } else {
        2 * two_pow((k - 1) as nat)
    }
}

proof fn lemma_bit_count_bound(x: nat, k: nat)
    requires
        x < two_pow(k),
    ensures
        bit_count(x) <= k,
    decreases k,
{
    if x > 0 {
        assert(k > 0);
        lemma_bit_count_bound(x / 2, (k - 1) as nat);
    }
}

/// The Hamming distance of the first `n` bytes of two hashes.
pub open spec fn hamming_upto(a: Seq<u8>, b: Seq<u8>, n: int) -> nat
    decreases n,
{
    if n <= 0 {
        0
    } else {
        hamming_upto(a, b, n - 1) + bit_count((a[n - 1] ^ b[n - 1]) as nat)
    }
}

/// The shorter of two lengths.
pub open spec fn common_len(a: Seq<u8>, b: Seq<u8>) -> int {
    if a.len() < b.len() {
        a.len() as int
    } else {
        b.len() as int
    }
}

/// The Hamming distance of two perceptual hashes (`ImageHash::dist`): the
/// number of differing bits over the bytes they both have.
pub open spec fn hamming(a: Seq<u8>, b: Seq<u8>) -> nat {
    hamming_upto(a, b, common_len(a, b))
}

/// The number of set bits of a byte.
fn byte_bits(x: u8) -> (r: u32)
    ensures
        r == bit_count(x as nat),
        r <= 8,
{
    proof {
        reveal_with_fuel(two_pow, 9);
        lemma_bit_count_bound(x as nat, 8);
    }
    let mut y: u8 = x;
    let mut c: u32 = 0;
    while y > 0
        invariant
            c + bit_count(y as nat) == bit_count(x as nat),
            bit_count(x as nat) <= 8,
        decreases y,
    {
        c = c + (y % 2) as u32;
        y = y / 2;
    }
    c
}

/// The Hamming distance of two perceptual hashes.
pub fn hash_distance(a: &Vec<u8>, b: &Vec<u8>) -> (r: u32)
    requires
        common_len(a@, b@) * 8 <= u32::MAX,
    ensures
        r == hamming(a@, b@),
{
    let n: usize = if a.len() < b.len() { a.len() } else { b.len() };
    let mut d: u32 = 0;
    let mut i: usize = 0;
    while i < n
        invariant
            i <= n,
            n == common_len(a@, b@),
            n * 8 <= u32::MAX,
            d == hamming_upto(a@, b@, i as int),
            d <= 8 * i,
        decreases n - i,
    {
        let x: u8 = a[i] ^ b[i];
        let bits = byte_bits(x);
        d = d + bits;
        i = i + 1;
    }
    d
}

/// An image found similar to a group's canonical image.
pub struct SimilarImageEntry {
    pub file: FileEntry,
    /// The Hamming distance of its hash from the canonical image's.
    pub distance: u32,
}

/// Visually similar images: the canonical one and those close to it.
pub struct SimilarImageGroup {
    pub canonical: FileEntry,
    pub similar_files: Vec<SimilarImageEntry>,
    /// The canonical image's perceptual hash.
    pub hash: Vec<u8>,
}

/// The result of a similarity search.
pub struct SimilarImageReport {
    pub total_groups: usize,
    pub total_similar_files: usize,
    pub reclaimable_bytes: u64,
    pub groups: Vec<SimilarImageGroup>,
}

/// A group by its plain values.
pub struct GroupView {
    pub canonical: FileEntry,
    pub similar: Seq<(FileEntry, u32)>,
    pub hash: Seq<u8>,
}

/// The plain values of a group.
pub open spec fn group_view(g: SimilarImageGroup) -> GroupView {
    GroupView {
        canonical: g.canonical,
        similar: g.similar_files@.map_values(|e: SimilarImageEntry| (e.file, e.distance)),
        hash: g.hash@,
    }
}

/// The hashes of the images.
pub open spec fn hash_seqs(images: Seq<(FileEntry, Vec<u8>)>) -> Seq<Seq<u8>> {
    images.map_values(|x: (FileEntry, Vec<u8>)| x.1@)
}

/// The images after `a` and before `m`, not yet taken, within `maxd` of
/// image `a`, in order.
pub open spec fn members_upto(hs: Seq<Seq<u8>>, vis: Seq<bool>, a: int, maxd: nat, m: int) -> Seq<int>
    decreases m - a,
{
    if m <= a + 1 {
        Seq::empty()
    } else {
        let p = members_upto(hs, vis, a, maxd, m - 1);
        if !vis[m - 1] && hamming(hs[a], hs[m - 1]) <= maxd {
            p.push(m - 1)
        } else {
            p
        }
    }
}

/// `vis` with the members taken.
pub open spec fn mark(vis: Seq<bool>, ms: Seq<int>) -> Seq<bool> {
    Seq::new(vis.len(), |k: int| vis[k] || ms.contains(k))
}

/// The images taken and the clusters (anchor, members) found after the
/// first `i` images were tried as anchors: an image not yet taken gathers
/// every later image not yet taken within `maxd` of it; when it gathers
/// any, it and they are taken and form a cluster.
pub open spec fn cluster_state(hs: Seq<Seq<u8>>, maxd: nat, i: int) -> (Seq<bool>, Seq<(int, Seq<int>)>)
    decreases i,
{
    if i <= 0 {
        (Seq::new(hs.len(), |k: int| false), Seq::empty())
    } else {
        let prev = cluster_state(hs, maxd, i - 1);
        let a = i - 1;
        if prev.0[a] {
            prev
        } else {
            let ms = members_upto(hs, prev.0, a, maxd, hs.len() as int);
            if ms.len() == 0 {
                prev
            } else {
                (mark(prev.0, ms).update(a, true), prev.1.push((a, ms)))
            }
        }
    }
}

/// The clusters of a set of hashed images.
pub open spec fn clusters_of(images: Seq<(FileEntry, Vec<u8>)>, maxd: nat) -> Seq<(int, Seq<int>)> {
    cluster_state(hash_seqs(images), maxd, images.len() as int).1
}

/// The summed sizes of the listed images.
pub open spec fn members_bytes(images: Seq<(FileEntry, Vec<u8>)>, ms: Seq<int>) -> int
    decreases ms.len(),
{
    if ms.len() == 0 {
        0
    } else {
        members_bytes(images, ms.drop_last()) + images[ms.last()].0.size
    }
}

/// The group a cluster describes.
pub open spec fn cluster_view(images: Seq<(FileEntry, Vec<u8>)>, c: (int, Seq<int>)) -> GroupView {
    GroupView {
        canonical: images[c.0].0,
        similar: c.1.map_values(|j: int| (images[j].0, hamming(images[c.0].1@, images[j].1@) as u32)),
        hash: images[c.0].1@,
    }
}

/// The sort keys of clusters: reclaimable bytes, negated.
pub open spec fn cluster_keys(images: Seq<(FileEntry, Vec<u8>)>, cl: Seq<(int, Seq<int>)>) -> Seq<i128> {
    Seq::new(cl.len(), |g: int| (-members_bytes(images, cl[g].1)) as i128)
}

/// The number of members over clusters.
pub open spec fn members_total(cl: Seq<(int, Seq<int>)>) -> int
    decreases cl.len(),
{
    if cl.len() == 0 {
        0
    } else {
        members_total(cl.drop_last()) + cl.last().1.len()
    }
}

/// The members' bytes over clusters.
pub open spec fn bytes_total(images: Seq<(FileEntry, Vec<u8>)>, cl: Seq<(int, Seq<int>)>) -> int
    decreases cl.len(),
{
    if cl.len() == 0 {
        0
    } else {
        bytes_total(images, cl.drop_last()) + members_bytes(images, cl.last().1)
    }
}

/// The summed sizes of all images.
pub open spec fn image_bytes(images: Seq<(FileEntry, Vec<u8>)>) -> int
    decreases images.len(),
{
    if images.len() == 0 {
        0
    } else {
        image_bytes(images.drop_last()) + images.last().0.size
    }
}

/// The number of taken images.
pub open spec fn taken_count(vis: Seq<bool>) -> int
    decreases vis.len(),
{
    if vis.len() == 0 {
        0
    } else {
        taken_count(vis.drop_last()) + (if vis.last() {
            1int
        } else {
            0int
        })
    }
}

/// The summed sizes of the taken images.
pub open spec fn taken_bytes(vis: Seq<bool>, images: Seq<(FileEntry, Vec<u8>)>) -> int
    decreases vis.len(),
{
    if vis.len() == 0 {
        0
    } else {
        taken_bytes(vis.drop_last(), images) + (if vis.last() {
            images[vis.len() - 1].0.size as int
        } else {
            0int
        })
    }
}

proof fn lemma_take_one(vis: Seq<bool>, images: Seq<(FileEntry, Vec<u8>)>, k: int)
    requires
        0 <= k < vis.len(),
        !vis[k],
    ensures
        taken_count(vis.update(k, true)) == taken_count(vis) + 1,
        taken_bytes(vis.update(k, true), images) == taken_bytes(vis, images) + images[k].0.size,
    decreases vis.len(),
{
    let u = vis.update(k, true);
    if k < vis.len() - 1 {
        assert(u.drop_last() =~= vis.drop_last().update(k, true));
        lemma_take_one(vis.drop_last(), images, k);
    } else {
        assert(u.drop_last() =~= vis.drop_last());
    }
}

proof fn lemma_taken_bounds(vis: Seq<bool>, images: Seq<(FileEntry, Vec<u8>)>)
    requires
        vis.len() == images.len(),
    ensures
        0 <= taken_count(vis) <= vis.len(),
        0 <= taken_bytes(vis, images) <= image_bytes(images),
    decreases vis.len(),
{
    if vis.len() > 0 {
        assert(images.drop_last().len() == vis.drop_last().len());
        lemma_taken_bounds(vis.drop_last(), images.drop_last());
        lemma_taken_bytes_prefix(vis.drop_last(), images);
    }
}

proof fn lemma_taken_bytes_prefix(vis: Seq<bool>, images: Seq<(FileEntry, Vec<u8>)>)
    requires
        vis.len() < images.len(),
    ensures
        taken_bytes(vis, images) == taken_bytes(vis, images.drop_last()),
    decreases vis.len(),
{
    if vis.len() > 0 {
        lemma_taken_bytes_prefix(vis.drop_last(), images);
    }
}

/// The clusters as exec values, viewed as plain sequences.
pub open spec fn clusters_view(c: Seq<(usize, Vec<usize>, u64)>) -> Seq<(int, Seq<int>)> {
    c.map_values(|p: (usize, Vec<usize>, u64)| (p.0 as int, p.1@.map_values(|x: usize| x as int)))
}

/// Whether every hash is short enough for its distance to fit in a `u32`.
pub open spec fn hashes_fit(images: Seq<(FileEntry, Vec<u8>)>) -> bool {
    forall|k: int| 0 <= k < images.len() ==> (#[trigger] images[k]).1@.len() * 8 <= u32::MAX
}

proof fn lemma_members_range(hs: Seq<Seq<u8>>, vis: Seq<bool>, a: int, maxd: nat, m: int)
    ensures
        forall|t: int| 0 <= t < members_upto(hs, vis, a, maxd, m).len() ==> a < #[trigger] members_upto(hs, vis, a, maxd, m)[t] < m,
        forall|s: int, t: int| 0 <= s < t < members_upto(hs, vis, a, maxd, m).len() ==> #[trigger] members_upto(hs, vis, a, maxd, m)[s] < #[trigger] members_upto(hs, vis, a, maxd, m)[t],
    decreases m - a,
{
    if m > a + 1 {
        lemma_members_range(hs, vis, a, maxd, m - 1);
        let p = members_upto(hs, vis, a, maxd, m - 1);
        let r = members_upto(hs, vis, a, maxd, m);
        assert forall|t: int| 0 <= t < r.len() implies a < #[trigger] r[t] < m by {
            if t < p.len() {
                assert(r[t] == p[t]);
            }
        }
        assert forall|s: int, t: int| 0 <= s < t < r.len() implies #[trigger] r[s] < #[trigger] r[t] by {
            assert(r[s] == p[s]);
            if t < p.len() {
                assert(r[t] == p[t]);
            }
        }
    }
}

/// The clusters of the hashed images, each with its members' bytes.
#[verifier::rlimit(40)]
fn find_clusters(images: &Vec<(FileEntry, Vec<u8>)>, max_distance: u32) -> (r: Vec<(usize, Vec<usize>, u64)>)
    requires
        hashes_fit(images@),
        image_bytes(images@) <= u64::MAX,
    ensures
        clusters_view(r@) == clusters_of(images@, max_distance as nat),
        forall|g: int| 0 <= g < r@.len() ==> (#[trigger] r@[g]).2 == members_bytes(images@, clusters_view(r@)[g].1),
        members_total(clusters_view(r@)) <= images@.len(),
        bytes_total(images@, clusters_view(r@)) <= u64::MAX,
        forall|q: int| 0 <= q < r@.len() ==> (#[trigger] r@[q]).0 < images@.len() && forall|t: int|
            0 <= t < r@[q].1@.len() ==> #[trigger] r@[q].1@[t] < images@.len(),
{
    let ghost hs = hash_seqs(images@);
    let ghost maxd = max_distance as nat;
    let n = images.len();
    let mut vis: Vec<bool> = Vec::new();
    let mut k: usize = 0;
    while k < n
        invariant
            k <= n,
            vis@ == Seq::new(k as nat, |q: int| false),
        decreases n - k,
    {
        vis.push(false);
        k = k + 1;
        assert(vis@ =~= Seq::new(k as nat, |q: int| false));
    }
    proof {
        assert(hs.len() == n);
        assert(vis@ =~= cluster_state(hs, maxd, 0).0);
        lemma_none_taken(vis@, images@);
    }
    let mut clusters: Vec<(usize, Vec<usize>, u64)> = Vec::new();
    let ghost mut anchors: int = 0;
    let ghost mut anchor_bytes: int = 0;
    let mut i: usize = 0;
    while i < n
        invariant
            i <= n,
            n == images@.len(),
            hs == hash_seqs(images@),
            maxd == max_distance as nat,
            hashes_fit(images@),
            image_bytes(images@) <= u64::MAX,
            vis@.len() == n,
            vis@ == cluster_state(hs, maxd, i as int).0,
            clusters_view(clusters@) == cluster_state(hs, maxd, i as int).1,
            forall|g: int| 0 <= g < clusters@.len() ==> (#[trigger] clusters@[g]).2 == members_bytes(images@, clusters_view(clusters@)[g].1),
            taken_count(vis@) == members_total(clusters_view(clusters@)) + anchors,
            forall|q: int| 0 <= q < clusters@.len() ==> (#[trigger] clusters@[q]).0 < n && forall|t: int|
                0 <= t < clusters@[q].1@.len() ==> #[trigger] clusters@[q].1@[t] < n,
            taken_bytes(vis@, images@) == bytes_total(images@, clusters_view(clusters@)) + anchor_bytes,
            anchors >= 0,
            anchor_bytes >= 0,
        decreases n - i,
    {
        proof {
            lemma_taken_bounds(vis@, images@);
        }
        if !vis[i] {
            let ghost vis0 = vis@;
            let ghost t0 = taken_count(vis0);
            let ghost b0 = taken_bytes(vis0, images@);
            let mut ms: Vec<usize> = Vec::new();
            let mut bytes: u64 = 0;
            let mut j: usize = i + 1;
            while j < n
                invariant
                    i < n,
                    i + 1 <= j <= n,
                    n == images@.len(),
                    hs == hash_seqs(images@),
                    maxd == max_distance as nat,
                    hashes_fit(images@),
                    image_bytes(images@) <= u64::MAX,
                    vis0.len() == n,
                    !vis0[i as int],
                    vis@.len() == n,
                    ms@.map_values(|x: usize| x as int) == members_upto(hs, vis0, i as int, maxd, j as int),
                    vis@ == mark(vis0, ms@.map_values(|x: usize| x as int)),
                    bytes == members_bytes(images@, ms@.map_values(|x: usize| x as int)),
                    taken_count(vis@) == t0 + ms@.len(),
                    taken_bytes(vis@, images@) == b0 + bytes,
                    t0 >= 0,
                    b0 >= 0,
                decreases n - j,
            {
                proof {
                    lemma_members_range(hs, vis0, i as int, maxd, j as int);
                    lemma_taken_bounds(vis@, images@);
                    let msv = ms@.map_values(|x: usize| x as int);
                    assert(!msv.contains(j as int));
                    assert(vis@[j as int] == vis0[j as int]);
                }
                if !vis[j] {
                    proof {
                        assert(hashes_fit(images@));
                        assert(images@[i as int].1@.len() * 8 <= u32::MAX);
                        assert(hs[i as int] == images@[i as int].1@);
                        assert(hs[j as int] == images@[j as int].1@);
                    }
                    let d = hash_distance(&images[i].1, &images[j].1);
                    if d <= max_distance {
                        let ghost before = ms@.map_values(|x: usize| x as int);
                        let ghost vb = vis@;
                        proof {
                            lemma_take_one(vb, images@, j as int);
                            lemma_taken_bounds(vb.update(j as int, true), images@);
                        }
                        ms.push(j);
                        vis.set(j, true);
                        bytes = bytes + images[j].0.size;
                        proof {
                            let after = ms@.map_values(|x: usize| x as int);
                            assert(after =~= before.push(j as int));
                            assert(after.drop_last() =~= before);
                            assert forall|q: int| 0 <= q < n implies vis@[q] == mark(vis0, after)[q] by {
                                if q == j {
                                    assert(after[after.len() - 1] == j as int);
                                } else if before.contains(q) {
                                    let t = choose|t: int| 0 <= t < before.len() && before[t] == q;
                                    assert(after[t] == q);
                                } else if after.contains(q) {
                                    let t = choose|t: int| 0 <= t < after.len() && after[t] == q;
                                    assert(t < before.len());
                                    assert(before[t] == q);
                                }
                            }
                            assert(vis@ =~= mark(vis0, after));
                        }
                    }
                }
                j = j + 1;
            }
            proof {
                lemma_taken_bounds(vis@, images@);
            }
            if ms.len() > 0 {
                let ghost vb = vis@;
                proof {
                    let msv = ms@.map_values(|x: usize| x as int);
                    lemma_members_range(hs, vis0, i as int, maxd, n as int);
                    assert(!msv.contains(i as int));
                    assert(!vb[i as int]);
                    lemma_take_one(vb, images@, i as int);
                }
                vis.set(i, true);
                let ghost cv0 = clusters_view(clusters@);
                proof {
                    let msv = ms@.map_values(|x: usize| x as int);
                    lemma_members_range(hs, vis0, i as int, maxd, n as int);
                    assert forall|t: int| 0 <= t < ms@.len() implies #[trigger] ms@[t] < n by {
                        assert(msv[t] == ms@[t] as int);
                    }
                }
                let ghost old_clusters = clusters@;
                clusters.push((i, ms, bytes));
                proof {
                    assert forall|q: int| 0 <= q < clusters@.len() implies (#[trigger] clusters@[q]).0 < n && forall|t: int|
                        0 <= t < clusters@[q].1@.len() ==> #[trigger] clusters@[q].1@[t] < n by {
                        if q < old_clusters.len() {
                            assert(clusters@[q] == old_clusters[q]);
                        }
                    }
                    anchors = anchors + 1;
                    anchor_bytes = anchor_bytes + images@[i as int].0.size;
                    let cv = clusters_view(clusters@);
                    assert(cv.drop_last() =~= cv0);
                    assert(cv =~= cv0.push((i as int, members_upto(hs, vis0, i as int, maxd, n as int))));
                    assert forall|g: int| 0 <= g < clusters@.len() implies (#[trigger] clusters@[g]).2 == members_bytes(images@, cv[g].1) by {
                        if g < clusters@.len() - 1 {
                            assert(cv[g] == cv0[g]);
                        }
                    }
                }
            }
        }
        i = i + 1;
    }
    proof {
        lemma_taken_bounds(vis@, images@);
    }
    clusters
}

proof fn lemma_none_taken(vis: Seq<bool>, images: Seq<(FileEntry, Vec<u8>)>)
    requires
        forall|k: int| 0 <= k < vis.len() ==> !vis[k],
    ensures
        taken_count(vis) == 0,
        taken_bytes(vis, images) == 0,
    decreases vis.len(),
{
    if vis.len() > 0 {
        lemma_none_taken(vis.drop_last(), images);
    }
}

proof fn lemma_totals_prefix(images: Seq<(FileEntry, Vec<u8>)>, cl: Seq<(int, Seq<int>)>, g: int)
    requires
        0 <= g <= cl.len(),
    ensures
        0 <= members_total(cl.take(g)) <= members_total(cl),
        0 <= bytes_total(images, cl.take(g)) <= bytes_total(images, cl),
    decreases cl.len(),
{
    if g < cl.len() {
        assert(cl.drop_last().take(g) =~= cl.take(g));
        lemma_totals_prefix(images, cl.drop_last(), g);
        lemma_members_bytes_nonneg(images, cl.last().1);
    } else {
        assert(cl.take(g) =~= cl);
        lemma_totals_nonneg(images, cl);
    }
}

proof fn lemma_members_bytes_nonneg(images: Seq<(FileEntry, Vec<u8>)>, ms: Seq<int>)
    ensures
        members_bytes(images, ms) >= 0,
    decreases ms.len(),
{
    if ms.len() > 0 {
        lemma_members_bytes_nonneg(images, ms.drop_last());
    }
}

proof fn lemma_totals_nonneg(images: Seq<(FileEntry, Vec<u8>)>, cl: Seq<(int, Seq<int>)>)
    ensures
        members_total(cl) >= 0,
        bytes_total(images, cl) >= 0,
    decreases cl.len(),
{
    if cl.len() > 0 {
        lemma_totals_nonneg(images, cl.drop_last());
        lemma_members_bytes_nonneg(images, cl.last().1);
    }
}

/// A copy of a byte vector.
fn copy_bytes(v: &Vec<u8>) -> (r: Vec<u8>)
    ensures
        r@ == v@,
{
    let mut r: Vec<u8> = Vec::new();
    let mut i: usize = 0;
    while i < v.len()
        invariant
            i <= v@.len(),
            r@ == v@.take(i as int),
        decreases v@.len() - i,
    {
        r.push(v[i]);
        i = i + 1;
        assert(r@ =~= v@.take(i as int));
    }
    assert(v@.take(i as int) =~= v@);
    r
}

/// A copy of a group.
fn copy_group(g: &SimilarImageGroup) -> (r: SimilarImageGroup)
    ensures
        group_view(r) == group_view(*g),
{
    let mut similar: Vec<SimilarImageEntry> = Vec::new();
    let mut i: usize = 0;
    while i < g.similar_files.len()
        invariant
            i <= g.similar_files@.len(),
            similar@.len() == i,
            forall|k: int| 0 <= k < i ==> (#[trigger] similar@[k]).file == g.similar_files@[k].file && similar@[k].distance == g.similar_files@[k].distance,
        decreases g.similar_files@.len() - i,
    {
        let e = &g.similar_files[i];
        similar.push(SimilarImageEntry { file: e.file.copied(), distance: e.distance });
        i = i + 1;
    }
    let r = SimilarImageGroup { canonical: g.canonical.copied(), similar_files: similar, hash: copy_bytes(&g.hash) };
    assert(group_view(r).similar =~= group_view(*g).similar);
    r
}

/// The group of a cluster: the anchor as canonical image, each member with
/// its distance from it.
fn build_group(images: &Vec<(FileEntry, Vec<u8>)>, a: usize, ms: &Vec<usize>) -> (r: SimilarImageGroup)
    requires
        hashes_fit(images@),
        a < images@.len(),
        forall|t: int| 0 <= t < ms@.len() ==> (#[trigger] ms@[t]) < images@.len(),
    ensures
        group_view(r) == cluster_view(images@, (a as int, ms@.map_values(|x: usize| x as int))),
{
    let ghost msv = ms@.map_values(|x: usize| x as int);
    let ghost want = cluster_view(images@, (a as int, msv));
    let mut similar: Vec<SimilarImageEntry> = Vec::new();
    let mut t: usize = 0;
    while t < ms.len()
        invariant
            t <= ms@.len(),
            hashes_fit(images@),
            a < images@.len(),
            forall|q: int| 0 <= q < ms@.len() ==> (#[trigger] ms@[q]) < images@.len(),
            msv == ms@.map_values(|x: usize| x as int),
            want == cluster_view(images@, (a as int, msv)),
            similar@.len() == t,
            forall|k: int| 0 <= k < t ==> ((#[trigger] similar@[k]).file, similar@[k].distance) == want.similar[k],
        decreases ms@.len() - t,
    {
        let j = ms[t];
        proof {
            assert(images@[a as int].1@.len() * 8 <= u32::MAX);
        }
        let d = hash_distance(&images[a].1, &images[j].1);
        similar.push(SimilarImageEntry { file: images[j].0.copied(), distance: d });
        proof {
            assert(msv[t as int] == j as int);
            assert(want.similar[t as int] == (images@[j as int].0, hamming(images@[a as int].1@, images@[j as int].1@) as u32));
        }
        t = t + 1;
    }
    let r = SimilarImageGroup { canonical: images[a].0.copied(), similar_files: similar, hash: copy_bytes(&images[a].1) };
    assert(group_view(r).similar =~= want.similar);
    r
}

/// Clusters visually similar images by the Hamming distance of their
/// perceptual hashes. Each image not yet taken, in order, gathers every
/// later image not yet taken within `max_distance` of it; when it gathers
/// any, it becomes a group's canonical image and they its similar images.
/// Groups come in order of their similar images' total size, largest
/// first (ties in the order found); the totals count the similar images and
/// their bytes.
pub fn cluster_similar_images(images: &Vec<(FileEntry, Vec<u8>)>, max_distance: u32) -> (r: SimilarImageReport)
    requires
        hashes_fit(images@),
        image_bytes(images@) <= u64::MAX,
    ensures
        ({
            let cl = clusters_of(images@, max_distance as nat);
            &&& exists|order: Seq<usize>|
                is_stable_order(cluster_keys(images@, cl), order) && r.groups@.len() == order.len() && forall|a: int|
                    0 <= a < order.len() ==> group_view(#[trigger] r.groups@[a]) == cluster_view(images@, cl[order[a] as int])
            &&& r.total_groups == cl.len()
            &&& r.total_similar_files == members_total(cl)
            &&& r.reclaimable_bytes == bytes_total(images@, cl)
        }),
{
    let clusters = find_clusters(images, max_distance);
    let ghost cl = clusters_view(clusters@);
    let mut built: Vec<SimilarImageGroup> = Vec::new();
    let mut keys: Vec<i128> = Vec::new();
    let mut files: usize = 0;
    let mut bytes: u64 = 0;
    let mut g: usize = 0;
    while g < clusters.len()
        invariant
            g <= clusters@.len(),
            cl == clusters_view(clusters@),
            cl == clusters_of(images@, max_distance as nat),
            hashes_fit(images@),
            forall|q: int| 0 <= q < clusters@.len() ==> (#[trigger] clusters@[q]).2 == members_bytes(images@, cl[q].1),
            members_total(cl) <= images@.len(),
            bytes_total(images@, cl) <= u64::MAX,
            built@.len() == g,
            keys@ == cluster_keys(images@, cl).take(g as int),
            forall|q: int| 0 <= q < g ==> group_view(#[trigger] built@[q]) == cluster_view(images@, cl[q]),
            files == members_total(cl.take(g as int)),
            bytes == bytes_total(images@, cl.take(g as int)),
            forall|q: int| 0 <= q < clusters@.len() ==> (#[trigger] clusters@[q]).0 < images@.len() && forall|t: int|
                0 <= t < clusters@[q].1@.len() ==> #[trigger] clusters@[q].1@[t] < images@.len(),
        decreases clusters@.len() - g,
    {
        proof {
            lemma_totals_prefix(images@, cl, g + 1);
            assert(cl.take(g + 1).drop_last() =~= cl.take(g as int));
            assert(cl.take(g + 1).last() == cl[g as int]);
        }
        let c = &clusters[g];
        proof {
            assert(cl[g as int].1.len() == c.1@.len());
            assert(members_total(cl.take(g + 1)) == files + c.1@.len());
            assert(images@.len() == images.len());
            assert(bytes_total(images@, cl.take(g + 1)) == bytes + c.2);
        }
        let grp = build_group(images, c.0, &c.1);
        built.push(grp);
        keys.push(-(c.2 as i128));
        files = files + c.1.len();
        bytes = bytes + c.2;
        g = g + 1;
        proof {
            assert(keys@ =~= cluster_keys(images@, cl).take(g as int));
        }
    }
    proof {
        assert(cl.take(g as int) =~= cl);
        assert(keys@ =~= cluster_keys(images@, cl));
    }
    let order = stable_order(&keys);
    let mut groups: Vec<SimilarImageGroup> = Vec::new();
    let mut a: usize = 0;
    while a < order.len()
        invariant
            a <= order@.len(),
            is_stable_order(keys@, order@),
            keys@.len() == built@.len(),
            forall|q: int| 0 <= q < built@.len() ==> group_view(#[trigger] built@[q]) == cluster_view(images@, cl[q]),
            groups@.len() == a,
            forall|q: int| 0 <= q < a ==> group_view(#[trigger] groups@[q]) == cluster_view(images@, cl[order@[q] as int]),
        decreases order@.len() - a,
    {
        let k = order[a];
        groups.push(copy_group(&built[k]));
        a = a + 1;
    }
    SimilarImageReport { total_groups: built.len(), total_similar_files: files, reclaimable_bytes: bytes, groups }
}

proof fn lemma_members_close(hs: Seq<Seq<u8>>, vis: Seq<bool>, a: int, maxd: nat, m: int)
    ensures
        forall|t: int| 0 <= t < members_upto(hs, vis, a, maxd, m).len() ==> hamming(hs[a], hs[#[trigger] members_upto(hs, vis, a, maxd, m)[t]]) <= maxd,
    decreases m - a,
{
    if m > a + 1 {
        lemma_members_close(hs, vis, a, maxd, m - 1);
        let p = members_upto(hs, vis, a, maxd, m - 1);
        let r = members_upto(hs, vis, a, maxd, m);
        assert forall|t: int| 0 <= t < r.len() implies hamming(hs[a], hs[#[trigger] r[t]]) <= maxd by {
            if t < p.len() {
                assert(r[t] == p[t]);
            }
        }
    }
}

proof fn lemma_clusters_close(hs: Seq<Seq<u8>>, maxd: nat, i: int)
    ensures
        forall|g: int, t: int|
            0 <= g < cluster_state(hs, maxd, i).1.len() && 0 <= t < cluster_state(hs, maxd, i).1[g].1.len() ==> hamming(
                hs[cluster_state(hs, maxd, i).1[g].0],
                hs[#[trigger] cluster_state(hs, maxd, i).1[g].1[t]],
            ) <= maxd,
    decreases i,
{
    if i > 0 {
        lemma_clusters_close(hs, maxd, i - 1);
        let prev = cluster_state(hs, maxd, i - 1);
        let a = i - 1;
        if !prev.0[a] {
            lemma_members_close(hs, prev.0, a, maxd, hs.len() as int);
        }
    }
}

/// Every image of a group lies within the distance limit of the group's
/// canonical image.
pub proof fn law_similar_within_limit(images: Seq<(FileEntry, Vec<u8>)>, maxd: nat)
    ensures
        forall|g: int, t: int|
            0 <= g < clusters_of(images, maxd).len() && 0 <= t < clusters_of(images, maxd)[g].1.len() ==> hamming(
                images[clusters_of(images, maxd)[g].0].1@,
                images[#[trigger] clusters_of(images, maxd)[g].1[t]].1@,
            ) <= maxd,
{
    let hs = hash_seqs(images);
    lemma_clusters_close(hs, maxd, images.len() as int);
    let cl = clusters_of(images, maxd);
    assert forall|g: int, t: int| 0 <= g < cl.len() && 0 <= t < cl[g].1.len() implies hamming(
        images[cl[g].0].1@,
        images[#[trigger] cl[g].1[t]].1@,
    ) <= maxd by {
        lemma_clusters_range(hs, maxd, images.len() as int);
        assert(hs[cl[g].0] == images[cl[g].0].1@);
        assert(hs[cl[g].1[t]] == images[cl[g].1[t]].1@);
    }
}

proof fn lemma_clusters_range(hs: Seq<Seq<u8>>, maxd: nat, i: int)
    requires
        i <= hs.len(),
    ensures
        cluster_state(hs, maxd, i).0.len() == hs.len(),
        forall|g: int| 0 <= g < cluster_state(hs, maxd, i).1.len() ==> 0 <= #[trigger] cluster_state(hs, maxd, i).1[g].0 < i,
        forall|g: int, t: int|
            0 <= g < cluster_state(hs, maxd, i).1.len() && 0 <= t < cluster_state(hs, maxd, i).1[g].1.len() ==> cluster_state(
                hs,
                maxd,
                i,
            ).1[g].0 < #[trigger] cluster_state(hs, maxd, i).1[g].1[t] < hs.len(),
    decreases i,
{
    if i > 0 {
        lemma_clusters_range(hs, maxd, i - 1);
        let prev = cluster_state(hs, maxd, i - 1);
        let a = i - 1;
        if !prev.0[a] {
            lemma_members_range(hs, prev.0, a, maxd, hs.len() as int);
        }
    }
}

/// Whether image `k` is the canonical or a similar image of a cluster.
pub open spec fn in_cluster(c: (int, Seq<int>), k: int) -> bool {
    c.0 == k || c.1.contains(k)
}

proof fn lemma_members_untaken(hs: Seq<Seq<u8>>, vis: Seq<bool>, a: int, maxd: nat, m: int)
    ensures
        forall|t: int| 0 <= t < members_upto(hs, vis, a, maxd, m).len() ==> !vis[#[trigger] members_upto(hs, vis, a, maxd, m)[t]],
    decreases m - a,
{
    if m > a + 1 {
        lemma_members_untaken(hs, vis, a, maxd, m - 1);
        let p = members_upto(hs, vis, a, maxd, m - 1);
        let r = members_upto(hs, vis, a, maxd, m);
        assert forall|t: int| 0 <= t < r.len() implies !vis[#[trigger] r[t]] by {
            if t < p.len() {
                assert(r[t] == p[t]);
            }
        }
    }
}

proof fn lemma_clusters_disjoint(hs: Seq<Seq<u8>>, maxd: nat, i: int)
    requires
        i <= hs.len(),
    ensures
        forall|g: int, k: int|
            0 <= g < cluster_state(hs, maxd, i).1.len() && #[trigger] in_cluster(cluster_state(hs, maxd, i).1[g], k)
                ==> 0 <= k < hs.len() && cluster_state(hs, maxd, i).0[k],
        forall|g1: int, g2: int, k: int|
            0 <= g1 < g2 < cluster_state(hs, maxd, i).1.len() ==> !(#[trigger] in_cluster(
                cluster_state(hs, maxd, i).1[g1],
                k,
            ) && #[trigger] in_cluster(cluster_state(hs, maxd, i).1[g2], k)),
    decreases i,
{
    lemma_clusters_range(hs, maxd, i);
    if i > 0 {
        lemma_clusters_disjoint(hs, maxd, i - 1);
        lemma_clusters_range(hs, maxd, i - 1);
        let prev = cluster_state(hs, maxd, i - 1);
        let a = i - 1;
        if !prev.0[a] {
            let ms = members_upto(hs, prev.0, a, maxd, hs.len() as int);
            if ms.len() > 0 {
                lemma_members_untaken(hs, prev.0, a, maxd, hs.len() as int);
                lemma_members_range(hs, prev.0, a, maxd, hs.len() as int);
                let cur = cluster_state(hs, maxd, i);
                let nv = mark(prev.0, ms).update(a, true);
                assert(cur.0 == nv);
                assert(cur.1 == prev.1.push((a, ms)));
                assert forall|g: int, k: int| 0 <= g < cur.1.len() && #[trigger] in_cluster(cur.1[g], k) implies 0 <= k
                    < hs.len() && cur.0[k] by {
                    if g < prev.1.len() {
                        assert(cur.1[g] == prev.1[g]);
                        assert(prev.0[k]);
                    } else {
                        if k != a {
                            assert(ms.contains(k));
                            let t = choose|t: int| 0 <= t < ms.len() && ms[t] == k;
                            assert(a < ms[t] < hs.len());
                        }
                    }
                }
                assert forall|g1: int, g2: int, k: int| 0 <= g1 < g2 < cur.1.len() implies !(#[trigger] in_cluster(
                    cur.1[g1],
                    k,
                ) && #[trigger] in_cluster(cur.1[g2], k)) by {
                    assert(cur.1[g1] == prev.1[g1]);
                    if g2 < prev.1.len() {
                        assert(cur.1[g2] == prev.1[g2]);
                    } else if in_cluster(cur.1[g1], k) {
                        assert(prev.0[k]);
                        if ms.contains(k) {
                            let t = choose|t: int| 0 <= t < ms.len() && ms[t] == k;
                            assert(!prev.0[ms[t]]);
                        }
                    }
                }
            }
        }
    }
}

/// No image belongs to two groups, and no group lists its canonical image
/// or an image twice among its similar ones.
pub proof fn law_groups_disjoint(images: Seq<(FileEntry, Vec<u8>)>, maxd: nat)
    ensures
        forall|g1: int, g2: int, k: int|
            0 <= g1 < g2 < clusters_of(images, maxd).len() ==> !(#[trigger] in_cluster(clusters_of(images, maxd)[g1], k)
                && #[trigger] in_cluster(clusters_of(images, maxd)[g2], k)),
        forall|g: int, t: int|
            0 <= g < clusters_of(images, maxd).len() && 0 <= t < clusters_of(images, maxd)[g].1.len()
                ==> clusters_of(images, maxd)[g].0 < #[trigger] clusters_of(images, maxd)[g].1[t],
        forall|g: int, s: int, t: int|
            0 <= g < clusters_of(images, maxd).len() && 0 <= s < t < clusters_of(images, maxd)[g].1.len()
                ==> #[trigger] clusters_of(images, maxd)[g].1[s] < #[trigger] clusters_of(images, maxd)[g].1[t],
{
    let hs = hash_seqs(images);
    let n = images.len() as int;
    lemma_clusters_disjoint(hs, maxd, n);
    lemma_clusters_ordered(hs, maxd, n);
    lemma_clusters_range(hs, maxd, n);
}

proof fn lemma_clusters_ordered(hs: Seq<Seq<u8>>, maxd: nat, i: int)
    requires
        i <= hs.len(),
    ensures
        forall|g: int, s: int, t: int|
            0 <= g < cluster_state(hs, maxd, i).1.len() && 0 <= s < t < cluster_state(hs, maxd, i).1[g].1.len()
                ==> #[trigger] cluster_state(hs, maxd, i).1[g].1[s] < #[trigger] cluster_state(hs, maxd, i).1[g].1[t],
    decreases i,
{
    if i > 0 {
        lemma_clusters_ordered(hs, maxd, i - 1);
        let prev = cluster_state(hs, maxd, i - 1);
        let a = i - 1;
        lemma_clusters_range(hs, maxd, i - 1);
        if !prev.0[a] {
            lemma_members_range(hs, prev.0, a, maxd, hs.len() as int);
        }
    }
}

} // verus!
