//! BLAKE3 content hashes: of a file's first block (the partial hash) and of
//! its whole content, in lowercase hexadecimal.
//!
//! Reading the file is left to the caller; these functions hash the bytes
//! they are given.

use vstd::prelude::*;

verus! {

/// Size of the partial hash prefix (8 KB).
pub const PARTIAL_HASH_SIZE: usize = 8 * 1024;

#[verifier::external_type_specification]
#[verifier::external_body]
pub struct ExBlake3Hasher(blake3::Hasher);

/// The 32-byte BLAKE3 digest of `data`.
pub uninterp spec fn blake3_digest(data: Seq<u8>) -> Seq<u8>;

/// The bytes an incremental BLAKE3 hasher has been given so far.
pub uninterp spec fn hasher_input(h: blake3::Hasher) -> Seq<u8>;

/// The lowercase hexadecimal digit for `d < 16`.
pub open spec fn hex_digit(d: nat) -> char {
    if d < 10 {
        ((d + 48) as u32) as char
    } else {
        ((d + 87) as u32) as char
    }
}

/// Bytes in lowercase hexadecimal, two digits per byte, high nibble first.
pub open spec fn hex_lower(bytes: Seq<u8>) -> Seq<char>
    decreases bytes.len(),
{
    if bytes.len() == 0 {
        Seq::empty()
    } else {
        hex_lower(bytes.drop_last()) + seq![
            hex_digit((bytes.last() / 16) as nat),
            hex_digit((bytes.last() % 16) as nat),
        ]
    }
}

/// The hash text of `data`: its BLAKE3 digest in lowercase hexadecimal.
pub open spec fn hash_hex(data: Seq<u8>) -> Seq<char> {
    hex_lower(blake3_digest(data))
}

/// The part of a file's content the partial hash covers.
pub open spec fn first_block(data: Seq<u8>) -> Seq<u8> {
    if data.len() <= PARTIAL_HASH_SIZE {
        data
    } else {
        data.take(PARTIAL_HASH_SIZE as int)
    }
}

/// `blake3::hash(data).to_hex()`: the digest of `data`, in lowercase hex.
#[verifier::external_body]
fn blake3_hash_hex(data: &[u8]) -> (r: String)
    ensures
        r@ == hex_lower(blake3_digest(data@)),
{
    blake3::hash(data).to_hex().to_string()
}

/// `blake3::Hasher::new()`: a hasher that has seen no input.
#[verifier::external_body]
fn hasher_new() -> (h: blake3::Hasher)
    ensures
        hasher_input(h) == Seq::<u8>::empty(),
{
    blake3::Hasher::new()
}

/// `blake3::Hasher::update`: appends `data` to the hashed input.
#[verifier::external_body]
fn hasher_update(h: &mut blake3::Hasher, data: &[u8])
    ensures
        hasher_input(*final(h)) == hasher_input(*old(h)) + data@,
{
    h.update(data);
}

/// `blake3::Hasher::finalize().to_hex()`: the digest of all input so far,
/// the same as `blake3::hash` of that input, in lowercase hex.
#[verifier::external_body]
fn hasher_finalize_hex(h: &blake3::Hasher) -> (r: String)
    ensures
        r@ == hex_lower(blake3_digest(hasher_input(*h))),
{
    h.finalize().to_hex().to_string()
}

/// The partial hash of a file whose content begins with `prefix`: the hash
/// of its first `PARTIAL_HASH_SIZE` bytes, or of all of it when shorter.
pub fn partial_hash_of(prefix: &[u8]) -> (r: String)
    ensures
        r@ == hash_hex(first_block(prefix@)),
{
    if prefix.len() <= PARTIAL_HASH_SIZE {
        blake3_hash_hex(prefix)
    } else {
        let mut block: Vec<u8> = Vec::new();
        let mut i: usize = 0;
        while i < PARTIAL_HASH_SIZE
            invariant
                i <= PARTIAL_HASH_SIZE < prefix@.len(),
                block@ == prefix@.take(i as int),
            decreases PARTIAL_HASH_SIZE - i,
        {
            block.push(prefix[i]);
            i = i + 1;
            assert(prefix@.take(i as int) =~= prefix@.take((i - 1) as int).push(prefix@[i - 1]));
        }
        blake3_hash_hex(block.as_slice())
    }
}

/// Hashes a file's content incrementally, block by block.
pub struct ContentHasher {
    inner: blake3::Hasher,
}

impl ContentHasher {
    /// The content given so far.
    pub closed spec fn input(&self) -> Seq<u8> {
        hasher_input(self.inner)
    }

    /// A hasher that has seen no content.
    pub fn new() -> (r: ContentHasher)
        ensures
            r.input() == Seq::<u8>::empty(),
    {
        ContentHasher { inner: hasher_new() }
    }

    /// Adds the next block of content.
    pub fn update(&mut self, block: &[u8])
        ensures
            final(self).input() == old(self).input() + block@,
    {
        hasher_update(&mut self.inner, block);
    }

    /// The hash of all content given so far.
    pub fn finalize_hex(&self) -> (r: String)
        ensures
            r@ == hash_hex(self.input()),
    {
        hasher_finalize_hex(&self.inner)
    }
}

/// The full hash of a content held in memory.
pub fn full_hash_of(content: &[u8]) -> (r: String)
    ensures
        r@ == hash_hex(content@),
{
    let mut h = ContentHasher::new();
    h.update(content);
    assert(h.input() =~= content@);
    h.finalize_hex()
}

/// For content no longer than the partial block, the partial hash is the
/// full hash.
pub proof fn lemma_partial_is_full_for_small(content: Seq<u8>)
    requires
        content.len() <= PARTIAL_HASH_SIZE,
    ensures
        hash_hex(first_block(content)) == hash_hex(content),
{
}

/// Equal contents have equal hashes, partial and full.
pub proof fn lemma_hash_deterministic(a: Seq<u8>, b: Seq<u8>)
    requires
        a == b,
    ensures
        hash_hex(a) == hash_hex(b),
        hash_hex(first_block(a)) == hash_hex(first_block(b)),
{
}

} // verus!
