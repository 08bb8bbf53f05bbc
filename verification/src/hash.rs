//! Content hashing for drift detection.
//!
//! Both edit modes hash **verbatim source bytes** with xxh3-64. Two tiers guard
//! each edit: a short per-anchor hash catches a localized change, and a longer
//! file-level hash guards the whole snapshot. Hashing is strict — any byte
//! change, including whitespace, is drift.

use vstd::prelude::*;

verus! {

/// What `xxhash_rust::xxh3::xxh3_64` returns for `bytes`.
pub uninterp spec fn xxh3_of(bytes: Seq<u8>) -> u64;

/// `xxhash_rust::xxh3::xxh3_64`: the 64-bit XXH3 hash of `bytes`, named.
#[verifier::external_body]
fn xxh3(bytes: &[u8]) -> (h: u64)
    ensures
        h == xxh3_of(bytes@),
{
    xxhash_rust::xxh3::xxh3_64(bytes)
}

/// The lowercase hexadecimal digit for `d < 16`.
pub open spec fn hex_char(d: nat) -> char {
    if d < 10 {
        (('0' as nat) + d) as char
    } else {
        (('a' as nat) + d - 10) as char
    }
}

/// The last `n` hexadecimal digits of `v`, most significant first, zero
/// padded.
pub open spec fn hex_digits(v: nat, n: nat) -> Seq<char>
    decreases n,
{
    if n == 0 {
        Seq::empty()
    } else {
        hex_digits(v / 16, (n - 1) as nat).push(hex_char(v % 16))
    }
}

/// The digit `d < 16` as a lowercase hex character.
fn hex_char_exec(d: u64) -> (c: char)
    requires
        d < 16,
    ensures
        c == hex_char(d as nat),
{
    let b: u8 = if d < 10 {
        48 + d as u8
    } else {
        87 + d as u8
    };
    b as char
}

/// `v`'s last `n` hex digits as a string.
fn hex_string(v: u64, n: usize) -> (s: String)
    ensures
        s@ == hex_digits(v as nat, n as nat),
    decreases n,
{
    if n == 0 {
        return String::new();
    }
    let mut s = hex_string(v / 16, n - 1);
    crate::text::push_char(&mut s, hex_char_exec(v % 16));
    s
}

/// The per-anchor hash of `bytes`: the low 16 bits of its xxh3-64, as 4
/// lowercase hex digits.
pub open spec fn anchor_hash_spec(bytes: Seq<u8>) -> Seq<char> {
    hex_digits((xxh3_of(bytes) % 65536) as nat, 4)
}

/// The file-level hash of `bytes`: its full xxh3-64 as 16 lowercase hex
/// digits.
pub open spec fn file_hash_spec(bytes: Seq<u8>) -> Seq<char> {
    hex_digits(xxh3_of(bytes) as nat, 16)
}

/// Per-anchor content hash: xxh3-64 truncated to **4 hex digits**. Short by
/// design — the file-level hash is the global guard, so a per-anchor hash
/// only needs to distinguish edit sites within one read.
pub fn anchor_hash(bytes: &[u8]) -> (s: String)
    ensures
        s@ == anchor_hash_spec(bytes@),
{
    let h = xxh3(bytes);
    let low = h & 0xffff;
    assert(low == h % 65536) by (bit_vector)
        requires
            low == h & 0xffff,
    ;
    hex_string(low, 4)
}

/// File-level snapshot hash: the full xxh3-64 as **16 hex digits**.
pub fn file_hash(bytes: &[u8]) -> (s: String)
    ensures
        s@ == file_hash_spec(bytes@),
{
    hex_string(xxh3(bytes), 16)
}

pub proof fn lemma_hex_digits_len(v: nat, n: nat)
    ensures
        hex_digits(v, n).len() == n,
    decreases n,
{
    if n > 0 {
        lemma_hex_digits_len(v / 16, (n - 1) as nat);
    }
}

/// The hashes have the specified widths: 4 characters per anchor, 16 per
/// file.
pub proof fn law_hash_widths(bytes: Seq<u8>)
    ensures
        anchor_hash_spec(bytes).len() == 4,
        file_hash_spec(bytes).len() == 16,
{
    lemma_hex_digits_len((xxh3_of(bytes) % 65536) as nat, 4);
    lemma_hex_digits_len(xxh3_of(bytes) as nat, 16);
}

} // verus!
