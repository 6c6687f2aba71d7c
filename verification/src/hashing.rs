//! Content keys: BLAKE3 digests, their lowercase hexadecimal form, decimal
//! rendering of counters, and little-endian reading of digest bytes.
use vstd::prelude::*;
use vstd::utf8::encode_utf8;
use crate::text::{string_of, extend_chars};

verus! {

/// The 32-byte BLAKE3 digest of `input`, as `blake3::hash` computes it.
pub uninterp spec fn blake3_digest(input: Seq<u8>) -> Seq<u8>;

/// Calls `blake3::hash` and returns the digest bytes. Claimed: the bytes are
/// the named digest of the input, and there are 32 of them.
#[verifier::external_body]
fn blake3_hash(input: &[u8]) -> (digest: Vec<u8>)
    ensures
        digest@ == blake3_digest(input@),
        digest@.len() == 32,
{
    blake3::hash(input).as_bytes().to_vec()
}

/// The lowercase hexadecimal digit for `n < 16`.
pub open spec fn hex_digit(n: int) -> char {
    if n < 10 {
        (('0' as int) + n) as char
    } else {
        (('a' as int) + n - 10) as char
    }
}

/// The lowercase hexadecimal form of `bytes`, two digits per byte.
pub open spec fn hex_lower(bytes: Seq<u8>) -> Seq<char>
    decreases bytes.len(),
{
    if bytes.len() == 0 {
        Seq::empty()
    } else {
        hex_lower(bytes.drop_last()) + seq![
            hex_digit(bytes.last() as int / 16),
            hex_digit(bytes.last() as int % 16),
        ]
    }
}

/// The decimal digit for `n < 10`.
pub open spec fn decimal_digit(n: int) -> char {
    (('0' as int) + n) as char
}

/// The decimal form of `n`, without leading zeros.
pub open spec fn decimal(n: nat) -> Seq<char>
    decreases n,
{
    if n < 10 {
        seq![decimal_digit(n as int)]
    } else {
        decimal(n / 10) + seq![decimal_digit((n % 10) as int)]
    }
}

/// The unsigned integer whose little-endian bytes are `b`.
pub open spec fn le_value(b: Seq<u8>) -> nat
    decreases b.len(),
{
    if b.len() == 0 {
        0
    } else {
        b[0] as nat + 256 * le_value(b.drop_first())
    }
}

/// `256` raised to `n`.
pub open spec fn pow256(n: nat) -> nat
    decreases n,
{
    if n == 0 {
        1
    } else {
        256 * pow256((n - 1) as nat)
    }
}

/// The lowercase hexadecimal BLAKE3 key of the UTF-8 bytes of `text`.
pub open spec fn blake3_hex(text: Seq<char>) -> Seq<char> {
    hex_lower(blake3_digest(encode_utf8(text)))
}

/// The digest bytes of `bytes`.
pub fn digest_bytes(bytes: &[u8]) -> (r: Vec<u8>)
    ensures
        r@ == blake3_digest(bytes@),
        r@.len() == 32,
{
    blake3_hash(bytes)
}

/// The digit character for `n < 16`.
fn hex_char(n: u8) -> (c: char)
    requires
        n < 16,
    ensures
        c == hex_digit(n as int),
{
    if n < 10 {
        let b: u8 = 48 + n;
        b as char
    } else {
        let b: u8 = 87 + n;
        b as char
    }
}

/// The lowercase hexadecimal form of `bytes`.
pub fn to_hex_lower(bytes: &[u8]) -> (r: Vec<char>)
    ensures
        r@ == hex_lower(bytes@),
{
    let mut r: Vec<char> = Vec::new();
    let mut i: usize = 0;
    while i < bytes.len()
        invariant
            i <= bytes.len(),
            r@ == hex_lower(bytes@.take(i as int)),
        decreases bytes.len() - i,
    {
        let b = bytes[i];
        let ghost before = r@;
        r.push(hex_char(b / 16));
        r.push(hex_char(b % 16));
        i += 1;
        proof {
            let t = bytes@.take(i as int);
            assert(t.drop_last() =~= bytes@.take(i - 1));
            assert(t.last() == b);
            assert(r@ =~= hex_lower(t));
        }
    }
    assert(bytes@.take(bytes@.len() as int) =~= bytes@);
    r
}

/// The lowercase hexadecimal BLAKE3 key of `text`, as
/// `blake3::hash(text.as_bytes()).to_string()`.
pub fn hash_text_hex(text: &str) -> (r: String)
    ensures
        r@ == blake3_hex(text@),
        r@.len() == 64,
{
    let bytes = text.as_bytes();
    let digest = blake3_hash(bytes);
    let hex = to_hex_lower(digest.as_slice());
    proof {
        lemma_hex_lower_len(digest@);
    }
    string_of(hex.as_slice())
}

/// The lowercase hexadecimal BLAKE3 key of a file's contents `bytes`, as
/// `blake3::hash(bytes).to_string()`.
pub fn hash_bytes_hex(bytes: &[u8]) -> (r: String)
    ensures
        r@ == hex_lower(blake3_digest(bytes@)),
        r@.len() == 64,
{
    let digest = blake3_hash(bytes);
    let hex = to_hex_lower(digest.as_slice());
    proof {
        lemma_hex_lower_len(digest@);
    }
    string_of(hex.as_slice())
}

/// Two hexadecimal digits stand for each byte.
pub proof fn lemma_hex_lower_len(bytes: Seq<u8>)
    ensures
        hex_lower(bytes).len() == 2 * bytes.len(),
    decreases bytes.len(),
{
    if bytes.len() > 0 {
        lemma_hex_lower_len(bytes.drop_last());
    }
}

/// The decimal form of `n`.
pub fn decimal_chars(n: u64) -> (r: Vec<char>)
    ensures
        r@ == decimal(n as nat),
    decreases n,
{
    if n < 10 {
        let b: u8 = 48 + (n as u8);
        let mut r: Vec<char> = Vec::new();
        r.push(b as char);
        assert(r@ =~= decimal(n as nat));
        r
    } else {
        let mut r = decimal_chars(n / 10);
        let d: u8 = 48 + ((n % 10) as u8);
        r.push(d as char);
        r
    }
}

/// Appends the decimal form of `n` to `v`.
pub fn push_decimal(v: &mut Vec<char>, n: u64)
    ensures
        final(v)@ == old(v)@ + decimal(n as nat),
{
    let d = decimal_chars(n);
    extend_chars(v, d.as_slice());
}

proof fn lemma_le_value_bound(b: Seq<u8>)
    ensures
        le_value(b) < pow256(b.len()),
    decreases b.len(),
{
    if b.len() > 0 {
        lemma_le_value_bound(b.drop_first());
        let rest = le_value(b.drop_first());
        let p = pow256(b.drop_first().len());
        assert(pow256(b.len()) == 256 * p);
        assert(b[0] as nat + 256 * rest < 256 * p) by (nonlinear_arith)
            requires
                rest < p,
                b[0] < 256,
        ;
    }
}

/// The unsigned integer whose little-endian bytes are the first eight of `b`.
pub fn le_u64_prefix(b: &[u8]) -> (r: u64)
    requires
        b@.len() >= 8,
    ensures
        r as nat == le_value(b@.take(8)),
{
    let mut v: u64 = 0;
    let mut i: usize = 8;
    assert(b@.subrange(8, 8) =~= Seq::<u8>::empty());
    while i > 0
        invariant
            b@.len() >= 8,
            i <= 8,
            v as nat == le_value(b@.subrange(i as int, 8)),
        decreases i,
    {
        let ghost tail = b@.subrange(i as int, 8);
        let ghost next = b@.subrange(i - 1, 8);
        proof {
            assert(next.drop_first() =~= tail);
            lemma_le_value_bound(tail);
            assert(pow256(tail.len()) <= pow256(7)) by {
                lemma_pow256_monotone(tail.len(), 7);
            }
            assert(pow256(7) == 72057594037927936) by {
                reveal_with_fuel(pow256, 8);
            }
        }
        let byte = b[i - 1];
        assert((v as nat) * 256 + byte as nat <= 0xffff_ffff_ffff_ffff) by (nonlinear_arith)
            requires
                (v as nat) < 72057594037927936,
                byte < 256,
        ;
        v = v * 256 + byte as u64;
        i -= 1;
        assert(v as nat == le_value(next));
    }
    assert(b@.subrange(0, 8) =~= b@.take(8));
    v
}

proof fn lemma_pow256_monotone(a: nat, b: nat)
    requires
        a <= b,
    ensures
        pow256(a) <= pow256(b),
    decreases b,
{
    if a < b {
        lemma_pow256_monotone(a, (b - 1) as nat);
    }
}

} // verus!
