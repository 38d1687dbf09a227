//! The two concrete digest types: SHA-256 and SHA3-256, each a 256-bit
//! digest held as four 64-bit words (big-endian over the digest bytes), with
//! a verified canonical encoding: `0x` followed by 64 lowercase hex digits.

use vstd::prelude::*;
use crate::chars_of_bytes;
use sha2::Digest;

verus! {

/// The lowercase hexadecimal digit of a value below sixteen, as its ASCII
/// byte.
pub open spec fn hex_byte(n: u64) -> u8
    recommends
        n < 16,
{
    if n < 10 {
        (0x30 + n) as u8
    } else {
        (0x57 + n) as u8
    }
}

/// Nibble `i` of a 64-bit word, counted from the most significant.
pub open spec fn nibble(x: u64, i: int) -> u64
    recommends
        0 <= i < 16,
{
    (x >> (((15 - i) * 4) as u64)) & 0xf
}

/// The sixteen hex digits of a 64-bit word, most significant nibble first.
pub open spec fn hex_of_word(x: u64) -> Seq<u8> {
    Seq::new(16, |i: int| hex_byte(nibble(x, i)))
}

/// The canonical encoding of a 256-bit digest given as four words: the ASCII
/// bytes of `0x` followed by the hex digits of each word in order.
pub open spec fn hex_words(a: u64, b: u64, c: u64, d: u64) -> Seq<u8> {
    seq![0x30u8, 0x78u8] + hex_of_word(a) + hex_of_word(b) + hex_of_word(c) + hex_of_word(d)
}

/// Whether a byte is a lowercase hexadecimal ASCII digit: `0` to `9` or `a`
/// to `f`.
pub open spec fn is_lower_hex(b: u8) -> bool {
    (0x30 <= b && b <= 0x39) || (0x61 <= b && b <= 0x66)
}

/// Byte `k` of one 64-bit word, most significant first.
pub open spec fn word_byte(w: u64, k: int) -> u8
    recommends
        0 <= k < 8,
{
    ((w >> (((7 - k) * 8) as u64)) & 0xff) as u8
}

/// The high four bits of a byte.
pub open spec fn high_nibble(b: u8) -> u64 {
    ((b as u64) >> 4) & 0xf
}

/// The low four bits of a byte.
pub open spec fn low_nibble(b: u8) -> u64 {
    (b as u64) & 0xf
}

/// The sixteen hex digits of a word are the two digits of each of its eight
/// bytes, high nibble first, and all of them are lowercase hex ASCII.
proof fn lemma_hex_word_bytes(w: u64)
    ensures
        forall|k: int|
            0 <= k < 8 ==> hex_of_word(w)[2 * k] == hex_byte(high_nibble(word_byte(w, k))),
        forall|k: int|
            0 <= k < 8 ==> hex_of_word(w)[2 * k + 1] == hex_byte(low_nibble(word_byte(w, k))),
        forall|i: int| 0 <= i < 16 ==> is_lower_hex(hex_of_word(w)[i]),
{
    assert forall|k: int| 0 <= k < 8 implies hex_of_word(w)[2 * k] == hex_byte(
        high_nibble(word_byte(w, k)),
    ) && hex_of_word(w)[2 * k + 1] == hex_byte(low_nibble(word_byte(w, k))) by {
        let sh = ((7 - k) * 8) as u64;
        let sh4 = ((15 - 2 * k) * 4) as u64;
        let u = (w >> sh) & 0xff;
        assert(u < 256) by (bit_vector)
            requires
                u == (w >> sh) & 0xff,
        ;
        assert((u as u8) as u64 == u);
        assert(word_byte(w, k) == (u as u8));
        assert(sh4 == sh + 4);
        assert((w >> sh4) & 0xf == (u >> 4u64) & 0xf) by (bit_vector)
            requires
                sh <= 56,
                sh4 == sh + 4,
                u == (w >> sh) & 0xff,
        ;
        assert((w >> sh) & 0xf == u & 0xf) by (bit_vector)
            requires
                u == (w >> sh) & 0xff,
        ;
        assert(nibble(w, 2 * k) == (w >> sh4) & 0xf);
        assert(nibble(w, 2 * k + 1) == (w >> sh) & 0xf);
        assert(high_nibble(word_byte(w, k)) == (u >> 4u64) & 0xf);
        assert(low_nibble(word_byte(w, k)) == u & 0xf);
        assert(hex_of_word(w)[2 * k] == hex_byte(nibble(w, 2 * k)));
        assert(hex_of_word(w)[2 * k + 1] == hex_byte(nibble(w, 2 * k + 1)));
    }
    assert forall|i: int| 0 <= i < 16 implies is_lower_hex(hex_of_word(w)[i]) by {
        let shv = ((15 - i) * 4) as u64;
        assert((w >> shv) & 0xf < 16) by (bit_vector);
        assert(hex_of_word(w)[i] == hex_byte(nibble(w, i)));
    }
}

/// Distinct values below sixteen have distinct hex digits.
proof fn lemma_hex_byte_injective(n1: u64, n2: u64)
    requires
        n1 < 16,
        n2 < 16,
        hex_byte(n1) == hex_byte(n2),
    ensures
        n1 == n2,
{
    if n1 < 10 {
        assert(hex_byte(n1) as int == 0x30 + n1);
    } else {
        assert(hex_byte(n1) as int == 0x57 + n1);
    }
    if n2 < 10 {
        assert(hex_byte(n2) as int == 0x30 + n2);
    } else {
        assert(hex_byte(n2) as int == 0x57 + n2);
    }
}

/// The sixteen hex digits of a word determine the word.
proof fn lemma_hex_word_injective(x: u64, y: u64)
    requires
        hex_of_word(x) == hex_of_word(y),
    ensures
        x == y,
{
    assert forall|i: int| 0 <= i < 16 implies nibble(x, i) == nibble(y, i) by {
        assert(hex_of_word(x)[i] == hex_byte(nibble(x, i)));
        assert(hex_of_word(y)[i] == hex_byte(nibble(y, i)));
        let shv = ((15 - i) * 4) as u64;
        assert((x >> shv) & 0xf < 16) by (bit_vector);
        assert((y >> shv) & 0xf < 16) by (bit_vector);
        assert(nibble(x, i) == (x >> shv) & 0xf);
        assert(nibble(y, i) == (y >> shv) & 0xf);
        lemma_hex_byte_injective(nibble(x, i), nibble(y, i));
    }
    assert((x >> 60u64) & 0xf == (y >> 60u64) & 0xf) by {
        assert(nibble(x, 0) == nibble(y, 0));
    }
    assert((x >> 56u64) & 0xf == (y >> 56u64) & 0xf) by {
        assert(nibble(x, 1) == nibble(y, 1));
    }
    assert((x >> 52u64) & 0xf == (y >> 52u64) & 0xf) by {
        assert(nibble(x, 2) == nibble(y, 2));
    }
    assert((x >> 48u64) & 0xf == (y >> 48u64) & 0xf) by {
        assert(nibble(x, 3) == nibble(y, 3));
    }
    assert((x >> 44u64) & 0xf == (y >> 44u64) & 0xf) by {
        assert(nibble(x, 4) == nibble(y, 4));
    }
    assert((x >> 40u64) & 0xf == (y >> 40u64) & 0xf) by {
        assert(nibble(x, 5) == nibble(y, 5));
    }
    assert((x >> 36u64) & 0xf == (y >> 36u64) & 0xf) by {
        assert(nibble(x, 6) == nibble(y, 6));
    }
    assert((x >> 32u64) & 0xf == (y >> 32u64) & 0xf) by {
        assert(nibble(x, 7) == nibble(y, 7));
    }
    assert((x >> 28u64) & 0xf == (y >> 28u64) & 0xf) by {
        assert(nibble(x, 8) == nibble(y, 8));
    }
    assert((x >> 24u64) & 0xf == (y >> 24u64) & 0xf) by {
        assert(nibble(x, 9) == nibble(y, 9));
    }
    assert((x >> 20u64) & 0xf == (y >> 20u64) & 0xf) by {
        assert(nibble(x, 10) == nibble(y, 10));
    }
    assert((x >> 16u64) & 0xf == (y >> 16u64) & 0xf) by {
        assert(nibble(x, 11) == nibble(y, 11));
    }
    assert((x >> 12u64) & 0xf == (y >> 12u64) & 0xf) by {
        assert(nibble(x, 12) == nibble(y, 12));
    }
    assert((x >> 8u64) & 0xf == (y >> 8u64) & 0xf) by {
        assert(nibble(x, 13) == nibble(y, 13));
    }
    assert((x >> 4u64) & 0xf == (y >> 4u64) & 0xf) by {
        assert(nibble(x, 14) == nibble(y, 14));
    }
    assert((x >> 0u64) & 0xf == (y >> 0u64) & 0xf) by {
        assert(nibble(x, 15) == nibble(y, 15));
    }
    assert(x == y) by (bit_vector)
        requires
            (x >> 60u64) & 0xf == (y >> 60u64) & 0xf,
            (x >> 56u64) & 0xf == (y >> 56u64) & 0xf,
            (x >> 52u64) & 0xf == (y >> 52u64) & 0xf,
            (x >> 48u64) & 0xf == (y >> 48u64) & 0xf,
            (x >> 44u64) & 0xf == (y >> 44u64) & 0xf,
            (x >> 40u64) & 0xf == (y >> 40u64) & 0xf,
            (x >> 36u64) & 0xf == (y >> 36u64) & 0xf,
            (x >> 32u64) & 0xf == (y >> 32u64) & 0xf,
            (x >> 28u64) & 0xf == (y >> 28u64) & 0xf,
            (x >> 24u64) & 0xf == (y >> 24u64) & 0xf,
            (x >> 20u64) & 0xf == (y >> 20u64) & 0xf,
            (x >> 16u64) & 0xf == (y >> 16u64) & 0xf,
            (x >> 12u64) & 0xf == (y >> 12u64) & 0xf,
            (x >> 8u64) & 0xf == (y >> 8u64) & 0xf,
            (x >> 4u64) & 0xf == (y >> 4u64) & 0xf,
            (x >> 0u64) & 0xf == (y >> 0u64) & 0xf,
    ;
}

/// The encoding of four words splits into the prefix and one 16-digit
/// segment per word.
proof fn lemma_hex_words_parts(a: u64, b: u64, c: u64, d: u64)
    ensures
        hex_words(a, b, c, d).len() == 66,
        hex_words(a, b, c, d)[0] == 0x30u8,
        hex_words(a, b, c, d)[1] == 0x78u8,
        forall|i: int| 0 <= i < 16 ==> hex_words(a, b, c, d)[2 + i] == hex_of_word(a)[i],
        forall|i: int| 0 <= i < 16 ==> hex_words(a, b, c, d)[18 + i] == hex_of_word(b)[i],
        forall|i: int| 0 <= i < 16 ==> hex_words(a, b, c, d)[34 + i] == hex_of_word(c)[i],
        forall|i: int| 0 <= i < 16 ==> hex_words(a, b, c, d)[50 + i] == hex_of_word(d)[i],
{
}

/// Eight bytes of a sequence read big-endian as one 64-bit word.
pub open spec fn be_u64(d: Seq<u8>, off: int) -> u64
    recommends
        0 <= off,
        off + 8 <= d.len(),
{
    ((d[off] as int) * 0x100000000000000 + (d[off + 1] as int) * 0x1000000000000 + (d[off + 2]
        as int) * 0x10000000000 + (d[off + 3] as int) * 0x100000000 + (d[off + 4] as int)
        * 0x1000000 + (d[off + 5] as int) * 0x10000 + (d[off + 6] as int) * 0x100 + (d[off + 7]
        as int)) as u64
}

/// The bytes of a word read big-endian from a sequence are those bytes of
/// the sequence.
proof fn lemma_be_u64_bytes(d: Seq<u8>, off: int)
    requires
        0 <= off,
    ensures
        forall|k: int| 0 <= k < 8 ==> word_byte(be_u64(d, off), k) == d[off + k],
{
    let b0 = d[off] as u64;
    let b1 = d[off + 1] as u64;
    let b2 = d[off + 2] as u64;
    let b3 = d[off + 3] as u64;
    let b4 = d[off + 4] as u64;
    let b5 = d[off + 5] as u64;
    let b6 = d[off + 6] as u64;
    let b7 = d[off + 7] as u64;
    let total: int = b0 * 0x100000000000000 + b1 * 0x1000000000000 + b2 * 0x10000000000 + b3
        * 0x100000000 + b4 * 0x1000000 + b5 * 0x10000 + b6 * 0x100 + b7;
    assert(0 <= total < 0x10000000000000000);
    let w = be_u64(d, off);
    assert(w == total);
    assert((w >> 56u64) & 0xff == b0 && (w >> 48u64) & 0xff == b1 && (w >> 40u64) & 0xff == b2 && (
    w >> 32u64) & 0xff == b3 && (w >> 24u64) & 0xff == b4 && (w >> 16u64) & 0xff == b5 && (w
        >> 8u64) & 0xff == b6 && (w >> 0u64) & 0xff == b7) by (bit_vector)
        requires
            w == b0 * 0x100000000000000 + b1 * 0x1000000000000 + b2 * 0x10000000000 + b3
                * 0x100000000 + b4 * 0x1000000 + b5 * 0x10000 + b6 * 0x100 + b7,
            b0 < 256,
            b1 < 256,
            b2 < 256,
            b3 < 256,
            b4 < 256,
            b5 < 256,
            b6 < 256,
            b7 < 256,
    ;
    assert forall|k: int| 0 <= k < 8 implies word_byte(w, k) == d[off + k] by {
        if k == 0 {
            assert(word_byte(w, 0) == ((w >> 56u64) & 0xff) as u8);
        } else if k == 1 {
            assert(word_byte(w, 1) == ((w >> 48u64) & 0xff) as u8);
        } else if k == 2 {
            assert(word_byte(w, 2) == ((w >> 40u64) & 0xff) as u8);
        } else if k == 3 {
            assert(word_byte(w, 3) == ((w >> 32u64) & 0xff) as u8);
        } else if k == 4 {
            assert(word_byte(w, 4) == ((w >> 24u64) & 0xff) as u8);
        } else if k == 5 {
            assert(word_byte(w, 5) == ((w >> 16u64) & 0xff) as u8);
        } else if k == 6 {
            assert(word_byte(w, 6) == ((w >> 8u64) & 0xff) as u8);
        } else {
            assert(word_byte(w, 7) == ((w >> 0u64) & 0xff) as u8);
        }
    }
}

/// Append the sixteen hex digits of a word to a byte vector.
fn push_hex_word(out: &mut Vec<u8>, x: u64)
    ensures
        final(out)@ == old(out)@ + hex_of_word(x),
{
    for i in 0..16usize
        invariant
            out@ == old(out)@ + hex_of_word(x).take(i as int),
    {
        let shift: u64 = ((15 - i) as u64) * 4;
        let nib: u64 = (x >> shift) & 0xf;
        proof {
            assert((x >> shift) & 0xf < 16) by (bit_vector);
            assert(nib == nibble(x, i as int));
        }
        let digit: u8 = if nib < 10 {
            (0x30 + nib) as u8
        } else {
            (0x57 + nib) as u8
        };
        out.push(digit);
        proof {
            assert(out@ =~= old(out)@ + hex_of_word(x).take(i + 1));
        }
    }
    proof {
        assert(final(out)@ =~= old(out)@ + hex_of_word(x));
    }
}

/// Every byte of a word's hex encoding is ASCII.
proof fn lemma_hex_word_ascii(x: u64)
    ensures
        forall|i: int| 0 <= i < 16 ==> hex_of_word(x)[i] < 0x80,
{
    assert forall|i: int| 0 <= i < 16 implies hex_of_word(x)[i] < 0x80 by {
        let shift = ((15 - i) * 4) as u64;
        assert((x >> shift) & 0xf < 16) by (bit_vector);
    }
}

/// Relies on `String::from_utf8`: bytes below 0x80 are valid UTF-8 and
/// decode to one character per byte, each the character of that byte value.
#[verifier::external_body]
fn ascii_string(bytes: Vec<u8>) -> (r: String)
    requires
        forall|i: int| 0 <= i < bytes@.len() ==> bytes@[i] < 0x80,
    ensures
        r@ == chars_of_bytes(bytes@),
{
    match String::from_utf8(bytes) {
        Ok(s) => s,
        Err(_) => String::new(),
    }
}

/// A SHA-256 digest.
#[derive(Clone, Copy, PartialEq, Eq, Structural, Debug)]
pub struct SHA256(u64, u64, u64, u64);

/// A SHA3-256 digest.
#[derive(Clone, Copy, PartialEq, Eq, Structural, Debug)]
pub struct Keccak256(u64, u64, u64, u64);

impl SHA256 {
    /// Byte `j` of the 32-byte digest, most significant first.
    pub closed spec fn byte_sp(self, j: int) -> u8
        recommends
            0 <= j < 32,
    {
        if j < 8 {
            word_byte(self.0, j)
        } else if j < 16 {
            word_byte(self.1, j - 8)
        } else if j < 24 {
            word_byte(self.2, j - 16)
        } else {
            word_byte(self.3, j - 24)
        }
    }
}

impl Keccak256 {
    /// Byte `j` of the 32-byte digest, most significant first.
    pub closed spec fn byte_sp(self, j: int) -> u8
        recommends
            0 <= j < 32,
    {
        if j < 8 {
            word_byte(self.0, j)
        } else if j < 16 {
            word_byte(self.1, j - 8)
        } else if j < 24 {
            word_byte(self.2, j - 16)
        } else {
            word_byte(self.3, j - 24)
        }
    }
}

/// The SHA-256 digest of a byte sequence, as its 32 bytes.
pub uninterp spec fn sha256_digest(data: Seq<u8>) -> Seq<u8>;

/// The SHA3-256 digest of a byte sequence, as its 32 bytes.
pub uninterp spec fn sha3_256_digest(data: Seq<u8>) -> Seq<u8>;

/// A SHA-256 digest value built from its 32 bytes, big-endian, eight bytes
/// per word.
pub closed spec fn sha256_of_bytes(d: Seq<u8>) -> SHA256 {
    SHA256(be_u64(d, 0), be_u64(d, 8), be_u64(d, 16), be_u64(d, 24))
}

/// A SHA3-256 digest value built from its 32 bytes, big-endian, eight bytes
/// per word.
pub closed spec fn sha3_of_bytes(d: Seq<u8>) -> Keccak256 {
    Keccak256(be_u64(d, 0), be_u64(d, 8), be_u64(d, 16), be_u64(d, 24))
}

/// Relies on `sha2::Sha256` through `Digest::digest`: the 32-byte SHA-256
/// digest of the input, a function of the input bytes alone.
#[verifier::external_body]
fn sha256_words(data: &[u8]) -> (r: SHA256)
    ensures
        r == sha256_of_bytes(sha256_digest(data@)),
{
    let out: [u8; 32] = sha2::Sha256::digest(data).into();
    SHA256(
        u64::from_be_bytes(out[0..8].try_into().unwrap()),
        u64::from_be_bytes(out[8..16].try_into().unwrap()),
        u64::from_be_bytes(out[16..24].try_into().unwrap()),
        u64::from_be_bytes(out[24..32].try_into().unwrap()),
    )
}

/// Relies on `sha3::Sha3_256` through `Digest::digest`: the 32-byte SHA3-256
/// digest of the input, a function of the input bytes alone.
#[verifier::external_body]
fn sha3_words(data: &[u8]) -> (r: Keccak256)
    ensures
        r == sha3_of_bytes(sha3_256_digest(data@)),
{
    let out: [u8; 32] = sha3::Sha3_256::digest(data).into();
    Keccak256(
        u64::from_be_bytes(out[0..8].try_into().unwrap()),
        u64::from_be_bytes(out[8..16].try_into().unwrap()),
        u64::from_be_bytes(out[16..24].try_into().unwrap()),
        u64::from_be_bytes(out[24..32].try_into().unwrap()),
    )
}

impl crate::Hash for SHA256 {
    closed spec fn def_sp() -> Self {
        SHA256(0, 0, 0, 0)
    }

    closed spec fn hash_sp(data: Seq<u8>) -> Self {
        sha256_of_bytes(sha256_digest(data))
    }

    closed spec fn enc_sp(h: Self) -> Seq<u8> {
        hex_words(h.0, h.1, h.2, h.3)
    }

    fn hash(data: &[u8]) -> (r: Self) {
        sha256_words(data)
    }

    fn to_string(h: &Self) -> (r: String) {
        let bytes = Self::encode(h);
        proof {
            lemma_hex_word_ascii(h.0);
            lemma_hex_word_ascii(h.1);
            lemma_hex_word_ascii(h.2);
            lemma_hex_word_ascii(h.3);
        }
        ascii_string(bytes)
    }

    fn encode(h: &Self) -> (r: Vec<u8>) {
        let mut out: Vec<u8> = Vec::new();
        out.push(0x30);
        out.push(0x78);
        push_hex_word(&mut out, h.0);
        push_hex_word(&mut out, h.1);
        push_hex_word(&mut out, h.2);
        push_hex_word(&mut out, h.3);
        proof {
            assert(out@ =~= hex_words(h.0, h.1, h.2, h.3));
        }
        out
    }

    fn default_v() -> (r: Self) {
        SHA256(0, 0, 0, 0)
    }

    fn eq_h(a: &Self, b: &Self) -> (r: bool) {
        a == b
    }
}

impl crate::Hash for Keccak256 {
    closed spec fn def_sp() -> Self {
        Keccak256(0, 0, 0, 0)
    }

    closed spec fn hash_sp(data: Seq<u8>) -> Self {
        sha3_of_bytes(sha3_256_digest(data))
    }

    closed spec fn enc_sp(h: Self) -> Seq<u8> {
        hex_words(h.0, h.1, h.2, h.3)
    }

    fn hash(data: &[u8]) -> (r: Self) {
        sha3_words(data)
    }

    fn to_string(h: &Self) -> (r: String) {
        let bytes = Self::encode(h);
        proof {
            lemma_hex_word_ascii(h.0);
            lemma_hex_word_ascii(h.1);
            lemma_hex_word_ascii(h.2);
            lemma_hex_word_ascii(h.3);
        }
        ascii_string(bytes)
    }

    fn encode(h: &Self) -> (r: Vec<u8>) {
        let mut out: Vec<u8> = Vec::new();
        out.push(0x30);
        out.push(0x78);
        push_hex_word(&mut out, h.0);
        push_hex_word(&mut out, h.1);
        push_hex_word(&mut out, h.2);
        push_hex_word(&mut out, h.3);
        proof {
            assert(out@ =~= hex_words(h.0, h.1, h.2, h.3));
        }
        out
    }

    fn default_v() -> (r: Self) {
        Keccak256(0, 0, 0, 0)
    }

    fn eq_h(a: &Self, b: &Self) -> (r: bool) {
        a == b
    }
}

/// Wire-format law: the canonical encoding of a SHA-256 digest is the two
/// ASCII bytes of `0x` followed by 64 lowercase hexadecimal digits — two per
/// digest byte in order, high nibble first — 66 bytes in all. `to_string`
/// returns exactly these bytes as characters and `encode` returns the bytes
/// themselves; their UTF-8 bytes, not the raw digest bytes, feed parent
/// hashing (see `combine`).
pub proof fn lemma_sha256_encoding_shape(h: SHA256)
    ensures
        <SHA256 as crate::Hash>::enc_sp(h).len() == 66,
        <SHA256 as crate::Hash>::enc_sp(h)[0] == 0x30u8,
        <SHA256 as crate::Hash>::enc_sp(h)[1] == 0x78u8,
        forall|j: int|
            0 <= j < 32 ==> <SHA256 as crate::Hash>::enc_sp(h)[2 + 2 * j] == hex_byte(
                high_nibble(h.byte_sp(j)),
            ),
        forall|j: int|
            0 <= j < 32 ==> <SHA256 as crate::Hash>::enc_sp(h)[2 + 2 * j + 1] == hex_byte(
                low_nibble(h.byte_sp(j)),
            ),
        forall|i: int| 2 <= i < 66 ==> is_lower_hex(<SHA256 as crate::Hash>::enc_sp(h)[i]),
{
    let e = <SHA256 as crate::Hash>::enc_sp(h);
    lemma_hex_words_parts(h.0, h.1, h.2, h.3);
    lemma_hex_word_bytes(h.0);
    lemma_hex_word_bytes(h.1);
    lemma_hex_word_bytes(h.2);
    lemma_hex_word_bytes(h.3);
    assert forall|j: int| 0 <= j < 32 implies e[2 + 2 * j] == hex_byte(high_nibble(h.byte_sp(j)))
        && e[2 + 2 * j + 1] == hex_byte(low_nibble(h.byte_sp(j))) by {
        if j < 8 {
            assert(e[2 + 2 * j] == hex_of_word(h.0)[2 * j]);
            assert(e[2 + 2 * j + 1] == hex_of_word(h.0)[2 * j + 1]);
        } else if j < 16 {
            let k = j - 8;
            assert(e[18 + 2 * k] == hex_of_word(h.1)[2 * k]);
            assert(e[18 + 2 * k + 1] == hex_of_word(h.1)[2 * k + 1]);
        } else if j < 24 {
            let k = j - 16;
            assert(e[34 + 2 * k] == hex_of_word(h.2)[2 * k]);
            assert(e[34 + 2 * k + 1] == hex_of_word(h.2)[2 * k + 1]);
        } else {
            let k = j - 24;
            assert(e[50 + 2 * k] == hex_of_word(h.3)[2 * k]);
            assert(e[50 + 2 * k + 1] == hex_of_word(h.3)[2 * k + 1]);
        }
    }
    assert forall|i: int| 2 <= i < 66 implies is_lower_hex(e[i]) by {
        if i < 18 {
            assert(e[i] == hex_of_word(h.0)[i - 2]);
        } else if i < 34 {
            assert(e[i] == hex_of_word(h.1)[i - 18]);
        } else if i < 50 {
            assert(e[i] == hex_of_word(h.2)[i - 34]);
        } else {
            assert(e[i] == hex_of_word(h.3)[i - 50]);
        }
    }
}

/// Wire-format law: the canonical encoding of a SHA3-256 digest has the same
/// shape as the SHA-256 one — `0x`, then 64 lowercase hexadecimal digits,
/// two per digest byte in order, high nibble first; 66 bytes in all. The two
/// families differ in nothing but the underlying primitive.
pub proof fn lemma_keccak256_encoding_shape(h: Keccak256)
    ensures
        <Keccak256 as crate::Hash>::enc_sp(h).len() == 66,
        <Keccak256 as crate::Hash>::enc_sp(h)[0] == 0x30u8,
        <Keccak256 as crate::Hash>::enc_sp(h)[1] == 0x78u8,
        forall|j: int|
            0 <= j < 32 ==> <Keccak256 as crate::Hash>::enc_sp(h)[2 + 2 * j] == hex_byte(
                high_nibble(h.byte_sp(j)),
            ),
        forall|j: int|
            0 <= j < 32 ==> <Keccak256 as crate::Hash>::enc_sp(h)[2 + 2 * j + 1] == hex_byte(
                low_nibble(h.byte_sp(j)),
            ),
        forall|i: int| 2 <= i < 66 ==> is_lower_hex(<Keccak256 as crate::Hash>::enc_sp(h)[i]),
{
    let e = <Keccak256 as crate::Hash>::enc_sp(h);
    lemma_hex_words_parts(h.0, h.1, h.2, h.3);
    lemma_hex_word_bytes(h.0);
    lemma_hex_word_bytes(h.1);
    lemma_hex_word_bytes(h.2);
    lemma_hex_word_bytes(h.3);
    assert forall|j: int| 0 <= j < 32 implies e[2 + 2 * j] == hex_byte(high_nibble(h.byte_sp(j)))
        && e[2 + 2 * j + 1] == hex_byte(low_nibble(h.byte_sp(j))) by {
        if j < 8 {
            assert(e[2 + 2 * j] == hex_of_word(h.0)[2 * j]);
            assert(e[2 + 2 * j + 1] == hex_of_word(h.0)[2 * j + 1]);
        } else if j < 16 {
            let k = j - 8;
            assert(e[18 + 2 * k] == hex_of_word(h.1)[2 * k]);
            assert(e[18 + 2 * k + 1] == hex_of_word(h.1)[2 * k + 1]);
        } else if j < 24 {
            let k = j - 16;
            assert(e[34 + 2 * k] == hex_of_word(h.2)[2 * k]);
            assert(e[34 + 2 * k + 1] == hex_of_word(h.2)[2 * k + 1]);
        } else {
            let k = j - 24;
            assert(e[50 + 2 * k] == hex_of_word(h.3)[2 * k]);
            assert(e[50 + 2 * k + 1] == hex_of_word(h.3)[2 * k + 1]);
        }
    }
    assert forall|i: int| 2 <= i < 66 implies is_lower_hex(e[i]) by {
        if i < 18 {
            assert(e[i] == hex_of_word(h.0)[i - 2]);
        } else if i < 34 {
            assert(e[i] == hex_of_word(h.1)[i - 18]);
        } else if i < 50 {
            assert(e[i] == hex_of_word(h.2)[i - 34]);
        } else {
            assert(e[i] == hex_of_word(h.3)[i - 50]);
        }
    }
}

/// Wire-format law: byte `j` of the digest that `hash` returns is byte `j`
/// of the SHA-256 digest of the input, so the encoding laws above speak of
/// the true digest bytes, two hex digits per byte in order.
pub proof fn lemma_sha256_hash_bytes(data: Seq<u8>)
    ensures
        forall|j: int|
            0 <= j < 32 ==> #[trigger] <SHA256 as crate::Hash>::hash_sp(data).byte_sp(j)
                == sha256_digest(data)[j],
{
    let d = sha256_digest(data);
    lemma_be_u64_bytes(d, 0);
    lemma_be_u64_bytes(d, 8);
    lemma_be_u64_bytes(d, 16);
    lemma_be_u64_bytes(d, 24);
}

/// Wire-format law: byte `j` of the digest that `hash` returns is byte `j`
/// of the SHA3-256 digest of the input, so the encoding laws above speak of
/// the true digest bytes, two hex digits per byte in order.
pub proof fn lemma_keccak256_hash_bytes(data: Seq<u8>)
    ensures
        forall|j: int|
            0 <= j < 32 ==> #[trigger] <Keccak256 as crate::Hash>::hash_sp(data).byte_sp(j)
                == sha3_256_digest(data)[j],
{
    let d = sha3_256_digest(data);
    lemma_be_u64_bytes(d, 0);
    lemma_be_u64_bytes(d, 8);
    lemma_be_u64_bytes(d, 16);
    lemma_be_u64_bytes(d, 24);
}

/// Wire-format law: the canonical encoding of a SHA-256 digest is injective;
/// two digests that encode to the same bytes are the same digest.
pub proof fn lemma_sha256_encoding_injective(x: SHA256, y: SHA256)
    requires
        <SHA256 as crate::Hash>::enc_sp(x) == <SHA256 as crate::Hash>::enc_sp(y),
    ensures
        x == y,
{
    lemma_hex_words_parts(x.0, x.1, x.2, x.3);
    lemma_hex_words_parts(y.0, y.1, y.2, y.3);
    let ex = <SHA256 as crate::Hash>::enc_sp(x);
    assert(hex_of_word(x.0) =~= hex_of_word(y.0)) by {
        assert forall|i: int| 0 <= i < 16 implies hex_of_word(x.0)[i] == hex_of_word(y.0)[i] by {
            assert(hex_of_word(x.0)[i] == ex[2 + i]);
            assert(hex_of_word(y.0)[i] == ex[2 + i]);
        }
    }
    assert(hex_of_word(x.1) =~= hex_of_word(y.1)) by {
        assert forall|i: int| 0 <= i < 16 implies hex_of_word(x.1)[i] == hex_of_word(y.1)[i] by {
            assert(hex_of_word(x.1)[i] == ex[18 + i]);
            assert(hex_of_word(y.1)[i] == ex[18 + i]);
        }
    }
    assert(hex_of_word(x.2) =~= hex_of_word(y.2)) by {
        assert forall|i: int| 0 <= i < 16 implies hex_of_word(x.2)[i] == hex_of_word(y.2)[i] by {
            assert(hex_of_word(x.2)[i] == ex[34 + i]);
            assert(hex_of_word(y.2)[i] == ex[34 + i]);
        }
    }
    assert(hex_of_word(x.3) =~= hex_of_word(y.3)) by {
        assert forall|i: int| 0 <= i < 16 implies hex_of_word(x.3)[i] == hex_of_word(y.3)[i] by {
            assert(hex_of_word(x.3)[i] == ex[50 + i]);
            assert(hex_of_word(y.3)[i] == ex[50 + i]);
        }
    }
    lemma_hex_word_injective(x.0, y.0);
    lemma_hex_word_injective(x.1, y.1);
    lemma_hex_word_injective(x.2, y.2);
    lemma_hex_word_injective(x.3, y.3);
}

/// Wire-format law: the canonical encoding of a SHA3-256 digest is
/// injective; two digests that encode to the same bytes are the same digest.
pub proof fn lemma_keccak256_encoding_injective(x: Keccak256, y: Keccak256)
    requires
        <Keccak256 as crate::Hash>::enc_sp(x) == <Keccak256 as crate::Hash>::enc_sp(y),
    ensures
        x == y,
{
    lemma_hex_words_parts(x.0, x.1, x.2, x.3);
    lemma_hex_words_parts(y.0, y.1, y.2, y.3);
    let ex = <Keccak256 as crate::Hash>::enc_sp(x);
    assert(hex_of_word(x.0) =~= hex_of_word(y.0)) by {
        assert forall|i: int| 0 <= i < 16 implies hex_of_word(x.0)[i] == hex_of_word(y.0)[i] by {
            assert(hex_of_word(x.0)[i] == ex[2 + i]);
            assert(hex_of_word(y.0)[i] == ex[2 + i]);
        }
    }
    assert(hex_of_word(x.1) =~= hex_of_word(y.1)) by {
        assert forall|i: int| 0 <= i < 16 implies hex_of_word(x.1)[i] == hex_of_word(y.1)[i] by {
            assert(hex_of_word(x.1)[i] == ex[18 + i]);
            assert(hex_of_word(y.1)[i] == ex[18 + i]);
        }
    }
    assert(hex_of_word(x.2) =~= hex_of_word(y.2)) by {
        assert forall|i: int| 0 <= i < 16 implies hex_of_word(x.2)[i] == hex_of_word(y.2)[i] by {
            assert(hex_of_word(x.2)[i] == ex[34 + i]);
            assert(hex_of_word(y.2)[i] == ex[34 + i]);
        }
    }
    assert(hex_of_word(x.3) =~= hex_of_word(y.3)) by {
        assert forall|i: int| 0 <= i < 16 implies hex_of_word(x.3)[i] == hex_of_word(y.3)[i] by {
            assert(hex_of_word(x.3)[i] == ex[50 + i]);
            assert(hex_of_word(y.3)[i] == ex[50 + i]);
        }
    }
    lemma_hex_word_injective(x.0, y.0);
    lemma_hex_word_injective(x.1, y.1);
    lemma_hex_word_injective(x.2, y.2);
    lemma_hex_word_injective(x.3, y.3);
}

} // verus!
