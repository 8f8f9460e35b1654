//! SHA-256 (FIPS 180-4) content checksums, rendered as `sha256:<hex>`.
//!
//! The specification below follows the standard: the message is padded with
//! a `0x80` byte, zero bytes and its big-endian 64-bit bit length; each
//! 64-byte block is expanded into a 64-word schedule and folded into the
//! eight-word state by 64 compression rounds.

use vstd::prelude::*;
use crate::text::push_char;

verus! {

/// Initial hash value H(0).
pub const SHA256_H0: [u32; 8] = [
    0x6a09e667, 0xbb67ae85, 0x3c6ef372, 0xa54ff53a, 0x510e527f, 0x9b05688c, 0x1f83d9ab,
    0x5be0cd19,
];

/// Round constants K(0..63).
pub const SHA256_K: [u32; 64] = [
    0x428a2f98, 0x71374491, 0xb5c0fbcf, 0xe9b5dba5, 0x3956c25b, 0x59f111f1, 0x923f82a4,
    0xab1c5ed5, 0xd807aa98, 0x12835b01, 0x243185be, 0x550c7dc3, 0x72be5d74, 0x80deb1fe,
    0x9bdc06a7, 0xc19bf174, 0xe49b69c1, 0xefbe4786, 0x0fc19dc6, 0x240ca1cc, 0x2de92c6f,
    0x4a7484aa, 0x5cb0a9dc, 0x76f988da, 0x983e5152, 0xa831c66d, 0xb00327c8, 0xbf597fc7,
    0xc6e00bf3, 0xd5a79147, 0x06ca6351, 0x14292967, 0x27b70a85, 0x2e1b2138, 0x4d2c6dfc,
    0x53380d13, 0x650a7354, 0x766a0abb, 0x81c2c92e, 0x92722c85, 0xa2bfe8a1, 0xa81a664b,
    0xc24b8b70, 0xc76c51a3, 0xd192e819, 0xd6990624, 0xf40e3585, 0x106aa070, 0x19a4c116,
    0x1e376c08, 0x2748774c, 0x34b0bcb5, 0x391c0cb3, 0x4ed8aa4a, 0x5b9cca4f, 0x682e6ff3,
    0x748f82ee, 0x78a5636f, 0x84c87814, 0x8cc70208, 0x90befffa, 0xa4506ceb, 0xbef9a3f7,
    0xc67178f2,
];

/// Lower-case hexadecimal digits.
pub const HEX_LOWER: [char; 16] = [
    '0', '1', '2', '3', '4', '5', '6', '7', '8', '9', 'a', 'b', 'c', 'd', 'e', 'f',
];

/// Addition modulo 2^32.
pub open spec fn add32(x: u32, y: u32) -> u32 {
    if x + y > u32::MAX {
        (x + y - 0x1_0000_0000) as u32
    } else {
        (x + y) as u32
    }
}

/// Right rotation of a 32-bit word by `n` places (0 < n < 32).
pub open spec fn rotr(x: u32, n: u32) -> u32 {
    (x >> n) | (x << ((32 - n) as u32))
}

pub open spec fn big_sigma0(x: u32) -> u32 {
    rotr(x, 2) ^ rotr(x, 13) ^ rotr(x, 22)
}

pub open spec fn big_sigma1(x: u32) -> u32 {
    rotr(x, 6) ^ rotr(x, 11) ^ rotr(x, 25)
}

pub open spec fn small_sigma0(x: u32) -> u32 {
    rotr(x, 7) ^ rotr(x, 18) ^ (x >> 3)
}

pub open spec fn small_sigma1(x: u32) -> u32 {
    rotr(x, 17) ^ rotr(x, 19) ^ (x >> 10)
}

pub open spec fn choose_bits(e: u32, f: u32, g: u32) -> u32 {
    (e & f) ^ ((!e) & g)
}

pub open spec fn majority(a: u32, b: u32, c: u32) -> u32 {
    (a & b) ^ (a & c) ^ (b & c)
}

/// The 64-bit message length in bits, modulo 2^64.
pub open spec fn message_bit_length(len: nat) -> u64 {
    ((len * 8) % 0x1_0000_0000_0000_0000) as u64
}

/// Big-endian bytes of a 64-bit value.
pub open spec fn be_u64_bytes(x: u64) -> Seq<u8> {
    seq![
        (x >> 56u64) as u8,
        (x >> 48u64) as u8,
        (x >> 40u64) as u8,
        (x >> 32u64) as u8,
        (x >> 24u64) as u8,
        (x >> 16u64) as u8,
        (x >> 8u64) as u8,
        x as u8,
    ]
}

/// Number of zero bytes that bring `len + 1` to 56 modulo 64.
pub open spec fn zero_pad_len(len: nat) -> nat {
    ((55 - len as int) % 64) as nat
}

/// The padded message: the message, a `0x80` byte, zero bytes, and the
/// big-endian bit length.
pub open spec fn pad_message(msg: Seq<u8>) -> Seq<u8> {
    msg + seq![0x80u8] + Seq::new(zero_pad_len(msg.len()), |i: int| 0u8) + be_u64_bytes(
        message_bit_length(msg.len()),
    )
}

/// Big-endian 32-bit word from four bytes.
pub open spec fn be_word(b0: u8, b1: u8, b2: u8, b3: u8) -> u32 {
    ((b0 as u32) << 24u32) | ((b1 as u32) << 16u32) | ((b2 as u32) << 8u32) | (b3 as u32)
}

/// Message schedule word `t` of a 64-byte block.
pub open spec fn schedule(block: Seq<u8>, t: nat) -> u32
    decreases t,
{
    if t < 16 {
        be_word(block[4 * t as int], block[4 * t + 1int], block[4 * t + 2int], block[4 * t + 3int])
    } else {
        add32(
            add32(
                add32(schedule(block, (t - 16) as nat), small_sigma0(schedule(block, (t - 15) as nat))),
                schedule(block, (t - 7) as nat),
            ),
            small_sigma1(schedule(block, (t - 2) as nat)),
        )
    }
}

/// The eight working variables of the compression function.
pub struct Working {
    pub a: u32,
    pub b: u32,
    pub c: u32,
    pub d: u32,
    pub e: u32,
    pub f: u32,
    pub g: u32,
    pub h: u32,
}

/// One compression round with round constant `k` and schedule word `w`.
pub open spec fn round(s: Working, k: u32, w: u32) -> Working {
    let t1 = add32(add32(add32(add32(s.h, big_sigma1(s.e)), choose_bits(s.e, s.f, s.g)), k), w);
    let t2 = add32(big_sigma0(s.a), majority(s.a, s.b, s.c));
    Working {
        a: add32(t1, t2),
        b: s.a,
        c: s.b,
        d: s.c,
        e: add32(s.d, t1),
        f: s.e,
        g: s.f,
        h: s.g,
    }
}

/// The working variables after the first `i` rounds over `block`.
pub open spec fn rounds(init: Working, block: Seq<u8>, i: nat) -> Working
    decreases i,
{
    if i == 0 {
        init
    } else {
        round(rounds(init, block, (i - 1) as nat), SHA256_K@[i - 1], schedule(block, (i - 1) as nat))
    }
}

pub open spec fn working_of(h: Seq<u32>) -> Working {
    Working { a: h[0], b: h[1], c: h[2], d: h[3], e: h[4], f: h[5], g: h[6], h: h[7] }
}

/// The hash value after folding one 64-byte block into `h`.
pub open spec fn compress(h: Seq<u32>, block: Seq<u8>) -> Seq<u32> {
    let s = rounds(working_of(h), block, 64);
    seq![
        add32(h[0], s.a),
        add32(h[1], s.b),
        add32(h[2], s.c),
        add32(h[3], s.d),
        add32(h[4], s.e),
        add32(h[5], s.f),
        add32(h[6], s.g),
        add32(h[7], s.h),
    ]
}

/// The hash value after the first `n` blocks of a padded message.
pub open spec fn hash_blocks(padded: Seq<u8>, n: nat) -> Seq<u32>
    decreases n,
{
    if n == 0 {
        SHA256_H0@
    } else {
        compress(hash_blocks(padded, (n - 1) as nat), padded.subrange(64 * (n - 1), 64 * n as int))
    }
}

/// The eight-word SHA-256 digest of a message.
pub open spec fn sha256_digest(msg: Seq<u8>) -> Seq<u32> {
    hash_blocks(pad_message(msg), pad_message(msg).len() / 64)
}

/// Eight lower-case hexadecimal digits of a word, most significant first.
pub open spec fn word_hex(w: u32) -> Seq<char> {
    Seq::new(8, |j: int| HEX_LOWER@[((w >> ((28 - 4 * j) as u32)) & 0xf) as int])
}

/// Concatenated hexadecimal renderings of a word sequence.
pub open spec fn words_hex(ws: Seq<u32>) -> Seq<char>
    decreases ws.len(),
{
    if ws.len() == 0 {
        Seq::empty()
    } else {
        words_hex(ws.drop_last()) + word_hex(ws.last())
    }
}

pub open spec fn checksum_prefix() -> Seq<char> {
    seq!['s', 'h', 'a', '2', '5', '6', ':']
}

/// `sha256:` followed by the 64 hexadecimal digits of the message's digest.
pub open spec fn sha256_hex_spec(msg: Seq<u8>) -> Seq<char> {
    checksum_prefix() + words_hex(sha256_digest(msg))
}

fn rotate_right(x: u32, n: u32) -> (r: u32)
    requires
        0 < n < 32,
    ensures
        r == rotr(x, n),
{
    (x >> n) | (x << (32 - n))
}

/// Pads a message as `pad_message` states.
fn pad(bytes: &[u8]) -> (padded: Vec<u8>)
    requires
        bytes@.len() + 128 <= usize::MAX,
    ensures
        padded@ == pad_message(bytes@),
        padded@.len() % 64 == 0,
        padded@.len() <= bytes@.len() + 72,
{
    let len = bytes.len();
    let ghost k = zero_pad_len(len as nat);
    let mut padded: Vec<u8> = Vec::new();
    let mut i: usize = 0;
    while i < len
        invariant
            i <= len,
            len == bytes@.len(),
            padded@ == bytes@.take(i as int),
        decreases len - i,
    {
        padded.push(bytes[i]);
        assert(bytes@.take(i as int).push(bytes@[i as int]) =~= bytes@.take(i + 1));
        i = i + 1;
    }
    assert(bytes@.take(len as int) =~= bytes@);
    padded.push(0x80u8);
    let mut count: usize = 0;
    while padded.len() % 64 != 56
        invariant
            len == bytes@.len(),
            len + 128 <= usize::MAX,
            k == zero_pad_len(len as nat),
            count <= k,
            padded@.len() == len + 1 + count,
            padded@ == bytes@ + seq![0x80u8] + Seq::new(count as nat, |j: int| 0u8),
        decreases k - count,
    {
        assert(count < k) by {
            if count == k {
                assert((len + 1 + k) % 64 == 56);
            }
        }
        padded.push(0u8);
        assert(Seq::new(count as nat, |j: int| 0u8).push(0u8) =~= Seq::new(
            (count + 1) as nat,
            |j: int| 0u8,
        ));
        count = count + 1;
    }
    assert(count == k) by {
        assert(0 <= k < 64);
        assert((len + 1 + k) % 64 == 56);
    }
    let bit_len: u64 = (len as u64).wrapping_mul(8);
    assert(bit_len == message_bit_length(len as nat));
    padded.push((bit_len >> 56u64) as u8);
    padded.push((bit_len >> 48u64) as u8);
    padded.push((bit_len >> 40u64) as u8);
    padded.push((bit_len >> 32u64) as u8);
    padded.push((bit_len >> 24u64) as u8);
    padded.push((bit_len >> 16u64) as u8);
    padded.push((bit_len >> 8u64) as u8);
    padded.push(bit_len as u8);
    assert(padded@ =~= pad_message(bytes@));
    padded
}

/// The 64-word message schedule of the block starting at `start`.
fn message_schedule(padded: &Vec<u8>, start: usize) -> (w: Vec<u32>)
    requires
        start + 64 <= padded@.len(),
    ensures
        w@.len() == 64,
        forall|t: int|
            0 <= t < 64 ==> #[trigger] w@[t] == schedule(
                padded@.subrange(start as int, start + 64),
                t as nat,
            ),
{
    let ghost block = padded@.subrange(start as int, start + 64);
    let plen = padded.len();
    assert(plen == padded@.len());
    let mut w: Vec<u32> = Vec::new();
    let mut t: usize = 0;
    while t < 16
        invariant
            t <= 16,
            start + 64 <= padded@.len(),
            padded@.len() <= usize::MAX,
            block == padded@.subrange(start as int, start + 64),
            w@.len() == t,
            forall|j: int| 0 <= j < t ==> #[trigger] w@[j] == schedule(block, j as nat),
        decreases 16 - t,
    {
        let p = start + 4 * t;
        let word = ((padded[p] as u32) << 24u32) | ((padded[p + 1] as u32) << 16u32) | ((
        padded[p + 2] as u32) << 8u32) | (padded[p + 3] as u32);
        assert(word == schedule(block, t as nat));
        w.push(word);
        t = t + 1;
    }
    while t < 64
        invariant
            16 <= t <= 64,
            start + 64 <= padded@.len(),
            block == padded@.subrange(start as int, start + 64),
            w@.len() == t,
            forall|j: int| 0 <= j < t ==> #[trigger] w@[j] == schedule(block, j as nat),
        decreases 64 - t,
    {
        let w2 = w[t - 2];
        let w15 = w[t - 15];
        let s0 = rotate_right(w15, 7) ^ rotate_right(w15, 18) ^ (w15 >> 3u32);
        let s1 = rotate_right(w2, 17) ^ rotate_right(w2, 19) ^ (w2 >> 10u32);
        let word = w[t - 16].wrapping_add(s0).wrapping_add(w[t - 7]).wrapping_add(s1);
        assert(word == schedule(block, t as nat));
        w.push(word);
        t = t + 1;
    }
    w
}

/// Folds one block (given by its schedule) into the hash value.
fn compress_block(h: &Vec<u32>, w: &Vec<u32>, Ghost(block): Ghost<Seq<u8>>) -> (r: Vec<u32>)
    requires
        h@.len() == 8,
        w@.len() == 64,
        forall|t: int| 0 <= t < 64 ==> #[trigger] w@[t] == schedule(block, t as nat),
    ensures
        r@ == compress(h@, block),
{
    let mut a = h[0];
    let mut b = h[1];
    let mut c = h[2];
    let mut d = h[3];
    let mut e = h[4];
    let mut f = h[5];
    let mut g = h[6];
    let mut hh = h[7];
    let ghost init = working_of(h@);
    let mut i: usize = 0;
    while i < 64
        invariant
            i <= 64,
            w@.len() == 64,
            forall|t: int| 0 <= t < 64 ==> #[trigger] w@[t] == schedule(block, t as nat),
            (Working { a, b, c, d, e, f, g, h: hh }) == rounds(init, block, i as nat),
        decreases 64 - i,
    {
        let s1 = rotate_right(e, 6) ^ rotate_right(e, 11) ^ rotate_right(e, 25);
        let ch = (e & f) ^ ((!e) & g);
        let temp1 = hh.wrapping_add(s1).wrapping_add(ch).wrapping_add(SHA256_K[i]).wrapping_add(
            w[i],
        );
        let s0 = rotate_right(a, 2) ^ rotate_right(a, 13) ^ rotate_right(a, 22);
        let maj = (a & b) ^ (a & c) ^ (b & c);
        let temp2 = s0.wrapping_add(maj);
        hh = g;
        g = f;
        f = e;
        e = d.wrapping_add(temp1);
        d = c;
        c = b;
        b = a;
        a = temp1.wrapping_add(temp2);
        i = i + 1;
    }
    let mut r: Vec<u32> = Vec::new();
    r.push(h[0].wrapping_add(a));
    r.push(h[1].wrapping_add(b));
    r.push(h[2].wrapping_add(c));
    r.push(h[3].wrapping_add(d));
    r.push(h[4].wrapping_add(e));
    r.push(h[5].wrapping_add(f));
    r.push(h[6].wrapping_add(g));
    r.push(h[7].wrapping_add(hh));
    assert(r@ =~= compress(h@, block));
    r
}

/// The eight-word SHA-256 digest of `bytes`.
pub fn sha256_words(bytes: &[u8]) -> (h: Vec<u32>)
    requires
        bytes@.len() + 128 <= usize::MAX,
    ensures
        h@ == sha256_digest(bytes@),
{
    let padded = pad(bytes);
    let nblocks = padded.len() / 64;
    let mut h: Vec<u32> = Vec::new();
    let mut j: usize = 0;
    while j < 8
        invariant
            j <= 8,
            h@ == SHA256_H0@.take(j as int),
        decreases 8 - j,
    {
        h.push(SHA256_H0[j]);
        assert(SHA256_H0@.take(j as int).push(SHA256_H0@[j as int]) =~= SHA256_H0@.take(j + 1));
        j = j + 1;
    }
    assert(SHA256_H0@.take(8) =~= SHA256_H0@);
    let mut c: usize = 0;
    while c < nblocks
        invariant
            c <= nblocks,
            nblocks == padded@.len() / 64,
            padded@.len() % 64 == 0,
            nblocks * 64 == padded@.len(),
            padded@.len() <= usize::MAX,
            h@ == hash_blocks(padded@, c as nat),
            h@.len() == 8,
        decreases nblocks - c,
    {
        let start = 64 * c;
        let w = message_schedule(&padded, start);
        h = compress_block(&h, &w, Ghost(padded@.subrange(start as int, start + 64)));
        c = c + 1;
    }
    h
}

fn push_word_hex(res: &mut String, word: u32)
    ensures
        final(res)@ == old(res)@ + word_hex(word),
{
    let ghost start = res@;
    let mut j: u32 = 0;
    while j < 8
        invariant
            j <= 8,
            res@ == start + word_hex(word).take(j as int),
        decreases 8 - j,
    {
        let shift: u32 = 28 - 4 * j;
        let digit = (word >> shift) & 0xfu32;
        assert(((word >> shift) & 0xfu32) < 16) by (bit_vector);
        push_char(res, HEX_LOWER[digit as usize]);
        assert(word_hex(word).take(j as int).push(HEX_LOWER@[digit as int]) =~= word_hex(
            word,
        ).take(j + 1));
        j = j + 1;
    }
    assert(word_hex(word).take(8) =~= word_hex(word));
}

/// A lower-case hexadecimal digit.
pub open spec fn is_lower_hex_digit(c: char) -> bool {
    ('0' <= c && c <= '9') || ('a' <= c && c <= 'f')
}

proof fn lemma_word_hex_lower(w: u32)
    ensures
        word_hex(w).len() == 8,
        forall|i: int| 0 <= i < 8 ==> is_lower_hex_digit(#[trigger] word_hex(w)[i]),
{
    assert forall|i: int| 0 <= i < 8 implies is_lower_hex_digit(#[trigger] word_hex(w)[i]) by {
        let shift = (28 - 4 * i) as u32;
        let d = (w >> shift) & 0xf;
        assert(d < 16) by (bit_vector)
            requires
                d == (w >> shift) & 0xf,
        ;
        assert(HEX_LOWER@[d as int] == HEX_LOWER[d as int]);
        assert(is_lower_hex_digit(HEX_LOWER@[d as int]));
    }
}

/// Every character of the hexadecimal rendering of words is a lower-case
/// hexadecimal digit, eight per word.
pub proof fn lemma_words_hex_lower(ws: Seq<u32>)
    ensures
        words_hex(ws).len() == 8 * ws.len(),
        forall|i: int| 0 <= i < words_hex(ws).len() ==> is_lower_hex_digit(#[trigger] words_hex(ws)[i]),
    decreases ws.len(),
{
    if ws.len() > 0 {
        lemma_words_hex_lower(ws.drop_last());
        lemma_word_hex_lower(ws.last());
        let a = words_hex(ws.drop_last());
        let b = word_hex(ws.last());
        assert forall|i: int| 0 <= i < words_hex(ws).len() implies is_lower_hex_digit(
            #[trigger] words_hex(ws)[i],
        ) by {
            if i < a.len() {
                assert(words_hex(ws)[i] == a[i]);
            } else {
                assert(words_hex(ws)[i] == b[i - a.len()]);
            }
        }
    }
}

/// The SHA-256 checksum of `bytes`, formatted as `sha256:` followed by 64
/// lower-case hexadecimal digits.
pub fn sha256_hex(bytes: &[u8]) -> (res: String)
    requires
        bytes@.len() + 128 <= usize::MAX,
    ensures
        res@ == sha256_hex_spec(bytes@),
        res@.len() == 71,
        forall|i: int| 7 <= i < 71 ==> is_lower_hex_digit(#[trigger] res@[i]),
{
    let h = sha256_words(bytes);
    let mut res = String::new();
    push_char(&mut res, 's');
    push_char(&mut res, 'h');
    push_char(&mut res, 'a');
    push_char(&mut res, '2');
    push_char(&mut res, '5');
    push_char(&mut res, '6');
    push_char(&mut res, ':');
    assert(res@ =~= checksum_prefix());
    let mut k: usize = 0;
    while k < 8
        invariant
            k <= 8,
            h@.len() == 8,
            res@ == checksum_prefix() + words_hex(h@.take(k as int)),
            res@.len() == 7 + 8 * k,
        decreases 8 - k,
    {
        push_word_hex(&mut res, h[k]);
        assert(h@.take(k + 1).drop_last() =~= h@.take(k as int));
        k = k + 1;
    }
    assert(h@.take(8) =~= h@);
    proof {
        lemma_words_hex_lower(h@);
        assert forall|i: int| 7 <= i < 71 implies is_lower_hex_digit(#[trigger] res@[i]) by {
            assert(res@[i] == words_hex(h@)[i - 7]);
        }
    }
    res
}

} // verus!
