//! SHA-256 (FIPS 180-4), the digest behind the audit chain and the signatures
//! of actions.

use crate::text;
use vstd::prelude::*;

verus! {

/// The round constants.
pub const K: [u32; 64] = [
    0x428a2f98, 0x71374491, 0xb5c0fbcf, 0xe9b5dba5, 0x3956c25b, 0x59f111f1, 0x923f82a4, 0xab1c5ed5,
    0xd807aa98, 0x12835b01, 0x243185be, 0x550c7dc3, 0x72be5d74, 0x80deb1fe, 0x9bdc06a7, 0xc19bf174,
    0xe49b69c1, 0xefbe4786, 0x0fc19dc6, 0x240ca1cc, 0x2de92c6f, 0x4a7484aa, 0x5cb0a9dc, 0x76f988da,
    0x983e5152, 0xa831c66d, 0xb00327c8, 0xbf597fc7, 0xc6e00bf3, 0xd5a79147, 0x06ca6351, 0x14292967,
    0x27b70a85, 0x2e1b2138, 0x4d2c6dfc, 0x53380d13, 0x650a7354, 0x766a0abb, 0x81c2c92e, 0x92722c85,
    0xa2bfe8a1, 0xa81a664b, 0xc24b8b70, 0xc76c51a3, 0xd192e819, 0xd6990624, 0xf40e3585, 0x106aa070,
    0x19a4c116, 0x1e376c08, 0x2748774c, 0x34b0bcb5, 0x391c0cb3, 0x4ed8aa4a, 0x5b9cca4f, 0x682e6ff3,
    0x748f82ee, 0x78a5636f, 0x84c87814, 0x8cc70208, 0x90befffa, 0xa4506ceb, 0xbef9a3f7, 0xc67178f2,
];

/// The eight working words of a digest.
#[derive(Clone, Copy)]
pub struct Words {
    pub a: u32,
    pub b: u32,
    pub c: u32,
    pub d: u32,
    pub e: u32,
    pub f: u32,
    pub g: u32,
    pub h: u32,
}

/// The words before the first block.
pub open spec fn initial() -> Words {
    Words {
        a: 0x6a09e667,
        b: 0xbb67ae85,
        c: 0x3c6ef372,
        d: 0xa54ff53a,
        e: 0x510e527f,
        f: 0x9b05688c,
        g: 0x1f83d9ab,
        h: 0x5be0cd19,
    }
}

/// Addition modulo two to the thirty-second.
pub open spec fn plus(x: u32, y: u32) -> u32 {
    x.wrapping_add(y)
}

/// Rotation to the right by `n` places.
pub open spec fn rotr(x: u32, n: u32) -> u32 {
    (x >> n) | (x << ((32 - n) as u32))
}

/// Mixes the first working word of a round.
pub open spec fn big_sigma0(x: u32) -> u32 {
    rotr(x, 2) ^ rotr(x, 13) ^ rotr(x, 22)
}

/// Mixes the fifth working word of a round.
pub open spec fn big_sigma1(x: u32) -> u32 {
    rotr(x, 6) ^ rotr(x, 11) ^ rotr(x, 25)
}

/// Mixes the word fifteen places back in the schedule.
pub open spec fn small_sigma0(x: u32) -> u32 {
    rotr(x, 7) ^ rotr(x, 18) ^ (x >> 3)
}

/// Mixes the word two places back in the schedule.
pub open spec fn small_sigma1(x: u32) -> u32 {
    rotr(x, 17) ^ rotr(x, 19) ^ (x >> 10)
}

/// Takes each bit from `y` where `x` has a one, else from `z`.
pub open spec fn choice(x: u32, y: u32, z: u32) -> u32 {
    (x & y) ^ (!x & z)
}

/// Each bit as most of the three words have it.
pub open spec fn majority(x: u32, y: u32, z: u32) -> u32 {
    (x & y) ^ (x & z) ^ (y & z)
}

/// Four bytes as a word, the first byte the highest.
pub open spec fn word_at(b: Seq<u8>, i: int) -> u32 {
    ((b[i] as u32) << 24) | ((b[i + 1] as u32) << 16) | ((b[i + 2] as u32) << 8) | (b[i + 3] as u32)
}

/// The message schedule of a block of sixty-four bytes.
pub open spec fn schedule(block: Seq<u8>, t: int) -> u32
    decreases t,
{
    if t < 16 {
        word_at(block, 4 * t)
    } else {
        plus(
            plus(
                plus(small_sigma1(schedule(block, t - 2)), schedule(block, t - 7)),
                small_sigma0(schedule(block, t - 15)),
            ),
            schedule(block, t - 16),
        )
    }
}

/// One round: the words after it, with round constant `k` and schedule word `w`.
pub open spec fn round(s: Words, k: u32, w: u32) -> Words {
    let t1 = plus(plus(plus(plus(s.h, big_sigma1(s.e)), choice(s.e, s.f, s.g)), k), w);
    let t2 = plus(big_sigma0(s.a), majority(s.a, s.b, s.c));
    Words { a: plus(t1, t2), b: s.a, c: s.b, d: s.c, e: plus(s.d, t1), f: s.e, g: s.f, h: s.g }
}

/// The words after the first `n` rounds on a block.
pub open spec fn rounds(s: Words, block: Seq<u8>, n: int) -> Words
    decreases n,
{
    if n <= 0 {
        s
    } else {
        round(rounds(s, block, n - 1), K[n - 1], schedule(block, n - 1))
    }
}

/// The words after a block.
pub open spec fn compress(s: Words, block: Seq<u8>) -> Words {
    let r = rounds(s, block, 64);
    Words {
        a: plus(s.a, r.a),
        b: plus(s.b, r.b),
        c: plus(s.c, r.c),
        d: plus(s.d, r.d),
        e: plus(s.e, r.e),
        f: plus(s.f, r.f),
        g: plus(s.g, r.g),
        h: plus(s.h, r.h),
    }
}

fn rotate(x: u32, n: u32) -> (r: u32)
    requires
        0 < n < 32,
    ensures
        r == rotr(x, n),
{
    (x >> n) | (x << (32 - n))
}

/// The words after a block, computed.
fn compress_block(s: Words, block: &[u8]) -> (r: Words)
    requires
        block@.len() == 64,
    ensures
        r == compress(s, block@),
{
    let mut w: Vec<u32> = Vec::new();
    let mut t: usize = 0;
    while t < 64
        invariant
            t <= 64,
            w@.len() == t,
            block@.len() == 64,
            forall|j: int| 0 <= j < t ==> #[trigger] w@[j] == schedule(block@, j),
        decreases 64 - t,
    {
        if t < 16 {
            let i: usize = 4 * t;
            w.push(
                ((block[i] as u32) << 24) | ((block[i + 1] as u32) << 16) | ((block[i + 2] as u32) << 8) | (
                block[i + 3] as u32),
            );
        } else {
            let x: u32 = w[t - 2];
            let y: u32 = w[t - 15];
            let s1: u32 = rotate(x, 17) ^ rotate(x, 19) ^ (x >> 10);
            let s0: u32 = rotate(y, 7) ^ rotate(y, 18) ^ (y >> 3);
            w.push(s1.wrapping_add(w[t - 7]).wrapping_add(s0).wrapping_add(w[t - 16]));
        }
        t += 1;
    }
    let mut v = s;
    let mut n: usize = 0;
    while n < 64
        invariant
            n <= 64,
            w@.len() == 64,
            forall|j: int| 0 <= j < 64 ==> #[trigger] w@[j] == schedule(block@, j),
            v == rounds(s, block@, n as int),
        decreases 64 - n,
    {
        let e1: u32 = rotate(v.e, 6) ^ rotate(v.e, 11) ^ rotate(v.e, 25);
        let ch: u32 = (v.e & v.f) ^ (!v.e & v.g);
        let t1: u32 = v.h.wrapping_add(e1).wrapping_add(ch).wrapping_add(K[n]).wrapping_add(w[n]);
        let a0: u32 = rotate(v.a, 2) ^ rotate(v.a, 13) ^ rotate(v.a, 22);
        let maj: u32 = (v.a & v.b) ^ (v.a & v.c) ^ (v.b & v.c);
        let t2: u32 = a0.wrapping_add(maj);
        v = Words {
            a: t1.wrapping_add(t2),
            b: v.a,
            c: v.b,
            d: v.c,
            e: v.d.wrapping_add(t1),
            f: v.e,
            g: v.f,
            h: v.g,
        };
        n += 1;
    }
    Words {
        a: s.a.wrapping_add(v.a),
        b: s.b.wrapping_add(v.b),
        c: s.c.wrapping_add(v.c),
        d: s.d.wrapping_add(v.d),
        e: s.e.wrapping_add(v.e),
        f: s.f.wrapping_add(v.f),
        g: s.g.wrapping_add(v.g),
        h: s.h.wrapping_add(v.h),
    }
}

/// A word as four bytes, the highest first.
pub open spec fn word_bytes(w: u32) -> Seq<u8> {
    seq![(w >> 24) as u8, (w >> 16) as u8, (w >> 8) as u8, w as u8]
}

/// A 64-bit number as eight bytes, the highest first.
pub open spec fn long_bytes(n: u64) -> Seq<u8> {
    word_bytes((n >> 32) as u32) + word_bytes(n as u32)
}

/// How many zero bytes stand between the end mark and the length.
pub open spec fn pad_zeros(len: nat) -> nat {
    ((119 - len % 64) % 64) as nat
}

/// The message with its end mark, zeros and length in bits: whole blocks.
pub open spec fn padded(m: Seq<u8>) -> Seq<u8> {
    m.push(0x80) + Seq::new(pad_zeros(m.len()), |i: int| 0u8) + long_bytes(
        (m.len() as u64).wrapping_mul(8),
    )
}

/// The words after the first `n` blocks of padded data.
pub open spec fn after_blocks(data: Seq<u8>, n: int) -> Words
    decreases n,
{
    if n <= 0 {
        initial()
    } else {
        compress(after_blocks(data, n - 1), data.subrange(64 * (n - 1), 64 * n))
    }
}

/// The bytes of the eight words.
pub open spec fn words_bytes(w: Words) -> Seq<u8> {
    word_bytes(w.a) + word_bytes(w.b) + word_bytes(w.c) + word_bytes(w.d) + word_bytes(w.e)
        + word_bytes(w.f) + word_bytes(w.g) + word_bytes(w.h)
}

/// The SHA-256 digest of a message: thirty-two bytes.
#[verifier::opaque]
pub open spec fn digest(m: Seq<u8>) -> Seq<u8> {
    words_bytes(after_blocks(padded(m), padded(m).len() as int / 64))
}

/// The digest in lower-case hexadecimal.
pub open spec fn digest_hex(m: Seq<u8>) -> Seq<char> {
    text::hex(digest(m))
}

fn push_word(out: &mut Vec<u8>, w: u32)
    ensures
        final(out)@ == old(out)@ + word_bytes(w),
{
    out.push((w >> 24) as u8);
    out.push((w >> 16) as u8);
    out.push((w >> 8) as u8);
    out.push(w as u8);
    assert(out@ =~= old(out)@ + word_bytes(w));
}

/// The message with its end mark, zeros and length, built.
fn pad_message(m: &[u8]) -> (r: Vec<u8>)
    ensures
        r@ == padded(m@),
{
    let mut out = vstd::slice::slice_to_vec(m);
    out.push(0x80);
    let z: usize = (119 - m.len() % 64) % 64;
    let mut i: usize = 0;
    while i < z
        invariant
            i <= z,
            out@ == m@.push(0x80) + Seq::new(i as nat, |j: int| 0u8),
        decreases z - i,
    {
        let ghost before = out@;
        out.push(0);
        assert(out@ =~= m@.push(0x80) + Seq::new((i + 1) as nat, |j: int| 0u8));
        i += 1;
    }
    let bits: u64 = (m.len() as u64).wrapping_mul(8);
    push_word(&mut out, (bits >> 32) as u32);
    push_word(&mut out, bits as u32);
    assert(out@ =~= padded(m@));
    out
}

/// Padded data is made of whole blocks.
proof fn lemma_padded_blocks(m: Seq<u8>)
    ensures
        padded(m).len() % 64 == 0,
{
    let len = m.len() as int;
    let r = len % 64;
    let z = pad_zeros(m.len()) as int;
    assert(padded(m).len() == len + 9 + z);
    assert(z == if r <= 55 { 55 - r } else { 119 - r });
    assert((len + 9 + z) % 64 == 0);
}

/// Computes the SHA-256 digest of a message.
pub fn sha256(m: &[u8]) -> (r: Vec<u8>)
    ensures
        r@ == digest(m@),
        r@.len() == 32,
{
    let data = pad_message(m);
    proof {
        reveal(digest);
        lemma_padded_blocks(m@);
    }
    let blocks: usize = data.len() / 64;
    let mut w = Words {
        a: 0x6a09e667,
        b: 0xbb67ae85,
        c: 0x3c6ef372,
        d: 0xa54ff53a,
        e: 0x510e527f,
        f: 0x9b05688c,
        g: 0x1f83d9ab,
        h: 0x5be0cd19,
    };
    let mut n: usize = 0;
    while n < blocks
        invariant
            n <= blocks,
            64 * blocks == data@.len(),
            data@.len() <= usize::MAX,
            w == after_blocks(data@, n as int),
        decreases blocks - n,
    {
        let block = vstd::slice::slice_subrange(data.as_slice(), 64 * n, 64 * n + 64);
        w = compress_block(w, block);
        n += 1;
    }
    let mut out: Vec<u8> = Vec::new();
    push_word(&mut out, w.a);
    push_word(&mut out, w.b);
    push_word(&mut out, w.c);
    push_word(&mut out, w.d);
    push_word(&mut out, w.e);
    push_word(&mut out, w.f);
    push_word(&mut out, w.g);
    push_word(&mut out, w.h);
    assert(out@ =~= words_bytes(w));
    out
}

/// Computes the digest in lower-case hexadecimal: sixty-four characters.
pub fn sha256_hex(m: &[u8]) -> (r: String)
    ensures
        r@ == digest_hex(m@),
{
    let d = sha256(m);
    text::hex_string(d.as_slice())
}

/// A digest is sixty-four hexadecimal characters.
pub proof fn lemma_digest_shape(m: Seq<u8>)
    ensures
        digest_hex(m).len() == 64,
        forall|i: int| 0 <= i < 64 ==> text::is_hex_char(#[trigger] digest_hex(m)[i]),
{
    reveal(digest);
    text::lemma_hex_shape(digest(m));
    assert(digest(m).len() == 32);
}

/// A message is hashed as itself, one byte with the highest bit set, as many zeros as make
/// the whole the fewest blocks of sixty-four bytes, and its length in bits, the highest
/// byte first.
pub proof fn law_padding(m: Seq<u8>, k: int)
    requires
        m.len() <= u64::MAX / 8,
        0 <= k < 8,
    ensures
        ({
            let p = padded(m);
            let n = p.len() as int;
            let bits = (8 * m.len()) as u64;
            &&& n % 64 == 0
            &&& m.len() + 9 <= n < m.len() + 9 + 64
            &&& p.take(m.len() as int) == m
            &&& p[m.len() as int] == 0x80
            &&& forall|i: int| m.len() < i < n - 8 ==> #[trigger] p[i] == 0
            &&& p[n - 8 + k] == (bits >> ((8 * (7 - k)) as u64)) as u8
        }),
{
    let p = padded(m);
    let n = p.len() as int;
    let bits = (8 * m.len()) as u64;
    let z = pad_zeros(m.len()) as int;
    assert((m.len() as u64).wrapping_mul(8) == bits);
    assert(n == m.len() + 1 + z + 8);
    assert(p.take(m.len() as int) =~= m);
    assert(p[n - 8 + k] == long_bytes(bits)[k]);
    assert(((bits >> 32) as u32 >> 24) as u8 == (bits >> 56) as u8) by (bit_vector);
    assert(((bits >> 32) as u32 >> 16) as u8 == (bits >> 48) as u8) by (bit_vector);
    assert(((bits >> 32) as u32 >> 8) as u8 == (bits >> 40) as u8) by (bit_vector);
    assert(((bits >> 32) as u32) as u8 == (bits >> 32) as u8) by (bit_vector);
    assert(((bits as u32) >> 24) as u8 == (bits >> 24) as u8) by (bit_vector);
    assert(((bits as u32) >> 16) as u8 == (bits >> 16) as u8) by (bit_vector);
    assert(((bits as u32) >> 8) as u8 == (bits >> 8) as u8) by (bit_vector);
    assert((bits as u32) as u8 == (bits >> 0) as u8) by (bit_vector);
    assert(k == 0 || k == 1 || k == 2 || k == 3 || k == 4 || k == 5 || k == 6 || k == 7);
}

} // verus!
