//! SHA-256 content hashes of module sources, as lowercase hex.
//!
//! The specification follows FIPS 180-4: the message is padded with a one
//! bit, zeros and its bit length; each 64-byte block extends the message
//! schedule to 64 words and runs 64 rounds of the compression function; the
//! digest is the eight state words, big-endian.

use vstd::prelude::*;
use vstd::wrapping::u32_specs::wrapping_add;

use crate::module_types::hex_alphabet;
use crate::text::string_from_chars;

verus! {

/// The SHA-256 round constants.
pub open spec fn round_constants() -> Seq<u32> {
    seq![
        0x428a2f98u32, 0x71374491, 0xb5c0fbcf, 0xe9b5dba5, 0x3956c25b, 0x59f111f1, 0x923f82a4, 0xab1c5ed5,
        0xd807aa98, 0x12835b01, 0x243185be, 0x550c7dc3, 0x72be5d74, 0x80deb1fe, 0x9bdc06a7, 0xc19bf174,
        0xe49b69c1, 0xefbe4786, 0x0fc19dc6, 0x240ca1cc, 0x2de92c6f, 0x4a7484aa, 0x5cb0a9dc, 0x76f988da,
        0x983e5152, 0xa831c66d, 0xb00327c8, 0xbf597fc7, 0xc6e00bf3, 0xd5a79147, 0x06ca6351, 0x14292967,
        0x27b70a85, 0x2e1b2138, 0x4d2c6dfc, 0x53380d13, 0x650a7354, 0x766a0abb, 0x81c2c92e, 0x92722c85,
        0xa2bfe8a1, 0xa81a664b, 0xc24b8b70, 0xc76c51a3, 0xd192e819, 0xd6990624, 0xf40e3585, 0x106aa070,
        0x19a4c116, 0x1e376c08, 0x2748774c, 0x34b0bcb5, 0x391c0cb3, 0x4ed8aa4a, 0x5b9cca4f, 0x682e6ff3,
        0x748f82ee, 0x78a5636f, 0x84c87814, 0x8cc70208, 0x90befffa, 0xa4506ceb, 0xbef9a3f7, 0xc67178f2,
    ]
}

/// The eight working variables, or the eight words of the hash state.
pub struct Words8 {
    pub a: u32,
    pub b: u32,
    pub c: u32,
    pub d: u32,
    pub e: u32,
    pub f: u32,
    pub g: u32,
    pub h: u32,
}

/// The initial hash state.
pub open spec fn initial_state() -> Words8 {
    Words8 {
        a: 0x6a09e667,
        b: 0xbb67ae85,
        c: 0x3c6ef372,
        d: 0xa54ff53a,
        e: 0x510e527f,
        f: 0x9b05688c,
        g: 0x1f83d9ab,
        h: 0x5be0cd19,
    }
}

/// `x` rotated right by `n` bits.
pub open spec fn rotr(x: u32, n: u32) -> u32 {
    (x >> n) | (x << ((32 - n) as u32))
}

pub open spec fn small_sigma0(x: u32) -> u32 {
    rotr(x, 7) ^ rotr(x, 18) ^ (x >> 3u32)
}

pub open spec fn small_sigma1(x: u32) -> u32 {
    rotr(x, 17) ^ rotr(x, 19) ^ (x >> 10u32)
}

pub open spec fn big_sigma0(x: u32) -> u32 {
    rotr(x, 2) ^ rotr(x, 13) ^ rotr(x, 22)
}

pub open spec fn big_sigma1(x: u32) -> u32 {
    rotr(x, 6) ^ rotr(x, 11) ^ rotr(x, 25)
}

pub open spec fn choose_bits(e: u32, f: u32, g: u32) -> u32 {
    (e & f) ^ (!e & g)
}

pub open spec fn majority(a: u32, b: u32, c: u32) -> u32 {
    (a & b) ^ (a & c) ^ (b & c)
}

/// The big-endian word at word index `i` of `block`.
pub open spec fn be_word(block: Seq<u8>, i: int) -> u32 {
    ((block[4 * i] as u32) << 24u32) | ((block[4 * i + 1] as u32) << 16u32) | ((block[4 * i + 2] as u32) << 8u32)
        | (block[4 * i + 3] as u32)
}

/// Word `i` of the message schedule of `block`.
pub open spec fn schedule(block: Seq<u8>, i: nat) -> u32
    decreases i,
{
    if i < 16 {
        be_word(block, i as int)
    } else {
        wrapping_add(
            wrapping_add(
                wrapping_add(schedule(block, (i - 16) as nat), small_sigma0(schedule(block, (i - 15) as nat))),
                schedule(block, (i - 7) as nat),
            ),
            small_sigma1(schedule(block, (i - 2) as nat)),
        )
    }
}

/// One round of the compression function with round constant `k` and
/// schedule word `w`.
pub open spec fn round(v: Words8, k: u32, w: u32) -> Words8 {
    let temp1 = wrapping_add(wrapping_add(wrapping_add(wrapping_add(v.h, big_sigma1(v.e)), choose_bits(v.e, v.f, v.g)), k), w);
    let temp2 = wrapping_add(big_sigma0(v.a), majority(v.a, v.b, v.c));
    Words8 {
        a: wrapping_add(temp1, temp2),
        b: v.a,
        c: v.b,
        d: v.c,
        e: wrapping_add(v.d, temp1),
        f: v.e,
        g: v.f,
        h: v.g,
    }
}

/// The working variables after the first `n` rounds over `block`.
pub open spec fn rounds(start: Words8, block: Seq<u8>, n: nat) -> Words8
    decreases n,
{
    if n == 0 {
        start
    } else {
        round(rounds(start, block, (n - 1) as nat), round_constants()[n - 1], schedule(block, (n - 1) as nat))
    }
}

/// The hash state after compressing `block` into `hs`.
pub open spec fn compress(hs: Words8, block: Seq<u8>) -> Words8 {
    let v = rounds(hs, block, 64);
    Words8 {
        a: wrapping_add(hs.a, v.a),
        b: wrapping_add(hs.b, v.b),
        c: wrapping_add(hs.c, v.c),
        d: wrapping_add(hs.d, v.d),
        e: wrapping_add(hs.e, v.e),
        f: wrapping_add(hs.f, v.f),
        g: wrapping_add(hs.g, v.g),
        h: wrapping_add(hs.h, v.h),
    }
}

/// The block at block index `i` of `msg`.
pub open spec fn block_at(msg: Seq<u8>, i: int) -> Seq<u8> {
    msg.subrange(64 * i, 64 * i + 64)
}

/// The hash state after the first `n` blocks of `msg`.
pub open spec fn hash_blocks(msg: Seq<u8>, n: nat) -> Words8
    decreases n,
{
    if n == 0 {
        initial_state()
    } else {
        compress(hash_blocks(msg, (n - 1) as nat), block_at(msg, n - 1))
    }
}

/// The number of zero bytes that padding puts after the one bit.
pub open spec fn zero_count(len: nat) -> nat {
    ((56 + 64 - (len + 1) % 64) % 64) as nat
}

/// The bytes of `x`, big-endian.
pub open spec fn be_u64(x: u64) -> Seq<u8> {
    seq![
        (x >> 56u64) as u8,
        (x >> 48u64) as u8,
        (x >> 40u64) as u8,
        (x >> 32u64) as u8,
        (x >> 24u64) as u8,
        (x >> 16u64) as u8,
        (x >> 8u64) as u8,
        x as u8,
    ]
}

/// The padded message: `msg`, the byte 0x80, zeros up to 56 mod 64, and
/// the bit length of `msg`.
pub open spec fn padded(msg: Seq<u8>) -> Seq<u8> {
    msg + seq![0x80u8] + Seq::new(zero_count(msg.len()), |i: int| 0u8) + be_u64((msg.len() * 8) as u64)
}

/// The bytes of `x`, big-endian.
pub open spec fn be_u32(x: u32) -> Seq<u8> {
    seq![(x >> 24u32) as u8, (x >> 16u32) as u8, (x >> 8u32) as u8, x as u8]
}

/// The digest bytes of the hash state.
pub open spec fn digest_bytes(hs: Words8) -> Seq<u8> {
    be_u32(hs.a) + be_u32(hs.b) + be_u32(hs.c) + be_u32(hs.d) + be_u32(hs.e) + be_u32(hs.f) + be_u32(hs.g) + be_u32(
        hs.h,
    )
}

/// The SHA-256 digest of `msg`.
pub open spec fn sha256(msg: Seq<u8>) -> Seq<u8> {
    digest_bytes(hash_blocks(padded(msg), (padded(msg).len() / 64) as nat))
}

/// Two lowercase hex digits per byte.
pub open spec fn hex_bytes(b: Seq<u8>) -> Seq<char>
    decreases b.len(),
{
    if b.len() == 0 {
        Seq::empty()
    } else {
        hex_bytes(b.drop_last()) + seq![hex_alphabet()[(b.last() / 16) as int], hex_alphabet()[(b.last() % 16) as int]]
    }
}

fn rotr32(x: u32, n: u32) -> (r: u32)
    requires
        0 < n < 32,
    ensures
        r == rotr(x, n),
{
    (x >> n) | (x << (32 - n))
}

fn be_word_at(block: &[u8], i: usize) -> (w: u32)
    requires
        block@.len() == 64,
        i < 16,
    ensures
        w == be_word(block@, i as int),
{
    ((block[4 * i] as u32) << 24u32) | ((block[4 * i + 1] as u32) << 16u32) | ((block[4 * i + 2] as u32) << 8u32)
        | (block[4 * i + 3] as u32)
}

/// The message schedule of a 64-byte block.
fn message_schedule(block: &[u8]) -> (w: Vec<u32>)
    requires
        block@.len() == 64,
    ensures
        w@.len() == 64,
        forall|i: int| 0 <= i < 64 ==> #[trigger] w@[i] == schedule(block@, i as nat),
{
    let mut w: Vec<u32> = Vec::new();
    let mut i: usize = 0;
    while i < 64
        invariant
            0 <= i <= 64,
            block@.len() == 64,
            w@.len() == i,
            forall|j: int| 0 <= j < i ==> #[trigger] w@[j] == schedule(block@, j as nat),
        decreases 64 - i,
    {
        if i < 16 {
            w.push(be_word_at(block, i));
        } else {
            let x15 = w[i - 15];
            let x2 = w[i - 2];
            let s0 = rotr32(x15, 7) ^ rotr32(x15, 18) ^ (x15 >> 3u32);
            let s1 = rotr32(x2, 17) ^ rotr32(x2, 19) ^ (x2 >> 10u32);
            let next = w[i - 16].wrapping_add(s0).wrapping_add(w[i - 7]).wrapping_add(s1);
            proof {
                assert(w@[i - 15] == schedule(block@, (i - 15) as nat));
                assert(w@[i - 2] == schedule(block@, (i - 2) as nat));
                assert(w@[i - 16] == schedule(block@, (i - 16) as nat));
                assert(w@[i - 7] == schedule(block@, (i - 7) as nat));
            }
            w.push(next);
        }
        i += 1;
    }
    w
}

fn compress_block(hs: &mut [u32; 8], block: &[u8], k: &[u32; 64])
    requires
        block@.len() == 64,
        k@ == round_constants(),
    ensures
        words_of(final(hs)@) == compress(words_of(old(hs)@), block@),
{
    let w = message_schedule(block);
    let ghost start = words_of(hs@);
    let mut a = hs[0];
    let mut b = hs[1];
    let mut c = hs[2];
    let mut d = hs[3];
    let mut e = hs[4];
    let mut f = hs[5];
    let mut g = hs[6];
    let mut h = hs[7];
    let mut i: usize = 0;
    while i < 64
        invariant
            0 <= i <= 64,
            w@.len() == 64,
            k@ == round_constants(),
            forall|j: int| 0 <= j < 64 ==> #[trigger] w@[j] == schedule(block@, j as nat),
            (Words8 { a, b, c, d, e, f, g, h }) == rounds(start, block@, i as nat),
        decreases 64 - i,
    {
        let s1 = rotr32(e, 6) ^ rotr32(e, 11) ^ rotr32(e, 25);
        let ch = (e & f) ^ ((!e) & g);
        let temp1 = h.wrapping_add(s1).wrapping_add(ch).wrapping_add(k[i]).wrapping_add(w[i]);
        let s0 = rotr32(a, 2) ^ rotr32(a, 13) ^ rotr32(a, 22);
        let maj = (a & b) ^ (a & c) ^ (b & c);
        let temp2 = s0.wrapping_add(maj);
        h = g;
        g = f;
        f = e;
        e = d.wrapping_add(temp1);
        d = c;
        c = b;
        b = a;
        a = temp1.wrapping_add(temp2);
        i += 1;
    }
    hs[0] = hs[0].wrapping_add(a);
    hs[1] = hs[1].wrapping_add(b);
    hs[2] = hs[2].wrapping_add(c);
    hs[3] = hs[3].wrapping_add(d);
    hs[4] = hs[4].wrapping_add(e);
    hs[5] = hs[5].wrapping_add(f);
    hs[6] = hs[6].wrapping_add(g);
    hs[7] = hs[7].wrapping_add(h);
}

/// The hash state held in eight words.
pub open spec fn words_of(s: Seq<u32>) -> Words8 {
    Words8 { a: s[0], b: s[1], c: s[2], d: s[3], e: s[4], f: s[5], g: s[6], h: s[7] }
}

/// The SHA-256 digest of `input`, as 64 lowercase hex digits.
pub fn sha256_hex(input: &[u8]) -> (s: String)
    requires
        input@.len() * 8 <= u64::MAX,
    ensures
        s@ == hex_bytes(sha256(input@)),
{
    let k: [u32; 64] = [
        0x428a2f98, 0x71374491, 0xb5c0fbcf, 0xe9b5dba5, 0x3956c25b, 0x59f111f1, 0x923f82a4, 0xab1c5ed5,
        0xd807aa98, 0x12835b01, 0x243185be, 0x550c7dc3, 0x72be5d74, 0x80deb1fe, 0x9bdc06a7, 0xc19bf174,
        0xe49b69c1, 0xefbe4786, 0x0fc19dc6, 0x240ca1cc, 0x2de92c6f, 0x4a7484aa, 0x5cb0a9dc, 0x76f988da,
        0x983e5152, 0xa831c66d, 0xb00327c8, 0xbf597fc7, 0xc6e00bf3, 0xd5a79147, 0x06ca6351, 0x14292967,
        0x27b70a85, 0x2e1b2138, 0x4d2c6dfc, 0x53380d13, 0x650a7354, 0x766a0abb, 0x81c2c92e, 0x92722c85,
        0xa2bfe8a1, 0xa81a664b, 0xc24b8b70, 0xc76c51a3, 0xd192e819, 0xd6990624, 0xf40e3585, 0x106aa070,
        0x19a4c116, 0x1e376c08, 0x2748774c, 0x34b0bcb5, 0x391c0cb3, 0x4ed8aa4a, 0x5b9cca4f, 0x682e6ff3,
        0x748f82ee, 0x78a5636f, 0x84c87814, 0x8cc70208, 0x90befffa, 0xa4506ceb, 0xbef9a3f7, 0xc67178f2,
    ];
    proof {
        assert(k@ =~= round_constants());
    }
    let mut hs: [u32; 8] = [
        0x6a09e667,
        0xbb67ae85,
        0x3c6ef372,
        0xa54ff53a,
        0x510e527f,
        0x9b05688c,
        0x1f83d9ab,
        0x5be0cd19,
    ];
    let msg = pad_message(input);
    let ghost p = padded(input@);
    let blocks = msg.len() / 64;
    let mut n: usize = 0;
    assert(msg@.len() == msg.len());
    while n < blocks
        invariant
            0 <= n <= blocks,
            msg@.len() <= usize::MAX,
            msg@ == p,
            blocks == p.len() / 64,
            p.len() % 64 == 0,
            k@ == round_constants(),
            words_of(hs@) == hash_blocks(p, n as nat),
        decreases blocks - n,
    {
        proof {
            assert(64 * n + 64 <= msg@.len()) by (nonlinear_arith)
                requires
                    n < blocks,
                    blocks == msg@.len() / 64,
            ;
        }
        let block = copy_block(&msg, 64 * n);
        proof {
            assert(block@ =~= block_at(p, n as int));
        }
        compress_block(&mut hs, block.as_slice(), &k);
        n += 1;
    }
    let mut digest: Vec<u8> = Vec::new();
    let mut j: usize = 0;
    while j < 8
        invariant
            0 <= j <= 8,
            digest@ == words_bytes(hs@, j as int),
        decreases 8 - j,
    {
        let x = hs[j];
        digest.push((x >> 24u32) as u8);
        digest.push((x >> 16u32) as u8);
        digest.push((x >> 8u32) as u8);
        digest.push(x as u8);
        proof {
            assert(digest@ =~= words_bytes(hs@, j as int) + be_u32(x));
        }
        j += 1;
    }
    proof {
        reveal_with_fuel(words_bytes, 9);
        assert(digest@ =~= digest_bytes(words_of(hs@)));
    }
    let digits: [char; 16] = ['0', '1', '2', '3', '4', '5', '6', '7', '8', '9', 'a', 'b', 'c', 'd', 'e', 'f'];
    proof {
        assert(digits@ =~= hex_alphabet());
    }
    let mut out: Vec<char> = Vec::new();
    let mut t: usize = 0;
    while t < digest.len()
        invariant
            0 <= t <= digest@.len(),
            digits@ == hex_alphabet(),
            out@ == hex_bytes(digest@.take(t as int)),
        decreases digest@.len() - t,
    {
        let byte = digest[t];
        out.push(digits[(byte / 16) as usize]);
        out.push(digits[(byte % 16) as usize]);
        proof {
            assert(digest@.take(t + 1).drop_last() =~= digest@.take(t as int));
            assert(out@ =~= hex_bytes(digest@.take(t + 1)));
        }
        t += 1;
    }
    proof {
        assert(digest@.take(digest@.len() as int) =~= digest@);
    }
    string_from_chars(&out)
}

/// The bytes of the first `j` words of `s`.
pub open spec fn words_bytes(s: Seq<u32>, j: int) -> Seq<u8>
    decreases j,
{
    if j <= 0 {
        Seq::empty()
    } else {
        words_bytes(s, j - 1) + be_u32(s[j - 1])
    }
}

fn copy_block(msg: &Vec<u8>, start: usize) -> (b: Vec<u8>)
    requires
        start + 64 <= msg@.len(),
    ensures
        b@ == msg@.subrange(start as int, start + 64),
{
    let mut b: Vec<u8> = Vec::new();
    let mut i: usize = 0;
    assert(msg@.len() == msg.len());
    while i < 64
        invariant
            0 <= i <= 64,
            start + 64 <= msg@.len(),
            msg@.len() <= usize::MAX,
            b@ == msg@.subrange(start as int, start + i),
        decreases 64 - i,
    {
        b.push(msg[start + i]);
        i += 1;
        proof {
            assert(b@ =~= msg@.subrange(start as int, start + i));
        }
    }
    b
}

fn pad_message(input: &[u8]) -> (msg: Vec<u8>)
    requires
        input@.len() * 8 <= u64::MAX,
    ensures
        msg@ == padded(input@),
        msg@.len() % 64 == 0,
{
    let mut msg: Vec<u8> = Vec::new();
    let mut i: usize = 0;
    while i < input.len()
        invariant
            0 <= i <= input@.len(),
            msg@ == input@.take(i as int),
        decreases input@.len() - i,
    {
        msg.push(input[i]);
        i += 1;
        proof {
            assert(msg@ =~= input@.take(i as int));
        }
    }
    proof {
        assert(input@.take(input@.len() as int) =~= input@);
    }
    msg.push(0x80u8);
    let zeros = (56 + 64 - (input.len() % 64 + 1) % 64) % 64;
    proof {
        assert((input@.len() as int + 1) % 64 == ((input@.len() as int % 64) + 1) % 64);
        assert(zeros == zero_count(input@.len()));
    }
    let ghost before = msg@;
    let mut z: usize = 0;
    while z < zeros
        invariant
            0 <= z <= zeros,
            msg@ == before + Seq::new(z as nat, |j: int| 0u8),
        decreases zeros - z,
    {
        msg.push(0u8);
        z += 1;
        proof {
            assert(msg@ =~= before + Seq::new(z as nat, |j: int| 0u8));
        }
    }
    let bit_len = (input.len() as u64) * 8;
    msg.push((bit_len >> 56u64) as u8);
    msg.push((bit_len >> 48u64) as u8);
    msg.push((bit_len >> 40u64) as u8);
    msg.push((bit_len >> 32u64) as u8);
    msg.push((bit_len >> 24u64) as u8);
    msg.push((bit_len >> 16u64) as u8);
    msg.push((bit_len >> 8u64) as u8);
    msg.push(bit_len as u8);
    proof {
        assert(msg@ =~= padded(input@));
        let l = input@.len() as int;
        assert((l + 1 + zeros + 8) % 64 == 0) by (nonlinear_arith)
            requires
                zeros == (56 + 64 - (l + 1) % 64) % 64,
                l >= 0,
        ;
    }
    msg
}

} // verus!
