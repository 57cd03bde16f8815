//! The fingerprint of a model file, under which what was derived from the
//! file is kept between runs: the SHA-256 digest of the head of the file
//! and its size.

use vstd::prelude::*;
use crate::text::text_from;

verus! {

/// The number of bytes at the head of a file that go into its fingerprint.
pub const FINGERPRINT_BYTES: usize = 65536;

/// The eight words that a digest is computed in.
#[derive(Clone, Copy, Debug, PartialEq, Eq, Structural)]
pub struct Words {
    pub a: u32,
    pub b: u32,
    pub c: u32,
    pub d: u32,
    pub e: u32,
    pub f: u32,
    pub g: u32,
    pub h: u32,
}

/// `x` rotated to the right by `n` bits.
pub open spec fn rotr(x: u32, n: u32) -> u32 {
    (x >> n) | (x << ((32 - n) as u32))
}

pub open spec fn small_sigma0(x: u32) -> u32 {
    rotr(x, 7) ^ rotr(x, 18) ^ (x >> 3)
}

pub open spec fn small_sigma1(x: u32) -> u32 {
    rotr(x, 17) ^ rotr(x, 19) ^ (x >> 10)
}

pub open spec fn big_sigma0(x: u32) -> u32 {
    rotr(x, 2) ^ rotr(x, 13) ^ rotr(x, 22)
}

pub open spec fn big_sigma1(x: u32) -> u32 {
    rotr(x, 6) ^ rotr(x, 11) ^ rotr(x, 25)
}

pub open spec fn choose_bits(x: u32, y: u32, z: u32) -> u32 {
    (x & y) ^ (!x & z)
}

pub open spec fn majority(x: u32, y: u32, z: u32) -> u32 {
    (x & y) ^ (x & z) ^ (y & z)
}

/// The constant of round `i`, counted from 0.
pub open spec fn round_constant(i: int) -> u32 {
    if i == 0 {
        0x428a2f98
    } else if i == 1 {
        0x71374491
    } else if i == 2 {
        0xb5c0fbcf
    } else if i == 3 {
        0xe9b5dba5
    } else if i == 4 {
        0x3956c25b
    } else if i == 5 {
        0x59f111f1
    } else if i == 6 {
        0x923f82a4
    } else if i == 7 {
        0xab1c5ed5
    } else if i == 8 {
        0xd807aa98
    } else if i == 9 {
        0x12835b01
    } else if i == 10 {
        0x243185be
    } else if i == 11 {
        0x550c7dc3
    } else if i == 12 {
        0x72be5d74
    } else if i == 13 {
        0x80deb1fe
    } else if i == 14 {
        0x9bdc06a7
    } else if i == 15 {
        0xc19bf174
    } else if i == 16 {
        0xe49b69c1
    } else if i == 17 {
        0xefbe4786
    } else if i == 18 {
        0x0fc19dc6
    } else if i == 19 {
        0x240ca1cc
    } else if i == 20 {
        0x2de92c6f
    } else if i == 21 {
        0x4a7484aa
    } else if i == 22 {
        0x5cb0a9dc
    } else if i == 23 {
        0x76f988da
    } else if i == 24 {
        0x983e5152
    } else if i == 25 {
        0xa831c66d
    } else if i == 26 {
        0xb00327c8
    } else if i == 27 {
        0xbf597fc7
    } else if i == 28 {
        0xc6e00bf3
    } else if i == 29 {
        0xd5a79147
    } else if i == 30 {
        0x06ca6351
    } else if i == 31 {
        0x14292967
    } else if i == 32 {
        0x27b70a85
    } else if i == 33 {
        0x2e1b2138
    } else if i == 34 {
        0x4d2c6dfc
    } else if i == 35 {
        0x53380d13
    } else if i == 36 {
        0x650a7354
    } else if i == 37 {
        0x766a0abb
    } else if i == 38 {
        0x81c2c92e
    } else if i == 39 {
        0x92722c85
    } else if i == 40 {
        0xa2bfe8a1
    } else if i == 41 {
        0xa81a664b
    } else if i == 42 {
        0xc24b8b70
    } else if i == 43 {
        0xc76c51a3
    } else if i == 44 {
        0xd192e819
    } else if i == 45 {
        0xd6990624
    } else if i == 46 {
        0xf40e3585
    } else if i == 47 {
        0x106aa070
    } else if i == 48 {
        0x19a4c116
    } else if i == 49 {
        0x1e376c08
    } else if i == 50 {
        0x2748774c
    } else if i == 51 {
        0x34b0bcb5
    } else if i == 52 {
        0x391c0cb3
    } else if i == 53 {
        0x4ed8aa4a
    } else if i == 54 {
        0x5b9cca4f
    } else if i == 55 {
        0x682e6ff3
    } else if i == 56 {
        0x748f82ee
    } else if i == 57 {
        0x78a5636f
    } else if i == 58 {
        0x84c87814
    } else if i == 59 {
        0x8cc70208
    } else if i == 60 {
        0x90befffa
    } else if i == 61 {
        0xa4506ceb
    } else if i == 62 {
        0xbef9a3f7
    } else {
        0xc67178f2
    }
}

/// The words a digest starts from.
pub open spec fn initial_words() -> Words {
    Words {
        a: 0x6a09e667,
        b: 0xbb67ae85,
        c: 0x3c6ef372,
        d: 0xa54ff53a,
        e: 0x510e527f,
        f: 0x9b05688c,
        g: 0x1f83d9ab,
        h: 0x5be0cd19,
    }
}

/// Four bytes as a word, the first byte highest.
pub open spec fn word_of(b0: u8, b1: u8, b2: u8, b3: u8) -> u32 {
    ((b0 as u32) << 24) | ((b1 as u32) << 16) | ((b2 as u32) << 8) | (b3 as u32)
}

/// Word `t` of the schedule of a block of sixty-four bytes.
pub open spec fn schedule(block: Seq<u8>, t: int) -> u32
    decreases t,
{
    if t < 0 {
        0
    } else if t < 16 {
        word_of(block[4 * t], block[4 * t + 1], block[4 * t + 2], block[4 * t + 3])
    } else {
        small_sigma1(schedule(block, t - 2)).wrapping_add(schedule(block, t - 7)).wrapping_add(
            small_sigma0(schedule(block, t - 15)),
        ).wrapping_add(schedule(block, t - 16))
    }
}

/// One round: the words after the constant `k` and the schedule word `w`
/// went in.
pub open spec fn round(s: Words, k: u32, w: u32) -> Words {
    let t1 = s.h.wrapping_add(big_sigma1(s.e)).wrapping_add(choose_bits(s.e, s.f, s.g)).wrapping_add(
        k,
    ).wrapping_add(w);
    let t2 = big_sigma0(s.a).wrapping_add(majority(s.a, s.b, s.c));
    Words {
        a: t1.wrapping_add(t2),
        b: s.a,
        c: s.b,
        d: s.c,
        e: s.d.wrapping_add(t1),
        f: s.e,
        g: s.f,
        h: s.g,
    }
}

/// The words after the first `n` rounds over a block.
pub open spec fn rounds(s: Words, block: Seq<u8>, n: int) -> Words
    decreases n,
{
    if n <= 0 {
        s
    } else {
        round(rounds(s, block, n - 1), round_constant(n - 1), schedule(block, n - 1))
    }
}

/// The words after a block went in.
pub open spec fn compressed(s: Words, block: Seq<u8>) -> Words {
    let r = rounds(s, block, 64);
    Words {
        a: s.a.wrapping_add(r.a),
        b: s.b.wrapping_add(r.b),
        c: s.c.wrapping_add(r.c),
        d: s.d.wrapping_add(r.d),
        e: s.e.wrapping_add(r.e),
        f: s.f.wrapping_add(r.f),
        g: s.g.wrapping_add(r.g),
        h: s.h.wrapping_add(r.h),
    }
}

/// The words after the first `blocks` blocks of `data` went in.
pub open spec fn absorbed(s: Words, data: Seq<u8>, blocks: int) -> Words
    decreases blocks,
{
    if blocks <= 0 {
        s
    } else {
        compressed(absorbed(s, data, blocks - 1), data.subrange(64 * (blocks - 1), 64 * blocks))
    }
}

/// The number of zero bytes that pad a message of `len` bytes.
pub open spec fn padding_zeros(len: nat) -> nat {
    ((64 - (len + 9) % 64) % 64) as nat
}

/// Byte `i` of a word, counted from the highest.
pub open spec fn byte_of(x: u32, i: int) -> u8 {
    ((x >> ((24 - 8 * i) as u32)) & 0xff) as u8
}

/// Byte `i` of a long word, counted from the highest.
pub open spec fn long_byte_of(x: u64, i: int) -> u8 {
    ((x >> ((56 - 8 * i) as u64)) & 0xff) as u8
}

/// A long word as eight bytes, the highest first.
pub open spec fn long_bytes(x: u64) -> Seq<u8> {
    Seq::new(8, |i: int| long_byte_of(x, i))
}

/// A message as it goes into the digest: the message, a byte with its top
/// bit set, zeros up to eight bytes short of a whole block, and the length
/// of the message in bits.
pub open spec fn padded(message: Seq<u8>) -> Seq<u8> {
    message + seq![0x80u8] + Seq::new(padding_zeros(message.len()), |i: int| 0u8) + long_bytes(
        (8 * message.len()) as u64,
    )
}

/// Eight words as thirty-two bytes, word after word, the highest byte of
/// each first.
pub open spec fn word_bytes(s: Words) -> Seq<u8> {
    seq![
        byte_of(s.a, 0), byte_of(s.a, 1), byte_of(s.a, 2), byte_of(s.a, 3),
        byte_of(s.b, 0), byte_of(s.b, 1), byte_of(s.b, 2), byte_of(s.b, 3),
        byte_of(s.c, 0), byte_of(s.c, 1), byte_of(s.c, 2), byte_of(s.c, 3),
        byte_of(s.d, 0), byte_of(s.d, 1), byte_of(s.d, 2), byte_of(s.d, 3),
        byte_of(s.e, 0), byte_of(s.e, 1), byte_of(s.e, 2), byte_of(s.e, 3),
        byte_of(s.f, 0), byte_of(s.f, 1), byte_of(s.f, 2), byte_of(s.f, 3),
        byte_of(s.g, 0), byte_of(s.g, 1), byte_of(s.g, 2), byte_of(s.g, 3),
        byte_of(s.h, 0), byte_of(s.h, 1), byte_of(s.h, 2), byte_of(s.h, 3),
    ]
}

/// The SHA-256 digest of `message`.
pub open spec fn sha256_of(message: Seq<u8>) -> Seq<u8> {
    word_bytes(absorbed(initial_words(), padded(message), padded(message).len() as int / 64))
}

/// What is hashed for a file that begins with `head` and is `file_size`
/// bytes long: the first 64 KiB of it, and its size as eight bytes.
pub open spec fn fingerprint_input(head: Seq<u8>, file_size: u64) -> Seq<u8> {
    (if head.len() <= 65536 {
        head
    } else {
        head.take(65536)
    }) + long_bytes(file_size)
}

/// The fingerprint of a file that begins with `head` and is `file_size`
/// bytes long.
pub open spec fn fingerprint_of(head: Seq<u8>, file_size: u64) -> Seq<u8> {
    sha256_of(fingerprint_input(head, file_size))
}

/// The digit that stands for `n` in base sixteen.
pub open spec fn hex_digit(n: u8) -> char {
    if n < 10 {
        ((n + 48) as u8) as char
    } else {
        ((n + 87) as u8) as char
    }
}

/// `bytes` written out in base sixteen, two digits to the byte.
pub open spec fn hex_of(bytes: Seq<u8>) -> Seq<char>
    decreases bytes.len(),
{
    if bytes.len() == 0 {
        Seq::empty()
    } else {
        hex_of(bytes.drop_last()).push(hex_digit(bytes.last() / 16)).push(hex_digit(bytes.last() % 16))
    }
}

fn rotate(x: u32, n: u32) -> (r: u32)
    requires
        0 < n < 32,
    ensures
        r == rotr(x, n),
{
    (x >> n) | (x << (32 - n))
}

fn top_byte(x: u32, i: u32) -> (b: u8)
    requires
        i < 4,
    ensures
        b == byte_of(x, i as int),
{
    let shift: u32 = 24 - 8 * i;
    let low: u32 = (x >> shift) & 0xff;
    assert(low <= 0xff) by (bit_vector)
        requires
            low == (x >> shift) & 0xff,
    ;
    low as u8
}

fn top_long_byte(x: u64, i: u64) -> (b: u8)
    requires
        i < 8,
    ensures
        b == long_byte_of(x, i as int),
{
    let shift: u64 = 56 - 8 * i;
    let low: u64 = (x >> shift) & 0xff;
    assert(low <= 0xff) by (bit_vector)
        requires
            low == (x >> shift) & 0xff,
    ;
    low as u8
}

fn constant(i: usize) -> (k: u32)
    requires
        i < 64,
    ensures
        k == round_constant(i as int),
{
    match i {
        0 => 0x428a2f98,
        1 => 0x71374491,
        2 => 0xb5c0fbcf,
        3 => 0xe9b5dba5,
        4 => 0x3956c25b,
        5 => 0x59f111f1,
        6 => 0x923f82a4,
        7 => 0xab1c5ed5,
        8 => 0xd807aa98,
        9 => 0x12835b01,
        10 => 0x243185be,
        11 => 0x550c7dc3,
        12 => 0x72be5d74,
        13 => 0x80deb1fe,
        14 => 0x9bdc06a7,
        15 => 0xc19bf174,
        16 => 0xe49b69c1,
        17 => 0xefbe4786,
        18 => 0x0fc19dc6,
        19 => 0x240ca1cc,
        20 => 0x2de92c6f,
        21 => 0x4a7484aa,
        22 => 0x5cb0a9dc,
        23 => 0x76f988da,
        24 => 0x983e5152,
        25 => 0xa831c66d,
        26 => 0xb00327c8,
        27 => 0xbf597fc7,
        28 => 0xc6e00bf3,
        29 => 0xd5a79147,
        30 => 0x06ca6351,
        31 => 0x14292967,
        32 => 0x27b70a85,
        33 => 0x2e1b2138,
        34 => 0x4d2c6dfc,
        35 => 0x53380d13,
        36 => 0x650a7354,
        37 => 0x766a0abb,
        38 => 0x81c2c92e,
        39 => 0x92722c85,
        40 => 0xa2bfe8a1,
        41 => 0xa81a664b,
        42 => 0xc24b8b70,
        43 => 0xc76c51a3,
        44 => 0xd192e819,
        45 => 0xd6990624,
        46 => 0xf40e3585,
        47 => 0x106aa070,
        48 => 0x19a4c116,
        49 => 0x1e376c08,
        50 => 0x2748774c,
        51 => 0x34b0bcb5,
        52 => 0x391c0cb3,
        53 => 0x4ed8aa4a,
        54 => 0x5b9cca4f,
        55 => 0x682e6ff3,
        56 => 0x748f82ee,
        57 => 0x78a5636f,
        58 => 0x84c87814,
        59 => 0x8cc70208,
        60 => 0x90befffa,
        61 => 0xa4506ceb,
        62 => 0xbef9a3f7,
        _ => 0xc67178f2,
    }
}

fn push_long(out: &mut Vec<u8>, x: u64)
    ensures
        final(out)@ == old(out)@ + long_bytes(x),
{
    let mut i: u64 = 0;
    while i < 8
        invariant
            i <= 8,
            out@ == old(out)@ + long_bytes(x).take(i as int),
        decreases 8 - i,
    {
        out.push(top_long_byte(x, i));
        proof {
            assert(long_bytes(x).take(i + 1) =~= long_bytes(x).take(i as int).push(
                long_byte_of(x, i as int),
            ));
            assert(out@ =~= old(out)@ + long_bytes(x).take(i + 1));
        }
        i += 1;
    }
    proof {
        assert(long_bytes(x).take(8) =~= long_bytes(x));
    }
}

fn push_word(out: &mut Vec<u8>, x: u32)
    ensures
        final(out)@ == old(out)@ + seq![byte_of(x, 0), byte_of(x, 1), byte_of(x, 2), byte_of(x, 3)],
{
    out.push(top_byte(x, 0));
    out.push(top_byte(x, 1));
    out.push(top_byte(x, 2));
    out.push(top_byte(x, 3));
    assert(out@ =~= old(out)@ + seq![byte_of(x, 0), byte_of(x, 1), byte_of(x, 2), byte_of(x, 3)]);
}

fn compress(s: Words, data: &Vec<u8>, offset: usize) -> (r: Words)
    requires
        offset + 64 <= data@.len(),
    ensures
        r == compressed(s, data@.subrange(offset as int, offset + 64)),
{
    let ghost block = data@.subrange(offset as int, offset + 64);
    let total: usize = data.len();
    let mut w: Vec<u32> = Vec::new();
    let mut t: usize = 0;
    while t < 64
        invariant
            t <= 64,
            total == data@.len(),
            offset + 64 <= total,
            block == data@.subrange(offset as int, offset + 64),
            w@.len() == t,
            forall|j: int| 0 <= j < t ==> #[trigger] w@[j] == schedule(block, j),
        decreases 64 - t,
    {
        let word: u32 = if t < 16 {
            let at: usize = offset + 4 * t;
            proof {
                assert(block[4 * t] == data@[at as int]);
                assert(block[4 * t + 1] == data@[at + 1]);
                assert(block[4 * t + 2] == data@[at + 2]);
                assert(block[4 * t + 3] == data@[at + 3]);
            }
            ((data[at] as u32) << 24) | ((data[at + 1] as u32) << 16) | ((data[at + 2] as u32) << 8)
                | (data[at + 3] as u32)
        } else {
            let w2: u32 = w[t - 2];
            let w15: u32 = w[t - 15];
            let s1: u32 = rotate(w2, 17) ^ rotate(w2, 19) ^ (w2 >> 10);
            let s0: u32 = rotate(w15, 7) ^ rotate(w15, 18) ^ (w15 >> 3);
            s1.wrapping_add(w[t - 7]).wrapping_add(s0).wrapping_add(w[t - 16])
        };
        w.push(word);
        t += 1;
    }
    let mut r: Words = s;
    let mut n: usize = 0;
    while n < 64
        invariant
            n <= 64,
            w@.len() == 64,
            forall|j: int| 0 <= j < 64 ==> #[trigger] w@[j] == schedule(block, j),
            r == rounds(s, block, n as int),
        decreases 64 - n,
    {
        let k: u32 = constant(n);
        let x: u32 = w[n];
        let t1: u32 = r.h.wrapping_add(rotate(r.e, 6) ^ rotate(r.e, 11) ^ rotate(r.e, 25)).wrapping_add(
            (r.e & r.f) ^ (!r.e & r.g),
        ).wrapping_add(k).wrapping_add(x);
        let t2: u32 = (rotate(r.a, 2) ^ rotate(r.a, 13) ^ rotate(r.a, 22)).wrapping_add(
            (r.a & r.b) ^ (r.a & r.c) ^ (r.b & r.c),
        );
        r = Words {
            a: t1.wrapping_add(t2),
            b: r.a,
            c: r.b,
            d: r.c,
            e: r.d.wrapping_add(t1),
            f: r.e,
            g: r.f,
            h: r.g,
        };
        n += 1;
    }
    Words {
        a: s.a.wrapping_add(r.a),
        b: s.b.wrapping_add(r.b),
        c: s.c.wrapping_add(r.c),
        d: s.d.wrapping_add(r.d),
        e: s.e.wrapping_add(r.e),
        f: s.f.wrapping_add(r.f),
        g: s.g.wrapping_add(r.g),
        h: s.h.wrapping_add(r.h),
    }
}

/// The SHA-256 digest of `message`: thirty-two bytes.
pub fn sha256(message: &[u8]) -> (digest: Vec<u8>)
    requires
        message@.len() + 73 <= usize::MAX,
        8 * message@.len() <= u64::MAX,
    ensures
        digest@ == sha256_of(message@),
        digest@.len() == 32,
{
    let len: usize = message.len();
    let mut data: Vec<u8> = Vec::new();
    let mut i: usize = 0;
    while i < len
        invariant
            i <= len,
            len == message@.len(),
            data@ == message@.take(i as int),
        decreases len - i,
    {
        data.push(message[i]);
        proof {
            assert(message@.take(i + 1) =~= message@.take(i as int).push(message@[i as int]));
        }
        i += 1;
    }
    proof {
        assert(message@.take(len as int) =~= message@);
    }
    data.push(0x80);
    let zeros: usize = (64 - (len + 9) % 64) % 64;
    let mut z: usize = 0;
    while z < zeros
        invariant
            z <= zeros,
            data@ == message@ + seq![0x80u8] + Seq::new(z as nat, |i: int| 0u8),
        decreases zeros - z,
    {
        data.push(0);
        proof {
            assert(data@ =~= message@ + seq![0x80u8] + Seq::new((z + 1) as nat, |i: int| 0u8));
        }
        z += 1;
    }
    let bits: u64 = (len as u64) * 8;
    push_long(&mut data, bits);
    assert(data@ == padded(message@));
    let total: usize = data.len();
    let blocks: usize = total / 64;
    assert(total == len + 1 + zeros + 8);
    assert(total % 64 == 0);
    let mut words = Words {
        a: 0x6a09e667,
        b: 0xbb67ae85,
        c: 0x3c6ef372,
        d: 0xa54ff53a,
        e: 0x510e527f,
        f: 0x9b05688c,
        g: 0x1f83d9ab,
        h: 0x5be0cd19,
    };
    let mut b: usize = 0;
    while b < blocks
        invariant
            b <= blocks,
            total == data@.len(),
            blocks * 64 == total,
            words == absorbed(initial_words(), data@, b as int),
        decreases blocks - b,
    {
        words = compress(words, &data, b * 64);
        b += 1;
    }
    let mut digest: Vec<u8> = Vec::new();
    push_word(&mut digest, words.a);
    push_word(&mut digest, words.b);
    push_word(&mut digest, words.c);
    push_word(&mut digest, words.d);
    push_word(&mut digest, words.e);
    push_word(&mut digest, words.f);
    push_word(&mut digest, words.g);
    push_word(&mut digest, words.h);
    assert(digest@ =~= word_bytes(words));
    digest
}

/// How many bytes at the head of a file of `file_len` bytes go into its
/// fingerprint.
pub fn fingerprint_len(file_len: usize) -> (len: usize)
    ensures
        len == if file_len <= FINGERPRINT_BYTES {
            file_len
        } else {
            FINGERPRINT_BYTES
        },
{
    if file_len <= FINGERPRINT_BYTES {
        file_len
    } else {
        FINGERPRINT_BYTES
    }
}

/// The fingerprint of a file that begins with `head` and is `file_size`
/// bytes long. Of `head` no more than the first 64 KiB are read.
pub fn fingerprint(head: &[u8], file_size: u64) -> (digest: Vec<u8>)
    ensures
        digest@ == fingerprint_of(head@, file_size),
        digest@.len() == 32,
{
    let len = fingerprint_len(head.len());
    let mut input: Vec<u8> = Vec::new();
    let mut i: usize = 0;
    while i < len
        invariant
            i <= len <= head@.len(),
            len <= FINGERPRINT_BYTES,
            input@ == head@.take(i as int),
        decreases len - i,
    {
        input.push(head[i]);
        proof {
            assert(head@.take(i + 1) =~= head@.take(i as int).push(head@[i as int]));
        }
        i += 1;
    }
    proof {
        if head@.len() <= 65536 {
            assert(head@.take(len as int) =~= head@);
        }
    }
    push_long(&mut input, file_size);
    sha256(input.as_slice())
}

fn digit(n: u8) -> (c: char)
    requires
        n < 16,
    ensures
        c == hex_digit(n),
{
    if n < 10 {
        (n + 48) as char
    } else {
        (n + 87) as char
    }
}

/// `bytes` written out in base sixteen, two digits to the byte, letters in
/// lower case.
pub fn hex(bytes: &[u8]) -> (text: String)
    ensures
        text@ == hex_of(bytes@),
{
    let mut out: Vec<char> = Vec::new();
    let mut i: usize = 0;
    proof {
        assert(bytes@.take(0) =~= Seq::<u8>::empty());
    }
    while i < bytes.len()
        invariant
            i <= bytes@.len(),
            out@ == hex_of(bytes@.take(i as int)),
        decreases bytes@.len() - i,
    {
        proof {
            assert(bytes@.take(i + 1).drop_last() =~= bytes@.take(i as int));
            assert(bytes@.take(i + 1).last() == bytes@[i as int]);
        }
        out.push(digit(bytes[i] / 16));
        out.push(digit(bytes[i] % 16));
        i += 1;
    }
    proof {
        assert(bytes@.take(bytes@.len() as int) =~= bytes@);
    }
    text_from(&out)
}

/// The name of the file that keeps the tokenizer of a model with this
/// fingerprint: the fingerprint in base sixteen, and `.json`.
pub fn cache_file_name(fingerprint: &[u8]) -> (name: String)
    ensures
        name@ == hex_of(fingerprint@) + ".json"@,
{
    let mut name = hex(fingerprint);
    name.append(".json");
    name
}

} // verus!
