//! DEX integrity fields: the Adler-32 checksum and the SHA-1 signature.
use vstd::prelude::*;

verus! {

/// Adler-32 running sums `(a, b)` over a byte sequence.
pub open spec fn adler_sums(s: Seq<u8>) -> (nat, nat)
    decreases s.len(),
{
    if s.len() == 0 {
        (1, 0)
    } else {
        let (a0, b0) = adler_sums(s.drop_last());
        let a = (a0 + s.last()) % 65521;
        (a as nat, ((b0 + a) % 65521) as nat)
    }
}

/// Adler-32 checksum of a byte sequence.
pub open spec fn spec_adler32(s: Seq<u8>) -> u32 {
    (adler_sums(s).1 * 65536 + adler_sums(s).0) as u32
}

pub fn adler32(data: &[u8]) -> (r: u32)
    ensures
        r == spec_adler32(data@),
{
    let mut a: u32 = 1;
    let mut b: u32 = 0;
    let mut i: usize = 0;
    while i < data.len()
        invariant
            i <= data@.len(),
            (a as nat, b as nat) == adler_sums(data@.take(i as int)),
            a < 65521,
            b < 65521,
        decreases data@.len() - i,
    {
        assert(data@.take(i + 1).drop_last() =~= data@.take(i as int));
        a = (a + data[i] as u32) % 65521;
        b = (b + a) % 65521;
        i = i + 1;
    }
    assert(data@.take(i as int) =~= data@);
    b * 65536 + a
}

pub open spec fn rotl(x: u32, n: u32) -> u32 {
    (x << n) | (x >> ((32 - n) as u32))
}

/// Big-endian bytes of a 64-bit value.
pub open spec fn be64(v: u64) -> Seq<u8> {
    seq![(v >> 56u64) as u8, (v >> 48u64) as u8, (v >> 40u64) as u8, (v >> 32u64) as u8,
         (v >> 24u64) as u8, (v >> 16u64) as u8, (v >> 8u64) as u8, v as u8]
}

/// Big-endian bytes of a 32-bit value.
pub open spec fn be32(v: u32) -> Seq<u8> {
    seq![(v >> 24u32) as u8, (v >> 16u32) as u8, (v >> 8u32) as u8, v as u8]
}

/// Number of zero bytes between the `0x80` marker and the length field.
pub open spec fn pad_zeros(len: nat) -> nat {
    ((64 - (len % 64 + 9) % 64) % 64) as nat
}

/// SHA-1 message padding: marker byte, zeros, and the 64-bit bit length.
pub open spec fn sha1_pad(m: Seq<u8>) -> Seq<u8> {
    m + seq![0x80u8] + Seq::new(pad_zeros(m.len()), |i: int| 0u8) + be64((m.len() as u64).wrapping_mul(8))
}

/// Big-endian word `t` of a 64-byte block.
pub open spec fn block_word(block: Seq<u8>, t: int) -> u32 {
    (block[4 * t] as u32) << 24u32 | (block[4 * t + 1] as u32) << 16u32
        | (block[4 * t + 2] as u32) << 8u32 | (block[4 * t + 3] as u32)
}

/// SHA-1 message schedule.
pub open spec fn schedule(block: Seq<u8>, t: nat) -> u32
    decreases t,
{
    if t < 16 {
        block_word(block, t as int)
    } else {
        rotl(schedule(block, (t - 3) as nat) ^ schedule(block, (t - 8) as nat)
            ^ schedule(block, (t - 14) as nat) ^ schedule(block, (t - 16) as nat), 1)
    }
}

pub open spec fn round_f(t: nat, b: u32, c: u32, d: u32) -> u32 {
    if t < 20 {
        (b & c) | (!b & d)
    } else if t < 40 {
        b ^ c ^ d
    } else if t < 60 {
        (b & c) | (b & d) | (c & d)
    } else {
        b ^ c ^ d
    }
}

pub open spec fn round_k(t: nat) -> u32 {
    if t < 20 {
        0x5a827999
    } else if t < 40 {
        0x6ed9eba1
    } else if t < 60 {
        0x8f1bbcdc
    } else {
        0xca62c1d6
    }
}

/// Working variables after the first `t` rounds over `block`.
pub open spec fn rounds(h: (u32, u32, u32, u32, u32), block: Seq<u8>, t: nat) -> (u32, u32, u32, u32, u32)
    decreases t,
{
    if t == 0 {
        h
    } else {
        let (a, b, c, d, e) = rounds(h, block, (t - 1) as nat);
        let i = (t - 1) as nat;
        let temp = rotl(a, 5).wrapping_add(round_f(i, b, c, d)).wrapping_add(e)
            .wrapping_add(round_k(i)).wrapping_add(schedule(block, i));
        (temp, a, rotl(b, 30), c, d)
    }
}

pub open spec fn compress(h: (u32, u32, u32, u32, u32), block: Seq<u8>) -> (u32, u32, u32, u32, u32) {
    let (a, b, c, d, e) = rounds(h, block, 80);
    (h.0.wrapping_add(a), h.1.wrapping_add(b), h.2.wrapping_add(c), h.3.wrapping_add(d), h.4.wrapping_add(e))
}

/// Hash state after the first `n` 64-byte blocks of `p`.
pub open spec fn hash_blocks(p: Seq<u8>, n: nat) -> (u32, u32, u32, u32, u32)
    decreases n,
{
    if n == 0 {
        (0x67452301, 0xefcdab89, 0x98badcfe, 0x10325476, 0xc3d2e1f0)
    } else {
        compress(hash_blocks(p, (n - 1) as nat), p.subrange(64 * (n - 1), 64 * n as int))
    }
}

/// SHA-1 digest of a byte sequence.
pub open spec fn spec_sha1(m: Seq<u8>) -> Seq<u8> {
    let p = sha1_pad(m);
    let h = hash_blocks(p, p.len() / 64);
    be32(h.0) + be32(h.1) + be32(h.2) + be32(h.3) + be32(h.4)
}

fn push_zeros(out: &mut Vec<u8>, n: usize)
    ensures
        final(out)@ == old(out)@ + Seq::new(n as nat, |i: int| 0u8),
{
    let mut i: usize = 0;
    while i < n
        invariant
            i <= n,
            out@ == old(out)@ + Seq::new(i as nat, |j: int| 0u8),
        decreases n - i,
    {
        out.push(0);
        i = i + 1;
        assert(out@ =~= old(out)@ + Seq::new(i as nat, |j: int| 0u8));
    }
}

fn pad(data: &[u8]) -> (r: Vec<u8>)
    requires
        data@.len() + 72 <= usize::MAX,
    ensures
        r@ == sha1_pad(data@),
{
    let mut out: Vec<u8> = Vec::new();
    let mut i: usize = 0;
    while i < data.len()
        invariant
            i <= data@.len(),
            out@ == data@.take(i as int),
        decreases data@.len() - i,
    {
        out.push(data[i]);
        i = i + 1;
        assert(out@ =~= data@.take(i as int));
    }
    assert(data@.take(i as int) =~= data@);
    out.push(0x80);
    let len = data.len();
    let k = (64 - (len % 64 + 9) % 64) % 64;
    push_zeros(&mut out, k);
    let bits = (len as u64).wrapping_mul(8);
    out.push((bits >> 56u64) as u8);
    out.push((bits >> 48u64) as u8);
    out.push((bits >> 40u64) as u8);
    out.push((bits >> 32u64) as u8);
    out.push((bits >> 24u64) as u8);
    out.push((bits >> 16u64) as u8);
    out.push((bits >> 8u64) as u8);
    out.push(bits as u8);
    assert(out@ =~= sha1_pad(data@));
    out
}

fn compress_block(h: (u32, u32, u32, u32, u32), p: &Vec<u8>, start: usize) -> (r: (u32, u32, u32, u32, u32))
    requires
        start + 64 <= p@.len(),
    ensures
        r == compress(h, p@.subrange(start as int, start + 64)),
{
    let ghost block = p@.subrange(start as int, start + 64);
    let plen = p.len();
    let mut w: Vec<u32> = Vec::new();
    let mut t: usize = 0;
    while t < 80
        invariant
            t <= 80,
            plen == p@.len(),
            start + 64 <= p@.len(),
            block == p@.subrange(start as int, start + 64),
            w@.len() == t,
            forall|j: int| 0 <= j < t ==> w@[j] == schedule(block, j as nat),
        decreases 80 - t,
    {
        let v = if t < 16 {
            let o = start + 4 * t;
            assert(block[4 * t as int] == p@[o as int]);
            assert(block[4 * t + 1] == p@[o + 1]);
            assert(block[4 * t + 2] == p@[o + 2]);
            assert(block[4 * t + 3] == p@[o + 3]);
            (p[o] as u32) << 24u32 | (p[o + 1] as u32) << 16u32 | (p[o + 2] as u32) << 8u32 | (p[o + 3] as u32)
        } else {
            let x = w[t - 3] ^ w[t - 8] ^ w[t - 14] ^ w[t - 16];
            (x << 1u32) | (x >> 31u32)
        };
        w.push(v);
        t = t + 1;
    }
    let (mut a, mut b, mut c, mut d, mut e) = h;
    let mut t: usize = 0;
    while t < 80
        invariant
            t <= 80,
            w@.len() == 80,
            forall|j: int| 0 <= j < 80 ==> w@[j] == schedule(block, j as nat),
            (a, b, c, d, e) == rounds(h, block, t as nat),
        decreases 80 - t,
    {
        let f = if t < 20 {
            (b & c) | (!b & d)
        } else if t < 40 {
            b ^ c ^ d
        } else if t < 60 {
            (b & c) | (b & d) | (c & d)
        } else {
            b ^ c ^ d
        };
        let k: u32 = if t < 20 {
            0x5a827999
        } else if t < 40 {
            0x6ed9eba1
        } else if t < 60 {
            0x8f1bbcdc
        } else {
            0xca62c1d6
        };
        let temp = ((a << 5u32) | (a >> 27u32)).wrapping_add(f).wrapping_add(e).wrapping_add(k).wrapping_add(w[t]);
        e = d;
        d = c;
        c = (b << 30u32) | (b >> 2u32);
        b = a;
        a = temp;
        t = t + 1;
    }
    (h.0.wrapping_add(a), h.1.wrapping_add(b), h.2.wrapping_add(c), h.3.wrapping_add(d), h.4.wrapping_add(e))
}

/// SHA-1 digest of a byte slice.
pub fn sha1(data: &[u8]) -> (r: [u8; 20])
    requires
        data@.len() + 72 <= usize::MAX,
    ensures
        r@ == spec_sha1(data@),
{
    let p = pad(data);
    let plen = p.len();
    let blocks = plen / 64;
    let mut h: (u32, u32, u32, u32, u32) = (0x67452301, 0xefcdab89, 0x98badcfe, 0x10325476, 0xc3d2e1f0);
    let mut n: usize = 0;
    while n < blocks
        invariant
            blocks == p@.len() / 64,
            plen == p@.len(),
            n <= blocks,
            h == hash_blocks(p@, n as nat),
        decreases blocks - n,
    {
        assert(64 * n + 64 <= p@.len()) by (nonlinear_arith) requires n < blocks, blocks == p@.len() / 64;
        h = compress_block(h, &p, 64 * n);
        n = n + 1;
    }
    let words = [h.0, h.1, h.2, h.3, h.4];
    let mut out = [0u8; 20];
    let mut i: usize = 0;
    while i < 5
        invariant
            i <= 5,
            words@ == seq![h.0, h.1, h.2, h.3, h.4],
            forall|j: int| 0 <= j < 4 * i ==> out@[j] == (be32(h.0) + be32(h.1) + be32(h.2) + be32(h.3) + be32(h.4))[j],
        decreases 5 - i,
    {
        let v = words[i];
        out[4 * i] = (v >> 24u32) as u8;
        out[4 * i + 1] = (v >> 16u32) as u8;
        out[4 * i + 2] = (v >> 8u32) as u8;
        out[4 * i + 3] = v as u8;
        i = i + 1;
    }
    assert(out@ =~= spec_sha1(data@));
    out
}

} // verus!
