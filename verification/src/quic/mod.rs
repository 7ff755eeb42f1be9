//! QUIC primitives (RFC 9000): variable-length integers, frame and packet shapes.

use vstd::prelude::*;

pub mod frames;
pub mod header;
pub mod packets;

verus! {

/// Number of bytes a varint occupies, read from the two high bits of its first byte.
pub open spec fn varint_width(first: u8) -> nat {
    if first < 0x40 {
        1
    } else if first < 0x80 {
        2
    } else if first < 0xc0 {
        4
    } else {
        8
    }
}

/// Big-endian value of `n` bytes of `s` starting at `i`, with the two length
/// bits of the first byte cleared.
pub open spec fn varint_fold(s: Seq<u8>, i: int, n: nat) -> nat
    decreases n,
{
    if n <= 1 {
        (s[i] % 64) as nat
    } else {
        varint_fold(s, i, (n - 1) as nat) * 256 + s[i + n - 1] as nat
    }
}

/// The value of the varint that starts at `i` in `s`.
pub open spec fn varint_value(s: Seq<u8>, i: int) -> nat {
    varint_fold(s, i, varint_width(s[i]))
}

/// The largest value a varint can hold: 2^62 - 1.
pub open spec fn varint_max() -> nat {
    0x3fff_ffff_ffff_ffff
}

/// Number of bytes `write_varint` uses for `v`.
pub open spec fn varint_encoded_len(v: u64) -> nat {
    if v <= 0x3f {
        1
    } else if v <= 0x3fff {
        2
    } else if v <= 0x3fff_ffff {
        4
    } else {
        8
    }
}

/// 256 raised to `e`.
pub open spec fn pow256(e: nat) -> nat
    decreases e,
{
    if e == 0 {
        1
    } else {
        256 * pow256((e - 1) as nat)
    }
}

fn width_of(first: u8) -> (w: usize)
    ensures
        w == varint_width(first),
{
    if first & 0xc0 == 0 {
        assert(first & 0xc0 == 0 ==> first < 0x40) by (bit_vector);
        1
    } else if first & 0xc0 == 0x40 {
        assert(first & 0xc0 == 0x40 ==> 0x40 <= first < 0x80) by (bit_vector);
        2
    } else if first & 0xc0 == 0x80 {
        assert(first & 0xc0 == 0x80 ==> 0x80 <= first < 0xc0) by (bit_vector);
        4
    } else {
        assert(!(first & 0xc0 == 0) && !(first & 0xc0 == 0x40) && !(first & 0xc0 == 0x80)
            ==> first >= 0xc0) by (bit_vector);
        8
    }
}

/// Reads `w` bytes at `i` as a varint body.
fn read_fold(buf: &[u8], i: usize, w: usize) -> (v: u64)
    requires
        1 <= w <= 8,
        i + w <= buf@.len(),
    ensures
        v == varint_fold(buf@, i as int, w as nat),
{
    let len = buf.len();
    let first = buf[i];
    assert(first & 0x3f == first % 64) by (bit_vector);
    let mut v: u64 = (first & 0x3f) as u64;
    let mut k: usize = 1;
    proof {
        reveal_with_fuel(varint_fold, 2);
    }
    while k < w
        invariant
            1 <= k <= w <= 8,
            i + w <= len,
            len == buf@.len(),
            v == varint_fold(buf@, i as int, k as nat),
            v < 64 * pow256((k - 1) as nat),
        decreases w - k,
    {
        proof {
            lemma_pow256_bound((k - 1) as nat);
        }
        let b = buf[i + k];
        v = v * 256 + b as u64;
        k = k + 1;
    }
    v
}

proof fn lemma_pow256_bound(e: nat)
    requires
        e <= 6,
    ensures
        64 * pow256(e) * 256 <= 0x4000_0000_0000_0000,
        pow256(e) >= 1,
{
    reveal_with_fuel(pow256, 7);
}

/// Reads the varint that starts at `*index` and moves `*index` past it.
pub fn read_varint(buf: &[u8], index: &mut usize) -> (v: u64)
    requires
        *old(index) < buf@.len(),
        *old(index) + varint_width(buf@[*old(index) as int]) <= buf@.len(),
    ensures
        *final(index) == *old(index) + varint_width(buf@[*old(index) as int]),
        v == varint_value(buf@, *old(index) as int),
{
    let i = *index;
    let w = width_of(buf[i]);
    let v = read_fold(buf, i, w);
    *index = i + w;
    v
}

/// Like `read_varint`, but returns `None` (leaving `*index` alone) when the
/// buffer ends before the varint does.
pub fn try_read_varint(buf: &[u8], index: &mut usize) -> (v: Option<u64>)
    ensures
        match v {
            Some(x) => {
                &&& *old(index) < buf@.len()
                &&& *old(index) + varint_width(buf@[*old(index) as int]) <= buf@.len()
                &&& x == varint_value(buf@, *old(index) as int)
                &&& *final(index) == *old(index) + varint_width(buf@[*old(index) as int])
            },
            None => {
                &&& *final(index) == *old(index)
                &&& (*old(index) >= buf@.len()
                    || *old(index) + varint_width(buf@[*old(index) as int]) > buf@.len())
            },
        },
{
    let i = *index;
    if i >= buf.len() {
        return None;
    }
    let w = width_of(buf[i]);
    if w > buf.len() - i {
        return None;
    }
    let v = read_fold(buf, i, w);
    *index = i + w;
    Some(v)
}

/// Writes `value` as a varint at `*index`, using the shortest width, and moves
/// `*index` past it. Only the written bytes change.
pub fn write_varint(buf: &mut [u8], index: &mut usize, value: u64)
    requires
        value <= varint_max(),
        *old(index) + varint_encoded_len(value) <= old(buf)@.len(),
    ensures
        *final(index) == *old(index) + varint_encoded_len(value),
        final(buf)@.len() == old(buf)@.len(),
        forall|j: int|
            0 <= j < old(buf)@.len() && !(*old(index) <= j < *old(index) + varint_encoded_len(value))
                ==> #[trigger] final(buf)@[j] == old(buf)@[j],
        varint_width(final(buf)@[*old(index) as int]) == varint_encoded_len(value),
        varint_value(final(buf)@, *old(index) as int) == value,
{
    let i = *index;
    let v = value;
    let len = buf.len();
    assert(i + varint_encoded_len(v) <= len);
    if v <= 0x3f {
        let b0 = #[verifier::truncate] (v as u8);
        assert(b0 == v && b0 % 64 == v && b0 < 0x40) by (bit_vector)
            requires v <= 0x3f, b0 == v as u8;
        buf[i] = b0;
        *index = i + 1;
    } else if v <= 0x3fff {
        let b0 = (#[verifier::truncate] ((v >> 8) as u8)) | 0x40;
        let b1 = #[verifier::truncate] (v as u8);
        assert(0x40 <= b0 < 0x80 && (b0 % 64) as u64 * 256 + b1 as u64 == v) by (bit_vector)
            requires 0x3f < v <= 0x3fff, b0 == (#[verifier::truncate] ((v >> 8) as u8)) | 0x40, b1 == v as u8;
        buf[i] = b0;
        buf[i + 1] = b1;
        *index = i + 2;
        proof {
            reveal_with_fuel(varint_fold, 2);
        }
    } else if v <= 0x3fff_ffff {
        let b0 = (#[verifier::truncate] ((v >> 24) as u8)) | 0x80;
        let b1 = #[verifier::truncate] ((v >> 16) as u8);
        let b2 = #[verifier::truncate] ((v >> 8) as u8);
        let b3 = #[verifier::truncate] (v as u8);
        assert(0x80 <= b0 < 0xc0 && (((b0 % 64) as u64 * 256 + b1 as u64) * 256 + b2 as u64) * 256
            + b3 as u64 == v) by (bit_vector)
            requires
                0x3fff < v <= 0x3fff_ffff,
                b0 == (#[verifier::truncate] ((v >> 24) as u8)) | 0x80,
                b1 == (v >> 16) as u8,
                b2 == (v >> 8) as u8,
                b3 == v as u8,
        ;
        buf[i] = b0;
        buf[i + 1] = b1;
        buf[i + 2] = b2;
        buf[i + 3] = b3;
        *index = i + 4;
        proof {
            reveal_with_fuel(varint_fold, 4);
        }
    } else {
        let b0 = (#[verifier::truncate] ((v >> 56) as u8)) | 0xc0;
        let b1 = #[verifier::truncate] ((v >> 48) as u8);
        let b2 = #[verifier::truncate] ((v >> 40) as u8);
        let b3 = #[verifier::truncate] ((v >> 32) as u8);
        let b4 = #[verifier::truncate] ((v >> 24) as u8);
        let b5 = #[verifier::truncate] ((v >> 16) as u8);
        let b6 = #[verifier::truncate] ((v >> 8) as u8);
        let b7 = #[verifier::truncate] (v as u8);
        assert(0xc0 <= b0 && (((((((b0 % 64) as u64 * 256 + b1 as u64) * 256 + b2 as u64) * 256
            + b3 as u64) * 256 + b4 as u64) * 256 + b5 as u64) * 256 + b6 as u64) * 256 + b7 as u64
            == v) by (bit_vector)
            requires
                0x3fff_ffff < v <= 0x3fff_ffff_ffff_ffff,
                b0 == (#[verifier::truncate] ((v >> 56) as u8)) | 0xc0,
                b1 == (v >> 48) as u8,
                b2 == (v >> 40) as u8,
                b3 == (v >> 32) as u8,
                b4 == (v >> 24) as u8,
                b5 == (v >> 16) as u8,
                b6 == (v >> 8) as u8,
                b7 == v as u8,
        ;
        buf[i] = b0;
        buf[i + 1] = b1;
        buf[i + 2] = b2;
        buf[i + 3] = b3;
        buf[i + 4] = b4;
        buf[i + 5] = b5;
        buf[i + 6] = b6;
        buf[i + 7] = b7;
        *index = i + 8;
        proof {
            reveal_with_fuel(varint_fold, 8);
        }
    }
}

} // verus!
