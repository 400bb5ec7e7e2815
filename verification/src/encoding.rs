//! Little-endian integer fields and Bitcoin's variable-length counts, as
//! byte-sequence specifications with executable builders proved against them.

use vstd::prelude::*;

verus! {

/// The two bytes of `x` in little-endian order.
pub open spec fn le16_spec(x: u16) -> Seq<u8> {
    seq![(x & 0xff) as u8, ((x >> 8) & 0xff) as u8]
}

/// The four bytes of `x` in little-endian order.
pub open spec fn le32_spec(x: u32) -> Seq<u8> {
    seq![
        (x & 0xff) as u8,
        ((x >> 8) & 0xff) as u8,
        ((x >> 16) & 0xff) as u8,
        ((x >> 24) & 0xff) as u8,
    ]
}

/// The eight bytes of `x` in little-endian order.
pub open spec fn le64_spec(x: u64) -> Seq<u8> {
    seq![
        (x & 0xff) as u8,
        ((x >> 8) & 0xff) as u8,
        ((x >> 16) & 0xff) as u8,
        ((x >> 24) & 0xff) as u8,
        ((x >> 32) & 0xff) as u8,
        ((x >> 40) & 0xff) as u8,
        ((x >> 48) & 0xff) as u8,
        ((x >> 56) & 0xff) as u8,
    ]
}

/// Bitcoin's variable-length encoding of a count: one byte up to 0xfc,
/// otherwise a marker byte followed by the count in little-endian form.
pub open spec fn varint_spec(n: u64) -> Seq<u8> {
    if n <= 0xfc {
        seq![n as u8]
    } else if n <= 0xffff {
        seq![0xfdu8] + le16_spec(n as u16)
    } else if n <= 0xffffffff {
        seq![0xfeu8] + le32_spec(n as u32)
    } else {
        seq![0xffu8] + le64_spec(n)
    }
}

/// Appends every byte of `b` to `out`.
pub fn append_bytes(out: &mut Vec<u8>, b: &Vec<u8>)
    ensures
        final(out)@ == old(out)@ + b@,
{
    let mut i: usize = 0;
    while i < b.len()
        invariant
            i <= b@.len(),
            out@ == old(out)@ + b@.subrange(0, i as int),
        decreases b@.len() - i,
    {
        out.push(b[i]);
        i = i + 1;
        proof {
            assert(out@ =~= old(out)@ + b@.subrange(0, i as int));
        }
    }
    proof {
        assert(out@ =~= old(out)@ + b@);
    }
}

/// A fresh vector holding the same bytes.
pub fn copy_bytes(v: &Vec<u8>) -> (r: Vec<u8>)
    ensures
        r@ == v@,
{
    let mut r: Vec<u8> = Vec::new();
    append_bytes(&mut r, v);
    proof {
        assert(r@ =~= v@);
    }
    r
}

/// Appends the four little-endian bytes of `x` to `out`.
pub fn append_le32(out: &mut Vec<u8>, x: u32)
    ensures
        final(out)@ == old(out)@ + le32_spec(x),
{
    out.push((x & 0xff) as u8);
    out.push(((x >> 8) & 0xff) as u8);
    out.push(((x >> 16) & 0xff) as u8);
    out.push(((x >> 24) & 0xff) as u8);
    proof {
        assert(out@ =~= old(out)@ + le32_spec(x));
    }
}

/// Appends the eight little-endian bytes of `x` to `out`.
pub fn append_le64(out: &mut Vec<u8>, x: u64)
    ensures
        final(out)@ == old(out)@ + le64_spec(x),
{
    out.push((x & 0xff) as u8);
    out.push(((x >> 8) & 0xff) as u8);
    out.push(((x >> 16) & 0xff) as u8);
    out.push(((x >> 24) & 0xff) as u8);
    out.push(((x >> 32) & 0xff) as u8);
    out.push(((x >> 40) & 0xff) as u8);
    out.push(((x >> 48) & 0xff) as u8);
    out.push(((x >> 56) & 0xff) as u8);
    proof {
        assert(out@ =~= old(out)@ + le64_spec(x));
    }
}

/// Appends the variable-length encoding of `n` to `out`.
pub fn append_varint(out: &mut Vec<u8>, n: u64)
    ensures
        final(out)@ == old(out)@ + varint_spec(n),
{
    if n <= 0xfc {
        out.push(n as u8);
        proof {
            assert(out@ =~= old(out)@ + varint_spec(n));
        }
    } else if n <= 0xffff {
        out.push(0xfd);
        out.push((n as u16 & 0xff) as u8);
        out.push(((n as u16 >> 8) & 0xff) as u8);
        proof {
            assert(out@ =~= old(out)@ + varint_spec(n));
        }
    } else if n <= 0xffffffff {
        out.push(0xfe);
        append_le32(out, n as u32);
        proof {
            assert(out@ =~= old(out)@ + varint_spec(n));
        }
    } else {
        out.push(0xff);
        append_le64(out, n);
        proof {
            assert(out@ =~= old(out)@ + varint_spec(n));
        }
    }
}

/// Two distinct 64-bit values never share a little-endian encoding.
pub proof fn lemma_le64_injective(a: u64, b: u64)
    requires
        a != b,
    ensures
        le64_spec(a) != le64_spec(b),
{
    if le64_spec(a) == le64_spec(b) {
        assert((a & 0xff) as u8 == (b & 0xff) as u8);
        assert(((a >> 8) & 0xff) as u8 == ((b >> 8) & 0xff) as u8);
        assert(((a >> 16) & 0xff) as u8 == ((b >> 16) & 0xff) as u8);
        assert(((a >> 24) & 0xff) as u8 == ((b >> 24) & 0xff) as u8);
        assert(((a >> 32) & 0xff) as u8 == ((b >> 32) & 0xff) as u8);
        assert(((a >> 40) & 0xff) as u8 == ((b >> 40) & 0xff) as u8);
        assert(((a >> 48) & 0xff) as u8 == ((b >> 48) & 0xff) as u8);
        assert(((a >> 56) & 0xff) as u8 == ((b >> 56) & 0xff) as u8);
        assert(a == b) by (bit_vector)
            requires
                (a & 0xff) as u8 == (b & 0xff) as u8,
                ((a >> 8) & 0xff) as u8 == ((b >> 8) & 0xff) as u8,
                ((a >> 16) & 0xff) as u8 == ((b >> 16) & 0xff) as u8,
                ((a >> 24) & 0xff) as u8 == ((b >> 24) & 0xff) as u8,
                ((a >> 32) & 0xff) as u8 == ((b >> 32) & 0xff) as u8,
                ((a >> 40) & 0xff) as u8 == ((b >> 40) & 0xff) as u8,
                ((a >> 48) & 0xff) as u8 == ((b >> 48) & 0xff) as u8,
                ((a >> 56) & 0xff) as u8 == ((b >> 56) & 0xff) as u8,
        ;
    }
}

} // verus!
