//! IPv6 addresses as 16-byte arrays, and prefix masking.

use vstd::prelude::*;

verus! {

/// The masked form of byte `i` of an address under a prefix of `l` bits:
/// kept whole when the prefix covers the byte, partially kept when the
/// prefix ends inside it, zero beyond the prefix.
pub open spec fn masked_byte(b: u8, l: int, i: int) -> u8 {
    if 8 * (i + 1) <= l {
        b
    } else if 8 * i >= l {
        0u8
    } else {
        b & ((0xffu8 << (8 - (l - 8 * i)) as u8) as u8)
    }
}

/// An address with every bit at position `>= l` zeroed and every bit at
/// position `< l` preserved, stated byte by byte.
pub open spec fn masked(a: Seq<u8>, l: int) -> Seq<u8> {
    Seq::new(16, |i: int| masked_byte(a[i], l, i))
}

/// Keep the first `prefix_length` bits of `addr` and zero the rest.
pub fn mask(addr: &[u8; 16], prefix_length: u8) -> (r: [u8; 16])
    requires
        prefix_length <= 128,
    ensures
        r@ == masked(addr@, prefix_length as int),
{
    let mut r: [u8; 16] = [0u8; 16];
    let whole: usize = (prefix_length / 8) as usize;
    let rem: u8 = prefix_length % 8;
    proof {
        assert(prefix_length == 8 * (prefix_length / 8) + prefix_length % 8);
    }
    let mut i: usize = 0;
    while i < whole
        invariant
            whole == prefix_length as int / 8,
            rem == prefix_length as int % 8,
            prefix_length <= 128,
            i <= whole,
            forall|j: int| 0 <= j < i ==> r@[j] == masked_byte(addr@[j], prefix_length as int, j),
            forall|j: int| i <= j < 16 ==> r@[j] == 0u8,
        decreases whole - i,
    {
        r[i] = addr[i];
        proof {
            assert(8 * (i + 1) <= prefix_length as int);
        }
        i += 1;
    }
    if rem != 0 {
        let kept: u8 = 0xffu8 << (8 - rem);
        r[whole] = addr[whole] & kept;
        proof {
            assert(8 * whole < prefix_length as int && (prefix_length as int) < 8 * (whole + 1));
        }
    }
    proof {
        assert(r@ =~= masked(addr@, prefix_length as int));
    }
    r
}

/// Bit `p` of a 16-byte address, counting from the most significant bit of
/// the first byte (bit 0) to the least significant bit of the last (bit 127).
pub open spec fn addr_bit(a: Seq<u8>, p: int) -> bool {
    (a[p / 8] >> ((7 - p % 8) as u8)) & 1u8 == 1u8
}

/// `target` lies within `prefix/l`: the first `l` bits agree.
pub open spec fn in_prefix(target: Seq<u8>, prefix: Seq<u8>, l: int) -> bool {
    forall|p: int| 0 <= p < l ==> addr_bit(target, p) == addr_bit(prefix, p)
}

proof fn lemma_zero_byte_bit(j: u8)
    by (bit_vector)
    requires
        j < 8,
    ensures
        ((0u8 >> ((7 - j) as u8)) & 1u8) != 1u8,
{
}

proof fn lemma_masked_byte_bit(b: u8, m: u8, j: u8)
    by (bit_vector)
    requires
        1 <= m <= 7,
        j < 8,
    ensures
        (((b & ((0xffu8 << ((8 - m) as u8)) as u8)) >> ((7 - j) as u8)) & 1u8 == 1u8) == (j < m
            && ((b >> ((7 - j) as u8)) & 1u8 == 1u8)),
{
}

/// Masking zeroes every bit at position `>= l` and preserves every bit at
/// position `< l`.
pub proof fn lemma_mask_bit(a: Seq<u8>, l: int, p: int)
    requires
        a.len() == 16,
        0 <= l <= 128,
        0 <= p < 128,
    ensures
        addr_bit(masked(a, l), p) == (p < l && addr_bit(a, p)),
{
    let i = p / 8;
    let j = p % 8;
    assert(0 <= i < 16);
    assert(0 <= j < 8);
    assert(p == 8 * i + j);
    let b = a[i];
    let mb = masked(a, l)[i];
    assert(mb == masked_byte(b, l, i));
    let jj = j as u8;
    if 8 * (i + 1) <= l {
        assert(p < l);
        assert(mb == b);
    } else if 8 * i >= l {
        assert(mb == 0u8);
        assert(p >= l);
        lemma_zero_byte_bit(jj);
    } else {
        let m = (l - 8 * i) as u8;
        assert(1 <= m <= 7);
        lemma_masked_byte_bit(b, m, jj);
        assert(mb == (b & ((0xffu8 << ((8 - m) as u8)) as u8)));
        assert((p < l) == (jj < m));
    }
}

/// `mask(a, 0)` is the all-zero address.
pub proof fn lemma_mask_zero(a: Seq<u8>)
    requires
        a.len() == 16,
    ensures
        masked(a, 0) == Seq::new(16, |i: int| 0u8),
{
    assert(masked(a, 0) =~= Seq::new(16, |i: int| 0u8));
}

/// `mask(a, 128)` is `a` itself.
pub proof fn lemma_mask_full(a: Seq<u8>)
    requires
        a.len() == 16,
    ensures
        masked(a, 128) == a,
{
    assert(masked(a, 128) =~= a);
}

proof fn lemma_byte_eq_from_bits(x: u8, y: u8)
    by (bit_vector)
    requires
        ((x >> 7u8) & 1u8 == 1u8) == ((y >> 7u8) & 1u8 == 1u8),
        ((x >> 6u8) & 1u8 == 1u8) == ((y >> 6u8) & 1u8 == 1u8),
        ((x >> 5u8) & 1u8 == 1u8) == ((y >> 5u8) & 1u8 == 1u8),
        ((x >> 4u8) & 1u8 == 1u8) == ((y >> 4u8) & 1u8 == 1u8),
        ((x >> 3u8) & 1u8 == 1u8) == ((y >> 3u8) & 1u8 == 1u8),
        ((x >> 2u8) & 1u8 == 1u8) == ((y >> 2u8) & 1u8 == 1u8),
        ((x >> 1u8) & 1u8 == 1u8) == ((y >> 1u8) & 1u8 == 1u8),
        ((x >> 0u8) & 1u8 == 1u8) == ((y >> 0u8) & 1u8 == 1u8),
    ensures
        x == y,
{
}

proof fn lemma_masked_bits_agree(target: Seq<u8>, prefix: Seq<u8>, l: int, p: int)
    requires
        target.len() == 16,
        prefix.len() == 16,
        0 <= l <= 128,
        0 <= p < 128,
        in_prefix(target, prefix, l),
    ensures
        addr_bit(masked(target, l), p) == addr_bit(masked(prefix, l), p),
{
    lemma_mask_bit(target, l, p);
    lemma_mask_bit(prefix, l, p);
}

/// The masked forms of prefix and target are equal iff the target lies
/// within the prefix.
pub proof fn lemma_prefix_match(target: Seq<u8>, prefix: Seq<u8>, l: int)
    requires
        target.len() == 16,
        prefix.len() == 16,
        0 <= l <= 128,
    ensures
        (masked(prefix, l) == masked(target, l)) <==> in_prefix(target, prefix, l),
{
    let mp = masked(prefix, l);
    let mt = masked(target, l);
    if mp == mt {
        assert forall|p: int| 0 <= p < l implies addr_bit(target, p) == addr_bit(prefix, p) by {
            lemma_mask_bit(target, l, p);
            lemma_mask_bit(prefix, l, p);
        }
    }
    if in_prefix(target, prefix, l) {
        assert forall|i: int| 0 <= i < 16 implies mt[i] == mp[i] by {
            lemma_masked_byte_bit_agree(target, prefix, l, i, 0);
            lemma_masked_byte_bit_agree(target, prefix, l, i, 1);
            lemma_masked_byte_bit_agree(target, prefix, l, i, 2);
            lemma_masked_byte_bit_agree(target, prefix, l, i, 3);
            lemma_masked_byte_bit_agree(target, prefix, l, i, 4);
            lemma_masked_byte_bit_agree(target, prefix, l, i, 5);
            lemma_masked_byte_bit_agree(target, prefix, l, i, 6);
            lemma_masked_byte_bit_agree(target, prefix, l, i, 7);
            lemma_byte_eq_from_bits(mt[i], mp[i]);
        }
        assert(mt =~= mp);
    }
}

proof fn lemma_masked_byte_bit_agree(target: Seq<u8>, prefix: Seq<u8>, l: int, i: int, j: u8)
    requires
        target.len() == 16,
        prefix.len() == 16,
        0 <= l <= 128,
        0 <= i < 16,
        j < 8,
        in_prefix(target, prefix, l),
    ensures
        ((masked(target, l)[i] >> ((7 - j) as u8)) & 1u8 == 1u8) == ((masked(prefix, l)[i] >> ((7
            - j) as u8)) & 1u8 == 1u8),
{
    let p = 8 * i + j;
    assert(p / 8 == i && p % 8 == j);
    lemma_masked_bits_agree(target, prefix, l, p);
    assert(addr_bit(masked(target, l), p) == ((masked(target, l)[i] >> ((7 - j) as u8)) & 1u8
        == 1u8));
    assert(addr_bit(masked(prefix, l), p) == ((masked(prefix, l)[i] >> ((7 - j) as u8)) & 1u8
        == 1u8));
}

} // verus!
