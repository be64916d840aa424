//! The ICMPv6 checksum: a one's-complement sum over the IPv6 pseudo-header
//! and the message, with the message's own checksum field counted as zero.

use vstd::prelude::*;

verus! {

/// Big-endian 16-bit word `i` of a byte sequence; an odd trailing byte is
/// padded with a zero low byte.
pub open spec fn word_at(data: Seq<u8>, i: int) -> int {
    if 2 * i + 1 < data.len() {
        256 * data[2 * i] + data[2 * i + 1]
    } else {
        256 * data[2 * i]
    }
}

/// How many 16-bit words a byte sequence holds, the odd tail counted.
pub open spec fn num_words(data: Seq<u8>) -> int {
    (data.len() as int + 1) / 2
}

/// Sum of the first `k` big-endian words of `data`.
pub open spec fn sum_words(data: Seq<u8>, k: int) -> int
    decreases k,
{
    if k <= 0 {
        0
    } else {
        sum_words(data, k - 1) + word_at(data, k - 1)
    }
}

/// End-around-carry fold of a word sum down to 16 bits.
pub open spec fn ones_fold(n: int) -> int
    decreases n,
{
    if n < 0x10000 {
        n
    } else {
        ones_fold(n % 0x10000 + n / 0x10000)
    }
}

/// The IPv6 pseudo-header: source, destination, the upper-layer length as a
/// big-endian 32-bit value, three zero bytes, and the next-header number 58
/// (ICMPv6).
pub open spec fn pseudo_header(src: Seq<u8>, dst: Seq<u8>, len: int) -> Seq<u8> {
    src + dst + seq![
        ((len / 0x1000000) % 0x100) as u8,
        ((len / 0x10000) % 0x100) as u8,
        ((len / 0x100) % 0x100) as u8,
        (len % 0x100) as u8,
        0u8,
        0u8,
        0u8,
        58u8,
    ]
}

/// A message with its checksum field (bytes 2 and 3) read as zero.
pub open spec fn zero_checksum(msg: Seq<u8>) -> Seq<u8> {
    msg.update(2, 0u8).update(3, 0u8)
}

/// All the bytes the ICMPv6 checksum is computed over.
pub open spec fn checksum_input(src: Seq<u8>, dst: Seq<u8>, msg: Seq<u8>) -> Seq<u8> {
    pseudo_header(src, dst, msg.len() as int) + zero_checksum(msg)
}

/// The ICMPv6 checksum of `msg` under the pseudo-header for `src` and `dst`:
/// the one's complement of the folded word sum.
pub open spec fn icmpv6_checksum(src: Seq<u8>, dst: Seq<u8>, msg: Seq<u8>) -> u16 {
    (0xffff - ones_fold(
        sum_words(checksum_input(src, dst, msg), num_words(checksum_input(src, dst, msg))),
    )) as u16
}

proof fn lemma_sum_words_bound(data: Seq<u8>, k: int)
    requires
        0 <= k,
        k <= num_words(data),
    ensures
        0 <= sum_words(data, k) <= k * 0xffff,
    decreases k,
{
    if k > 0 {
        lemma_sum_words_bound(data, k - 1);
        assert(word_at(data, k - 1) <= 0xffff);
    }
}

proof fn lemma_ones_fold_range(n: int)
    requires
        n >= 0,
    ensures
        0 <= ones_fold(n) < 0x10000,
    decreases n,
{
    if n >= 0x10000 {
        lemma_ones_fold_range(n % 0x10000 + n / 0x10000);
    }
}

proof fn lemma_fold_mod(n: int)
    requires
        n >= 0,
    ensures
        ones_fold(n) % 0xffff == n % 0xffff,
    decreases n,
{
    if n >= 0x10000 {
        let q = n / 0x10000;
        let r = n % 0x10000;
        vstd::arithmetic::div_mod::lemma_fundamental_div_mod(n, 0x10000);
        assert(n == 0xffff * q + (q + r));
        vstd::arithmetic::div_mod::lemma_mod_multiples_vanish(q, q + r, 0xffff);
        lemma_fold_mod(q + r);
    }
}

proof fn lemma_fold_pos(n: int)
    requires
        n >= 1,
    ensures
        ones_fold(n) >= 1,
    decreases n,
{
    if n >= 0x10000 {
        lemma_fold_pos(n % 0x10000 + n / 0x10000);
    }
}

proof fn lemma_sum_words_update(d0: Seq<u8>, d1: Seq<u8>, w: int, k: int)
    requires
        d0.len() == d1.len(),
        0 <= w,
        forall|i: int| 0 <= i < d0.len() && i != 2 * w && i != 2 * w + 1 ==> d0[i] == d1[i],
        0 <= k <= num_words(d0),
    ensures
        sum_words(d1, k) == sum_words(d0, k) + if k > w {
            word_at(d1, w) - word_at(d0, w)
        } else {
            0
        },
    decreases k,
{
    if k > 0 {
        lemma_sum_words_update(d0, d1, w, k - 1);
        if k - 1 != w {
            assert(word_at(d1, k - 1) == word_at(d0, k - 1));
        }
    }
}

/// A message stamped with its computed checksum verifies: the
/// one's-complement sum over the pseudo-header and the stamped message,
/// checksum field included, folds to 0xffff.
pub proof fn lemma_checksum_validates(src: Seq<u8>, dst: Seq<u8>, msg: Seq<u8>)
    requires
        src.len() == 16,
        dst.len() == 16,
        msg.len() >= 4,
        msg.len() <= 65535,
    ensures
        ({
            let c = icmpv6_checksum(src, dst, msg);
            let stamped = msg.update(2, (c / 256) as u8).update(3, (c % 256) as u8);
            let data = pseudo_header(src, dst, msg.len() as int) + stamped;
            ones_fold(sum_words(data, num_words(data))) == 0xffff
        }),
{
    let d0 = checksum_input(src, dst, msg);
    let n = num_words(d0);
    let s0 = sum_words(d0, n);
    let f = ones_fold(s0);
    lemma_sum_words_bound(d0, n);
    lemma_ones_fold_range(s0);
    let c = icmpv6_checksum(src, dst, msg);
    assert(c == 0xffff - f);
    let stamped = msg.update(2, (c / 256) as u8).update(3, (c % 256) as u8);
    let d1 = pseudo_header(src, dst, msg.len() as int) + stamped;
    assert(d0.len() == d1.len());
    assert(num_words(d1) == n);
    assert forall|i: int| 0 <= i < d0.len() && i != 42 && i != 43 implies d0[i] == d1[i] by {
        if i >= 40 {
            assert(d0[i] == zero_checksum(msg)[i - 40]);
            assert(d1[i] == stamped[i - 40]);
        }
    }
    assert(word_at(d0, 21) == 0) by {
        assert(d0[42] == zero_checksum(msg)[2]);
        assert(d0[43] == zero_checksum(msg)[3]);
    }
    assert(word_at(d1, 21) == c) by {
        assert(d1[42] == (c / 256) as u8);
        assert(d1[43] == (c % 256) as u8);
        assert(256 * (c as int / 256) + c as int % 256 == c);
    }
    lemma_sum_words_update(d0, d1, 21, n);
    let s1 = sum_words(d1, n);
    assert(s1 == s0 + c);
    lemma_fold_mod(s0);
    vstd::arithmetic::div_mod::lemma_mod_equivalence(s0, f, 0xffff);
    assert((s0 - f) % 0xffff == 0);
    vstd::arithmetic::div_mod::lemma_mod_add_multiples_vanish(s0 - f, 0xffff);
    assert(s1 % 0xffff == 0);
    lemma_fold_mod(s1);
    let f1 = ones_fold(s1);
    lemma_ones_fold_range(s1);
    lemma_fold_pos(s1);
    if f1 < 0xffff {
        vstd::arithmetic::div_mod::lemma_small_mod(f1 as nat, 0xffff);
        assert(false);
    }
    assert(f1 == 0xffff);
}

/// Compute the ICMPv6 checksum of `msg` with source address `src` and
/// destination address `dst`, the message's own checksum field read as zero.
pub fn compute_checksum(src: &[u8; 16], dst: &[u8; 16], msg: &[u8]) -> (c: u16)
    requires
        msg@.len() >= 4,
        msg@.len() <= 65535,
    ensures
        c == icmpv6_checksum(src@, dst@, msg@),
{
    let mlen: usize = msg.len();
    let mut data: Vec<u8> = Vec::new();
    let mut i: usize = 0;
    while i < 16
        invariant
            i <= 16,
            data@ == src@.take(i as int),
        decreases 16 - i,
    {
        data.push(src[i]);
        proof {
            assert(data@ =~= src@.take(i + 1));
        }
        i += 1;
    }
    proof {
        assert(data@ =~= src@);
    }
    let mut i: usize = 0;
    while i < 16
        invariant
            i <= 16,
            data@ == src@ + dst@.take(i as int),
        decreases 16 - i,
    {
        data.push(dst[i]);
        proof {
            assert(data@ =~= src@ + dst@.take(i + 1));
        }
        i += 1;
    }
    data.push(0u8);
    data.push(0u8);
    data.push((mlen / 0x100) as u8);
    data.push((mlen % 0x100) as u8);
    data.push(0u8);
    data.push(0u8);
    data.push(0u8);
    data.push(58u8);
    proof {
        assert(data@ =~= pseudo_header(src@, dst@, msg@.len() as int));
    }
    let mut i: usize = 0;
    while i < mlen
        invariant
            i <= mlen,
            mlen == msg@.len(),
            mlen >= 4,
            data@ == pseudo_header(src@, dst@, msg@.len() as int) + zero_checksum(msg@).take(
                i as int,
            ),
        decreases mlen - i,
    {
        if i == 2 || i == 3 {
            data.push(0u8);
        } else {
            data.push(msg[i]);
        }
        proof {
            assert(data@ =~= pseudo_header(src@, dst@, msg@.len() as int) + zero_checksum(
                msg@,
            ).take(i + 1));
        }
        i += 1;
    }
    proof {
        assert(zero_checksum(msg@).take(mlen as int) =~= zero_checksum(msg@));
        assert(data@ =~= checksum_input(src@, dst@, msg@));
    }
    let ghost input = checksum_input(src@, dst@, msg@);
    let dlen: usize = data.len();
    let nw: usize = (dlen + 1) / 2;
    proof {
        assert(nw == num_words(input));
        assert(dlen <= 40 + 65535);
        assert(nw <= 32788);
    }
    let mut acc: u32 = 0;
    let mut i: usize = 0;
    while i < nw
        invariant
            i <= nw,
            nw == num_words(input),
            nw <= 32788,
            dlen == data@.len(),
            nw == (dlen + 1) / 2,
            data@ == input,
            acc == sum_words(input, i as int),
        decreases nw - i,
    {
        proof {
            lemma_sum_words_bound(input, i as int);
            lemma_sum_words_bound(input, i + 1);
            assert((i + 1) * 0xffff <= 32788 * 0xffff);
            assert(2 * (i as int) < dlen);
        }
        let hi: u32 = (data[2 * i] as u32) * 256;
        let lo: u32 = if 2 * i + 1 < dlen {
            data[2 * i + 1] as u32
        } else {
            0u32
        };
        proof {
            assert(hi + lo == word_at(input, i as int));
        }
        acc = acc + hi + lo;
        i += 1;
    }
    let ghost total = sum_words(input, num_words(input));
    proof {
        lemma_sum_words_bound(input, num_words(input));
    }
    while acc > 0xffff
        invariant
            ones_fold(acc as int) == ones_fold(total),
            total >= 0,
        decreases acc,
    {
        proof {
            assert(acc & 0xffff == acc as int % 0x10000 && acc >> 16 == acc as int / 0x10000
                && (acc & 0xffff) <= 0xffff && (acc >> 16) <= 0xffff) by (bit_vector);
            assert(acc as int % 0x10000 + acc as int / 0x10000 < acc as int);
        }
        let folded: u32 = (acc & 0xffff) + (acc >> 16);
        acc = folded;
    }
    proof {
        assert(ones_fold(acc as int) == acc as int);
        lemma_ones_fold_range(total);
    }
    (0xffffu32 - acc) as u16
}

} // verus!
