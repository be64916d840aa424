//! Wire layout of the frames the proxy reads and writes: Ethernet carrying
//! IPv6 carrying an ICMPv6 Neighbor Solicitation in, and the Neighbor
//! Advertisement reply out.
//!
//! Offsets within a frame: the Ethernet header occupies bytes 0..14, the
//! fixed IPv6 header bytes 14..54, and the ICMPv6 message starts at byte 54.

use vstd::prelude::*;
use crate::checksum::icmpv6_checksum;

verus! {

/// Big-endian 16-bit value at offset `i`.
pub open spec fn be16(f: Seq<u8>, i: int) -> int {
    256 * f[i] + f[i + 1]
}

/// Destination MAC of the Ethernet header.
pub open spec fn eth_dst(f: Seq<u8>) -> Seq<u8> {
    f.subrange(0, 6)
}

/// Source MAC of the Ethernet header.
pub open spec fn eth_src(f: Seq<u8>) -> Seq<u8> {
    f.subrange(6, 12)
}

/// Ethertype of the Ethernet header.
pub open spec fn eth_type(f: Seq<u8>) -> int {
    be16(f, 12)
}

/// Next-header field of the IPv6 header.
pub open spec fn ip_next_header(f: Seq<u8>) -> u8 {
    f[20]
}

/// Source address of the IPv6 header.
pub open spec fn ip_src(f: Seq<u8>) -> Seq<u8> {
    f.subrange(22, 38)
}

/// Destination address of the IPv6 header.
pub open spec fn ip_dst(f: Seq<u8>) -> Seq<u8> {
    f.subrange(38, 54)
}

/// Type field of the ICMPv6 message.
pub open spec fn icmp_type(f: Seq<u8>) -> u8 {
    f[54]
}

/// Target address of a Neighbor Solicitation or Advertisement.
pub open spec fn ns_target(f: Seq<u8>) -> Seq<u8> {
    f.subrange(62, 78)
}

/// Flags byte of a Neighbor Advertisement.
pub open spec fn na_flags(f: Seq<u8>) -> u8 {
    f[58]
}

/// MAC carried in the Target-Link-Layer-Address option of a Neighbor
/// Advertisement built by this proxy.
pub open spec fn na_option_mac(f: Seq<u8>) -> Seq<u8> {
    f.subrange(80, 86)
}

/// The frame is a well-formed Neighbor Solicitation: long enough for all
/// three layers, ethertype IPv6 (0x86dd), next header ICMPv6 (58), and
/// ICMPv6 type Neighbor Solicitation (135).
pub open spec fn is_solicitation(f: Seq<u8>) -> bool {
    &&& f.len() >= 78
    &&& eth_type(f) == 0x86dd
    &&& ip_next_header(f) == 58
    &&& icmp_type(f) == 135
}

/// The frame is a well-formed Neighbor Advertisement carrying one
/// link-layer-address option: ethertype IPv6, next header ICMPv6, ICMPv6
/// type Neighbor Advertisement (136).
pub open spec fn is_advertisement(f: Seq<u8>) -> bool {
    &&& f.len() >= 86
    &&& eth_type(f) == 0x86dd
    &&& ip_next_header(f) == 58
    &&& icmp_type(f) == 136
}

/// The fields of an inbound Neighbor Solicitation that the reply needs.
pub struct Solicitation {
    /// Source MAC of the inbound Ethernet header.
    pub sender_mac: [u8; 6],
    /// Source address of the inbound IPv6 header.
    pub sender_ip: [u8; 16],
    /// The solicited address.
    pub target: [u8; 16],
}

/// The fields of a Neighbor Advertisement frame.
pub struct Advertisement {
    /// Destination MAC of the Ethernet header.
    pub dst_mac: [u8; 6],
    /// Source MAC of the Ethernet header.
    pub src_mac: [u8; 6],
    /// Source address of the IPv6 header.
    pub ip_src: [u8; 16],
    /// Destination address of the IPv6 header.
    pub ip_dst: [u8; 16],
    /// ICMPv6 checksum field.
    pub checksum: u16,
    /// Flags byte (Router 0x80, Solicited 0x40, Override 0x20).
    pub flags: u8,
    /// The advertised address.
    pub target: [u8; 16],
    /// MAC carried in the Target-Link-Layer-Address option.
    pub option_mac: [u8; 6],
}

fn copy6(f: &[u8], off: usize) -> (r: [u8; 6])
    requires
        off + 6 <= f@.len(),
    ensures
        r@ == f@.subrange(off as int, off + 6),
{
    let flen: usize = f.len();
    let mut r: [u8; 6] = [0u8; 6];
    let mut i: usize = 0;
    while i < 6
        invariant
            i <= 6,
            off + 6 <= flen,
            flen == f@.len(),
            forall|j: int| 0 <= j < i ==> r@[j] == f@[off + j],
        decreases 6 - i,
    {
        r[i] = f[off + i];
        i += 1;
    }
    proof {
        assert(r@ =~= f@.subrange(off as int, off + 6));
    }
    r
}

fn copy16(f: &[u8], off: usize) -> (r: [u8; 16])
    requires
        off + 16 <= f@.len(),
    ensures
        r@ == f@.subrange(off as int, off + 16),
{
    let flen: usize = f.len();
    let mut r: [u8; 16] = [0u8; 16];
    let mut i: usize = 0;
    while i < 16
        invariant
            i <= 16,
            off + 16 <= flen,
            flen == f@.len(),
            forall|j: int| 0 <= j < i ==> r@[j] == f@[off + j],
        decreases 16 - i,
    {
        r[i] = f[off + i];
        i += 1;
    }
    proof {
        assert(r@ =~= f@.subrange(off as int, off + 16));
    }
    r
}

/// Parse a raw frame as a Neighbor Solicitation. Returns `None` for every
/// frame that is too short at any layer, is not IPv6, is not ICMPv6, or is
/// not a Neighbor Solicitation; such a frame is simply dropped by the
/// caller.
pub fn parse_solicitation(frame: &[u8]) -> (r: Option<Solicitation>)
    ensures
        r is Some <==> is_solicitation(frame@),
        r matches Some(s) ==> {
            &&& s.sender_mac@ == eth_src(frame@)
            &&& s.sender_ip@ == ip_src(frame@)
            &&& s.target@ == ns_target(frame@)
        },
{
    if frame.len() < 78 {
        return None;
    }
    if !(frame[12] == 0x86 && frame[13] == 0xdd) {
        return None;
    }
    if frame[20] != 58 {
        return None;
    }
    if frame[54] != 135 {
        return None;
    }
    Some(
        Solicitation {
            sender_mac: copy6(frame, 6),
            sender_ip: copy16(frame, 22),
            target: copy16(frame, 62),
        },
    )
}

/// Parse a raw frame as a Neighbor Advertisement with one option, the form
/// this proxy emits.
pub fn parse_advertisement(frame: &[u8]) -> (r: Option<Advertisement>)
    ensures
        r is Some <==> is_advertisement(frame@),
        r matches Some(a) ==> {
            &&& a.dst_mac@ == eth_dst(frame@)
            &&& a.src_mac@ == eth_src(frame@)
            &&& a.ip_src@ == ip_src(frame@)
            &&& a.ip_dst@ == ip_dst(frame@)
            &&& a.checksum == be16(frame@, 56)
            &&& a.flags == na_flags(frame@)
            &&& a.target@ == ns_target(frame@)
            &&& a.option_mac@ == na_option_mac(frame@)
        },
{
    if frame.len() < 86 {
        return None;
    }
    if !(frame[12] == 0x86 && frame[13] == 0xdd) {
        return None;
    }
    if frame[20] != 58 {
        return None;
    }
    if frame[54] != 136 {
        return None;
    }
    let checksum: u16 = (frame[56] as u16) * 256 + (frame[57] as u16);
    Some(
        Advertisement {
            dst_mac: copy6(frame, 0),
            src_mac: copy6(frame, 6),
            ip_src: copy16(frame, 22),
            ip_dst: copy16(frame, 38),
            checksum,
            flags: frame[58],
            target: copy16(frame, 62),
            option_mac: copy6(frame, 80),
        },
    )
}

/// Ethernet header of the reply: destination, source, ethertype IPv6.
pub open spec fn adv_eth_header(dst_mac: Seq<u8>, src_mac: Seq<u8>) -> Seq<u8> {
    dst_mac + src_mac + seq![0x86u8, 0xddu8]
}

/// IPv6 header of the reply: version 6, payload length 32, next header
/// ICMPv6, hop limit 255, then source and destination addresses.
pub open spec fn adv_ipv6_header(src_ip: Seq<u8>, dst_ip: Seq<u8>) -> Seq<u8> {
    seq![0x60u8, 0u8, 0u8, 0u8, 0u8, 32u8, 58u8, 255u8] + src_ip + dst_ip
}

/// ICMPv6 Neighbor Advertisement message of the reply: type 136, code 0,
/// the given checksum, flags Solicited and Override (Router unset), the
/// target address, and one Target-Link-Layer-Address option carrying `mac`.
pub open spec fn adv_na_message(cksum: u16, mac: Seq<u8>, target: Seq<u8>) -> Seq<u8> {
    seq![136u8, 0u8, (cksum / 256) as u8, (cksum % 256) as u8, 0x60u8, 0u8, 0u8, 0u8] + target
        + seq![2u8, 1u8] + mac
}

/// The checksum of the reply message, computed over the pseudo-header for
/// the target (the reply's source) and the solicitor's address.
pub open spec fn advertisement_checksum(proxy_mac: Seq<u8>, target: Seq<u8>, dst_ip: Seq<u8>) -> u16 {
    icmpv6_checksum(target, dst_ip, adv_na_message(0, proxy_mac, target))
}

/// The full 86-byte Neighbor Advertisement frame the proxy replies with.
pub open spec fn advertisement_bytes(
    proxy_mac: Seq<u8>,
    dst_mac: Seq<u8>,
    target: Seq<u8>,
    dst_ip: Seq<u8>,
) -> Seq<u8> {
    adv_eth_header(dst_mac, proxy_mac) + adv_ipv6_header(target, dst_ip) + adv_na_message(
        advertisement_checksum(proxy_mac, target, dst_ip),
        proxy_mac,
        target,
    )
}

fn push6(v: &mut Vec<u8>, a: &[u8; 6])
    ensures
        final(v)@ == old(v)@ + a@,
{
    let mut i: usize = 0;
    while i < 6
        invariant
            i <= 6,
            v@ == old(v)@ + a@.take(i as int),
        decreases 6 - i,
    {
        v.push(a[i]);
        proof {
            assert(v@ =~= old(v)@ + a@.take(i + 1));
        }
        i += 1;
    }
    proof {
        assert(v@ =~= old(v)@ + a@);
    }
}

fn push16(v: &mut Vec<u8>, a: &[u8; 16])
    ensures
        final(v)@ == old(v)@ + a@,
{
    let mut i: usize = 0;
    while i < 16
        invariant
            i <= 16,
            v@ == old(v)@ + a@.take(i as int),
        decreases 16 - i,
    {
        v.push(a[i]);
        proof {
            assert(v@ =~= old(v)@ + a@.take(i + 1));
        }
        i += 1;
    }
    proof {
        assert(v@ =~= old(v)@ + a@);
    }
}

fn build_na_message(cksum: u16, mac: &[u8; 6], target: &[u8; 16]) -> (r: Vec<u8>)
    ensures
        r@ == adv_na_message(cksum, mac@, target@),
        r@.len() == 32,
{
    let mut r: Vec<u8> = Vec::new();
    r.push(136u8);
    r.push(0u8);
    r.push((cksum / 256) as u8);
    r.push((cksum % 256) as u8);
    r.push(0x60u8);
    r.push(0u8);
    r.push(0u8);
    r.push(0u8);
    push16(&mut r, target);
    r.push(2u8);
    r.push(1u8);
    push6(&mut r, mac);
    proof {
        assert(r@ =~= adv_na_message(cksum, mac@, target@));
    }
    r
}

/// Construct the Neighbor Advertisement reply frame: Ethernet from
/// `proxy_mac` to `dst_mac`, IPv6 from `target` to `dst_ip`, and a Neighbor
/// Advertisement for `target` carrying `proxy_mac`, with its checksum
/// filled in.
pub fn build_advertisement(
    proxy_mac: &[u8; 6],
    dst_mac: &[u8; 6],
    target: &[u8; 16],
    dst_ip: &[u8; 16],
) -> (r: Vec<u8>)
    ensures
        r@ == advertisement_bytes(proxy_mac@, dst_mac@, target@, dst_ip@),
        r@.len() == 86,
{
    let msg0 = build_na_message(0, proxy_mac, target);
    let cksum = crate::checksum::compute_checksum(target, dst_ip, msg0.as_slice());
    let mut r: Vec<u8> = Vec::new();
    push6(&mut r, dst_mac);
    push6(&mut r, proxy_mac);
    r.push(0x86u8);
    r.push(0xddu8);
    proof {
        assert(r@ =~= adv_eth_header(dst_mac@, proxy_mac@));
    }
    r.push(0x60u8);
    r.push(0u8);
    r.push(0u8);
    r.push(0u8);
    r.push(0u8);
    r.push(32u8);
    r.push(58u8);
    r.push(255u8);
    push16(&mut r, target);
    push16(&mut r, dst_ip);
    proof {
        assert(r@ =~= adv_eth_header(dst_mac@, proxy_mac@) + adv_ipv6_header(target@, dst_ip@));
    }
    let mut msg = build_na_message(cksum, proxy_mac, target);
    r.append(&mut msg);
    proof {
        assert(r@ =~= advertisement_bytes(proxy_mac@, dst_mac@, target@, dst_ip@));
    }
    r
}

/// Round trip: parsing a constructed Neighbor Advertisement frame recovers
/// the field values it was constructed from, and its checksum field holds
/// the ICMPv6 checksum of its own message under the pseudo-header for the
/// target and the destination address.
pub proof fn lemma_advertisement_round_trip(
    proxy_mac: Seq<u8>,
    dst_mac: Seq<u8>,
    target: Seq<u8>,
    dst_ip: Seq<u8>,
)
    requires
        proxy_mac.len() == 6,
        dst_mac.len() == 6,
        target.len() == 16,
        dst_ip.len() == 16,
    ensures
        ({
            let f = advertisement_bytes(proxy_mac, dst_mac, target, dst_ip);
            &&& f.len() == 86
            &&& is_advertisement(f)
            &&& eth_dst(f) == dst_mac
            &&& eth_src(f) == proxy_mac
            &&& ip_src(f) == target
            &&& ip_dst(f) == dst_ip
            &&& na_flags(f) == 0x60
            &&& ns_target(f) == target
            &&& na_option_mac(f) == proxy_mac
            &&& be16(f, 56) == advertisement_checksum(proxy_mac, target, dst_ip)
            &&& be16(f, 56) == icmpv6_checksum(target, dst_ip, f.subrange(54, 86))
        }),
{
    let c = advertisement_checksum(proxy_mac, target, dst_ip);
    let f = advertisement_bytes(proxy_mac, dst_mac, target, dst_ip);
    assert(f.len() == 86);
    assert(eth_dst(f) =~= dst_mac);
    assert(eth_src(f) =~= proxy_mac);
    assert(ip_src(f) =~= target);
    assert(ip_dst(f) =~= dst_ip);
    assert(ns_target(f) =~= target);
    assert(na_option_mac(f) =~= proxy_mac);
    assert(f[56] == (c / 256) as u8 && f[57] == (c % 256) as u8);
    assert(be16(f, 56) == c);
    let msg = f.subrange(54, 86);
    assert(msg =~= adv_na_message(c, proxy_mac, target));
    assert(crate::checksum::zero_checksum(adv_na_message(c, proxy_mac, target)) =~= crate::checksum::zero_checksum(
        adv_na_message(0, proxy_mac, target),
    ));
    assert(crate::checksum::checksum_input(target, dst_ip, msg)
        == crate::checksum::checksum_input(target, dst_ip, adv_na_message(0, proxy_mac, target)));
    assert(icmpv6_checksum(target, dst_ip, msg) == c);
}

/// The emitted advertisement verifies at the receiver: the one's-complement
/// sum over its pseudo-header and its ICMPv6 message, the stored checksum
/// field included, folds to 0xffff.
pub proof fn lemma_advertisement_checksum_validates(
    proxy_mac: Seq<u8>,
    dst_mac: Seq<u8>,
    target: Seq<u8>,
    dst_ip: Seq<u8>,
)
    requires
        proxy_mac.len() == 6,
        dst_mac.len() == 6,
        target.len() == 16,
        dst_ip.len() == 16,
    ensures
        ({
            let f = advertisement_bytes(proxy_mac, dst_mac, target, dst_ip);
            let data = crate::checksum::pseudo_header(target, dst_ip, 32) + f.subrange(54, 86);
            crate::checksum::ones_fold(
                crate::checksum::sum_words(data, crate::checksum::num_words(data)),
            ) == 0xffff
        }),
{
    let c = advertisement_checksum(proxy_mac, target, dst_ip);
    let f = advertisement_bytes(proxy_mac, dst_mac, target, dst_ip);
    let msg0 = adv_na_message(0, proxy_mac, target);
    assert(msg0.len() == 32);
    crate::checksum::lemma_checksum_validates(target, dst_ip, msg0);
    let stamped = msg0.update(2, (c / 256) as u8).update(3, (c % 256) as u8);
    assert(stamped =~= adv_na_message(c, proxy_mac, target));
    assert(f.subrange(54, 86) =~= adv_na_message(c, proxy_mac, target));
}

} // verus!
