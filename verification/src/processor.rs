//! The per-frame decision of the proxy: parse an inbound frame, test the
//! solicited address against the configured prefix, and construct the reply.
//!
//! The processor is a stateless filter-and-transform: each frame is handled
//! on its own, and a frame that fails any parse step is dropped without
//! affecting later frames.

use vstd::prelude::*;
use crate::addr::{mask, masked, in_prefix, lemma_prefix_match};
use crate::checksum::icmpv6_checksum;
use crate::frame::{
    parse_solicitation, build_advertisement, advertisement_bytes, is_solicitation, eth_src,
    eth_dst, ip_src, ip_dst, ns_target, na_flags, na_option_mac, be16,
};

verus! {

/// The immutable startup configuration: the MAC the proxy answers with, and
/// the proxied address prefix.
pub struct Configuration {
    /// Link-layer address placed in replies.
    pub proxy_mac: [u8; 6],
    /// The proxied prefix.
    pub prefix: [u8; 16],
    /// How many leading bits of `prefix` are significant.
    pub prefix_length: u8,
}

impl Configuration {
    /// A configuration is well formed when the prefix length is a valid
    /// number of address bits.
    pub open spec fn wf(self) -> bool {
        self.prefix_length <= 128
    }
}

/// The solicited address of frame `f` lies in the configured prefix, stated
/// as the masked-prefix comparison the processor performs.
pub open spec fn target_matches(cfg: Configuration, f: Seq<u8>) -> bool {
    masked(cfg.prefix@, cfg.prefix_length as int) == masked(
        ns_target(f),
        cfg.prefix_length as int,
    )
}

/// What the processor does with one frame: the reply frame for a Neighbor
/// Solicitation whose target is proxied, and nothing for every other frame.
pub open spec fn spec_process(cfg: Configuration, f: Seq<u8>) -> Option<Seq<u8>> {
    if is_solicitation(f) && target_matches(cfg, f) {
        Some(advertisement_bytes(cfg.proxy_mac@, eth_src(f), ns_target(f), ip_src(f)))
    } else {
        None
    }
}

fn addr_eq(a: &[u8; 16], b: &[u8; 16]) -> (r: bool)
    ensures
        r == (a@ == b@),
{
    let mut i: usize = 0;
    while i < 16
        invariant
            i <= 16,
            forall|j: int| 0 <= j < i ==> a@[j] == b@[j],
        decreases 16 - i,
    {
        if a[i] != b[i] {
            return false;
        }
        i += 1;
    }
    proof {
        assert(a@ =~= b@);
    }
    true
}

/// Handle one inbound frame: returns the Neighbor Advertisement to send
/// when the frame is a Neighbor Solicitation for an address in the proxied
/// prefix, and `None` — dropping the frame — otherwise.
pub fn process_frame(cfg: &Configuration, frame: &[u8]) -> (r: Option<Vec<u8>>)
    requires
        cfg.wf(),
    ensures
        (r is Some) == (spec_process(*cfg, frame@) is Some),
        r matches Some(v) ==> v@ == spec_process(*cfg, frame@).unwrap(),
{
    match parse_solicitation(frame) {
        None => None,
        Some(s) => {
            let masked_prefix = mask(&cfg.prefix, cfg.prefix_length);
            let masked_target = mask(&s.target, cfg.prefix_length);
            if addr_eq(&masked_prefix, &masked_target) {
                Some(build_advertisement(&cfg.proxy_mac, &s.sender_mac, &s.target, &s.sender_ip))
            } else {
                None
            }
        },
    }
}

/// A Neighbor Solicitation whose target lies outside the configured prefix
/// produces no outbound frame.
pub proof fn lemma_no_reply_outside_prefix(cfg: Configuration, f: Seq<u8>)
    requires
        cfg.wf(),
        is_solicitation(f),
        !in_prefix(ns_target(f), cfg.prefix@, cfg.prefix_length as int),
    ensures
        spec_process(cfg, f) is None,
{
    lemma_prefix_match(ns_target(f), cfg.prefix@, cfg.prefix_length as int);
}

/// A frame that is not a well-formed Neighbor Solicitation produces no
/// outbound frame.
pub proof fn lemma_no_reply_malformed(cfg: Configuration, f: Seq<u8>)
    requires
        !is_solicitation(f),
    ensures
        spec_process(cfg, f) is None,
{
}

/// A Neighbor Solicitation whose target lies inside the configured prefix
/// produces exactly one outbound frame: an 86-byte Neighbor Advertisement
/// whose Ethernet source is the proxy MAC, whose IPv6 source is the
/// solicited address, whose flags are Solicited and Override with Router
/// unset, and whose checksum field holds the ICMPv6 checksum of its message
/// under the IPv6 pseudo-header.
pub proof fn lemma_reply_inside_prefix(cfg: Configuration, f: Seq<u8>)
    requires
        cfg.wf(),
        is_solicitation(f),
        in_prefix(ns_target(f), cfg.prefix@, cfg.prefix_length as int),
    ensures
        ({
            let r = spec_process(cfg, f);
            &&& r is Some
            &&& r.unwrap().len() == 86
            &&& eth_src(r.unwrap()) == cfg.proxy_mac@
            &&& eth_dst(r.unwrap()) == eth_src(f)
            &&& ip_src(r.unwrap()) == ns_target(f)
            &&& ip_dst(r.unwrap()) == ip_src(f)
            &&& na_flags(r.unwrap()) == 0x60
            &&& ns_target(r.unwrap()) == ns_target(f)
            &&& na_option_mac(r.unwrap()) == cfg.proxy_mac@
            &&& be16(r.unwrap(), 56) == icmpv6_checksum(
                ns_target(f),
                ip_src(f),
                r.unwrap().subrange(54, 86),
            )
            &&& ({
                let data = crate::checksum::pseudo_header(ns_target(f), ip_src(f), 32)
                    + r.unwrap().subrange(54, 86);
                crate::checksum::ones_fold(
                    crate::checksum::sum_words(data, crate::checksum::num_words(data)),
                ) == 0xffff
            })
        }),
{
    lemma_prefix_match(ns_target(f), cfg.prefix@, cfg.prefix_length as int);
    crate::frame::lemma_advertisement_round_trip(cfg.proxy_mac@, eth_src(f), ns_target(f), ip_src(f));
    crate::frame::lemma_advertisement_checksum_validates(
        cfg.proxy_mac@,
        eth_src(f),
        ns_target(f),
        ip_src(f),
    );
}

} // verus!
