use proxy_ndp::checksum::compute_checksum;
use proxy_ndp::frame::{build_advertisement, parse_advertisement, parse_solicitation};
use proxy_ndp::processor::{process_frame, Configuration};

fn prefix_2001_db8() -> [u8; 16] {
    [0x20, 0x01, 0x0d, 0xb8, 0, 0, 0, 0, 0, 0, 0, 0, 0, 0, 0, 0]
}

fn target_2001_db8_1() -> [u8; 16] {
    [0x20, 0x01, 0x0d, 0xb8, 0, 0, 0, 0, 0, 0, 0, 0, 0, 0, 0, 1]
}

fn target_2001_db9_1() -> [u8; 16] {
    [0x20, 0x01, 0x0d, 0xb9, 0, 0, 0, 0, 0, 0, 0, 0, 0, 0, 0, 1]
}

fn sender_fe80_1() -> [u8; 16] {
    [0xfe, 0x80, 0, 0, 0, 0, 0, 0, 0, 0, 0, 0, 0, 0, 0, 1]
}

const PROXY_MAC: [u8; 6] = [0x02, 0x00, 0x00, 0x00, 0x00, 0x01];
const SENDER_MAC: [u8; 6] = [0xaa, 0xbb, 0xcc, 0xdd, 0xee, 0xff];

fn config() -> Configuration {
    Configuration { proxy_mac: PROXY_MAC, prefix: prefix_2001_db8(), prefix_length: 64 }
}

/// A well-formed Neighbor Solicitation frame: Ethernet + IPv6 + ICMPv6 NS
/// with a source-link-layer-address option (78 + 8 bytes).
fn build_solicitation(sender_mac: [u8; 6], sender_ip: [u8; 16], target: [u8; 16]) -> Vec<u8> {
    let mut f = Vec::new();
    // Ethernet: solicited-node multicast destination, sender source, IPv6.
    f.extend_from_slice(&[0x33, 0x33, 0xff, 0x00, 0x00, 0x01]);
    f.extend_from_slice(&sender_mac);
    f.extend_from_slice(&[0x86, 0xdd]);
    // IPv6: version 6, payload length 32, next header ICMPv6, hop limit 255.
    f.extend_from_slice(&[0x60, 0, 0, 0, 0, 32, 58, 255]);
    f.extend_from_slice(&sender_ip);
    let mut dst = [0u8; 16];
    dst[0] = 0xff;
    dst[1] = 0x02;
    dst[11] = 0x01;
    dst[12] = 0xff;
    dst[15] = target[15];
    f.extend_from_slice(&dst);
    // ICMPv6 Neighbor Solicitation: type 135, code 0, checksum, reserved.
    f.extend_from_slice(&[135, 0, 0x4a, 0x1b, 0, 0, 0, 0]);
    f.extend_from_slice(&target);
    // Source link-layer address option.
    f.extend_from_slice(&[1, 1]);
    f.extend_from_slice(&sender_mac);
    f
}

fn ones_complement_fold(data: &[u8]) -> u16 {
    let mut sum: u32 = 0;
    let mut i = 0;
    while i < data.len() {
        let hi = data[i] as u32;
        let lo = if i + 1 < data.len() { data[i + 1] as u32 } else { 0 };
        sum += hi * 256 + lo;
        i += 2;
    }
    while sum > 0xffff {
        sum = (sum & 0xffff) + (sum >> 16);
    }
    sum as u16
}

#[test]
fn mask_zero_length_is_all_zero() {
    let a = target_2001_db8_1();
    assert_eq!(proxy_ndp::addr::mask(&a, 0), [0u8; 16]);
}

#[test]
fn mask_full_length_is_identity() {
    let a = target_2001_db8_1();
    assert_eq!(proxy_ndp::addr::mask(&a, 128), a);
}

#[test]
fn mask_whole_bytes() {
    let a = target_2001_db9_1();
    let m = proxy_ndp::addr::mask(&a, 24);
    assert_eq!(m, [0x20, 0x01, 0x0d, 0, 0, 0, 0, 0, 0, 0, 0, 0, 0, 0, 0, 0]);
}

#[test]
fn mask_partial_byte_keeps_top_bits() {
    // 0xb9 = 1011_1001; keeping the top 5 bits of byte 3 gives 0xb8.
    let a = target_2001_db9_1();
    let m = proxy_ndp::addr::mask(&a, 29);
    assert_eq!(m, [0x20, 0x01, 0x0d, 0xb8, 0, 0, 0, 0, 0, 0, 0, 0, 0, 0, 0, 0]);
    // Keeping the top 7 bits leaves 0xb8 as well; all 8 keep 0xb9.
    assert_eq!(proxy_ndp::addr::mask(&a, 31)[3], 0xb8);
    assert_eq!(proxy_ndp::addr::mask(&a, 32)[3], 0xb9);
}

#[test]
fn mask_agreement_decides_prefix_membership() {
    let p = proxy_ndp::addr::mask(&prefix_2001_db8(), 64);
    assert_eq!(p, proxy_ndp::addr::mask(&target_2001_db8_1(), 64));
    assert_ne!(p, proxy_ndp::addr::mask(&target_2001_db9_1(), 64));
}

#[test]
fn checksum_exact_value() {
    let target = target_2001_db8_1();
    let sender = sender_fe80_1();
    let mut msg = Vec::new();
    msg.extend_from_slice(&[136, 0, 0, 0, 0x60, 0, 0, 0]);
    msg.extend_from_slice(&target);
    msg.extend_from_slice(&[2, 1]);
    msg.extend_from_slice(&PROXY_MAC);
    assert_eq!(compute_checksum(&target, &sender, &msg), 0xb9ac);
    let msg2 = {
        let mut m = vec![136u8, 0, 0, 0];
        m.extend_from_slice(&[0u8; 28]);
        m
    };
    assert_eq!(compute_checksum(&target, &sender, &msg2), 0x4b69);
}

#[test]
fn checksum_field_ignored_when_computing() {
    let target = target_2001_db8_1();
    let sender = sender_fe80_1();
    let mut msg = vec![136u8, 0, 0, 0];
    msg.extend_from_slice(&[0u8; 28]);
    let c0 = compute_checksum(&target, &sender, &msg);
    msg[2] = 0xde;
    msg[3] = 0xad;
    assert_eq!(compute_checksum(&target, &sender, &msg), c0);
}

#[test]
fn solicitation_inside_prefix_yields_advertisement() {
    let cfg = config();
    let frame = build_solicitation(SENDER_MAC, sender_fe80_1(), target_2001_db8_1());
    let reply = process_frame(&cfg, &frame).expect("target is proxied");
    assert_eq!(reply.len(), 86);
    let adv = parse_advertisement(&reply).expect("reply parses");
    assert_eq!(adv.dst_mac, SENDER_MAC);
    assert_eq!(adv.src_mac, PROXY_MAC);
    assert_eq!(adv.ip_src, target_2001_db8_1());
    assert_eq!(adv.ip_dst, sender_fe80_1());
    assert_eq!(adv.flags, 0x60, "Solicited and Override set, Router unset");
    assert_eq!(adv.target, target_2001_db8_1());
    assert_eq!(adv.option_mac, PROXY_MAC);
    // Ethertype, next header, hop limit, payload length on the wire.
    assert_eq!(&reply[12..14], &[0x86, 0xdd]);
    assert_eq!(reply[18], 0);
    assert_eq!(reply[19], 32);
    assert_eq!(reply[20], 58);
    assert_eq!(reply[21], 255);
    assert_eq!(reply[54], 136);
    assert_eq!(reply[55], 0);
    assert_eq!(adv.checksum, 0xb9ac);
}

#[test]
fn reply_checksum_validates_against_pseudo_header() {
    let cfg = config();
    let frame = build_solicitation(SENDER_MAC, sender_fe80_1(), target_2001_db8_1());
    let reply = process_frame(&cfg, &frame).expect("target is proxied");
    // One's-complement sum of pseudo-header and message, checksum field
    // included, folds to 0xffff.
    let msg = &reply[54..];
    let mut data = Vec::new();
    data.extend_from_slice(&reply[22..38]); // IPv6 source
    data.extend_from_slice(&reply[38..54]); // IPv6 destination
    data.extend_from_slice(&(msg.len() as u32).to_be_bytes());
    data.extend_from_slice(&[0, 0, 0, 58]);
    data.extend_from_slice(msg);
    assert_eq!(ones_complement_fold(&data), 0xffff);
}

#[test]
fn solicitation_outside_prefix_yields_nothing() {
    let cfg = config();
    let frame = build_solicitation(SENDER_MAC, sender_fe80_1(), target_2001_db9_1());
    assert!(process_frame(&cfg, &frame).is_none());
}

#[test]
fn malformed_frames_dropped_and_pipeline_stays_alive() {
    let cfg = config();
    // Shorter than an Ethernet header.
    assert!(process_frame(&cfg, &[0x33, 0x33, 0xff]).is_none());
    assert!(process_frame(&cfg, &[]).is_none());
    // Non-IPv6 ethertype (ARP).
    let mut arp = build_solicitation(SENDER_MAC, sender_fe80_1(), target_2001_db8_1());
    arp[12] = 0x08;
    arp[13] = 0x06;
    assert!(process_frame(&cfg, &arp).is_none());
    // Non-ICMPv6 next header (UDP).
    let mut udp = build_solicitation(SENDER_MAC, sender_fe80_1(), target_2001_db8_1());
    udp[20] = 17;
    assert!(process_frame(&cfg, &udp).is_none());
    // Not a Neighbor Solicitation (echo request).
    let mut echo = build_solicitation(SENDER_MAC, sender_fe80_1(), target_2001_db8_1());
    echo[54] = 128;
    assert!(process_frame(&cfg, &echo).is_none());
    // Truncated below the Neighbor Solicitation target field.
    let mut short = build_solicitation(SENDER_MAC, sender_fe80_1(), target_2001_db8_1());
    short.truncate(70);
    assert!(process_frame(&cfg, &short).is_none());
    // The same processor still answers a good frame afterwards.
    let good = build_solicitation(SENDER_MAC, sender_fe80_1(), target_2001_db8_1());
    assert!(process_frame(&cfg, &good).is_some());
}

#[test]
fn advertisement_round_trip_recovers_fields() {
    let reply = build_advertisement(
        &PROXY_MAC,
        &SENDER_MAC,
        &target_2001_db8_1(),
        &sender_fe80_1(),
    );
    let adv = parse_advertisement(&reply).expect("constructed frame parses");
    assert_eq!(adv.dst_mac, SENDER_MAC);
    assert_eq!(adv.src_mac, PROXY_MAC);
    assert_eq!(adv.ip_src, target_2001_db8_1());
    assert_eq!(adv.ip_dst, sender_fe80_1());
    assert_eq!(adv.flags, 0x60);
    assert_eq!(adv.target, target_2001_db8_1());
    assert_eq!(adv.option_mac, PROXY_MAC);
    assert_eq!(
        adv.checksum,
        compute_checksum(&target_2001_db8_1(), &sender_fe80_1(), &reply[54..])
    );
}

#[test]
fn solicitation_parse_extracts_fields() {
    let frame = build_solicitation(SENDER_MAC, sender_fe80_1(), target_2001_db8_1());
    let s = parse_solicitation(&frame).expect("well-formed solicitation");
    assert_eq!(s.sender_mac, SENDER_MAC);
    assert_eq!(s.sender_ip, sender_fe80_1());
    assert_eq!(s.target, target_2001_db8_1());
}

#[test]
fn boundary_prefix_lengths() {
    // Length 0 matches every address.
    let cfg0 = Configuration { proxy_mac: PROXY_MAC, prefix: prefix_2001_db8(), prefix_length: 0 };
    let frame = build_solicitation(SENDER_MAC, sender_fe80_1(), target_2001_db9_1());
    assert!(process_frame(&cfg0, &frame).is_some());
    // Length 128 matches only the exact address.
    let cfg128 = Configuration {
        proxy_mac: PROXY_MAC,
        prefix: target_2001_db8_1(),
        prefix_length: 128,
    };
    let exact = build_solicitation(SENDER_MAC, sender_fe80_1(), target_2001_db8_1());
    assert!(process_frame(&cfg128, &exact).is_some());
    let mut other = target_2001_db8_1();
    other[15] = 2;
    let near = build_solicitation(SENDER_MAC, sender_fe80_1(), other);
    assert!(process_frame(&cfg128, &near).is_none());
}
