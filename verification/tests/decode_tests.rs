use tcp_sentinel::decode::parse_ethernet;
use tcp_sentinel::packet::IpAddress;

fn ipv4_tcp_frame() -> Vec<u8> {
    let mut frame: Vec<u8> = Vec::new();
    // Ethernet: destination, source, EtherType IPv4.
    frame.extend_from_slice(&[0x02, 0x00, 0x00, 0x00, 0x00, 0x01]);
    frame.extend_from_slice(&[0x02, 0x00, 0x00, 0x00, 0x00, 0x02]);
    frame.extend_from_slice(&[0x08, 0x00]);
    // IPv4: version 4, header length 20, total length 43, protocol TCP.
    frame.extend_from_slice(&[0x45, 0x00, 0x00, 0x2B]);
    frame.extend_from_slice(&[0x00, 0x00, 0x00, 0x00]);
    frame.extend_from_slice(&[0x40, 0x06, 0x00, 0x00]);
    frame.extend_from_slice(&[10, 0, 0, 1]);
    frame.extend_from_slice(&[10, 0, 0, 2]);
    // TCP: ports 1234 -> 80, seq 42, ack 7, data offset 20, SYN+ACK.
    frame.extend_from_slice(&[0x04, 0xD2, 0x00, 0x50]);
    frame.extend_from_slice(&[0x00, 0x00, 0x00, 0x2A]);
    frame.extend_from_slice(&[0x00, 0x00, 0x00, 0x07]);
    frame.extend_from_slice(&[0x50, 0x12, 0x00, 0x10]);
    frame.extend_from_slice(&[0x00, 0x00, 0x00, 0x00]);
    // Payload.
    frame.extend_from_slice(&[9, 8, 7]);
    frame
}

#[test]
fn decodes_an_ipv4_tcp_frame() {
    let frame = ipv4_tcp_frame();
    let manifest = parse_ethernet(&frame).expect("the frame carries TCP");
    assert_eq!(manifest.ip.src, IpAddress::V4(0x0A000001));
    assert_eq!(manifest.ip.dst, IpAddress::V4(0x0A000002));
    assert_eq!(manifest.tcp.src, 1234);
    assert_eq!(manifest.tcp.dst, 80);
    assert_eq!(manifest.tcp.seq, 42);
    assert_eq!(manifest.tcp.ack, 7);
    assert!(manifest.tcp.flags.syn);
    assert!(manifest.tcp.flags.ack);
    assert!(!manifest.tcp.flags.fin);
    assert!(!manifest.tcp.flags.rst);
    assert_eq!(manifest.tcp_payload.as_slice(), &[9, 8, 7]);
}

#[test]
fn decodes_a_vlan_tagged_frame() {
    let plain = ipv4_tcp_frame();
    let mut frame: Vec<u8> = Vec::new();
    frame.extend_from_slice(&plain[..12]);
    // 802.1Q tag, then the real EtherType.
    frame.extend_from_slice(&[0x81, 0x00, 0x00, 0x07]);
    frame.extend_from_slice(&plain[12..]);
    let manifest = parse_ethernet(&frame).expect("the tagged frame carries TCP");
    assert_eq!(manifest.tcp.src, 1234);
    assert_eq!(manifest.tcp_payload.as_slice(), &[9, 8, 7]);
}

#[test]
fn decodes_an_ipv6_tcp_frame() {
    let mut frame: Vec<u8> = Vec::new();
    frame.extend_from_slice(&[0x02, 0x00, 0x00, 0x00, 0x00, 0x01]);
    frame.extend_from_slice(&[0x02, 0x00, 0x00, 0x00, 0x00, 0x02]);
    frame.extend_from_slice(&[0x86, 0xDD]);
    // IPv6: version 6, payload length 21, next header TCP, hop limit 64.
    frame.extend_from_slice(&[0x60, 0x00, 0x00, 0x00]);
    frame.extend_from_slice(&[0x00, 0x15, 0x06, 0x40]);
    let mut src = [0u8; 16];
    src[0] = 0x20;
    src[1] = 0x01;
    src[15] = 0x01;
    let mut dst = [0u8; 16];
    dst[0] = 0x20;
    dst[1] = 0x01;
    dst[15] = 0x02;
    frame.extend_from_slice(&src);
    frame.extend_from_slice(&dst);
    // TCP: ports 443 -> 8443, seq 1, ack 0, data offset 20, SYN.
    frame.extend_from_slice(&[0x01, 0xBB, 0x20, 0xFB]);
    frame.extend_from_slice(&[0x00, 0x00, 0x00, 0x01]);
    frame.extend_from_slice(&[0x00, 0x00, 0x00, 0x00]);
    frame.extend_from_slice(&[0x50, 0x02, 0x00, 0x10]);
    frame.extend_from_slice(&[0x00, 0x00, 0x00, 0x00]);
    frame.push(0xEE);
    let manifest = parse_ethernet(&frame).expect("the frame carries TCP");
    assert_eq!(manifest.ip.src, IpAddress::V6(0x2001_0000_0000_0000_0000_0000_0000_0001));
    assert_eq!(manifest.ip.dst, IpAddress::V6(0x2001_0000_0000_0000_0000_0000_0000_0002));
    assert_eq!(manifest.tcp.src, 443);
    assert_eq!(manifest.tcp.dst, 8443);
    assert_eq!(manifest.tcp.seq, 1);
    assert!(manifest.tcp.flags.syn);
    assert!(!manifest.tcp.flags.ack);
    assert_eq!(manifest.tcp_payload.as_slice(), &[0xEE]);
}

#[test]
fn rejects_what_is_not_tcp() {
    // An ARP frame is filtered out.
    let mut frame: Vec<u8> = Vec::new();
    frame.extend_from_slice(&[0x02, 0x00, 0x00, 0x00, 0x00, 0x01]);
    frame.extend_from_slice(&[0x02, 0x00, 0x00, 0x00, 0x00, 0x02]);
    frame.extend_from_slice(&[0x08, 0x06]);
    frame.extend_from_slice(&[0u8; 28]);
    assert!(parse_ethernet(&frame).is_none());

    // A truncated frame cannot be parsed at all.
    assert!(parse_ethernet(&[0x02, 0x00, 0x00]).is_none());

    // An IPv4 frame whose TCP header is cut short is rejected.
    let mut cut = ipv4_tcp_frame();
    cut.truncate(14 + 20 + 10);
    // Keep the total-length field consistent with the cut.
    cut[16] = 0x00;
    cut[17] = 30;
    assert!(parse_ethernet(&cut).is_none());
}
