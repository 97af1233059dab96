use quvc::classifier::{classify, Classification, FlowKey};

/// A minimal IPv4/TCP packet: version 4, header length `ihl_words` 32-bit
/// words, protocol 6, the given addresses and ports, padded to `total_len`
/// bytes of zero payload.
fn tcp_packet(
    ihl_words: u8,
    src_ip: [u8; 4],
    dst_ip: [u8; 4],
    src_port: u16,
    dst_port: u16,
    total_len: usize,
) -> Vec<u8> {
    let mut p = vec![0u8; total_len];
    p[0] = 0x40 | (ihl_words & 0xF);
    p[2] = (total_len >> 8) as u8;
    p[3] = (total_len & 0xFF) as u8;
    p[9] = 6;
    p[12..16].copy_from_slice(&src_ip);
    p[16..20].copy_from_slice(&dst_ip);
    let ihl = 4 * ihl_words as usize;
    p[ihl] = (src_port >> 8) as u8;
    p[ihl + 1] = (src_port & 0xFF) as u8;
    p[ihl + 2] = (dst_port >> 8) as u8;
    p[ihl + 3] = (dst_port & 0xFF) as u8;
    p
}

#[test]
fn classify_tcp_packet_yields_key() {
    let p = tcp_packet(5, [10, 0, 0, 1], [10, 0, 0, 2], 1234, 80, 40);
    let expected = FlowKey {
        src_ip: 0x0A000001,
        dst_ip: 0x0A000002,
        src_port: 1234,
        dst_port: 80,
    };
    assert_eq!(classify(&p), Classification::Flow(expected));
}

#[test]
fn classify_ignores_payload() {
    let mut p1 = tcp_packet(5, [192, 168, 1, 1], [8, 8, 8, 8], 443, 55000, 100);
    let mut p2 = p1.clone();
    for i in 24..100 {
        p1[i] = 0xAA;
        p2[i] = 0x55;
    }
    let c1 = classify(&p1);
    let c2 = classify(&p2);
    assert_eq!(c1, c2);
    assert!(matches!(c1, Classification::Flow(_)));
}

#[test]
fn classify_non_tcp_is_message() {
    let mut p = tcp_packet(5, [10, 0, 0, 1], [10, 0, 0, 2], 1234, 80, 40);
    p[9] = 17; // UDP
    assert_eq!(classify(&p), Classification::Message);
}

#[test]
fn classify_non_ipv4_is_message() {
    let mut p = tcp_packet(5, [10, 0, 0, 1], [10, 0, 0, 2], 1234, 80, 40);
    p[0] = 0x65; // version 6
    assert_eq!(classify(&p), Classification::Message);
}

#[test]
fn classify_short_packet_is_message() {
    let p = vec![0x45u8; 9];
    assert_eq!(classify(&p), Classification::Message);
}

#[test]
fn classify_empty_packet_is_message() {
    let p: Vec<u8> = Vec::new();
    assert_eq!(classify(&p), Classification::Message);
}

#[test]
fn classify_short_for_ports_is_message() {
    // Declared header of 15 words needs 64 bytes for the ports; 40 are there.
    let mut p = tcp_packet(5, [10, 0, 0, 1], [10, 0, 0, 2], 1234, 80, 40);
    p[0] = 0x4F;
    assert_eq!(classify(&p), Classification::Message);
}

#[test]
fn classify_short_for_addresses_is_message() {
    // 12 bytes satisfy every declared length, but not the address fields at
    // offsets 12 to 19.
    let mut p = vec![0u8; 12];
    p[0] = 0x42;
    p[9] = 6;
    assert_eq!(classify(&p), Classification::Message);
}

#[test]
fn classify_exact_boundary_is_flow() {
    // Exactly ihl + 4 bytes: the ports are the last four bytes.
    let p = tcp_packet(5, [1, 2, 3, 4], [5, 6, 7, 8], 0xFFFF, 0, 24);
    let expected = FlowKey {
        src_ip: 0x01020304,
        dst_ip: 0x05060708,
        src_port: 0xFFFF,
        dst_port: 0,
    };
    assert_eq!(classify(&p), Classification::Flow(expected));
}

#[test]
fn classify_reads_ports_past_declared_header() {
    // A 6-word header: ports come from bytes 24 to 27, not 20 to 23.
    let p = tcp_packet(6, [10, 0, 0, 1], [10, 0, 0, 2], 7000, 7001, 40);
    let expected = FlowKey {
        src_ip: 0x0A000001,
        dst_ip: 0x0A000002,
        src_port: 7000,
        dst_port: 7001,
    };
    assert_eq!(classify(&p), Classification::Flow(expected));
}
