use quvc::errors::TunnelError;
use quvc::frame::{assemble_packet, frame_payload_len, FRAME_HEADER_BYTES};

/// A packet whose declared total-length field (bytes 2 and 3, big-endian)
/// equals its byte count, with a recognizable payload.
fn wellformed_packet(total_len: usize) -> Vec<u8> {
    let mut p: Vec<u8> = (0..total_len).map(|i| (i % 251) as u8).collect();
    p[2] = (total_len >> 8) as u8;
    p[3] = (total_len & 0xFF) as u8;
    p
}

#[test]
fn frame_roundtrip_is_identity() {
    let p = wellformed_packet(40);
    let header: Vec<u8> = p[..FRAME_HEADER_BYTES].to_vec();
    let payload_len = frame_payload_len(&header).unwrap();
    assert_eq!(payload_len, 20);
    let payload: Vec<u8> = p[FRAME_HEADER_BYTES..FRAME_HEADER_BYTES + payload_len].to_vec();
    let rebuilt = assemble_packet(&header, &payload);
    assert_eq!(rebuilt, p);
}

#[test]
fn frame_header_only_roundtrip() {
    let p = wellformed_packet(20);
    let header: Vec<u8> = p.clone();
    assert_eq!(frame_payload_len(&header), Ok(0));
    let rebuilt = assemble_packet(&header, &Vec::new());
    assert_eq!(rebuilt, p);
}

#[test]
fn frame_mtu_sized_roundtrip() {
    let p = wellformed_packet(1500);
    let header: Vec<u8> = p[..20].to_vec();
    assert_eq!(frame_payload_len(&header), Ok(1480));
    let payload: Vec<u8> = p[20..].to_vec();
    assert_eq!(assemble_packet(&header, &payload), p);
}

#[test]
fn frame_declared_length_below_header_is_error() {
    let mut header = vec![0u8; 20];
    header[3] = 10;
    assert_eq!(frame_payload_len(&header), Err(TunnelError::Frame));
}

#[test]
fn frame_declared_length_of_19_is_error() {
    let mut header = vec![0u8; 20];
    header[3] = 19;
    assert_eq!(frame_payload_len(&header), Err(TunnelError::Frame));
}

#[test]
fn frame_declared_length_of_zero_is_error() {
    let header = vec![0u8; 20];
    assert_eq!(frame_payload_len(&header), Err(TunnelError::Frame));
}

#[test]
fn frame_declared_length_over_mtu_is_error() {
    let mut header = vec![0u8; 20];
    header[2] = (2000u16 >> 8) as u8;
    header[3] = (2000u16 & 0xFF) as u8;
    assert_eq!(frame_payload_len(&header), Err(TunnelError::Frame));
}

#[test]
fn assemble_concatenates_verbatim() {
    let header = vec![1u8, 2, 3];
    let payload = vec![9u8, 8];
    assert_eq!(assemble_packet(&header, &payload), vec![1u8, 2, 3, 9, 8]);
}
