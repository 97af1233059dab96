use quvc::classifier::FlowKey;
use quvc::flow_table::FlowTable;
use quvc::frame::{assemble_packet, frame_payload_len};
use quvc::outbound::{plan_outbound, OutboundAction};

/// An IPv4/TCP packet with a 5-word header, the fixed 4-tuple
/// (10.0.0.1, 10.0.0.2, 1234, 80), a correct total-length field, and the
/// given payload filler.
fn flow_packet(total_len: usize, filler: u8) -> Vec<u8> {
    let mut p = vec![filler; total_len];
    p[0] = 0x45;
    p[2] = (total_len >> 8) as u8;
    p[3] = (total_len & 0xFF) as u8;
    p[9] = 6;
    p[12..16].copy_from_slice(&[10, 0, 0, 1]);
    p[16..20].copy_from_slice(&[10, 0, 0, 2]);
    p[20] = (1234u16 >> 8) as u8;
    p[21] = (1234u16 & 0xFF) as u8;
    p[22] = 0;
    p[23] = 80;
    p
}

fn the_key() -> FlowKey {
    FlowKey { src_ip: 0x0A000001, dst_ip: 0x0A000002, src_port: 1234, dst_port: 80 }
}

#[test]
fn message_packet_plans_datagram() {
    let table = FlowTable::new();
    let mut p = flow_packet(40, 0);
    p[9] = 17; // not TCP
    assert_eq!(plan_outbound(&table, &p), OutboundAction::SendDatagram);
}

#[test]
fn first_flow_packet_plans_open() {
    let table = FlowTable::new();
    let p = flow_packet(40, 0);
    assert_eq!(plan_outbound(&table, &p), OutboundAction::OpenStream(the_key()));
}

#[test]
fn same_flow_shares_one_stream_in_order() {
    let mut table = FlowTable::new();
    let p1 = flow_packet(40, 0xAA);
    let p2 = flow_packet(60, 0x55);
    let mut writes: Vec<(u64, Vec<u8>)> = Vec::new();

    for p in [&p1, &p2] {
        match plan_outbound(&table, p) {
            OutboundAction::OpenStream(k) => {
                let id = table.record_opened(k);
                writes.push((id, p.clone()));
            }
            OutboundAction::WriteStream(id) => writes.push((id, p.clone())),
            OutboundAction::SendDatagram => panic!("flow packet planned as message"),
        }
    }

    assert_eq!(writes.len(), 2);
    assert_eq!(writes[0].0, writes[1].0);
    assert_eq!(writes[0].1, p1);
    assert_eq!(writes[1].1, p2);
}

#[test]
fn peer_reconstructs_flow_packets_byte_identical() {
    // The two packets of one flow, framed verbatim on their stream, decode
    // back in order to the identical bytes.
    let p1 = flow_packet(40, 0xAA);
    let p2 = flow_packet(60, 0x55);
    let mut stream_bytes: Vec<u8> = Vec::new();
    stream_bytes.extend_from_slice(&p1);
    stream_bytes.extend_from_slice(&p2);

    let mut decoded: Vec<Vec<u8>> = Vec::new();
    let mut off = 0;
    while off < stream_bytes.len() {
        let header: Vec<u8> = stream_bytes[off..off + 20].to_vec();
        let payload_len = frame_payload_len(&header).unwrap();
        let payload: Vec<u8> = stream_bytes[off + 20..off + 20 + payload_len].to_vec();
        decoded.push(assemble_packet(&header, &payload));
        off += 20 + payload_len;
    }

    assert_eq!(decoded, vec![p1, p2]);
}

#[test]
fn write_failure_triggers_exactly_one_reopen() {
    let mut table = FlowTable::new();
    let k = the_key();
    let p = flow_packet(40, 0);

    // First packet: open stream 0.
    assert_eq!(plan_outbound(&table, &p), OutboundAction::OpenStream(k));
    let first = table.record_opened(k);
    assert_eq!(first, 0);
    assert_eq!(plan_outbound(&table, &p), OutboundAction::WriteStream(0));

    // The write fails: the entry is cleared, the next packet asks for one
    // fresh stream, and after recording it no further open is asked for.
    table.write_failed(&k);
    assert_eq!(table.lookup_live(&k), None);
    assert_eq!(plan_outbound(&table, &p), OutboundAction::OpenStream(k));
    let second = table.record_opened(k);
    assert_ne!(second, first);
    assert_eq!(plan_outbound(&table, &p), OutboundAction::WriteStream(second));
    assert_eq!(plan_outbound(&table, &p), OutboundAction::WriteStream(second));
}

#[test]
fn two_flows_get_distinct_streams() {
    let mut table = FlowTable::new();
    let pa = flow_packet(40, 0);
    let mut pb = flow_packet(40, 0);
    pb[23] = 81; // different destination port: a different flow

    let ka = match plan_outbound(&table, &pa) {
        OutboundAction::OpenStream(k) => k,
        a => panic!("unexpected action {:?}", a),
    };
    let ida = table.record_opened(ka);
    let kb = match plan_outbound(&table, &pb) {
        OutboundAction::OpenStream(k) => k,
        a => panic!("unexpected action {:?}", a),
    };
    let idb = table.record_opened(kb);

    assert_ne!(ka, kb);
    assert_ne!(ida, idb);
    assert_eq!(plan_outbound(&table, &pa), OutboundAction::WriteStream(ida));
    assert_eq!(plan_outbound(&table, &pb), OutboundAction::WriteStream(idb));
}

#[test]
fn empty_table_has_no_live_streams() {
    let table = FlowTable::new();
    assert_eq!(table.lookup_live(&the_key()), None);
    assert!(table.can_open_more());
}
