//! Packet classifier: a pure, stateless decision over a packet's bytes.
//!
//! A packet is a *flow packet* when it is structurally an IPv4/TCP packet with
//! enough bytes to read both addresses and both ports; its flow key is the
//! 4-tuple read big-endian from the header. Every other packet is a *message
//! packet* and travels on the transport's unreliable channel. The check is a
//! fast structural heuristic: it validates no checksums and never fails — a
//! packet that falls short anywhere simply takes the message path.

use vstd::prelude::*;

verus! {

/// Identifier of one TCP conversation: source and destination address and
/// port, as read big-endian from the packet header.
#[derive(PartialEq, Eq, Structural, Clone, Copy, Debug, Hash)]
pub struct FlowKey {
    pub src_ip: u32,
    pub dst_ip: u32,
    pub src_port: u16,
    pub dst_port: u16,
}

/// Where one outbound packet goes: a flow packet rides the reliable stream of
/// its key, a message packet rides the unreliable message channel.
#[derive(PartialEq, Eq, Structural, Clone, Copy, Debug)]
pub enum Classification {
    Flow(FlowKey),
    Message,
}

/// A 16-bit big-endian quantity from two bytes.
pub open spec fn be16(hi: u8, lo: u8) -> int {
    (hi as int) * 0x100 + (lo as int)
}

/// A 32-bit big-endian quantity from four bytes.
pub open spec fn be32(b0: u8, b1: u8, b2: u8, b3: u8) -> int {
    (b0 as int) * 0x1000000 + (b1 as int) * 0x10000 + (b2 as int) * 0x100 + (b3 as int)
}

/// Header length in bytes declared by the packet: the low nibble of byte 0,
/// counted in 32-bit words.
pub open spec fn spec_ihl(p: Seq<u8>) -> int {
    4 * ((p[0] as int) % 16)
}

/// The structural check: enough bytes for the fixed fields, IP version 4
/// (high nibble of byte 0), protocol number 6 (TCP, byte 9), enough bytes for
/// both port fields past the declared header, and enough bytes for the
/// address fields at offsets 12 to 19.
pub open spec fn is_flow_packet(p: Seq<u8>) -> bool {
    &&& p.len() >= 10
    &&& (p[0] as int) / 16 == 4
    &&& p[9] == 6
    &&& p.len() >= spec_ihl(p) + 4
    &&& p.len() >= 20
}

/// The key of a flow packet: addresses from bytes 12 to 19, ports from the
/// four bytes just past the declared header, all big-endian.
pub open spec fn spec_flow_key(p: Seq<u8>) -> FlowKey
    recommends
        is_flow_packet(p),
{
    FlowKey {
        src_ip: be32(p[12], p[13], p[14], p[15]) as u32,
        dst_ip: be32(p[16], p[17], p[18], p[19]) as u32,
        src_port: be16(p[spec_ihl(p)], p[spec_ihl(p) + 1]) as u16,
        dst_port: be16(p[spec_ihl(p) + 2], p[spec_ihl(p) + 3]) as u16,
    }
}

/// The whole classification decision as one mathematical function.
pub open spec fn spec_classify(p: Seq<u8>) -> Classification {
    if is_flow_packet(p) {
        Classification::Flow(spec_flow_key(p))
    } else {
        Classification::Message
    }
}

/// Classify one packet: a structurally valid IPv4/TCP packet yields its flow
/// key, anything else the message path. Total: no input is an error.
pub fn classify(packet: &Vec<u8>) -> (c: Classification)
    ensures
        c == spec_classify(packet@),
{
    let n = packet.len();
    if n >= 20 && packet[0] / 16 == 4 && packet[9] == 6 {
        let ihl: usize = 4 * ((packet[0] % 16) as usize);
        if n >= ihl + 4 {
            let src_ip: u32 = (packet[12] as u32) * 0x1000000 + (packet[13] as u32) * 0x10000
                + (packet[14] as u32) * 0x100 + (packet[15] as u32);
            let dst_ip: u32 = (packet[16] as u32) * 0x1000000 + (packet[17] as u32) * 0x10000
                + (packet[18] as u32) * 0x100 + (packet[19] as u32);
            let src_port: u16 = (packet[ihl] as u16) * 0x100 + (packet[ihl + 1] as u16);
            let dst_port: u16 = (packet[ihl + 2] as u16) * 0x100 + (packet[ihl + 3] as u16);
            return Classification::Flow(FlowKey { src_ip, dst_ip, src_port, dst_port });
        }
    }
    Classification::Message
}

/// How many leading bytes the classifier may read: the declared header plus
/// the port fields, and never less than the fixed address region.
pub open spec fn header_span(p: Seq<u8>) -> int {
    if spec_ihl(p) + 4 >= 20 {
        spec_ihl(p) + 4
    } else {
        20
    }
}

/// Classification is a pure function of the header bytes alone: any packet
/// that agrees with a flow packet on its header span — whatever its payload
/// or total length — is a flow packet with the same key.
pub proof fn lemma_classification_header_only(p1: Seq<u8>, p2: Seq<u8>)
    requires
        is_flow_packet(p1),
        p2.len() >= header_span(p1),
        forall|i: int| 0 <= i < header_span(p1) ==> p1[i] == p2[i],
    ensures
        is_flow_packet(p2),
        spec_classify(p2) == spec_classify(p1),
{
    assert(p1[0] == p2[0]);
    assert(p1[9] == p2[9]);
    assert(spec_ihl(p2) == spec_ihl(p1));
    assert(p1[12] == p2[12] && p1[13] == p2[13] && p1[14] == p2[14] && p1[15] == p2[15]);
    assert(p1[16] == p2[16] && p1[17] == p2[17] && p1[18] == p2[18] && p1[19] == p2[19]);
    assert(p1[spec_ihl(p1)] == p2[spec_ihl(p1)]);
    assert(p1[spec_ihl(p1) + 1] == p2[spec_ihl(p1) + 1]);
    assert(p1[spec_ihl(p1) + 2] == p2[spec_ihl(p1) + 2]);
    assert(p1[spec_ihl(p1) + 3] == p2[spec_ihl(p1) + 3]);
    assert(spec_flow_key(p2) == spec_flow_key(p1));
}

/// Every non-TCP or structurally invalid packet takes the message path —
/// classification is total and never an error.
pub proof fn lemma_invalid_packet_is_message(p: Seq<u8>)
    requires
        p.len() < 10 || (p[0] as int) / 16 != 4 || p[9] != 6 || p.len() < spec_ihl(p) + 4
            || p.len() < 20,
    ensures
        spec_classify(p) == Classification::Message,
{
}

} // verus!
