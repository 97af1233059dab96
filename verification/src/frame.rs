//! Inbound frame codec.
//!
//! A frame on an inbound stream is the packet itself: its first 20 bytes are
//! the verbatim packet header, carrying at bytes 2 and 3 a big-endian 16-bit
//! total-length field, and the remaining `total_length - 20` bytes follow.
//! The decoder reads the fixed header, learns the payload length from it,
//! reads that many more bytes, and reassembles the packet. A declared length
//! shorter than the header, or larger than one interface read unit, is a
//! frame error confined to that one stream.

use vstd::prelude::*;

use crate::errors::TunnelError;
use crate::MTU;

verus! {

/// Bytes of the fixed frame header: the packet's own header, read first.
pub const FRAME_HEADER_BYTES: usize = 20;

/// Total length declared by a frame header: the big-endian 16-bit field at
/// bytes 2 and 3.
pub open spec fn spec_total_length(h: Seq<u8>) -> int
    recommends
        h.len() >= 4,
{
    (h[2] as int) * 0x100 + (h[3] as int)
}

/// A frame header is acceptable when the declared total length covers at
/// least the header itself and fits in one interface read unit.
pub open spec fn frame_header_ok(h: Seq<u8>) -> bool
    recommends
        h.len() >= 4,
{
    FRAME_HEADER_BYTES <= spec_total_length(h) <= MTU
}

/// How many payload bytes follow an acceptable frame header; a declared
/// length below the header size or above one read unit is a frame error.
pub fn frame_payload_len(header: &Vec<u8>) -> (r: Result<usize, TunnelError>)
    requires
        header@.len() >= 4,
    ensures
        frame_header_ok(header@) ==> r == Ok::<usize, TunnelError>(
            (spec_total_length(header@) - FRAME_HEADER_BYTES) as usize,
        ),
        !frame_header_ok(header@) ==> r == Err::<usize, TunnelError>(TunnelError::Frame),
{
    let total: usize = (header[2] as usize) * 0x100 + (header[3] as usize);
    if FRAME_HEADER_BYTES <= total && total <= MTU {
        Ok(total - FRAME_HEADER_BYTES)
    } else {
        Err(TunnelError::Frame)
    }
}

/// Reassemble one packet from its header bytes and its payload bytes, as one
/// contiguous unit to hand to the interface in a single write.
pub fn assemble_packet(header: &Vec<u8>, payload: &Vec<u8>) -> (p: Vec<u8>)
    requires
        header@.len() + payload@.len() <= usize::MAX,
    ensures
        p@ == header@ + payload@,
{
    let mut out: Vec<u8> = Vec::new();
    let mut i: usize = 0;
    while i < header.len()
        invariant
            i <= header@.len(),
            out@ == header@.take(i as int),
            header@.len() + payload@.len() <= usize::MAX,
        decreases header@.len() - i,
    {
        out.push(header[i]);
        i = i + 1;
        assert(out@ =~= header@.take(i as int));
    }
    assert(out@ =~= header@);
    let mut j: usize = 0;
    while j < payload.len()
        invariant
            j <= payload@.len(),
            out@ == header@ + payload@.take(j as int),
            header@.len() + payload@.len() <= usize::MAX,
        decreases payload@.len() - j,
    {
        out.push(payload[j]);
        j = j + 1;
        assert(out@ =~= header@ + payload@.take(j as int));
    }
    assert(out@ =~= header@ + payload@);
    out
}

/// A packet is a well-formed frame when its declared total length equals its
/// byte count: such a packet, written verbatim to a stream, is exactly one
/// frame.
pub open spec fn wellformed_frame(p: Seq<u8>) -> bool {
    &&& p.len() >= FRAME_HEADER_BYTES
    &&& p.len() <= MTU
    &&& spec_total_length(p) == p.len()
}

/// What repeated decoding makes of a whole inbound stream's bytes: while a
/// full frame with an acceptable declared length is there, take it whole and
/// go on; a short or malformed remainder ends decoding — only this stream's
/// task stops, nothing is delivered from the bad tail.
pub open spec fn spec_decode_stream(b: Seq<u8>) -> Seq<Seq<u8>>
    decreases b.len(),
{
    if b.len() < FRAME_HEADER_BYTES {
        Seq::empty()
    } else if !frame_header_ok(b) {
        Seq::empty()
    } else if b.len() < spec_total_length(b) {
        Seq::empty()
    } else {
        seq![b.take(spec_total_length(b))] + spec_decode_stream(b.skip(spec_total_length(b)))
    }
}

/// The bytes of a sequence of packets written back to back onto one stream.
pub open spec fn concat_of(ps: Seq<Seq<u8>>) -> Seq<u8>
    decreases ps.len(),
{
    if ps.len() == 0 {
        Seq::empty()
    } else {
        ps[0] + concat_of(ps.drop_first())
    }
}

/// Stream round trip: any number of well-formed packets, framed verbatim and
/// back to back onto one stream, decode back to exactly those packets, in
/// order, byte-identical.
pub proof fn lemma_stream_round_trip(ps: Seq<Seq<u8>>)
    requires
        forall|i: int| 0 <= i < ps.len() ==> wellformed_frame(#[trigger] ps[i]),
    ensures
        spec_decode_stream(concat_of(ps)) == ps,
    decreases ps.len(),
{
    if ps.len() == 0 {
        assert(concat_of(ps).len() == 0);
        assert(spec_decode_stream(concat_of(ps)) =~= ps);
    } else {
        let p = ps[0];
        let rest = ps.drop_first();
        let b = concat_of(ps);
        assert(wellformed_frame(p));
        assert(b == p + concat_of(rest));
        assert(b[2] == p[2] && b[3] == p[3]);
        assert(spec_total_length(b) == p.len());
        assert(b.take(p.len() as int) =~= p);
        assert(b.skip(p.len() as int) =~= concat_of(rest));
        assert forall|i: int| 0 <= i < rest.len() implies wellformed_frame(#[trigger] rest[i]) by {
            assert(rest[i] == ps[i + 1]);
        }
        lemma_stream_round_trip(rest);
        assert(spec_decode_stream(b) =~= seq![p] + rest);
        assert(seq![p] + rest =~= ps);
    }
}

/// Round trip: a well-formed packet framed onto a stream decodes back to the
/// identical bytes — the header the decoder reads is acceptable, the payload
/// length it computes is exactly what follows, and header plus payload are
/// the original packet.
pub proof fn lemma_frame_round_trip(p: Seq<u8>)
    requires
        wellformed_frame(p),
    ensures
        frame_header_ok(p.take(FRAME_HEADER_BYTES as int)),
        spec_total_length(p.take(FRAME_HEADER_BYTES as int)) - FRAME_HEADER_BYTES == p.skip(
            FRAME_HEADER_BYTES as int,
        ).len(),
        p.take(FRAME_HEADER_BYTES as int) + p.skip(FRAME_HEADER_BYTES as int) == p,
{
    assert(p.take(FRAME_HEADER_BYTES as int)[2] == p[2]);
    assert(p.take(FRAME_HEADER_BYTES as int)[3] == p[3]);
    assert(p.take(FRAME_HEADER_BYTES as int) + p.skip(FRAME_HEADER_BYTES as int) =~= p);
}

} // verus!
