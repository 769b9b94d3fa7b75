use vstd::prelude::*;

use crate::types::Segment;
use pnet::packet::tcp::TcpPacket;
use pnet::packet::Packet;

verus! {

/// The big-endian 16-bit field at byte offset `i`.
pub open spec fn be16_at(b: Seq<u8>, i: int) -> int {
    b[i] * 0x100 + b[i + 1]
}

/// The big-endian 32-bit field at byte offset `i`.
pub open spec fn be32_at(b: Seq<u8>, i: int) -> int {
    b[i] * 0x100_0000 + b[i + 1] * 0x1_0000 + b[i + 2] * 0x100 + b[i + 3]
}

/// The header length in bytes claimed by the data-offset nibble; a value
/// below the fixed header is read as the fixed header alone.
pub open spec fn payload_start(b: Seq<u8>) -> int {
    if b[12] / 16 > 5 {
        (b[12] / 16) * 4
    } else {
        20
    }
}

/// The payload bytes: what lies past the claimed header, empty when the
/// buffer ends before it.
pub open spec fn payload_of(b: Seq<u8>) -> Seq<u8> {
    if b.len() <= payload_start(b) {
        Seq::empty()
    } else {
        b.subrange(payload_start(b), b.len() as int)
    }
}

/// Relies on `pnet_packet::tcp::TcpPacket`: `new` returns `Some` exactly
/// when the buffer holds the 20 fixed header bytes; the generated accessors
/// (`get_source`, `get_destination`, `get_sequence`, `get_acknowledgement`,
/// `get_flags`, `get_window`) read the big-endian fields at their fixed
/// offsets, with the flags in byte 13; `Packet::payload` is the suffix
/// after `4 * data_offset` bytes of header (at least the fixed 20), empty
/// when the buffer ends before that.
#[verifier::external_body]
pub fn parse_tcp_segment(bytes: &Vec<u8>) -> (r: Option<Segment>)
    ensures
        r is None <==> bytes@.len() < 20,
        r matches Some(seg) ==> {
            &&& seg.src_port as int == be16_at(bytes@, 0)
            &&& seg.dst_port as int == be16_at(bytes@, 2)
            &&& seg.seq as int == be32_at(bytes@, 4)
            &&& seg.ack as int == be32_at(bytes@, 8)
            &&& seg.flags == bytes@[13]
            &&& seg.window as int == be16_at(bytes@, 14)
            &&& seg.payload@ == payload_of(bytes@)
        },
{
    match TcpPacket::new(bytes.as_slice()) {
        None => None,
        Some(p) => Some(Segment {
            src_port: p.get_source(),
            dst_port: p.get_destination(),
            seq: p.get_sequence(),
            ack: p.get_acknowledgement(),
            flags: p.get_flags(),
            window: p.get_window(),
            payload: p.payload().to_vec(),
        }),
    }
}

} // verus!
