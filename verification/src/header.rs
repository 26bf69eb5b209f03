//! Frame header extractor: turns one raw captured frame into a source
//! identity, a per-source sequence number and a payload slice.
//!
//! A captured frame is an Ethernet frame carrying an IPv4 packet that
//! carries a TCP segment; the extractor reads the three transport headers
//! and slices the TCP payload out.  A frame that does not match this shape
//! is flagged so the pipeline can drop it; dropping a frame never touches
//! the reassembly buffer.

use vstd::prelude::*;

use crate::bytes::be_bytes_val;
use crate::bytes::be_value_at;
use crate::bytes::copy_range;

verus! {

/// Source identity, sequence number and payload of one captured frame.
#[derive(Debug)]
pub struct FrameHeader {
    /// IPv4 source address, as a big-endian 32-bit value.
    pub source_ip: u32,
    /// TCP sequence number, monotonic per source within a session.
    pub seq_num: u32,
    /// TCP payload: the stream bytes this frame contributes.
    pub body: Vec<u8>,
}

/// Length of the Ethernet header.
pub const ETHERNET_LEN: usize = 14;

/// IPv4 header length in bytes, read from the IHL field.
pub open spec fn spec_ip_header_len(d: Seq<u8>) -> int {
    (d[14] & 0x0f) * 4
}

/// Offset of the TCP header within the frame.
pub open spec fn spec_tcp_start(d: Seq<u8>) -> int {
    14 + spec_ip_header_len(d)
}

/// TCP header length in bytes, read from the data-offset field.
pub open spec fn spec_tcp_header_len(d: Seq<u8>) -> int {
    (d[spec_tcp_start(d) + 12] >> 4) * 4
}

/// Total length of the IPv4 packet, from its length field.
pub open spec fn spec_ip_total_len(d: Seq<u8>) -> int {
    be_bytes_val(d.subrange(16, 18))
}

/// Whether the raw bytes hold a well-formed Ethernet + IPv4 + TCP frame:
/// IPv4 ethertype, version 4, a plausible IP header length, TCP protocol,
/// a plausible TCP data offset, and a packet length that fits the capture.
pub open spec fn frame_parses(d: Seq<u8>) -> bool {
    &&& d.len() >= 34
    &&& d[12] == 0x08
    &&& d[13] == 0x00
    &&& (d[14] >> 4) == 4
    &&& spec_ip_header_len(d) >= 20
    &&& d[23] == 6
    &&& d.len() >= spec_tcp_start(d) + 20
    &&& spec_tcp_header_len(d) >= 20
    &&& spec_ip_total_len(d) >= spec_ip_header_len(d) + spec_tcp_header_len(d)
    &&& d.len() >= 14 + spec_ip_total_len(d)
}

/// IPv4 source address of a well-formed frame.
pub open spec fn spec_source_ip(d: Seq<u8>) -> int {
    be_bytes_val(d.subrange(26, 30))
}

/// TCP sequence number of a well-formed frame.
pub open spec fn spec_seq_num(d: Seq<u8>) -> int {
    be_bytes_val(d.subrange(spec_tcp_start(d) + 4, spec_tcp_start(d) + 8))
}

/// TCP payload of a well-formed frame: the bytes between the end of the TCP
/// header and the end of the IPv4 packet.
pub open spec fn spec_frame_body(d: Seq<u8>) -> Seq<u8> {
    d.subrange(spec_tcp_start(d) + spec_tcp_header_len(d), 14 + spec_ip_total_len(d))
}

impl FrameHeader {
    /// Parses one raw captured frame.  Returns `None` exactly when the
    /// bytes do not hold a well-formed transport header; such a frame is
    /// dropped by the pipeline.
    pub fn from_vec(data: &Vec<u8>) -> (r: Option<FrameHeader>)
        ensures
            r.is_some() == frame_parses(data@),
            r.is_some() ==> r.unwrap().source_ip == spec_source_ip(data@),
            r.is_some() ==> r.unwrap().seq_num == spec_seq_num(data@),
            r.is_some() ==> r.unwrap().body@ == spec_frame_body(data@),
    {
        if data.len() < 34 {
            return None;
        }
        if data[12] != 0x08 || data[13] != 0x00 {
            return None;
        }
        let vihl = data[14];
        if (vihl >> 4) != 4 {
            return None;
        }
        let ip_header_len: usize = ((vihl & 0x0f) as usize) * 4;
        if ip_header_len < 20 {
            return None;
        }
        if data[23] != 6 {
            return None;
        }
        let tcp_start = 14 + ip_header_len;
        if data.len() < tcp_start + 20 {
            return None;
        }
        let tcp_header_len: usize = ((data[tcp_start + 12] >> 4) as usize) * 4;
        if tcp_header_len < 20 {
            return None;
        }
        let total = be_value_at(data, 16, 2) as usize;
        proof {
            crate::bytes::lemma_be_bytes_val_bound(data@.subrange(16, 18));
        }
        if total < ip_header_len + tcp_header_len {
            return None;
        }
        if data.len() < 14 + total {
            return None;
        }
        let source_ip = be_value_at(data, 26, 4);
        let seq_num = be_value_at(data, tcp_start + 4, 4);
        let body_start = tcp_start + tcp_header_len;
        let body = copy_range(data, body_start, 14 + total - body_start);
        Some(FrameHeader { source_ip, seq_num, body })
    }
}

} // verus!
