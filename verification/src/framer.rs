//! Message framer: scans the reassembly buffer for one complete framed
//! message.
//!
//! A framed message starts with a two-byte big-endian word whose upper 14
//! bits are the event id and whose lower 2 bits say how many bytes of
//! big-endian body length follow (0 to 3); the body comes right after the
//! length bytes.  The framer re-scans the full buffer on every call and
//! never mutates it; clearing or keeping the buffer is the pipeline
//! driver's decision.

use vstd::prelude::*;

use crate::bytes::be_bytes_val;
use crate::bytes::be_value_at;
use crate::bytes::lemma_be_bytes_val_bound;
use crate::schema::EventId;

verus! {

/// Upper bound on a credible body length; a declared length beyond it means
/// the stream lost synchronization and framing cannot recover from the
/// current buffer contents.
pub const MAX_BODY_LEN: usize = 1048576;

/// Where one complete message sits in the buffer: its event id, the number
/// of leading header bytes, and the body length that follows them.
#[derive(Clone, Copy, Debug, PartialEq, Eq, Structural)]
pub struct ParsedMetadata {
    /// Event id carried in the frame word.
    pub id: EventId,
    /// Bytes taken by the frame word and the length field.
    pub header_len: usize,
    /// Bytes taken by the message body, right after the header.
    pub body_len: usize,
}

/// Outcome of one framing scan.
#[derive(Clone, Copy, Debug, PartialEq, Eq, Structural)]
pub enum FramingResult {
    /// Exactly one complete message was identified.
    Ready(ParsedMetadata),
    /// Not enough bytes yet; the caller keeps the buffer and awaits more.
    Incomplete,
    /// Framing cannot recover from the current buffer contents; the caller
    /// must clear the buffer.
    Malformed,
}

/// The framing outcome for given buffer contents.
pub open spec fn spec_framing(buf: Seq<u8>) -> FramingResult {
    if buf.len() < 2 {
        FramingResult::Incomplete
    } else {
        let word = buf[0] * 256 + buf[1];
        let len_type = word % 4;
        if buf.len() < 2 + len_type {
            FramingResult::Incomplete
        } else {
            let body_len = be_bytes_val(buf.subrange(2, 2 + len_type));
            if body_len > MAX_BODY_LEN {
                FramingResult::Malformed
            } else if buf.len() < 2 + len_type + body_len {
                FramingResult::Incomplete
            } else {
                FramingResult::Ready(
                    ParsedMetadata {
                        id: (word / 4) as u16,
                        header_len: (2 + len_type) as usize,
                        body_len: body_len as usize,
                    },
                )
            }
        }
    }
}

/// A `Ready` outcome always fits inside the buffer it was scanned from.
pub proof fn lemma_ready_fits(buf: Seq<u8>, md: ParsedMetadata)
    requires
        spec_framing(buf) == FramingResult::Ready(md),
    ensures
        md.header_len + md.body_len <= buf.len(),
        2 <= md.header_len <= 5,
{
    let word = buf[0] * 256 + buf[1];
    let len_type = word % 4;
    lemma_be_bytes_val_bound(buf.subrange(2, 2 + len_type));
}

impl ParsedMetadata {
    /// Scans the full buffer contents for one complete framed message.
    /// The scan is restartable: a growing buffer can be re-scanned until
    /// the outcome is no longer `Incomplete`.
    pub fn from_buffer(buf: &Vec<u8>) -> (r: FramingResult)
        ensures
            r == spec_framing(buf@),
    {
        let buf_len = buf.len();
        if buf_len < 2 {
            return FramingResult::Incomplete;
        }
        let word: u32 = (buf[0] as u32) * 256 + (buf[1] as u32);
        let len_type = (word % 4) as usize;
        if buf_len < 2 + len_type {
            return FramingResult::Incomplete;
        }
        let body_len = be_value_at(buf, 2, len_type) as usize;
        proof {
            lemma_be_bytes_val_bound(buf@.subrange(2, 2 + len_type as int));
        }
        if body_len > MAX_BODY_LEN {
            return FramingResult::Malformed;
        }
        if buf_len < 2 + len_type + body_len {
            return FramingResult::Incomplete;
        }
        FramingResult::Ready(
            ParsedMetadata { id: (word / 4) as u16, header_len: 2 + len_type, body_len },
        )
    }
}

} // verus!
