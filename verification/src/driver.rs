//! Pipeline driver: per-session state and the per-frame step.
//!
//! The driver owns the reassembly buffer and the memory of the previous
//! frame's header.  For each raw frame while the session runs it extracts
//! the transport header (dropping the frame on failure), merges the payload
//! into the buffer — ahead of the unconsumed tail when the frame precedes
//! the remembered one from the same source, at the tail otherwise — and
//! scans for one complete message.  An incomplete scan just remembers the
//! header; a malformed one clears the buffer and forgets it; a complete
//! message consumes the buffer and, only when some listener is subscribed
//! to its event id, is decoded and handed to the dispatcher.  The blocking
//! pull from the capture collaborator, and the invocation of the returned
//! callbacks, stay with the caller that runs the loop.

use vstd::prelude::*;

use crate::bytes::copy_range;
use crate::decoder::decode_packet;
use crate::decoder::spec_decode_packet;
use crate::decoder::DecodeError;
use crate::decoder::Packet;
use crate::dispatcher::PacketListener;
use crate::framer::lemma_ready_fits;
use crate::framer::spec_framing;
use crate::framer::FramingResult;
use crate::framer::ParsedMetadata;
use crate::header::frame_parses;
use crate::header::spec_frame_body;
use crate::header::spec_seq_num;
use crate::header::spec_source_ip;
use crate::header::FrameHeader;
use crate::reassembly::ReassemblyBuffer;
use crate::schema::EventId;
use crate::schema::ProtocolManager;

verus! {

/// Lifecycle of one capture session; `Stopped` is terminal.
#[derive(Clone, Copy, Debug, PartialEq, Eq, Structural)]
pub enum SessionState {
    Idle,
    Running,
    Stopped,
}

/// Source identity and sequence number remembered from the previous frame,
/// the whole memory the bounded reorder heuristic uses.
#[derive(Clone, Copy, Debug, PartialEq, Eq, Structural)]
pub struct RememberedHeader {
    pub source_ip: u32,
    pub seq_num: u32,
}

/// What one frame did to the pipeline, and what the caller owes: for
/// `Dispatched`, invoking each returned callback once, in order, with the
/// packet and the session-shared state.
#[derive(Debug)]
pub enum FrameDisposition<L> {
    /// The session is not running; the frame was ignored.
    NotRunning,
    /// The frame's transport header did not parse; the frame was dropped
    /// and the buffer untouched.
    DroppedFrame,
    /// No complete message yet; the buffer keeps growing.
    AwaitingMore,
    /// Framing was unrecoverable; the buffer was cleared to resynchronize
    /// on the next frame.
    Resynchronized,
    /// A message was framed and consumed, but no listener is subscribed to
    /// its event id, so decoding was skipped.
    Skipped { id: EventId },
    /// A message was framed and consumed but could not be decoded; it was
    /// dropped without touching the (already cleared) buffer.
    Undecodable { id: EventId, error: DecodeError },
    /// A message was framed, consumed and decoded; the callbacks are every
    /// listener of its event id, in registration order.
    Dispatched { packet: Packet, listeners: Vec<L> },
}

/// Whether the reorder merge applies: the remembered previous frame came
/// from the same source and the new frame's sequence number precedes it.
pub open spec fn reorder_applies(last: Option<RememberedHeader>, ip: int, seq: int) -> bool {
    match last {
        Some(h) => h.source_ip == ip && seq < h.seq_num,
        None => false,
    }
}

/// The buffer contents after merging a frame's payload.
pub open spec fn spec_merged(
    buf: Seq<u8>,
    last: Option<RememberedHeader>,
    data: Seq<u8>,
) -> Seq<u8> {
    if reorder_applies(last, spec_source_ip(data), spec_seq_num(data)) {
        spec_frame_body(data) + buf
    } else {
        buf + spec_frame_body(data)
    }
}

/// Per-session pipeline state: the reassembly buffer, the remembered
/// previous header, and the session lifecycle state.
pub struct PipelineDriver {
    pub buffer: ReassemblyBuffer,
    pub last_header: Option<RememberedHeader>,
    pub state: SessionState,
}

impl PipelineDriver {
    /// A fresh, idle session with an empty buffer.
    pub fn new() -> (r: PipelineDriver)
        ensures
            r.buffer@ == Seq::<u8>::empty(),
            r.last_header is None,
            r.state == SessionState::Idle,
    {
        PipelineDriver {
            buffer: ReassemblyBuffer::new(),
            last_header: None,
            state: SessionState::Idle,
        }
    }

    /// Starts an idle session; a stopped session stays stopped, a running
    /// one stays running.
    pub fn start(&mut self)
        ensures
            final(self).state == (if old(self).state == SessionState::Idle {
                SessionState::Running
            } else {
                old(self).state
            }),
            final(self).buffer@ == old(self).buffer@,
            final(self).last_header == old(self).last_header,
    {
        if self.state == SessionState::Idle {
            self.state = SessionState::Running;
        }
    }

    /// Ends the session on end-of-stream or error from the capture
    /// collaborator: terminal, and no in-flight message is salvaged.
    pub fn stop(&mut self)
        ensures
            final(self).state == SessionState::Stopped,
            final(self).buffer@ == Seq::<u8>::empty(),
            final(self).last_header is None,
    {
        self.state = SessionState::Stopped;
        self.buffer.clear();
        self.last_header = None;
    }

    /// Processes one raw captured frame while the session runs.  The
    /// contract follows the frame through header extraction, the reorder
    /// decision, framing, and — only when a listener is subscribed —
    /// schema lookup and decoding.
    pub fn handle_frame<N, L: Copy>(
        &mut self,
        data: &Vec<u8>,
        catalog: &ProtocolManager,
        registry: &PacketListener<N, L>,
    ) -> (r: FrameDisposition<L>)
        requires
            catalog.wf(),
            old(self).buffer@.len() + data@.len() <= usize::MAX,
        ensures
            old(self).state != SessionState::Running ==> *final(self) == *old(self) && (r matches
            FrameDisposition::NotRunning),
            old(self).state == SessionState::Running ==> final(self).state
                == SessionState::Running,
            old(self).state == SessionState::Running && !frame_parses(data@) ==> {
                &&& final(self).buffer@ == old(self).buffer@
                &&& final(self).last_header == old(self).last_header
                &&& r matches FrameDisposition::DroppedFrame
            },
            old(self).state == SessionState::Running && frame_parses(data@) ==> {
                let merged = spec_merged(old(self).buffer@, old(self).last_header, data@);
                match spec_framing(merged) {
                    FramingResult::Incomplete => {
                        &&& final(self).buffer@ == merged
                        &&& final(self).last_header == Some(
                            RememberedHeader {
                                source_ip: spec_source_ip(data@) as u32,
                                seq_num: spec_seq_num(data@) as u32,
                            },
                        )
                        &&& r matches FrameDisposition::AwaitingMore
                    },
                    FramingResult::Malformed => {
                        &&& final(self).buffer@ == Seq::<u8>::empty()
                        &&& final(self).last_header is None
                        &&& r matches FrameDisposition::Resynchronized
                    },
                    FramingResult::Ready(md) => final(self).buffer@ == Seq::<u8>::empty() && (final(
                        self).last_header is None) && {
                        let body = merged.subrange(
                            md.header_len as int,
                            md.header_len + md.body_len,
                        );
                        if registry.subs(md.id).len() == 0 {
                            r matches FrameDisposition::Skipped { id } && id == md.id
                        } else if !catalog.id_map().contains_key(md.id) {
                            r matches FrameDisposition::Undecodable { id, error } && id == md.id
                                && error == DecodeError::MissingSchema
                        } else {
                            match spec_decode_packet(
                                md.id,
                                catalog.id_map()[md.id].attributes@,
                                body,
                            ) {
                                Ok(pm) => r matches FrameDisposition::Dispatched {
                                    packet,
                                    listeners,
                                } && packet.id == md.id && packet@.fields == pm.fields
                                    && listeners@ == registry.subs(md.id).map_values(
                                    |p: (Seq<char>, L)| p.1,
                                ),
                                Err(e) => r matches FrameDisposition::Undecodable { id, error }
                                    && id == md.id && error == e,
                            }
                        }
                    },
                }
            },
    {
        if self.state != SessionState::Running {
            return FrameDisposition::NotRunning;
        }
        let header = match FrameHeader::from_vec(data) {
            Some(h) => h,
            None => {
                return FrameDisposition::DroppedFrame;
            },
        };
        let reorder = match self.last_header {
            Some(last) => last.source_ip == header.source_ip && header.seq_num < last.seq_num,
            None => false,
        };
        if reorder {
            self.buffer.reorder_merge(&header.body);
        } else {
            self.buffer.append(&header.body);
        }
        match ParsedMetadata::from_buffer(self.buffer.remaining()) {
            FramingResult::Incomplete => {
                self.last_header = Some(
                    RememberedHeader { source_ip: header.source_ip, seq_num: header.seq_num },
                );
                FrameDisposition::AwaitingMore
            },
            FramingResult::Malformed => {
                self.buffer.clear();
                self.last_header = None;
                FrameDisposition::Resynchronized
            },
            FramingResult::Ready(md) => {
                proof {
                    lemma_ready_fits(self.buffer@, md);
                }
                let body = copy_range(self.buffer.remaining(), md.header_len, md.body_len);
                self.buffer.clear();
                self.last_header = None;
                if registry.has_subscriptions(&md.id) {
                    match catalog.get_event(&md.id) {
                        Some(event) => {
                            match decode_packet(md.id, &event.attributes, &body) {
                                Ok(packet) => {
                                    let listeners = registry.notify(&packet);
                                    FrameDisposition::Dispatched { packet, listeners }
                                },
                                Err(error) => FrameDisposition::Undecodable { id: md.id, error },
                            }
                        },
                        None => FrameDisposition::Undecodable {
                            id: md.id,
                            error: DecodeError::MissingSchema,
                        },
                    }
                } else {
                    FrameDisposition::Skipped { id: md.id }
                }
            },
        }
    }
}

} // verus!
