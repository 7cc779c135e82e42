//! Per-connection channel logic: reassembly of fragmented messages,
//! framing-mode negotiation, keepalive replies, and the routing of inbound
//! frames.
//!
//! Everything here is a decision function: the embedding application owns
//! the socket, the timers and the queues, performs each action this module
//! decides, and hands the outcome back.

use vstd::prelude::*;

use crate::ember::EmberPacket;
use crate::glow::concat_payloads;
use crate::s101::{EscapingS101Frame, Flags, NonEscapingS101Frame, S101Frame, S101FrameModel};

verus! {

// ---------------------------------------------------------------------------
// Reassembly
// ---------------------------------------------------------------------------
/// The per-connection buffer of partial fragments awaiting their last
/// packet.
pub struct ReassemblyBuffer {
    parts: Vec<EmberPacket>,
}

impl ReassemblyBuffer {
    /// The buffered fragments, in arrival order.
    pub closed spec fn spec_parts(&self) -> Seq<EmberPacket> {
        self.parts@
    }

    pub fn new() -> (r: ReassemblyBuffer)
        ensures
            r.spec_parts().len() == 0,
    {
        ReassemblyBuffer { parts: Vec::new() }
    }

    pub fn len(&self) -> (r: usize)
        ensures
            r == self.spec_parts().len(),
    {
        self.parts.len()
    }

    /// Feeds one arrived packet into the buffer. A completed message comes
    /// back as its reassembled payload bytes, ready for the BER decoder:
    /// a single packet completes at once (dropping any partial message), a
    /// first packet opens a fresh message (dropping any partial one), a
    /// middle packet extends an open message and is dropped without one, a
    /// last packet completes the open message, and an empty packet does
    /// nothing.
    pub fn push(&mut self, packet: EmberPacket) -> (r: Option<Vec<u8>>)
        ensures
            packet@.flag == Flags::SinglePacket ==> (final(self).spec_parts().len() == 0 && (
            r matches Some(payload) && payload@ == packet@.payload)),
            packet@.flag == Flags::MultiPacketFirst ==> (final(self).spec_parts() == seq![packet]
                && r is None),
            packet@.flag == Flags::MultiPacket ==> r is None && final(self).spec_parts() == (if old(
                self,
            ).spec_parts().len() == 0 {
                Seq::<EmberPacket>::empty()
            } else {
                old(self).spec_parts().push(packet)
            }),
            packet@.flag == Flags::MultiPacketLast ==> (final(self).spec_parts().len() == 0 && (
            if old(self).spec_parts().len() == 0 {
                r is None
            } else {
                r matches Some(payload) && payload@ == concat_payloads(
                    old(self).spec_parts().push(packet),
                )
            })),
            packet@.flag == Flags::EmptyPacket ==> (r is None && final(self).spec_parts() == old(
                self,
            ).spec_parts()),
    {
        match packet.flag() {
            Flags::SinglePacket => {
                if self.parts.len() > 0 {
                    // a partial message was pending: discard it
                    self.parts.clear();
                }
                let payload = packet.payload().clone();
                proof {
                    assert(payload@ =~= packet@.payload);
                }
                Some(payload)
            },
            Flags::MultiPacketFirst => {
                if self.parts.len() > 0 {
                    // a partial message was pending: discard it
                    self.parts.clear();
                }
                self.parts.push(packet);
                proof {
                    assert(final(self).spec_parts() =~= seq![packet]);
                }
                None
            },
            Flags::MultiPacket => {
                if self.parts.len() == 0 {
                    // an intermediate part with no opening packet: discard
                    return None;
                }
                self.parts.push(packet);
                None
            },
            Flags::MultiPacketLast => {
                if self.parts.len() == 0 {
                    // a closing part with no opening packet: discard
                    return None;
                }
                self.parts.push(packet);
                let payload = crate::glow::from_packets(self.parts.as_slice());
                self.parts.clear();
                Some(payload)
            },
            Flags::EmptyPacket => None,
        }
    }
}

// ---------------------------------------------------------------------------
// Framing negotiation
// ---------------------------------------------------------------------------
/// How many times a client probes for non-escaping framing before settling
/// on escaping.
pub const MAX_NEGOTIATION_ATTEMPTS: u8 = 3;

/// The client-side framing negotiation: a non-escaping keepalive request is
/// sent and the first decoded response settles the mode; after three
/// unanswered probes the client settles on escaping.
pub struct FramingNegotiation {
    attempts: u8,
}

impl FramingNegotiation {
    pub closed spec fn spec_attempts(&self) -> u8 {
        self.attempts
    }

    pub fn new() -> (r: FramingNegotiation)
        ensures
            r.spec_attempts() == 0,
    {
        FramingNegotiation { attempts: 0 }
    }

    /// Whether to stop probing and settle on escaping framing.
    pub fn give_up(&self) -> (r: bool)
        ensures
            r == (self.spec_attempts() >= MAX_NEGOTIATION_ATTEMPTS),
    {
        self.attempts >= MAX_NEGOTIATION_ATTEMPTS
    }

    /// One probe went unanswered.
    pub fn on_timeout(&mut self)
        requires
            old(self).spec_attempts() < MAX_NEGOTIATION_ATTEMPTS,
        ensures
            final(self).spec_attempts() == old(self).spec_attempts() + 1,
    {
        self.attempts += 1;
    }

    /// A response arrived: the connection commits to the framing the
    /// response itself used, whatever was probed.
    pub fn on_response(&self, frame: &S101Frame) -> (use_non_escaping: bool)
        ensures
            use_non_escaping == (frame@ is NonEscaping),
    {
        frame.is_non_escaping()
    }

    /// The probe frame: a keepalive request in non-escaping framing.
    pub fn probe() -> (r: S101Frame)
        ensures
            r@ == S101FrameModel::NonEscaping(crate::s101::FrameModel::KeepaliveRequest),
    {
        S101Frame::NonEscaping(NonEscapingS101Frame::KeepaliveRequest)
    }
}

// ---------------------------------------------------------------------------
// Keepalive
// ---------------------------------------------------------------------------
/// The keepalive request frame in the connection's framing mode.
pub fn keepalive_request(use_non_escaping: bool) -> (r: S101Frame)
    ensures
        r@ == if use_non_escaping {
            S101FrameModel::NonEscaping(crate::s101::FrameModel::KeepaliveRequest)
        } else {
            S101FrameModel::Escaping(crate::s101::FrameModel::KeepaliveRequest)
        },
{
    if use_non_escaping {
        S101Frame::NonEscaping(NonEscapingS101Frame::KeepaliveRequest)
    } else {
        S101Frame::Escaping(EscapingS101Frame::KeepaliveRequest)
    }
}

/// The keepalive response frame in the connection's framing mode.
pub fn keepalive_response(use_non_escaping: bool) -> (r: S101Frame)
    ensures
        r@ == if use_non_escaping {
            S101FrameModel::NonEscaping(crate::s101::FrameModel::KeepaliveResponse)
        } else {
            S101FrameModel::Escaping(crate::s101::FrameModel::KeepaliveResponse)
        },
{
    if use_non_escaping {
        S101Frame::NonEscaping(NonEscapingS101Frame::KeepaliveResponse)
    } else {
        S101Frame::Escaping(EscapingS101Frame::KeepaliveResponse)
    }
}

/// Wraps an outbound packet in the connection's framing mode.
pub fn frame_packet(packet: EmberPacket, use_non_escaping: bool) -> (r: S101Frame)
    ensures
        r@ == if use_non_escaping {
            S101FrameModel::NonEscaping(crate::s101::FrameModel::EmberPacket(packet@))
        } else {
            S101FrameModel::Escaping(crate::s101::FrameModel::EmberPacket(packet@))
        },
{
    if use_non_escaping {
        S101Frame::NonEscaping(NonEscapingS101Frame::EmberPacket(packet))
    } else {
        S101Frame::Escaping(EscapingS101Frame::EmberPacket(packet))
    }
}

// ---------------------------------------------------------------------------
// Inbound frame routing
// ---------------------------------------------------------------------------
/// What the reader does with one decoded frame: answer a keepalive request,
/// drop a keepalive response, or hand the carried packet onward.
#[derive(Debug, PartialEq)]
pub enum FrameDisposition {
    RespondKeepalive,
    Ignore,
    Deliver(EmberPacket),
}

/// Routes one decoded inbound frame: a keepalive request earns a response,
/// a keepalive response is noted and dropped, and a carried packet goes to
/// reassembly.
pub fn route_frame(frame: S101Frame) -> (r: FrameDisposition)
    ensures
        r == match frame@ {
            S101FrameModel::Escaping(m) => match m {
                crate::s101::FrameModel::KeepaliveRequest => FrameDisposition::RespondKeepalive,
                crate::s101::FrameModel::KeepaliveResponse => FrameDisposition::Ignore,
                crate::s101::FrameModel::EmberPacket(_) => r,
            },
            S101FrameModel::NonEscaping(m) => match m {
                crate::s101::FrameModel::KeepaliveRequest => FrameDisposition::RespondKeepalive,
                crate::s101::FrameModel::KeepaliveResponse => FrameDisposition::Ignore,
                crate::s101::FrameModel::EmberPacket(_) => r,
            },
        },
        (r matches FrameDisposition::Deliver(p)) <==> (match frame@ {
            S101FrameModel::Escaping(m) => m is EmberPacket,
            S101FrameModel::NonEscaping(m) => m is EmberPacket,
        }),
        r matches FrameDisposition::Deliver(p) ==> match frame@ {
            S101FrameModel::Escaping(m) => m == crate::s101::FrameModel::EmberPacket(p@),
            S101FrameModel::NonEscaping(m) => m == crate::s101::FrameModel::EmberPacket(p@),
        },
{
    match frame {
        S101Frame::Escaping(EscapingS101Frame::KeepaliveRequest)
        | S101Frame::NonEscaping(NonEscapingS101Frame::KeepaliveRequest) => {
            FrameDisposition::RespondKeepalive
        },
        S101Frame::Escaping(EscapingS101Frame::KeepaliveResponse)
        | S101Frame::NonEscaping(NonEscapingS101Frame::KeepaliveResponse) => {
            FrameDisposition::Ignore
        },
        S101Frame::Escaping(EscapingS101Frame::EmberPacket(p))
        | S101Frame::NonEscaping(NonEscapingS101Frame::EmberPacket(p)) => {
            FrameDisposition::Deliver(p)
        },
    }
}

} // verus!
