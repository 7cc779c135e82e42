//! S101 byte framing: the escaping and the non-escaping form, with CRC-16
//! integrity for the escaping form.
//!
//! Both framings carry the same logical content: a four byte header
//! `[slot, message type, command, version]` followed by a Glow packet for
//! command `0x00`, or nothing for the keepalive commands `0x01` / `0x02`.

use vstd::prelude::*;

use crate::ember::{packet_bytes, EmberPacket, PacketModel};
use crate::error::EmberError;

verus! {

pub const BOF: u8 = 0xFE;
pub const EOF: u8 = 0xFF;
pub const CE: u8 = 0xFD;
pub const XOR: u8 = 0x20;
pub const BOFNE: u8 = 0xF8;
pub const CRC_SEED: u16 = 0xFFFF;
pub const CRC_CHECK: u16 = 0xF0B8;
pub const SLOT_IDENTIFIER: u8 = 0x00;
pub const MESSAGE_TYPE: u8 = 0x0E;
pub const COMMAND_EMBER_PACKET: u8 = 0x00;
pub const COMMAND_KEEPALIVE_REQUEST: u8 = 0x01;
pub const COMMAND_KEEPALIVE_RESPONSE: u8 = 0x02;
pub const VERSION: u8 = 0x01;
pub const FLAG_SINGLE_PACKET: u8 = 0xC0;
pub const FLAG_MULTI_PACKET_FIRST: u8 = 0x80;
pub const FLAG_MULTI_PACKET_LAST: u8 = 0x40;
pub const FLAG_EMPTY_PACKET: u8 = 0x20;
pub const FLAG_MULTI_PACKET: u8 = 0x00;

/// Position of a Glow packet within a fragmented message.
#[derive(Debug, Clone, Copy, PartialEq, Eq, Structural)]
pub enum Flags {
    SinglePacket,
    MultiPacketFirst,
    MultiPacket,
    MultiPacketLast,
    EmptyPacket,
}

/// The wire byte of each position flag.
pub open spec fn flag_code(f: Flags) -> u8 {
    match f {
        Flags::SinglePacket => FLAG_SINGLE_PACKET,
        Flags::MultiPacketFirst => FLAG_MULTI_PACKET_FIRST,
        Flags::MultiPacket => FLAG_MULTI_PACKET,
        Flags::MultiPacketLast => FLAG_MULTI_PACKET_LAST,
        Flags::EmptyPacket => FLAG_EMPTY_PACKET,
    }
}

impl Flags {
    /// The wire byte of this position flag.
    pub fn code(&self) -> (r: u8)
        ensures
            r == flag_code(*self),
    {
        match self {
            Flags::SinglePacket => FLAG_SINGLE_PACKET,
            Flags::MultiPacketFirst => FLAG_MULTI_PACKET_FIRST,
            Flags::MultiPacket => FLAG_MULTI_PACKET,
            Flags::MultiPacketLast => FLAG_MULTI_PACKET_LAST,
            Flags::EmptyPacket => FLAG_EMPTY_PACKET,
        }
    }

    /// Reads a position flag back from its wire byte; every byte that is
    /// not the code of a flag is an unknown variant.
    pub fn from_code(b: u8) -> (r: Result<Flags, EmberError>)
        ensures
            b == FLAG_SINGLE_PACKET ==> r == Ok::<Flags, EmberError>(Flags::SinglePacket),
            b == FLAG_MULTI_PACKET_FIRST ==> r == Ok::<Flags, EmberError>(Flags::MultiPacketFirst),
            b == FLAG_MULTI_PACKET ==> r == Ok::<Flags, EmberError>(Flags::MultiPacket),
            b == FLAG_MULTI_PACKET_LAST ==> r == Ok::<Flags, EmberError>(Flags::MultiPacketLast),
            b == FLAG_EMPTY_PACKET ==> r == Ok::<Flags, EmberError>(Flags::EmptyPacket),
            r matches Ok(f) ==> flag_code(f) == b,
            r matches Err(e) ==> e is S101Decode && b != FLAG_SINGLE_PACKET && b
                != FLAG_MULTI_PACKET_FIRST && b != FLAG_MULTI_PACKET && b != FLAG_MULTI_PACKET_LAST
                && b != FLAG_EMPTY_PACKET,
    {
        if b == FLAG_SINGLE_PACKET {
            Ok(Flags::SinglePacket)
        } else if b == FLAG_MULTI_PACKET_FIRST {
            Ok(Flags::MultiPacketFirst)
        } else if b == FLAG_MULTI_PACKET {
            Ok(Flags::MultiPacket)
        } else if b == FLAG_MULTI_PACKET_LAST {
            Ok(Flags::MultiPacketLast)
        } else if b == FLAG_EMPTY_PACKET {
            Ok(Flags::EmptyPacket)
        } else {
            Err(EmberError::S101Decode("unknown enum variant".to_string()))
        }
    }
}

// ---------------------------------------------------------------------------
// CRC-16
// ---------------------------------------------------------------------------
/// One shift-and-conditional-xor round of the reflected CRC-16 polynomial
/// `0x8408` (CCITT).
pub open spec fn crc_round(c: u16) -> u16 {
    (c >> 1) ^ (if c & 1 == 1 {
        0x8408
    } else {
        0
    })
}

/// Folding one byte into the running CRC: mix the byte into the low half,
/// then run eight polynomial rounds.
pub open spec fn crc_update(crc: u16, b: u8) -> u16 {
    crc_round(
        crc_round(
            crc_round(
                crc_round(crc_round(crc_round(crc_round(crc_round(crc ^ (b as u16)))))),
            ),
        ),
    )
}

/// The CRC of a byte sequence, seeded with `CRC_SEED`.
pub open spec fn crc_of(s: Seq<u8>) -> u16
    decreases s.len(),
{
    if s.len() == 0 {
        CRC_SEED
    } else {
        crc_update(crc_of(s.drop_last()), s.last())
    }
}

/// Folding the two inverted CRC octets (little-endian) into the running CRC
/// always lands on the verification constant, whatever the CRC was.
pub proof fn lemma_crc_finalize(c: u16)
    ensures
        crc_update(crc_update(c, !c as u8), (!c >> 8) as u8) == CRC_CHECK,
{
    assert(crc_update(c, !c as u8) == (c >> 8) ^ 0x0f78u16) by (bit_vector);
    assert(crc_update((c >> 8) ^ 0x0f78u16, (!c >> 8) as u8) == 0xF0B8u16) by (bit_vector);
}

/// The CRC of a sequence extended by two bytes.
pub proof fn lemma_crc_of_push2(s: Seq<u8>, x: u8, y: u8)
    ensures
        crc_of(s.push(x).push(y)) == crc_update(crc_update(crc_of(s), x), y),
{
    reveal_with_fuel(crc_of, 3);
    assert(s.push(x).push(y).drop_last() =~= s.push(x));
    assert(s.push(x).drop_last() =~= s);
}

// ---------------------------------------------------------------------------
// Escaping
// ---------------------------------------------------------------------------
/// The wire form of one byte under the escaping framing: bytes at or above
/// `BOFNE` are preceded by `CE` and flipped with `XOR`.
pub open spec fn escape_byte(b: u8) -> Seq<u8> {
    if b >= BOFNE {
        seq![CE, b ^ XOR]
    } else {
        seq![b]
    }
}

/// The wire form of a byte sequence under the escaping framing.
pub open spec fn escaped(s: Seq<u8>) -> Seq<u8>
    decreases s.len(),
{
    if s.len() == 0 {
        Seq::empty()
    } else {
        escape_byte(s.first()) + escaped(s.drop_first())
    }
}

/// Appending a byte on the plain side appends its escape on the wire side.
pub proof fn lemma_escaped_push(s: Seq<u8>, b: u8)
    ensures
        escaped(s.push(b)) == escaped(s) + escape_byte(b),
    decreases s.len(),
{
    if s.len() == 0 {
        reveal_with_fuel(escaped, 2);
        assert(s.push(b).drop_first() =~= Seq::<u8>::empty());
        assert(escaped(s.push(b)) =~= escaped(s) + escape_byte(b));
    } else {
        assert(s.push(b).drop_first() =~= s.drop_first().push(b));
        lemma_escaped_push(s.drop_first(), b);
        assert(escaped(s.push(b)) =~= escaped(s) + escape_byte(b));
    }
}

/// The escaped form of a concatenation is the concatenation of the escaped
/// forms.
pub proof fn lemma_escaped_append(a: Seq<u8>, b: Seq<u8>)
    ensures
        escaped(a + b) == escaped(a) + escaped(b),
    decreases b.len(),
{
    if b.len() == 0 {
        assert(a + b =~= a);
        assert(escaped(a + b) =~= escaped(a) + escaped(b));
    } else {
        lemma_escaped_append(a, b.drop_last());
        lemma_escaped_push(a + b.drop_last(), b.last());
        lemma_escaped_push(b.drop_last(), b.last());
        assert((a + b.drop_last()).push(b.last()) =~= a + b);
        assert(b.drop_last().push(b.last()) =~= b);
        assert(escaped(a + b) =~= escaped(a) + escaped(b));
    }
}

/// No byte of an escaped region is `BOF` or `EOF`, and a `CE` there is
/// always followed by another byte of the region.
pub proof fn lemma_escaped_clean(s: Seq<u8>)
    ensures
        forall|i: int|
            0 <= i < escaped(s).len() ==> escaped(s)[i] != BOF && escaped(s)[i] != EOF,
    decreases s.len(),
{
    if s.len() > 0 {
        lemma_escaped_clean(s.drop_first());
        let b = s.first();
        assert(b >= 0xF8u8 ==> (b ^ 0x20u8) < 0xF8u8) by (bit_vector);
        assert forall|i: int| 0 <= i < escaped(s).len() implies escaped(s)[i] != BOF && escaped(
            s,
        )[i] != EOF by {
            if i >= escape_byte(b).len() {
                assert(escaped(s)[i] == escaped(s.drop_first())[i - escape_byte(b).len()]);
            }
        }
    }
}

// ---------------------------------------------------------------------------
// Un-escaping (the decoder's view of an escaped region)
// ---------------------------------------------------------------------------
/// What the decoder makes of an escaped region: a `CE` arms the flip for the
/// next plain byte; every other byte is taken, flipped when armed.
pub open spec fn unescape_from(w: Seq<u8>, armed: bool) -> Seq<u8>
    decreases w.len(),
{
    if w.len() == 0 {
        Seq::empty()
    } else if w.first() == CE {
        unescape_from(w.drop_first(), true)
    } else {
        seq![
            if armed {
                w.first() ^ XOR
            } else {
                w.first()
            },
        ] + unescape_from(w.drop_first(), false)
    }
}

/// Whether a region leaves the flip armed for the byte that follows it.
pub open spec fn unescape_armed(w: Seq<u8>, armed: bool) -> bool {
    if w.len() == 0 {
        armed
    } else {
        w.last() == CE
    }
}

/// Extending an escaped region by one byte on the right.
pub proof fn lemma_unescape_snoc(w: Seq<u8>, b: u8, armed: bool)
    ensures
        unescape_from(w.push(b), armed) == if b == CE {
            unescape_from(w, armed)
        } else if unescape_armed(w, armed) {
            unescape_from(w, armed).push(b ^ XOR)
        } else {
            unescape_from(w, armed).push(b)
        },
    decreases w.len(),
{
    if w.len() == 0 {
        reveal_with_fuel(unescape_from, 2);
        assert(w.push(b).drop_first() =~= Seq::<u8>::empty());
        if b != CE {
            assert(unescape_from(w.push(b), armed) =~= unescape_from(w, armed).push(
                if armed {
                    b ^ XOR
                } else {
                    b
                },
            ));
        }
    } else {
        assert(w.push(b).drop_first() =~= w.drop_first().push(b));
        if w.first() == CE {
            lemma_unescape_snoc(w.drop_first(), b, true);
            assert(unescape_armed(w.drop_first(), true) == unescape_armed(w, armed));
        } else {
            lemma_unescape_snoc(w.drop_first(), b, false);
            assert(unescape_armed(w.drop_first(), false) == unescape_armed(w, armed));
        }
        if b == CE {
        } else if unescape_armed(w, armed) {
            assert(unescape_from(w.push(b), armed) =~= unescape_from(w, armed).push(b ^ XOR));
        } else {
            assert(unescape_from(w.push(b), armed) =~= unescape_from(w, armed).push(b));
        }
    }
}

// ---------------------------------------------------------------------------
// Frames
// ---------------------------------------------------------------------------
/// The mathematical content of a frame, common to both framings.
pub ghost enum FrameModel {
    EmberPacket(PacketModel),
    KeepaliveRequest,
    KeepaliveResponse,
}

/// The command byte of a frame.
pub open spec fn frame_command(m: FrameModel) -> u8 {
    match m {
        FrameModel::EmberPacket(_) => COMMAND_EMBER_PACKET,
        FrameModel::KeepaliveRequest => COMMAND_KEEPALIVE_REQUEST,
        FrameModel::KeepaliveResponse => COMMAND_KEEPALIVE_RESPONSE,
    }
}

/// The logical body of a frame: the four byte header followed by the packet
/// bytes for an Ember packet frame, or by nothing for a keepalive frame.
pub open spec fn frame_body_bytes(m: FrameModel) -> Seq<u8> {
    seq![SLOT_IDENTIFIER, MESSAGE_TYPE, frame_command(m), VERSION] + (match m {
        FrameModel::EmberPacket(p) => packet_bytes(p),
        FrameModel::KeepaliveRequest => Seq::empty(),
        FrameModel::KeepaliveResponse => Seq::empty(),
    })
}

/// The two inverted CRC octets appended to an escaping frame body,
/// little-endian.
pub open spec fn crc_trailer(body: Seq<u8>) -> Seq<u8> {
    seq![!crc_of(body) as u8, (!crc_of(body) >> 8) as u8]
}

/// The full wire form of an escaping frame: `BOF`, the escaped body and CRC
/// trailer, `EOF`.
pub open spec fn escaping_encoding(m: FrameModel) -> Seq<u8> {
    seq![BOF] + escaped(frame_body_bytes(m) + crc_trailer(frame_body_bytes(m))) + seq![EOF]
}

/// The big-endian length octets of a non-escaping frame body: one octet up
/// to 255, two octets up to 65535.
pub open spec fn len_octets(n: int) -> Seq<u8> {
    if n <= 0xFF {
        seq![n as u8]
    } else {
        seq![(n / 256) as u8, (n % 256) as u8]
    }
}

/// The full wire form of a non-escaping frame: `BOFNE`, the count of length
/// octets, the length octets, the body verbatim.
pub open spec fn non_escaping_encoding(m: FrameModel) -> Seq<u8> {
    seq![BOFNE, len_octets(frame_body_bytes(m).len() as int).len() as u8] + len_octets(
        frame_body_bytes(m).len() as int,
    ) + frame_body_bytes(m)
}

/// Un-escaping inverts escaping.
pub proof fn lemma_unescape_escaped(s: Seq<u8>)
    ensures
        unescape_from(escaped(s), false) == s,
    decreases s.len(),
{
    if s.len() == 0 {
    } else {
        reveal_with_fuel(unescape_from, 3);
        lemma_unescape_escaped(s.drop_first());
        let b = s.first();
        if b >= BOFNE {
            assert((b ^ XOR) < BOFNE && (b ^ XOR) != CE && ((b ^ XOR) ^ XOR) == b) by (bit_vector)
                requires
                    b >= 0xF8u8,
            ;
            assert(escaped(s) =~= seq![CE, b ^ XOR] + escaped(s.drop_first()));
            assert(escaped(s).drop_first() =~= seq![b ^ XOR] + escaped(s.drop_first()));
            assert(escaped(s).drop_first().drop_first() =~= escaped(s.drop_first()));
            assert(unescape_from(escaped(s), false) == unescape_from(
                escaped(s).drop_first(),
                true,
            ));
            assert(unescape_from(escaped(s).drop_first(), true) =~= seq![b] + unescape_from(
                escaped(s.drop_first()),
                false,
            ));
            assert(unescape_from(escaped(s), false) =~= s);
        } else {
            assert(escaped(s).first() == b && b != CE);
            assert(escaped(s).drop_first() =~= escaped(s.drop_first()));
            assert(unescape_from(escaped(s), false) =~= seq![b] + unescape_from(
                escaped(s.drop_first()),
                false,
            ));
            assert(unescape_from(escaped(s), false) =~= s);
        }
    }
}

// ---------------------------------------------------------------------------
// Executable frames
// ---------------------------------------------------------------------------
/// A frame under the escaping framing.
#[derive(Debug, Clone, PartialEq)]
pub enum EscapingS101Frame {
    EmberPacket(EmberPacket),
    KeepaliveRequest,
    KeepaliveResponse,
}

impl View for EscapingS101Frame {
    type V = FrameModel;

    open spec fn view(&self) -> FrameModel {
        match self {
            EscapingS101Frame::EmberPacket(p) => FrameModel::EmberPacket(p@),
            EscapingS101Frame::KeepaliveRequest => FrameModel::KeepaliveRequest,
            EscapingS101Frame::KeepaliveResponse => FrameModel::KeepaliveResponse,
        }
    }
}

/// A frame under the non-escaping framing.
#[derive(Debug, Clone, PartialEq)]
pub enum NonEscapingS101Frame {
    EmberPacket(EmberPacket),
    KeepaliveRequest,
    KeepaliveResponse,
}

impl View for NonEscapingS101Frame {
    type V = FrameModel;

    open spec fn view(&self) -> FrameModel {
        match self {
            NonEscapingS101Frame::EmberPacket(p) => FrameModel::EmberPacket(p@),
            NonEscapingS101Frame::KeepaliveRequest => FrameModel::KeepaliveRequest,
            NonEscapingS101Frame::KeepaliveResponse => FrameModel::KeepaliveResponse,
        }
    }
}

/// A frame in either framing.
pub ghost enum S101FrameModel {
    Escaping(FrameModel),
    NonEscaping(FrameModel),
}

#[derive(Debug, Clone, PartialEq)]
pub enum S101Frame {
    Escaping(EscapingS101Frame),
    NonEscaping(NonEscapingS101Frame),
}

impl View for S101Frame {
    type V = S101FrameModel;

    open spec fn view(&self) -> S101FrameModel {
        match self {
            S101Frame::Escaping(f) => S101FrameModel::Escaping(f@),
            S101Frame::NonEscaping(f) => S101FrameModel::NonEscaping(f@),
        }
    }
}

/// The wire form of a frame in its own framing.
pub open spec fn s101_encoding(m: S101FrameModel) -> Seq<u8> {
    match m {
        S101FrameModel::Escaping(f) => escaping_encoding(f),
        S101FrameModel::NonEscaping(f) => non_escaping_encoding(f),
    }
}

/// The payload length of the frame model behind either framing.
pub open spec fn frame_payload_len(m: FrameModel) -> int {
    match m {
        FrameModel::EmberPacket(p) => p.payload.len() as int,
        FrameModel::KeepaliveRequest => 0,
        FrameModel::KeepaliveResponse => 0,
    }
}

impl EscapingS101Frame {
    /// The length of the logical frame body.
    pub fn len(&self) -> (r: usize)
        requires
            frame_body_bytes(self@).len() <= usize::MAX,
        ensures
            r == frame_body_bytes(self@).len(),
    {
        4 + match self {
            Self::EmberPacket(ember_packet) => ember_packet.payload().len() + 5,
            Self::KeepaliveRequest | Self::KeepaliveResponse => 0,
        }
    }

    pub fn command_byte(&self) -> (r: u8)
        ensures
            r == frame_command(self@),
    {
        match self {
            Self::EmberPacket(_) => COMMAND_EMBER_PACKET,
            Self::KeepaliveRequest => COMMAND_KEEPALIVE_REQUEST,
            Self::KeepaliveResponse => COMMAND_KEEPALIVE_RESPONSE,
        }
    }

    /// The logical body of the frame, before escaping.
    pub fn to_bytes(&self) -> (r: Vec<u8>)
        requires
            frame_body_bytes(self@).len() <= usize::MAX,
        ensures
            r@ == frame_body_bytes(self@),
    {
        let mut buf: Vec<u8> = Vec::new();
        buf.push(SLOT_IDENTIFIER);
        buf.push(MESSAGE_TYPE);
        buf.push(self.command_byte());
        buf.push(VERSION);
        if let Self::EmberPacket(data) = &self {
            let mut payload_bytes = data.to_bytes();
            buf.append(&mut payload_bytes);
        }
        proof {
            assert(buf@ =~= frame_body_bytes(self@));
        }
        buf
    }

    /// One step of the running CRC-16.
    pub fn update_crc(crc: u16, b: u8) -> (r: u16)
        ensures
            r == crc_update(crc, b),
    {
        let mut c = crc ^ (b as u16);
        let mut k: usize = 0;
        while k < 8
            invariant
                k <= 8,
                c == crc_rounds(crc ^ (b as u16), k as nat),
            decreases 8 - k,
        {
            c = (c >> 1) ^ (if c & 1 == 1 {
                0x8408
            } else {
                0
            });
            k += 1;
        }
        proof {
            lemma_crc_rounds_eq(crc, b);
        }
        c
    }

    /// Appends the escaped form of one byte.
    pub fn append_escaping(buf: &mut Vec<u8>, b: u8)
        ensures
            final(buf)@ == old(buf)@ + escape_byte(b),
    {
        if b < BOFNE {
            buf.push(b);
        } else {
            buf.push(CE);
            buf.push(b ^ XOR);
        }
        proof {
            assert(final(buf)@ =~= old(buf)@ + escape_byte(b));
        }
    }

    /// The full escaping wire form: `BOF`, escaped body and CRC, `EOF`.
    pub fn encode(&self) -> (out: Vec<u8>)
        requires
            frame_payload_len(self@) + 16 <= usize::MAX,
        ensures
            out@ == escaping_encoding(self@),
    {
        let body = self.to_bytes();
        let ghost body_seq = body@;
        let mut out: Vec<u8> = Vec::new();
        out.push(BOF);
        let mut crc: u16 = CRC_SEED;
        let mut i: usize = 0;
        while i < body.len()
            invariant
                i <= body@.len(),
                body@ == body_seq,
                crc == crc_of(body_seq.subrange(0, i as int)),
                out@ == seq![BOF] + escaped(body_seq.subrange(0, i as int)),
            decreases body@.len() - i,
        {
            let b = body[i];
            crc = Self::update_crc(crc, b);
            Self::append_escaping(&mut out, b);
            proof {
                assert(body_seq.subrange(0, i + 1) =~= body_seq.subrange(0, i as int).push(b));
                assert(body_seq.subrange(0, i + 1).drop_last() =~= body_seq.subrange(0, i as int));
                lemma_escaped_push(body_seq.subrange(0, i as int), b);
            }
            i += 1;
        }
        proof {
            assert(body_seq.subrange(0, body_seq.len() as int) =~= body_seq);
        }
        let inv = !crc;
        Self::append_escaping(&mut out, inv as u8);
        Self::append_escaping(&mut out, (inv >> 8) as u8);
        out.push(EOF);
        proof {
            lemma_escaped_append(body_seq, crc_trailer(body_seq));
            reveal_with_fuel(escaped, 3);
            assert(escaped(crc_trailer(body_seq)) =~= escape_byte(!crc_of(body_seq) as u8)
                + escape_byte((!crc_of(body_seq) >> 8) as u8));
            assert(out@ =~= escaping_encoding(self@));
        }
        out
    }
}

impl NonEscapingS101Frame {
    /// The length of the logical frame body.
    pub fn len(&self) -> (r: usize)
        requires
            frame_body_bytes(self@).len() <= usize::MAX,
        ensures
            r == frame_body_bytes(self@).len(),
    {
        4 + match self {
            Self::EmberPacket(ember_packet) => ember_packet.payload().len() + 5,
            Self::KeepaliveRequest | Self::KeepaliveResponse => 0,
        }
    }

    pub fn command_byte(&self) -> (r: u8)
        ensures
            r == frame_command(self@),
    {
        match self {
            Self::EmberPacket(_) => COMMAND_EMBER_PACKET,
            Self::KeepaliveRequest => COMMAND_KEEPALIVE_REQUEST,
            Self::KeepaliveResponse => COMMAND_KEEPALIVE_RESPONSE,
        }
    }

    /// The logical body of the frame.
    pub fn to_bytes(&self) -> (r: Vec<u8>)
        requires
            frame_body_bytes(self@).len() <= usize::MAX,
        ensures
            r@ == frame_body_bytes(self@),
    {
        let mut buf: Vec<u8> = Vec::new();
        buf.push(SLOT_IDENTIFIER);
        buf.push(MESSAGE_TYPE);
        buf.push(self.command_byte());
        buf.push(VERSION);
        if let Self::EmberPacket(data) = &self {
            let mut payload_bytes = data.to_bytes();
            buf.append(&mut payload_bytes);
        }
        proof {
            assert(buf@ =~= frame_body_bytes(self@));
        }
        buf
    }

    /// The length of the full wire form: start byte, count byte, length
    /// octets, body. A frame body over 65535 bytes does not fit this
    /// framing.
    pub fn encoded_len(&self) -> (r: usize)
        requires
            frame_body_bytes(self@).len() <= u16::MAX,
        ensures
            r == non_escaping_encoding(self@).len(),
    {
        let len = self.len();
        let len_bytes: usize = if len <= u8::MAX as usize {
            1
        } else {
            2
        };
        2 + len_bytes + len
    }

    /// The full non-escaping wire form.
    pub fn encode(&self) -> (out: Vec<u8>)
        requires
            frame_body_bytes(self@).len() <= u16::MAX,
        ensures
            out@ == non_escaping_encoding(self@),
    {
        let len = self.len();
        let mut out: Vec<u8> = Vec::new();
        out.push(BOFNE);
        if len <= u8::MAX as usize {
            out.push(0x01);
            out.push(len as u8);
        } else {
            out.push(0x02);
            out.push((len / 256) as u8);
            out.push((len % 256) as u8);
        }
        let mut body = self.to_bytes();
        out.append(&mut body);
        proof {
            assert(out@ =~= non_escaping_encoding(self@));
        }
        out
    }
}

impl S101Frame {
    /// The wire form of the frame in its own framing. The body of a
    /// non-escaping frame must fit its two length octets.
    pub fn encode(&self) -> (out: Vec<u8>)
        requires
            self@ matches S101FrameModel::Escaping(m) ==> frame_payload_len(m) + 16 <= usize::MAX,
            self@ matches S101FrameModel::NonEscaping(m) ==> frame_body_bytes(m).len()
                <= u16::MAX,
        ensures
            out@ == s101_encoding(self@),
    {
        match self {
            S101Frame::Escaping(frame) => frame.encode(),
            S101Frame::NonEscaping(frame) => frame.encode(),
        }
    }

    pub fn is_non_escaping(&self) -> (r: bool)
        ensures
            r == (self@ is NonEscaping),
    {
        match self {
            S101Frame::Escaping(_) => false,
            S101Frame::NonEscaping(_) => true,
        }
    }

    pub fn is_keepalive_request(&self) -> (r: bool)
        ensures
            r == match self@ {
                S101FrameModel::Escaping(m) => m is KeepaliveRequest,
                S101FrameModel::NonEscaping(m) => m is KeepaliveRequest,
            },
    {
        match self {
            S101Frame::Escaping(EscapingS101Frame::KeepaliveRequest)
            | S101Frame::NonEscaping(NonEscapingS101Frame::KeepaliveRequest) => true,
            _ => false,
        }
    }

    pub fn is_keepalive_response(&self) -> (r: bool)
        ensures
            r == match self@ {
                S101FrameModel::Escaping(m) => m is KeepaliveResponse,
                S101FrameModel::NonEscaping(m) => m is KeepaliveResponse,
            },
    {
        match self {
            S101Frame::Escaping(EscapingS101Frame::KeepaliveResponse)
            | S101Frame::NonEscaping(NonEscapingS101Frame::KeepaliveResponse) => true,
            _ => false,
        }
    }
}

// ---------------------------------------------------------------------------
// Decoding
// ---------------------------------------------------------------------------
/// The outcome of reading one frame from the front of a byte buffer:
/// a frame with the number of bytes it occupied, an empty non-escaping
/// frame to be ignored, or too little data for a whole frame.
pub enum Decoded {
    Frame(S101Frame, usize),
    Empty(usize),
    Incomplete,
}

/// The flag a wire byte decodes to, where it is one.
pub open spec fn flag_decode(b: u8) -> Option<Flags> {
    if b == FLAG_SINGLE_PACKET {
        Some(Flags::SinglePacket)
    } else if b == FLAG_MULTI_PACKET_FIRST {
        Some(Flags::MultiPacketFirst)
    } else if b == FLAG_MULTI_PACKET {
        Some(Flags::MultiPacket)
    } else if b == FLAG_MULTI_PACKET_LAST {
        Some(Flags::MultiPacketLast)
    } else if b == FLAG_EMPTY_PACKET {
        Some(Flags::EmptyPacket)
    } else {
        None
    }
}

/// A byte decodes to a flag exactly when some flag has it as its code.
pub proof fn lemma_flag_decode_exists(b: u8)
    ensures
        flag_decode(b) is Some <==> (exists|f: Flags| flag_code(f) == b),
        flag_decode(b) matches Some(f) ==> flag_code(f) == b,
{
    if flag_decode(b) is Some {
        assert(flag_code(flag_decode(b).unwrap()) == b);
    }
    if exists|f: Flags| flag_code(f) == b {
        let f = choose|f: Flags| flag_code(f) == b;
        assert(flag_decode(flag_code(f)) is Some);
    }
}

/// The packet a run of wire bytes parses to: the flag from the first byte,
/// the three header bytes, the payload.
pub open spec fn packet_model_of(bytes: Seq<u8>) -> PacketModel
    recommends
        bytes.len() >= 6,
        flag_decode(bytes[0]) is Some,
{
    PacketModel {
        flag: flag_decode(bytes[0]).unwrap(),
        dtd: bytes[1],
        app_bytes: bytes[2],
        glow_version_min: bytes[3],
        glow_version_maj: bytes[4],
        payload: bytes.subrange(5, bytes.len() as int),
    }
}

/// A parsed packet writes back to the bytes it was parsed from.
pub proof fn lemma_packet_model_bytes(bytes: Seq<u8>)
    requires
        bytes.len() >= 6,
        flag_decode(bytes[0]) is Some,
    ensures
        packet_bytes(packet_model_of(bytes)) == bytes,
{
    lemma_flag_decode_exists(bytes[0]);
    assert(packet_bytes(packet_model_of(bytes)) =~= bytes);
}

/// The frame a decoded body parses to, or nothing where the body is
/// malformed: the command byte selects the kind; an Ember packet frame
/// needs its five header bytes, at least one payload byte and a known
/// flag, with the two CRC octets still attached under the escaping framing.
pub open spec fn frame_of_body(body: Seq<u8>, with_trailer: bool) -> Option<FrameModel> {
    if body.len() < 3 {
        None
    } else if body[2] == COMMAND_KEEPALIVE_REQUEST {
        Some(FrameModel::KeepaliveRequest)
    } else if body[2] == COMMAND_KEEPALIVE_RESPONSE {
        Some(FrameModel::KeepaliveResponse)
    } else if body[2] == COMMAND_EMBER_PACKET {
        if body.len() >= (if with_trailer {
            12int
        } else {
            10int
        }) && flag_decode(body[4]) is Some {
            let pb = if with_trailer {
                body.subrange(4, body.len() - 2)
            } else {
                body.subrange(4, body.len() as int)
            };
            Some(FrameModel::EmberPacket(packet_model_of(pb)))
        } else {
            None
        }
    } else {
        None
    }
}

/// The position of the first frame delimiter (`EOF` or a stray `BOF`) at or
/// after `i`; the buffer's length where none has arrived.
pub open spec fn first_stop(data: Seq<u8>, i: int) -> int
    decreases data.len() - i,
{
    if i < 0 || i >= data.len() {
        data.len() as int
    } else if data[i] == EOF || data[i] == BOF {
        i
    } else {
        first_stop(data, i + 1)
    }
}

/// A scan that passed the region `[from, e)` without a delimiter and stands
/// at one (or at the end) has found the first stop.
pub proof fn lemma_first_stop_at(data: Seq<u8>, from: int, e: int)
    requires
        0 <= from <= e <= data.len(),
        forall|j: int| from <= j < e ==> data[j] != EOF && data[j] != BOF,
        e == data.len() || data[e] == EOF || data[e] == BOF,
    ensures
        first_stop(data, from) == e,
    decreases e - from,
{
    if from < e {
        lemma_first_stop_at(data, from + 1, e);
    }
}

/// A frame model whose escaping encoding the decoder reads back exactly:
/// an Ember packet frame must carry at least one payload byte, since the
/// packet parser rejects anything shorter.
pub open spec fn decodable(m: FrameModel) -> bool {
    m matches FrameModel::EmberPacket(p) ==> p.payload.len() >= 1
}

/// Where the first `EOF` of an escaping encoding stands, and what stands
/// before it.
pub proof fn lemma_escaping_eof_position(m: FrameModel, rest: Seq<u8>, data: Seq<u8>)
    requires
        data == escaping_encoding(m) + rest,
    ensures
        data.len() >= 2 + escaped(
            frame_body_bytes(m) + crc_trailer(frame_body_bytes(m)),
        ).len(),
        data[0] == BOF,
        data[1 + escaped(frame_body_bytes(m) + crc_trailer(frame_body_bytes(m))).len() as int]
            == EOF,
        forall|j: int|
            1 <= j < 1 + escaped(frame_body_bytes(m) + crc_trailer(frame_body_bytes(m))).len()
                ==> data[j] != EOF && data[j] != BOF,
    {
    let bt = frame_body_bytes(m) + crc_trailer(frame_body_bytes(m));
    lemma_escaped_clean(bt);
    assert forall|j: int| 1 <= j < 1 + escaped(bt).len() implies data[j] != EOF && data[j]
        != BOF by {
        assert(data[j] == escaped(bt)[j - 1]);
    }
}

/// What the scan of a valid escaping encoding must have found: the `EOF`
/// position, the un-escaped body with its CRC trailer, the passing CRC, and
/// the header fields of the frame inside.
pub proof fn lemma_escaping_parse(m: FrameModel, rest: Seq<u8>, data: Seq<u8>, e: int, body: Seq<
    u8,
>)
    requires
        data == escaping_encoding(m) + rest,
        decodable(m),
        1 <= e < data.len(),
        forall|j: int| 1 <= j < e ==> data[j] != EOF && data[j] != BOF,
        data[e] == EOF,
        body == unescape_from(data.subrange(1, e), false),
    ensures
        e == 1 + escaped(frame_body_bytes(m) + crc_trailer(frame_body_bytes(m))).len(),
        body == frame_body_bytes(m) + crc_trailer(frame_body_bytes(m)),
        body.len() == frame_body_bytes(m).len() + 2,
        crc_of(body) == CRC_CHECK,
        body.len() >= 6,
        body[2] == frame_command(m),
        m matches FrameModel::EmberPacket(p) ==> body.len() >= 12 && body.subrange(
            4,
            body.len() - 2,
        ) == packet_bytes(p),
{
    let fbb = frame_body_bytes(m);
    let bt = fbb + crc_trailer(fbb);
    lemma_escaping_eof_position(m, rest, data);
    let ghost le = 1 + escaped(bt).len();
    if e < le {
        assert(data[e] == escaped(bt)[e - 1]);
        lemma_escaped_clean(bt);
        assert(false);
    }
    if e > le {
        assert(data[le as int] != EOF);
        assert(false);
    }
    assert(data.subrange(1, e) =~= escaped(bt));
    lemma_unescape_escaped(bt);
    assert(bt =~= fbb.push(!crc_of(fbb) as u8).push((!crc_of(fbb) >> 8) as u8));
    lemma_crc_of_push2(fbb, !crc_of(fbb) as u8, (!crc_of(fbb) >> 8) as u8);
    lemma_crc_finalize(crc_of(fbb));
    if let FrameModel::EmberPacket(p) = m {
        assert(body.subrange(4, body.len() - 2) =~= packet_bytes(p));
    }
}

impl EscapingS101Frame {
    /// Reads the frame out of an un-escaped body (CRC trailer still
    /// attached): the command byte selects the frame kind, and an Ember
    /// packet frame carries the packet bytes between header and trailer.
    pub fn from_bytes(buf: &[u8]) -> (r: Result<Self, EmberError>)
        ensures
            buf@.len() < 3 ==> (r matches Err(e) && e is Deserialization),
            (buf@.len() >= 3 && buf@[2] == COMMAND_KEEPALIVE_REQUEST) ==> r == Ok::<
                Self,
                EmberError,
            >(Self::KeepaliveRequest),
            (buf@.len() >= 3 && buf@[2] == COMMAND_KEEPALIVE_RESPONSE) ==> r == Ok::<
                Self,
                EmberError,
            >(Self::KeepaliveResponse),
            (buf@.len() >= 3 && buf@[2] == COMMAND_EMBER_PACKET && buf@.len() >= 12 && (exists|
                f: Flags,
            |
                flag_code(f) == buf@[4])) ==> (r matches Ok(fr) && fr matches Self::EmberPacket(p)
                && packet_bytes(p@) == buf@.subrange(4, buf@.len() - 2)),
            (buf@.len() >= 3 && buf@[2] == COMMAND_EMBER_PACKET && !(buf@.len() >= 12 && (exists|
                f: Flags,
            |
                flag_code(f) == buf@[4]))) ==> r is Err,
            (buf@.len() >= 3 && buf@[2] != COMMAND_EMBER_PACKET && buf@[2]
                != COMMAND_KEEPALIVE_REQUEST && buf@[2] != COMMAND_KEEPALIVE_RESPONSE) ==> (
            r matches Err(e) && e is Deserialization),
    {
        if buf.len() < 3 {
            return Err(
                EmberError::Deserialization("frame body too short for a command".to_string()),
            );
        }
        if buf[2] == COMMAND_EMBER_PACKET {
            if buf.len() < 6 {
                return Err(
                    EmberError::Deserialization("frame body too short for a packet".to_string()),
                );
            }
            // the last two bytes are CRC
            let sub = vstd::slice::slice_subrange(buf, 4, buf.len() - 2);
            proof {
                assert(sub@.len() == buf@.len() - 6);
                if buf@.len() >= 7 {
                    assert(sub@[0] == buf@[4]);
                }
            }
            match EmberPacket::from_bytes(sub) {
                Ok(p) => Ok(EscapingS101Frame::EmberPacket(p)),
                Err(e) => Err(e),
            }
        } else if buf[2] == COMMAND_KEEPALIVE_REQUEST {
            Ok(EscapingS101Frame::KeepaliveRequest)
        } else if buf[2] == COMMAND_KEEPALIVE_RESPONSE {
            Ok(EscapingS101Frame::KeepaliveResponse)
        } else {
            Err(EmberError::Deserialization("invalid command byte".to_string()))
        }
    }

    /// Reads one escaping frame from the front of `data`: un-escapes up to
    /// the first `EOF`, checks the running CRC against the verification
    /// constant, and parses the body. `None` means the `EOF` has not
    /// arrived yet. Reads back exactly what [`Self::encode`] wrote; on any
    /// other input the outcome is fixed by the first delimiter, the CRC of
    /// the un-escaped region and the body's shape.
    pub fn decode(data: &[u8]) -> (r: Result<Option<(Self, usize)>, EmberError>)
        requires
            data@.len() >= 1,
            data@[0] == BOF,
        ensures
            r matches Ok(Some((f, n))) ==> 2 <= n <= data@.len(),
            forall|m: FrameModel, rest: Seq<u8>|
                #![trigger escaping_encoding(m).add(rest)]
                (decodable(m) && data@ == escaping_encoding(m) + rest) ==> (r matches Ok(
                    Some((f, n)),
                ) && f@ == m && n == escaping_encoding(m).len()),
            ({
                let stop = first_stop(data@, 1);
                let body = unescape_from(data@.subrange(1, stop), false);
                &&& (stop == data@.len() ==> (r matches Ok(o) && o is None))
                &&& (stop < data@.len() && data@[stop] == BOF ==> (r matches Err(er)
                    && er is Deserialization))
                &&& (stop < data@.len() && data@[stop] == EOF && crc_of(body) != CRC_CHECK ==> (
                r matches Err(er) && er is Deserialization))
                &&& (stop < data@.len() && data@[stop] == EOF && crc_of(body) == CRC_CHECK
                    ==> match frame_of_body(body, true) {
                    Some(m) => r matches Ok(o) && o matches Some((f, n)) && f@ == m && n == stop
                        + 1,
                    None => r is Err,
                })
            }),
    {
        let ghost d = data@;
        // find the first EOF, refusing a stray BOF before it
        let mut e: usize = 1;
        while e < data.len() && data[e] != EOF
            invariant
                1 <= e <= d.len(),
                d == data@,
                d.len() >= 1 && d[0] == BOF,
                forall|j: int| 1 <= j < e ==> d[j] != EOF,
                forall|j: int| 1 <= j < e ==> d[j] != BOF,
            decreases d.len() - e,
        {
            if data[e] == BOF {
                proof {
                    lemma_first_stop_at(d, 1, e as int);
                    assert forall|m: FrameModel, rest: Seq<u8>|
                        !(decodable(m) && d == escaping_encoding(m).add(rest)) by {
                        if decodable(m) && d == escaping_encoding(m) + rest {
                            lemma_escaping_eof_position(m, rest, d);
                        }
                    }
                }
                return Err(EmberError::Deserialization("unexpected BOF".to_string()));
            }
            e += 1;
        }
        if e == data.len() {
            // no EOF yet
            proof {
                lemma_first_stop_at(d, 1, e as int);
                assert forall|m: FrameModel, rest: Seq<u8>|
                    !(decodable(m) && d == escaping_encoding(m).add(rest)) by {
                    if decodable(m) && d == escaping_encoding(m) + rest {
                        lemma_escaping_eof_position(m, rest, d);
                    }
                }
            }
            return Ok(None);
        }
        proof {
            lemma_first_stop_at(d, 1, e as int);
        }
        // un-escape the region before the EOF, tracking the CRC
        let mut body: Vec<u8> = Vec::new();
        let mut crc: u16 = CRC_SEED;
        let mut armed = false;
        let mut i: usize = 1;
        while i < e
            invariant
                1 <= i <= e < d.len(),
                d == data@,
                body@ == unescape_from(d.subrange(1, i as int), false),
                armed == unescape_armed(d.subrange(1, i as int), false),
                crc == crc_of(body@),
            decreases e - i,
        {
            let b = data[i];
            proof {
                assert(d.subrange(1, i + 1) =~= d.subrange(1, i as int).push(b));
                lemma_unescape_snoc(d.subrange(1, i as int), b, false);
            }
            if b == CE {
                armed = true;
            } else {
                let v = if armed {
                    b ^ XOR
                } else {
                    b
                };
                armed = false;
                crc = Self::update_crc(crc, v);
                body.push(v);
                proof {
                    assert(body@.drop_last() =~= unescape_from(d.subrange(1, i as int), false));
                }
            }
            i += 1;
        }
        if crc != CRC_CHECK {
            proof {
                assert forall|m: FrameModel, rest: Seq<u8>|
                    !(decodable(m) && d == escaping_encoding(m).add(rest)) by {
                    if decodable(m) && d == escaping_encoding(m) + rest {
                        lemma_escaping_parse(m, rest, d, e as int, body@);
                    }
                }
            }
            return Err(EmberError::Deserialization("invalid CRC".to_string()));
        }
        let frame = match Self::from_bytes(body.as_slice()) {
            Ok(f) => f,
            Err(err) => {
                proof {
                    if body@.len() >= 5 {
                        lemma_flag_decode_exists(body@[4]);
                    }
                    assert(frame_of_body(body@, true) is None);
                    assert forall|m: FrameModel, rest: Seq<u8>|
                        !(decodable(m) && d == escaping_encoding(m).add(rest)) by {
                        if decodable(m) && d == escaping_encoding(m) + rest {
                            lemma_escaping_parse(m, rest, d, e as int, body@);
                            if let FrameModel::EmberPacket(p) = m {
                                assert(flag_code(p.flag) == body@[4]);
                            }
                        }
                    }
                }
                return Err(err);
            },
        };
        proof {
            assert forall|m: FrameModel, rest: Seq<u8>|
                (decodable(m) && d == escaping_encoding(m).add(rest)) implies (frame@ == m && e + 1
                == escaping_encoding(m).len()) by {
                lemma_escaping_parse(m, rest, d, e as int, body@);
                if let FrameModel::EmberPacket(p) = m {
                    assert(flag_code(p.flag) == body@[4]);
                    assert(packet_bytes(p) == body@.subrange(4, body@.len() - 2));
                    if let EscapingS101Frame::EmberPacket(q) = frame {
                        assert(packet_bytes(q@) == body@.subrange(4, body@.len() - 2));
                        lemma_packet_bytes_injective(q@, p);
                    }
                }
            }
            if body@[2] == COMMAND_EMBER_PACKET {
                lemma_flag_decode_exists(body@[4]);
                let pb = body@.subrange(4, body@.len() - 2);
                lemma_packet_model_bytes(pb);
                if let EscapingS101Frame::EmberPacket(q) = &frame {
                    assert(packet_bytes(q@) == pb);
                    lemma_packet_bytes_injective(q@, packet_model_of(pb));
                }
            }
            assert(frame_of_body(body@, true) matches Some(m) && frame@ == m);
        }
        Ok(Some((frame, e + 1)))
    }
}

/// The value of big-endian length octets.
pub open spec fn be_value(s: Seq<u8>) -> int
    decreases s.len(),
{
    if s.len() == 0 {
        0
    } else {
        be_value(s.drop_last()) * 256 + s.last()
    }
}

/// The length octets of a length up to 65535 read back as that length.
pub proof fn lemma_len_octets_value(n: int)
    requires
        0 <= n <= 0xFFFF,
    ensures
        be_value(len_octets(n)) == n,
        1 <= len_octets(n).len() <= 2,
{
    reveal_with_fuel(be_value, 3);
    if n <= 0xFF {
        assert(len_octets(n).drop_last() =~= Seq::<u8>::empty());
    } else {
        assert(len_octets(n).drop_last() =~= seq![(n / 256) as u8]);
        assert(seq![(n / 256) as u8].drop_last() =~= Seq::<u8>::empty());
        vstd::arithmetic::div_mod::lemma_fundamental_div_mod(n, 256);
    }
}

impl NonEscapingS101Frame {
    /// Reads the frame out of a non-escaping body. The command byte selects
    /// the frame kind; an Ember packet frame carries the packet bytes after
    /// the header, with no trailer.
    pub fn from_bytes(buf: &[u8]) -> (r: Result<Self, EmberError>)
        ensures
            buf@.len() < 3 ==> (r matches Err(e) && e is Deserialization),
            (buf@.len() >= 3 && buf@[2] == COMMAND_KEEPALIVE_REQUEST) ==> r == Ok::<
                Self,
                EmberError,
            >(Self::KeepaliveRequest),
            (buf@.len() >= 3 && buf@[2] == COMMAND_KEEPALIVE_RESPONSE) ==> r == Ok::<
                Self,
                EmberError,
            >(Self::KeepaliveResponse),
            (buf@.len() >= 3 && buf@[2] == COMMAND_EMBER_PACKET && buf@.len() >= 10 && (exists|
                f: Flags,
            |
                flag_code(f) == buf@[4])) ==> (r matches Ok(fr) && fr matches Self::EmberPacket(p)
                && packet_bytes(p@) == buf@.subrange(4, buf@.len() as int)),
            (buf@.len() >= 3 && buf@[2] == COMMAND_EMBER_PACKET && !(buf@.len() >= 10 && (exists|
                f: Flags,
            |
                flag_code(f) == buf@[4]))) ==> r is Err,
            (buf@.len() >= 3 && buf@[2] != COMMAND_EMBER_PACKET && buf@[2]
                != COMMAND_KEEPALIVE_REQUEST && buf@[2] != COMMAND_KEEPALIVE_RESPONSE) ==> (
            r matches Err(e) && e is Deserialization),
    {
        if buf.len() < 3 {
            return Err(
                EmberError::Deserialization("frame body too short for a command".to_string()),
            );
        }
        if buf[2] == COMMAND_EMBER_PACKET {
            if buf.len() < 4 {
                return Err(
                    EmberError::Deserialization("frame body too short for a packet".to_string()),
                );
            }
            let sub = vstd::slice::slice_subrange(buf, 4, buf.len());
            proof {
                assert(sub@.len() == buf@.len() - 4);
                if buf@.len() >= 5 {
                    assert(sub@[0] == buf@[4]);
                }
            }
            match EmberPacket::from_bytes(sub) {
                Ok(p) => Ok(NonEscapingS101Frame::EmberPacket(p)),
                Err(e) => Err(e),
            }
        } else if buf[2] == COMMAND_KEEPALIVE_REQUEST {
            Ok(NonEscapingS101Frame::KeepaliveRequest)
        } else if buf[2] == COMMAND_KEEPALIVE_RESPONSE {
            Ok(NonEscapingS101Frame::KeepaliveResponse)
        } else {
            Err(EmberError::Deserialization("invalid command byte".to_string()))
        }
    }
}

/// What the front of a valid non-escaping encoding holds: the start byte,
/// the count of length octets, their value, and the body.
pub proof fn lemma_non_escaping_parse(m: FrameModel, rest: Seq<u8>, data: Seq<u8>)
    requires
        data == non_escaping_encoding(m) + rest,
        frame_body_bytes(m).len() <= 0xFFFF,
        decodable(m),
    ensures
        data.len() >= 2 + len_octets(frame_body_bytes(m).len() as int).len()
            + frame_body_bytes(m).len(),
        data[0] == BOFNE,
        data[1] == len_octets(frame_body_bytes(m).len() as int).len() as u8,
        1 <= data[1] <= 2,
        be_value(
            data.subrange(2, 2 + len_octets(frame_body_bytes(m).len() as int).len() as int),
        ) == frame_body_bytes(m).len(),
        data.subrange(
            2 + len_octets(frame_body_bytes(m).len() as int).len() as int,
            2 + len_octets(frame_body_bytes(m).len() as int).len() as int + frame_body_bytes(
                m,
            ).len() as int,
        ) == frame_body_bytes(m),
        frame_body_bytes(m).len() >= 4,
        frame_body_bytes(m)[2] == frame_command(m),
        m matches FrameModel::EmberPacket(p) ==> frame_body_bytes(m).len() >= 10
            && frame_body_bytes(m).subrange(4, frame_body_bytes(m).len() as int) == packet_bytes(
            p,
        ),
{
    let fbb = frame_body_bytes(m);
    let n = fbb.len() as int;
    lemma_len_octets_value(n);
    let c = len_octets(n).len() as int;
    assert(data.subrange(2, 2 + c) =~= len_octets(n));
    assert(data.subrange(2 + c, 2 + c + n) =~= fbb);
    if let FrameModel::EmberPacket(p) = m {
        assert(fbb.subrange(4, n) =~= packet_bytes(p));
    }
}

impl S101Frame {
    /// Reads one frame from the front of `data`, in whichever framing its
    /// first byte announces. `Incomplete` means more bytes must arrive
    /// first; `Empty` is a non-escaping frame with nothing in it, to be
    /// skipped. Reads back exactly what [`Self::encode`] wrote.
    pub fn decode(data: &[u8]) -> (r: Result<Decoded, EmberError>)
        ensures
            data@.len() == 0 ==> (r matches Ok(d) && d is Incomplete),
            (data@.len() > 0 && data@[0] != BOF && data@[0] != BOFNE) ==> (r matches Err(e)
                && e is Deserialization),
            forall|m: FrameModel, rest: Seq<u8>|
                #![trigger escaping_encoding(m).add(rest)]
                (decodable(m) && data@ == escaping_encoding(m) + rest) ==> (r matches Ok(d)
                    && d matches Decoded::Frame(f, n) && f@ == S101FrameModel::Escaping(m) && n
                    == escaping_encoding(m).len()),
            forall|m: FrameModel, rest: Seq<u8>|
                #![trigger non_escaping_encoding(m).add(rest)]
                (decodable(m) && frame_body_bytes(m).len() <= 0xFFFF && data@
                    == non_escaping_encoding(m) + rest) ==> (r matches Ok(d)
                    && d matches Decoded::Frame(f, n) && f@ == S101FrameModel::NonEscaping(m) && n
                    == non_escaping_encoding(m).len()),
            r matches Ok(d) ==> (d matches Decoded::Frame(f, n) ==> 2 <= n <= data@.len()),
            r matches Ok(d) ==> (d matches Decoded::Empty(n) ==> 2 <= n <= data@.len()),
            (data@.len() > 0 && data@[0] == BOF) ==> ({
                let stop = first_stop(data@, 1);
                let body = unescape_from(data@.subrange(1, stop), false);
                &&& (stop == data@.len() ==> (r matches Ok(o) && o is Incomplete))
                &&& (stop < data@.len() && data@[stop] == BOF ==> (r matches Err(er)
                    && er is Deserialization))
                &&& (stop < data@.len() && data@[stop] == EOF && crc_of(body) != CRC_CHECK ==> (
                r matches Err(er) && er is Deserialization))
                &&& (stop < data@.len() && data@[stop] == EOF && crc_of(body) == CRC_CHECK
                    ==> match frame_of_body(body, true) {
                    Some(m) => r matches Ok(o) && o matches Decoded::Frame(f, n) && f@
                        == S101FrameModel::Escaping(m) && n == stop + 1,
                    None => r is Err,
                })
            }),
            (data@.len() > 0 && data@[0] == BOFNE) ==> ({
                &&& (data@.len() < 2 ==> (r matches Ok(o) && o is Incomplete))
                &&& (data@.len() >= 2 && data@[1] == 0 ==> (r matches Ok(o)
                    && o matches Decoded::Empty(n) && n == 2))
                &&& (data@.len() >= 2 && data@[1] > 8 ==> (r matches Err(er)
                    && er is Deserialization))
                &&& (data@.len() >= 2 && 1 <= data@[1] <= 8 && data@.len() < 2 + data@[1] ==> (
                r matches Ok(o) && o is Incomplete))
                &&& (data@.len() >= 2 && 1 <= data@[1] <= 8 && data@.len() >= 2 + data@[1] ==> ({
                    let count = data@[1] as int;
                    let body_len = be_value(data@.subrange(2, 2 + count));
                    &&& (body_len == 0 ==> (r matches Ok(o) && o matches Decoded::Empty(n) && n
                        == 2 + count))
                    &&& (body_len > data@.len() - 2 - count ==> (r matches Ok(o)
                        && o is Incomplete))
                    &&& (0 < body_len <= data@.len() - 2 - count ==> match frame_of_body(
                        data@.subrange(2 + count, 2 + count + body_len),
                        false,
                    ) {
                        Some(m) => r matches Ok(o) && o matches Decoded::Frame(f, n) && f@
                            == S101FrameModel::NonEscaping(m) && n == 2 + count + body_len,
                        None => r is Err,
                    })
                }))
            }),
    {
        let ghost dd = data@;
        if data.len() == 0 {
            return Ok(Decoded::Incomplete);
        }
        if data[0] == BOF {
            proof {
                assert forall|m: FrameModel, rest: Seq<u8>|
                    !(decodable(m) && frame_body_bytes(m).len() <= 0xFFFF && dd
                        == non_escaping_encoding(m).add(rest)) by {
                    if decodable(m) && frame_body_bytes(m).len() <= 0xFFFF && dd
                        == non_escaping_encoding(m) + rest {
                        lemma_non_escaping_parse(m, rest, dd);
                    }
                }
            }
            match EscapingS101Frame::decode(data) {
                Ok(Some((f, n))) => Ok(Decoded::Frame(S101Frame::Escaping(f), n)),
                Ok(None) => Ok(Decoded::Incomplete),
                Err(e) => Err(e),
            }
        } else if data[0] == BOFNE {
            proof {
                assert forall|m: FrameModel, rest: Seq<u8>|
                    !(decodable(m) && dd == escaping_encoding(m).add(rest)) by {
                    if decodable(m) && dd == escaping_encoding(m) + rest {
                        lemma_escaping_eof_position(m, rest, dd);
                    }
                }
            }
            Self::decode_non_escaping(data)
        } else {
            proof {
                assert forall|m: FrameModel, rest: Seq<u8>|
                    !(decodable(m) && dd == escaping_encoding(m).add(rest)) by {
                    if decodable(m) && dd == escaping_encoding(m) + rest {
                        lemma_escaping_eof_position(m, rest, dd);
                    }
                }
                assert forall|m: FrameModel, rest: Seq<u8>|
                    !(decodable(m) && frame_body_bytes(m).len() <= 0xFFFF && dd
                        == non_escaping_encoding(m).add(rest)) by {
                    if decodable(m) && frame_body_bytes(m).len() <= 0xFFFF && dd
                        == non_escaping_encoding(m) + rest {
                        lemma_non_escaping_parse(m, rest, dd);
                    }
                }
            }
            Err(EmberError::Deserialization("invalid first byte".to_string()))
        }
    }

    /// Reads one non-escaping frame: the count of length octets, the
    /// big-endian length, the body verbatim.
    #[verifier::rlimit(80)]
    fn decode_non_escaping(data: &[u8]) -> (r: Result<Decoded, EmberError>)
        requires
            data@.len() >= 1,
            data@[0] == BOFNE,
        ensures
            forall|m: FrameModel, rest: Seq<u8>|
                #![trigger non_escaping_encoding(m).add(rest)]
                (decodable(m) && frame_body_bytes(m).len() <= 0xFFFF && data@
                    == non_escaping_encoding(m) + rest) ==> (r matches Ok(d)
                    && d matches Decoded::Frame(f, n) && f@ == S101FrameModel::NonEscaping(m) && n
                    == non_escaping_encoding(m).len()),
            r matches Ok(d) ==> (d matches Decoded::Frame(f, n) ==> 2 <= n <= data@.len()),
            r matches Ok(d) ==> (d matches Decoded::Empty(n) ==> 2 <= n <= data@.len()),
            (r matches Ok(d) && d is Frame) ==> data@.len() >= 2,
            data@.len() < 2 ==> (r matches Ok(o) && o is Incomplete),
            (data@.len() >= 2 && data@[1] == 0) ==> (r matches Ok(o) && o matches Decoded::Empty(
                n,
            ) && n == 2),
            (data@.len() >= 2 && data@[1] > 8) ==> (r matches Err(er) && er is Deserialization),
            (data@.len() >= 2 && 1 <= data@[1] <= 8 && data@.len() < 2 + data@[1]) ==> (
            r matches Ok(o) && o is Incomplete),
            (data@.len() >= 2 && 1 <= data@[1] <= 8 && data@.len() >= 2 + data@[1]) ==> ({
                let count = data@[1] as int;
                let body_len = be_value(data@.subrange(2, 2 + count));
                &&& (body_len == 0 ==> (r matches Ok(o) && o matches Decoded::Empty(n) && n == 2
                    + count))
                &&& (body_len > data@.len() - 2 - count ==> (r matches Ok(o) && o is Incomplete))
                &&& (0 < body_len <= data@.len() - 2 - count ==> match frame_of_body(
                    data@.subrange(2 + count, 2 + count + body_len),
                    false,
                ) {
                    Some(m) => r matches Ok(o) && o matches Decoded::Frame(f, n) && f@
                        == S101FrameModel::NonEscaping(m) && n == 2 + count + body_len,
                    None => r is Err,
                })
            }),
    {
        let ghost dd = data@;
        if data.len() < 2 {
            proof {
                assert forall|m: FrameModel, rest: Seq<u8>|
                    !(decodable(m) && frame_body_bytes(m).len() <= 0xFFFF && dd
                        == non_escaping_encoding(m).add(rest)) by {
                    if decodable(m) && frame_body_bytes(m).len() <= 0xFFFF && dd
                        == non_escaping_encoding(m) + rest {
                        lemma_non_escaping_parse(m, rest, dd);
                    }
                }
            }
            return Ok(Decoded::Incomplete);
        }
        let count = data[1] as usize;
        if count == 0 {
            proof {
                assert forall|m: FrameModel, rest: Seq<u8>|
                    !(decodable(m) && frame_body_bytes(m).len() <= 0xFFFF && dd
                        == non_escaping_encoding(m).add(rest)) by {
                    if decodable(m) && frame_body_bytes(m).len() <= 0xFFFF && dd
                        == non_escaping_encoding(m) + rest {
                        lemma_non_escaping_parse(m, rest, dd);
                    }
                }
            }
            return Ok(Decoded::Empty(2));
        }
        if count > 8 {
            proof {
                assert forall|m: FrameModel, rest: Seq<u8>|
                    !(decodable(m) && frame_body_bytes(m).len() <= 0xFFFF && dd
                        == non_escaping_encoding(m).add(rest)) by {
                    if decodable(m) && frame_body_bytes(m).len() <= 0xFFFF && dd
                        == non_escaping_encoding(m) + rest {
                        lemma_non_escaping_parse(m, rest, dd);
                    }
                }
            }
            return Err(EmberError::Deserialization("invalid length octet count".to_string()));
        }
        if data.len() < 2 + count {
            proof {
                assert forall|m: FrameModel, rest: Seq<u8>|
                    !(decodable(m) && frame_body_bytes(m).len() <= 0xFFFF && dd
                        == non_escaping_encoding(m).add(rest)) by {
                    if decodable(m) && frame_body_bytes(m).len() <= 0xFFFF && dd
                        == non_escaping_encoding(m) + rest {
                        lemma_non_escaping_parse(m, rest, dd);
                    }
                }
            }
            return Ok(Decoded::Incomplete);
        }
        let mut plen: u64 = 0;
        let mut k: usize = 0;
        proof {
            vstd::arithmetic::power2::lemma2_to64();
            assert(dd.subrange(2, 2) =~= Seq::<u8>::empty());
        }
        while k < count
            invariant
                k <= count <= 8,
                dd == data@,
                dd.len() >= 2 + count,
                plen == be_value(dd.subrange(2, 2 + k as int)),
                plen < vstd::arithmetic::power2::pow2((8 * k) as nat),
            decreases count - k,
        {
            proof {
                vstd::arithmetic::power2::lemma2_to64();
                vstd::arithmetic::power2::lemma_pow2_adds((8 * k) as nat, 8);
                if k < 7 {
                    vstd::arithmetic::power2::lemma_pow2_strictly_increases(
                        (8 * k) as nat,
                        56,
                    );
                }
                vstd::arithmetic::power2::lemma_pow2_adds(56, 8);
                assert(dd.subrange(2, 2 + (k + 1) as int).drop_last() =~= dd.subrange(
                    2,
                    2 + k as int,
                ));
            }
            plen = plen * 256 + (data[2 + k] as u64);
            k += 1;
        }
        if plen == 0 {
            proof {
                assert forall|m: FrameModel, rest: Seq<u8>|
                    !(decodable(m) && frame_body_bytes(m).len() <= 0xFFFF && dd
                        == non_escaping_encoding(m).add(rest)) by {
                    if decodable(m) && frame_body_bytes(m).len() <= 0xFFFF && dd
                        == non_escaping_encoding(m) + rest {
                        lemma_non_escaping_parse(m, rest, dd);
                    }
                }
            }
            return Ok(Decoded::Empty(2 + count));
        }
        let avail = data.len() - 2 - count;
        if plen > avail as u64 {
            proof {
                assert forall|m: FrameModel, rest: Seq<u8>|
                    !(decodable(m) && frame_body_bytes(m).len() <= 0xFFFF && dd
                        == non_escaping_encoding(m).add(rest)) by {
                    if decodable(m) && frame_body_bytes(m).len() <= 0xFFFF && dd
                        == non_escaping_encoding(m) + rest {
                        lemma_non_escaping_parse(m, rest, dd);
                    }
                }
            }
            return Ok(Decoded::Incomplete);
        }
        let start = 2 + count;
        let end = start + (plen as usize);
        let body = vstd::slice::slice_subrange(data, start, end);
        proof {
            assert(body@.len() == plen);
            if body@.len() >= 5 {
                assert(body@[2] == dd[start + 2]);
                assert(body@[4] == dd[start + 4]);
            }
        }
        match NonEscapingS101Frame::from_bytes(body) {
            Ok(f) => {
                proof {
                    assert forall|m: FrameModel, rest: Seq<u8>|
                        (decodable(m) && frame_body_bytes(m).len() <= 0xFFFF && dd
                            == non_escaping_encoding(m).add(rest)) implies (f@ == m && end
                        == non_escaping_encoding(m).len()) by {
                        lemma_non_escaping_parse(m, rest, dd);
                        assert(body@ =~= frame_body_bytes(m));
                        if let FrameModel::EmberPacket(p) = m {
                            assert(packet_bytes(p) == body@.subrange(4, body@.len() as int));
                            if let NonEscapingS101Frame::EmberPacket(q) = f {
                                lemma_packet_bytes_injective(q@, p);
                            }
                        }
                    }
                    if body@[2] == COMMAND_EMBER_PACKET {
                        lemma_flag_decode_exists(body@[4]);
                        let pb = body@.subrange(4, body@.len() as int);
                        lemma_packet_model_bytes(pb);
                        if let NonEscapingS101Frame::EmberPacket(q) = &f {
                            assert(packet_bytes(q@) == pb);
                            lemma_packet_bytes_injective(q@, packet_model_of(pb));
                        }
                    }
                    assert(frame_of_body(body@, false) matches Some(m) && f@ == m);
                }
                Ok(Decoded::Frame(S101Frame::NonEscaping(f), end))
            },
            Err(e) => {
                proof {
                    if body@.len() >= 5 {
                        lemma_flag_decode_exists(body@[4]);
                    }
                    assert(frame_of_body(body@, false) is None);
                    assert forall|m: FrameModel, rest: Seq<u8>|
                        !(decodable(m) && frame_body_bytes(m).len() <= 0xFFFF && dd
                            == non_escaping_encoding(m).add(rest)) by {
                        if decodable(m) && frame_body_bytes(m).len() <= 0xFFFF && dd
                            == non_escaping_encoding(m) + rest {
                            lemma_non_escaping_parse(m, rest, dd);
                            assert(body@ =~= frame_body_bytes(m));
                            if let FrameModel::EmberPacket(p) = m {
                                assert(flag_code(p.flag) == body@[4]);
                            }
                        }
                    }
                }
                Err(e)
            },
        }
    }
}

/// Two packets with the same wire bytes are the same packet.
pub proof fn lemma_packet_bytes_injective(a: PacketModel, b: PacketModel)
    requires
        packet_bytes(a) == packet_bytes(b),
    ensures
        a == b,
{
    assert(flag_code(a.flag) == packet_bytes(a)[0] && flag_code(b.flag) == packet_bytes(b)[0]);
    assert(a.flag == b.flag);
    assert(a.dtd == packet_bytes(a)[1] && b.dtd == packet_bytes(b)[1]);
    assert(a.app_bytes == packet_bytes(a)[2] && b.app_bytes == packet_bytes(b)[2]);
    assert(a.glow_version_min == packet_bytes(a)[3] && b.glow_version_min == packet_bytes(b)[3]);
    assert(a.glow_version_maj == packet_bytes(a)[4] && b.glow_version_maj == packet_bytes(b)[4]);
    assert(a.payload =~= packet_bytes(a).subrange(5, packet_bytes(a).len() as int));
    assert(b.payload =~= packet_bytes(b).subrange(5, packet_bytes(b).len() as int));
}

/// `k` polynomial rounds of the CRC.
pub open spec fn crc_rounds(c: u16, k: nat) -> u16
    decreases k,
{
    if k == 0 {
        c
    } else {
        crc_round(crc_rounds(c, (k - 1) as nat))
    }
}

/// Eight unrolled rounds are the byte update.
pub proof fn lemma_crc_rounds_eq(crc: u16, b: u8)
    ensures
        crc_rounds(crc ^ (b as u16), 8) == crc_update(crc, b),
{
    reveal_with_fuel(crc_rounds, 9);
}

} // verus!
