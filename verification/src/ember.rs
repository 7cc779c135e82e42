//! The Glow packet envelope: a five byte header followed by a fragment of a
//! BER-encoded Glow payload.

use vstd::prelude::*;

use crate::error::EmberError;
use crate::s101::{flag_code, Flags};

verus! {

/// The largest payload fragment carried by one packet.
pub const MAX_PAYLOAD_LEN: usize = 1024;

/// The mathematical content of an [`EmberPacket`].
pub ghost struct PacketModel {
    pub flag: Flags,
    pub dtd: u8,
    pub app_bytes: u8,
    pub glow_version_maj: u8,
    pub glow_version_min: u8,
    pub payload: Seq<u8>,
}

/// The wire bytes of a packet: `[flag, dtd, app bytes, version minor,
/// version major]` followed by the payload fragment.
pub open spec fn packet_bytes(p: PacketModel) -> Seq<u8> {
    seq![
        flag_code(p.flag),
        p.dtd,
        p.app_bytes,
        p.glow_version_min,
        p.glow_version_maj,
    ] + p.payload
}

/// One fragment of a Glow message, together with its position flag, DTD
/// marker and Glow schema version.
#[derive(Debug, Clone, PartialEq)]
pub struct EmberPacket {
    flag: Flags,
    dtd: u8,
    app_bytes: u8,
    glow_version_maj: u8,
    glow_version_min: u8,
    payload: Vec<u8>,
}

impl View for EmberPacket {
    type V = PacketModel;

    closed spec fn view(&self) -> PacketModel {
        PacketModel {
            flag: self.flag,
            dtd: self.dtd,
            app_bytes: self.app_bytes,
            glow_version_maj: self.glow_version_maj,
            glow_version_min: self.glow_version_min,
            payload: self.payload@,
        }
    }
}

impl EmberPacket {
    /// A packet with the standard DTD marker `0x01` and application byte
    /// count `0x02`.
    pub fn new(flag: Flags, glow_version_maj: u8, glow_version_min: u8, payload: Vec<u8>) -> (r:
        Self)
        ensures
            r@ == (PacketModel {
                flag,
                dtd: 0x01,
                app_bytes: 0x02,
                glow_version_maj,
                glow_version_min,
                payload: payload@,
            }),
    {
        Self { flag, dtd: 0x01, app_bytes: 0x02, glow_version_maj, glow_version_min, payload }
    }

    pub fn set_flag(&mut self, flag: Flags)
        ensures
            final(self)@ == (PacketModel { flag, ..old(self)@ }),
    {
        self.flag = flag;
    }

    pub fn flag(&self) -> (r: Flags)
        ensures
            r == self@.flag,
    {
        self.flag
    }

    pub fn set_glow_dtd_version(&mut self, major: u8, minor: u8)
        ensures
            final(self)@ == (PacketModel {
                glow_version_maj: major,
                glow_version_min: minor,
                ..old(self)@
            }),
    {
        self.glow_version_maj = major;
        self.glow_version_min = minor;
    }

    pub fn payload(&self) -> (r: &Vec<u8>)
        ensures
            r@ == self@.payload,
    {
        &self.payload
    }

    /// Replaces the payload fragment, keeping header and flag.
    pub fn set_payload(&mut self, payload: Vec<u8>)
        ensures
            final(self)@ == (PacketModel { payload: payload@, ..old(self)@ }),
    {
        self.payload = payload;
    }

    /// The length of the wire form: the payload plus the three fixed header
    /// bytes plus the application bytes (two in every packet this library
    /// builds).
    pub fn len(&self) -> (r: usize)
        requires
            self@.payload.len() + 3 + self@.app_bytes <= usize::MAX,
        ensures
            r == self@.payload.len() + 3 + self@.app_bytes,
    {
        self.payload.len() + 3 + self.app_bytes as usize
    }

    /// A packet is empty when its flag marks it as an empty packet.
    pub fn is_empty(&self) -> (r: bool)
        ensures
            r == (self@.flag == Flags::EmptyPacket),
    {
        match self.flag {
            Flags::EmptyPacket => true,
            _ => false,
        }
    }

    /// The wire bytes of this packet.
    pub fn to_bytes(&self) -> (r: Vec<u8>)
        ensures
            r@ == packet_bytes(self@),
    {
        let mut buf: Vec<u8> = Vec::new();
        buf.push(self.flag.code());
        buf.push(self.dtd);
        buf.push(self.app_bytes);
        buf.push(self.glow_version_min);
        buf.push(self.glow_version_maj);
        let mut i: usize = 0;
        while i < self.payload.len()
            invariant
                i <= self.payload@.len(),
                buf@ == packet_bytes(self@).subrange(0, 5 + i as int),
            decreases self.payload@.len() - i,
        {
            buf.push(self.payload[i]);
            i += 1;
            proof {
                assert(buf@ =~= packet_bytes(self@).subrange(0, 5 + i as int));
            }
        }
        proof {
            assert(buf@ =~= packet_bytes(self@));
        }
        buf
    }

    /// Reads a packet back from its wire bytes. Fails on a buffer shorter
    /// than six bytes and on an unknown position flag.
    pub fn from_bytes(buf: &[u8]) -> (r: Result<Self, EmberError>)
        ensures
            buf@.len() <= 5 ==> (r matches Err(e) && e is Deserialization),
            r matches Ok(p) ==> buf@.len() > 5 && packet_bytes(p@) == buf@,
            r matches Ok(p) ==> flag_code(p@.flag) == buf@[0] && p@.dtd == buf@[1] && p@.app_bytes
                == buf@[2] && p@.glow_version_min == buf@[3] && p@.glow_version_maj == buf@[4]
                && p@.payload == buf@.subrange(5, buf@.len() as int),
            buf@.len() > 5 ==> (r matches Ok(p) <==> (exists|f: Flags| flag_code(f) == buf@[0])),
            (buf@.len() > 5 && !(exists|f: Flags| flag_code(f) == buf@[0])) ==> (r matches Err(e)
                && e is S101Decode),
    {
        if buf.len() <= 5 {
            return Err(
                EmberError::Deserialization("invalid packet length (minimum is 6)".to_string()),
            );
        }
        let flag = match Flags::from_code(buf[0]) {
            Ok(f) => f,
            Err(e) => {
                proof {
                    assert(forall|f: Flags| flag_code(f) != buf@[0]);
                }
                return Err(e);
            },
        };
        let mut payload: Vec<u8> = Vec::new();
        let mut i: usize = 5;
        while i < buf.len()
            invariant
                5 <= i <= buf@.len(),
                payload@ == buf@.subrange(5, i as int),
            decreases buf@.len() - i,
        {
            payload.push(buf[i]);
            i += 1;
            proof {
                assert(payload@ =~= buf@.subrange(5, i as int));
            }
        }
        let p = Self {
            flag,
            dtd: buf[1],
            app_bytes: buf[2],
            glow_version_min: buf[3],
            glow_version_maj: buf[4],
            payload,
        };
        proof {
            assert(packet_bytes(p@) =~= buf@);
        }
        Ok(p)
    }
}

} // verus!
