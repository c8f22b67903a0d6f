//! The fixed-layout world-header parser: a short, constant-layout record read
//! in Little byte order, with constant-value validation of the fields whose
//! meaning is known and verbatim retention of those still opaque.

use vstd::prelude::*;
use crate::cursor::{ByteView, Endian, val16, val32};

verus! {

/// The magic constant at the head of a world file, as read in Little order.
pub const HEADER_MAGIC_LE: u32 = 0x534a4325;

/// Header parse failure. Fatal; no partial record. `InvalidHeader` means a
/// fixed-constant field within the buffer did not match its expected value;
/// `OutOfBounds` means a fixed-width read ran past the end of the buffer
/// before any constant field mismatched, and is propagated as the read
/// failure it is, never folded into `InvalidHeader`.
#[derive(Clone, Copy, Debug, PartialEq, Eq, Structural)]
pub enum Error {
    InvalidHeader,
    OutOfBounds,
}

/// A partially reverse-engineered fixed-layout world header. `magic`, the
/// `version` byte and a trailing pad byte are validated against constants;
/// the two `__unknown` fields and `size` are retained verbatim, with no
/// meaning assigned yet; `town` is the boolean reading of one byte.
#[derive(Debug, Default)]
pub struct WorldHeader {
    /// Magic number
    pub magic: u32,
    /// Version
    pub version: u8,
    pub __unknown0: u16,
    pub __unknown1: u16,
    pub size: u16,
    pub town: bool,
}

/// A world file, of which only the leading header is understood so far.
#[derive(Debug, Default)]
pub struct World {
    pub header: WorldHeader,
}

/// The fixed 13-byte header parses successfully: the buffer is long enough,
/// the magic and version match their expected constants, and the trailing
/// pad byte is zero.
pub open spec fn header_ok(s: Seq<u8>) -> bool {
    &&& s.len() >= 13
    &&& val32(s, 0, Endian::Little) == HEADER_MAGIC_LE
    &&& s[4] == 1
    &&& s[12] == 0
}

/// A constant field that lies within the buffer fails its validation: the
/// magic differs, or the magic holds but the version byte is not 1, or both
/// hold in a full-length header but the trailing pad byte is not zero.
pub open spec fn header_mismatch(s: Seq<u8>) -> bool {
    ||| (s.len() >= 4 && val32(s, 0, Endian::Little) != HEADER_MAGIC_LE)
    ||| (s.len() >= 5 && val32(s, 0, Endian::Little) == HEADER_MAGIC_LE && s[4] != 1)
    ||| (s.len() >= 13 && val32(s, 0, Endian::Little) == HEADER_MAGIC_LE && s[4] == 1 && s[12]
        != 0)
}

/// The buffer ends before the header does: a fixed-width read runs past the
/// end while every constant field read so far matched.
pub open spec fn header_truncated(s: Seq<u8>) -> bool {
    ||| s.len() < 4
    ||| (4 <= s.len() < 5 && val32(s, 0, Endian::Little) == HEADER_MAGIC_LE)
    ||| (5 <= s.len() < 13 && val32(s, 0, Endian::Little) == HEADER_MAGIC_LE && s[4] == 1)
}

impl World {
    /// Parses the fixed header at the start of `data`, in Little byte order.
    /// Succeeds exactly when `header_ok` holds of the buffer; a mismatched
    /// constant field within the buffer is `InvalidHeader`, a read past the
    /// end of a truncated buffer propagates as `OutOfBounds`, and there is
    /// no partial record either way.
    pub fn parse(data: &[u8]) -> (r: Result<World, Error>)
        ensures
            r is Ok <==> header_ok(data@),
            r is Ok ==> {
                let h = r->Ok_0.header;
                &&& h.magic == HEADER_MAGIC_LE
                &&& h.version == 1
                &&& h.__unknown0 as int == val16(data@, 5, Endian::Little)
                &&& h.__unknown1 as int == val16(data@, 7, Endian::Little)
                &&& h.size as int == val16(data@, 9, Endian::Little)
                &&& h.town == (data@[11] == 1)
            },
            r == Err::<World, Error>(Error::InvalidHeader) <==> header_mismatch(data@),
            r == Err::<World, Error>(Error::OutOfBounds) <==> header_truncated(data@),
    {
        let mut reader = ByteView::new(data);
        reader.set_byte_order(Endian::Little);

        let magic = match reader.read_u32() {
            Ok(v) => v,
            Err(_) => {
                return Err(Error::OutOfBounds);
            },
        };
        if magic != HEADER_MAGIC_LE {
            return Err(Error::InvalidHeader);
        }

        let version = match reader.read_u8() {
            Ok(v) => v,
            Err(_) => {
                return Err(Error::OutOfBounds);
            },
        };
        if version != 1 {
            return Err(Error::InvalidHeader);
        }

        let __unknown0 = match reader.read_u16() {
            Ok(v) => v,
            Err(_) => {
                return Err(Error::OutOfBounds);
            },
        };

        let __unknown1 = match reader.read_u16() {
            Ok(v) => v,
            Err(_) => {
                return Err(Error::OutOfBounds);
            },
        };

        let size = match reader.read_u16() {
            Ok(v) => v,
            Err(_) => {
                return Err(Error::OutOfBounds);
            },
        };

        let town_byte = match reader.read_u8() {
            Ok(v) => v,
            Err(_) => {
                return Err(Error::OutOfBounds);
            },
        };
        let town = town_byte == 1;

        let pad = match reader.read_u8() {
            Ok(v) => v,
            Err(_) => {
                return Err(Error::OutOfBounds);
            },
        };
        if pad != 0 {
            return Err(Error::InvalidHeader);
        }

        Ok(
            World {
                header: WorldHeader { magic, version, __unknown0, __unknown1, size, town },
            },
        )
    }
}

} // verus!
