use vstd::prelude::*;

use crate::bytes::{ByteCursor, u32_le};
use crate::OggError;

verus! {

broadcast use crate::bytes::ByteCursor::lemma_wf_bounds;

/// The codec setup record carried by the first logical packet of a stream:
/// fixed-layout fields that must be read before any decoding can happen.
#[derive(Debug, Clone, Copy, PartialEq, Eq, Structural)]
pub struct IdentificationHeader {
    pub audio_channels: u8,
    pub audio_sample_rate: u32,
    pub bitrate_maximum: u32,
    pub bitrate_nominal: u32,
    pub bitrate_minimum: u32,
    pub blocksizes: u8,
}

/// The six magic bytes ("vorbis") that follow the packet type byte.
pub open spec fn vorbis_magic() -> Seq<u8> {
    seq![0x76u8, 0x6fu8, 0x72u8, 0x62u8, 0x69u8, 0x73u8]
}

/// What parsing the identification record at `pos` yields.
pub ghost enum IdentParse {
    Fail(OggError),
    Parsed(IdentificationHeader),
}

/// The identification record, parsed from `data` at `pos`. Byte layout: a
/// packet type byte that must be 1, the six magic bytes, a 32-bit format
/// version that must be zero, the channel count, the 32-bit sample rate,
/// the three 32-bit bitrate fields, and the block-size encoding byte.
pub open spec fn spec_parse_ident(data: Seq<u8>, pos: int) -> IdentParse {
    if pos + 1 > data.len() {
        IdentParse::Fail(OggError::TruncatedIdent)
    } else if data[pos] != 1 {
        IdentParse::Fail(OggError::BadIdentPacketType)
    } else if pos + 7 > data.len() {
        IdentParse::Fail(OggError::TruncatedIdent)
    } else if data.subrange(pos + 1, pos + 7) != vorbis_magic() {
        IdentParse::Fail(OggError::BadIdentMagic)
    } else if pos + 11 > data.len() {
        IdentParse::Fail(OggError::TruncatedIdent)
    } else if u32_le(data.subrange(pos + 7, pos + 11)) != 0 {
        IdentParse::Fail(OggError::BadIdentVersion)
    } else if pos + 29 > data.len() {
        IdentParse::Fail(OggError::TruncatedIdent)
    } else {
        IdentParse::Parsed(
            IdentificationHeader {
                audio_channels: data[pos + 11],
                audio_sample_rate: u32_le(data.subrange(pos + 12, pos + 16)),
                bitrate_maximum: u32_le(data.subrange(pos + 16, pos + 20)),
                bitrate_nominal: u32_le(data.subrange(pos + 20, pos + 24)),
                bitrate_minimum: u32_le(data.subrange(pos + 24, pos + 28)),
                blocksizes: data[pos + 28],
            },
        )
    }
}

impl IdentificationHeader {
    /// Parse the identification record at the cursor's position. A record
    /// with the wrong type byte, magic or version, or one that ends early,
    /// is an error.
    pub fn from_reader(rdr: &mut ByteCursor) -> (r: Result<IdentificationHeader, OggError>)
        requires
            old(rdr).wf(),
        ensures
            final(rdr).wf(),
            final(rdr).bytes() == old(rdr).bytes(),
            match spec_parse_ident(old(rdr).bytes(), old(rdr).pos()) {
                IdentParse::Fail(e) => r matches Err(e2) && e2 == e,
                IdentParse::Parsed(h) => r matches Ok(h2) && h2 == h && final(rdr).pos() == old(
                    rdr,
                ).pos() + 29,
            },
    {
        let packet_type = match rdr.read_u8() {
            None => {
                return Err(OggError::TruncatedIdent);
            },
            Some(v) => v,
        };
        if packet_type != 1 {
            return Err(OggError::BadIdentPacketType);
        }
        let magic = match rdr.read_bytes(6) {
            None => {
                return Err(OggError::TruncatedIdent);
            },
            Some(v) => v,
        };
        if !(magic[0] == 0x76 && magic[1] == 0x6f && magic[2] == 0x72 && magic[3] == 0x62
            && magic[4] == 0x69 && magic[5] == 0x73) {
            return Err(OggError::BadIdentMagic);
        }
        proof {
            assert(old(rdr).bytes().subrange(old(rdr).pos() + 1, old(rdr).pos() + 7)
                =~= vorbis_magic());
        }
        let vorbis_version = match rdr.read_u32_le() {
            None => {
                return Err(OggError::TruncatedIdent);
            },
            Some(v) => v,
        };
        if vorbis_version != 0 {
            return Err(OggError::BadIdentVersion);
        }
        let audio_channels = match rdr.read_u8() {
            None => {
                return Err(OggError::TruncatedIdent);
            },
            Some(v) => v,
        };
        let audio_sample_rate = match rdr.read_u32_le() {
            None => {
                return Err(OggError::TruncatedIdent);
            },
            Some(v) => v,
        };
        let bitrate_maximum = match rdr.read_u32_le() {
            None => {
                return Err(OggError::TruncatedIdent);
            },
            Some(v) => v,
        };
        let bitrate_nominal = match rdr.read_u32_le() {
            None => {
                return Err(OggError::TruncatedIdent);
            },
            Some(v) => v,
        };
        let bitrate_minimum = match rdr.read_u32_le() {
            None => {
                return Err(OggError::TruncatedIdent);
            },
            Some(v) => v,
        };
        let blocksizes = match rdr.read_u8() {
            None => {
                return Err(OggError::TruncatedIdent);
            },
            Some(v) => v,
        };
        Ok(
            IdentificationHeader {
                audio_channels,
                audio_sample_rate,
                bitrate_maximum,
                bitrate_nominal,
                bitrate_minimum,
                blocksizes,
            },
        )
    }
}

} // verus!
