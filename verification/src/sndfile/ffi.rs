//! The header libsndfile parses, and the numbers it uses in it.

use vstd::prelude::*;

verus! {

/// A parsed header.
#[allow(non_camel_case_types)]
#[derive(Debug, Clone, Copy, PartialEq, Eq, Structural)]
pub struct SF_INFO {
    pub frames: i64,
    pub samplerate: i32,
    pub channels: i32,
    pub format: i32,
    pub sections: i32,
    pub seekable: i32,
}

impl Default for SF_INFO {
    fn default() -> (r: SF_INFO)
        ensures
            r == (SF_INFO {
                frames: 0,
                samplerate: 0,
                channels: 0,
                format: 0,
                sections: 0,
                seekable: 0,
            }),
    {
        SF_INFO { frames: 0, samplerate: 0, channels: 0, format: 0, sections: 0, seekable: 0 }
    }
}

pub const SFM_READ: i32 = 0x10;

pub const SF_FORMAT_TYPEMASK: i32 = 0x0FFF_0000;

pub const SF_FORMAT_SUBMASK: i32 = 0x0000_FFFF;

pub const SF_FORMAT_WAV: i32 = 0x01_0000;

pub const SF_FORMAT_AIFF: i32 = 0x02_0000;

pub const SF_FORMAT_W64: i32 = 0x0B_0000;

pub const SF_FORMAT_WAVEX: i32 = 0x13_0000;

pub const SF_FORMAT_RF64: i32 = 0x22_0000;

pub const SF_FORMAT_PCM_16: i32 = 0x0002;

pub const SF_FORMAT_PCM_24: i32 = 0x0003;

pub const SF_FORMAT_PCM_S8: i32 = 0x0001;

pub const SF_FORMAT_PCM_32: i32 = 0x0004;

pub const SF_FORMAT_PCM_U8: i32 = 0x0005;

pub const SF_FORMAT_FLOAT: i32 = 0x0006;

pub const SF_FORMAT_DOUBLE: i32 = 0x0007;

pub const SF_SEEK_SET: i32 = 0;

pub const SF_SEEK_CUR: i32 = 1;

pub const SF_SEEK_END: i32 = 2;

pub const SF_ERR_NO_ERROR: i32 = 0;

} // verus!
