//! Decoding of QUIC packet headers from untrusted bytes, before any
//! connection is known: version and connection IDs of any packet, and the
//! whole of a long header. Every function is a pure function of the buffer
//! it is given, and what it returns is stated and proved.

pub mod error;
pub mod laws;
pub mod path;
pub mod pkt;
pub mod types;
pub mod wire;

pub use pkt::decode_hd_long as pkt_decode_hd_long;
pub use pkt::decode_version_cid as pkt_decode_version_cid;

use vstd::prelude::*;

verus! {

/// The version of a library: a number that packs major, minor and patch
/// level, one byte each from bit 16 down, and the same as text.
pub struct Version {
    pub version_num: i32,
    pub version_str: &'static str,
}

impl Version {
    /// The major level: the third byte of the number, counted from the lowest.
    pub fn major(&self) -> (r: u8)
        ensures
            r as int == (self.version_num as int / 0x1_0000) % 0x100,
    {
        let v: i32 = self.version_num;
        assert(((v >> 16u32) & 0xff) as int == (v as int / 0x1_0000) % 0x100) by (bit_vector);
        assert(0 <= ((v >> 16u32) & 0xff) < 0x100) by (bit_vector);
        ((v >> 16u32) & 0xff) as u8
    }

    /// The minor level: the second byte of the number.
    pub fn minor(&self) -> (r: u8)
        ensures
            r as int == (self.version_num as int / 0x100) % 0x100,
    {
        let v: i32 = self.version_num;
        assert(((v >> 8u32) & 0xff) as int == (v as int / 0x100) % 0x100) by (bit_vector);
        assert(0 <= ((v >> 8u32) & 0xff) < 0x100) by (bit_vector);
        ((v >> 8u32) & 0xff) as u8
    }

    /// The patch level: the lowest byte of the number.
    pub fn patch(&self) -> (r: u8)
        ensures
            r as int == self.version_num as int % 0x100,
    {
        let v: i32 = self.version_num;
        assert((v & 0xff) as int == v as int % 0x100) by (bit_vector);
        assert(0 <= (v & 0xff) < 0x100) by (bit_vector);
        (v & 0xff) as u8
    }
}

} // verus!
