//! Metadata block headers and the STREAMINFO record.
//!
//! A block header is a 4-byte big-endian word: bit 31 is the last-block
//! flag, bits 30..24 the 7-bit block type code, bits 23..0 the payload
//! length. STREAMINFO is a fixed 34-byte payload whose nine fields are
//! packed at sub-byte bit boundaries.

use vstd::prelude::*;
use vstd::arithmetic::power2::{pow2, lemma_pow2_adds, lemma2_to64, lemma2_to64_rest};
use vstd::arithmetic::div_mod::lemma_small_mod;
use crate::bits::{
    bits_value, lemma_bits_value_bound, lemma_bits_value_byte, lemma_bits_value_concat,
    lemma_bits_value_prefix, lemma_bits_value_subrange, lemma_bits_value_suffix, BitCursor,
};
use crate::error::FlacError;

verus! {

/// The block type carried in the 7-bit code of a header.
///
/// Codes 0 through 6 and 127 have assigned meanings; the codes 7 through
/// 126 are structurally valid but semantically undefined and decode to
/// `Reserved(code)`. Decoding a type code never fails: only the block
/// iterator decides that a `Reserved` or `Forbidden` block aborts a parse.
#[derive(Clone, Copy, PartialEq, Eq, Structural, Debug)]
pub enum Type {
    Streaminfo,
    Padding,
    Application,
    Seektable,
    VorbisComment,
    Cuesheet,
    Picture,
    Forbidden,
    Reserved(u8),
}

impl Type {
    /// The display name of the block type.
    pub fn name(&self) -> (s: &'static str)
        ensures
            match self {
                Type::Streaminfo => s@ == "Streaminfo"@,
                Type::Padding => s@ == "Padding"@,
                Type::Application => s@ == "Application"@,
                Type::Seektable => s@ == "Seektable"@,
                Type::VorbisComment => s@ == "Vorbis Comment"@,
                Type::Cuesheet => s@ == "Cuesheet"@,
                Type::Picture => s@ == "Picture"@,
                Type::Forbidden => s@ == "Forbidden"@,
                Type::Reserved(_) => s@ == "Reserved"@,
            },
    {
        match self {
            Type::Streaminfo => "Streaminfo",
            Type::Padding => "Padding",
            Type::Application => "Application",
            Type::Seektable => "Seektable",
            Type::VorbisComment => "Vorbis Comment",
            Type::Cuesheet => "Cuesheet",
            Type::Picture => "Picture",
            Type::Forbidden => "Forbidden",
            Type::Reserved(_) => "Reserved",
        }
    }
}

/// A decoded metadata block header.
#[derive(Clone, Copy, PartialEq, Eq, Structural, Debug)]
pub struct Header {
    pub is_final_block: bool,
    pub blk_type: Type,
    pub length: u32,
}

/// The block type assigned to a 7-bit code.
pub open spec fn spec_block_type(code: u8) -> Type {
    if code == 0 {
        Type::Streaminfo
    } else if code == 1 {
        Type::Padding
    } else if code == 2 {
        Type::Application
    } else if code == 3 {
        Type::Seektable
    } else if code == 4 {
        Type::VorbisComment
    } else if code == 5 {
        Type::Cuesheet
    } else if code == 6 {
        Type::Picture
    } else if code == 127 {
        Type::Forbidden
    } else {
        Type::Reserved(code)
    }
}

/// The header encoded by a 4-byte word: the top bit of byte 0 is the
/// last-block flag, its remaining 7 bits the type code, and bytes 1 to 3
/// the big-endian payload length.
pub open spec fn spec_header(w: Seq<u8>) -> Header {
    Header {
        is_final_block: w[0] & 0x80 != 0,
        blk_type: spec_block_type(w[0] & 0x7f),
        length: ((w[1] as int) * 0x10000 + (w[2] as int) * 0x100 + (w[3] as int)) as u32,
    }
}

impl Header {
    /// Decodes a 4-byte block header word.
    ///
    /// Never fails: every code that is neither assigned nor forbidden
    /// decodes to `Type::Reserved`. The length always fits 24 bits, and
    /// the last-block flag is exactly bit 31 of the big-endian word.
    pub fn new(raw_header: &[u8; 4]) -> (h: Header)
        ensures
            h == spec_header(raw_header@),
            h.length < 0x1000000,
            h.is_final_block == (bits_value(raw_header@, 0, 1) == 1),
            h.blk_type == spec_block_type(bits_value(raw_header@, 1, 7) as u8),
            h.length == bits_value(raw_header@, 8, 24),
    {
        let b0 = raw_header[0];
        let is_final_block = b0 & 0x80 != 0;
        let code = b0 & 0x7f;
        let blk_type = if code == 0 {
            Type::Streaminfo
        } else if code == 1 {
            Type::Padding
        } else if code == 2 {
            Type::Application
        } else if code == 3 {
            Type::Seektable
        } else if code == 4 {
            Type::VorbisComment
        } else if code == 5 {
            Type::Cuesheet
        } else if code == 6 {
            Type::Picture
        } else if code == 127 {
            Type::Forbidden
        } else {
            Type::Reserved(code)
        };
        let length: u32 = (raw_header[1] as u32) * 0x10000 + (raw_header[2] as u32) * 0x100 + (
        raw_header[3] as u32);
        proof {
            let w = raw_header@;
            lemma2_to64();
            assert(bits_value(w, 0, 1) == 2 * bits_value(w, 0, 0) + crate::bits::bit_of(w, 0));
            assert((b0 & 0x80 != 0) == ((b0 >> 7) & 1 == 1)) by (bit_vector);
            lemma_bits_value_byte(w, 0);
            lemma_bits_value_suffix(w, 0, 1, 8);
            assert(b0 & 0x7f == b0 % 128) by (bit_vector);
            lemma_bits_value_concat(w, 8, 8, 16);
            lemma_bits_value_concat(w, 16, 8, 8);
            lemma_bits_value_byte(w, 1);
            lemma_bits_value_byte(w, 2);
            lemma_bits_value_byte(w, 3);
        }
        Header { is_final_block, blk_type, length }
    }
}

/// The stream-wide parameters carried by a STREAMINFO payload.
///
/// `num_channels` and `bits_per_sample` hold the raw 3- and 5-bit field
/// values as they stand in the payload, without the "minus one" adjustment
/// of the container format's convention.
#[derive(Clone, Copy, PartialEq, Eq, Structural, Debug)]
pub struct Streaminfo {
    /// Minimum block size in samples, a 16-bit field.
    pub min_blk_size: u32,
    /// Maximum block size in samples, a 16-bit field.
    pub max_blk_size: u32,
    /// Minimum frame size in bytes, a 24-bit field; 0 means unknown.
    pub min_frame_size: u32,
    /// Maximum frame size in bytes, a 24-bit field; 0 means unknown.
    pub max_frame_size: u32,
    /// Sample rate in Hz, a 20-bit field.
    pub sample_rate: u32,
    /// Raw 3-bit channel count field.
    pub num_channels: u32,
    /// Raw 5-bit bit depth field.
    pub bits_per_sample: u32,
    /// Total samples per channel, a 36-bit field.
    pub total_sample_count: u64,
    /// MD5 of the unencoded audio as a 128-bit big-endian integer; 0 means
    /// absent.
    pub md5_checksum: u128,
}

/// The size of a STREAMINFO payload in bytes.
pub const STREAMINFO_SIZE: usize = 34;

/// The record packed into the first 34 bytes of a STREAMINFO payload: nine
/// fields of 16, 16, 24, 24, 20, 3, 5, 36 and 128 bits, in document order,
/// 272 bits in all.
pub open spec fn spec_streaminfo(p: Seq<u8>) -> Streaminfo {
    Streaminfo {
        min_blk_size: bits_value(p, 0, 16) as u32,
        max_blk_size: bits_value(p, 16, 16) as u32,
        min_frame_size: bits_value(p, 32, 24) as u32,
        max_frame_size: bits_value(p, 56, 24) as u32,
        sample_rate: bits_value(p, 80, 20) as u32,
        num_channels: bits_value(p, 100, 3) as u32,
        bits_per_sample: bits_value(p, 103, 5) as u32,
        total_sample_count: bits_value(p, 108, 36) as u64,
        md5_checksum: bits_value(p, 144, 128) as u128,
    }
}

impl Streaminfo {
    /// Decodes the STREAMINFO record from the first 34 bytes of `raw_streaminfo`,
    /// reading its nine bit fields in document order; `InsufficientData` if
    /// and only if fewer than 34 bytes are given.
    pub fn new(raw_streaminfo: &[u8]) -> (r: Result<Streaminfo, FlacError>)
        ensures
            match r {
                Ok(si) => raw_streaminfo@.len() >= STREAMINFO_SIZE && si == spec_streaminfo(
                    raw_streaminfo@,
                ),
                Err(e) => e == FlacError::InsufficientData && raw_streaminfo@.len()
                    < STREAMINFO_SIZE,
            },
    {
        if raw_streaminfo.len() < STREAMINFO_SIZE {
            return Err(FlacError::InsufficientData);
        }
        let head: &[u8] = &raw_streaminfo[0..STREAMINFO_SIZE];
        proof {
            lemma_whole_streaminfo_window(raw_streaminfo@);
        }
        let mut cursor = BitCursor::new(head);
        let min_blk = match cursor.read_bits(16) {
            Ok(v) => v,
            Err(e) => { return Err(e) },
        };
        let max_blk = match cursor.read_bits(16) {
            Ok(v) => v,
            Err(e) => { return Err(e) },
        };
        let min_frame = match cursor.read_bits(24) {
            Ok(v) => v,
            Err(e) => { return Err(e) },
        };
        let max_frame = match cursor.read_bits(24) {
            Ok(v) => v,
            Err(e) => { return Err(e) },
        };
        let sample_rate = match cursor.read_bits(20) {
            Ok(v) => v,
            Err(e) => { return Err(e) },
        };
        let num_channels = match cursor.read_bits(3) {
            Ok(v) => v,
            Err(e) => { return Err(e) },
        };
        let bits_per_sample = match cursor.read_bits(5) {
            Ok(v) => v,
            Err(e) => { return Err(e) },
        };
        let total_sample_count = match cursor.read_bits(36) {
            Ok(v) => v,
            Err(e) => { return Err(e) },
        };
        let md5_hi = match cursor.read_bits(64) {
            Ok(v) => v,
            Err(e) => { return Err(e) },
        };
        let md5_lo = match cursor.read_bits(64) {
            Ok(v) => v,
            Err(e) => { return Err(e) },
        };
        // All 272 bits of the 34-byte window have now been consumed.
        assert(cursor.offset() == 272);
        let md5_checksum: u128 = (md5_hi as u128) * 0x10000000000000000 + (md5_lo as u128);
        proof {
            lemma2_to64();
            lemma2_to64_rest();
            lemma_bits_value_concat(head@, 144, 64, 64);
        }
        Ok(
            Streaminfo {
                min_blk_size: min_blk as u32,
                max_blk_size: max_blk as u32,
                min_frame_size: min_frame as u32,
                max_frame_size: max_frame as u32,
                sample_rate: sample_rate as u32,
                num_channels: num_channels as u32,
                bits_per_sample: bits_per_sample as u32,
                total_sample_count,
                md5_checksum,
            },
        )
    }
}

/// The decoded record reads no byte past the 34-byte window: the fields of
/// `spec_streaminfo` agree between a payload and its first 34 bytes.
proof fn lemma_whole_streaminfo_window(p: Seq<u8>)
    requires
        p.len() >= 34,
    ensures
        spec_streaminfo(p.subrange(0, 34)) == spec_streaminfo(p),
{
    let w = p.subrange(0, 34);
    lemma_bits_value_subrange(p, 0, 34, 0, 16);
    lemma_bits_value_subrange(p, 0, 34, 16, 16);
    lemma_bits_value_subrange(p, 0, 34, 32, 24);
    lemma_bits_value_subrange(p, 0, 34, 56, 24);
    lemma_bits_value_subrange(p, 0, 34, 80, 20);
    lemma_bits_value_subrange(p, 0, 34, 100, 3);
    lemma_bits_value_subrange(p, 0, 34, 103, 5);
    lemma_bits_value_subrange(p, 0, 34, 108, 36);
    lemma_bits_value_subrange(p, 0, 34, 144, 128);
}

/// Byte `j` (big-endian, counted from the most significant end) of the
/// value `v` packed as an `n`-bit field.
pub open spec fn spec_field_byte(v: nat, n: nat, j: nat) -> u8 {
    ((v % pow2(n)) / pow2((n - 8 * j - 8) as nat) % 256) as u8
}

/// The 34-byte payload that packs the nine fields of `si` with the
/// STREAMINFO bit layout: the inverse of `spec_streaminfo`.
pub open spec fn spec_encode_streaminfo(si: Streaminfo) -> Seq<u8> {
    let mb = si.min_blk_size as nat;
    let xb = si.max_blk_size as nat;
    let mf = si.min_frame_size as nat;
    let xf = si.max_frame_size as nat;
    let cluster = (si.sample_rate as nat % pow2(20)) * pow2(44) + (si.num_channels as nat % pow2(
        3,
    )) * pow2(41) + (si.bits_per_sample as nat % pow2(5)) * pow2(36) + (
    si.total_sample_count as nat % pow2(36));
    let md5 = si.md5_checksum as nat;
    seq![
        spec_field_byte(mb, 16, 0),
        spec_field_byte(mb, 16, 1),
        spec_field_byte(xb, 16, 0),
        spec_field_byte(xb, 16, 1),
        spec_field_byte(mf, 24, 0),
        spec_field_byte(mf, 24, 1),
        spec_field_byte(mf, 24, 2),
        spec_field_byte(xf, 24, 0),
        spec_field_byte(xf, 24, 1),
        spec_field_byte(xf, 24, 2),
        spec_field_byte(cluster, 64, 0),
        spec_field_byte(cluster, 64, 1),
        spec_field_byte(cluster, 64, 2),
        spec_field_byte(cluster, 64, 3),
        spec_field_byte(cluster, 64, 4),
        spec_field_byte(cluster, 64, 5),
        spec_field_byte(cluster, 64, 6),
        spec_field_byte(cluster, 64, 7),
        spec_field_byte(md5, 128, 0),
        spec_field_byte(md5, 128, 1),
        spec_field_byte(md5, 128, 2),
        spec_field_byte(md5, 128, 3),
        spec_field_byte(md5, 128, 4),
        spec_field_byte(md5, 128, 5),
        spec_field_byte(md5, 128, 6),
        spec_field_byte(md5, 128, 7),
        spec_field_byte(md5, 128, 8),
        spec_field_byte(md5, 128, 9),
        spec_field_byte(md5, 128, 10),
        spec_field_byte(md5, 128, 11),
        spec_field_byte(md5, 128, 12),
        spec_field_byte(md5, 128, 13),
        spec_field_byte(md5, 128, 14),
        spec_field_byte(md5, 128, 15),
    ]
}

/// Byte `j` of an `n`-bit field that starts at the byte-aligned bit offset
/// `off` is a byte of the underlying buffer.
proof fn lemma_field_byte_is_buffer_byte(p: Seq<u8>, off: int, n: nat, j: nat)
    requires
        0 <= off,
        off % 8 == 0,
        8 * (j + 1) <= n,
        off + n <= 8 * p.len(),
    ensures
        spec_field_byte(bits_value(p, off, n), n, j) == p[off / 8 + j],
{
    let v = bits_value(p, off, n);
    let m = (8 * (j + 1)) as nat;
    lemma_bits_value_bound(p, off, n);
    lemma_small_mod(v, pow2(n));
    lemma_bits_value_prefix(p, off, m, n);
    lemma_bits_value_suffix(p, off, (8 * j) as nat, m);
    vstd::arithmetic::div_mod::lemma_fundamental_div_mod(off, 8);
    lemma_bits_value_byte(p, off / 8 + j);
    lemma2_to64();
    assert(bits_value(p, off, m) == v / pow2((n - 8 * j - 8) as nat));
    assert(bits_value(p, off + 8 * j, 8) == bits_value(p, off, m) % 256);
    assert(8 * (off / 8 + j) == off + 8 * j);
    assert(p[off / 8 + j] < 256);
}

/// The round-trip law: any 34-byte payload, decoded and re-packed with the
/// same bit layout, reproduces the original bytes exactly. The nine fields
/// together carry all 272 bits, none is lost and none leaks into another.
pub proof fn lemma_streaminfo_round_trip(p: Seq<u8>)
    requires
        p.len() == 34,
    ensures
        spec_encode_streaminfo(spec_streaminfo(p)) == p,
{
    let si = spec_streaminfo(p);
    lemma2_to64();
    lemma2_to64_rest();
    lemma_pow2_adds(64, 64);
    lemma_bits_value_bound(p, 0, 16);
    lemma_bits_value_bound(p, 16, 16);
    lemma_bits_value_bound(p, 32, 24);
    lemma_bits_value_bound(p, 56, 24);
    lemma_bits_value_bound(p, 80, 20);
    lemma_bits_value_bound(p, 100, 3);
    lemma_bits_value_bound(p, 103, 5);
    lemma_bits_value_bound(p, 108, 36);
    lemma_bits_value_bound(p, 144, 128);
    lemma_bits_value_bound(p, 80, 64);
    assert(si.min_blk_size as nat == bits_value(p, 0, 16));
    assert(si.max_blk_size as nat == bits_value(p, 16, 16));
    assert(si.min_frame_size as nat == bits_value(p, 32, 24));
    assert(si.max_frame_size as nat == bits_value(p, 56, 24));
    assert(si.md5_checksum as nat == bits_value(p, 144, 128));
    // The 64-bit cluster splits as sample rate, channels, bit depth and
    // total sample count.
    lemma_bits_value_concat(p, 80, 20, 44);
    lemma_bits_value_concat(p, 100, 3, 41);
    lemma_bits_value_concat(p, 103, 5, 36);
    lemma_small_mod(bits_value(p, 80, 20), pow2(20));
    lemma_small_mod(bits_value(p, 100, 3), pow2(3));
    lemma_small_mod(bits_value(p, 103, 5), pow2(5));
    lemma_small_mod(bits_value(p, 108, 36), pow2(36));
    let cluster = (si.sample_rate as nat % pow2(20)) * pow2(44) + (si.num_channels as nat % pow2(
        3,
    )) * pow2(41) + (si.bits_per_sample as nat % pow2(5)) * pow2(36) + (
    si.total_sample_count as nat % pow2(36));
    assert(cluster == bits_value(p, 80, 64));
    lemma_field_byte_is_buffer_byte(p, 0, 16, 0);
    lemma_field_byte_is_buffer_byte(p, 0, 16, 1);
    lemma_field_byte_is_buffer_byte(p, 16, 16, 0);
    lemma_field_byte_is_buffer_byte(p, 16, 16, 1);
    lemma_field_byte_is_buffer_byte(p, 32, 24, 0);
    lemma_field_byte_is_buffer_byte(p, 32, 24, 1);
    lemma_field_byte_is_buffer_byte(p, 32, 24, 2);
    lemma_field_byte_is_buffer_byte(p, 56, 24, 0);
    lemma_field_byte_is_buffer_byte(p, 56, 24, 1);
    lemma_field_byte_is_buffer_byte(p, 56, 24, 2);
    lemma_field_byte_is_buffer_byte(p, 80, 64, 0);
    lemma_field_byte_is_buffer_byte(p, 80, 64, 1);
    lemma_field_byte_is_buffer_byte(p, 80, 64, 2);
    lemma_field_byte_is_buffer_byte(p, 80, 64, 3);
    lemma_field_byte_is_buffer_byte(p, 80, 64, 4);
    lemma_field_byte_is_buffer_byte(p, 80, 64, 5);
    lemma_field_byte_is_buffer_byte(p, 80, 64, 6);
    lemma_field_byte_is_buffer_byte(p, 80, 64, 7);
    lemma_field_byte_is_buffer_byte(p, 144, 128, 0);
    lemma_field_byte_is_buffer_byte(p, 144, 128, 1);
    lemma_field_byte_is_buffer_byte(p, 144, 128, 2);
    lemma_field_byte_is_buffer_byte(p, 144, 128, 3);
    lemma_field_byte_is_buffer_byte(p, 144, 128, 4);
    lemma_field_byte_is_buffer_byte(p, 144, 128, 5);
    lemma_field_byte_is_buffer_byte(p, 144, 128, 6);
    lemma_field_byte_is_buffer_byte(p, 144, 128, 7);
    lemma_field_byte_is_buffer_byte(p, 144, 128, 8);
    lemma_field_byte_is_buffer_byte(p, 144, 128, 9);
    lemma_field_byte_is_buffer_byte(p, 144, 128, 10);
    lemma_field_byte_is_buffer_byte(p, 144, 128, 11);
    lemma_field_byte_is_buffer_byte(p, 144, 128, 12);
    lemma_field_byte_is_buffer_byte(p, 144, 128, 13);
    lemma_field_byte_is_buffer_byte(p, 144, 128, 14);
    lemma_field_byte_is_buffer_byte(p, 144, 128, 15);
    assert(spec_encode_streaminfo(si) =~= p);
}

/// The last-block flag of a decoded header depends on bit 31 of the header
/// word alone: two words that agree on the top bit of their first byte
/// decode to the same flag, whatever their other 31 bits hold.
pub proof fn lemma_is_last_depends_on_top_bit(w1: Seq<u8>, w2: Seq<u8>)
    requires
        w1[0] & 0x80 == w2[0] & 0x80,
    ensures
        spec_header(w1).is_final_block == spec_header(w2).is_final_block,
{
}

} // verus!
