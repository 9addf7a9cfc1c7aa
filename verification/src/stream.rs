//! The stream walk: magic marker validation and the metadata block loop.
//!
//! A well-formed stream starts with the 4-byte signature `fLaC`, followed
//! by one or more blocks, each a 4-byte header and a payload of the
//! declared length, terminated by the block whose last-block flag is set.

use vstd::prelude::*;
use crate::error::FlacError;
use crate::metadata::{spec_header, spec_streaminfo, Header, Streaminfo, Type};

verus! {

/// The 4-byte FLAC signature, ASCII `fLaC`.
pub open spec fn flac_magic() -> Seq<u8> {
    seq![0x66u8, 0x4Cu8, 0x61u8, 0x43u8]
}

/// One decoded metadata block: its header, and the decoded STREAMINFO
/// record when the block carries one.
#[derive(Clone, Copy, PartialEq, Eq, Debug)]
pub struct Block {
    pub header: Header,
    /// `Some` exactly for blocks of type `Streaminfo`.
    pub streaminfo: Option<Streaminfo>,
}

/// The outcome of walking the block chain of `data` from byte offset
/// `pos`: the decoded blocks through the first one whose last-block flag
/// is set, or the first fatal error.
///
/// A `Reserved` or `Forbidden` type code aborts the walk; payloads of
/// other non-STREAMINFO types are skipped, not decoded. No bound is put
/// on the number of blocks, and nothing requires the first block to be a
/// STREAMINFO: the walk is as permissive as the block grammar itself.
pub open spec fn spec_parse_blocks(data: Seq<u8>, pos: int) -> Result<Seq<Block>, FlacError>
    decreases data.len() - pos,
{
    if pos + 4 > data.len() {
        Err(FlacError::TruncatedHeader)
    } else {
        let h = spec_header(data.subrange(pos, pos + 4));
        match h.blk_type {
            Type::Reserved(c) => Err(FlacError::UnexpectedBlockType(c)),
            Type::Forbidden => Err(FlacError::UnexpectedBlockType(127)),
            _ => if pos + 4 + h.length > data.len() {
                Err(FlacError::TruncatedPayload)
            } else if h.blk_type == Type::Streaminfo && h.length < 34 {
                Err(FlacError::InsufficientData)
            } else {
                let payload = data.subrange(pos + 4, pos + 4 + h.length);
                let blk = Block {
                    header: h,
                    streaminfo: if h.blk_type == Type::Streaminfo {
                        Some(spec_streaminfo(payload))
                    } else {
                        None
                    },
                };
                if h.is_final_block {
                    Ok(seq![blk])
                } else {
                    match spec_parse_blocks(data, pos + 4 + h.length) {
                        Ok(rest) => Ok(seq![blk] + rest),
                        Err(e) => Err(e),
                    }
                }
            },
        }
    }
}

/// The outcome of parsing `data` as the leading portion of a FLAC stream:
/// the signature check, then the block walk.
pub open spec fn spec_parse_stream(data: Seq<u8>) -> Result<Seq<Block>, FlacError> {
    if data.len() < 4 {
        Err(FlacError::UnexpectedEof)
    } else if data.subrange(0, 4) != flac_magic() {
        Err(FlacError::BadMagic { found: [data[0], data[1], data[2], data[3]] })
    } else {
        spec_parse_blocks(data, 4)
    }
}

/// Whether four bytes are the FLAC signature.
pub fn is_valid_flac_hdr(flac_hdr: &[u8; 4]) -> (r: bool)
    ensures
        r == (flac_hdr@ == flac_magic()),
{
    let r = flac_hdr[0] == 0x66 && flac_hdr[1] == 0x4C && flac_hdr[2] == 0x61 && flac_hdr[3]
        == 0x43;
    proof {
        if r {
            assert(flac_hdr@ =~= flac_magic());
        }
    }
    r
}

/// Checks the 4-byte signature; `BadMagic`, carrying the offending bytes,
/// for every buffer other than the signature itself.
pub fn validate_magic(flac_hdr: &[u8; 4]) -> (r: Result<(), FlacError>)
    ensures
        flac_hdr@ == flac_magic() ==> r == Ok::<(), FlacError>(()),
        flac_hdr@ != flac_magic() ==> r == Err::<(), FlacError>(
            FlacError::BadMagic { found: *flac_hdr },
        ),
{
    if is_valid_flac_hdr(flac_hdr) {
        Ok(())
    } else {
        Err(FlacError::BadMagic { found: *flac_hdr })
    }
}

/// Parses the leading portion of a FLAC stream: validates the signature,
/// then walks the block chain until the last-block flag, decoding every
/// STREAMINFO payload and skipping the payloads of other block types.
///
/// Returns every decoded block through the final one, or the first fatal
/// error; blocks decoded before a failing one are discarded.
#[verifier::loop_isolation(false)]
pub fn parse_metadata(data: &[u8]) -> (r: Result<Vec<Block>, FlacError>)
    ensures
        match r {
            Ok(blocks) => spec_parse_stream(data@) == Ok::<Seq<Block>, FlacError>(blocks@),
            Err(e) => spec_parse_stream(data@) == Err::<Seq<Block>, FlacError>(e),
        },
{
    if data.len() < 4 {
        return Err(FlacError::UnexpectedEof);
    }
    let magic: [u8; 4] = [data[0], data[1], data[2], data[3]];
    proof {
        assert(magic@ =~= data@.subrange(0, 4));
    }
    if let Err(e) = validate_magic(&magic) {
        return Err(e);
    }
    let ghost d = data@;
    let mut blocks: Vec<Block> = Vec::new();
    let mut pos: usize = 4;
    loop
        invariant
            4 <= pos <= data.len(),
            data@ == d,
            spec_parse_stream(d) == spec_parse_blocks(d, 4),
            match spec_parse_blocks(d, pos as int) {
                Ok(rest) => spec_parse_blocks(d, 4) == Ok::<Seq<Block>, FlacError>(blocks@ + rest),
                Err(e) => spec_parse_blocks(d, 4) == Err::<Seq<Block>, FlacError>(e),
            },
        decreases data.len() - pos,
    {
        if data.len() - pos < 4 {
            return Err(FlacError::TruncatedHeader);
        }
        let w: [u8; 4] = [data[pos], data[pos + 1], data[pos + 2], data[pos + 3]];
        proof {
            assert(w@ =~= d.subrange(pos as int, pos as int + 4));
        }
        let h = Header::new(&w);
        match h.blk_type {
            Type::Reserved(c) => {
                return Err(FlacError::UnexpectedBlockType(c));
            },
            Type::Forbidden => {
                return Err(FlacError::UnexpectedBlockType(127));
            },
            _ => {},
        }
        let len = h.length as usize;
        if data.len() - pos - 4 < len {
            return Err(FlacError::TruncatedPayload);
        }
        let payload: &[u8] = &data[pos + 4..pos + 4 + len];
        assert(payload@ == d.subrange(pos + 4, pos as int + 4 + h.length));
        let streaminfo = if h.blk_type == Type::Streaminfo {
            match Streaminfo::new(payload) {
                Ok(si) => Some(si),
                Err(e) => { return Err(e) },
            }
        } else {
            None
        };
        let blk = Block { header: h, streaminfo };
        let ghost prev = blocks@;
        blocks.push(blk);
        proof {
            assert(blocks@ =~= prev + seq![blk]);
            if !h.is_final_block {
                match spec_parse_blocks(d, pos as int + 4 + h.length) {
                    Ok(rest) => {
                        assert(prev + (seq![blk] + rest) =~= blocks@ + rest);
                    },
                    Err(_) => {},
                }
            }
        }
        if h.is_final_block {
            return Ok(blocks);
        }
        pos = pos + 4 + len;
    }
}

/// Parsing is a function of the bytes alone: two parses of equal buffers
/// have equal outcomes, block for block and field for field.
pub proof fn lemma_parse_deterministic(d1: Seq<u8>, d2: Seq<u8>)
    requires
        d1 == d2,
    ensures
        spec_parse_stream(d1) == spec_parse_stream(d2),
{
}

} // verus!

