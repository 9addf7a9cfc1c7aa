use flac_meta::error::FlacError;
use flac_meta::metadata::{Header, Streaminfo, Type};
use flac_meta::stream::{is_valid_flac_hdr, parse_metadata, validate_magic};

const MAGIC: [u8; 4] = [0x66, 0x4C, 0x61, 0x43];

/// A stream buffer: magic followed by the given block bytes.
fn stream_of(blocks: &[&[u8]]) -> Vec<u8> {
    let mut v = MAGIC.to_vec();
    for b in blocks {
        v.extend_from_slice(b);
    }
    v
}

#[test]
fn magic_accepts_signature() {
    assert!(is_valid_flac_hdr(&MAGIC));
    assert_eq!(validate_magic(&MAGIC), Ok(()));
}

#[test]
fn magic_rejects_every_single_bit_flip() {
    for byte in 0..4 {
        for bit in 0..8 {
            let mut w = MAGIC;
            w[byte] ^= 1 << bit;
            assert!(!is_valid_flac_hdr(&w));
            assert_eq!(validate_magic(&w), Err(FlacError::BadMagic { found: w }));
        }
    }
}

#[test]
fn magic_rejects_other_buffers() {
    for w in [[0u8; 4], [0xFF; 4], [0x43, 0x61, 0x4C, 0x66], [0x66, 0x4C, 0x61, 0x63]] {
        assert_eq!(validate_magic(&w), Err(FlacError::BadMagic { found: w }));
    }
}

#[test]
fn header_decodes_final_streaminfo() {
    let h = Header::new(&[0x80, 0x00, 0x00, 0x22]);
    assert!(h.is_final_block);
    assert_eq!(h.blk_type, Type::Streaminfo);
    assert_eq!(h.length, 34);
}

#[test]
fn header_length_is_big_endian() {
    let h = Header::new(&[0x01, 0x12, 0x34, 0x56]);
    assert!(!h.is_final_block);
    assert_eq!(h.blk_type, Type::Padding);
    assert_eq!(h.length, 0x123456);
}

#[test]
fn header_type_codes() {
    assert_eq!(Header::new(&[2, 0, 0, 0]).blk_type, Type::Application);
    assert_eq!(Header::new(&[3, 0, 0, 0]).blk_type, Type::Seektable);
    assert_eq!(Header::new(&[4, 0, 0, 0]).blk_type, Type::VorbisComment);
    assert_eq!(Header::new(&[5, 0, 0, 0]).blk_type, Type::Cuesheet);
    assert_eq!(Header::new(&[6, 0, 0, 0]).blk_type, Type::Picture);
    assert_eq!(Header::new(&[127, 0, 0, 0]).blk_type, Type::Forbidden);
    assert_eq!(Header::new(&[7, 0, 0, 0]).blk_type, Type::Reserved(7));
    assert_eq!(Header::new(&[126, 0, 0, 0]).blk_type, Type::Reserved(126));
}

#[test]
fn header_is_last_ignores_the_other_31_bits() {
    // Flipping any of bits 0..=30 of the header word never changes is_last.
    for base in [[0x00u8, 0x00, 0x00, 0x00], [0x85, 0xAB, 0xCD, 0xEF]] {
        let expected = Header::new(&base).is_final_block;
        for bit in 0..31u32 {
            let mut w = base;
            w[3 - (bit / 8) as usize] ^= 1 << (bit % 8);
            assert_eq!(Header::new(&w).is_final_block, expected);
        }
    }
}

#[test]
fn type_names() {
    assert_eq!(Type::Streaminfo.name(), "Streaminfo");
    assert_eq!(Type::VorbisComment.name(), "Vorbis Comment");
    assert_eq!(Type::Reserved(42).name(), "Reserved");
}

#[test]
fn streaminfo_rejects_33_bytes() {
    assert_eq!(Streaminfo::new(&[0u8; 33]), Err(FlacError::InsufficientData));
    assert_eq!(Streaminfo::new(&[]), Err(FlacError::InsufficientData));
}

#[test]
fn streaminfo_all_zero_payload() {
    let si = Streaminfo::new(&[0u8; 34]).unwrap();
    assert_eq!(si.min_blk_size, 0);
    assert_eq!(si.max_blk_size, 0);
    assert_eq!(si.min_frame_size, 0);
    assert_eq!(si.max_frame_size, 0);
    assert_eq!(si.sample_rate, 0);
    assert_eq!(si.num_channels, 0);
    assert_eq!(si.bits_per_sample, 0);
    assert_eq!(si.total_sample_count, 0);
    assert_eq!(si.md5_checksum, 0);
}

#[test]
fn streaminfo_sample_rate_placed_alone() {
    // 44100 = 0x0AC44 in the 20-bit sample rate field, everything else in
    // the 8-byte cluster zero.
    let mut p = [0u8; 34];
    p[10] = 0x0A;
    p[11] = 0xC4;
    p[12] = 0x40;
    let si = Streaminfo::new(&p).unwrap();
    assert_eq!(si.sample_rate, 44100);
    assert_eq!(si.num_channels, 0);
    assert_eq!(si.bits_per_sample, 0);
    assert_eq!(si.total_sample_count, 0);
}

/// The inverse packing: the nine fields of `si` laid back down with the
/// STREAMINFO bit layout.
fn repack(si: &Streaminfo) -> [u8; 34] {
    let mut p = [0u8; 34];
    p[0..2].copy_from_slice(&(si.min_blk_size as u16).to_be_bytes());
    p[2..4].copy_from_slice(&(si.max_blk_size as u16).to_be_bytes());
    p[4..7].copy_from_slice(&si.min_frame_size.to_be_bytes()[1..]);
    p[7..10].copy_from_slice(&si.max_frame_size.to_be_bytes()[1..]);
    let cluster: u64 = ((si.sample_rate as u64) << 44)
        | ((si.num_channels as u64) << 41)
        | ((si.bits_per_sample as u64) << 36)
        | si.total_sample_count;
    p[10..18].copy_from_slice(&cluster.to_be_bytes());
    p[18..34].copy_from_slice(&si.md5_checksum.to_be_bytes());
    p
}

#[test]
fn streaminfo_realistic_fields() {
    let mut si = Streaminfo {
        min_blk_size: 4096,
        max_blk_size: 4096,
        min_frame_size: 14,
        max_frame_size: 0xFFFFFF,
        sample_rate: 44100,
        num_channels: 1,
        bits_per_sample: 15,
        total_sample_count: 1_000_000,
        md5_checksum: 0x0123_4567_89AB_CDEF_0011_2233_4455_6677,
    };
    let p = repack(&si);
    let decoded = Streaminfo::new(&p).unwrap();
    assert_eq!(decoded, si);
    // The tail past the cluster never leaks into the cluster fields.
    si.md5_checksum = 0;
    let p2 = repack(&si);
    let decoded2 = Streaminfo::new(&p2).unwrap();
    assert_eq!(decoded2.sample_rate, 44100);
    assert_eq!(decoded2.md5_checksum, 0);
}

#[test]
fn streaminfo_round_trip_repacks_exactly() {
    // An arbitrary 34-byte payload: decoding and repacking the nine fields
    // reproduces it bit for bit.
    let mut p = [0u8; 34];
    for (i, b) in p.iter_mut().enumerate() {
        *b = (i as u8).wrapping_mul(37).wrapping_add(11);
    }
    let si = Streaminfo::new(&p).unwrap();
    assert_eq!(repack(&si), p);
}

#[test]
fn streaminfo_ignores_bytes_past_34() {
    let mut p = vec![0u8; 40];
    for b in p[34..].iter_mut() {
        *b = 0xFF;
    }
    let si = Streaminfo::new(&p).unwrap();
    assert_eq!(si, Streaminfo::new(&[0u8; 34]).unwrap());
}

#[test]
fn parse_single_final_streaminfo_block() {
    let data = stream_of(&[&[0x80, 0x00, 0x00, 0x22], &[0u8; 34]]);
    let blocks = parse_metadata(&data).unwrap();
    assert_eq!(blocks.len(), 1);
    assert!(blocks[0].header.is_final_block);
    assert_eq!(blocks[0].header.blk_type, Type::Streaminfo);
    assert_eq!(blocks[0].header.length, 34);
    assert_eq!(blocks[0].streaminfo.unwrap().sample_rate, 0);
}

#[test]
fn parse_streaminfo_then_padding() {
    let mut payload = [0u8; 34];
    payload[10] = 0x0A;
    payload[11] = 0xC4;
    payload[12] = 0x40;
    let data = stream_of(&[
        &[0x00, 0x00, 0x00, 0x22],
        &payload,
        &[0x81, 0x00, 0x00, 0x03],
        &[0, 0, 0],
    ]);
    let blocks = parse_metadata(&data).unwrap();
    assert_eq!(blocks.len(), 2);
    assert_eq!(blocks[0].header.blk_type, Type::Streaminfo);
    assert!(!blocks[0].header.is_final_block);
    assert_eq!(blocks[0].streaminfo.unwrap().sample_rate, 44100);
    assert_eq!(blocks[1].header.blk_type, Type::Padding);
    assert_eq!(blocks[1].header.length, 3);
    assert!(blocks[1].header.is_final_block);
    assert!(blocks[1].streaminfo.is_none());
}

#[test]
fn parse_unexpected_eof() {
    assert_eq!(parse_metadata(&[]), Err(FlacError::UnexpectedEof));
    assert_eq!(parse_metadata(&[0x66, 0x4C]), Err(FlacError::UnexpectedEof));
}

#[test]
fn parse_bad_magic() {
    let data = [0x66, 0x4C, 0x61, 0x58, 0x80, 0, 0, 0];
    assert_eq!(
        parse_metadata(&data),
        Err(FlacError::BadMagic { found: [0x66, 0x4C, 0x61, 0x58] })
    );
}

#[test]
fn parse_truncated_header() {
    let data = stream_of(&[&[0x80, 0x00]]);
    assert_eq!(parse_metadata(&data), Err(FlacError::TruncatedHeader));
}

#[test]
fn parse_truncated_payload() {
    let data = stream_of(&[&[0x80, 0x00, 0x00, 0x22], &[0u8; 10]]);
    assert_eq!(parse_metadata(&data), Err(FlacError::TruncatedPayload));
}

#[test]
fn parse_reserved_and_forbidden_types_are_fatal() {
    let data = stream_of(&[&[0x07, 0x00, 0x00, 0x00]]);
    assert_eq!(parse_metadata(&data), Err(FlacError::UnexpectedBlockType(7)));
    let data = stream_of(&[&[0xFF, 0x00, 0x00, 0x00]]);
    assert_eq!(parse_metadata(&data), Err(FlacError::UnexpectedBlockType(127)));
}

#[test]
fn parse_short_streaminfo_payload_is_fatal() {
    // A STREAMINFO block that declares only 10 payload bytes.
    let data = stream_of(&[&[0x80, 0x00, 0x00, 0x0A], &[0u8; 10]]);
    assert_eq!(parse_metadata(&data), Err(FlacError::InsufficientData));
}

#[test]
fn parse_twice_is_identical() {
    let mut payload = [0u8; 34];
    for (i, b) in payload.iter_mut().enumerate() {
        *b = (i as u8).wrapping_mul(73).wrapping_add(5);
    }
    let data = stream_of(&[
        &[0x00, 0x00, 0x00, 0x22],
        &payload,
        &[0x81, 0x00, 0x00, 0x00],
    ]);
    let first = parse_metadata(&data);
    let second = parse_metadata(&data);
    assert_eq!(first, second);
    let bad = stream_of(&[&[0x07, 0, 0, 0]]);
    assert_eq!(parse_metadata(&bad), parse_metadata(&bad));
}
