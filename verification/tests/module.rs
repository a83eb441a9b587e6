use h5module::common::{BufReaderExt, ByteReader, ReadError};
use h5module::loader::{
    H5Module, ModuleBlock, ModuleError, ModuleFileEntry, ModuleHeader,
};

use std::io::Write;

fn put_u16(v: &mut Vec<u8>, x: u16) {
    v.extend_from_slice(&x.to_le_bytes());
}

fn put_u32(v: &mut Vec<u8>, x: u32) {
    v.extend_from_slice(&x.to_le_bytes());
}

fn put_i32(v: &mut Vec<u8>, x: i32) {
    v.extend_from_slice(&x.to_le_bytes());
}

fn put_u64(v: &mut Vec<u8>, x: u64) {
    v.extend_from_slice(&x.to_le_bytes());
}

fn put_i64(v: &mut Vec<u8>, x: i64) {
    v.extend_from_slice(&x.to_le_bytes());
}

fn put_i16(v: &mut Vec<u8>, x: i16) {
    v.extend_from_slice(&x.to_le_bytes());
}

fn header_bytes(
    version: u32,
    item_count: u32,
    resource_count: u32,
    block_count: u32,
) -> Vec<u8> {
    let mut v = Vec::new();
    v.extend_from_slice(b"mohd");
    put_u32(&mut v, version);
    put_u64(&mut v, 0x1122334455667788);
    put_u32(&mut v, item_count);
    put_u32(&mut v, 3); // manifest_count
    put_i32(&mut v, -1); // resource_index
    put_u32(&mut v, 64); // strings_size
    put_u32(&mut v, resource_count);
    put_u32(&mut v, block_count);
    put_u64(&mut v, 0xdeadbeef); // build_version
    if version == 27 {
        put_u64(&mut v, 0xfeedface);
    }
    v
}

struct EntrySpec {
    name_offset: u32,
    block_count: u32,
    first_block_index: i32,
    data_offset: u64,
    total_compressed_size: u32,
    total_uncompressed_size: u32,
    flags: u8,
    group_tag: [u8; 4],
}

fn entry_bytes(e: &EntrySpec) -> Vec<u8> {
    let mut v = Vec::new();
    put_u32(&mut v, e.name_offset);
    put_i32(&mut v, -1); // parent_file_index
    put_u32(&mut v, 0); // resource_count
    put_i32(&mut v, 0); // first_resource_index
    put_u32(&mut v, e.block_count);
    put_i32(&mut v, e.first_block_index);
    put_u64(&mut v, e.data_offset);
    put_u32(&mut v, e.total_compressed_size);
    put_u32(&mut v, e.total_uncompressed_size);
    v.push(1); // header_alignment
    v.push(2); // tag_alignment
    v.push(3); // resource_alignment
    v.push(e.flags);
    put_i32(&mut v, 42); // global_tag_id
    put_i64(&mut v, -7); // asset_id
    put_i64(&mut v, 99); // asset_checksum
    v.extend_from_slice(&e.group_tag);
    put_u32(&mut v, 10); // uncompressed_header_size
    put_u32(&mut v, 11); // uncompressed_tag_size
    put_u32(&mut v, 12); // uncompressed_resource_size
    put_i16(&mut v, 1); // header_block_count
    put_i16(&mut v, 2); // tag_block_count
    put_i16(&mut v, 3); // resource_block_count
    put_i16(&mut v, 0); // padding
    assert_eq!(v.len(), 88);
    v
}

fn block_bytes(forge: bool, co: u32, cs: u32, uo: u32, us: u32, compressed: bool) -> Vec<u8> {
    let mut v = Vec::new();
    if forge {
        put_u64(&mut v, 0xabcd);
    }
    put_u32(&mut v, co);
    put_u32(&mut v, cs);
    put_u32(&mut v, uo);
    put_u32(&mut v, us);
    put_u32(&mut v, if compressed { 1 } else { 0 });
    if forge {
        put_i32(&mut v, 0);
    }
    v
}

fn deflate(data: &[u8]) -> Vec<u8> {
    let mut enc = flate2::write::ZlibEncoder::new(Vec::new(), flate2::Compression::default());
    enc.write_all(data).unwrap();
    enc.finish().unwrap()
}

#[test]
fn header_v27_decodes_every_field() {
    let bytes = header_bytes(27, 5, 2, 3);
    assert_eq!(bytes.len(), 56);
    let mut reader = ByteReader::new(bytes);
    let mut h = ModuleHeader::default();
    h.read(&mut reader).unwrap();
    assert_eq!(h.magic, "mohd");
    assert_eq!(h.version, 27);
    assert_eq!(h.module_id, 0x1122334455667788);
    assert_eq!(h.item_count, 5);
    assert_eq!(h.manifest_count, 3);
    assert_eq!(h.resource_index, -1);
    assert_eq!(h.strings_size, 64);
    assert_eq!(h.resource_count, 2);
    assert_eq!(h.block_count, 3);
    assert_eq!(h.build_version, 0xdeadbeef);
    assert_eq!(h.checksum, Some(0xfeedface));
    assert_eq!(reader.pos, 56);
}

#[test]
fn header_v23_has_no_checksum_and_is_shorter() {
    let bytes = header_bytes(23, 5, 2, 3);
    assert_eq!(bytes.len(), 48);
    let mut reader = ByteReader::new(bytes);
    let mut h = ModuleHeader::default();
    h.read(&mut reader).unwrap();
    assert_eq!(h.version, 23);
    assert_eq!(h.checksum, None);
    // One fewer decoded field than version 27: the cursor stops 8 bytes
    // earlier on otherwise identical input.
    assert_eq!(reader.pos, 48);
}

#[test]
fn wrong_case_magic_is_rejected_with_found_text() {
    let mut bytes = header_bytes(27, 0, 0, 0);
    bytes[0..4].copy_from_slice(b"MOHD");
    let mut reader = ByteReader::new(bytes);
    let mut h = ModuleHeader::default();
    match h.read(&mut reader) {
        Err(ModuleError::InvalidModuleMagic(found)) => assert_eq!(found, "MOHD"),
        other => panic!("expected invalid magic, got {:?}", other),
    }
}

#[test]
fn arbitrary_magic_is_rejected_with_found_text() {
    let mut bytes = header_bytes(27, 0, 0, 0);
    bytes[0..4].copy_from_slice(b"abcd");
    let mut module = H5Module::default();
    let mut reader = ByteReader::new(bytes);
    match module.read(&mut reader) {
        Err(ModuleError::InvalidModuleMagic(found)) => assert_eq!(found, "abcd"),
        other => panic!("expected invalid magic, got {:?}", other),
    }
}

#[test]
fn unknown_version_is_rejected_with_found_value() {
    let mut bytes = header_bytes(27, 0, 0, 0);
    bytes[4..8].copy_from_slice(&9u32.to_le_bytes());
    let mut reader = ByteReader::new(bytes);
    let mut h = ModuleHeader::default();
    match h.read(&mut reader) {
        Err(ModuleError::InvalidModuleVersion(found)) => assert_eq!(found, 9),
        other => panic!("expected invalid version, got {:?}", other),
    }
}

#[test]
fn truncated_header_reports_eof() {
    let bytes = header_bytes(27, 0, 0, 0)[..20].to_vec();
    let mut reader = ByteReader::new(bytes);
    let mut h = ModuleHeader::default();
    assert_eq!(h.read(&mut reader), Err(ModuleError::UnexpectedEof));
}

#[test]
fn entry_decodes_every_field_and_reverses_group_tag() {
    let e = EntrySpec {
        name_offset: 17,
        block_count: 2,
        first_block_index: 5,
        data_offset: 0x123456,
        total_compressed_size: 100,
        total_uncompressed_size: 200,
        flags: 0b011,
        group_tag: *b"2dtb",
    };
    let mut reader = ByteReader::new(entry_bytes(&e));
    let mut entry = ModuleFileEntry::default();
    entry.read(&mut reader).unwrap();
    assert_eq!(entry.name_offset, 17);
    assert_eq!(entry.parent_file_index, -1);
    assert_eq!(entry.block_count, 2);
    assert_eq!(entry.first_block_index, 5);
    assert_eq!(entry.data_offset, 0x123456);
    assert_eq!(entry.total_compressed_size, 100);
    assert_eq!(entry.total_uncompressed_size, 200);
    assert_eq!(entry.header_alignment, 1);
    assert_eq!(entry.tag_alignment, 2);
    assert_eq!(entry.resource_alignment, 3);
    assert!(entry.flags.compressed());
    assert!(entry.flags.has_blocks());
    assert!(!entry.flags.raw_file());
    assert_eq!(entry.global_tag_id, 42);
    assert_eq!(entry.asset_id, -7);
    assert_eq!(entry.asset_checksum, 99);
    assert_eq!(entry.group_tag, "btd2");
    assert_eq!(entry.header_block_count, 1);
    assert_eq!(entry.tag_block_count, 2);
    assert_eq!(entry.resource_block_count, 3);
    assert_eq!(reader.pos, 88);
}

#[test]
fn entry_flag_byte_keeps_only_known_bits() {
    let e = EntrySpec {
        name_offset: 0,
        block_count: 0,
        first_block_index: 0,
        data_offset: 0,
        total_compressed_size: 0,
        total_uncompressed_size: 1,
        flags: 0b1111_1101,
        group_tag: *b"    ",
    };
    let mut reader = ByteReader::new(entry_bytes(&e));
    let mut entry = ModuleFileEntry::default();
    entry.read(&mut reader).unwrap();
    assert!(entry.flags.compressed());
    assert!(!entry.flags.has_blocks());
    assert!(entry.flags.raw_file());
}

#[test]
fn group_tag_with_invalid_utf8_uses_replacement() {
    let e = EntrySpec {
        name_offset: 0,
        block_count: 0,
        first_block_index: 0,
        data_offset: 0,
        total_compressed_size: 0,
        total_uncompressed_size: 1,
        flags: 0,
        group_tag: [b'a', b'b', b'c', 0xFF],
    };
    let mut reader = ByteReader::new(entry_bytes(&e));
    let mut entry = ModuleFileEntry::default();
    entry.read(&mut reader).unwrap();
    // Stored bytes reversed then decoded: 0xFF is not valid UTF-8.
    assert_eq!(entry.group_tag, "\u{FFFD}cba");
}

#[test]
fn group_tag_trailing_zeros_trimmed_before_reversal() {
    let e = EntrySpec {
        name_offset: 0,
        block_count: 0,
        first_block_index: 0,
        data_offset: 0,
        total_compressed_size: 0,
        total_uncompressed_size: 1,
        flags: 0,
        group_tag: [b'r', b'a', 0, 0],
    };
    let mut reader = ByteReader::new(entry_bytes(&e));
    let mut entry = ModuleFileEntry::default();
    entry.read(&mut reader).unwrap();
    assert_eq!(entry.group_tag, "ar");
}

#[test]
fn read_cstring_stops_at_terminator() {
    let mut reader = ByteReader::new(b"hi\0rest".to_vec());
    assert_eq!(reader.read_cstring().unwrap(), "hi");
    assert_eq!(reader.pos, 3);
    assert_eq!(reader.read_cstring().unwrap(), "rest");
    assert_eq!(reader.pos, 7);
}

#[test]
fn read_cstring_rejects_invalid_utf8() {
    let mut reader = ByteReader::new(vec![0xC3, 0x28, 0]);
    assert_eq!(reader.read_cstring(), Err(ReadError::InvalidUtf8));
}

#[test]
fn read_fixed_string_trims_trailing_zeros() {
    let mut reader = ByteReader::new(b"ab\0\0xy".to_vec());
    assert_eq!(reader.read_fixed_string(4).unwrap(), "ab");
    assert_eq!(reader.pos, 4);
    assert_eq!(reader.read_fixed_string(4), Err(ReadError::UnexpectedEof));
}

/// A version-27 module with one entry split over two blocks, one stored
/// deflated and one raw, at disjoint destination ranges.
fn two_block_module() -> (Vec<u8>, Vec<u8>, Vec<u8>) {
    let frag_a = b"first plaintext fragment".to_vec(); // 24 bytes at offset 0
    let frag_b = b"second fragment!".to_vec(); // 16 bytes at offset 24
    let packed_a = deflate(&frag_a);
    let total_uncompressed = (frag_a.len() + frag_b.len()) as u32; // 40
    let name = b"tags/example.bitmap";

    let entry = EntrySpec {
        name_offset: 0,
        block_count: 2,
        first_block_index: 0,
        data_offset: 4, // region base is data region + 4
        total_compressed_size: 0,
        total_uncompressed_size: total_uncompressed,
        flags: 0b010, // HAS_BLOCKS, not COMPRESSED
        group_tag: *b"mtib",
    };

    let mut bytes = header_bytes(27, 1, 2, 2);
    bytes.extend_from_slice(&entry_bytes(&entry));
    bytes.extend_from_slice(name);
    bytes.push(0);
    // Resource indices follow wherever the last name read ended.
    put_i32(&mut bytes, 1000);
    put_i32(&mut bytes, -2);
    // Block 0: deflated fragment at destination 0.
    bytes.extend_from_slice(&block_bytes(
        true,
        0,
        packed_a.len() as u32,
        0,
        frag_a.len() as u32,
        true,
    ));
    // Block 1: raw fragment right after it.
    bytes.extend_from_slice(&block_bytes(
        true,
        packed_a.len() as u32,
        frag_b.len() as u32,
        frag_a.len() as u32,
        frag_b.len() as u32,
        false,
    ));
    // Data region: 4 padding bytes (the entry's data_offset), then the two
    // blocks' stored bytes.
    bytes.extend_from_slice(&[0xEE; 4]);
    bytes.extend_from_slice(&packed_a);
    bytes.extend_from_slice(&frag_b);
    (bytes, frag_a, frag_b)
}

#[test]
fn round_trip_two_blocks_reproduces_fragments() {
    let (bytes, frag_a, frag_b) = two_block_module();
    let mut module = H5Module::default();
    let mut reader = ByteReader::new(bytes);
    module.read(&mut reader).unwrap();

    assert_eq!(module.header.version, 27);
    assert_eq!(module.files.len(), 1);
    assert_eq!(module.resource_indices, vec![1000, -2]);
    assert_eq!(module.blocks.len(), 2);
    assert!(module.blocks[0].compressed);
    assert!(!module.blocks[1].compressed);
    assert_eq!(module.blocks[0].checksum, Some(0xabcd));

    let file = &module.files[0];
    assert_eq!(file.name, "tags/example.bitmap");
    assert_eq!(file.group_tag, "bitm");
    assert_eq!(file.data.len(), 40);
    assert_eq!(&file.data[0..frag_a.len()], frag_a.as_slice());
    assert_eq!(&file.data[frag_a.len()..], frag_b.as_slice());
}

#[test]
fn parsing_twice_yields_identical_modules() {
    let (bytes, _, _) = two_block_module();
    let mut first = H5Module::default();
    first.read(&mut ByteReader::new(bytes.clone())).unwrap();
    let mut second = H5Module::default();
    second.read(&mut ByteReader::new(bytes)).unwrap();
    assert_eq!(first, second);
}

/// A minimal module holding one single-piece (non-block) entry.
fn single_piece_module(version: u32, flags: u8, payload: &[u8], tus: u32) -> Vec<u8> {
    let entry = EntrySpec {
        name_offset: 0,
        block_count: 0,
        first_block_index: 0,
        data_offset: 0,
        total_compressed_size: payload.len() as u32,
        total_uncompressed_size: tus,
        flags,
        group_tag: *b"rtsc",
    };
    let mut bytes = header_bytes(version, 1, 0, 0);
    bytes.extend_from_slice(&entry_bytes(&entry));
    bytes.extend_from_slice(b"one\0");
    bytes.extend_from_slice(payload);
    bytes
}

#[test]
fn single_compressed_tag_inflates() {
    let plain = b"a monolithic compressed tag body";
    let packed = deflate(plain);
    let bytes = single_piece_module(27, 0b001, &packed, plain.len() as u32);
    let mut module = H5Module::default();
    module.read(&mut ByteReader::new(bytes)).unwrap();
    assert_eq!(module.files[0].data, plain.to_vec());
    assert_eq!(module.files[0].name, "one");
}

#[test]
fn non_compressed_single_tag_is_rejected() {
    let payload = b"stored without the compressed flag";
    let bytes = single_piece_module(27, 0b000, payload, payload.len() as u32);
    let mut module = H5Module::default();
    assert_eq!(
        module.read(&mut ByteReader::new(bytes)),
        Err(ModuleError::NonCompressedSingleTag)
    );
}

#[test]
fn corrupt_zlib_stream_fails_decompression() {
    let garbage = [0x01u8, 0x02, 0x03, 0x04, 0x05, 0x06, 0x07, 0x08];
    let bytes = single_piece_module(27, 0b001, &garbage, 16);
    let mut module = H5Module::default();
    assert_eq!(
        module.read(&mut ByteReader::new(bytes)),
        Err(ModuleError::DecompressionFailed)
    );
}

#[test]
fn empty_tag_fails_before_any_read() {
    let bytes = single_piece_module(27, 0b001, b"", 0);
    let mut module = H5Module::default();
    let mut reader = ByteReader::new(bytes.clone());
    module.read(&mut reader).unwrap_err();
    assert_eq!(
        module.read(&mut ByteReader::new(bytes.clone())),
        Err(ModuleError::EmptyTag)
    );
    // Through read_tag directly: the reader is not even moved.
    let mut manual = H5Module::default();
    let mut entry = ModuleFileEntry::default();
    entry.read(&mut ByteReader::new(bytes[56..144].to_vec())).unwrap();
    manual.files.push(entry);
    let mut untouched = ByteReader::new(bytes);
    untouched.seek_to(9);
    assert_eq!(
        manual.read_tag(0, &mut untouched),
        Err(ModuleError::EmptyTag)
    );
    assert_eq!(untouched.pos, 9);
}

#[test]
fn v23_module_reads_shorter_block_records() {
    let plain = b"older variant block".to_vec();
    let entry = EntrySpec {
        name_offset: 0,
        block_count: 1,
        first_block_index: 0,
        data_offset: 0,
        total_compressed_size: 0,
        total_uncompressed_size: plain.len() as u32,
        flags: 0b010,
        group_tag: *b"gnal",
    };
    let mut bytes = header_bytes(23, 1, 0, 1);
    bytes.extend_from_slice(&entry_bytes(&entry));
    bytes.extend_from_slice(b"old\0");
    let record = block_bytes(false, 0, plain.len() as u32, 0, plain.len() as u32, false);
    // The older variant's record drops checksum and padding: 12 bytes fewer.
    assert_eq!(record.len(), 20);
    assert_eq!(block_bytes(true, 0, 0, 0, 0, false).len(), 32);
    bytes.extend_from_slice(&record);
    bytes.extend_from_slice(&plain);
    let mut module = H5Module::default();
    module.read(&mut ByteReader::new(bytes)).unwrap();
    assert_eq!(module.header.checksum, None);
    assert_eq!(module.blocks[0].checksum, None);
    assert_eq!(module.blocks[0].padding, None);
    assert_eq!(module.files[0].data, plain);
}

fn one_block_module(co: u32, cs: u32, uo: u32, us: u32, tus: u32, payload: &[u8]) -> Vec<u8> {
    let entry = EntrySpec {
        name_offset: 0,
        block_count: 1,
        first_block_index: 0,
        data_offset: 0,
        total_compressed_size: 0,
        total_uncompressed_size: tus,
        flags: 0b010,
        group_tag: *b"tset",
    };
    let mut bytes = header_bytes(27, 1, 0, 1);
    bytes.extend_from_slice(&entry_bytes(&entry));
    bytes.extend_from_slice(b"x\0");
    bytes.extend_from_slice(&block_bytes(true, co, cs, uo, us, false));
    bytes.extend_from_slice(payload);
    bytes
}

#[test]
fn block_destination_outside_buffer_is_rejected() {
    // Destination range [4, 12) in an 8-byte buffer.
    let bytes = one_block_module(0, 8, 4, 8, 8, &[0u8; 8]);
    let mut module = H5Module::default();
    assert_eq!(
        module.read(&mut ByteReader::new(bytes)),
        Err(ModuleError::BlockRangeOutOfBounds)
    );
}

#[test]
fn block_slice_outside_table_is_rejected() {
    let entry = EntrySpec {
        name_offset: 0,
        block_count: 2, // but the table holds only one block
        first_block_index: 0,
        data_offset: 0,
        total_compressed_size: 0,
        total_uncompressed_size: 8,
        flags: 0b010,
        group_tag: *b"tset",
    };
    let mut bytes = header_bytes(27, 1, 0, 1);
    bytes.extend_from_slice(&entry_bytes(&entry));
    bytes.extend_from_slice(b"x\0");
    bytes.extend_from_slice(&block_bytes(true, 0, 8, 0, 8, false));
    bytes.extend_from_slice(&[0u8; 8]);
    let mut module = H5Module::default();
    assert_eq!(
        module.read(&mut ByteReader::new(bytes)),
        Err(ModuleError::BlockRangeOutOfBounds)
    );
}

#[test]
fn overlapping_block_destinations_are_rejected() {
    let entry = EntrySpec {
        name_offset: 0,
        block_count: 2,
        first_block_index: 0,
        data_offset: 0,
        total_compressed_size: 0,
        total_uncompressed_size: 12,
        flags: 0b010,
        group_tag: *b"tset",
    };
    let mut bytes = header_bytes(27, 1, 0, 2);
    bytes.extend_from_slice(&entry_bytes(&entry));
    bytes.extend_from_slice(b"x\0");
    bytes.extend_from_slice(&block_bytes(true, 0, 8, 0, 8, false));
    bytes.extend_from_slice(&block_bytes(true, 8, 8, 4, 8, false)); // overlaps [4,12)
    bytes.extend_from_slice(&[0u8; 16]);
    let mut module = H5Module::default();
    assert_eq!(
        module.read(&mut ByteReader::new(bytes)),
        Err(ModuleError::OverlappingBlocks)
    );
}

#[test]
fn raw_block_with_mismatched_sizes_is_rejected() {
    // Stored size 6, declared uncompressed size 8, not compressed.
    let bytes = one_block_module(0, 6, 0, 8, 8, &[0u8; 6]);
    let mut module = H5Module::default();
    assert_eq!(
        module.read(&mut ByteReader::new(bytes)),
        Err(ModuleError::RawBlockSizeMismatch)
    );
}

#[test]
fn block_read_past_end_reports_eof() {
    // The block claims 8 stored bytes but only 2 exist.
    let bytes = one_block_module(0, 8, 0, 8, 8, &[0u8; 2]);
    let mut module = H5Module::default();
    assert_eq!(
        module.read(&mut ByteReader::new(bytes)),
        Err(ModuleError::UnexpectedEof)
    );
}

#[test]
fn uncovered_buffer_bytes_stay_zero() {
    // One raw block writes [2, 6) of an 8-byte buffer.
    let bytes = one_block_module(0, 4, 2, 4, 8, b"WXYZ");
    let mut module = H5Module::default();
    module.read(&mut ByteReader::new(bytes)).unwrap();
    assert_eq!(module.files[0].data, vec![0, 0, b'W', b'X', b'Y', b'Z', 0, 0]);
}

#[test]
fn invalid_utf8_name_is_rejected() {
    let plain = b"body";
    let packed = deflate(plain);
    let mut bytes = single_piece_module(27, 0b001, &packed, plain.len() as u32);
    // Corrupt the name bytes ("one\0") that follow the 88-byte entry.
    bytes[144] = 0xC3;
    bytes[145] = 0x28;
    let mut module = H5Module::default();
    assert_eq!(
        module.read(&mut ByteReader::new(bytes)),
        Err(ModuleError::InvalidUtf8)
    );
}

#[test]
fn failed_parse_leaves_module_unchanged() {
    let bytes = single_piece_module(27, 0b000, b"zz", 2);
    let mut module = H5Module::default();
    let before = H5Module::default();
    module.read(&mut ByteReader::new(bytes)).unwrap_err();
    assert_eq!(module, before);
}

#[test]
fn zero_blocks_entry_yields_zero_filled_buffer() {
    let entry = EntrySpec {
        name_offset: 0,
        block_count: 0,
        first_block_index: 0,
        data_offset: 0,
        total_compressed_size: 0,
        total_uncompressed_size: 5,
        flags: 0b010,
        group_tag: *b"orez",
    };
    let mut bytes = header_bytes(27, 1, 0, 0);
    bytes.extend_from_slice(&entry_bytes(&entry));
    bytes.extend_from_slice(b"z\0");
    let mut module = H5Module::default();
    module.read(&mut ByteReader::new(bytes)).unwrap();
    assert_eq!(module.files[0].data, vec![0u8; 5]);
    assert_eq!(module.files[0].group_tag, "zero");
}

#[test]
fn integer_readers_decode_little_endian() {
    let mut reader = ByteReader::new(vec![
        0x01, //
        0x02, 0x03, // u16 0x0302
        0xFF, 0xFF, // i16 -1
        0x78, 0x56, 0x34, 0x12, // u32
        0xFE, 0xFF, 0xFF, 0xFF, // i32 -2
        0xEF, 0xCD, 0xAB, 0x89, 0x67, 0x45, 0x23, 0x01, // u64
        0xFD, 0xFF, 0xFF, 0xFF, 0xFF, 0xFF, 0xFF, 0xFF, // i64 -3
    ]);
    assert_eq!(reader.read_u8().unwrap(), 1);
    assert_eq!(reader.read_u16().unwrap(), 0x0302);
    assert_eq!(reader.read_i16().unwrap(), -1);
    assert_eq!(reader.read_u32().unwrap(), 0x12345678);
    assert_eq!(reader.read_i32().unwrap(), -2);
    assert_eq!(reader.read_u64().unwrap(), 0x0123456789ABCDEF);
    assert_eq!(reader.read_i64().unwrap(), -3);
    assert_eq!(reader.read_u8(), Err(ReadError::UnexpectedEof));
}

#[test]
fn block_record_decodes_compressed_word_as_nonzero() {
    let mut reader = ByteReader::new(block_bytes(true, 1, 2, 3, 4, true));
    let mut b = ModuleBlock::default();
    b.read(&mut reader, true).unwrap();
    assert_eq!(b.compressed_offset, 1);
    assert_eq!(b.compressed_size, 2);
    assert_eq!(b.uncompressed_offset, 3);
    assert_eq!(b.uncompressed_size, 4);
    assert!(b.compressed);
    assert_eq!(b.checksum, Some(0xabcd));
    assert_eq!(b.padding, Some(0));
    assert_eq!(reader.pos, 32);

    let mut v = block_bytes(false, 1, 2, 3, 4, false);
    v.extend_from_slice(&[9, 9]);
    let mut reader = ByteReader::new(v);
    let mut b = ModuleBlock::default();
    b.read(&mut reader, false).unwrap();
    assert!(!b.compressed);
    assert_eq!(reader.pos, 20);
}
