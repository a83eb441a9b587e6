//! The container format itself: header, file-entry table, block table, and
//! the reconstruction of each tag's bytes from its optionally compressed
//! blocks.

use vstd::prelude::*;

use crate::common::{
    le_u32, le_u64, le_i16, le_i32, le_i64, trim_trailing_zeros, cstr_bytes, cstr_after,
    utf8_decoded, utf8_lossy, string_from_utf8_lossy, trim_zeros, ByteReader, BufReaderExt,
};

verus! {

/// Everything that can go wrong while decoding a module or reconstructing a
/// tag. The first four mirror the format's own invariants; the rest report
/// malformed input that would otherwise corrupt a reconstruction.
#[derive(Debug, PartialEq, Eq)]
pub enum ModuleError {
    /// The version field held neither accepted value; carries what was found.
    InvalidModuleVersion(u32),
    /// The magic tag was not the fixed value; carries the text found.
    InvalidModuleMagic(String),
    /// A tag to reconstruct declared a total uncompressed size of zero.
    EmptyTag,
    /// A single-piece tag did not have the compressed flag set.
    NonCompressedSingleTag,
    /// A read or seek asked for bytes past the end of the module.
    UnexpectedEof,
    /// A tag name was not valid UTF-8.
    InvalidUtf8,
    /// A zlib stream could not be inflated to the declared size.
    DecompressionFailed,
    /// A block list or destination range reached outside its table or buffer.
    BlockRangeOutOfBounds,
    /// Two blocks of one tag declared overlapping destination ranges.
    OverlappingBlocks,
    /// A stored (non-compressed) block's two sizes disagreed.
    RawBlockSizeMismatch,
}

/// The independent capabilities a file entry may combine.
#[derive(Debug, Clone, Copy, PartialEq, Eq, Structural)]
pub struct FileFlags {
    pub bits: u8,
}

impl FileFlags {
    /// The entry's data is zlib-compressed.
    pub open spec fn spec_compressed(self) -> bool {
        self.bits & 1 != 0
    }

    /// The entry's data is split over entries of the shared block table.
    pub open spec fn spec_has_blocks(self) -> bool {
        self.bits & 2 != 0
    }

    /// The entry is a raw file rather than a structured tag.
    pub open spec fn spec_raw_file(self) -> bool {
        self.bits & 4 != 0
    }

    pub fn compressed(&self) -> (r: bool)
        ensures
            r == self.spec_compressed(),
    {
        self.bits & 1 != 0
    }

    pub fn has_blocks(&self) -> (r: bool)
        ensures
            r == self.spec_has_blocks(),
    {
        self.bits & 2 != 0
    }

    pub fn raw_file(&self) -> (r: bool)
        ensures
            r == self.spec_raw_file(),
    {
        self.bits & 4 != 0
    }

    /// Keeps only the three defined flag bits, as the wire byte may carry
    /// more.
    pub fn from_bits_truncate(b: u8) -> (r: FileFlags)
        ensures
            r.bits == b & 7,
    {
        FileFlags { bits: b & 7 }
    }
}

impl Default for FileFlags {
    fn default() -> (r: FileFlags)
        ensures
            r.bits == 0,
    {
        FileFlags { bits: 0 }
    }
}

/// The newer of the two accepted format versions; it alone carries the
/// header checksum and the per-block checksum and padding fields.
pub const FORGE_VERSION: u32 = 27;

/// The older accepted format version.
pub const OLDER_VERSION: u32 = 23;

/// The fixed four magic bytes that open every module: "mohd".
pub open spec fn magic_bytes() -> Seq<u8> {
    seq![0x6du8, 0x6fu8, 0x68u8, 0x64u8]
}

/// Byte length of the header for a given version.
pub open spec fn header_len(version: u32) -> int {
    if version == FORGE_VERSION {
        56
    } else {
        48
    }
}

/// Byte length of one block record for each format variant.
pub open spec fn block_len(is_forge: bool) -> int {
    if is_forge {
        32
    } else {
        20
    }
}

/// Byte length of one file-entry record.
pub open spec fn entry_len() -> int {
    88
}

/// The decoded module header.
#[derive(Debug, PartialEq, Eq)]
pub struct ModuleHeader {
    pub magic: String,
    pub version: u32,
    pub module_id: u64,
    pub item_count: u32,
    pub manifest_count: u32,
    pub resource_index: i32,
    pub strings_size: u32,
    pub resource_count: u32,
    pub block_count: u32,
    pub build_version: u64,
    /// Present exactly when `version` is the newer accepted value.
    pub checksum: Option<u64>,
}

impl Default for ModuleHeader {
    fn default() -> (r: ModuleHeader)
        ensures
            r.magic@ == Seq::<char>::empty(),
            r.version == 0,
            r.module_id == 0,
            r.item_count == 0,
            r.manifest_count == 0,
            r.resource_index == 0,
            r.strings_size == 0,
            r.resource_count == 0,
            r.block_count == 0,
            r.build_version == 0,
            r.checksum is None,
    {
        ModuleHeader {
            magic: String::new(),
            version: 0,
            module_id: 0,
            item_count: 0,
            manifest_count: 0,
            resource_index: 0,
            strings_size: 0,
            resource_count: 0,
            block_count: 0,
            build_version: 0,
            checksum: None,
        }
    }
}

/// Field-by-field relation between a decoded header and the bytes at `p`.
pub open spec fn header_matches(h: ModuleHeader, data: Seq<u8>, p: int) -> bool {
    &&& h.magic@ == utf8_lossy(trim_trailing_zeros(data.subrange(p, p + 4)))
    &&& h.version == le_u32(data, p + 4)
    &&& h.module_id == le_u64(data, p + 8)
    &&& h.item_count == le_u32(data, p + 16)
    &&& h.manifest_count == le_u32(data, p + 20)
    &&& h.resource_index == le_i32(data, p + 24)
    &&& h.strings_size == le_u32(data, p + 28)
    &&& h.resource_count == le_u32(data, p + 32)
    &&& h.block_count == le_u32(data, p + 36)
    &&& h.build_version == le_u64(data, p + 40)
    &&& h.checksum == if h.version == FORGE_VERSION {
        Some(le_u64(data, p + 48))
    } else {
        None::<u64>
    }
}

/// The bytes at `p` open a well-formed header: enough of them, the fixed
/// magic, an accepted version, and room for every fixed field.
pub open spec fn header_wf(data: Seq<u8>, p: int) -> bool {
    &&& 0 <= p
    &&& p + 4 <= data.len()
    &&& data.subrange(p, p + 4) == magic_bytes()
    &&& p + 8 <= data.len()
    &&& (le_u32(data, p + 4) == FORGE_VERSION || le_u32(data, p + 4) == OLDER_VERSION)
    &&& p + header_len(le_u32(data, p + 4)) <= data.len()
}

impl ModuleHeader {
    /// Decodes the fixed-size header at the reader's position, validating
    /// magic and version. `self` is overwritten only on success.
    pub fn read(&mut self, reader: &mut ByteReader) -> (r: Result<(), ModuleError>)
        ensures
            final(reader).data@ == old(reader).data@,
            r is Ok <==> header_wf(old(reader).data@, old(reader).pos as int),
            r is Ok ==> header_matches(*final(self), old(reader).data@, old(reader).pos as int)
                && final(reader).pos == old(reader).pos + header_len(final(self).version),
            r is Ok ==> final(self).version == FORGE_VERSION || final(self).version
                == OLDER_VERSION,
            r is Ok ==> (final(self).checksum is Some <==> final(self).version == FORGE_VERSION),
            r is Err ==> *final(self) == *old(self),
            old(reader).pos + 4 > old(reader).data@.len() ==> r == Err::<(), ModuleError>(
                ModuleError::UnexpectedEof,
            ),
            old(reader).pos + 4 <= old(reader).data@.len() && old(reader).data@.subrange(
                old(reader).pos as int,
                old(reader).pos + 4,
            ) != magic_bytes() ==> r is Err && r->Err_0 is InvalidModuleMagic
                && r->Err_0->InvalidModuleMagic_0@ == utf8_lossy(
                trim_trailing_zeros(
                    old(reader).data@.subrange(old(reader).pos as int, old(reader).pos + 4),
                ),
            ),
            old(reader).data@.subrange(old(reader).pos as int, old(reader).pos + 4) == magic_bytes()
                && old(reader).pos + 8 <= old(reader).data@.len() && le_u32(
                old(reader).data@,
                old(reader).pos + 4,
            ) != FORGE_VERSION && le_u32(old(reader).data@, old(reader).pos + 4) != OLDER_VERSION
                ==> r == Err::<(), ModuleError>(
                ModuleError::InvalidModuleVersion(le_u32(old(reader).data@, old(reader).pos + 4)),
            ),
    {
        let ghost p = reader.pos as int;
        let ghost data = reader.data@;
        let mut magic_raw = match reader.read_bytes(4) {
            Ok(v) => v,
            Err(_) => {
                return Err(ModuleError::UnexpectedEof);
            },
        };
        let magic_ok = magic_raw[0] == 0x6d && magic_raw[1] == 0x6f && magic_raw[2] == 0x68
            && magic_raw[3] == 0x64;
        proof {
            assert(magic_ok <==> data.subrange(p, p + 4) =~= magic_bytes());
        }
        trim_zeros(&mut magic_raw);
        let magic = string_from_utf8_lossy(&magic_raw);
        if !magic_ok {
            return Err(ModuleError::InvalidModuleMagic(magic));
        }
        let version = match reader.read_u32() {
            Ok(v) => v,
            Err(_) => {
                return Err(ModuleError::UnexpectedEof);
            },
        };
        if version != FORGE_VERSION && version != OLDER_VERSION {
            return Err(ModuleError::InvalidModuleVersion(version));
        }
        let module_id = match reader.read_u64() {
            Ok(v) => v,
            Err(_) => {
                return Err(ModuleError::UnexpectedEof);
            },
        };
        let item_count = match reader.read_u32() {
            Ok(v) => v,
            Err(_) => {
                return Err(ModuleError::UnexpectedEof);
            },
        };
        let manifest_count = match reader.read_u32() {
            Ok(v) => v,
            Err(_) => {
                return Err(ModuleError::UnexpectedEof);
            },
        };
        let resource_index = match reader.read_i32() {
            Ok(v) => v,
            Err(_) => {
                return Err(ModuleError::UnexpectedEof);
            },
        };
        let strings_size = match reader.read_u32() {
            Ok(v) => v,
            Err(_) => {
                return Err(ModuleError::UnexpectedEof);
            },
        };
        let resource_count = match reader.read_u32() {
            Ok(v) => v,
            Err(_) => {
                return Err(ModuleError::UnexpectedEof);
            },
        };
        let block_count = match reader.read_u32() {
            Ok(v) => v,
            Err(_) => {
                return Err(ModuleError::UnexpectedEof);
            },
        };
        let build_version = match reader.read_u64() {
            Ok(v) => v,
            Err(_) => {
                return Err(ModuleError::UnexpectedEof);
            },
        };
        let checksum = if version == FORGE_VERSION {
            match reader.read_u64() {
                Ok(v) => Some(v),
                Err(_) => {
                    return Err(ModuleError::UnexpectedEof);
                },
            }
        } else {
            None
        };
        *self = ModuleHeader {
            magic,
            version,
            module_id,
            item_count,
            manifest_count,
            resource_index,
            strings_size,
            resource_count,
            block_count,
            build_version,
            checksum,
        };
        Ok(())
    }
}

/// One descriptor of the shared block table.
#[derive(Debug, Clone, Copy, PartialEq, Eq)]
pub struct ModuleBlock {
    /// Present only in the newer format variant.
    pub checksum: Option<u64>,
    pub compressed_offset: u32,
    pub compressed_size: u32,
    pub uncompressed_offset: u32,
    pub uncompressed_size: u32,
    pub compressed: bool,
    /// Present only in the newer format variant.
    pub padding: Option<i32>,
}

impl Default for ModuleBlock {
    fn default() -> (r: ModuleBlock)
        ensures
            r.checksum is None,
            r.compressed_offset == 0,
            r.compressed_size == 0,
            r.uncompressed_offset == 0,
            r.uncompressed_size == 0,
            !r.compressed,
            r.padding is None,
    {
        ModuleBlock {
            checksum: None,
            compressed_offset: 0,
            compressed_size: 0,
            uncompressed_offset: 0,
            uncompressed_size: 0,
            compressed: false,
            padding: None,
        }
    }
}

/// Field-by-field relation between a decoded block record and the bytes at
/// `p`, for the variant selected by `is_forge`.
pub open spec fn block_matches(b: ModuleBlock, data: Seq<u8>, p: int, is_forge: bool) -> bool {
    if is_forge {
        &&& b.checksum == Some(le_u64(data, p))
        &&& b.compressed_offset == le_u32(data, p + 8)
        &&& b.compressed_size == le_u32(data, p + 12)
        &&& b.uncompressed_offset == le_u32(data, p + 16)
        &&& b.uncompressed_size == le_u32(data, p + 20)
        &&& b.compressed == (le_u32(data, p + 24) != 0)
        &&& b.padding == Some(le_i32(data, p + 28))
    } else {
        &&& b.checksum is None
        &&& b.compressed_offset == le_u32(data, p)
        &&& b.compressed_size == le_u32(data, p + 4)
        &&& b.uncompressed_offset == le_u32(data, p + 8)
        &&& b.uncompressed_size == le_u32(data, p + 12)
        &&& b.compressed == (le_u32(data, p + 16) != 0)
        &&& b.padding is None
    }
}

impl ModuleBlock {
    /// Decodes one block record at the reader's position; the checksum and
    /// padding fields exist only in the newer variant. `self` is overwritten
    /// only on success.
    pub fn read(&mut self, reader: &mut ByteReader, is_forge: bool) -> (r: Result<(), ModuleError>)
        ensures
            final(reader).data@ == old(reader).data@,
            r is Ok <==> old(reader).pos + block_len(is_forge) <= old(reader).data@.len(),
            r is Ok ==> block_matches(
                *final(self),
                old(reader).data@,
                old(reader).pos as int,
                is_forge,
            ) && final(reader).pos == old(reader).pos + block_len(is_forge),
            r is Err ==> r == Err::<(), ModuleError>(ModuleError::UnexpectedEof) && *final(self)
                == *old(self),
    {
        let checksum = if is_forge {
            match reader.read_u64() {
                Ok(v) => Some(v),
                Err(_) => {
                    return Err(ModuleError::UnexpectedEof);
                },
            }
        } else {
            None
        };
        let compressed_offset = match reader.read_u32() {
            Ok(v) => v,
            Err(_) => {
                return Err(ModuleError::UnexpectedEof);
            },
        };
        let compressed_size = match reader.read_u32() {
            Ok(v) => v,
            Err(_) => {
                return Err(ModuleError::UnexpectedEof);
            },
        };
        let uncompressed_offset = match reader.read_u32() {
            Ok(v) => v,
            Err(_) => {
                return Err(ModuleError::UnexpectedEof);
            },
        };
        let uncompressed_size = match reader.read_u32() {
            Ok(v) => v,
            Err(_) => {
                return Err(ModuleError::UnexpectedEof);
            },
        };
        let compressed_word = match reader.read_u32() {
            Ok(v) => v,
            Err(_) => {
                return Err(ModuleError::UnexpectedEof);
            },
        };
        let padding = if is_forge {
            match reader.read_i32() {
                Ok(v) => Some(v),
                Err(_) => {
                    return Err(ModuleError::UnexpectedEof);
                },
            }
        } else {
            None
        };
        *self = ModuleBlock {
            checksum,
            compressed_offset,
            compressed_size,
            uncompressed_offset,
            uncompressed_size,
            compressed: compressed_word != 0,
            padding,
        };
        Ok(())
    }
}

/// Builds the byte-reversed copy of `v`.
fn reversed_bytes(v: &Vec<u8>) -> (r: Vec<u8>)
    ensures
        r@ == v@.reverse(),
{
    let mut out: Vec<u8> = Vec::new();
    let mut k: usize = v.len();
    while k > 0
        invariant
            k <= v.len(),
            out@.len() == v@.len() - k,
            forall|i: int| 0 <= i < out@.len() ==> out@[i] == v@[v@.len() - 1 - i],
        decreases k,
    {
        k = k - 1;
        out.push(v[k]);
    }
    assert(out@ =~= v@.reverse());
    out
}

/// The scalar fields of a file entry that locate and size its data; what the
/// tag reconstructor reads.
#[derive(Debug, Clone, Copy, PartialEq, Eq, Structural)]
pub struct TagLocation {
    pub block_count: u32,
    pub first_block_index: i32,
    pub data_offset: u64,
    pub total_compressed_size: u32,
    pub total_uncompressed_size: u32,
    pub flags: FileFlags,
}

/// One record of the file-entry table: a contained tag's descriptor, its
/// resolved display name, and, once reconstructed, its bytes.
#[derive(Debug, PartialEq, Eq)]
pub struct ModuleFileEntry {
    pub name_offset: u32,
    pub parent_file_index: i32,
    pub resource_count: u32,
    pub first_resource_index: i32,
    pub block_count: u32,
    pub first_block_index: i32,
    pub data_offset: u64,
    pub total_compressed_size: u32,
    pub total_uncompressed_size: u32,
    pub header_alignment: u8,
    pub tag_alignment: u8,
    pub resource_alignment: u8,
    pub flags: FileFlags,
    pub global_tag_id: i32,
    pub asset_id: i64,
    pub asset_checksum: i64,
    /// Four-character group code, exposed in reverse of its stored order.
    pub group_tag: String,
    pub uncompressed_header_size: u32,
    pub uncompressed_tag_size: u32,
    pub uncompressed_resource_size: u32,
    pub header_block_count: i16,
    pub tag_block_count: i16,
    pub resource_block_count: i16,
    pub padding: i16,
    pub name: String,
    pub data: Vec<u8>,
}

impl Default for ModuleFileEntry {
    fn default() -> (r: ModuleFileEntry)
        ensures
            r.name_offset == 0,
            r.block_count == 0,
            r.first_block_index == 0,
            r.data_offset == 0,
            r.total_compressed_size == 0,
            r.total_uncompressed_size == 0,
            r.flags.bits == 0,
            r.group_tag@ == Seq::<char>::empty(),
            r.name@ == Seq::<char>::empty(),
            r.data@ == Seq::<u8>::empty(),
    {
        ModuleFileEntry {
            name_offset: 0,
            parent_file_index: 0,
            resource_count: 0,
            first_resource_index: 0,
            block_count: 0,
            first_block_index: 0,
            data_offset: 0,
            total_compressed_size: 0,
            total_uncompressed_size: 0,
            header_alignment: 0,
            tag_alignment: 0,
            resource_alignment: 0,
            flags: FileFlags { bits: 0 },
            global_tag_id: 0,
            asset_id: 0,
            asset_checksum: 0,
            group_tag: String::new(),
            uncompressed_header_size: 0,
            uncompressed_tag_size: 0,
            uncompressed_resource_size: 0,
            header_block_count: 0,
            tag_block_count: 0,
            resource_block_count: 0,
            padding: 0,
            name: String::new(),
            data: Vec::new(),
        }
    }
}

/// Field-by-field relation between a decoded entry and the 88 bytes at `p`;
/// says nothing about the name or the reconstructed data, which later passes
/// fill in.
pub open spec fn entry_matches(e: ModuleFileEntry, data: Seq<u8>, p: int) -> bool {
    &&& e.name_offset == le_u32(data, p)
    &&& e.parent_file_index == le_i32(data, p + 4)
    &&& e.resource_count == le_u32(data, p + 8)
    &&& e.first_resource_index == le_i32(data, p + 12)
    &&& e.block_count == le_u32(data, p + 16)
    &&& e.first_block_index == le_i32(data, p + 20)
    &&& e.data_offset == le_u64(data, p + 24)
    &&& e.total_compressed_size == le_u32(data, p + 32)
    &&& e.total_uncompressed_size == le_u32(data, p + 36)
    &&& e.header_alignment == data[p + 40]
    &&& e.tag_alignment == data[p + 41]
    &&& e.resource_alignment == data[p + 42]
    &&& e.flags.bits == (data[p + 43] & 7)
    &&& e.global_tag_id == le_i32(data, p + 44)
    &&& e.asset_id == le_i64(data, p + 48)
    &&& e.asset_checksum == le_i64(data, p + 56)
    &&& e.group_tag@ == utf8_lossy(trim_trailing_zeros(data.subrange(p + 64, p + 68)).reverse())
    &&& e.uncompressed_header_size == le_u32(data, p + 68)
    &&& e.uncompressed_tag_size == le_u32(data, p + 72)
    &&& e.uncompressed_resource_size == le_u32(data, p + 76)
    &&& e.header_block_count == le_i16(data, p + 80)
    &&& e.tag_block_count == le_i16(data, p + 82)
    &&& e.resource_block_count == le_i16(data, p + 84)
    &&& e.padding == le_i16(data, p + 86)
}

/// Every field of `a` equals the same field of `b`, the name excepted.
pub open spec fn entry_same_but_name(a: ModuleFileEntry, b: ModuleFileEntry) -> bool {
    &&& a.name_offset == b.name_offset
    &&& a.parent_file_index == b.parent_file_index
    &&& a.resource_count == b.resource_count
    &&& a.first_resource_index == b.first_resource_index
    &&& a.block_count == b.block_count
    &&& a.first_block_index == b.first_block_index
    &&& a.data_offset == b.data_offset
    &&& a.total_compressed_size == b.total_compressed_size
    &&& a.total_uncompressed_size == b.total_uncompressed_size
    &&& a.header_alignment == b.header_alignment
    &&& a.tag_alignment == b.tag_alignment
    &&& a.resource_alignment == b.resource_alignment
    &&& a.flags == b.flags
    &&& a.global_tag_id == b.global_tag_id
    &&& a.asset_id == b.asset_id
    &&& a.asset_checksum == b.asset_checksum
    &&& a.group_tag == b.group_tag
    &&& a.uncompressed_header_size == b.uncompressed_header_size
    &&& a.uncompressed_tag_size == b.uncompressed_tag_size
    &&& a.uncompressed_resource_size == b.uncompressed_resource_size
    &&& a.header_block_count == b.header_block_count
    &&& a.tag_block_count == b.tag_block_count
    &&& a.resource_block_count == b.resource_block_count
    &&& a.padding == b.padding
    &&& a.data == b.data
}

impl ModuleFileEntry {
    /// The entry's data-locating fields, gathered for the reconstructor.
    pub open spec fn location(self) -> TagLocation {
        TagLocation {
            block_count: self.block_count,
            first_block_index: self.first_block_index,
            data_offset: self.data_offset,
            total_compressed_size: self.total_compressed_size,
            total_uncompressed_size: self.total_uncompressed_size,
            flags: self.flags,
        }
    }

    /// Decodes one 88-byte entry record at the reader's position. The name
    /// and data fields are left as they were; `self` is overwritten only on
    /// success.
    pub fn read(&mut self, reader: &mut ByteReader) -> (r: Result<(), ModuleError>)
        ensures
            final(reader).data@ == old(reader).data@,
            r is Ok <==> old(reader).pos + entry_len() <= old(reader).data@.len(),
            r is Ok ==> entry_matches(*final(self), old(reader).data@, old(reader).pos as int)
                && final(self).name == old(self).name && final(self).data == old(self).data,
            r is Ok ==> final(reader).pos == old(reader).pos + entry_len(),
            r is Err ==> r == Err::<(), ModuleError>(ModuleError::UnexpectedEof) && *final(self)
                == *old(self),
    {
        let ghost p = reader.pos as int;
        let ghost data = reader.data@;
        let name_offset = match reader.read_u32() {
            Ok(v) => v,
            Err(_) => {
                return Err(ModuleError::UnexpectedEof);
            },
        };
        let parent_file_index = match reader.read_i32() {
            Ok(v) => v,
            Err(_) => {
                return Err(ModuleError::UnexpectedEof);
            },
        };
        let resource_count = match reader.read_u32() {
            Ok(v) => v,
            Err(_) => {
                return Err(ModuleError::UnexpectedEof);
            },
        };
        let first_resource_index = match reader.read_i32() {
            Ok(v) => v,
            Err(_) => {
                return Err(ModuleError::UnexpectedEof);
            },
        };
        let block_count = match reader.read_u32() {
            Ok(v) => v,
            Err(_) => {
                return Err(ModuleError::UnexpectedEof);
            },
        };
        let first_block_index = match reader.read_i32() {
            Ok(v) => v,
            Err(_) => {
                return Err(ModuleError::UnexpectedEof);
            },
        };
        let data_offset = match reader.read_u64() {
            Ok(v) => v,
            Err(_) => {
                return Err(ModuleError::UnexpectedEof);
            },
        };
        let total_compressed_size = match reader.read_u32() {
            Ok(v) => v,
            Err(_) => {
                return Err(ModuleError::UnexpectedEof);
            },
        };
        let total_uncompressed_size = match reader.read_u32() {
            Ok(v) => v,
            Err(_) => {
                return Err(ModuleError::UnexpectedEof);
            },
        };
        let header_alignment = match reader.read_u8() {
            Ok(v) => v,
            Err(_) => {
                return Err(ModuleError::UnexpectedEof);
            },
        };
        let tag_alignment = match reader.read_u8() {
            Ok(v) => v,
            Err(_) => {
                return Err(ModuleError::UnexpectedEof);
            },
        };
        let resource_alignment = match reader.read_u8() {
            Ok(v) => v,
            Err(_) => {
                return Err(ModuleError::UnexpectedEof);
            },
        };
        let flag_byte = match reader.read_u8() {
            Ok(v) => v,
            Err(_) => {
                return Err(ModuleError::UnexpectedEof);
            },
        };
        let global_tag_id = match reader.read_i32() {
            Ok(v) => v,
            Err(_) => {
                return Err(ModuleError::UnexpectedEof);
            },
        };
        let asset_id = match reader.read_i64() {
            Ok(v) => v,
            Err(_) => {
                return Err(ModuleError::UnexpectedEof);
            },
        };
        let asset_checksum = match reader.read_i64() {
            Ok(v) => v,
            Err(_) => {
                return Err(ModuleError::UnexpectedEof);
            },
        };
        let mut tag_raw = match reader.read_bytes(4) {
            Ok(v) => v,
            Err(_) => {
                return Err(ModuleError::UnexpectedEof);
            },
        };
        trim_zeros(&mut tag_raw);
        let tag_rev = reversed_bytes(&tag_raw);
        let group_tag = string_from_utf8_lossy(&tag_rev);
        let uncompressed_header_size = match reader.read_u32() {
            Ok(v) => v,
            Err(_) => {
                return Err(ModuleError::UnexpectedEof);
            },
        };
        let uncompressed_tag_size = match reader.read_u32() {
            Ok(v) => v,
            Err(_) => {
                return Err(ModuleError::UnexpectedEof);
            },
        };
        let uncompressed_resource_size = match reader.read_u32() {
            Ok(v) => v,
            Err(_) => {
                return Err(ModuleError::UnexpectedEof);
            },
        };
        let header_block_count = match reader.read_i16() {
            Ok(v) => v,
            Err(_) => {
                return Err(ModuleError::UnexpectedEof);
            },
        };
        let tag_block_count = match reader.read_i16() {
            Ok(v) => v,
            Err(_) => {
                return Err(ModuleError::UnexpectedEof);
            },
        };
        let resource_block_count = match reader.read_i16() {
            Ok(v) => v,
            Err(_) => {
                return Err(ModuleError::UnexpectedEof);
            },
        };
        let padding = match reader.read_i16() {
            Ok(v) => v,
            Err(_) => {
                return Err(ModuleError::UnexpectedEof);
            },
        };
        self.name_offset = name_offset;
        self.parent_file_index = parent_file_index;
        self.resource_count = resource_count;
        self.first_resource_index = first_resource_index;
        self.block_count = block_count;
        self.first_block_index = first_block_index;
        self.data_offset = data_offset;
        self.total_compressed_size = total_compressed_size;
        self.total_uncompressed_size = total_uncompressed_size;
        self.header_alignment = header_alignment;
        self.tag_alignment = tag_alignment;
        self.resource_alignment = resource_alignment;
        self.flags = FileFlags::from_bits_truncate(flag_byte);
        self.global_tag_id = global_tag_id;
        self.asset_id = asset_id;
        self.asset_checksum = asset_checksum;
        self.group_tag = group_tag;
        self.uncompressed_header_size = uncompressed_header_size;
        self.uncompressed_tag_size = uncompressed_tag_size;
        self.uncompressed_resource_size = uncompressed_resource_size;
        self.header_block_count = header_block_count;
        self.tag_block_count = tag_block_count;
        self.resource_block_count = resource_block_count;
        self.padding = padding;
        Ok(())
    }

    /// Seeks to the entry's slot in the name table and reads its
    /// null-terminated display name. Nothing else of the entry changes.
    pub fn read_name(&mut self, reader: &mut ByteReader, file_name_offset: u64) -> (r: Result<
        (),
        ModuleError,
    >)
        requires
            file_name_offset <= old(reader).data@.len(),
        ensures
            final(reader).data@ == old(reader).data@,
            entry_same_but_name(*final(self), *old(self)),
            final(reader).pos == if file_name_offset + old(self).name_offset >= old(
                reader,
            ).data@.len() {
                old(reader).data@.len() as int
            } else {
                cstr_after(old(reader).data@, file_name_offset + old(self).name_offset)
            },
            r is Ok <==> utf8_decoded(
                cstr_bytes(old(reader).data@, file_name_offset + old(self).name_offset),
            ) is Some,
            r is Ok ==> final(self).name@ == utf8_decoded(
                cstr_bytes(old(reader).data@, file_name_offset + old(self).name_offset),
            )->Some_0,
            r is Err ==> r == Err::<(), ModuleError>(ModuleError::InvalidUtf8) && final(self).name
                == old(self).name,
    {
        let ghost data = reader.data@;
        let ghost start = file_name_offset + self.name_offset as int;
        let target = if self.name_offset as u64 <= u64::MAX - file_name_offset {
            file_name_offset + self.name_offset as u64
        } else {
            u64::MAX
        };
        reader.seek_to(target);
        proof {
            if start > data.len() {
                assert(cstr_bytes(data, start) =~= cstr_bytes(data, data.len() as int));
            }
            if start >= data.len() {
                assert(cstr_after(data, data.len() as int) == data.len());
            }
        }
        match reader.read_cstring() {
            Ok(s) => {
                self.name = s;
                Ok(())
            },
            Err(_) => Err(ModuleError::InvalidUtf8),
        }
    }
}

/// The first `n` bytes that inflating the zlib stream `input` yields, when
/// the stream is valid and long enough; what `zlib_inflate_prefix` returns.
pub uninterp spec fn zlib_inflated(input: Seq<u8>, n: nat) -> Option<Seq<u8>>;

/// Relies on flate2's `ZlibDecoder` driven by `Read::read_exact`: inflating
/// an in-memory stream is a function of the input bytes alone, it fills the
/// buffer completely on success, and it fails on a corrupt or too-short
/// stream.
#[verifier::external_body]
fn zlib_inflate_prefix(input: &Vec<u8>, n: usize) -> (r: Option<Vec<u8>>)
    ensures
        r is Some <==> zlib_inflated(input@, n as nat) is Some,
        r is Some ==> r->Some_0@ == zlib_inflated(input@, n as nat)->Some_0 && r->Some_0@.len()
            == n,
{
    let mut out = vec![0u8; n];
    let mut decoder = flate2::bufread::ZlibDecoder::new(input.as_slice());
    match std::io::Read::read_exact(&mut decoder, &mut out) {
        Ok(()) => Some(out),
        Err(_) => None,
    }
}

/// The stored bytes of one block, relative to a file's data-region base.
pub open spec fn block_src(data: Seq<u8>, base: int, b: ModuleBlock) -> Seq<u8> {
    data.subrange(base + b.compressed_offset, base + b.compressed_offset + b.compressed_size)
}

/// What one block contributes to its tag's buffer: its stored bytes,
/// inflated when the block is compressed.
pub open spec fn block_payload(data: Seq<u8>, base: int, b: ModuleBlock) -> Seq<u8> {
    if b.compressed {
        zlib_inflated(block_src(data, base, b), b.uncompressed_size as nat)->Some_0
    } else {
        block_src(data, base, b)
    }
}

/// The block's stored bytes lie inside the module and produce exactly its
/// declared uncompressed size.
pub open spec fn block_readable(data: Seq<u8>, base: int, b: ModuleBlock) -> bool {
    &&& 0 <= base
    &&& base + b.compressed_offset + b.compressed_size <= data.len()
    &&& if b.compressed {
        zlib_inflated(block_src(data, base, b), b.uncompressed_size as nat) is Some
    } else {
        b.compressed_size == b.uncompressed_size
    }
}

/// The block's destination range fits in a buffer of `total` bytes.
pub open spec fn block_dest_ok(b: ModuleBlock, total: int) -> bool {
    b.uncompressed_offset + b.uncompressed_size <= total
}

/// The two blocks' destination ranges share no position.
pub open spec fn ranges_disjoint(a: ModuleBlock, b: ModuleBlock) -> bool {
    ||| a.uncompressed_size == 0
    ||| b.uncompressed_size == 0
    ||| a.uncompressed_offset + a.uncompressed_size <= b.uncompressed_offset
    ||| b.uncompressed_offset + b.uncompressed_size <= a.uncompressed_offset
}

/// Position `k` lies in the block's destination range.
pub open spec fn in_dest(b: ModuleBlock, k: int) -> bool {
    b.uncompressed_offset <= k < b.uncompressed_offset + b.uncompressed_size
}

/// Position `k` lies in the destination range of some block of
/// `blocks[lo..hi]`.
pub open spec fn covered(blocks: Seq<ModuleBlock>, lo: int, hi: int, k: int) -> bool {
    exists|j: int| lo <= j < hi && in_dest(#[trigger] blocks[j], k)
}

/// The tag described by `loc` can be reconstructed: its size is nonzero and,
/// on the block path, its block slice lies in the table, every block reads
/// back and lands inside the buffer, and no two destinations overlap; on the
/// single-piece path, its bytes lie in the module, are marked compressed,
/// and inflate to the declared size.
pub open spec fn tag_wf(
    loc: TagLocation,
    blocks: Seq<ModuleBlock>,
    module_data_offset: int,
    data: Seq<u8>,
) -> bool {
    let base = module_data_offset + loc.data_offset;
    &&& loc.total_uncompressed_size > 0
    &&& if loc.flags.spec_has_blocks() {
        let lo = loc.first_block_index as int;
        let hi = lo + loc.block_count;
        &&& 0 <= lo
        &&& hi <= blocks.len()
        &&& forall|j: int|
            lo <= j < hi ==> block_dest_ok(
                #[trigger] blocks[j],
                loc.total_uncompressed_size as int,
            )
        &&& forall|j: int| lo <= j < hi ==> block_readable(data, base, #[trigger] blocks[j])
        &&& forall|j: int, k: int|
            lo <= j < k < hi ==> ranges_disjoint(#[trigger] blocks[j], #[trigger] blocks[k])
    } else {
        &&& loc.flags.spec_compressed()
        &&& 0 <= base && base + loc.total_compressed_size <= data.len()
        &&& zlib_inflated(
            data.subrange(base, base + loc.total_compressed_size),
            loc.total_uncompressed_size as nat,
        ) is Some
    }
}

/// `out` is the tag's reconstructed buffer: exactly the declared size, each
/// block's payload at its declared destination, zero everywhere no block
/// writes — or, on the single-piece path, the inflated bytes themselves.
pub open spec fn tag_data_ok(
    loc: TagLocation,
    blocks: Seq<ModuleBlock>,
    module_data_offset: int,
    data: Seq<u8>,
    out: Seq<u8>,
) -> bool {
    let base = module_data_offset + loc.data_offset;
    &&& out.len() == loc.total_uncompressed_size
    &&& if loc.flags.spec_has_blocks() {
        let lo = loc.first_block_index as int;
        let hi = lo + loc.block_count;
        &&& forall|j: int|
            lo <= j < hi ==> out.subrange(
                (#[trigger] blocks[j]).uncompressed_offset as int,
                blocks[j].uncompressed_offset + blocks[j].uncompressed_size,
            ) == block_payload(data, base, blocks[j])
        &&& forall|k: int| 0 <= k < out.len() && !covered(blocks, lo, hi, k) ==> out[k] == 0
    } else {
        out == zlib_inflated(
            data.subrange(base, base + loc.total_compressed_size),
            loc.total_uncompressed_size as nat,
        )->Some_0
    }
}

/// A buffer of `n` zero bytes.
fn zero_bytes(n: usize) -> (r: Vec<u8>)
    ensures
        r@.len() == n,
        forall|i: int| 0 <= i < n ==> r@[i] == 0,
{
    let mut out: Vec<u8> = Vec::new();
    let mut k: usize = 0;
    while k < n
        invariant
            k <= n,
            out@.len() == k,
            forall|i: int| 0 <= i < k ==> out@[i] == 0,
        decreases n - k,
    {
        out.push(0);
        k = k + 1;
    }
    out
}

/// A mask of `n` entries, all unset.
fn unset_marks(n: usize) -> (r: Vec<bool>)
    ensures
        r@.len() == n,
        forall|i: int| 0 <= i < n ==> !r@[i],
    {
    let mut out: Vec<bool> = Vec::new();
    let mut k: usize = 0;
    while k < n
        invariant
            k <= n,
            out@.len() == k,
            forall|i: int| 0 <= i < k ==> !out@[i],
        decreases n - k,
    {
        out.push(false);
        k = k + 1;
    }
    out
}

/// Reassembles one tag's bytes from the module: either from its slice of the
/// shared block table, each block checked against the buffer and inflated or
/// copied, or as a single compressed piece. Succeeds exactly on well-formed
/// tags.
#[verifier::loop_isolation(false)]
fn reconstruct_tag(
    e: &ModuleFileEntry,
    blocks: &Vec<ModuleBlock>,
    module_data_offset: u64,
    reader: &mut ByteReader,
) -> (r: Result<Vec<u8>, ModuleError>)
    ensures
        final(reader).data@ == old(reader).data@,
        r is Ok <==> tag_wf(e.location(), blocks@, module_data_offset as int, old(reader).data@),
        r is Ok ==> tag_data_ok(
            e.location(),
            blocks@,
            module_data_offset as int,
            old(reader).data@,
            r->Ok_0@,
        ),
        e.total_uncompressed_size == 0 <==> r == Err::<Vec<u8>, ModuleError>(ModuleError::EmptyTag),
        e.total_uncompressed_size == 0 ==> *final(reader) == *old(reader),
        e.total_uncompressed_size != 0 && !e.flags.spec_has_blocks() && module_data_offset
            + e.data_offset + e.total_compressed_size <= old(reader).data@.len()
            && !e.flags.spec_compressed() ==> r == Err::<Vec<u8>, ModuleError>(
            ModuleError::NonCompressedSingleTag,
        ),
{
    let ghost data = reader.data@;
    let ghost loc = e.location();
    let ghost mdo = module_data_offset as int;
    if e.total_uncompressed_size == 0 {
        return Err(ModuleError::EmptyTag);
    }
    let tus = e.total_uncompressed_size;
    if e.flags.has_blocks() {
        if e.first_block_index < 0 {
            return Err(ModuleError::BlockRangeOutOfBounds);
        }
        let lo: usize = e.first_block_index as usize;
        if e.block_count as u64 > (blocks.len() as u64) || lo as u64 > blocks.len() as u64 - (
        e.block_count as u64) {
            return Err(ModuleError::BlockRangeOutOfBounds);
        }
        let hi: usize = lo + e.block_count as usize;
        let mut out = zero_bytes(tus as usize);
        let mut claimed = unset_marks(tus as usize);
        let ghost base = mdo + loc.data_offset;
        let mut j: usize = lo;
        while j < hi
            invariant
                reader.data@ == data,
                lo <= j <= hi,
                hi <= blocks@.len(),
                lo == loc.first_block_index as int,
                hi == loc.first_block_index + loc.block_count,
                tus == loc.total_uncompressed_size,
                tus > 0,
                base == mdo + loc.data_offset,
                out@.len() == tus,
                claimed@.len() == tus,
                forall|m: int| 0 <= m < tus ==> (claimed@[m] <==> covered(blocks@, lo as int, j as int, m)),
                forall|m: int| 0 <= m < tus && !claimed@[m] ==> out@[m] == 0,
                forall|i: int|
                    lo <= i < j ==> block_dest_ok(#[trigger] blocks@[i], tus as int)
                        && block_readable(data, base, blocks@[i]),
                forall|i: int|
                    lo <= i < j ==> out@.subrange(
                        (#[trigger] blocks@[i]).uncompressed_offset as int,
                        blocks@[i].uncompressed_offset + blocks@[i].uncompressed_size,
                    ) == block_payload(data, base, blocks@[i]),
                forall|i: int, i2: int|
                    lo <= i < i2 < j ==> ranges_disjoint(
                        #[trigger] blocks@[i],
                        #[trigger] blocks@[i2],
                    ),
            decreases hi - j,
        {
            let b = blocks[j];
            if b.uncompressed_offset as u64 + (b.uncompressed_size as u64) > tus as u64 {
                assert(!block_dest_ok(blocks@[j as int], tus as int));
                return Err(ModuleError::BlockRangeOutOfBounds);
            }
            let uo = b.uncompressed_offset as usize;
            let us = b.uncompressed_size as usize;
            // Reject a destination that an earlier block already wrote: the
            // two ranges would overlap.
            let mut k: usize = 0;
            while k < us
                invariant
                    claimed@.len() == tus,
                    uo + us <= tus,
                    k <= us,
                    forall|m: int| uo <= m < uo + k ==> !claimed@[m],
                decreases us - k,
            {
                if claimed[uo + k] {
                    proof {
                        let m = uo + k as int;
                        assert(covered(blocks@, lo as int, j as int, m));
                        let i = choose|i: int|
                            lo <= i < j && in_dest(#[trigger] blocks@[i], m);
                        assert(in_dest(blocks@[j as int], m));
                        assert(!ranges_disjoint(blocks@[i], blocks@[j as int]));
                    }
                    return Err(ModuleError::OverlappingBlocks);
                }
                k = k + 1;
            }
            // Locate and read the block's stored bytes.
            let dlen = reader.data.len();
            if e.data_offset > u64::MAX - module_data_offset {
                assert(!block_readable(data, base, blocks@[j as int]));
                return Err(ModuleError::UnexpectedEof);
            }
            let file_base = module_data_offset + e.data_offset;
            if b.compressed_offset as u64 > u64::MAX - file_base {
                assert(!block_readable(data, base, blocks@[j as int]));
                return Err(ModuleError::UnexpectedEof);
            }
            let off = file_base + b.compressed_offset as u64;
            if off > reader.data.len() as u64 {
                assert(!block_readable(data, base, blocks@[j as int]));
                return Err(ModuleError::UnexpectedEof);
            }
            reader.seek_to(off);
            let src = match reader.read_bytes(b.compressed_size as usize) {
                Ok(v) => v,
                Err(_) => {
                    assert(!block_readable(data, base, blocks@[j as int]));
                    return Err(ModuleError::UnexpectedEof);
                },
            };
            assert(src@ == block_src(data, base, blocks@[j as int]));
            // Inflate or copy the block to its declared size.
            let payload = if b.compressed {
                match zlib_inflate_prefix(&src, us) {
                    Some(p) => p,
                    None => {
                        assert(!block_readable(data, base, blocks@[j as int]));
                        return Err(ModuleError::DecompressionFailed);
                    },
                }
            } else {
                if src.len() != us {
                    assert(!block_readable(data, base, blocks@[j as int]));
                    return Err(ModuleError::RawBlockSizeMismatch);
                }
                src
            };
            assert(payload@ == block_payload(data, base, blocks@[j as int]));
            assert(payload@.len() == us);
            // Write the payload at its destination and mark the range taken.
            let ghost out0 = out@;
            let ghost cl0 = claimed@;
            let mut k: usize = 0;
            while k < us
                invariant
                    out@.len() == tus,
                    claimed@.len() == tus,
                    uo + us <= tus,
                    k <= us,
                    payload@.len() == us,
                    out0.len() == tus,
                    cl0.len() == tus,
                    forall|m: int|
                        0 <= m < tus && !(uo <= m < uo + k) ==> out@[m] == out0[m] && claimed@[m]
                            == cl0[m],
                    forall|m: int| uo <= m < uo + k ==> out@[m] == payload@[m - uo] && claimed@[m],
                decreases us - k,
            {
                out[uo + k] = payload[k];
                claimed[uo + k] = true;
                k = k + 1;
            }
            proof {
                let jj = j as int;
                let bj = blocks@[jj];
                // The new mask marks exactly what blocks lo..j+1 cover.
                assert forall|m: int| 0 <= m < tus implies (claimed@[m] <==> covered(
                    blocks@,
                    lo as int,
                    jj + 1,
                    m,
                )) by {
                    if claimed@[m] {
                        if uo <= m < uo + us {
                            assert(in_dest(blocks@[jj], m));
                            assert(lo <= jj < jj + 1 && in_dest(blocks@[jj], m));
                        } else {
                            assert(cl0[m]);
                            assert(covered(blocks@, lo as int, jj as int, m));
                            let i = choose|i: int|
                                lo as int <= i < jj && in_dest(#[trigger] blocks@[i], m);
                            assert(lo <= i < jj + 1 && in_dest(blocks@[i], m));
                        }
                        assert(covered(blocks@, lo as int, jj + 1, m));
                    } else {
                        assert(!(uo <= m < uo + us));
                        assert(!cl0[m]);
                        assert(!covered(blocks@, lo as int, jj as int, m));
                        if covered(blocks@, lo as int, jj + 1, m) {
                            let i = choose|i: int|
                                lo as int <= i < jj + 1 && in_dest(#[trigger] blocks@[i], m);
                            if i < jj {
                                assert(lo <= i < jj && in_dest(blocks@[i], m));
                                assert(covered(blocks@, lo as int, jj as int, m));
                            } else {
                                assert(in_dest(blocks@[jj], m));
                            }
                            assert(false);
                        }
                    }
                }
                // Unmarked positions kept their zero: the write stayed inside
                // its marked range.
                assert forall|m: int| 0 <= m < tus && !claimed@[m] implies out@[m] == 0 by {
                    assert(!(uo <= m < uo + us));
                    assert(!cl0[m]);
                    assert(out@[m] == out0[m]);
                }
                // Block j does not overlap any earlier block: its whole range
                // was unmarked.
                assert forall|i: int| lo <= i < jj implies ranges_disjoint(
                    blocks@[i],
                    blocks@[jj],
                ) by {
                    let bi = blocks@[i];
                    if !ranges_disjoint(bi, bj) {
                        let m = if bi.uncompressed_offset >= bj.uncompressed_offset {
                            bi.uncompressed_offset as int
                        } else {
                            bj.uncompressed_offset as int
                        };
                        assert(in_dest(bi, m) && in_dest(bj, m));
                        assert(covered(blocks@, lo as int, jj, m));
                        assert(cl0[m]);
                    }
                }
                // Earlier payloads are untouched: their ranges were marked,
                // the written range was not.
                assert forall|i: int| lo <= i < jj implies out@.subrange(
                    (#[trigger] blocks@[i]).uncompressed_offset as int,
                    blocks@[i].uncompressed_offset + blocks@[i].uncompressed_size,
                ) == block_payload(data, base, blocks@[i]) by {
                    let bi = blocks@[i];
                    let s0 = out0.subrange(
                        bi.uncompressed_offset as int,
                        bi.uncompressed_offset + bi.uncompressed_size,
                    );
                    let s1 = out@.subrange(
                        bi.uncompressed_offset as int,
                        bi.uncompressed_offset + bi.uncompressed_size,
                    );
                    assert forall|q: int| 0 <= q < s1.len() implies s1[q] == s0[q] by {
                        let m = bi.uncompressed_offset + q;
                        assert(in_dest(bi, m));
                        assert(covered(blocks@, lo as int, jj, m));
                        assert(cl0[m]);
                        assert(!(uo <= m < uo + us));
                    }
                    assert(s1 =~= s0);
                }
                // Block j's own payload now sits at its destination.
                assert(out@.subrange(uo as int, uo + us) =~= payload@);
            }
            j = j + 1;
        }
        proof {
            assert(tag_wf(loc, blocks@, mdo, data));
            assert(tag_data_ok(loc, blocks@, mdo, data, out@));
        }
        Ok(out)
    } else {
        let dlen = reader.data.len();
        if e.data_offset > u64::MAX - module_data_offset {
            assert(mdo + loc.data_offset > dlen);
            return Err(ModuleError::UnexpectedEof);
        }
        let off = module_data_offset + e.data_offset;
        if off > dlen as u64 {
            return Err(ModuleError::UnexpectedEof);
        }
        reader.seek_to(off);
        let src = match reader.read_bytes(e.total_compressed_size as usize) {
            Ok(v) => v,
            Err(_) => {
                return Err(ModuleError::UnexpectedEof);
            },
        };
        if e.flags.compressed() {
            match zlib_inflate_prefix(&src, tus as usize) {
                Some(d) => Ok(d),
                None => Err(ModuleError::DecompressionFailed),
            }
        } else {
            Err(ModuleError::NonCompressedSingleTag)
        }
    }
}

/// Every field of `a` equals the same field of `b`, the reconstructed data
/// excepted.
pub open spec fn entry_same_but_data(a: ModuleFileEntry, b: ModuleFileEntry) -> bool {
    &&& a.name_offset == b.name_offset
    &&& a.parent_file_index == b.parent_file_index
    &&& a.resource_count == b.resource_count
    &&& a.first_resource_index == b.first_resource_index
    &&& a.block_count == b.block_count
    &&& a.first_block_index == b.first_block_index
    &&& a.data_offset == b.data_offset
    &&& a.total_compressed_size == b.total_compressed_size
    &&& a.total_uncompressed_size == b.total_uncompressed_size
    &&& a.header_alignment == b.header_alignment
    &&& a.tag_alignment == b.tag_alignment
    &&& a.resource_alignment == b.resource_alignment
    &&& a.flags == b.flags
    &&& a.global_tag_id == b.global_tag_id
    &&& a.asset_id == b.asset_id
    &&& a.asset_checksum == b.asset_checksum
    &&& a.group_tag == b.group_tag
    &&& a.uncompressed_header_size == b.uncompressed_header_size
    &&& a.uncompressed_tag_size == b.uncompressed_tag_size
    &&& a.uncompressed_resource_size == b.uncompressed_resource_size
    &&& a.header_block_count == b.header_block_count
    &&& a.tag_block_count == b.tag_block_count
    &&& a.resource_block_count == b.resource_block_count
    &&& a.padding == b.padding
    &&& a.name == b.name
}

/// The module version stored at `p`.
pub open spec fn sp_version(data: Seq<u8>, p: int) -> u32 {
    le_u32(data, p + 4)
}

/// Whether the module at `p` uses the newer format variant.
pub open spec fn sp_is_forge(data: Seq<u8>, p: int) -> bool {
    sp_version(data, p) == FORGE_VERSION
}

/// The number of file entries stored at `p`.
pub open spec fn sp_item_count(data: Seq<u8>, p: int) -> u32 {
    le_u32(data, p + 16)
}

/// The number of resource indices stored at `p`.
pub open spec fn sp_resource_count(data: Seq<u8>, p: int) -> u32 {
    le_u32(data, p + 32)
}

/// The number of shared blocks stored at `p`.
pub open spec fn sp_block_count(data: Seq<u8>, p: int) -> u32 {
    le_u32(data, p + 36)
}

/// Where the file-entry table begins: right after the header.
pub open spec fn entries_start(data: Seq<u8>, p: int) -> int {
    p + header_len(sp_version(data, p))
}

/// Where entry `i`'s record begins.
pub open spec fn entry_pos(data: Seq<u8>, p: int, i: int) -> int {
    entries_start(data, p) + entry_len() * i
}

/// Where the name table begins: right after the last entry record.
pub open spec fn names_base(data: Seq<u8>, p: int) -> int {
    entries_start(data, p) + entry_len() * sp_item_count(data, p)
}

/// Where entry `i`'s name begins: the name table plus its stored offset.
pub open spec fn name_start(data: Seq<u8>, p: int, i: int) -> int {
    names_base(data, p) + le_u32(data, entry_pos(data, p, i))
}

/// The cursor position after reading entry `i`'s name.
pub open spec fn after_name_pos(data: Seq<u8>, p: int, i: int) -> int {
    let s = name_start(data, p, i);
    if s >= data.len() {
        data.len() as int
    } else {
        cstr_after(data, s)
    }
}

/// The cursor position after the whole name-resolution pass: just past the
/// last entry's name, or still at the table base when there is no entry.
pub open spec fn after_names(data: Seq<u8>, p: int) -> int {
    if sp_item_count(data, p) == 0 {
        names_base(data, p)
    } else {
        after_name_pos(data, p, sp_item_count(data, p) - 1)
    }
}

/// Where the resource-index table begins.
pub open spec fn res_start(data: Seq<u8>, p: int) -> int {
    after_names(data, p)
}

/// Where the block table begins.
pub open spec fn blocks_start(data: Seq<u8>, p: int) -> int {
    res_start(data, p) + 4 * sp_resource_count(data, p)
}

/// Where the data region begins: right after the block table; the base of
/// every file and block offset.
pub open spec fn data_region_start(data: Seq<u8>, p: int) -> int {
    blocks_start(data, p) + block_len(sp_is_forge(data, p)) * sp_block_count(data, p)
}

/// Block `j` as decoded from the table at `p`.
pub open spec fn sp_block(data: Seq<u8>, p: int, j: int) -> ModuleBlock {
    let q = blocks_start(data, p) + block_len(sp_is_forge(data, p)) * j;
    if sp_is_forge(data, p) {
        ModuleBlock {
            checksum: Some(le_u64(data, q)),
            compressed_offset: le_u32(data, q + 8),
            compressed_size: le_u32(data, q + 12),
            uncompressed_offset: le_u32(data, q + 16),
            uncompressed_size: le_u32(data, q + 20),
            compressed: le_u32(data, q + 24) != 0,
            padding: Some(le_i32(data, q + 28)),
        }
    } else {
        ModuleBlock {
            checksum: None,
            compressed_offset: le_u32(data, q),
            compressed_size: le_u32(data, q + 4),
            uncompressed_offset: le_u32(data, q + 8),
            uncompressed_size: le_u32(data, q + 12),
            compressed: le_u32(data, q + 16) != 0,
            padding: None,
        }
    }
}

/// The whole block table as decoded from the bytes at `p`.
pub open spec fn sp_blocks(data: Seq<u8>, p: int) -> Seq<ModuleBlock> {
    Seq::new(sp_block_count(data, p) as nat, |j: int| sp_block(data, p, j))
}

/// Entry `i`'s data-locating fields as decoded from the bytes at `p`.
pub open spec fn sp_location(data: Seq<u8>, p: int, i: int) -> TagLocation {
    let ep = entry_pos(data, p, i);
    TagLocation {
        block_count: le_u32(data, ep + 16),
        first_block_index: le_i32(data, ep + 20),
        data_offset: le_u64(data, ep + 24),
        total_compressed_size: le_u32(data, ep + 32),
        total_uncompressed_size: le_u32(data, ep + 36),
        flags: FileFlags { bits: data[ep + 43] & 7 },
    }
}

/// The bytes at `p` hold a module that parses completely: a well-formed
/// header, room for every table, a valid UTF-8 name for every entry, and a
/// reconstructible tag for every entry.
pub open spec fn module_wf(data: Seq<u8>, p: int) -> bool {
    &&& header_wf(data, p)
    &&& names_base(data, p) <= data.len()
    &&& forall|i: int|
        0 <= i < sp_item_count(data, p) ==> utf8_decoded(
            cstr_bytes(data, #[trigger] name_start(data, p, i)),
        ) is Some
    &&& blocks_start(data, p) <= data.len()
    &&& data_region_start(data, p) <= data.len()
    &&& forall|i: int|
        0 <= i < sp_item_count(data, p) ==> tag_wf(
            #[trigger] sp_location(data, p, i),
            sp_blocks(data, p),
            data_region_start(data, p),
            data,
        )
}

/// The fully decoded module `m` is exactly what the bytes at `p` describe,
/// every reconstructed buffer included.
pub open spec fn module_matches(m: H5Module, data: Seq<u8>, p: int) -> bool {
    &&& header_matches(m.header, data, p)
    &&& m.files@.len() == sp_item_count(data, p)
    &&& forall|i: int|
        0 <= i < m.files@.len() ==> entry_matches(
            #[trigger] m.files@[i],
            data,
            entry_pos(data, p, i),
        )
    &&& forall|i: int|
        0 <= i < m.files@.len() ==> utf8_decoded(cstr_bytes(data, name_start(data, p, i))) == Some(
            (#[trigger] m.files@[i]).name@,
        )
    &&& m.resource_indices@.len() == sp_resource_count(data, p)
    &&& forall|i: int|
        0 <= i < m.resource_indices@.len() ==> #[trigger] m.resource_indices@[i] == le_i32(
            data,
            res_start(data, p) + 4 * i,
        )
    &&& m.blocks@ == sp_blocks(data, p)
    &&& m.data_offset == data_region_start(data, p)
    &&& forall|i: int|
        0 <= i < m.files@.len() ==> tag_data_ok(
            (#[trigger] m.files@[i]).location(),
            m.blocks@,
            m.data_offset as int,
            data,
            m.files@[i].data@,
        )
}

/// A fully decoded module: header, file entries (with names and
/// reconstructed data), resource indices, the shared block table, and the
/// data region's base position.
#[derive(Debug, PartialEq, Eq)]
pub struct H5Module {
    pub header: ModuleHeader,
    pub files: Vec<ModuleFileEntry>,
    pub resource_indices: Vec<i32>,
    pub blocks: Vec<ModuleBlock>,
    pub data_offset: u64,
}

impl Default for H5Module {
    fn default() -> (r: H5Module)
        ensures
            r.files@.len() == 0,
            r.resource_indices@.len() == 0,
            r.blocks@.len() == 0,
            r.data_offset == 0,
            r.header.version == 0,
    {
        H5Module {
            header: Default::default(),
            files: Vec::new(),
            resource_indices: Vec::new(),
            blocks: Vec::new(),
            data_offset: 0,
        }
    }
}

impl H5Module {
    /// Reconstructs the bytes of the tag at `index` from the module's data
    /// region and stores them on that file entry. Succeeds exactly on
    /// well-formed tags; an entry of size zero fails before any read.
    pub fn read_tag(&mut self, index: u32, reader: &mut ByteReader) -> (r: Result<
        (),
        ModuleError,
    >)
        requires
            index < old(self).files@.len(),
        ensures
            final(reader).data@ == old(reader).data@,
            r is Ok <==> tag_wf(
                old(self).files@[index as int].location(),
                old(self).blocks@,
                old(self).data_offset as int,
                old(reader).data@,
            ),
            r is Ok ==> tag_data_ok(
                old(self).files@[index as int].location(),
                old(self).blocks@,
                old(self).data_offset as int,
                old(reader).data@,
                final(self).files@[index as int].data@,
            ),
            r is Ok ==> final(self).header == old(self).header,
            r is Ok ==> final(self).resource_indices == old(self).resource_indices,
            r is Ok ==> final(self).blocks == old(self).blocks,
            r is Ok ==> final(self).data_offset == old(self).data_offset,
            r is Ok ==> final(self).files@.len() == old(self).files@.len() && entry_same_but_data(
                final(self).files@[index as int],
                old(self).files@[index as int],
            ),
            r is Ok ==> forall|i: int|
                0 <= i < old(self).files@.len() && i != index ==> final(self).files@[i]
                    == old(self).files@[i],
            r is Err ==> *final(self) == *old(self),
            old(self).files@[index as int].total_uncompressed_size == 0 <==> r == Err::<
                (),
                ModuleError,
            >(ModuleError::EmptyTag),
            old(self).files@[index as int].total_uncompressed_size == 0 ==> *final(reader)
                == *old(reader),
            (old(self).files@[index as int].total_uncompressed_size != 0
                && !old(self).files@[index as int].flags.spec_has_blocks() && old(self).data_offset
                + old(self).files@[index as int].data_offset
                + old(self).files@[index as int].total_compressed_size <= old(reader).data@.len()
                && !old(self).files@[index as int].flags.spec_compressed()) ==> r == Err::<
                (),
                ModuleError,
            >(ModuleError::NonCompressedSingleTag),
    {
        let idx = index as usize;
        let d = match reconstruct_tag(&self.files[idx], &self.blocks, self.data_offset, reader) {
            Ok(d) => d,
            Err(e) => {
                return Err(e);
            },
        };
        self.files[idx].data = d;
        Ok(())
    }

    /// Decodes a whole module from the reader's position: header, file
    /// entries, names, resource indices, block table, and every tag's
    /// reconstructed bytes, in the format's fixed phase order. Succeeds
    /// exactly on well-formed modules; `self` is overwritten only on success.
    pub fn read(&mut self, reader: &mut ByteReader) -> (r: Result<(), ModuleError>)
        ensures
            final(reader).data@ == old(reader).data@,
            r is Ok <==> module_wf(old(reader).data@, old(reader).pos as int),
            r is Ok ==> module_matches(*final(self), old(reader).data@, old(reader).pos as int),
            r is Err ==> *final(self) == *old(self),
            old(reader).pos + 4 <= old(reader).data@.len() && old(reader).data@.subrange(
                old(reader).pos as int,
                old(reader).pos + 4,
            ) != magic_bytes() ==> r is Err && r->Err_0 is InvalidModuleMagic
                && r->Err_0->InvalidModuleMagic_0@ == utf8_lossy(
                trim_trailing_zeros(
                    old(reader).data@.subrange(old(reader).pos as int, old(reader).pos + 4),
                ),
            ),
            (old(reader).data@.subrange(old(reader).pos as int, old(reader).pos + 4)
                == magic_bytes() && old(reader).pos + 8 <= old(reader).data@.len() && le_u32(
                old(reader).data@,
                old(reader).pos + 4,
            ) != FORGE_VERSION && le_u32(old(reader).data@, old(reader).pos + 4) != OLDER_VERSION)
                ==> r == Err::<(), ModuleError>(
                ModuleError::InvalidModuleVersion(le_u32(old(reader).data@, old(reader).pos + 4)),
            ),
    {
        let ghost p0 = reader.pos as int;
        let ghost data = reader.data@;
        let mut header: ModuleHeader = Default::default();
        match header.read(reader) {
            Ok(()) => {},
            Err(e) => {
                return Err(e);
            },
        }
        let mut files = match parse_entries(header.item_count, reader, Ghost(p0)) {
            Ok(f) => f,
            Err(e) => {
                return Err(e);
            },
        };
        match resolve_names(&mut files, reader, Ghost(p0)) {
            Ok(()) => {},
            Err(e) => {
                return Err(e);
            },
        }
        let resource_indices = match parse_resources(header.resource_count, reader, Ghost(p0)) {
            Ok(v) => v,
            Err(e) => {
                return Err(e);
            },
        };
        let blocks = match parse_blocks(
            header.block_count,
            header.version == FORGE_VERSION,
            reader,
            Ghost(p0),
        ) {
            Ok(v) => v,
            Err(e) => {
                return Err(e);
            },
        };
        // The data region starts here; every tag offset is relative to it.
        let data_offset = reader.stream_position() as u64;
        match reconstruct_all(&mut files, &blocks, data_offset, reader, Ghost(p0)) {
            Ok(()) => {},
            Err(e) => {
                return Err(e);
            },
        }
        proof {
            assert(module_wf(data, p0));
        }
        self.header = header;
        self.files = files;
        self.resource_indices = resource_indices;
        self.blocks = blocks;
        self.data_offset = data_offset;
        Ok(())
    }
}

/// Decodes the file-entry table that begins at the reader's position.
#[verifier::loop_isolation(false)]
fn parse_entries(item_count: u32, reader: &mut ByteReader, Ghost(p0): Ghost<int>) -> (r: Result<
    Vec<ModuleFileEntry>,
    ModuleError,
>)
    requires
        header_wf(old(reader).data@, p0),
        item_count == sp_item_count(old(reader).data@, p0),
        old(reader).pos == entries_start(old(reader).data@, p0),
    ensures
        final(reader).data@ == old(reader).data@,
        r is Ok <==> names_base(old(reader).data@, p0) <= old(reader).data@.len(),
        r is Ok ==> r->Ok_0@.len() == item_count && final(reader).pos == names_base(
            old(reader).data@,
            p0,
        ),
        r is Ok ==> forall|k: int|
            0 <= k < item_count ==> entry_matches(
                #[trigger] r->Ok_0@[k],
                old(reader).data@,
                entry_pos(old(reader).data@, p0, k),
            ),
        r is Err ==> r->Err_0 == ModuleError::UnexpectedEof,
{
    let ghost data = reader.data@;
    let ghost es = entries_start(data, p0);
    let mut files: Vec<ModuleFileEntry> = Vec::new();
    let mut i: u32 = 0;
    while i < item_count
        invariant
            reader.data@ == data,
            i <= item_count,
            files@.len() == i,
            reader.pos == es + entry_len() * i,
            reader.pos <= data.len(),
            forall|k: int|
                0 <= k < i ==> entry_matches(#[trigger] files@[k], data, entry_pos(data, p0, k)),
        decreases item_count - i,
    {
        let mut e: ModuleFileEntry = Default::default();
        match e.read(reader) {
            Ok(()) => {},
            Err(_) => {
                proof {
                    assert(es + entry_len() * (i + 1) <= es + entry_len() * item_count);
                    assert(names_base(data, p0) > data.len());
                }
                return Err(ModuleError::UnexpectedEof);
            },
        }
        files.push(e);
        i = i + 1;
    }
    Ok(files)
}

/// Resolves every entry's display name with an independent seek into the
/// name table that begins at the reader's position.
#[verifier::loop_isolation(false)]
fn resolve_names(
    files: &mut Vec<ModuleFileEntry>,
    reader: &mut ByteReader,
    Ghost(p0): Ghost<int>,
) -> (r: Result<(), ModuleError>)
    requires
        old(files)@.len() == sp_item_count(old(reader).data@, p0),
        forall|k: int|
            0 <= k < old(files)@.len() ==> entry_matches(
                #[trigger] old(files)@[k],
                old(reader).data@,
                entry_pos(old(reader).data@, p0, k),
            ),
        old(reader).pos == names_base(old(reader).data@, p0),
        old(reader).pos <= old(reader).data@.len(),
    ensures
        final(reader).data@ == old(reader).data@,
        final(files)@.len() == old(files)@.len(),
        forall|k: int|
            0 <= k < final(files)@.len() ==> entry_matches(
                #[trigger] final(files)@[k],
                old(reader).data@,
                entry_pos(old(reader).data@, p0, k),
            ),
        r is Ok <==> (forall|i: int|
            0 <= i < old(files)@.len() ==> utf8_decoded(
                cstr_bytes(old(reader).data@, #[trigger] name_start(old(reader).data@, p0, i)),
            ) is Some),
        r is Ok ==> final(reader).pos == after_names(old(reader).data@, p0),
        r is Ok ==> forall|k: int|
            0 <= k < final(files)@.len() ==> utf8_decoded(
                cstr_bytes(old(reader).data@, name_start(old(reader).data@, p0, k)),
            ) == Some((#[trigger] final(files)@[k]).name@),
        r is Err ==> r->Err_0 == ModuleError::InvalidUtf8,
{
    let ghost data = reader.data@;
    let name_base = reader.stream_position();
    let mut i: usize = 0;
    while i < files.len()
        invariant
            reader.data@ == data,
            i <= files@.len(),
            files@.len() == old(files)@.len(),
            reader.pos as int == if i == 0 {
                names_base(data, p0)
            } else {
                after_name_pos(data, p0, i - 1)
            },
            forall|k: int|
                0 <= k < files@.len() ==> entry_matches(
                    #[trigger] files@[k],
                    data,
                    entry_pos(data, p0, k),
                ),
            forall|k: int|
                0 <= k < i ==> utf8_decoded(cstr_bytes(data, name_start(data, p0, k))) == Some(
                    (#[trigger] files@[k]).name@,
                ),
        decreases files@.len() - i,
    {
        proof {
            assert(name_base + files@[i as int].name_offset == name_start(data, p0, i as int));
        }
        let ghost pre = files@;
        match files[i].read_name(reader, name_base as u64) {
            Ok(()) => {},
            Err(_) => {
                proof {
                    assert(utf8_decoded(cstr_bytes(data, name_start(data, p0, i as int)))
                        is None);
                }
                return Err(ModuleError::InvalidUtf8);
            },
        }
        proof {
            assert forall|k: int| 0 <= k < pre.len() && k != i implies entry_matches(
                #[trigger] files@[k],
                data,
                entry_pos(data, p0, k),
            ) by {
                assert(files@[k] == pre[k]);
            }
        }
        i = i + 1;
    }
    proof {
        assert forall|ii: int| 0 <= ii < files@.len() implies utf8_decoded(
            cstr_bytes(data, #[trigger] name_start(data, p0, ii)),
        ) is Some by {
            assert(utf8_decoded(cstr_bytes(data, name_start(data, p0, ii))) == Some(
                files@[ii].name@,
            ));
        }
    }
    Ok(())
}

/// Decodes the resource-index table that begins at the reader's position.
#[verifier::loop_isolation(false)]
fn parse_resources(resource_count: u32, reader: &mut ByteReader, Ghost(p0): Ghost<int>) -> (r:
    Result<Vec<i32>, ModuleError>)
    requires
        resource_count == sp_resource_count(old(reader).data@, p0),
        old(reader).pos == res_start(old(reader).data@, p0),
        old(reader).pos <= old(reader).data@.len(),
    ensures
        final(reader).data@ == old(reader).data@,
        r is Ok <==> blocks_start(old(reader).data@, p0) <= old(reader).data@.len(),
        r is Ok ==> r->Ok_0@.len() == resource_count && final(reader).pos == blocks_start(
            old(reader).data@,
            p0,
        ),
        r is Ok ==> forall|k: int|
            0 <= k < resource_count ==> #[trigger] r->Ok_0@[k] == le_i32(
                old(reader).data@,
                res_start(old(reader).data@, p0) + 4 * k,
            ),
        r is Err ==> r->Err_0 == ModuleError::UnexpectedEof,
{
    let ghost data = reader.data@;
    let mut resource_indices: Vec<i32> = Vec::new();
    let mut i: u32 = 0;
    while i < resource_count
        invariant
            reader.data@ == data,
            i <= resource_count,
            resource_indices@.len() == i,
            reader.pos == res_start(data, p0) + 4 * i,
            reader.pos <= data.len(),
            forall|k: int|
                0 <= k < i ==> #[trigger] resource_indices@[k] == le_i32(
                    data,
                    res_start(data, p0) + 4 * k,
                ),
        decreases resource_count - i,
    {
        let v = match reader.read_i32() {
            Ok(v) => v,
            Err(_) => {
                proof {
                    assert(res_start(data, p0) + 4 * (i + 1) <= res_start(data, p0) + 4
                        * resource_count);
                    assert(blocks_start(data, p0) > data.len());
                }
                return Err(ModuleError::UnexpectedEof);
            },
        };
        resource_indices.push(v);
        i = i + 1;
    }
    Ok(resource_indices)
}

/// Decodes the shared block table that begins at the reader's position, in
/// the variant the header's version selected.
#[verifier::loop_isolation(false)]
fn parse_blocks(
    block_count: u32,
    is_forge: bool,
    reader: &mut ByteReader,
    Ghost(p0): Ghost<int>,
) -> (r: Result<Vec<ModuleBlock>, ModuleError>)
    requires
        block_count == sp_block_count(old(reader).data@, p0),
        is_forge == sp_is_forge(old(reader).data@, p0),
        old(reader).pos == blocks_start(old(reader).data@, p0),
        old(reader).pos <= old(reader).data@.len(),
    ensures
        final(reader).data@ == old(reader).data@,
        r is Ok <==> data_region_start(old(reader).data@, p0) <= old(reader).data@.len(),
        r is Ok ==> r->Ok_0@ == sp_blocks(old(reader).data@, p0) && final(reader).pos
            == data_region_start(old(reader).data@, p0),
        r is Err ==> r->Err_0 == ModuleError::UnexpectedEof,
{
    let ghost data = reader.data@;
    let mut blocks: Vec<ModuleBlock> = Vec::new();
    let mut i: u32 = 0;
    while i < block_count
        invariant
            reader.data@ == data,
            i <= block_count,
            blocks@.len() == i,
            reader.pos == blocks_start(data, p0) + block_len(is_forge) * i,
            reader.pos <= data.len(),
            forall|k: int| 0 <= k < i ==> #[trigger] blocks@[k] == sp_block(data, p0, k),
        decreases block_count - i,
    {
        let mut b: ModuleBlock = Default::default();
        match b.read(reader, is_forge) {
            Ok(()) => {},
            Err(_) => {
                proof {
                    let bl = block_len(is_forge);
                    assert(bl * (i + 1) <= bl * block_count) by (nonlinear_arith)
                        requires
                            bl > 0,
                            i + 1 <= block_count,
                    ;
                    assert(data_region_start(data, p0) > data.len());
                }
                return Err(ModuleError::UnexpectedEof);
            },
        }
        proof {
            let q = blocks_start(data, p0) + block_len(is_forge) * (i as int);
            assert(block_matches(b, data, q, is_forge));
            assert(b == sp_block(data, p0, i as int));
        }
        blocks.push(b);
        i = i + 1;
    }
    proof {
        assert(blocks@ =~= sp_blocks(data, p0));
    }
    Ok(blocks)
}

/// Reconstructs every entry's tag bytes and stores each on its entry.
#[verifier::loop_isolation(false)]
fn reconstruct_all(
    files: &mut Vec<ModuleFileEntry>,
    blocks: &Vec<ModuleBlock>,
    data_offset: u64,
    reader: &mut ByteReader,
    Ghost(p0): Ghost<int>,
) -> (r: Result<(), ModuleError>)
    requires
        old(files)@.len() == sp_item_count(old(reader).data@, p0),
        forall|k: int|
            0 <= k < old(files)@.len() ==> entry_matches(
                #[trigger] old(files)@[k],
                old(reader).data@,
                entry_pos(old(reader).data@, p0, k),
            ),
        blocks@ == sp_blocks(old(reader).data@, p0),
        data_offset == data_region_start(old(reader).data@, p0),
    ensures
        final(reader).data@ == old(reader).data@,
        final(files)@.len() == old(files)@.len(),
        forall|k: int|
            0 <= k < final(files)@.len() ==> entry_same_but_data(
                #[trigger] final(files)@[k],
                old(files)@[k],
            ),
        r is Ok <==> (forall|i: int|
            0 <= i < old(files)@.len() ==> tag_wf(
                #[trigger] sp_location(old(reader).data@, p0, i),
                sp_blocks(old(reader).data@, p0),
                data_region_start(old(reader).data@, p0),
                old(reader).data@,
            )),
        r is Ok ==> forall|k: int|
            0 <= k < final(files)@.len() ==> tag_data_ok(
                (#[trigger] final(files)@[k]).location(),
                blocks@,
                data_offset as int,
                old(reader).data@,
                final(files)@[k].data@,
            ),
{
    let ghost data = reader.data@;
    let mut i: usize = 0;
    while i < files.len()
        invariant
            reader.data@ == data,
            i <= files@.len(),
            files@.len() == old(files)@.len(),
            forall|k: int|
                0 <= k < files@.len() ==> entry_same_but_data(
                    #[trigger] files@[k],
                    old(files)@[k],
                ),
            forall|k: int|
                0 <= k < i ==> tag_data_ok(
                    (#[trigger] files@[k]).location(),
                    blocks@,
                    data_offset as int,
                    data,
                    files@[k].data@,
                ),
            forall|k: int|
                0 <= k < i ==> tag_wf(
                    #[trigger] sp_location(data, p0, k),
                    sp_blocks(data, p0),
                    data_region_start(data, p0),
                    data,
                ),
        decreases files@.len() - i,
    {
        proof {
            assert(entry_matches(old(files)@[i as int], data, entry_pos(data, p0, i as int)));
            assert(files@[i as int].location() == sp_location(data, p0, i as int));
        }
        let ghost pre = files@;
        let d = match reconstruct_tag(&files[i], &blocks, data_offset, reader) {
            Ok(d) => d,
            Err(err) => {
                proof {
                    assert(!tag_wf(
                        sp_location(data, p0, i as int),
                        sp_blocks(data, p0),
                        data_region_start(data, p0),
                        data,
                    ));
                }
                return Err(err);
            },
        };
        files[i].data = d;
        proof {
            assert forall|k: int| 0 <= k < pre.len() && k != i implies files@[k] == pre[k] by {}
            assert(entry_same_but_data(files@[i as int], pre[i as int]));
        }
        i = i + 1;
    }
    Ok(())
}


/// A decoded, well-formed header accepts only the two versions, and carries
/// its checksum field exactly in the newer one.
pub proof fn lemma_header_version_checksum(h: ModuleHeader, data: Seq<u8>, p: int)
    requires
        header_matches(h, data, p),
        header_wf(data, p),
    ensures
        h.version == FORGE_VERSION || h.version == OLDER_VERSION,
        h.checksum is Some <==> h.version == FORGE_VERSION,
{
}

/// The older format variant stores eight fewer header bytes (no checksum)
/// and twelve fewer bytes per block record (no checksum, no padding), and
/// its decoded blocks carry neither optional field.
pub proof fn lemma_older_variant_shorter(b: ModuleBlock, data: Seq<u8>, p: int)
    requires
        block_matches(b, data, p, false),
    ensures
        header_len(OLDER_VERSION) + 8 == header_len(FORGE_VERSION),
        block_len(false) + 12 == block_len(true),
        b.checksum is None,
        b.padding is None,
{
}

/// The reconstruction relation pins the buffer down: any two buffers that
/// satisfy it for one tag are equal, so the result does not depend on the
/// order in which the tag's blocks are processed.
pub proof fn lemma_tag_buffer_unique(
    loc: TagLocation,
    blocks: Seq<ModuleBlock>,
    module_data_offset: int,
    data: Seq<u8>,
    out1: Seq<u8>,
    out2: Seq<u8>,
)
    requires
        tag_wf(loc, blocks, module_data_offset, data),
        tag_data_ok(loc, blocks, module_data_offset, data, out1),
        tag_data_ok(loc, blocks, module_data_offset, data, out2),
    ensures
        out1 == out2,
{
    if loc.flags.spec_has_blocks() {
        let lo = loc.first_block_index as int;
        let hi = lo + loc.block_count;
        let base = module_data_offset + loc.data_offset;
        assert forall|k: int| 0 <= k < out1.len() implies out1[k] == out2[k] by {
            if covered(blocks, lo, hi, k) {
                let j = choose|j: int| lo <= j < hi && in_dest(#[trigger] blocks[j], k);
                let b = blocks[j];
                assert(block_dest_ok(b, loc.total_uncompressed_size as int));
                let uo = b.uncompressed_offset as int;
                let s1 = out1.subrange(uo, uo + b.uncompressed_size);
                let s2 = out2.subrange(uo, uo + b.uncompressed_size);
                assert(s1 == block_payload(data, base, b));
                assert(s2 == block_payload(data, base, b));
                assert(out1[k] == s1[k - uo]);
                assert(out2[k] == s2[k - uo]);
            }
        }
        assert(out1 =~= out2);
    }
}

/// Two file entries agree on every decoded field, the resolved name, and the
/// reconstructed bytes.
pub open spec fn entries_equiv(a: ModuleFileEntry, b: ModuleFileEntry) -> bool {
    &&& a.name_offset == b.name_offset
    &&& a.parent_file_index == b.parent_file_index
    &&& a.resource_count == b.resource_count
    &&& a.first_resource_index == b.first_resource_index
    &&& a.block_count == b.block_count
    &&& a.first_block_index == b.first_block_index
    &&& a.data_offset == b.data_offset
    &&& a.total_compressed_size == b.total_compressed_size
    &&& a.total_uncompressed_size == b.total_uncompressed_size
    &&& a.header_alignment == b.header_alignment
    &&& a.tag_alignment == b.tag_alignment
    &&& a.resource_alignment == b.resource_alignment
    &&& a.flags == b.flags
    &&& a.global_tag_id == b.global_tag_id
    &&& a.asset_id == b.asset_id
    &&& a.asset_checksum == b.asset_checksum
    &&& a.group_tag@ == b.group_tag@
    &&& a.uncompressed_header_size == b.uncompressed_header_size
    &&& a.uncompressed_tag_size == b.uncompressed_tag_size
    &&& a.uncompressed_resource_size == b.uncompressed_resource_size
    &&& a.header_block_count == b.header_block_count
    &&& a.tag_block_count == b.tag_block_count
    &&& a.resource_block_count == b.resource_block_count
    &&& a.padding == b.padding
    &&& a.name@ == b.name@
    &&& a.data@ == b.data@
}

/// Two decoded modules agree on everything observable: header fields, every
/// entry with its name and reconstructed bytes, resource indices, blocks,
/// and the data-region base.
pub open spec fn module_equiv(a: H5Module, b: H5Module) -> bool {
    &&& a.header.magic@ == b.header.magic@
    &&& a.header.version == b.header.version
    &&& a.header.module_id == b.header.module_id
    &&& a.header.item_count == b.header.item_count
    &&& a.header.manifest_count == b.header.manifest_count
    &&& a.header.resource_index == b.header.resource_index
    &&& a.header.strings_size == b.header.strings_size
    &&& a.header.resource_count == b.header.resource_count
    &&& a.header.block_count == b.header.block_count
    &&& a.header.build_version == b.header.build_version
    &&& a.header.checksum == b.header.checksum
    &&& a.files@.len() == b.files@.len()
    &&& forall|i: int| 0 <= i < a.files@.len() ==> entries_equiv(#[trigger] a.files@[i], b.files@[i])
    &&& a.resource_indices@ == b.resource_indices@
    &&& a.blocks@ == b.blocks@
    &&& a.data_offset == b.data_offset
}

/// Parsing is deterministic: two modules decoded from the same bytes are
/// structurally identical, reconstructed buffers included.
pub proof fn lemma_parse_deterministic(a: H5Module, b: H5Module, data: Seq<u8>, p: int)
    requires
        module_wf(data, p),
        module_matches(a, data, p),
        module_matches(b, data, p),
    ensures
        module_equiv(a, b),
{
    assert forall|i: int| 0 <= i < a.files@.len() implies entries_equiv(
        #[trigger] a.files@[i],
        b.files@[i],
    ) by {
        assert(entry_matches(a.files@[i], data, entry_pos(data, p, i)));
        assert(entry_matches(b.files@[i], data, entry_pos(data, p, i)));
        assert(utf8_decoded(cstr_bytes(data, name_start(data, p, i))) == Some(a.files@[i].name@));
        assert(utf8_decoded(cstr_bytes(data, name_start(data, p, i))) == Some(b.files@[i].name@));
        assert(a.files@[i].location() == b.files@[i].location());
        assert(a.files@[i].location() == sp_location(data, p, i));
        assert(tag_wf(sp_location(data, p, i), sp_blocks(data, p), data_region_start(data, p), data));
        lemma_tag_buffer_unique(
            a.files@[i].location(),
            a.blocks@,
            a.data_offset as int,
            data,
            a.files@[i].data@,
            b.files@[i].data@,
        );
    }
    assert(a.resource_indices@ =~= b.resource_indices@);
}

} // verus!
