//! Steam depot manifests (v5): the section framing of the binary format,
//! the manifest model built from its decoded protobuf sections, and
//! filename decryption.
//!
//! The binary format is a run of sections, each a little-endian magic and
//! length followed by that many bytes, closed by [`END_MAGIC`]. The payload
//! and metadata sections hold protobuf messages; [`ManifestPayload`] and
//! [`ManifestMetadata`] hold their decoded fields.

pub mod file_flags;

use vstd::prelude::*;
use vstd::slice::slice_to_vec;

use crate::crypto::{
    decrypt_symmetric_name, hex_encode, name_has_ciphertext, hex_text, name_ciphertext, symmetric_name, CryptoError,
};
use crate::kv::le_u32;
use crate::order::{in_key_order, key_views, lemma_in_key_order_distinct, sort_positions};
use crate::text::{lowercase, str_chars, text_is_empty, to_lowercase};
use crate::msgs::{copy_range, lemma_le_u32_at, push_all, push_u32_le, read_u32_le, u32_le};

verus! {

pub const PAYLOAD_MAGIC: u32 = 0x71F6_17D0;
pub const METADATA_MAGIC: u32 = 0x1F48_12BE;
pub const SIGNATURE_MAGIC: u32 = 0x1B81_B817;
pub const END_MAGIC: u32 = 0x32C4_15AB;

// ------------------------------------------------------------------
// The manifest model
// ------------------------------------------------------------------

/// What a [`ChunkData`] holds.
pub struct ChunkView {
    pub id: Seq<u8>,
    pub checksum: u32,
    pub offset: u64,
    pub compressed_len: u32,
    pub uncompressed_len: u32,
}

#[derive(Debug, Clone, PartialEq, Eq)]
pub struct ChunkData {
    /// 20-byte SHA-1 chunk id.
    pub id: Vec<u8>,
    /// Expected adler-32 of the uncompressed data.
    pub checksum: u32,
    pub offset: u64,
    pub compressed_len: u32,
    pub uncompressed_len: u32,
}

impl View for ChunkData {
    type V = ChunkView;

    open spec fn view(&self) -> ChunkView {
        ChunkView {
            id: self.id@,
            checksum: self.checksum,
            offset: self.offset,
            compressed_len: self.compressed_len,
            uncompressed_len: self.uncompressed_len,
        }
    }
}

impl ChunkData {
    /// The chunk id in lower-case hex, as used in CDN URLs.
    pub fn id_hex(&self) -> (r: String)
        ensures
            r@ == hex_text(self.id@, false),
    {
        hex_encode(self.id.as_slice())
    }
}

/// What a [`FileData`] holds.
pub struct FileView {
    pub name: Seq<char>,
    pub name_hash: Seq<u8>,
    pub chunks: Seq<ChunkView>,
    pub flags: u32,
    pub size: u64,
    pub hash: Seq<u8>,
    pub link_target: Option<Seq<char>>,
}

#[derive(Debug, Clone)]
pub struct FileData {
    pub name: String,
    pub name_hash: Vec<u8>,
    pub chunks: Vec<ChunkData>,
    pub flags: u32,
    pub size: u64,
    pub hash: Vec<u8>,
    pub link_target: Option<String>,
}

pub open spec fn text_view(o: Option<String>) -> Option<Seq<char>> {
    match o {
        Some(s) => Some(s@),
        None => None,
    }
}

pub open spec fn bytes_view(o: Option<Vec<u8>>) -> Option<Seq<u8>> {
    match o {
        Some(b) => Some(b@),
        None => None,
    }
}

impl View for FileData {
    type V = FileView;

    open spec fn view(&self) -> FileView {
        FileView {
            name: self.name@,
            name_hash: self.name_hash@,
            chunks: self.chunks@.map_values(|c: ChunkData| c@),
            flags: self.flags,
            size: self.size,
            hash: self.hash@,
            link_target: text_view(self.link_target),
        }
    }
}

impl FileData {
    pub fn is_directory(&self) -> (r: bool)
        ensures
            r == (self.flags & file_flags::DIRECTORY != 0),
    {
        self.flags & file_flags::DIRECTORY != 0
    }
}

/// What a [`DepotManifest`] holds.
pub struct ManifestView {
    pub files: Seq<FileView>,
    pub filenames_encrypted: bool,
    pub depot_id: u32,
    pub manifest_gid: u64,
    pub creation_time: u32,
    pub total_uncompressed: u64,
    pub total_compressed: u64,
}

#[derive(Debug, Clone)]
pub struct DepotManifest {
    pub files: Vec<FileData>,
    pub filenames_encrypted: bool,
    pub depot_id: u32,
    pub manifest_gid: u64,
    pub creation_time: u32,
    pub total_uncompressed: u64,
    pub total_compressed: u64,
}

impl View for DepotManifest {
    type V = ManifestView;

    open spec fn view(&self) -> ManifestView {
        ManifestView {
            files: self.files@.map_values(|f: FileData| f@),
            filenames_encrypted: self.filenames_encrypted,
            depot_id: self.depot_id,
            manifest_gid: self.manifest_gid,
            creation_time: self.creation_time,
            total_uncompressed: self.total_uncompressed,
            total_compressed: self.total_compressed,
        }
    }
}

// ------------------------------------------------------------------
// Section framing
// ------------------------------------------------------------------

/// Why a manifest could not be read.
#[derive(Debug, Clone, Copy, PartialEq, Eq)]
pub enum ManifestError {
    /// No room for a section magic at this offset.
    Truncated(usize),
    /// No room for a section length at this offset.
    TruncatedLength(usize),
    /// A section's length runs past the end of the data.
    Overrun,
    /// A section magic that is none of the known ones.
    UnknownMagic(u32),
    MissingPayload,
    MissingMetadata,
}

/// The raw protobuf bytes of the payload and metadata sections.
#[derive(Debug, Clone, PartialEq, Eq)]
pub struct ManifestSections {
    pub payload: Vec<u8>,
    pub metadata: Vec<u8>,
}

/// Walks the sections from `pos`, keeping the last payload and metadata
/// section seen, until the end magic.
pub open spec fn sections_from(
    data: Seq<u8>,
    pos: int,
    payload: Option<Seq<u8>>,
    metadata: Option<Seq<u8>>,
) -> Result<(Option<Seq<u8>>, Option<Seq<u8>>), ManifestError>
    decreases data.len() - pos,
{
    if pos < 0 || pos + 4 > data.len() {
        Err(ManifestError::Truncated(pos as usize))
    } else {
        let magic = le_u32(data, pos);
        if magic == END_MAGIC {
            Ok((payload, metadata))
        } else if pos + 8 > data.len() {
            Err(ManifestError::TruncatedLength((pos + 4) as usize))
        } else {
            let len = le_u32(data, pos + 4);
            let next = pos + 8 + len;
            if next > data.len() {
                Err(ManifestError::Overrun)
            } else {
                let section = data.subrange(pos + 8, next);
                if magic == PAYLOAD_MAGIC {
                    sections_from(data, next, Some(section), metadata)
                } else if magic == METADATA_MAGIC {
                    sections_from(data, next, payload, Some(section))
                } else if magic == SIGNATURE_MAGIC {
                    sections_from(data, next, payload, metadata)
                } else {
                    Err(ManifestError::UnknownMagic(magic as u32))
                }
            }
        }
    }
}

/// The payload and metadata sections of a binary manifest.
pub open spec fn manifest_sections(data: Seq<u8>) -> Result<(Seq<u8>, Seq<u8>), ManifestError> {
    match sections_from(data, 0, None, None) {
        Err(e) => Err(e),
        Ok((None, _)) => Err(ManifestError::MissingPayload),
        Ok((Some(_), None)) => Err(ManifestError::MissingMetadata),
        Ok((Some(p), Some(m))) => Ok((p, m)),
    }
}

/// Splits a binary manifest into its payload and metadata sections; the
/// signature section is skipped.
pub fn split_sections(data: &[u8]) -> (r: Result<ManifestSections, ManifestError>)
    ensures
        match manifest_sections(data@) {
            Ok((p, m)) => r matches Ok(s) && s.payload@ == p && s.metadata@ == m,
            Err(e) => r == Err::<ManifestSections, ManifestError>(e),
        },
{
    let mut payload: Option<Vec<u8>> = None;
    let mut metadata: Option<Vec<u8>> = None;
    let mut pos: usize = 0;
    loop
        invariant
            pos <= data@.len(),
            sections_from(data@, 0, None, None) == sections_from(
                data@,
                pos as int,
                bytes_view(payload),
                bytes_view(metadata),
            ),
        ensures
            sections_from(data@, 0, None, None) == Ok::<
                (Option<Seq<u8>>, Option<Seq<u8>>),
                ManifestError,
            >((bytes_view(payload), bytes_view(metadata))),
        decreases data@.len() - pos,
    {
        if data.len() - pos < 4 {
            return Err(ManifestError::Truncated(pos));
        }
        let magic = read_u32_le(data, pos);
        if magic == END_MAGIC {
            break ;
        }
        if data.len() - pos < 8 {
            return Err(ManifestError::TruncatedLength(pos + 4));
        }
        let len = read_u32_le(data, pos + 4);
        if len as usize > data.len() - pos - 8 {
            return Err(ManifestError::Overrun);
        }
        let next = pos + 8 + len as usize;
        if magic == PAYLOAD_MAGIC {
            payload = Some(copy_range(data, pos + 8, next));
        } else if magic == METADATA_MAGIC {
            metadata = Some(copy_range(data, pos + 8, next));
        } else if magic != SIGNATURE_MAGIC {
            return Err(ManifestError::UnknownMagic(magic));
        }
        pos = next;
    }
    match (payload, metadata) {
        (None, _) => Err(ManifestError::MissingPayload),
        (Some(_), None) => Err(ManifestError::MissingMetadata),
        (Some(p), Some(m)) => Ok(ManifestSections { payload: p, metadata: m }),
    }
}

/// One section: magic, length and contents.
pub open spec fn section_bytes(magic: u32, body: Seq<u8>) -> Seq<u8> {
    u32_le(magic) + u32_le(body.len() as u32) + body
}

/// The binary manifest written for given payload and metadata bytes:
/// payload, metadata, an empty signature section, then the end magic.
pub open spec fn manifest_frame(payload: Seq<u8>, metadata: Seq<u8>) -> Seq<u8> {
    section_bytes(PAYLOAD_MAGIC, payload) + section_bytes(METADATA_MAGIC, metadata)
        + section_bytes(SIGNATURE_MAGIC, seq![]) + u32_le(END_MAGIC)
}

/// Frames encoded payload and metadata sections as a binary manifest.
pub fn frame_manifest(payload: &[u8], metadata: &[u8]) -> (r: Vec<u8>)
    requires
        payload@.len() <= u32::MAX,
        metadata@.len() <= u32::MAX,
    ensures
        r@ == manifest_frame(payload@, metadata@),
{
    let mut out: Vec<u8> = Vec::new();
    push_u32_le(&mut out, PAYLOAD_MAGIC);
    push_u32_le(&mut out, payload.len() as u32);
    push_all(&mut out, payload);
    push_u32_le(&mut out, METADATA_MAGIC);
    push_u32_le(&mut out, metadata.len() as u32);
    push_all(&mut out, metadata);
    push_u32_le(&mut out, SIGNATURE_MAGIC);
    push_u32_le(&mut out, 0);
    push_u32_le(&mut out, END_MAGIC);
    assert(out@ =~= manifest_frame(payload@, metadata@));
    out
}

proof fn lemma_section_read(pre: Seq<u8>, magic: u32, body: Seq<u8>, rest: Seq<u8>)
    requires
        body.len() <= u32::MAX,
    ensures
        ({
            let d = pre + section_bytes(magic, body) + rest;
            let p = pre.len() as int;
            &&& d.len() == p + 8 + body.len() + rest.len()
            &&& le_u32(d, p) == magic
            &&& le_u32(d, p + 4) == body.len()
            &&& d.subrange(p + 8, p + 8 + body.len()) == body
        }),
{
    let d = pre + section_bytes(magic, body) + rest;
    let p = pre.len() as int;
    assert(d.subrange(p, p + 4) =~= u32_le(magic));
    assert(d.subrange(p + 4, p + 8) =~= u32_le(body.len() as u32));
    assert(d.subrange(p + 8, p + 8 + body.len()) =~= body);
    lemma_le_u32_at(d, p, magic);
    lemma_le_u32_at(d, p + 4, body.len() as u32);
}

/// Splitting a framed manifest gives back the payload and metadata bytes
/// it was framed from.
pub proof fn lemma_frame_sections_roundtrip(payload: Seq<u8>, metadata: Seq<u8>)
    requires
        payload.len() <= u32::MAX,
        metadata.len() <= u32::MAX,
    ensures
        manifest_sections(manifest_frame(payload, metadata)) == Ok::<
            (Seq<u8>, Seq<u8>),
            ManifestError,
        >((payload, metadata)),
{
    let a = section_bytes(PAYLOAD_MAGIC, payload);
    let b = section_bytes(METADATA_MAGIC, metadata);
    let c = section_bytes(SIGNATURE_MAGIC, seq![]);
    let e = u32_le(END_MAGIC);
    let d = manifest_frame(payload, metadata);
    let p1 = a.len() as int;
    let p2 = p1 + b.len();
    let p3 = p2 + c.len();
    assert(d =~= Seq::<u8>::empty() + a + (b + c + e));
    lemma_section_read(Seq::<u8>::empty(), PAYLOAD_MAGIC, payload, b + c + e);
    assert(d =~= a + b + (c + e));
    lemma_section_read(a, METADATA_MAGIC, metadata, c + e);
    assert(d =~= (a + b) + c + e);
    lemma_section_read(a + b, SIGNATURE_MAGIC, seq![], e);
    assert(d.subrange(p3, p3 + 4) =~= e);
    lemma_le_u32_at(d, p3, END_MAGIC);
    assert(sections_from(d, p3, Some(payload), Some(metadata)) == Ok::<
        (Option<Seq<u8>>, Option<Seq<u8>>),
        ManifestError,
    >((Some(payload), Some(metadata))));
    assert(sections_from(d, p2, Some(payload), Some(metadata)) == sections_from(
        d,
        p3,
        Some(payload),
        Some(metadata),
    ));
    assert(sections_from(d, p1, Some(payload), None) == sections_from(
        d,
        p2,
        Some(payload),
        Some(metadata),
    ));
    assert(sections_from(d, 0, None, None) == sections_from(d, p1, Some(payload), None));
}

// ------------------------------------------------------------------
// Decoded sections
// ------------------------------------------------------------------

/// `ContentManifestPayload.FileMapping.ChunkData`.
#[derive(Debug, Clone, PartialEq, Eq)]
pub struct ChunkMapping {
    pub sha: Option<Vec<u8>>,
    pub crc: Option<u32>,
    pub offset: Option<u64>,
    pub cb_original: Option<u32>,
    pub cb_compressed: Option<u32>,
}

pub struct ChunkMappingView {
    pub sha: Option<Seq<u8>>,
    pub crc: Option<u32>,
    pub offset: Option<u64>,
    pub cb_original: Option<u32>,
    pub cb_compressed: Option<u32>,
}

impl View for ChunkMapping {
    type V = ChunkMappingView;

    open spec fn view(&self) -> ChunkMappingView {
        ChunkMappingView {
            sha: bytes_view(self.sha),
            crc: self.crc,
            offset: self.offset,
            cb_original: self.cb_original,
            cb_compressed: self.cb_compressed,
        }
    }
}

/// `ContentManifestPayload.FileMapping`.
#[derive(Debug, Clone, PartialEq, Eq)]
pub struct FileMapping {
    pub filename: Option<String>,
    pub size: Option<u64>,
    pub flags: Option<u32>,
    pub sha_filename: Option<Vec<u8>>,
    pub sha_content: Option<Vec<u8>>,
    pub chunks: Vec<ChunkMapping>,
    pub linktarget: Option<String>,
}

pub struct FileMappingView {
    pub filename: Option<Seq<char>>,
    pub size: Option<u64>,
    pub flags: Option<u32>,
    pub sha_filename: Option<Seq<u8>>,
    pub sha_content: Option<Seq<u8>>,
    pub chunks: Seq<ChunkMappingView>,
    pub linktarget: Option<Seq<char>>,
}

impl View for FileMapping {
    type V = FileMappingView;

    open spec fn view(&self) -> FileMappingView {
        FileMappingView {
            filename: text_view(self.filename),
            size: self.size,
            flags: self.flags,
            sha_filename: bytes_view(self.sha_filename),
            sha_content: bytes_view(self.sha_content),
            chunks: self.chunks@.map_values(|c: ChunkMapping| c@),
            linktarget: text_view(self.linktarget),
        }
    }
}

/// `ContentManifestPayload`.
#[derive(Debug, Clone, PartialEq, Eq)]
pub struct ManifestPayload {
    pub mappings: Vec<FileMapping>,
}

impl View for ManifestPayload {
    type V = Seq<FileMappingView>;

    open spec fn view(&self) -> Seq<FileMappingView> {
        self.mappings@.map_values(|m: FileMapping| m@)
    }
}

/// `ContentManifestMetadata`.
#[derive(Debug, Clone, Copy, PartialEq, Eq)]
pub struct ManifestMetadata {
    pub depot_id: Option<u32>,
    pub gid_manifest: Option<u64>,
    pub creation_time: Option<u32>,
    pub filenames_encrypted: Option<bool>,
    pub cb_disk_original: Option<u64>,
    pub cb_disk_compressed: Option<u64>,
    pub unique_chunks: Option<u32>,
    pub crc_encrypted: Option<u32>,
    pub crc_clear: Option<u32>,
}

pub open spec fn bytes_or_empty(o: Option<Seq<u8>>) -> Seq<u8> {
    match o {
        Some(b) => b,
        None => seq![],
    }
}

pub open spec fn text_or_empty(o: Option<Seq<char>>) -> Seq<char> {
    match o {
        Some(t) => t,
        None => seq![],
    }
}

pub open spec fn chunk_from_mapping(c: ChunkMappingView) -> ChunkView {
    ChunkView {
        id: bytes_or_empty(c.sha),
        checksum: c.crc.unwrap_or(0),
        offset: c.offset.unwrap_or(0),
        compressed_len: c.cb_compressed.unwrap_or(0),
        uncompressed_len: c.cb_original.unwrap_or(0),
    }
}

/// A file entry: absent fields read as empty or zero, and an empty link
/// target as none.
pub open spec fn file_from_mapping(m: FileMappingView) -> FileView {
    FileView {
        name: text_or_empty(m.filename),
        name_hash: bytes_or_empty(m.sha_filename),
        chunks: m.chunks.map_values(|c: ChunkMappingView| chunk_from_mapping(c)),
        flags: m.flags.unwrap_or(0),
        size: m.size.unwrap_or(0),
        hash: bytes_or_empty(m.sha_content),
        link_target: match m.linktarget {
            Some(t) => if t.len() > 0 {
                Some(t)
            } else {
                None
            },
            None => None,
        },
    }
}

pub open spec fn manifest_from_sections(
    payload: Seq<FileMappingView>,
    metadata: ManifestMetadata,
) -> ManifestView {
    ManifestView {
        files: payload.map_values(|m: FileMappingView| file_from_mapping(m)),
        filenames_encrypted: metadata.filenames_encrypted.unwrap_or(false),
        depot_id: metadata.depot_id.unwrap_or(0),
        manifest_gid: metadata.gid_manifest.unwrap_or(0),
        creation_time: metadata.creation_time.unwrap_or(0),
        total_uncompressed: metadata.cb_disk_original.unwrap_or(0),
        total_compressed: metadata.cb_disk_compressed.unwrap_or(0),
    }
}

pub open spec fn mapping_of_chunk(c: ChunkView) -> ChunkMappingView {
    ChunkMappingView {
        sha: Some(c.id),
        crc: Some(c.checksum),
        offset: Some(c.offset),
        cb_original: Some(c.uncompressed_len),
        cb_compressed: Some(c.compressed_len),
    }
}

pub open spec fn mapping_of_file(f: FileView) -> FileMappingView {
    FileMappingView {
        filename: Some(f.name),
        size: Some(f.size),
        flags: Some(f.flags),
        sha_filename: Some(f.name_hash),
        sha_content: Some(f.hash),
        chunks: f.chunks.map_values(|c: ChunkView| mapping_of_chunk(c)),
        linktarget: f.link_target,
    }
}

pub open spec fn metadata_of(m: ManifestView) -> ManifestMetadata {
    ManifestMetadata {
        depot_id: Some(m.depot_id),
        gid_manifest: Some(m.manifest_gid),
        creation_time: Some(m.creation_time),
        filenames_encrypted: Some(m.filenames_encrypted),
        cb_disk_original: Some(m.total_uncompressed),
        cb_disk_compressed: Some(m.total_compressed),
        unique_chunks: None,
        crc_encrypted: None,
        crc_clear: None,
    }
}

fn copy_bytes(b: &Vec<u8>) -> (r: Vec<u8>)
    ensures
        r@ == b@,
{
    slice_to_vec(b.as_slice())
}

fn bytes_or_new(o: &Option<Vec<u8>>) -> (r: Vec<u8>)
    ensures
        r@ == bytes_or_empty(bytes_view(*o)),
{
    match o {
        Some(b) => copy_bytes(b),
        None => Vec::new(),
    }
}

fn copy_text(o: &Option<String>) -> (r: Option<String>)
    ensures
        text_view(r) == text_view(*o),
{
    match o {
        Some(t) => Some(t.clone()),
        None => None,
    }
}

fn chunk_of(c: &ChunkMapping) -> (r: ChunkData)
    ensures
        r@ == chunk_from_mapping(c@),
{
    ChunkData {
        id: bytes_or_new(&c.sha),
        checksum: c.crc.unwrap_or(0),
        offset: c.offset.unwrap_or(0),
        compressed_len: c.cb_compressed.unwrap_or(0),
        uncompressed_len: c.cb_original.unwrap_or(0),
    }
}

fn file_of(m: &FileMapping) -> (r: FileData)
    ensures
        r@ == file_from_mapping(m@),
{
    let mut chunks: Vec<ChunkData> = Vec::new();
    let mut i: usize = 0;
    while i < m.chunks.len()
        invariant
            i <= m.chunks@.len(),
            chunks@.len() == i,
            forall|k: int|
                0 <= k < i ==> #[trigger] chunks@[k]@ == chunk_from_mapping(m.chunks@[k]@),
        decreases m.chunks@.len() - i,
    {
        chunks.push(chunk_of(&m.chunks[i]));
        i = i + 1;
    }
    let name = match &m.filename {
        Some(t) => t.clone(),
        None => String::new(),
    };
    let link_target = match &m.linktarget {
        Some(t) => if !text_is_empty(t.as_str()) {
            Some(t.clone())
        } else {
            None
        },
        None => None,
    };
    let r = FileData {
        name,
        name_hash: bytes_or_new(&m.sha_filename),
        chunks,
        flags: m.flags.unwrap_or(0),
        size: m.size.unwrap_or(0),
        hash: bytes_or_new(&m.sha_content),
        link_target,
    };
    assert(r@.chunks =~= file_from_mapping(m@).chunks);
    r
}

fn mapping_of(c: &ChunkData) -> (r: ChunkMapping)
    ensures
        r@ == mapping_of_chunk(c@),
{
    ChunkMapping {
        sha: Some(copy_bytes(&c.id)),
        crc: Some(c.checksum),
        offset: Some(c.offset),
        cb_original: Some(c.uncompressed_len),
        cb_compressed: Some(c.compressed_len),
    }
}

fn file_mapping_of(f: &FileData) -> (r: FileMapping)
    ensures
        r@ == mapping_of_file(f@),
{
    let mut chunks: Vec<ChunkMapping> = Vec::new();
    let mut i: usize = 0;
    while i < f.chunks.len()
        invariant
            i <= f.chunks@.len(),
            chunks@.len() == i,
            forall|k: int| 0 <= k < i ==> #[trigger] chunks@[k]@ == mapping_of_chunk(f.chunks@[k]@),
        decreases f.chunks@.len() - i,
    {
        chunks.push(mapping_of(&f.chunks[i]));
        i = i + 1;
    }
    let r = FileMapping {
        filename: Some(f.name.clone()),
        size: Some(f.size),
        flags: Some(f.flags),
        sha_filename: Some(copy_bytes(&f.name_hash)),
        sha_content: Some(copy_bytes(&f.hash)),
        chunks,
        linktarget: copy_text(&f.link_target),
    };
    assert(r@.chunks =~= mapping_of_file(f@).chunks);
    r
}

/// A parsed file's hash is the content SHA of its file mapping and its name
/// hash the filename SHA (each empty when the field is absent): what
/// decides whether a file changed between two versions is its content.
pub proof fn lemma_parsed_file_hashes(payload: Seq<FileMappingView>, metadata: ManifestMetadata, i: int)
    requires
        0 <= i < payload.len(),
    ensures
        manifest_from_sections(payload, metadata).files[i].hash == (match payload[i].sha_content {
            Some(b) => b,
            None => seq![],
        }),
        manifest_from_sections(payload, metadata).files[i].name_hash == (match payload[i].sha_filename {
            Some(b) => b,
            None => seq![],
        }),
{
}

/// Writing a manifest's sections puts each file's content hash in
/// `sha_content` and its name hash in `sha_filename`.
pub proof fn lemma_section_file_hashes(m: ManifestView, i: int)
    requires
        0 <= i < m.files.len(),
    ensures
        m.files.map_values(|f: FileView| mapping_of_file(f))[i].sha_content == Some(m.files[i].hash),
        m.files.map_values(|f: FileView| mapping_of_file(f))[i].sha_filename == Some(m.files[i].name_hash),
{
}

impl DepotManifest {
    /// Builds the manifest from its decoded payload and metadata sections.
    pub fn parse(payload: &ManifestPayload, metadata: &ManifestMetadata) -> (r: DepotManifest)
        ensures
            r@ == manifest_from_sections(payload@, *metadata),
            r.files@.len() == payload.mappings@.len(),
            forall|i: int|
                0 <= i < r.files@.len() ==> (#[trigger] r.files@[i]).hash@ == (match payload.mappings@[i].sha_content {
                    Some(b) => b@,
                    None => seq![],
                }) && r.files@[i].name_hash@ == (match payload.mappings@[i].sha_filename {
                    Some(b) => b@,
                    None => seq![],
                }),
    {
        let mut files: Vec<FileData> = Vec::new();
        let mut i: usize = 0;
        while i < payload.mappings.len()
            invariant
                i <= payload.mappings@.len(),
                files@.len() == i,
                forall|k: int|
                    0 <= k < i ==> #[trigger] files@[k]@ == file_from_mapping(
                        payload.mappings@[k]@,
                    ),
            decreases payload.mappings@.len() - i,
        {
            files.push(file_of(&payload.mappings[i]));
            i = i + 1;
        }
        let r = DepotManifest {
            files,
            filenames_encrypted: metadata.filenames_encrypted.unwrap_or(false),
            depot_id: metadata.depot_id.unwrap_or(0),
            manifest_gid: metadata.gid_manifest.unwrap_or(0),
            creation_time: metadata.creation_time.unwrap_or(0),
            total_uncompressed: metadata.cb_disk_original.unwrap_or(0),
            total_compressed: metadata.cb_disk_compressed.unwrap_or(0),
        };
        assert(r@.files =~= manifest_from_sections(payload@, *metadata).files);
        assert forall|i: int| 0 <= i < r.files@.len() implies (#[trigger] r.files@[i]).hash@ == (
        match payload.mappings@[i].sha_content {
            Some(b) => b@,
            None => seq![],
        }) && r.files@[i].name_hash@ == (match payload.mappings@[i].sha_filename {
            Some(b) => b@,
            None => seq![],
        }) by {
            assert(r.files@[i]@ == file_from_mapping(payload.mappings@[i]@));
        }
        r
    }

    /// The payload and metadata sections that describe this manifest, as
    /// written to the local cache.
    pub fn to_sections(&self) -> (r: (ManifestPayload, ManifestMetadata))
        ensures
            r.0@ == self@.files.map_values(|f: FileView| mapping_of_file(f)),
            r.1 == metadata_of(self@),
            r.0.mappings@.len() == self.files@.len(),
            forall|i: int|
                0 <= i < self.files@.len() ==> ((#[trigger] r.0.mappings@[i]).sha_content matches Some(b)
                    && b@ == self.files@[i].hash@) && (r.0.mappings@[i].sha_filename matches Some(b)
                    && b@ == self.files@[i].name_hash@),
    {
        let mut mappings: Vec<FileMapping> = Vec::new();
        let mut i: usize = 0;
        while i < self.files.len()
            invariant
                i <= self.files@.len(),
                mappings@.len() == i,
                forall|k: int|
                    0 <= k < i ==> #[trigger] mappings@[k]@ == mapping_of_file(self.files@[k]@),
            decreases self.files@.len() - i,
        {
            mappings.push(file_mapping_of(&self.files[i]));
            i = i + 1;
        }
        let payload = ManifestPayload { mappings };
        assert(payload@ =~= self@.files.map_values(|f: FileView| mapping_of_file(f)));
        assert forall|i: int| 0 <= i < self.files@.len() implies ((#[trigger] payload.mappings@[i]).sha_content matches Some(b)
            && b@ == self.files@[i].hash@) && (payload.mappings@[i].sha_filename matches Some(b)
            && b@ == self.files@[i].name_hash@) by {
            assert(payload.mappings@[i]@ == mapping_of_file(self.files@[i]@));
        }
        let metadata = ManifestMetadata {
            depot_id: Some(self.depot_id),
            gid_manifest: Some(self.manifest_gid),
            creation_time: Some(self.creation_time),
            filenames_encrypted: Some(self.filenames_encrypted),
            cb_disk_original: Some(self.total_uncompressed),
            cb_disk_compressed: Some(self.total_compressed),
            unique_chunks: None,
            crc_encrypted: None,
            crc_clear: None,
        };
        (payload, metadata)
    }
}

/// No file of the manifest has an empty link target (an empty target reads
/// back as none).
pub open spec fn link_targets_nonempty(m: ManifestView) -> bool {
    forall|i: int|
        0 <= i < m.files.len() ==> ((#[trigger] m.files[i]).link_target matches Some(t) ==> t.len()
            > 0)
}

/// Writing a manifest's sections and building a manifest from them gives
/// back the same manifest, when no link target is empty.
pub proof fn lemma_sections_roundtrip(m: ManifestView)
    requires
        link_targets_nonempty(m),
    ensures
        manifest_from_sections(
            m.files.map_values(|f: FileView| mapping_of_file(f)),
            metadata_of(m),
        ) == m,
{
    let back = manifest_from_sections(
        m.files.map_values(|f: FileView| mapping_of_file(f)),
        metadata_of(m),
    );
    assert forall|i: int| 0 <= i < m.files.len() implies back.files[i] == m.files[i] by {
        let f = m.files[i];
        let g = file_from_mapping(mapping_of_file(f));
        assert(g.chunks =~= f.chunks);
        assert(g.link_target == f.link_target);
    }
    assert(back.files =~= m.files);
}

// ------------------------------------------------------------------
// Filename decryption
// ------------------------------------------------------------------

pub open spec fn with_names(f: FileView, name: Seq<char>, link_target: Option<Seq<char>>) -> FileView {
    FileView {
        name,
        name_hash: f.name_hash,
        chunks: f.chunks,
        flags: f.flags,
        size: f.size,
        hash: f.hash,
        link_target,
    }
}

/// A file entry with its name, and its link target if any, decrypted.
pub open spec fn decrypt_file(f: FileView, key: Seq<u8>) -> Result<FileView, CryptoError> {
    match symmetric_name(f.name, key) {
        Err(e) => Err(e),
        Ok(name) => match f.link_target {
            None => Ok(with_names(f, name, None)),
            Some(t) => match symmetric_name(t, key) {
                Err(e) => Err(e),
                Ok(link) => Ok(with_names(f, name, Some(link))),
            },
        },
    }
}

/// An entry whose decryption failed: its name is replaced when the name
/// decrypted and only the link target failed.
pub open spec fn partly_decrypted(f: FileView, key: Seq<u8>) -> FileView {
    match symmetric_name(f.name, key) {
        Ok(name) => with_names(f, name, f.link_target),
        Err(_) => f,
    }
}

/// Decrypts the entries in order; the first failure is the result.
pub open spec fn decrypt_files(fs: Seq<FileView>, key: Seq<u8>) -> Result<
    Seq<FileView>,
    CryptoError,
>
    decreases fs.len(),
{
    if fs.len() == 0 {
        Ok(seq![])
    } else {
        match decrypt_files(fs.drop_last(), key) {
            Err(e) => Err(e),
            Ok(pre) => match decrypt_file(fs.last(), key) {
                Ok(f) => Ok(pre.push(f)),
                Err(e) => Err(e),
            },
        }
    }
}

/// `now` is what is left of `before` when decryption failed with `e` at
/// some entry: the entries before it decrypted, that entry partly, the rest
/// untouched.
pub open spec fn failed_at(
    before: Seq<FileView>,
    now: Seq<FileView>,
    key: Seq<u8>,
    e: CryptoError,
) -> bool {
    exists|i: int|
        0 <= i < before.len() && #[trigger] decrypt_file(before[i], key) == Err::<
            FileView,
            CryptoError,
        >(e) && decrypt_files(before.take(i), key) == Ok::<Seq<FileView>, CryptoError>(
            now.take(i),
        ) && now[i] == partly_decrypted(before[i], key) && now.skip(i + 1) == before.skip(i + 1)
            && now.len() == before.len()
}

/// The sort keys of the entries: their lower-cased names.
pub open spec fn name_keys(fs: Seq<FileView>) -> Seq<Seq<char>> {
    fs.map_values(|f: FileView| lowercase(f.name))
}

/// `out` holds the entries of `fs` ordered by lower-cased name (compared
/// as `str` compares), entries with equal keys in their original order.
pub open spec fn sorted_by_name(fs: Seq<FileView>, out: Seq<FileView>) -> bool {
    exists|order: Seq<usize>|
        #![trigger in_key_order(name_keys(fs), order)]
        order.len() == fs.len() && in_key_order(name_keys(fs), order) && out.len() == fs.len() && (
        forall|k: int| 0 <= k < out.len() ==> out[k] == fs[order[k] as int])
}

/// The fields other than the file list and the encryption flag.
pub open spec fn same_header(a: ManifestView, b: ManifestView) -> bool {
    &&& a.depot_id == b.depot_id
    &&& a.manifest_gid == b.manifest_gid
    &&& a.creation_time == b.creation_time
    &&& a.total_uncompressed == b.total_uncompressed
    &&& a.total_compressed == b.total_compressed
}

proof fn lemma_decrypt_files_fails(fs: Seq<FileView>, key: Seq<u8>, i: int, j: int, e: CryptoError)
    requires
        0 <= i < j <= fs.len(),
        decrypt_files(fs.take(i), key) is Ok,
        decrypt_file(fs[i], key) == Err::<FileView, CryptoError>(e),
    ensures
        decrypt_files(fs.take(j), key) == Err::<Seq<FileView>, CryptoError>(e),
    decreases j - i,
{
    if j == i + 1 {
        assert(fs.take(j).drop_last() =~= fs.take(i));
    } else {
        lemma_decrypt_files_fails(fs, key, i, j - 1, e);
        assert(fs.take(j).drop_last() =~= fs.take(j - 1));
    }
}

proof fn lemma_rest_unchanged(now: Seq<FileView>, before: Seq<FileView>, orig: Seq<FileView>, i: int)
    requires
        0 <= i < now.len(),
        now.len() == before.len(),
        before.len() == orig.len(),
        before.skip(i) == orig.skip(i),
        forall|k: int| 0 <= k < now.len() && k != i ==> #[trigger] now[k] == before[k],
    ensures
        now.skip(i + 1) == orig.skip(i + 1),
        now.take(i) == before.take(i),
{
    assert forall|k: int| 0 <= k < now.len() - i - 1 implies #[trigger] now.skip(i + 1)[k] == orig.skip(
        i + 1,
    )[k] by {
        assert(now[i + 1 + k] == before[i + 1 + k]);
        assert(before[i + 1 + k] == before.skip(i)[k + 1]);
        assert(orig[i + 1 + k] == orig.skip(i)[k + 1]);
    }
    assert(now.skip(i + 1) =~= orig.skip(i + 1));
    assert(now.take(i) =~= before.take(i));
}

impl DepotManifest {
    /// Decrypts the name, then the link target if any, of entry `i`.
    fn decrypt_entry(&mut self, i: usize, depot_key: &[u8]) -> (r: Result<(), CryptoError>)
        requires
            i < old(self).files@.len(),
            depot_key@.len() == 32 || name_ciphertext(old(self).files@[i as int].name@) is None,
        ensures
            same_header(final(self)@, old(self)@),
            final(self).filenames_encrypted == old(self).filenames_encrypted,
            final(self)@.files.len() == old(self)@.files.len(),
            forall|k: int|
                0 <= k < old(self)@.files.len() && k != i ==> #[trigger] final(self)@.files[k]
                    == old(self)@.files[k],
            match decrypt_file(old(self)@.files[i as int], depot_key@) {
                Ok(f) => r is Ok && final(self)@.files[i as int] == f,
                Err(e) => r == Err::<(), CryptoError>(e) && final(self)@.files[i as int]
                    == partly_decrypted(old(self)@.files[i as int], depot_key@),
            },
    {
        let ghost before = self.files@;
        let name = match decrypt_symmetric_name(self.files[i].name.as_str(), depot_key) {
            Ok(v) => v,
            Err(e) => {
                return Err(e);
            },
        };
        let link = match &self.files[i].link_target {
            Some(t) => Some(decrypt_symmetric_name(t.as_str(), depot_key)),
            None => None,
        };
        self.files[i].name = name;
        let r = match link {
            Some(Err(e)) => Err(e),
            Some(Ok(l)) => {
                self.files[i].link_target = Some(l);
                Ok(())
            },
            None => Ok(()),
        };
        assert forall|k: int| 0 <= k < before.len() && k != i implies #[trigger] self@.files[k]
            == old(self)@.files[k] by {
            assert(self.files@[k] == before[k]);
        }
        r
    }

    /// Decrypts every name and link target in order, stopping at the first
    /// failure.
    fn decrypt_names(&mut self, depot_key: &[u8]) -> (r: Result<(), CryptoError>)
        requires
            old(self).files@.len() > 0 && depot_key@.len() != 32 ==> name_ciphertext(
                old(self).files@[0].name@,
            ) is None,
        ensures
            same_header(final(self)@, old(self)@),
            final(self).filenames_encrypted == old(self).filenames_encrypted,
            match decrypt_files(old(self)@.files, depot_key@) {
                Ok(d) => r is Ok && final(self)@.files == d,
                Err(e) => r == Err::<(), CryptoError>(e) && failed_at(
                    old(self)@.files,
                    final(self)@.files,
                    depot_key@,
                    e,
                ),
            },
    {
        let n = self.files.len();
        let ghost orig = self@.files;
        let mut i: usize = 0;
        assert(orig.take(0) =~= seq![]);
        assert(self@.files.take(0) =~= seq![]);
        assert(self@.files.skip(0) =~= orig.skip(0));
        while i < n
            invariant
                n == self.files@.len(),
                orig.len() == n,
                i <= n,
                decrypt_files(orig.take(i as int), depot_key@) == Ok::<Seq<FileView>, CryptoError>(
                    self@.files.take(i as int),
                ),
                self@.files.skip(i as int) == orig.skip(i as int),
                i > 0 ==> depot_key@.len() == 32,
                orig.len() > 0 && depot_key@.len() != 32 ==> name_ciphertext(orig[0].name) is None,
                orig == old(self)@.files,
                same_header(self@, old(self)@),
                self.filenames_encrypted == old(self).filenames_encrypted,
            decreases n - i,
        {
            let ghost before = self@.files;
            assert(before[i as int] == before.skip(i as int)[0]);
            assert(orig[i as int] == orig.skip(i as int)[0]);
            let step = self.decrypt_entry(i, depot_key);
            proof {
                lemma_rest_unchanged(self@.files, before, orig, i as int);
            }
            match step {
                Err(e) => {
                    proof {
                        lemma_decrypt_files_fails(orig, depot_key@, i as int, n as int, e);
                        assert(orig.take(n as int) =~= orig);
                    }
                    return Err(e);
                },
                Ok(()) => {},
            }
            proof {
                assert(orig.take(i + 1).drop_last() =~= orig.take(i as int));
                assert(self@.files.take(i + 1) =~= self@.files.take(i as int).push(self@.files[i as int]));
            }
            i = i + 1;
        }
        proof {
            assert(orig.take(n as int) =~= orig);
            assert(self@.files.take(n as int) =~= self@.files);
        }
        Ok(())
    }

    /// Orders the files by lower-cased name; files whose names compare
    /// equal keep their order.
    fn sort_by_name(&mut self)
        ensures
            same_header(final(self)@, old(self)@),
            final(self).filenames_encrypted == old(self).filenames_encrypted,
            sorted_by_name(old(self)@.files, final(self)@.files),
    {
        let n = self.files.len();
        let ghost start = self@;
        let mut keys: Vec<Vec<char>> = Vec::new();
        let mut i: usize = 0;
        while i < n
            invariant
                n == self.files@.len(),
                i <= n,
                keys@.len() == i,
                forall|k: int| 0 <= k < i ==> (#[trigger] keys@[k])@ == lowercase(self.files@[k].name@),
            decreases n - i,
        {
            let lower = to_lowercase(self.files[i].name.as_str());
            keys.push(str_chars(lower.as_str()));
            i = i + 1;
        }
        assert(key_views(keys@) =~= name_keys(self@.files));
        let order = sort_positions(&keys, 0, n);
        let mut files: Vec<FileData> = Vec::new();
        std::mem::swap(&mut files, &mut self.files);
        let ghost orig = files@;
        let mut slots: Vec<Option<FileData>> = Vec::new();
        while files.len() > 0
            invariant
                orig.len() == n,
                files@.len() + slots@.len() == n,
                files@ == orig.take(files@.len() as int),
                forall|j: int| 0 <= j < slots@.len() ==> #[trigger] slots@[j] == Some(orig[n - 1 - j]),
            decreases files@.len(),
        {
            let ghost before = files@;
            match files.pop() {
                Some(f) => {
                    slots.push(Some(f));
                },
                None => {},
            }
            assert(files@ =~= orig.take(files@.len() as int));
        }
        let mut out: Vec<FileData> = Vec::new();
        let mut k: usize = 0;
        while k < n
            invariant
                orig.len() == n,
                slots@.len() == n,
                order@.len() == n,
                k <= n,
                out@.len() == k,
                in_key_order(name_keys(start.files), order@),
                forall|m: int| 0 <= m < order@.len() ==> 0 <= #[trigger] order@[m] < n,
                forall|m: int| 0 <= m < k ==> #[trigger] out@[m] == orig[order@[m] as int],
                forall|m: int|
                    k <= m < n ==> slots@[n - 1 - (#[trigger] order@[m])] == Some(
                        orig[order@[m] as int],
                    ),
            decreases n - k,
        {
            let idx = n - 1 - order[k];
            let ghost before = slots@;
            assert(before[idx as int] == Some(orig[order@[k as int] as int]));
            let taken = slots[idx].take();
            proof {
                assert forall|m: int| k + 1 <= m < n implies slots@[n - 1 - (#[trigger] order@[m])]
                    == Some(orig[order@[m] as int]) by {
                    lemma_in_key_order_distinct(name_keys(start.files), order@, k as int, m);
                    assert(before[n - 1 - order@[m]] == Some(orig[order@[m] as int]));
                }
            }
            if let Some(f) = taken {
                out.push(f);
            } else {
                proof {
                    assert(false);
                }
            }
            k = k + 1;
        }
        self.files = out;
        proof {
            assert(orig.map_values(|f: FileData| f@) =~= start.files);
            assert forall|m: int| 0 <= m < n implies self@.files[m] == start.files[order@[m] as int] by {
                assert(self.files@[m] == orig[order@[m] as int]);
            }
        }
    }

    /// Decrypts the file names (and link targets) with the depot key and
    /// orders the files by lower-cased name, as Steam lists them. A
    /// manifest whose names are not encrypted is left as it is.
    pub fn decrypt_filenames(&mut self, depot_key: &[u8]) -> (r: Result<(), CryptoError>)
        requires
            old(self).filenames_encrypted && old(self).files@.len() > 0 && depot_key@.len() != 32
                ==> name_ciphertext(old(self).files@[0].name@) is None,
        ensures
            same_header(final(self)@, old(self)@),
            !old(self).filenames_encrypted ==> r is Ok && final(self)@ == old(self)@,
            old(self).filenames_encrypted ==> match decrypt_files(old(self)@.files, depot_key@) {
                Ok(d) => r is Ok && !final(self).filenames_encrypted && sorted_by_name(
                    d,
                    final(self)@.files,
                ),
                Err(e) => r == Err::<(), CryptoError>(e) && final(self).filenames_encrypted
                    && failed_at(old(self)@.files, final(self)@.files, depot_key@, e),
            },
    {
        if !self.filenames_encrypted {
            return Ok(());
        }
        match self.decrypt_names(depot_key) {
            Err(e) => {
                return Err(e);
            },
            Ok(()) => {},
        }
        self.sort_by_name();
        self.filenames_encrypted = false;
        Ok(())
    }

    /// Like [`DepotManifest::decrypt_filenames`], but first refuses a depot
    /// key that is not 32 bytes long when the names are encrypted and the
    /// first one holds a ciphertext; the manifest is then left as it is.
    pub fn decrypt_filenames_checked(&mut self, depot_key: &[u8]) -> (r: Result<(), CryptoError>)
        ensures
            ({
                let refused = old(self).filenames_encrypted && old(self).files@.len() > 0
                    && depot_key@.len() != 32 && name_ciphertext(old(self).files@[0].name@) is Some;
                &&& refused ==> r == Err::<(), CryptoError>(CryptoError::BadKeyLength)
                    && final(self)@ == old(self)@
                &&& !refused ==> same_header(final(self)@, old(self)@)
                &&& !refused && !old(self).filenames_encrypted ==> r is Ok && final(self)@ == old(self)@
                &&& !refused && old(self).filenames_encrypted ==> match decrypt_files(
                    old(self)@.files,
                    depot_key@,
                ) {
                    Ok(d) => r is Ok && !final(self).filenames_encrypted && sorted_by_name(
                        d,
                        final(self)@.files,
                    ),
                    Err(e) => r == Err::<(), CryptoError>(e) && final(self).filenames_encrypted
                        && failed_at(old(self)@.files, final(self)@.files, depot_key@, e),
                }
            }),
    {
        if self.filenames_encrypted && self.files.len() > 0 && depot_key.len() != 32
            && name_has_ciphertext(self.files[0].name.as_str()) {
            return Err(CryptoError::BadKeyLength);
        }
        self.decrypt_filenames(depot_key)
    }
}

} // verus!
