//! Inspection of League of Legends replay containers (`.rofl`) without decoding or
//! decrypting their payload: the legacy layout and the ROFL2 layout.
use vstd::prelude::*;
use crate::text::push_char;
use crate::json::Json;

verus! {

/// Increment when an inspector change should re-analyze persisted summaries.
pub const PARSER_VERSION: u16 = 3;

/// The metadata limit applied unless a caller chooses another.
pub const DEFAULT_MAX_METADATA_BYTES: usize = 8388608;

/// Resource limits applied before allocating data declared by an untrusted replay.
#[derive(Clone, Copy, PartialEq, Eq, Structural, Debug)]
pub struct InspectOptions {
    pub max_metadata_bytes: usize,
}

impl Default for InspectOptions {
    fn default() -> (r: Self)
        ensures
            r.max_metadata_bytes == DEFAULT_MAX_METADATA_BYTES,
    {
        InspectOptions { max_metadata_bytes: DEFAULT_MAX_METADATA_BYTES }
    }
}

#[derive(Clone, Copy, PartialEq, Eq, Structural, Debug)]
pub enum ReplayGeneration {
    Legacy,
    Rofl2,
}

/// Summary of the legacy payload header. The encryption key itself is never exposed.
#[derive(Clone, Copy, PartialEq, Eq, Structural, Debug)]
pub struct LegacyPayloadSummary {
    pub game_id: u64,
    pub game_length_ms: u32,
    pub keyframe_count: u32,
    pub chunk_count: u32,
    pub end_startup_chunk_id: u32,
    pub start_game_chunk_id: u32,
    pub keyframe_interval_ms: u32,
    pub encryption_key_length: u16,
}

#[derive(Clone, Copy, PartialEq, Eq, Structural, Debug)]
pub struct ByteRange {
    pub offset: u64,
    pub length: u64,
}

#[derive(Clone, Copy, PartialEq, Eq, Structural, Debug)]
pub struct ReplayLayout {
    pub file_size: u64,
    pub header: ByteRange,
    pub metadata: ByteRange,
    pub payload_header: Option<ByteRange>,
    pub payload: ByteRange,
}

#[derive(Clone, Copy, PartialEq, Eq, Structural, Debug)]
pub enum InspectErrorKind {
    Io,
    Truncated,
    InvalidSignature,
    UnsupportedGeneration,
    InvalidLayout,
    MetadataTooLarge,
    InvalidGameVersion,
    InvalidMetadata,
}

/// The part of a container that a read or a layout check concerns.
#[derive(Clone, Copy, PartialEq, Eq, Structural, Debug)]
pub enum Section {
    Signature,
    LegacyContainerHeader,
    LegacyContainer,
    Metadata,
    LegacyPayloadHeader,
    Rofl2Header,
    Rofl2Metadata,
}

/// How a section is named in diagnostics.
pub open spec fn section_name(s: Section) -> Seq<char> {
    match s {
        Section::Signature => "signature"@,
        Section::LegacyContainerHeader => "legacy container header"@,
        Section::LegacyContainer => "legacy container"@,
        Section::Metadata => "metadata"@,
        Section::LegacyPayloadHeader => "legacy payload header"@,
        Section::Rofl2Header => "ROFL2 header"@,
        Section::Rofl2Metadata => "ROFL2 metadata"@,
    }
}

impl Section {
    /// How the section is named in diagnostics.
    pub fn name(self) -> (r: &'static str)
        ensures
            r@ == section_name(self),
    {
        match self {
            Section::Signature => "signature",
            Section::LegacyContainerHeader => "legacy container header",
            Section::LegacyContainer => "legacy container",
            Section::Metadata => "metadata",
            Section::LegacyPayloadHeader => "legacy payload header",
            Section::Rofl2Header => "ROFL2 header",
            Section::Rofl2Metadata => "ROFL2 metadata",
        }
    }
}

/// Why a replay could not be inspected.
#[derive(Clone, Copy, PartialEq, Eq, Structural, Debug)]
pub enum InspectError {
    Truncated { section: Section },
    InvalidSignature,
    UnsupportedGeneration { major: u8, minor: u8 },
    InvalidLayout { section: Section },
    MetadataTooLarge { declared: u64, limit: usize },
    InvalidGameVersion,
    /// The metadata is not the expected JSON document.
    InvalidMetadataJson,
    /// The participant statistics inside the metadata are not the expected JSON array.
    InvalidParticipantJson,
}

impl InspectError {
    pub fn kind(&self) -> (k: InspectErrorKind)
        ensures
            k == spec_kind(*self),
    {
        match self {
            InspectError::Truncated { .. } => InspectErrorKind::Truncated,
            InspectError::InvalidSignature => InspectErrorKind::InvalidSignature,
            InspectError::UnsupportedGeneration { .. } => InspectErrorKind::UnsupportedGeneration,
            InspectError::InvalidLayout { .. } => InspectErrorKind::InvalidLayout,
            InspectError::MetadataTooLarge { .. } => InspectErrorKind::MetadataTooLarge,
            InspectError::InvalidGameVersion => InspectErrorKind::InvalidGameVersion,
            InspectError::InvalidMetadataJson => InspectErrorKind::InvalidMetadata,
            InspectError::InvalidParticipantJson => InspectErrorKind::InvalidMetadata,
        }
    }
}

pub open spec fn spec_kind(e: InspectError) -> InspectErrorKind {
    match e {
        InspectError::Truncated { .. } => InspectErrorKind::Truncated,
        InspectError::InvalidSignature => InspectErrorKind::InvalidSignature,
        InspectError::UnsupportedGeneration { .. } => InspectErrorKind::UnsupportedGeneration,
        InspectError::InvalidLayout { .. } => InspectErrorKind::InvalidLayout,
        InspectError::MetadataTooLarge { .. } => InspectErrorKind::MetadataTooLarge,
        InspectError::InvalidGameVersion => InspectErrorKind::InvalidGameVersion,
        InspectError::InvalidMetadataJson => InspectErrorKind::InvalidMetadata,
        InspectError::InvalidParticipantJson => InspectErrorKind::InvalidMetadata,
    }
}

// ---- little-endian fields ----

pub open spec fn le16(b: Seq<u8>, off: int) -> int {
    b[off] as int + 256 * (b[off + 1] as int)
}

pub open spec fn le32(b: Seq<u8>, off: int) -> int {
    le16(b, off) + 65536 * le16(b, off + 2)
}

pub open spec fn le64(b: Seq<u8>, off: int) -> int {
    le32(b, off) + 4294967296 * le32(b, off + 4)
}

pub fn u16_at(bytes: &[u8], offset: usize) -> (r: u16)
    requires
        offset + 2 <= bytes@.len(),
    ensures
        r as int == le16(bytes@, offset as int),
{
    bytes[offset] as u16 + 256 * (bytes[offset + 1] as u16)
}

pub fn u32_at(bytes: &[u8], offset: usize) -> (r: u32)
    requires
        offset + 4 <= bytes.len(),
    ensures
        r as int == le32(bytes@, offset as int),
{
    u16_at(bytes, offset) as u32 + 65536 * (u16_at(bytes, offset + 2) as u32)
}

pub fn u64_at(bytes: &[u8], offset: usize) -> (r: u64)
    requires
        offset + 8 <= bytes.len(),
    ensures
        r as int == le64(bytes@, offset as int),
{
    u32_at(bytes, offset) as u64 + 4294967296 * (u32_at(bytes, offset + 4) as u64)
}

// ---- layout ----

pub const SIGNATURE_LEN: u64 = 6;
pub const LEGACY_HEADER_FIELDS_OFFSET: u64 = 262;
pub const LEGACY_MIN_HEADER_LEN: u64 = 288;
pub const LEGACY_PAYLOAD_PREFIX_LEN: u64 = 34;
pub const ROFL2_VERSION_LENGTH_OFFSET: u64 = 14;
pub const ROFL2_VERSION_OFFSET: u64 = 15;
pub const METADATA_FOOTER_LEN: u64 = 4;

/// What the container part of an inspection found: everything that can be read without
/// decoding the metadata document.
#[derive(Clone, Copy, PartialEq, Eq, Structural, Debug)]
pub struct Container {
    pub generation: ReplayGeneration,
    pub layout: ReplayLayout,
    /// Where a ROFL2 container declares its game version text.
    pub version: Option<ByteRange>,
    /// The legacy payload header fields (legacy containers only).
    pub legacy_payload: Option<LegacyPayloadSummary>,
}

/// Fails when a declared metadata length exceeds the limit, before anything is allocated.
pub fn enforce_metadata_limit(len: u64, options: &InspectOptions) -> (r: Result<(), InspectError>)
    ensures
        r == (if len > options.max_metadata_bytes {
            Err(InspectError::MetadataTooLarge { declared: len, limit: options.max_metadata_bytes })
        } else {
            Ok(())
        }),
{
    if len > options.max_metadata_bytes as u64 {
        return Err(InspectError::MetadataTooLarge { declared: len, limit: options.max_metadata_bytes });
    }
    Ok(())
}

/// The end of `offset..offset + len` when it lies within the file.
pub fn checked_range(offset: u64, len: u64, file_len: u64, section: Section) -> (r: Result<u64, InspectError>)
    ensures
        r == (if offset + len <= file_len {
            Ok((offset + len) as u64)
        } else {
            Err(InspectError::InvalidLayout { section })
        }),
{
    let end = match offset.checked_add(len) {
        Some(end) => end,
        None => return Err(InspectError::InvalidLayout { section }),
    };
    if end > file_len {
        return Err(InspectError::InvalidLayout { section });
    }
    Ok(end)
}

/// The legacy container fields, read at fixed offsets.
pub open spec fn legacy_fields_ok(b: Seq<u8>, max: usize) -> Result<Container, InspectError> {
    let file_len = b.len();
    if file_len < 288 {
        Err(InspectError::Truncated { section: Section::LegacyContainerHeader })
    } else {
        let header_len = le16(b, 262);
        let declared = le32(b, 264);
        let m_off = le32(b, 268);
        let m_len = le32(b, 272);
        let ph_off = le32(b, 276);
        let ph_len = le32(b, 280);
        let p_off = le32(b, 284);
        if header_len < 288 || declared != file_len {
            Err(InspectError::InvalidLayout { section: Section::LegacyContainer })
        } else if m_off + m_len > file_len {
            Err(InspectError::InvalidLayout { section: Section::Metadata })
        } else if ph_off + ph_len > file_len {
            Err(InspectError::InvalidLayout { section: Section::LegacyPayloadHeader })
        } else if m_off < header_len || m_off + m_len > ph_off || ph_len < 34 || ph_off + ph_len
            > p_off || p_off > file_len {
            Err(InspectError::InvalidLayout { section: Section::LegacyContainer })
        } else if m_len > max {
            Err(InspectError::MetadataTooLarge { declared: m_len as u64, limit: max })
        } else {
            Ok(
                Container {
                    generation: ReplayGeneration::Legacy,
                    layout: ReplayLayout {
                        file_size: file_len as u64,
                        header: ByteRange { offset: 0, length: header_len as u64 },
                        metadata: ByteRange { offset: m_off as u64, length: m_len as u64 },
                        payload_header: Some(ByteRange { offset: ph_off as u64, length: ph_len as u64 }),
                        payload: ByteRange { offset: p_off as u64, length: (file_len - p_off) as u64 },
                    },
                    version: None,
                    legacy_payload: Some(
                        LegacyPayloadSummary {
                            game_id: le64(b, ph_off) as u64,
                            game_length_ms: le32(b, ph_off + 8) as u32,
                            keyframe_count: le32(b, ph_off + 12) as u32,
                            chunk_count: le32(b, ph_off + 16) as u32,
                            end_startup_chunk_id: le32(b, ph_off + 20) as u32,
                            start_game_chunk_id: le32(b, ph_off + 24) as u32,
                            keyframe_interval_ms: le32(b, ph_off + 28) as u32,
                            encryption_key_length: le16(b, ph_off + 32) as u16,
                        },
                    ),
                },
            )
        }
    }
}

/// A game version: at least one character, every one a visible ASCII character.
pub open spec fn valid_game_version(v: Seq<char>) -> bool {
    v.len() > 0 && forall|i: int| 0 <= i < v.len() ==> '!' <= #[trigger] v[i] && v[i] <= '~'
}

/// The ROFL2 fields: version length, version text, metadata footer.
pub open spec fn rofl2_fields_ok(b: Seq<u8>, max: usize) -> Result<Container, InspectError> {
    let file_len = b.len();
    if file_len < 19 {
        Err(InspectError::Truncated { section: Section::Rofl2Header })
    } else {
        let version_len = b[14] as int;
        let content = 15 + version_len;
        if content + 4 > file_len {
            Err(InspectError::InvalidLayout { section: Section::Rofl2Header })
        } else if !(version_len > 0 && forall|i: int| 15 <= i < content ==> 0x21 <= #[trigger] b[i] <= 0x7e) {
            Err(InspectError::InvalidGameVersion)
        } else {
            let m_len = le32(b, file_len - 4);
            if m_len > max {
                Err(InspectError::MetadataTooLarge { declared: m_len as u64, limit: max })
            } else if file_len - 4 - m_len < content {
                Err(InspectError::InvalidLayout { section: Section::Rofl2Metadata })
            } else {
                let m_off = file_len - 4 - m_len;
                Ok(
                    Container {
                        generation: ReplayGeneration::Rofl2,
                        layout: ReplayLayout {
                            file_size: file_len as u64,
                            header: ByteRange { offset: 0, length: content as u64 },
                            metadata: ByteRange { offset: m_off as u64, length: m_len as u64 },
                            payload_header: None,
                            payload: ByteRange { offset: content as u64, length: (m_off - content) as u64 },
                        },
                        version: Some(ByteRange { offset: 15, length: version_len as u64 }),
                        legacy_payload: None,
                    },
                )
            }
        }
    }
}

/// The container part of inspecting a complete replay held in `b`.
pub open spec fn spec_inspect_container(b: Seq<u8>, max: usize) -> Result<Container, InspectError> {
    if b.len() < 6 {
        Err(InspectError::Truncated { section: Section::Signature })
    } else if !(b[0] == 0x52 && b[1] == 0x49 && b[2] == 0x4f && b[3] == 0x54) {
        Err(InspectError::InvalidSignature)
    } else if b[4] == 0 && b[5] == 0 {
        legacy_fields_ok(b, max)
    } else if b[4] == 2 && b[5] == 0 {
        rofl2_fields_ok(b, max)
    } else {
        Err(InspectError::UnsupportedGeneration { major: b[4], minor: b[5] })
    }
}

fn inspect_legacy(bytes: &[u8], options: &InspectOptions) -> (r: Result<Container, InspectError>)
    requires
        bytes@.len() <= u64::MAX,
    ensures
        r == legacy_fields_ok(bytes@, options.max_metadata_bytes),
{
    if bytes.len() < 288 {
        return Err(InspectError::Truncated { section: Section::LegacyContainerHeader });
    }
    let file_len = bytes.len() as u64;
    let header_len = u16_at(bytes, 262) as u64;
    let declared_file_len = u32_at(bytes, 264) as u64;
    let metadata_offset = u32_at(bytes, 268) as u64;
    let metadata_len = u32_at(bytes, 272) as u64;
    let payload_header_offset = u32_at(bytes, 276) as u64;
    let payload_header_len = u32_at(bytes, 280) as u64;
    let payload_offset = u32_at(bytes, 284) as u64;
    if header_len < LEGACY_MIN_HEADER_LEN || declared_file_len != file_len {
        return Err(InspectError::InvalidLayout { section: Section::LegacyContainer });
    }
    let metadata_end = checked_range(metadata_offset, metadata_len, file_len, Section::Metadata)?;
    let payload_header_end = checked_range(
        payload_header_offset,
        payload_header_len,
        file_len,
        Section::LegacyPayloadHeader,
    )?;
    if metadata_offset < header_len || metadata_end > payload_header_offset || payload_header_len
        < LEGACY_PAYLOAD_PREFIX_LEN || payload_header_end > payload_offset || payload_offset > file_len {
        return Err(InspectError::InvalidLayout { section: Section::LegacyContainer });
    }
    enforce_metadata_limit(metadata_len, options)?;
    let ph = payload_header_offset as usize;
    let summary = LegacyPayloadSummary {
        game_id: u64_at(bytes, ph),
        game_length_ms: u32_at(bytes, ph + 8),
        keyframe_count: u32_at(bytes, ph + 12),
        chunk_count: u32_at(bytes, ph + 16),
        end_startup_chunk_id: u32_at(bytes, ph + 20),
        start_game_chunk_id: u32_at(bytes, ph + 24),
        keyframe_interval_ms: u32_at(bytes, ph + 28),
        encryption_key_length: u16_at(bytes, ph + 32),
    };
    Ok(
        Container {
            generation: ReplayGeneration::Legacy,
            layout: ReplayLayout {
                file_size: file_len,
                header: ByteRange { offset: 0, length: header_len },
                metadata: ByteRange { offset: metadata_offset, length: metadata_len },
                payload_header: Some(ByteRange { offset: payload_header_offset, length: payload_header_len }),
                payload: ByteRange { offset: payload_offset, length: file_len - payload_offset },
            },
            version: None,
            legacy_payload: Some(summary),
        },
    )
}

#[verifier::loop_isolation(false)]
fn inspect_rofl2(bytes: &[u8], options: &InspectOptions) -> (r: Result<Container, InspectError>)
    requires
        bytes@.len() <= u64::MAX,
    ensures
        r == rofl2_fields_ok(bytes@, options.max_metadata_bytes),
{
    if bytes.len() < 19 {
        return Err(InspectError::Truncated { section: Section::Rofl2Header });
    }
    let file_len = bytes.len() as u64;
    let version_len = bytes[14] as u64;
    let content_offset = ROFL2_VERSION_OFFSET + version_len;
    if content_offset + METADATA_FOOTER_LEN > file_len {
        return Err(InspectError::InvalidLayout { section: Section::Rofl2Header });
    }
    if version_len == 0 {
        return Err(InspectError::InvalidGameVersion);
    }
    let content_end: usize = 15 + bytes[14] as usize;
    let mut i: usize = 15;
    while i < content_end
        invariant
            15 <= i <= content_end,
            content_end == content_offset,
            forall|j: int| 15 <= j < i ==> 0x21 <= #[trigger] bytes@[j] <= 0x7e,
        decreases content_offset - i,
    {
        if bytes[i] < 0x21 || bytes[i] > 0x7e {
            return Err(InspectError::InvalidGameVersion);
        }
        i = i + 1;
    }
    let metadata_len = u32_at(bytes, bytes.len() - 4) as u64;
    enforce_metadata_limit(metadata_len, options)?;
    if file_len - METADATA_FOOTER_LEN < metadata_len || file_len - METADATA_FOOTER_LEN - metadata_len
        < content_offset {
        return Err(InspectError::InvalidLayout { section: Section::Rofl2Metadata });
    }
    let metadata_offset = file_len - METADATA_FOOTER_LEN - metadata_len;
    Ok(
        Container {
            generation: ReplayGeneration::Rofl2,
            layout: ReplayLayout {
                file_size: file_len,
                header: ByteRange { offset: 0, length: content_offset },
                metadata: ByteRange { offset: metadata_offset, length: metadata_len },
                payload_header: None,
                payload: ByteRange { offset: content_offset, length: metadata_offset - content_offset },
            },
            version: Some(ByteRange { offset: 15, length: version_len }),
            legacy_payload: None,
        },
    )
}

/// Inspects the container of a complete replay held in memory: signature, generation,
/// layout and declared metadata size.
pub fn inspect_container(bytes: &[u8], options: &InspectOptions) -> (r: Result<Container, InspectError>)
    requires
        bytes@.len() <= u64::MAX,
    ensures
        r == spec_inspect_container(bytes@, options.max_metadata_bytes),
{
    if bytes.len() < 6 {
        return Err(InspectError::Truncated { section: Section::Signature });
    }
    if !(bytes[0] == 0x52 && bytes[1] == 0x49 && bytes[2] == 0x4f && bytes[3] == 0x54) {
        return Err(InspectError::InvalidSignature);
    }
    if bytes[4] == 0 && bytes[5] == 0 {
        inspect_legacy(bytes, options)
    } else if bytes[4] == 2 && bytes[5] == 0 {
        inspect_rofl2(bytes, options)
    } else {
        Err(InspectError::UnsupportedGeneration { major: bytes[4], minor: bytes[5] })
    }
}

/// The fields of the metadata document that the inspection reads.
pub struct MetadataFields {
    pub game_length_ms: u64,
    /// Present in legacy metadata; ROFL2 containers carry the version in their header.
    pub game_version: Option<String>,
    pub last_game_chunk_id: u32,
    pub last_keyframe_id: u32,
    /// The participants' statistics that the document embeds as `statsJson`, one object each.
    pub participants: Vec<Json>,
}

/// Why the metadata document could not be decoded.
#[derive(Clone, Copy, PartialEq, Eq, Structural, Debug)]
pub enum MetadataProblem {
    /// The document or one of its required fields is malformed.
    Document,
    /// The participant statistics it embeds are malformed.
    Participants,
}

/// What an inspection reports about a replay.
pub struct ReplayInspection {
    pub generation: ReplayGeneration,
    pub game_version: String,
    pub metadata: MetadataFields,
    pub layout: ReplayLayout,
    pub legacy_payload: Option<LegacyPayloadSummary>,
}

/// The characters that ASCII bytes `b[from..to]` spell.
pub open spec fn ascii_text(b: Seq<u8>, from: int, to: int) -> Seq<char> {
    Seq::new((to - from) as nat, |i: int| b[from + i] as char)
}

pub open spec fn problem_error(p: MetadataProblem) -> InspectError {
    match p {
        MetadataProblem::Document => InspectError::InvalidMetadataJson,
        MetadataProblem::Participants => InspectError::InvalidParticipantJson,
    }
}

/// The game version an inspection reports, or why there is none.
pub open spec fn reported_version(b: Seq<u8>, c: Container, m: MetadataFields) -> Option<Seq<char>> {
    match c.version {
        Some(r) => Some(ascii_text(b, r.offset as int, r.offset + r.length)),
        None => match m.game_version {
            Some(v) => if valid_game_version(v@) {
                Some(v@)
            } else {
                None
            },
            None => None,
        },
    }
}

/// The legacy payload header is long enough for the encryption key it declares.
pub open spec fn key_fits(c: Container) -> bool {
    match (c.legacy_payload, c.layout.payload_header) {
        (Some(p), Some(h)) => 34 + p.encryption_key_length <= h.length,
        _ => true,
    }
}

fn ascii_string(bytes: &[u8], from: usize, to: usize) -> (s: String)
    requires
        from <= to <= bytes@.len(),
    ensures
        s@ == ascii_text(bytes@, from as int, to as int),
{
    let mut s = String::new();
    let mut i = from;
    while i < to
        invariant
            from <= i <= to <= bytes@.len(),
            s@ == ascii_text(bytes@, from as int, i as int),
        decreases to - i,
    {
        push_char(&mut s, bytes[i] as char);
        assert(s@ =~= ascii_text(bytes@, from as int, i + 1));
        i = i + 1;
    }
    s
}

/// Completes an inspection from its container part and the decoded metadata document:
/// checks the game version and, for legacy containers, the declared encryption key length.
pub fn finish(bytes: &[u8], options: &InspectOptions, container: Container, decoded: Result<
    MetadataFields,
    MetadataProblem,
>) -> (r: Result<ReplayInspection, InspectError>)
    requires
        spec_inspect_container(bytes@, options.max_metadata_bytes) == Ok::<Container, InspectError>(container),
    ensures
        match decoded {
            Err(p) => r == Err::<ReplayInspection, InspectError>(problem_error(p)),
            Ok(m) => match reported_version(bytes@, container, m) {
                None => r == Err::<ReplayInspection, InspectError>(InspectError::InvalidGameVersion),
                Some(v) => if !key_fits(container) {
                    r == Err::<ReplayInspection, InspectError>(
                        InspectError::InvalidLayout { section: Section::LegacyPayloadHeader },
                    )
                } else {
                    r matches Ok(ins) && ins.generation == container.generation && ins.game_version@
                        == v && ins.metadata == m && ins.layout == container.layout
                        && ins.legacy_payload == container.legacy_payload
                },
            },
        },
{
    let metadata = match decoded {
        Ok(m) => m,
        Err(MetadataProblem::Document) => return Err(InspectError::InvalidMetadataJson),
        Err(MetadataProblem::Participants) => return Err(InspectError::InvalidParticipantJson),
    };
    let game_version = match container.version {
        Some(range) => {
            assert(range.offset + range.length <= bytes@.len());
            ascii_string(bytes, range.offset as usize, (range.offset + range.length) as usize)
        },
        None => match &metadata.game_version {
            Some(v) => {
                if !valid_version_text(v.as_str()) {
                    return Err(InspectError::InvalidGameVersion);
                }
                v.clone()
            },
            None => return Err(InspectError::InvalidGameVersion),
        },
    };
    match (container.legacy_payload, container.layout.payload_header) {
        (Some(p), Some(h)) => {
            if 34 + (p.encryption_key_length as u64) > h.length {
                return Err(InspectError::InvalidLayout { section: Section::LegacyPayloadHeader });
            }
        },
        _ => {},
    }
    Ok(
        ReplayInspection {
            generation: container.generation,
            game_version,
            metadata,
            layout: container.layout,
            legacy_payload: container.legacy_payload,
        },
    )
}

/// Whether a game version text is non-empty and made of visible ASCII characters.
#[verifier::loop_isolation(false)]
pub fn valid_version_text(version: &str) -> (r: bool)
    ensures
        r == valid_game_version(version@),
{
    let chars = crate::text::chars_of(version);
    if chars.len() == 0 {
        return false;
    }
    let mut i: usize = 0;
    while i < chars.len()
        invariant
            i <= chars@.len(),
            forall|j: int| 0 <= j < i ==> '!' <= #[trigger] chars@[j] && chars@[j] <= '~',
        decreases chars.len() - i,
    {
        if chars[i] < '!' || chars[i] > '~' {
            return false;
        }
        i = i + 1;
    }
    true
}

/// The reported sections lie inside the file, in order and without overlap: header, then
/// metadata, then (legacy) the payload header, then the payload running to the end of the
/// file; a ROFL2 container ends with the metadata and its four-byte length.
pub open spec fn layout_sound(c: Container) -> bool {
    let l = c.layout;
    &&& l.header.offset == 0
    &&& match c.generation {
        ReplayGeneration::Legacy => {
            &&& l.header.length <= l.metadata.offset
            &&& l.payload_header matches Some(h) && l.metadata.offset + l.metadata.length <= h.offset
                && h.length >= 34 && h.offset + h.length <= l.payload.offset
            &&& l.payload.offset + l.payload.length == l.file_size
        },
        ReplayGeneration::Rofl2 => {
            &&& l.payload_header is None
            &&& l.payload.offset == l.header.length
            &&& l.payload.offset + l.payload.length == l.metadata.offset
            &&& l.metadata.offset + l.metadata.length + 4 == l.file_size
            &&& c.version matches Some(v) && v.offset == 15 && v.offset + v.length == l.header.length
        },
    }
}

/// Law: a container that inspects successfully has a sound layout over the whole file and
/// declares no more metadata than the limit allows, so nothing larger is ever allocated.
pub proof fn lemma_container_layout(b: Seq<u8>, max: usize)
    requires
        b.len() <= u64::MAX,
        spec_inspect_container(b, max) is Ok,
    ensures
        ({
            let c = spec_inspect_container(b, max)->Ok_0;
            &&& layout_sound(c)
            &&& c.layout.file_size == b.len()
            &&& c.layout.metadata.length <= max
        }),
{
}

/// The layout of a ROFL2 container: a 15-byte header and the version text it declares, then
/// the payload, then the metadata whose length the last four bytes give, then those four
/// bytes. A file shorter than the fixed header is truncated, one whose declared version
/// leaves no room for the footer has an invalid layout, and a declared metadata length above
/// the limit is refused as too large.
pub proof fn lemma_rofl2_layout(b: Seq<u8>, max: usize)
    requires
        6 <= b.len() <= u64::MAX,
        b[0] == 0x52 && b[1] == 0x49 && b[2] == 0x4f && b[3] == 0x54 && b[4] == 2 && b[5] == 0,
    ensures
        b.len() < 19 ==> spec_inspect_container(b, max) == Err::<Container, InspectError>(
            InspectError::Truncated { section: Section::Rofl2Header },
        ),
        b.len() >= 19 && 15 + b[14] + 4 > b.len() ==> spec_inspect_container(b, max) == Err::<Container, InspectError>(
            InspectError::InvalidLayout { section: Section::Rofl2Header },
        ),
        b.len() >= 19 && 15 + b[14] + 4 <= b.len() && b[14] > 0
            && (forall|i: int| 15 <= i < 15 + b[14] ==> 0x21 <= #[trigger] b[i] <= 0x7e)
            && le32(b, b.len() - 4) > max ==> spec_inspect_container(b, max) == Err::<Container, InspectError>(
            InspectError::MetadataTooLarge { declared: le32(b, b.len() - 4) as u64, limit: max },
        ),
        spec_inspect_container(b, max) matches Ok(c) ==> {
            let l = c.layout;
            &&& l.header.offset == 0 && l.header.length == 15 + b[14]
            &&& l.payload.offset == l.header.length
            &&& l.payload.offset + l.payload.length == l.metadata.offset
            &&& l.metadata.length == le32(b, b.len() - 4)
            &&& l.metadata.offset + l.metadata.length + 4 == l.file_size
            &&& l.file_size == b.len()
            &&& c.legacy_payload is None
        },
{
}

/// The unsigned number that the `n` bytes of `b` from `o` on spell, least significant first.
pub open spec fn bytes_le(b: Seq<u8>, o: int, n: nat) -> int
    decreases n,
{
    if n == 0 {
        0
    } else {
        b[o] as int + 256 * bytes_le(b, o + 1, (n - 1) as nat)
    }
}

proof fn lemma_le_widths(b: Seq<u8>, o: int)
    ensures
        le16(b, o) == bytes_le(b, o, 2),
        le32(b, o) == bytes_le(b, o, 4),
        le64(b, o) == bytes_le(b, o, 8),
{
    reveal_with_fuel(bytes_le, 9);
}

/// Law: the payload header summary of a legacy replay reads each field at its own place in
/// the payload header, least significant byte first: the game id in bytes 0 to 7, the game
/// length in 8 to 11, the keyframe count in 12 to 15, the chunk count in 16 to 19, the last
/// start-up chunk in 20 to 23, the first game chunk in 24 to 27, the keyframe interval in 28
/// to 31 and the encryption key length in 32 and 33, all inside the header.
pub proof fn lemma_legacy_payload_fields(b: Seq<u8>, max: usize)
    requires
        b.len() <= u64::MAX,
        spec_inspect_container(b, max) matches Ok(c) && c.generation == ReplayGeneration::Legacy,
    ensures
        ({
            let c = spec_inspect_container(b, max)->Ok_0;
            &&& c.layout.payload_header matches Some(h) && h.length >= 34 && h.offset + h.length <= b.len()
            &&& c.legacy_payload matches Some(p) && {
                let o = c.layout.payload_header->0.offset as int;
                &&& p.game_id == bytes_le(b, o, 8)
                &&& p.game_length_ms == bytes_le(b, o + 8, 4)
                &&& p.keyframe_count == bytes_le(b, o + 12, 4)
                &&& p.chunk_count == bytes_le(b, o + 16, 4)
                &&& p.end_startup_chunk_id == bytes_le(b, o + 20, 4)
                &&& p.start_game_chunk_id == bytes_le(b, o + 24, 4)
                &&& p.keyframe_interval_ms == bytes_le(b, o + 28, 4)
                &&& p.encryption_key_length == bytes_le(b, o + 32, 2)
            }
        }),
{
    let o = le32(b, 276);
    lemma_le_widths(b, o);
    lemma_le_widths(b, o + 8);
    lemma_le_widths(b, o + 12);
    lemma_le_widths(b, o + 16);
    lemma_le_widths(b, o + 20);
    lemma_le_widths(b, o + 24);
    lemma_le_widths(b, o + 28);
    lemma_le_widths(b, o + 32);
}

} // verus!
