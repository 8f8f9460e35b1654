//! Grid resources: formats, errors, resource naming, the integer framing
//! of NTv2, GTX and GeoTIFF grid files, and the choice of nested subgrid.
//!
//! Floating-point header fields are read here as their raw IEEE-754 bit
//! patterns; the arithmetic on them stays with the caller.

use vstd::prelude::*;
use geotiff_reader::{GeoTiffFile, GeoTiffOpenOptions};
use tiff_core::Tag;
use crate::operation::GridId;
use crate::registry_format::{is_positive_finite_bits, le_u32, le_u64};
use crate::text::{
    append_decimal, append_str, chars_of, decimal, eq_ignore_ascii_case,
    eq_ignore_ascii_case_spec, from_utf8_lossy, push_char, same_text, str_trim, trim, utf8_lossy,
};
use crate::registry_build::{contains_text, le_bytes_u64, push_bytes};
use crate::registry_encode::{le_bytes_u32, lemma_le_u32_window, lemma_le_u64_window};

verus! {

pub const NTV2_HEADER_LEN: usize = 176;
pub const NTV2_RECORD_LEN: usize = 16;
pub const MAX_NTV2_SUBFILES: usize = 4096;
pub const MAX_NTV2_CELLS_PER_SUBGRID: usize = 16_777_216;
pub const MAX_NTV2_TOTAL_CELLS: usize = 16_777_216;
/// `MAX_NTV2_TOTAL_CELLS * NTV2_RECORD_LEN`.
pub const MAX_NTV2_TOTAL_DATA_BYTES: usize = 268_435_456;
/// `MAX_NTV2_TOTAL_DATA_BYTES + (MAX_NTV2_SUBFILES + 1) * NTV2_HEADER_LEN`.
pub const MAX_NTV2_GRID_BYTES: usize = 269_156_528;
pub const GTX_HEADER_LEN: usize = 40;
pub const GTX_RECORD_LEN: usize = 4;
pub const MAX_GTX_CELLS: usize = 16_777_216;
/// `GTX_HEADER_LEN + MAX_GTX_CELLS * GTX_RECORD_LEN`.
pub const MAX_GTX_GRID_BYTES: usize = 67_108_904;
/// Upper bound on an accepted GeoTIFF grid resource (256 MiB).
pub const MAX_GEOTIFF_GRID_BYTES: usize = 268_435_456;
pub const MAX_GEOTIFF_IFDS: usize = 4096;
pub const MAX_GEOTIFF_CELLS_PER_IMAGE: usize = 16_777_216;
pub const MAX_GEOTIFF_TOTAL_CELLS: usize = 16_777_216;
pub const MAX_GEOTIFF_BANDS: usize = 4;

/// On-disk format of a grid resource.
#[derive(Debug, Clone, Copy, PartialEq, Eq, Hash, Structural)]
pub enum GridFormat {
    /// NTv2 horizontal datum-shift grid (`.gsb`).
    Ntv2,
    /// NOAA/VDatum binary GTX vertical offset grid (`.gtx`).
    Gtx,
    /// PROJ-format GeoTIFF/COG grid (`.tif`), as distributed on the PROJ CDN.
    GeoTiff,
    Unsupported,
}

/// The name of a format as `{:?}` prints it.
pub open spec fn format_name(f: GridFormat) -> Seq<char> {
    match f {
        GridFormat::Ntv2 => seq!['N', 't', 'v', '2'],
        GridFormat::Gtx => seq!['G', 't', 'x'],
        GridFormat::GeoTiff => seq!['G', 'e', 'o', 'T', 'i', 'f', 'f'],
        GridFormat::Unsupported => seq!['U', 'n', 's', 'u', 'p', 'p', 'o', 'r', 't', 'e', 'd'],
    }
}

impl GridFormat {
    /// The variant's name, as `{:?}` prints it.
    pub fn name(&self) -> (r: &'static str)
        ensures
            r@ == format_name(*self),
    {
        match self {
            GridFormat::Ntv2 => {
                let r = "Ntv2";
                proof {
                    reveal_strlit("Ntv2");
                }
                r
            },
            GridFormat::Gtx => {
                let r = "Gtx";
                proof {
                    reveal_strlit("Gtx");
                }
                r
            },
            GridFormat::GeoTiff => {
                let r = "GeoTiff";
                proof {
                    reveal_strlit("GeoTiff");
                }
                r
            },
            GridFormat::Unsupported => {
                let r = "Unsupported";
                proof {
                    reveal_strlit("Unsupported");
                }
                r
            },
        }
    }
}

/// Why a grid could not be found, loaded, parsed or sampled.
#[derive(Debug, Clone)]
pub enum GridError {
    NotFound(String),
    Unavailable(String),
    Parse(String),
    OutsideCoverage(String),
    UnsupportedFormat(String),
}

/// A grid error with its message as characters.
pub enum GridErrorModel {
    NotFound(Seq<char>),
    Unavailable(Seq<char>),
    Parse(Seq<char>),
    OutsideCoverage(Seq<char>),
    UnsupportedFormat(Seq<char>),
}

impl View for GridError {
    type V = GridErrorModel;

    open spec fn view(&self) -> GridErrorModel {
        match self {
            GridError::NotFound(m) => GridErrorModel::NotFound(m@),
            GridError::Unavailable(m) => GridErrorModel::Unavailable(m@),
            GridError::Parse(m) => GridErrorModel::Parse(m@),
            GridError::OutsideCoverage(m) => GridErrorModel::OutsideCoverage(m@),
            GridError::UnsupportedFormat(m) => GridErrorModel::UnsupportedFormat(m@),
        }
    }
}

/// The text a grid error displays: a prefix naming its kind, then its
/// message.
pub open spec fn grid_error_text(e: GridErrorModel) -> Seq<char> {
    match e {
        GridErrorModel::NotFound(m) => "grid not found: "@ + m,
        GridErrorModel::Unavailable(m) => "grid resource unavailable: "@ + m,
        GridErrorModel::Parse(m) => "grid parse error: "@ + m,
        GridErrorModel::OutsideCoverage(m) => "grid point outside coverage: "@ + m,
        GridErrorModel::UnsupportedFormat(m) => "unsupported grid format: "@ + m,
    }
}

impl GridError {
    /// The error as displayed text.
    pub fn message(&self) -> (r: String)
        ensures
            r@ == grid_error_text(self@),
    {
        let (prefix, m) = match self {
            GridError::NotFound(m) => ("grid not found: ", m),
            GridError::Unavailable(m) => ("grid resource unavailable: ", m),
            GridError::Parse(m) => ("grid parse error: ", m),
            GridError::OutsideCoverage(m) => ("grid point outside coverage: ", m),
            GridError::UnsupportedFormat(m) => ("unsupported grid format: ", m),
        };
        let mut r = prefix.to_owned();
        append_str(&mut r, m.as_str());
        r
    }
}

/// The view of a result whose error is a grid error.
pub open spec fn grid_result<T>(r: Result<T, GridError>) -> Result<T, GridErrorModel> {
    match r {
        Ok(v) => Ok(v),
        Err(e) => Err(e@),
    }
}

/// A parse error carrying `m`.
pub open spec fn parse_error<T>(m: Seq<char>) -> Result<T, GridErrorModel> {
    Err(GridErrorModel::Parse(m))
}

fn parse_err<T>(m: &str) -> (r: Result<T, GridError>)
    ensures
        grid_result(r) == parse_error::<T>(m@),
{
    Err(GridError::Parse(m.to_owned()))
}

// ---------------------------------------------------------------------------
// Resource size limits
// ---------------------------------------------------------------------------

pub open spec fn max_grid_bytes_spec(format: GridFormat) -> Option<usize> {
    match format {
        GridFormat::Ntv2 => Some(MAX_NTV2_GRID_BYTES),
        GridFormat::Gtx => Some(MAX_GTX_GRID_BYTES),
        GridFormat::GeoTiff => Some(MAX_GEOTIFF_GRID_BYTES),
        GridFormat::Unsupported => None,
    }
}

/// The largest resource, in bytes, accepted for a format; none for an
/// unsupported format.
pub fn max_grid_resource_bytes(format: GridFormat) -> (r: Option<usize>)
    ensures
        r == max_grid_bytes_spec(format),
{
    match format {
        GridFormat::Ntv2 => Some(MAX_NTV2_GRID_BYTES),
        GridFormat::Gtx => Some(MAX_GTX_GRID_BYTES),
        GridFormat::GeoTiff => Some(MAX_GEOTIFF_GRID_BYTES),
        GridFormat::Unsupported => None,
    }
}

/// The message for a resource over its format's size limit.
pub open spec fn oversize_message(resource: Seq<char>, format: GridFormat, max: nat) -> Seq<char> {
    resource + " exceeds maximum "@ + format_name(format) + " grid size of "@ + decimal(max)
        + " bytes"@
}

/// Accepts a resource of `len` bytes unless its format has a size limit
/// that `len` exceeds.
pub fn validate_grid_resource_size(resource: &str, format: GridFormat, len: u64) -> (r: Result<
    (),
    GridError,
>)
    ensures
        grid_result(r) == (match max_grid_bytes_spec(format) {
            Some(max) => if len > max {
                parse_error::<()>(oversize_message(resource@, format, max as nat))
            } else {
                Ok(())
            },
            None => Ok(()),
        }),
{
    if let Some(max_bytes) = max_grid_resource_bytes(format) {
        let max_u64 = max_bytes as u64;
        if len > max_u64 {
            let mut m = resource.to_owned();
            append_str(&mut m, " exceeds maximum ");
            append_str(&mut m, format.name());
            append_str(&mut m, " grid size of ");
            append_decimal(&mut m, max_u64);
            append_str(&mut m, " bytes");
            return Err(GridError::Parse(m));
        }
    }
    Ok(())
}

// ---------------------------------------------------------------------------
// Byte-order aware readers
// ---------------------------------------------------------------------------

/// Byte order of a grid file's binary fields.
#[derive(Debug, Clone, Copy, PartialEq, Eq, Structural)]
pub enum Endian {
    Little,
    Big,
}

pub open spec fn be_u32(d: Seq<u8>, o: int) -> u32 {
    ((d[o] as u32) << 24u32) | ((d[o + 1] as u32) << 16u32) | ((d[o + 2] as u32) << 8u32) | (d[o
        + 3] as u32)
}

pub open spec fn be_u64(d: Seq<u8>, o: int) -> u64 {
    ((d[o] as u64) << 56u64) | ((d[o + 1] as u64) << 48u64) | ((d[o + 2] as u64) << 40u64) | ((d[o
        + 3] as u64) << 32u64) | ((d[o + 4] as u64) << 24u64) | ((d[o + 5] as u64) << 16u64) | ((d[o
        + 6] as u64) << 8u64) | (d[o + 7] as u64)
}

/// The 32-bit word at `o` in byte order `e`.
pub open spec fn u32_at(d: Seq<u8>, o: int, e: Endian) -> u32 {
    match e {
        Endian::Little => le_u32(d, o),
        Endian::Big => be_u32(d, o),
    }
}

/// The 64-bit word at `o` in byte order `e`.
pub open spec fn u64_at(d: Seq<u8>, o: int, e: Endian) -> u64 {
    match e {
        Endian::Little => le_u64(d, o),
        Endian::Big => be_u64(d, o),
    }
}

fn word32(bytes: &[u8], offset: usize, endian: Endian) -> (r: u32)
    requires
        offset + 4 <= bytes@.len(),
    ensures
        r == u32_at(bytes@, offset as int, endian),
{
    match endian {
        Endian::Little => (bytes[offset] as u32) | ((bytes[offset + 1] as u32) << 8u32) | ((
        bytes[offset + 2] as u32) << 16u32) | ((bytes[offset + 3] as u32) << 24u32),
        Endian::Big => ((bytes[offset] as u32) << 24u32) | ((bytes[offset + 1] as u32) << 16u32)
            | ((bytes[offset + 2] as u32) << 8u32) | (bytes[offset + 3] as u32),
    }
}

fn word64(bytes: &[u8], offset: usize, endian: Endian) -> (r: u64)
    requires
        offset + 8 <= bytes@.len(),
    ensures
        r == u64_at(bytes@, offset as int, endian),
{
    match endian {
        Endian::Little => (bytes[offset] as u64) | ((bytes[offset + 1] as u64) << 8u64) | ((
        bytes[offset + 2] as u64) << 16u64) | ((bytes[offset + 3] as u64) << 24u64) | ((
        bytes[offset + 4] as u64) << 32u64) | ((bytes[offset + 5] as u64) << 40u64) | ((
        bytes[offset + 6] as u64) << 48u64) | ((bytes[offset + 7] as u64) << 56u64),
        Endian::Big => ((bytes[offset] as u64) << 56u64) | ((bytes[offset + 1] as u64) << 48u64)
            | ((bytes[offset + 2] as u64) << 40u64) | ((bytes[offset + 3] as u64) << 32u64) | ((
        bytes[offset + 4] as u64) << 24u64) | ((bytes[offset + 5] as u64) << 16u64) | ((
        bytes[offset + 6] as u64) << 8u64) | (bytes[offset + 7] as u64),
    }
}

/// A field of `width` bytes at `offset` of a `len`-byte buffer: the value
/// `word`, or the overflow or truncation error.
pub open spec fn field_spec<T>(
    len: nat,
    offset: usize,
    width: nat,
    overflow: Seq<char>,
    truncated: Seq<char>,
    word: T,
) -> Result<T, GridErrorModel> {
    if offset + width > usize::MAX {
        parse_error(overflow)
    } else if offset + width > len {
        parse_error(truncated)
    } else {
        Ok(word)
    }
}

/// Reads an unsigned 32-bit integer.
pub fn read_u32(bytes: &[u8], offset: usize, endian: Endian) -> (r: Result<u32, GridError>)
    ensures
        grid_result(r) == field_spec(
            bytes@.len(),
            offset,
            4,
            "integer offset overflow"@,
            "truncated integer"@,
            u32_at(bytes@, offset as int, endian),
        ),
{
    if offset > usize::MAX - 4 {
        return parse_err("integer offset overflow");
    }
    if offset + 4 > bytes.len() {
        return parse_err("truncated integer");
    }
    Ok(word32(bytes, offset, endian))
}

/// Reads a signed 32-bit integer.
pub fn read_i32(bytes: &[u8], offset: usize, endian: Endian) -> (r: Result<i32, GridError>)
    ensures
        grid_result(r) == field_spec(
            bytes@.len(),
            offset,
            4,
            "integer offset overflow"@,
            "truncated integer"@,
            u32_at(bytes@, offset as int, endian) as i32,
        ),
{
    if offset > usize::MAX - 4 {
        return parse_err("integer offset overflow");
    }
    if offset + 4 > bytes.len() {
        return parse_err("truncated integer");
    }
    let w = word32(bytes, offset, endian);
    Ok(w as i32)
}

/// Reads the raw bits of a 64-bit float.
pub fn read_f64_bits(bytes: &[u8], offset: usize, endian: Endian) -> (r: Result<u64, GridError>)
    ensures
        grid_result(r) == field_spec(
            bytes@.len(),
            offset,
            8,
            "float64 offset overflow"@,
            "truncated float64"@,
            u64_at(bytes@, offset as int, endian),
        ),
{
    if offset > usize::MAX - 8 {
        return parse_err("float64 offset overflow");
    }
    if offset + 8 > bytes.len() {
        return parse_err("truncated float64");
    }
    Ok(word64(bytes, offset, endian))
}

/// Reads the raw bits of a 32-bit float.
pub fn read_f32_bits(bytes: &[u8], offset: usize, endian: Endian) -> (r: Result<u32, GridError>)
    ensures
        grid_result(r) == field_spec(
            bytes@.len(),
            offset,
            4,
            "float32 offset overflow"@,
            "truncated float32"@,
            u32_at(bytes@, offset as int, endian),
        ),
{
    if offset > usize::MAX - 4 {
        return parse_err("float32 offset overflow");
    }
    if offset + 4 > bytes.len() {
        return parse_err("truncated float32");
    }
    Ok(word32(bytes, offset, endian))
}

// ---------------------------------------------------------------------------
// Labels
// ---------------------------------------------------------------------------

/// The length of the prefix of `b` before its first zero byte.
pub open spec fn until_nul(b: Seq<u8>) -> nat
    decreases b.len(),
{
    if b.len() == 0 {
        0
    } else if b[0] == 0 {
        0
    } else {
        1 + until_nul(b.drop_first())
    }
}

/// A fixed-width label: the bytes before the first zero, decoded as UTF-8
/// and trimmed of white space.
pub open spec fn label_spec(b: Seq<u8>) -> Seq<char> {
    str_trim(utf8_lossy(b.take(until_nul(b) as int)))
}

fn nul_position(bytes: &[u8]) -> (r: usize)
    ensures
        r == until_nul(bytes@),
        r <= bytes@.len(),
{
    let mut i: usize = 0;
    assert(bytes@.skip(0) =~= bytes@);
    while i < bytes.len() && bytes[i] != 0
        invariant
            i <= bytes@.len(),
            until_nul(bytes@) == i + until_nul(bytes@.skip(i as int)),
        decreases bytes.len() - i,
    {
        assert(bytes@.skip(i as int).drop_first() =~= bytes@.skip(i + 1));
        i = i + 1;
    }
    if i < bytes.len() {
        assert(bytes@.skip(i as int)[0] == 0);
    } else {
        assert(bytes@.skip(i as int).len() == 0);
    }
    assert(bytes@.skip(0) =~= bytes@);
    i
}

/// Decodes a fixed-width label field.
pub fn parse_label(bytes: &[u8]) -> (r: String)
    ensures
        r@ == label_spec(bytes@),
{
    let end = nul_position(bytes);
    let prefix = slice_prefix(bytes, end);
    let text = from_utf8_lossy(prefix.as_slice());
    trim(text.as_str())
}

fn slice_prefix(bytes: &[u8], end: usize) -> (r: Vec<u8>)
    requires
        end <= bytes@.len(),
    ensures
        r@ == bytes@.take(end as int),
{
    let mut r: Vec<u8> = Vec::new();
    let mut i: usize = 0;
    while i < end
        invariant
            i <= end,
            end <= bytes@.len(),
            r@ == bytes@.take(i as int),
        decreases end - i,
    {
        r.push(bytes[i]);
        assert(r@ =~= bytes@.take(i + 1));
        i = i + 1;
    }
    r
}

// ---------------------------------------------------------------------------
// NTv2 framing
// ---------------------------------------------------------------------------

/// The byte order an NTv2 file declares: the word at offset 8 reads 11.
pub open spec fn ntv2_endian_spec(d: Seq<u8>) -> Option<Endian> {
    if le_u32(d, 8) == 11 {
        Some(Endian::Little)
    } else if be_u32(d, 8) == 11 {
        Some(Endian::Big)
    } else {
        None
    }
}

/// The `GS_TYPE` value `SECONDS` at offset 56.
pub open spec fn has_seconds_tag(d: Seq<u8>) -> bool {
    d.subrange(56, 63) == seq![0x53u8, 0x45u8, 0x43u8, 0x4fu8, 0x4eu8, 0x44u8, 0x53u8]
}

/// The byte order and subfile count of an NTv2 file, or why its overview
/// header is rejected.
pub open spec fn ntv2_overview_spec(d: Seq<u8>) -> Result<(Endian, usize), GridErrorModel> {
    if d.len() < NTV2_HEADER_LEN {
        parse_error("NTv2 file too small"@)
    } else if d.len() > MAX_NTV2_GRID_BYTES {
        parse_error(
            "NTv2 grid exceeds maximum size of "@ + decimal(MAX_NTV2_GRID_BYTES as nat) + " bytes"@,
        )
    } else {
        match ntv2_endian_spec(d) {
            None => parse_error("invalid NTv2 header endianness marker"@),
            Some(e) => if !has_seconds_tag(d) {
                parse_error("only NTv2 GS_TYPE=SECONDS is supported"@)
            } else {
                let n = u32_at(d, 40, e);
                if n == 0 || n > MAX_NTV2_SUBFILES {
                    parse_error(
                        "NTv2 subfile count "@ + decimal(n as nat) + " exceeds limit "@ + decimal(
                            MAX_NTV2_SUBFILES as nat,
                        ),
                    )
                } else {
                    Ok((e, n as usize))
                }
            },
        }
    }
}

fn bytes_match(bytes: &[u8], offset: usize, expected: &[u8]) -> (r: bool)
    requires
        offset + expected@.len() <= bytes@.len(),
    ensures
        r == (bytes@.subrange(offset as int, offset + expected@.len()) == expected@),
{
    let n = bytes.len();
    let mut i: usize = 0;
    while i < expected.len()
        invariant
            i <= expected@.len(),
            n == bytes@.len(),
            offset + expected@.len() <= bytes@.len(),
            forall|k: int| 0 <= k < i ==> bytes@[offset + k] == expected@[k],
        decreases expected.len() - i,
    {
        if bytes[offset + i] != expected[i] {
            assert(bytes@.subrange(offset as int, offset + expected@.len())[i as int]
                != expected@[i as int]);
            return false;
        }
        i = i + 1;
    }
    assert(bytes@.subrange(offset as int, offset + expected@.len()) =~= expected@);
    true
}

/// Reads the overview header of an NTv2 file: its byte order and the number
/// of subfiles it declares.
pub fn ntv2_overview(bytes: &[u8]) -> (r: Result<(Endian, usize), GridError>)
    ensures
        grid_result(r) == ntv2_overview_spec(bytes@),
{
    if bytes.len() < NTV2_HEADER_LEN {
        return parse_err("NTv2 file too small");
    }
    if bytes.len() > MAX_NTV2_GRID_BYTES {
        let mut m = "NTv2 grid exceeds maximum size of ".to_owned();
        append_decimal(&mut m, MAX_NTV2_GRID_BYTES as u64);
        append_str(&mut m, " bytes");
        return Err(GridError::Parse(m));
    }
    let endian = if word32(bytes, 8, Endian::Little) == 11 {
        Endian::Little
    } else if word32(bytes, 8, Endian::Big) == 11 {
        Endian::Big
    } else {
        return parse_err("invalid NTv2 header endianness marker");
    };
    let seconds: [u8; 7] = [0x53u8, 0x45u8, 0x43u8, 0x4fu8, 0x4eu8, 0x44u8, 0x53u8];
    assert(seconds@ == seq![0x53u8, 0x45u8, 0x43u8, 0x4fu8, 0x4eu8, 0x44u8, 0x53u8]);
    if !bytes_match(bytes, 56, seconds.as_slice()) {
        return parse_err("only NTv2 GS_TYPE=SECONDS is supported");
    }
    let n = word32(bytes, 40, endian);
    if n == 0 || n as usize > MAX_NTV2_SUBFILES {
        let mut m = "NTv2 subfile count ".to_owned();
        append_decimal(&mut m, n as u64);
        append_str(&mut m, " exceeds limit ");
        append_decimal(&mut m, MAX_NTV2_SUBFILES as u64);
        return Err(GridError::Parse(m));
    }
    Ok((endian, n as usize))
}

/// The header of one NTv2 subfile. The georeferencing fields are the raw
/// bits of the file's `f64` values, in arc-seconds with west positive.
#[derive(Debug)]
pub struct Ntv2SubfileHeader {
    pub name: String,
    pub parent: String,
    pub south_bits: u64,
    pub north_bits: u64,
    pub east_bits: u64,
    pub west_bits: u64,
    pub lat_increment_bits: u64,
    pub lon_increment_bits: u64,
    /// The number of grid nodes the subfile declares (`GS_COUNT`).
    pub gs_count: usize,
    /// The offset just past the header, where the node records start.
    pub header_end: usize,
}

pub struct Ntv2SubfileModel {
    pub name: Seq<char>,
    pub parent: Seq<char>,
    pub south_bits: u64,
    pub north_bits: u64,
    pub east_bits: u64,
    pub west_bits: u64,
    pub lat_increment_bits: u64,
    pub lon_increment_bits: u64,
    pub gs_count: usize,
    pub header_end: usize,
}

impl View for Ntv2SubfileHeader {
    type V = Ntv2SubfileModel;

    open spec fn view(&self) -> Ntv2SubfileModel {
        Ntv2SubfileModel {
            name: self.name@,
            parent: self.parent@,
            south_bits: self.south_bits,
            north_bits: self.north_bits,
            east_bits: self.east_bits,
            west_bits: self.west_bits,
            lat_increment_bits: self.lat_increment_bits,
            lon_increment_bits: self.lon_increment_bits,
            gs_count: self.gs_count,
            header_end: self.header_end,
        }
    }
}

/// The tag `SUB_NAME` that opens a subfile header.
pub open spec fn sub_name_tag() -> Seq<u8> {
    seq![0x53u8, 0x55u8, 0x42u8, 0x5fu8, 0x4eu8, 0x41u8, 0x4du8, 0x45u8]
}

/// The subfile header at `o`, or why it is rejected.
pub open spec fn ntv2_subfile_spec(d: Seq<u8>, o: usize, e: Endian) -> Result<
    Ntv2SubfileModel,
    GridErrorModel,
> {
    if o + NTV2_HEADER_LEN > usize::MAX {
        parse_error("NTv2 header offset overflow"@)
    } else if o + NTV2_HEADER_LEN > d.len() {
        parse_error("truncated NTv2 subfile header"@)
    } else if d.subrange(o as int, o + 8) != sub_name_tag() {
        parse_error("invalid NTv2 subfile header tag"@)
    } else {
        Ok(
            Ntv2SubfileModel {
                name: label_spec(d.subrange(o + 8, o + 16)),
                parent: label_spec(d.subrange(o + 24, o + 32)),
                south_bits: u64_at(d, o + 72, e),
                north_bits: u64_at(d, o + 88, e),
                east_bits: u64_at(d, o + 104, e),
                west_bits: u64_at(d, o + 120, e),
                lat_increment_bits: u64_at(d, o + 136, e),
                lon_increment_bits: u64_at(d, o + 152, e),
                gs_count: u32_at(d, o + 168, e) as usize,
                header_end: (o + NTV2_HEADER_LEN) as usize,
            },
        )
    }
}

fn sub_bytes(bytes: &[u8], start: usize, end: usize) -> (r: Vec<u8>)
    requires
        start <= end <= bytes@.len(),
    ensures
        r@ == bytes@.subrange(start as int, end as int),
{
    let mut r: Vec<u8> = Vec::new();
    let mut i: usize = start;
    while i < end
        invariant
            start <= i <= end,
            end <= bytes@.len(),
            r@ == bytes@.subrange(start as int, i as int),
        decreases end - i,
    {
        r.push(bytes[i]);
        assert(r@ =~= bytes@.subrange(start as int, i + 1));
        i = i + 1;
    }
    r
}

/// Reads the subfile header at `offset`.
pub fn ntv2_subfile_header(bytes: &[u8], offset: usize, endian: Endian) -> (r: Result<
    Ntv2SubfileHeader,
    GridError,
>)
    ensures
        match r {
            Ok(h) => ntv2_subfile_spec(bytes@, offset, endian) == Ok::<
                Ntv2SubfileModel,
                GridErrorModel,
            >(h@),
            Err(e) => ntv2_subfile_spec(bytes@, offset, endian) == Err::<
                Ntv2SubfileModel,
                GridErrorModel,
            >(e@),
        },
{
    if offset > usize::MAX - NTV2_HEADER_LEN {
        return Err(GridError::Parse("NTv2 header offset overflow".to_owned()));
    }
    let header_end = offset + NTV2_HEADER_LEN;
    if header_end > bytes.len() {
        return Err(GridError::Parse("truncated NTv2 subfile header".to_owned()));
    }
    let tag: [u8; 8] = [0x53u8, 0x55u8, 0x42u8, 0x5fu8, 0x4eu8, 0x41u8, 0x4du8, 0x45u8];
    assert(tag@ == sub_name_tag());
    if !bytes_match(bytes, offset, tag.as_slice()) {
        return Err(GridError::Parse("invalid NTv2 subfile header tag".to_owned()));
    }
    let name_bytes = sub_bytes(bytes, offset + 8, offset + 16);
    let parent_bytes = sub_bytes(bytes, offset + 24, offset + 32);
    let h = Ntv2SubfileHeader {
        name: parse_label(name_bytes.as_slice()),
        parent: parse_label(parent_bytes.as_slice()),
        south_bits: word64(bytes, offset + 72, endian),
        north_bits: word64(bytes, offset + 88, endian),
        east_bits: word64(bytes, offset + 104, endian),
        west_bits: word64(bytes, offset + 120, endian),
        lat_increment_bits: word64(bytes, offset + 136, endian),
        lon_increment_bits: word64(bytes, offset + 152, endian),
        gs_count: word32(bytes, offset + 168, endian) as usize,
        header_end,
    };
    Ok(h)
}

/// Running totals over the subgrids read so far.
#[derive(Debug, Clone, Copy, PartialEq, Eq, Structural)]
pub struct Ntv2Totals {
    pub cells: usize,
    pub data_bytes: usize,
}

/// Checks one subgrid's node count against its derived dimensions and the
/// file's limits, and finds where its node records end; or why it is
/// rejected.
pub open spec fn ntv2_subgrid_spec(
    t: Ntv2Totals,
    name: Seq<char>,
    width: usize,
    height: usize,
    gs_count: usize,
    header_end: usize,
    len: nat,
) -> Result<(Ntv2Totals, usize), GridErrorModel> {
    let derived = width * height;
    let cells = t.cells + gs_count;
    let data_len = gs_count * NTV2_RECORD_LEN;
    let data_bytes = t.data_bytes + data_len;
    let data_end = header_end + data_len;
    if derived > usize::MAX {
        parse_error("NTv2 cell count overflow"@)
    } else if derived > MAX_NTV2_CELLS_PER_SUBGRID {
        parse_error(
            "NTv2 subgrid "@ + name + " has "@ + decimal(derived as nat) + " cells, exceeding limit "@
                + decimal(MAX_NTV2_CELLS_PER_SUBGRID as nat),
        )
    } else if derived != gs_count {
        parse_error(
            "NTv2 subgrid "@ + name + " cell count mismatch: expected "@ + decimal(derived as nat)
                + " got "@ + decimal(gs_count as nat),
        )
    } else if cells > usize::MAX {
        parse_error("NTv2 total cell count overflow"@)
    } else if cells > MAX_NTV2_TOTAL_CELLS {
        parse_error(
            "NTv2 total cell count "@ + decimal(cells as nat) + " exceeds limit "@ + decimal(
                MAX_NTV2_TOTAL_CELLS as nat,
            ),
        )
    } else if data_len > usize::MAX {
        parse_error("NTv2 data size overflow"@)
    } else if data_bytes > usize::MAX {
        parse_error("NTv2 total data size overflow"@)
    } else if data_bytes > MAX_NTV2_TOTAL_DATA_BYTES {
        parse_error(
            "NTv2 data size "@ + decimal(data_bytes as nat) + " exceeds limit "@ + decimal(
                MAX_NTV2_TOTAL_DATA_BYTES as nat,
            ),
        )
    } else if data_end > usize::MAX {
        parse_error("NTv2 data offset overflow"@)
    } else if data_end > len {
        parse_error("truncated NTv2 data for subgrid "@ + name)
    } else {
        Ok(
            (
                Ntv2Totals { cells: cells as usize, data_bytes: data_bytes as usize },
                data_end as usize,
            ),
        )
    }
}

/// Accounts for one subgrid of `width` by `height` nodes whose header ends
/// at `header_end` in a file of `len` bytes. On success the totals take the
/// subgrid in and the offset where its node records end is returned; on
/// failure the totals are unchanged.
pub fn ntv2_account_subgrid(
    totals: &mut Ntv2Totals,
    name: &str,
    width: usize,
    height: usize,
    gs_count: usize,
    header_end: usize,
    len: usize,
) -> (r: Result<usize, GridError>)
    ensures
        match ntv2_subgrid_spec(*old(totals), name@, width, height, gs_count, header_end, len as nat) {
            Ok((t, end)) => r matches Ok(e) && e == end && *final(totals) == t,
            Err(m) => grid_result(r) == Err::<usize, GridErrorModel>(m) && *final(totals) == *old(
                totals,
            ),
        },
{
    let derived = match width.checked_mul(height) {
        Some(v) => v,
        None => return parse_err("NTv2 cell count overflow"),
    };
    if derived > MAX_NTV2_CELLS_PER_SUBGRID {
        let mut m = "NTv2 subgrid ".to_owned();
        append_str(&mut m, name);
        append_str(&mut m, " has ");
        append_decimal(&mut m, derived as u64);
        append_str(&mut m, " cells, exceeding limit ");
        append_decimal(&mut m, MAX_NTV2_CELLS_PER_SUBGRID as u64);
        return Err(GridError::Parse(m));
    }
    if derived != gs_count {
        let mut m = "NTv2 subgrid ".to_owned();
        append_str(&mut m, name);
        append_str(&mut m, " cell count mismatch: expected ");
        append_decimal(&mut m, derived as u64);
        append_str(&mut m, " got ");
        append_decimal(&mut m, gs_count as u64);
        return Err(GridError::Parse(m));
    }
    let cells = match totals.cells.checked_add(gs_count) {
        Some(v) => v,
        None => return parse_err("NTv2 total cell count overflow"),
    };
    if cells > MAX_NTV2_TOTAL_CELLS {
        let mut m = "NTv2 total cell count ".to_owned();
        append_decimal(&mut m, cells as u64);
        append_str(&mut m, " exceeds limit ");
        append_decimal(&mut m, MAX_NTV2_TOTAL_CELLS as u64);
        return Err(GridError::Parse(m));
    }
    let data_len = match gs_count.checked_mul(NTV2_RECORD_LEN) {
        Some(v) => v,
        None => return parse_err("NTv2 data size overflow"),
    };
    let data_bytes = match totals.data_bytes.checked_add(data_len) {
        Some(v) => v,
        None => return parse_err("NTv2 total data size overflow"),
    };
    if data_bytes > MAX_NTV2_TOTAL_DATA_BYTES {
        let mut m = "NTv2 data size ".to_owned();
        append_decimal(&mut m, data_bytes as u64);
        append_str(&mut m, " exceeds limit ");
        append_decimal(&mut m, MAX_NTV2_TOTAL_DATA_BYTES as u64);
        return Err(GridError::Parse(m));
    }
    let data_end = match header_end.checked_add(data_len) {
        Some(v) => v,
        None => return parse_err("NTv2 data offset overflow"),
    };
    if data_end > len {
        let mut m = "truncated NTv2 data for subgrid ".to_owned();
        append_str(&mut m, name);
        return Err(GridError::Parse(m));
    }
    *totals = Ntv2Totals { cells, data_bytes };
    Ok(data_end)
}

/// The offset, within a subgrid's node records, of the record for output
/// node (`x`, `y`): rows run south to north, and within a row the file
/// stores nodes east to west, so column `x` counted from the west is record
/// `width - 1 - x` of its row.
pub fn ntv2_record_offset(width: usize, height: usize, x: usize, y: usize) -> (r: usize)
    requires
        x < width,
        y < height,
        width * height * NTV2_RECORD_LEN <= usize::MAX,
    ensures
        r == (y * width + (width - 1 - x)) * NTV2_RECORD_LEN,
{
    assert(y * width + (width - 1 - x) < width * height) by (nonlinear_arith)
        requires
            x < width,
            y < height,
    ;
    assert((y * width + (width - 1 - x)) * 16 <= width * height * 16) by (nonlinear_arith)
        requires
            y * width + (width - 1 - x) < width * height,
    ;
    let row = y * width;
    (row + (width - 1 - x)) * NTV2_RECORD_LEN
}

/// The subgrid tree of an NTv2 file: the children of each subgrid and the
/// top-level subgrids, each list in file order.
#[derive(Debug)]
pub struct Ntv2Tree {
    pub children: Vec<Vec<usize>>,
    pub roots: Vec<usize>,
}

/// A parent label that marks a top-level subgrid: empty, or `NONE` in any
/// ASCII case.
pub open spec fn is_root_parent(p: Seq<char>) -> bool {
    eq_ignore_ascii_case_spec(p, seq!['n', 'o', 'n', 'e']) || p.len() == 0
}

/// The last subgrid named `p`.
pub open spec fn last_named(names: Seq<Seq<char>>, p: Seq<char>) -> Option<int>
    decreases names.len(),
{
    if names.len() == 0 {
        None
    } else if names.last() == p {
        Some(names.len() - 1)
    } else {
        last_named(names.drop_last(), p)
    }
}

/// The tree after linking the first `k` subgrids to their parents, or the
/// first subgrid whose parent is missing.
pub open spec fn ntv2_links_upto(names: Seq<Seq<char>>, parents: Seq<Seq<char>>, k: nat) -> Result<
    (Seq<Seq<usize>>, Seq<usize>),
    GridErrorModel,
>
    decreases k,
{
    if k == 0 {
        Ok((Seq::new(names.len(), |i: int| Seq::<usize>::empty()), Seq::<usize>::empty()))
    } else {
        match ntv2_links_upto(names, parents, (k - 1) as nat) {
            Err(e) => Err(e),
            Ok((children, roots)) => {
                let idx = k - 1;
                let p = parents[idx];
                if is_root_parent(p) {
                    Ok((children, roots.push(idx as usize)))
                } else {
                    match last_named(names, p) {
                        None => parse_error(
                            "missing NTv2 parent subgrid "@ + p + " for "@ + names[idx],
                        ),
                        Some(j) => Ok(
                            (children.update(j, children[j].push(idx as usize)), roots),
                        ),
                    }
                }
            },
        }
    }
}

/// The subgrid `last_named` picks carries the name.
pub proof fn lemma_last_named_range(names: Seq<Seq<char>>, p: Seq<char>)
    ensures
        last_named(names, p) matches Some(j) ==> 0 <= j < names.len() && names[j] == p,
    decreases names.len(),
{
    if names.len() > 0 && names.last() != p {
        lemma_last_named_range(names.drop_last(), p);
    }
}

/// Once linking has failed, linking more subgrids fails the same way.
pub proof fn lemma_links_error_sticks(
    names: Seq<Seq<char>>,
    parents: Seq<Seq<char>>,
    k: nat,
    m: nat,
)
    requires
        k <= m,
        ntv2_links_upto(names, parents, k) is Err,
    ensures
        ntv2_links_upto(names, parents, m) == ntv2_links_upto(names, parents, k),
    decreases m - k,
{
    if k < m {
        lemma_links_error_sticks(names, parents, k, (m - 1) as nat);
    }
}

fn last_named_index(names: &Vec<String>, p: &String) -> (r: Option<usize>)
    ensures
        r matches Some(j) ==> j < names@.len(),
        match last_named(names@.map_values(|n: String| n@), p@) {
            Some(j) => r == Some(j as usize),
            None => r is None,
        },
{
    let ghost ns = names@.map_values(|n: String| n@);
    let mut i: usize = names.len();
    assert(ns.take(names@.len() as int) =~= ns);
    while i > 0
        invariant
            i <= names@.len(),
            ns == names@.map_values(|n: String| n@),
            last_named(ns, p@) == last_named(ns.take(i as int), p@),
        decreases i,
    {
        assert(ns.take(i as int).drop_last() =~= ns.take(i - 1));
        if same_text(names[i - 1].as_str(), p.as_str()) {
            return Some(i - 1);
        }
        i = i - 1;
    }
    None
}

/// Links every subgrid to the last subgrid named by its parent label.
/// Subgrids whose parent label is empty or `NONE` are top-level.
pub fn ntv2_link_subgrids(names: &Vec<String>, parents: &Vec<String>) -> (r: Result<
    Ntv2Tree,
    GridError,
>)
    requires
        names@.len() == parents@.len(),
    ensures
        match ntv2_links_upto(
            names@.map_values(|n: String| n@),
            parents@.map_values(|n: String| n@),
            names@.len(),
        ) {
            Ok((children, roots)) => r matches Ok(t) && t.children@.map_values(
                |c: Vec<usize>| c@,
            ) == children && t.roots@ == roots,
            Err(e) => grid_result(r) == Err::<Ntv2Tree, GridErrorModel>(e),
        },
{
    let ghost ns = names@.map_values(|n: String| n@);
    let ghost ps = parents@.map_values(|n: String| n@);
    let n = names.len();
    let mut children: Vec<Vec<usize>> = Vec::new();
    let mut k: usize = 0;
    while k < n
        invariant
            k <= n,
            n == names@.len(),
            children@.len() == k,
            forall|i: int| 0 <= i < k ==> (#[trigger] children@[i])@ == Seq::<usize>::empty(),
        decreases n - k,
    {
        children.push(Vec::new());
        k = k + 1;
    }
    assert(children@.map_values(|c: Vec<usize>| c@) =~= Seq::new(
        ns.len(),
        |i: int| Seq::<usize>::empty(),
    ));
    let mut roots: Vec<usize> = Vec::new();
    let mut idx: usize = 0;
    while idx < n
        invariant
            idx <= n,
            n == names@.len(),
            n == parents@.len(),
            ns == names@.map_values(|n: String| n@),
            ps == parents@.map_values(|n: String| n@),
            children@.len() == n,
            ntv2_links_upto(ns, ps, idx as nat) == Ok::<
                (Seq<Seq<usize>>, Seq<usize>),
                GridErrorModel,
            >((children@.map_values(|c: Vec<usize>| c@), roots@)),
        decreases n - idx,
    {
        let parent = &parents[idx];
        let is_root = eq_ignore_ascii_case(parent.as_str(), "none") || parent.as_str().is_empty();
        proof {
            reveal_strlit("none");
        }
        assert(ps[idx as int] == parent@);
        if is_root {
            roots.push(idx);
        } else {
            match last_named_index(names, parent) {
                None => {
                    let mut m = "missing NTv2 parent subgrid ".to_owned();
                    append_str(&mut m, parent.as_str());
                    append_str(&mut m, " for ");
                    append_str(&mut m, names[idx].as_str());
                    assert(ns[idx as int] == names@[idx as int]@);
                    proof {
                        lemma_links_error_sticks(ns, ps, (idx + 1) as nat, n as nat);
                    }
                    return Err(GridError::Parse(m));
                },
                Some(j) => {
                    proof {
                        lemma_last_named_range(ns, parent@);
                    }
                    let ghost before = children@.map_values(|c: Vec<usize>| c@);
                    let mut c = children.remove(j);
                    c.push(idx);
                    children.insert(j, c);
                    assert(children@.map_values(|c: Vec<usize>| c@) =~= before.update(
                        j as int,
                        before[j as int].push(idx),
                    ));
                },
            }
        }
        idx = idx + 1;
    }
    Ok(Ntv2Tree { children, roots })
}

// ---------------------------------------------------------------------------
// Subgrid selection
// ---------------------------------------------------------------------------

/// Whether subgrid `id` exists among `covers` and its extent holds the point.
pub open spec fn is_covering(covers: Seq<bool>, id: usize) -> bool {
    id < covers.len() && covers[id as int]
}

/// The first subgrid of `ids`, in order, whose extent holds the point.
pub open spec fn first_covering(ids: Seq<usize>, covers: Seq<bool>) -> Option<usize>
    decreases ids.len(),
{
    if ids.len() == 0 {
        None
    } else if is_covering(covers, ids[0]) {
        Some(ids[0])
    } else {
        first_covering(ids.drop_first(), covers)
    }
}

/// The children of subgrid `i`; none for an index past the tree.
pub open spec fn children_at(children: Seq<Seq<usize>>, i: usize) -> Seq<usize> {
    if i < children.len() {
        children[i as int]
    } else {
        Seq::empty()
    }
}

/// The subgrid reached from `i` by following, at most `depth` times, the
/// first child whose extent holds the point.
pub open spec fn ntv2_descend(
    children: Seq<Seq<usize>>,
    covers: Seq<bool>,
    i: usize,
    depth: nat,
) -> usize
    decreases depth,
{
    if depth == 0 {
        i
    } else {
        match first_covering(children_at(children, i), covers) {
            None => i,
            Some(c) => ntv2_descend(children, covers, c, (depth - 1) as nat),
        }
    }
}

/// The subgrid that samples a point: below the first top-level subgrid
/// whose extent holds it, the first covering child, followed down. The
/// descent takes at most as many steps as there are subgrids; on a tree
/// built from parent links it always ends before that
/// (`lemma_ntv2_selection_is_deepest`).
pub open spec fn ntv2_select_spec(
    children: Seq<Seq<usize>>,
    roots: Seq<usize>,
    covers: Seq<bool>,
) -> Option<usize> {
    match first_covering(roots, covers) {
        None => None,
        Some(r) => Some(ntv2_descend(children, covers, r, covers.len())),
    }
}

fn first_covering_in(ids: &Vec<usize>, covers: &Vec<bool>) -> (r: Option<usize>)
    ensures
        r == first_covering(ids@, covers@),
{
    let mut i: usize = 0;
    assert(ids@.skip(0) =~= ids@);
    while i < ids.len()
        invariant
            i <= ids@.len(),
            first_covering(ids@, covers@) == first_covering(ids@.skip(i as int), covers@),
        decreases ids@.len() - i,
    {
        let id = ids[i];
        assert(ids@.skip(i as int)[0] == id);
        if id < covers.len() && covers[id] {
            return Some(id);
        }
        assert(ids@.skip(i as int).drop_first() =~= ids@.skip(i + 1));
        i = i + 1;
    }
    assert(ids@.skip(i as int).len() == 0);
    None
}

/// Picks the subgrid that samples a point, given for each subgrid whether
/// its extent holds the point: the deepest covering subgrid below the first
/// covering top-level subgrid, or `None` when no top-level subgrid covers
/// the point.
pub fn ntv2_select_subgrid(tree: &Ntv2Tree, covers: &Vec<bool>) -> (r: Option<usize>)
    ensures
        r == ntv2_select_spec(tree.children@.map_values(|c: Vec<usize>| c@), tree.roots@, covers@),
{
    let ghost ch = tree.children@.map_values(|c: Vec<usize>| c@);
    let root = match first_covering_in(&tree.roots, covers) {
        None => return None,
        Some(root) => root,
    };
    let n = covers.len();
    let mut i = root;
    let mut depth: usize = 0;
    while depth < n
        invariant
            depth <= n,
            n == covers@.len(),
            ch == tree.children@.map_values(|c: Vec<usize>| c@),
            first_covering(tree.roots@, covers@) == Some(root),
            ntv2_descend(ch, covers@, root, n as nat) == ntv2_descend(
                ch,
                covers@,
                i,
                (n - depth) as nat,
            ),
        decreases n - depth,
    {
        let next = if i < tree.children.len() {
            first_covering_in(&tree.children[i], covers)
        } else {
            None
        };
        assert(next == first_covering(children_at(ch, i), covers@));
        match next {
            None => {
                assert(ntv2_descend(ch, covers@, i, (n - depth) as nat) == i);
                return Some(i);
            },
            Some(c) => {
                assert(ntv2_descend(ch, covers@, i, (n - depth) as nat) == ntv2_descend(
                    ch,
                    covers@,
                    c,
                    (n - depth - 1) as nat,
                ));
                i = c;
            },
        }
        depth = depth + 1;
    }
    Some(i)
}

/// The first covering subgrid of a list holds the point and is on the list.
pub proof fn lemma_first_covering_covers(ids: Seq<usize>, covers: Seq<bool>)
    ensures
        first_covering(ids, covers) matches Some(c) ==> is_covering(covers, c) && ids.contains(c),
        first_covering(ids, covers) is None <==> forall|a: int|
            0 <= a < ids.len() ==> !is_covering(covers, #[trigger] ids[a]),
    decreases ids.len(),
{
    if ids.len() > 0 {
        lemma_first_covering_covers(ids.drop_first(), covers);
        if !is_covering(covers, ids[0]) {
            if let Some(c) = first_covering(ids.drop_first(), covers) {
                let a = choose|a: int| 0 <= a < ids.len() - 1 && ids.drop_first()[a] == c;
                assert(ids[a + 1] == c);
            }
            assert forall|a: int| 0 <= a < ids.len() && first_covering(ids, covers) is None implies !is_covering(
                covers,
                #[trigger] ids[a],
            ) by {
                if a > 0 {
                    assert(ids.drop_first()[a - 1] == ids[a]);
                }
            }
        } else {
            assert(ids[0] == ids[0]);
        }
    }
}

/// Descending from a covering subgrid stays on covering subgrids.
proof fn lemma_descend_covers(children: Seq<Seq<usize>>, covers: Seq<bool>, i: usize, depth: nat)
    requires
        is_covering(covers, i),
    ensures
        is_covering(covers, ntv2_descend(children, covers, i, depth)),
    decreases depth,
{
    if depth > 0 {
        lemma_first_covering_covers(children_at(children, i), covers);
        if let Some(c) = first_covering(children_at(children, i), covers) {
            lemma_descend_covers(children, covers, c, (depth - 1) as nat);
        }
    }
}

/// The selected subgrid holds the point, and a subgrid is selected exactly
/// when some top-level subgrid holds the point.
pub proof fn lemma_ntv2_selection_covers(
    children: Seq<Seq<usize>>,
    roots: Seq<usize>,
    covers: Seq<bool>,
)
    ensures
        ntv2_select_spec(children, roots, covers) matches Some(i) ==> is_covering(covers, i),
        ntv2_select_spec(children, roots, covers) is None <==> forall|a: int|
            0 <= a < roots.len() ==> !is_covering(covers, #[trigger] roots[a]),
{
    lemma_first_covering_covers(roots, covers);
    if let Some(r) = first_covering(roots, covers) {
        lemma_descend_covers(children, covers, r, covers.len());
    }
}

// ---------------------------------------------------------------------------
// GTX framing
// ---------------------------------------------------------------------------

/// The header of a GTX file; the georeferencing fields are the raw bits of
/// its big-endian `f64` values, in degrees.
#[derive(Debug, Clone, Copy, PartialEq, Eq, Structural)]
pub struct GtxHeader {
    pub south_bits: u64,
    pub west_bits: u64,
    pub delta_lat_bits: u64,
    pub delta_lon_bits: u64,
    pub height: i32,
    pub width: i32,
}

/// The header of a GTX file, or why it is rejected.
pub open spec fn gtx_header_spec(d: Seq<u8>) -> Result<GtxHeader, GridErrorModel> {
    if d.len() < GTX_HEADER_LEN {
        parse_error("GTX file too small"@)
    } else if d.len() > MAX_GTX_GRID_BYTES {
        parse_error(
            "GTX grid exceeds maximum size of "@ + decimal(MAX_GTX_GRID_BYTES as nat) + " bytes"@,
        )
    } else {
        Ok(
            GtxHeader {
                south_bits: be_u64(d, 0),
                west_bits: be_u64(d, 8),
                delta_lat_bits: be_u64(d, 16),
                delta_lon_bits: be_u64(d, 24),
                height: be_u32(d, 32) as i32,
                width: be_u32(d, 36) as i32,
            },
        )
    }
}

/// Reads the header of a GTX file.
pub fn gtx_header(bytes: &[u8]) -> (r: Result<GtxHeader, GridError>)
    ensures
        grid_result(r) == gtx_header_spec(bytes@),
{
    if bytes.len() < GTX_HEADER_LEN {
        return parse_err("GTX file too small");
    }
    if bytes.len() > MAX_GTX_GRID_BYTES {
        let mut m = "GTX grid exceeds maximum size of ".to_owned();
        append_decimal(&mut m, MAX_GTX_GRID_BYTES as u64);
        append_str(&mut m, " bytes");
        return Err(GridError::Parse(m));
    }
    let height = word32(bytes, 32, Endian::Big);
    let width = word32(bytes, 36, Endian::Big);
    Ok(
        GtxHeader {
            south_bits: word64(bytes, 0, Endian::Big),
            west_bits: word64(bytes, 8, Endian::Big),
            delta_lat_bits: word64(bytes, 16, Endian::Big),
            delta_lon_bits: word64(bytes, 24, Endian::Big),
            height: height as i32,
            width: width as i32,
        },
    )
}

/// The bits of an IEEE-754 double that is neither infinite nor NaN.
pub open spec fn is_finite_bits(bits: u64) -> bool {
    (bits & 0x7ff0_0000_0000_0000u64) != 0x7ff0_0000_0000_0000u64
}

fn finite_bits(bits: u64) -> (r: bool)
    ensures
        r == is_finite_bits(bits),
{
    (bits & 0x7ff0_0000_0000_0000u64) != 0x7ff0_0000_0000_0000u64
}

/// The node layout of a GTX grid: `width` by `height` nodes, `count` in all.
#[derive(Debug, Clone, Copy, PartialEq, Eq, Structural)]
pub struct GtxLayout {
    pub width: usize,
    pub height: usize,
    pub count: usize,
}

/// The layout a GTX header declares for a file of `len` bytes, or why it is
/// rejected: the origin must be finite, the spacings finite and positive,
/// and the grid at least two nodes wide and high.
pub open spec fn gtx_layout_spec(h: GtxHeader, len: nat) -> Result<GtxLayout, GridErrorModel> {
    let georeferenced = is_finite_bits(h.west_bits) && is_finite_bits(h.south_bits)
        && is_positive_finite_bits(h.delta_lon_bits) && is_positive_finite_bits(h.delta_lat_bits)
        && h.width >= 2 && h.height >= 2;
    let count = h.width * h.height;
    let expected = GTX_HEADER_LEN + count * GTX_RECORD_LEN;
    if !georeferenced {
        parse_error("invalid GTX georeferencing"@)
    } else if count > usize::MAX {
        parse_error("GTX data size overflow"@)
    } else if count > MAX_GTX_CELLS {
        parse_error(
            "GTX cell count "@ + decimal(count as nat) + " exceeds limit "@ + decimal(
                MAX_GTX_CELLS as nat,
            ),
        )
    } else if expected > MAX_GTX_GRID_BYTES {
        parse_error(
            "GTX data size "@ + decimal(expected as nat) + " exceeds limit "@ + decimal(
                MAX_GTX_GRID_BYTES as nat,
            ),
        )
    } else if len < expected {
        parse_error("truncated GTX data"@)
    } else {
        Ok(
            GtxLayout {
                width: h.width as usize,
                height: h.height as usize,
                count: count as usize,
            },
        )
    }
}

/// Checks a GTX header's georeferencing and dimensions against the limits
/// and the file length.
pub fn gtx_layout(h: &GtxHeader, len: usize) -> (r: Result<GtxLayout, GridError>)
    ensures
        grid_result(r) == gtx_layout_spec(*h, len as nat),
{
    if !(finite_bits(h.west_bits) && finite_bits(h.south_bits) && 0 < h.delta_lon_bits
        && h.delta_lon_bits < 0x7ff0_0000_0000_0000u64 && 0 < h.delta_lat_bits && h.delta_lat_bits
        < 0x7ff0_0000_0000_0000u64 && h.width >= 2 && h.height >= 2) {
        return parse_err("invalid GTX georeferencing");
    }
    let height = h.height as usize;
    let width = h.width as usize;
    let count = match width.checked_mul(height) {
        Some(v) => v,
        None => return parse_err("GTX data size overflow"),
    };
    if count > MAX_GTX_CELLS {
        let mut m = "GTX cell count ".to_owned();
        append_decimal(&mut m, count as u64);
        append_str(&mut m, " exceeds limit ");
        append_decimal(&mut m, MAX_GTX_CELLS as u64);
        return Err(GridError::Parse(m));
    }
    let expected = GTX_HEADER_LEN + count * GTX_RECORD_LEN;
    if expected > MAX_GTX_GRID_BYTES {
        let mut m = "GTX data size ".to_owned();
        append_decimal(&mut m, expected as u64);
        append_str(&mut m, " exceeds limit ");
        append_decimal(&mut m, MAX_GTX_GRID_BYTES as u64);
        return Err(GridError::Parse(m));
    }
    if len < expected {
        return parse_err("truncated GTX data");
    }
    Ok(GtxLayout { width, height, count })
}

// ---------------------------------------------------------------------------
// Resource names and cache keys
// ---------------------------------------------------------------------------

/// The kind of one component of a file path.
#[derive(Debug, Clone, Copy, PartialEq, Eq, Structural)]
pub enum PathPart {
    /// A Windows path prefix such as `C:`.
    Prefix,
    /// The root directory.
    RootDir,
    /// `.`
    CurDir,
    /// `..`
    ParentDir,
    /// An ordinary file or directory name.
    Normal,
}

/// Whether `s[i..j]` is a whole `/`-separated segment of `s`.
pub open spec fn is_segment(s: Seq<char>, i: int, j: int) -> bool {
    &&& 0 <= i <= j <= s.len()
    &&& i == 0 || s[i - 1] == '/'
    &&& j == s.len() || s[j] == '/'
    &&& forall|k: int| i <= k < j ==> s[k] != '/'
}

/// A relative name made of ordinary segments: not empty, not starting with
/// `/`, without `\` or `:` (which some platforms read as separators or
/// prefixes), with no `..` segment and not starting with a `.` segment
/// (later `.` segments are dropped when the name is read as a path).
pub open spec fn is_plain_relative_name(s: Seq<char>) -> bool {
    &&& s.len() > 0
    &&& s[0] != '/'
    &&& forall|k: int| 0 <= k < s.len() ==> s[k] != '\\' && s[k] != ':'
    &&& forall|i: int, j: int|
        #[trigger] is_segment(s, i, j) ==> (i == 0 ==> s.subrange(i, j) != seq!['.'])
            && s.subrange(i, j) != seq!['.', '.']
}

/// A name that leaves the directory it is joined to on every platform: it
/// starts at the root (`/`), starts with a `.` segment, or has a `..`
/// segment.
pub open spec fn is_escaping_name(s: Seq<char>) -> bool {
    ||| s.len() > 0 && s[0] == '/'
    ||| is_segment(s, 0, 1) && s[0] == '.'
    ||| exists|i: int, j: int| #[trigger] is_segment(s, i, j) && s.subrange(i, j) == seq!['.', '.']
}

/// The kinds of the components of `name` read as a path.
///
/// Trusted: calls `std::path::Path::components` and maps each component to
/// its kind, in order. How a name splits into components follows the
/// platform's path rules; what is claimed holds on every platform, as the
/// documentation of `Path::components` and `Component` describes it: a
/// relative name without `\` or `:` splits at `/` into its segments, empty
/// and non-leading `.` segments dropped, so that one whose other segments
/// are ordinary names gives only `Normal` components, at least one (its
/// first segment); a name starting with `/`
/// has a root (or, on Windows, a prefix), a leading `.` segment is a
/// `CurDir` and a `..` segment a `ParentDir` (or the name has a prefix), so
/// such a name has a component that is not `Normal`.
#[verifier::external_body]
fn path_parts(name: &str) -> (r: Vec<PathPart>)
    ensures
        is_plain_relative_name(name@) ==> r@.len() > 0 && forall|i: int|
            0 <= i < r@.len() ==> r@[i] == PathPart::Normal,
        is_escaping_name(name@) ==> exists|i: int| 0 <= i < r@.len() && r@[i] != PathPart::Normal,
{
    std::path::Path::new(name).components().map(|c| match c {
        std::path::Component::Prefix(_) => PathPart::Prefix,
        std::path::Component::RootDir => PathPart::RootDir,
        std::path::Component::CurDir => PathPart::CurDir,
        std::path::Component::ParentDir => PathPart::ParentDir,
        std::path::Component::Normal(_) => PathPart::Normal,
    }).collect()
}

/// Whether every component of a path is an ordinary name.
pub fn all_normal(parts: &Vec<PathPart>) -> (r: bool)
    ensures
        r == forall|i: int| 0 <= i < parts@.len() ==> parts@[i] == PathPart::Normal,
{
    let mut i: usize = 0;
    while i < parts.len()
        invariant
            i <= parts@.len(),
            forall|k: int| 0 <= k < i ==> parts@[k] == PathPart::Normal,
        decreases parts.len() - i,
    {
        if parts[i] != PathPart::Normal {
            return false;
        }
        i = i + 1;
    }
    true
}

/// Whether a grid resource name may be joined to a search root: it is not
/// empty and every component of it, read as a path, is an ordinary name (no
/// root, prefix, `.` or `..`). A relative name of ordinary segments is
/// accepted and a name that starts at the root or has a `..` segment is
/// refused on every platform.
pub fn is_safe_grid_resource_name(name: &str) -> (r: bool)
    ensures
        r ==> name@.len() > 0,
        is_plain_relative_name(name@) ==> r,
        is_escaping_name(name@) ==> !r,
{
    if name.is_empty() {
        return false;
    }
    let parts = path_parts(name);
    all_normal(&parts)
}

/// The name of the grid resource compiled into the library.
pub open spec fn embedded_resource_name() -> Seq<char> {
    seq!['n', 't', 'v', '2', '_', '0', '.', 'g', 's', 'b']
}

/// Whether some name matches the embedded resource, ignoring ASCII case.
pub open spec fn names_embedded_resource(names: Seq<Seq<char>>) -> bool {
    exists|i: int| 0 <= i < names.len() && eq_ignore_ascii_case_spec(#[trigger] names[i], embedded_resource_name())
}

/// The embedded grid resource that one of `names` refers to (the match
/// ignores ASCII case), by its canonical name.
pub fn embedded_grid_resource(names: &Vec<String>) -> (r: Option<&'static str>)
    ensures
        match r {
            Some(n) => n@ == embedded_resource_name() && names_embedded_resource(
                names@.map_values(|s: String| s@),
            ),
            None => !names_embedded_resource(names@.map_values(|s: String| s@)),
        },
{
    let ghost ns = names@.map_values(|s: String| s@);
    let mut i: usize = 0;
    while i < names.len()
        invariant
            i <= names@.len(),
            ns == names@.map_values(|s: String| s@),
            forall|k: int| 0 <= k < i ==> !eq_ignore_ascii_case_spec(#[trigger] ns[k], embedded_resource_name()),
        decreases names.len() - i,
    {
        let canonical = "ntv2_0.gsb";
        proof {
            reveal_strlit("ntv2_0.gsb");
        }
        assert(ns[i as int] == names@[i as int]@);
        if eq_ignore_ascii_case(names[i].as_str(), canonical) {
            return Some(canonical);
        }
        i = i + 1;
    }
    None
}

/// The grid provider backed by the resources compiled into the library.
#[derive(Debug, Clone, Copy, Default)]
pub struct EmbeddedGridProvider;

impl EmbeddedGridProvider {
    /// Whether this provider can supply a grid listed under `resource_names`:
    /// one of the names is the embedded resource.
    pub fn provides(&self, resource_names: &Vec<String>) -> (r: bool)
        ensures
            r == names_embedded_resource(resource_names@.map_values(|s: String| s@)),
    {
        embedded_grid_resource(resource_names).is_some()
    }
}

/// Identifies parsed grid data by format and resource, so that one resource
/// is parsed once.
#[derive(Debug, Clone, PartialEq, Eq, Hash)]
pub struct GridDataCacheKey {
    pub format: GridFormat,
    pub resource: String,
}

impl GridDataCacheKey {
    pub fn new(format: GridFormat, resource: &str) -> (r: Self)
        ensures
            r.format == format,
            r.resource@ == resource@,
    {
        GridDataCacheKey { format, resource: resource.to_owned() }
    }
}

/// The resources of a cache key, each after a `|`.
pub open spec fn piped(resources: Seq<Seq<char>>) -> Seq<char>
    decreases resources.len(),
{
    if resources.len() == 0 {
        Seq::empty()
    } else {
        piped(resources.drop_last()) + seq!['|'] + resources.last()
    }
}

/// The key under which a grid's resolved handle is cached: its id, its
/// format's name and its resource names, separated by `|`.
pub open spec fn runtime_cache_key_spec(
    id: GridId,
    format: GridFormat,
    resources: Seq<Seq<char>>,
) -> Seq<char> {
    decimal(id.0 as nat) + seq!['|'] + format_name(format) + piped(resources)
}

/// Builds the runtime cache key of a grid.
pub fn grid_runtime_cache_key(id: GridId, format: GridFormat, resource_names: &Vec<String>) -> (r:
    String)
    ensures
        r@ == runtime_cache_key_spec(id, format, resource_names@.map_values(|s: String| s@)),
{
    let ghost rs = resource_names@.map_values(|s: String| s@);
    let mut key = String::new();
    append_decimal(&mut key, id.0 as u64);
    push_char(&mut key, '|');
    append_str(&mut key, format.name());
    assert(key@ =~= decimal(id.0 as nat) + seq!['|'] + format_name(format) + piped(rs.take(0)));
    let mut i: usize = 0;
    while i < resource_names.len()
        invariant
            i <= resource_names@.len(),
            rs == resource_names@.map_values(|s: String| s@),
            key@ == decimal(id.0 as nat) + seq!['|'] + format_name(format) + piped(rs.take(i as int)),
        decreases resource_names.len() - i,
    {
        push_char(&mut key, '|');
        append_str(&mut key, resource_names[i].as_str());
        assert(rs.take(i + 1).drop_last() =~= rs.take(i as int));
        assert(key@ =~= decimal(id.0 as nat) + seq!['|'] + format_name(format) + piped(
            rs.take(i + 1),
        ));
        i = i + 1;
    }
    assert(rs.take(resource_names@.len() as int) =~= rs);
    key
}

/// What a PROJ GeoTIFF grid holds, as its GDAL `TYPE` metadata declares.
#[derive(Debug, Clone, Copy, PartialEq, Eq, Structural)]
pub enum GeoTiffGridKind {
    /// Latitude and longitude offsets.
    Horizontal,
    /// Geoid undulations.
    Vertical,
}

/// The number of raster bands a grid of the given kind needs.
pub fn required_band_count(kind: GeoTiffGridKind) -> (r: usize)
    ensures
        r == (match kind {
            GeoTiffGridKind::Horizontal => 2usize,
            GeoTiffGridKind::Vertical => 1usize,
        }),
{
    match kind {
        GeoTiffGridKind::Horizontal => 2,
        GeoTiffGridKind::Vertical => 1,
    }
}

/// ASCII lower-case letters mapped to upper case, every other character
/// kept.
pub open spec fn ascii_upper(c: char) -> char {
    if 'a' <= c && c <= 'z' {
        ((c as u32) - 32) as char
    } else {
        c
    }
}

fn uppercase_chars(s: &str) -> (r: Vec<char>)
    ensures
        r@ == s@.map_values(|c: char| ascii_upper(c)),
{
    let cs = chars_of(s);
    let mut out: Vec<char> = Vec::new();
    let mut i: usize = 0;
    while i < cs.len()
        invariant
            i <= cs@.len(),
            cs@ == s@,
            out@ == s@.take(i as int).map_values(|c: char| ascii_upper(c)),
        decreases cs.len() - i,
    {
        let c = cs[i];
        let u = if 'a' <= c && c <= 'z' {
            let b: u8 = ((c as u32) - 32) as u8;
            b as char
        } else {
            c
        };
        out.push(u);
        assert(out@ =~= s@.take(i + 1).map_values(|c: char| ascii_upper(c)));
        i = i + 1;
    }
    assert(s@.take(s@.len() as int) =~= s@);
    out
}

fn has_text(s: &Vec<char>, pat: &str) -> (r: bool)
    ensures
        r == contains_text(s@, pat@),
{
    let p = chars_of(pat);
    crate::registry_build::contains_chars(s, &p)
}

/// The kind a GeoTIFF grid's GDAL `TYPE` text declares: vertical if it
/// mentions `VERTICAL`, else horizontal if it mentions `HORIZONTAL`, in any
/// ASCII case; a missing or unrecognised type is refused.
pub open spec fn geotiff_grid_kind_spec(type_text: Option<Seq<char>>, name: Seq<char>) -> Result<
    GeoTiffGridKind,
    GridErrorModel,
> {
    let text = match type_text {
        Some(t) => t.map_values(|c: char| ascii_upper(c)),
        None => Seq::empty(),
    };
    if contains_text(text, "VERTICAL"@) {
        Ok(GeoTiffGridKind::Vertical)
    } else if contains_text(text, "HORIZONTAL"@) {
        Ok(GeoTiffGridKind::Horizontal)
    } else {
        parse_error(
            name
                + ": GeoTIFF grid is missing a recognised GDAL `TYPE` (HORIZONTAL_OFFSET / VERTICAL_OFFSET)"@,
        )
    }
}

/// Reads the kind of a GeoTIFF grid from its GDAL `TYPE` metadata text.
pub fn geotiff_grid_kind(type_text: Option<&str>, name: &str) -> (r: Result<
    GeoTiffGridKind,
    GridError,
>)
    ensures
        grid_result(r) == geotiff_grid_kind_spec(
            match type_text {
                Some(t) => Some(t@),
                None => None,
            },
            name@,
        ),
{
    let text: Vec<char> = match type_text {
        Some(t) => uppercase_chars(t),
        None => Vec::new(),
    };
    if has_text(&text, "VERTICAL") {
        Ok(GeoTiffGridKind::Vertical)
    } else if has_text(&text, "HORIZONTAL") {
        Ok(GeoTiffGridKind::Horizontal)
    } else {
        let mut m = name.to_owned();
        append_str(
            &mut m,
            ": GeoTIFF grid is missing a recognised GDAL `TYPE` (HORIZONTAL_OFFSET / VERTICAL_OFFSET)",
        );
        Err(GridError::Parse(m))
    }
}

// ---------------------------------------------------------------------------
// GeoTIFF structure
// ---------------------------------------------------------------------------

fn prefixed_message(name: &str, text: &str) -> (r: GridError)
    ensures
        r@ == GridErrorModel::Parse(name@ + text@),
{
    let mut m = name.to_owned();
    append_str(&mut m, text);
    GridError::Parse(m)
}

/// Accepts a GeoTIFF with `ifd_count` images: at least one, at most the
/// limit.
pub open spec fn geotiff_ifd_count_spec(name: Seq<char>, ifd_count: usize) -> Result<
    (),
    GridErrorModel,
> {
    if ifd_count == 0 {
        parse_error(name + ": no images in GeoTIFF"@)
    } else if ifd_count > MAX_GEOTIFF_IFDS {
        parse_error(
            name + ": GeoTIFF IFD count "@ + decimal(ifd_count as nat) + " exceeds limit "@
                + decimal(MAX_GEOTIFF_IFDS as nat),
        )
    } else {
        Ok(())
    }
}

pub fn geotiff_check_ifd_count(name: &str, ifd_count: usize) -> (r: Result<(), GridError>)
    ensures
        grid_result(r) == geotiff_ifd_count_spec(name@, ifd_count),
{
    if ifd_count == 0 {
        return Err(prefixed_message(name, ": no images in GeoTIFF"));
    }
    if ifd_count > MAX_GEOTIFF_IFDS {
        let mut m = name.to_owned();
        append_str(&mut m, ": GeoTIFF IFD count ");
        append_decimal(&mut m, ifd_count as u64);
        append_str(&mut m, " exceeds limit ");
        append_decimal(&mut m, MAX_GEOTIFF_IFDS as u64);
        return Err(GridError::Parse(m));
    }
    Ok(())
}

/// The message for an image dimension or count over its limit.
pub open spec fn image_limit_message(
    name: Seq<char>,
    index: usize,
    what: Seq<char>,
    value: nat,
) -> Seq<char> {
    name + ": GeoTIFF image "@ + decimal(index as nat) + " "@ + what + " "@ + decimal(value)
        + " exceeds limit "@ + decimal(MAX_GEOTIFF_CELLS_PER_IMAGE as nat)
}

/// The node count of GeoTIFF image `index`, `width` by `height`, or why
/// its dimensions are refused.
pub open spec fn geotiff_image_cells_spec(
    name: Seq<char>,
    index: usize,
    width: usize,
    height: usize,
) -> Result<usize, GridErrorModel> {
    if width < 2 || height < 2 {
        parse_error(name + ": GeoTIFF image "@ + decimal(index as nat) + " is smaller than 2x2"@)
    } else if width > MAX_GEOTIFF_CELLS_PER_IMAGE {
        parse_error(image_limit_message(name, index, "width"@, width as nat))
    } else if height > MAX_GEOTIFF_CELLS_PER_IMAGE {
        parse_error(image_limit_message(name, index, "height"@, height as nat))
    } else if width * height > usize::MAX {
        parse_error(name + ": GeoTIFF image "@ + decimal(index as nat) + " cell count overflow"@)
    } else if width * height > MAX_GEOTIFF_CELLS_PER_IMAGE {
        parse_error(image_limit_message(name, index, "cell count"@, (width * height) as nat))
    } else {
        Ok((width * height) as usize)
    }
}

fn image_limit_error(name: &str, index: usize, what: &str, value: usize) -> (r: GridError)
    ensures
        r@ == GridErrorModel::Parse(image_limit_message(name@, index, what@, value as nat)),
{
    let mut m = name.to_owned();
    append_str(&mut m, ": GeoTIFF image ");
    append_decimal(&mut m, index as u64);
    append_str(&mut m, " ");
    append_str(&mut m, what);
    append_str(&mut m, " ");
    append_decimal(&mut m, value as u64);
    append_str(&mut m, " exceeds limit ");
    append_decimal(&mut m, MAX_GEOTIFF_CELLS_PER_IMAGE as u64);
    GridError::Parse(m)
}

fn image_error(name: &str, index: usize, text: &str) -> (r: GridError)
    ensures
        r@ == GridErrorModel::Parse(name@ + ": GeoTIFF image "@ + decimal(index as nat) + text@),
{
    let mut m = name.to_owned();
    append_str(&mut m, ": GeoTIFF image ");
    append_decimal(&mut m, index as u64);
    append_str(&mut m, text);
    GridError::Parse(m)
}

/// Checks the dimensions of one GeoTIFF image and returns its node count.
pub fn geotiff_image_cells(name: &str, index: usize, width: usize, height: usize) -> (r: Result<
    usize,
    GridError,
>)
    ensures
        grid_result(r) == geotiff_image_cells_spec(name@, index, width, height),
{
    if width < 2 || height < 2 {
        return Err(image_error(name, index, " is smaller than 2x2"));
    }
    if width > MAX_GEOTIFF_CELLS_PER_IMAGE {
        return Err(image_limit_error(name, index, "width", width));
    }
    if height > MAX_GEOTIFF_CELLS_PER_IMAGE {
        return Err(image_limit_error(name, index, "height", height));
    }
    let cells = match width.checked_mul(height) {
        Some(c) => c,
        None => return Err(image_error(name, index, " cell count overflow")),
    };
    if cells > MAX_GEOTIFF_CELLS_PER_IMAGE {
        return Err(image_limit_error(name, index, "cell count", cells));
    }
    Ok(cells)
}

/// Accepts the band count of a GeoTIFF image: at least one, at most the
/// limit, and enough for the grid's kind.
pub open spec fn geotiff_bands_spec(
    name: Seq<char>,
    index: usize,
    band_count: usize,
    kind: GeoTiffGridKind,
) -> Result<(), GridErrorModel> {
    let required: usize = match kind {
        GeoTiffGridKind::Horizontal => 2,
        GeoTiffGridKind::Vertical => 1,
    };
    if band_count == 0 {
        parse_error(name + ": GeoTIFF image "@ + decimal(index as nat) + " has no bands"@)
    } else if band_count > MAX_GEOTIFF_BANDS {
        parse_error(
            name + ": GeoTIFF image "@ + decimal(index as nat) + " band count "@ + decimal(
                band_count as nat,
            ) + " exceeds limit "@ + decimal(MAX_GEOTIFF_BANDS as nat),
        )
    } else if band_count < required {
        parse_error(
            name + ": GeoTIFF image "@ + decimal(index as nat) + " has "@ + decimal(
                band_count as nat,
            ) + " bands, needs at least "@ + decimal(required as nat),
        )
    } else {
        Ok(())
    }
}

pub fn geotiff_check_bands(name: &str, index: usize, band_count: usize, kind: GeoTiffGridKind) -> (r:
    Result<(), GridError>)
    ensures
        grid_result(r) == geotiff_bands_spec(name@, index, band_count, kind),
{
    if band_count == 0 {
        return Err(image_error(name, index, " has no bands"));
    }
    if band_count > MAX_GEOTIFF_BANDS {
        let mut m = name.to_owned();
        append_str(&mut m, ": GeoTIFF image ");
        append_decimal(&mut m, index as u64);
        append_str(&mut m, " band count ");
        append_decimal(&mut m, band_count as u64);
        append_str(&mut m, " exceeds limit ");
        append_decimal(&mut m, MAX_GEOTIFF_BANDS as u64);
        return Err(GridError::Parse(m));
    }
    let required = required_band_count(kind);
    if band_count < required {
        let mut m = name.to_owned();
        append_str(&mut m, ": GeoTIFF image ");
        append_decimal(&mut m, index as u64);
        append_str(&mut m, " has ");
        append_decimal(&mut m, band_count as u64);
        append_str(&mut m, " bands, needs at least ");
        append_decimal(&mut m, required as u64);
        return Err(GridError::Parse(m));
    }
    Ok(())
}

/// Adds one image's nodes to the running total of a horizontal GeoTIFF
/// grid, refusing a total over the limit.
pub open spec fn geotiff_total_spec(name: Seq<char>, total: usize, cells: usize) -> Result<
    usize,
    GridErrorModel,
> {
    if total + cells > usize::MAX {
        parse_error(name + ": GeoTIFF total cell count overflow"@)
    } else if total + cells > MAX_GEOTIFF_TOTAL_CELLS {
        parse_error(
            name + ": GeoTIFF total cell count "@ + decimal((total + cells) as nat)
                + " exceeds limit "@ + decimal(MAX_GEOTIFF_TOTAL_CELLS as nat),
        )
    } else {
        Ok((total + cells) as usize)
    }
}

pub fn geotiff_add_cells(name: &str, total: usize, cells: usize) -> (r: Result<usize, GridError>)
    ensures
        grid_result(r) == geotiff_total_spec(name@, total, cells),
{
    let sum = match total.checked_add(cells) {
        Some(v) => v,
        None => return Err(prefixed_message(name, ": GeoTIFF total cell count overflow")),
    };
    if sum > MAX_GEOTIFF_TOTAL_CELLS {
        let mut m = name.to_owned();
        append_str(&mut m, ": GeoTIFF total cell count ");
        append_decimal(&mut m, sum as u64);
        append_str(&mut m, " exceeds limit ");
        append_decimal(&mut m, MAX_GEOTIFF_TOTAL_CELLS as u64);
        return Err(GridError::Parse(m));
    }
    Ok(sum)
}

/// Accepts a decoded band holding exactly the image's node count.
pub open spec fn geotiff_samples_spec(
    name: Seq<char>,
    band_index: usize,
    samples: usize,
    expected: usize,
) -> Result<(), GridErrorModel> {
    if samples != expected {
        parse_error(
            name + ": band "@ + decimal(band_index as nat) + " has "@ + decimal(samples as nat)
                + " samples, expected "@ + decimal(expected as nat),
        )
    } else {
        Ok(())
    }
}

pub fn geotiff_check_samples(name: &str, band_index: usize, samples: usize, expected: usize) -> (r:
    Result<(), GridError>)
    ensures
        grid_result(r) == geotiff_samples_spec(name@, band_index, samples, expected),
{
    if samples != expected {
        let mut m = name.to_owned();
        append_str(&mut m, ": band ");
        append_decimal(&mut m, band_index as u64);
        append_str(&mut m, " has ");
        append_decimal(&mut m, samples as u64);
        append_str(&mut m, " samples, expected ");
        append_decimal(&mut m, expected as u64);
        return Err(GridError::Parse(m));
    }
    Ok(())
}

/// The position, in a north-to-south raster of `width` by `height` nodes,
/// of output node (`x`, `y`) counted from the west and from the south.
pub fn raster_index(width: usize, height: usize, x: usize, y: usize) -> (r: usize)
    requires
        x < width,
        y < height,
        width * height <= usize::MAX,
    ensures
        r == (height - 1 - y) * width + x,
        r < width * height,
{
    let row = height - 1 - y;
    assert(row * width + x < width * height) by (nonlinear_arith)
        requires
            row < height,
            x < width,
    ;
    row * width + x
}

/// The parent picked for `child` among the first `k` candidates: scanning
/// in order, a candidate that contains `child` becomes the pick unless the
/// current pick does not contain it.
pub open spec fn nest_parent(contains: Seq<Seq<bool>>, child: int, k: nat) -> Option<int>
    decreases k,
{
    if k == 0 {
        None
    } else {
        let p = nest_parent(contains, child, (k - 1) as nat);
        let cand = k - 1;
        if cand == child || !contains[cand][child] {
            p
        } else {
            match p {
                Some(cur) => if !contains[cur][cand] {
                    p
                } else {
                    Some(cand)
                },
                None => Some(cand),
            }
        }
    }
}

/// The children lists and roots after placing the first `k` grids.
pub open spec fn nesting_upto(contains: Seq<Seq<bool>>, n: nat, k: nat) -> (
    Seq<Seq<usize>>,
    Seq<usize>,
)
    decreases k,
{
    if k == 0 {
        (Seq::new(n, |i: int| Seq::<usize>::empty()), Seq::<usize>::empty())
    } else {
        let (children, roots) = nesting_upto(contains, n, (k - 1) as nat);
        match nest_parent(contains, k - 1, n) {
            Some(p) => (children.update(p, children[p].push((k - 1) as usize)), roots),
            None => (children, roots.push((k - 1) as usize)),
        }
    }
}

/// The nesting of a horizontal GeoTIFF grid's images, given which image
/// extents contain which (`contains[a][b]`: image `a` contains image `b` and
/// is coarser): each image's parent is its smallest container, images
/// without one are roots, and a grid without a root is refused.
pub open spec fn geotiff_nesting_spec(name: Seq<char>, contains: Seq<Seq<bool>>) -> Result<
    (Seq<Seq<usize>>, Seq<usize>),
    GridErrorModel,
> {
    let (children, roots) = nesting_upto(contains, contains.len(), contains.len());
    if roots.len() == 0 {
        parse_error(name + ": horizontal GeoTIFF grid has no root subgrid"@)
    } else {
        Ok((children, roots))
    }
}

proof fn lemma_nest_parent_range(contains: Seq<Seq<bool>>, child: int, k: nat)
    ensures
        nest_parent(contains, child, k) matches Some(p) ==> 0 <= p < k,
    decreases k,
{
    if k > 0 {
        lemma_nest_parent_range(contains, child, (k - 1) as nat);
    }
}

fn nest_parent_of(contains: &Vec<Vec<bool>>, child: usize) -> (r: Option<usize>)
    requires
        child < contains@.len(),
        forall|i: int| 0 <= i < contains@.len() ==> (#[trigger] contains@[i])@.len() == contains@.len(),
    ensures
        match nest_parent(contains@.map_values(|r: Vec<bool>| r@), child as int, contains@.len()) {
            Some(p) => r == Some(p as usize),
            None => r is None,
        },
{
    let ghost m = contains@.map_values(|r: Vec<bool>| r@);
    let n = contains.len();
    let mut parent: Option<usize> = None;
    let mut cand: usize = 0;
    while cand < n
        invariant
            cand <= n,
            n == contains@.len(),
            child < n,
            m == contains@.map_values(|r: Vec<bool>| r@),
            forall|i: int| 0 <= i < n ==> (#[trigger] contains@[i])@.len() == n,
            match nest_parent(m, child as int, cand as nat) {
                Some(p) => parent == Some(p as usize),
                None => parent is None,
            },
        decreases n - cand,
    {
        proof {
            lemma_nest_parent_range(m, child as int, cand as nat);
        }
        assert(m[cand as int] == contains@[cand as int]@);
        if cand != child && contains[cand][child] {
            match parent {
                Some(current) => {
                    assert(m[current as int] == contains@[current as int]@);
                    if contains[current][cand] {
                        parent = Some(cand);
                    }
                },
                None => {
                    parent = Some(cand);
                },
            }
        }
        cand = cand + 1;
    }
    parent
}

/// Nests the images of a horizontal GeoTIFF grid; `contains` is a square
/// matrix over the images.
pub fn geotiff_nesting(name: &str, contains: &Vec<Vec<bool>>) -> (r: Result<Ntv2Tree, GridError>)
    requires
        forall|i: int| 0 <= i < contains@.len() ==> (#[trigger] contains@[i])@.len() == contains@.len(),
    ensures
        match geotiff_nesting_spec(name@, contains@.map_values(|r: Vec<bool>| r@)) {
            Ok((children, roots)) => r matches Ok(t) && t.children@.map_values(
                |c: Vec<usize>| c@,
            ) == children && t.roots@ == roots,
            Err(e) => grid_result(r) == Err::<Ntv2Tree, GridErrorModel>(e),
        },
{
    let ghost m = contains@.map_values(|r: Vec<bool>| r@);
    let n = contains.len();
    let mut children: Vec<Vec<usize>> = Vec::new();
    let mut k: usize = 0;
    while k < n
        invariant
            k <= n,
            n == contains@.len(),
            children@.len() == k,
            forall|i: int| 0 <= i < k ==> (#[trigger] children@[i])@ == Seq::<usize>::empty(),
        decreases n - k,
    {
        children.push(Vec::new());
        k = k + 1;
    }
    assert(children@.map_values(|c: Vec<usize>| c@) =~= Seq::new(
        n as nat,
        |i: int| Seq::<usize>::empty(),
    ));
    let mut roots: Vec<usize> = Vec::new();
    let mut child: usize = 0;
    while child < n
        invariant
            child <= n,
            n == contains@.len(),
            m == contains@.map_values(|r: Vec<bool>| r@),
            forall|i: int| 0 <= i < n ==> (#[trigger] contains@[i])@.len() == n,
            children@.len() == n,
            nesting_upto(m, n as nat, child as nat) == (
                children@.map_values(|c: Vec<usize>| c@),
                roots@,
            ),
        decreases n - child,
    {
        proof {
            lemma_nest_parent_range(m, child as int, n as nat);
        }
        match nest_parent_of(contains, child) {
            Some(p) => {
                let ghost before = children@.map_values(|c: Vec<usize>| c@);
                let mut c = children.remove(p);
                c.push(child);
                children.insert(p, c);
                assert(children@.map_values(|c: Vec<usize>| c@) =~= before.update(
                    p as int,
                    before[p as int].push(child),
                ));
            },
            None => {
                roots.push(child);
            },
        }
        child = child + 1;
    }
    if roots.len() == 0 {
        return Err(prefixed_message(name, ": horizontal GeoTIFF grid has no root subgrid"));
    }
    Ok(Ntv2Tree { children, roots })
}

// ---------------------------------------------------------------------------
// Laws of the subgrid trees
// ---------------------------------------------------------------------------

/// Subgrid `idx` hangs under `j` in the children lists exactly when `j` is
/// the parent picked for it, it is a root exactly when it has none, and
/// each list is in file order.
pub open spec fn tree_places(
    children: Seq<Seq<usize>>,
    roots: Seq<usize>,
    k: nat,
    parent_of: spec_fn(int) -> Option<int>,
) -> bool {
    &&& forall|idx: usize| #[trigger] roots.contains(idx) <==> (idx < k && parent_of(idx as int) is None)
    &&& forall|j: int, idx: usize|
        0 <= j < children.len() ==> (#[trigger] children[j].contains(idx) <==> (idx < k
            && parent_of(idx as int) == Some(j)))
    &&& forall|a: int, b: int| 0 <= a < b < roots.len() ==> roots[a] < roots[b]
    &&& forall|j: int, a: int, b: int|
        0 <= j < children.len() && 0 <= a < b < children[j].len() ==> children[j][a]
            < children[j][b]
}

/// The parent an NTv2 subgrid names, if any.
pub open spec fn ntv2_parent_of(names: Seq<Seq<char>>, parents: Seq<Seq<char>>) -> spec_fn(
    int,
) -> Option<int> {
    |idx: int|
        if is_root_parent(parents[idx]) {
            None
        } else {
            last_named(names, parents[idx])
        }
}

proof fn lemma_push_place(s: Seq<usize>, x: usize, k: nat)
    requires
        forall|a: int| 0 <= a < s.len() ==> s[a] < k,
        x == k,
    ensures
        forall|y: usize| #[trigger] s.push(x).contains(y) <==> (s.contains(y) || y == x),
        forall|a: int| 0 <= a < s.len() + 1 ==> s.push(x)[a] < k + 1,
{
    assert forall|y: usize| #[trigger] s.push(x).contains(y) <==> (s.contains(y) || y == x) by {
        if s.push(x).contains(y) {
            let a = choose|a: int| 0 <= a < s.len() + 1 && s.push(x)[a] == y;
            if a < s.len() {
                assert(s[a] == y);
            }
        }
        if s.contains(y) {
            let a = choose|a: int| 0 <= a < s.len() && s[a] == y;
            assert(s.push(x)[a] == y);
        }
        if y == x {
            assert(s.push(x)[s.len() as int] == y);
        }
    }
}

/// Linking places every subgrid exactly: under the subgrid its parent label
/// names, or among the roots when the label is empty or `NONE`, each list
/// in file order.
pub proof fn lemma_ntv2_links_place_subgrids(
    names: Seq<Seq<char>>,
    parents: Seq<Seq<char>>,
    k: nat,
)
    requires
        k <= parents.len(),
        k <= usize::MAX,
    ensures
        ntv2_links_upto(names, parents, k) matches Ok((children, roots)) ==> children.len()
            == names.len() && tree_places(children, roots, k, ntv2_parent_of(names, parents))
            && (forall|a: int| 0 <= a < roots.len() ==> roots[a] < k) && (forall|j: int, a: int|
            0 <= j < children.len() && 0 <= a < children[j].len() ==> children[j][a] < k),
    decreases k,
{
    let f = ntv2_parent_of(names, parents);
    if k == 0 {
        let children = Seq::new(names.len(), |i: int| Seq::<usize>::empty());
        assert forall|j: int, idx: usize| 0 <= j < children.len() implies !(
        #[trigger] children[j].contains(idx)) by {}
    } else {
        lemma_ntv2_links_place_subgrids(names, parents, (k - 1) as nat);
        if let Ok((ch, roots)) = ntv2_links_upto(names, parents, (k - 1) as nat) {
            let idx = (k - 1) as usize;
            let p = parents[k - 1];
            lemma_last_named_range(names, p);
            if is_root_parent(p) {
                assert(f(k - 1) is None);
                lemma_push_place(roots, idx, (k - 1) as nat);
                assert forall|j: int, y: usize|
                    0 <= j < ch.len() implies (#[trigger] ch[j].contains(y) <==> (y < k && f(
                    y as int,
                ) == Some(j))) by {
                    if y == k - 1 {
                        if ch[j].contains(y) {
                            let a = choose|a: int| 0 <= a < ch[j].len() && ch[j][a] == y;
                        }
                    }
                }
            } else if let Some(j0) = last_named(names, p) {
                assert(f(k - 1) == Some(j0));
                let nc = ch.update(j0, ch[j0].push(idx));
                lemma_push_place(ch[j0], idx, (k - 1) as nat);
                assert forall|y: usize| #[trigger] roots.contains(y) <==> (y < k && f(y as int) is None) by {
                    if y == k - 1 && roots.contains(y) {
                        let a = choose|a: int| 0 <= a < roots.len() && roots[a] == y;
                    }
                }
                assert forall|j: int, y: usize|
                    0 <= j < nc.len() implies (#[trigger] nc[j].contains(y) <==> (y < k && f(
                    y as int,
                ) == Some(j))) by {
                    if j != j0 && y == k - 1 && ch[j].contains(y) {
                        let a = choose|a: int| 0 <= a < ch[j].len() && ch[j][a] == y;
                    }
                }
                assert forall|j: int, a: int, b: int|
                    0 <= j < nc.len() && 0 <= a < b < nc[j].len() implies nc[j][a] < nc[j][b] by {
                    if j == j0 && b == nc[j].len() - 1 {
                        assert(nc[j][b] == idx);
                        assert(ch[j0][a] < k - 1);
                    }
                }
                assert forall|j: int, a: int|
                    0 <= j < nc.len() && 0 <= a < nc[j].len() implies nc[j][a] < k by {}
            }
        }
    }
}

/// Nesting places every image exactly: under the container picked for it,
/// or among the roots when it has none, each list in image order.
pub proof fn lemma_geotiff_nesting_places_images(contains: Seq<Seq<bool>>, n: nat, k: nat)
    requires
        k <= n,
        n <= usize::MAX,
    ensures
        ({
            let (children, roots) = nesting_upto(contains, n, k);
            &&& children.len() == n
            &&& tree_places(children, roots, k, |c: int| nest_parent(contains, c, n))
            &&& forall|a: int| 0 <= a < roots.len() ==> roots[a] < k
            &&& forall|j: int, a: int|
                0 <= j < children.len() && 0 <= a < children[j].len() ==> children[j][a] < k
        }),
    decreases k,
{
    let f = |c: int| nest_parent(contains, c, n);
    if k == 0 {
        let children = Seq::new(n, |i: int| Seq::<usize>::empty());
        assert forall|j: int, idx: usize| 0 <= j < children.len() implies !(
        #[trigger] children[j].contains(idx)) by {}
    } else {
        lemma_geotiff_nesting_places_images(contains, n, (k - 1) as nat);
        let (ch, roots) = nesting_upto(contains, n, (k - 1) as nat);
        let idx = (k - 1) as usize;
        lemma_nest_parent_range(contains, k - 1, n);
        match nest_parent(contains, k - 1, n) {
            None => {
                lemma_push_place(roots, idx, (k - 1) as nat);
                assert forall|j: int, y: usize|
                    0 <= j < ch.len() implies (#[trigger] ch[j].contains(y) <==> (y < k && f(
                    y as int,
                ) == Some(j))) by {
                    if y == k - 1 && ch[j].contains(y) {
                        let a = choose|a: int| 0 <= a < ch[j].len() && ch[j][a] == y;
                    }
                }
            },
            Some(j0) => {
                let nc = ch.update(j0, ch[j0].push(idx));
                lemma_push_place(ch[j0], idx, (k - 1) as nat);
                assert forall|y: usize| #[trigger] roots.contains(y) <==> (y < k && f(y as int) is None) by {
                    if y == k - 1 && roots.contains(y) {
                        let a = choose|a: int| 0 <= a < roots.len() && roots[a] == y;
                    }
                }
                assert forall|j: int, y: usize|
                    0 <= j < nc.len() implies (#[trigger] nc[j].contains(y) <==> (y < k && f(
                    y as int,
                ) == Some(j))) by {
                    if j != j0 && y == k - 1 && ch[j].contains(y) {
                        let a = choose|a: int| 0 <= a < ch[j].len() && ch[j][a] == y;
                    }
                }
                assert forall|j: int, a: int, b: int|
                    0 <= j < nc.len() && 0 <= a < b < nc[j].len() implies nc[j][a] < nc[j][b] by {
                    if j == j0 && b == nc[j].len() - 1 {
                        assert(nc[j][b] == idx);
                        assert(ch[j0][a] < k - 1);
                    }
                }
                assert forall|j: int, a: int|
                    0 <= j < nc.len() && 0 <= a < nc[j].len() implies nc[j][a] < k by {}
            },
        }
    }
}

/// Descending one step further moves to the first covering child of where
/// the shorter descent stopped, if there is one.
proof fn lemma_descend_last_step(children: Seq<Seq<usize>>, covers: Seq<bool>, r: usize, d: nat)
    ensures
        ntv2_descend(children, covers, r, d + 1) == match first_covering(
            children_at(children, ntv2_descend(children, covers, r, d)),
            covers,
        ) {
            None => ntv2_descend(children, covers, r, d),
            Some(c) => c,
        },
    decreases d,
{
    if let Some(c) = first_covering(children_at(children, r), covers) {
        assert(ntv2_descend(children, covers, r, d + 1) == ntv2_descend(children, covers, c, d));
        if d > 0 {
            lemma_descend_last_step(children, covers, c, (d - 1) as nat);
        } else {
            assert(ntv2_descend(children, covers, c, 0) == c);
        }
    }
}

/// A descent that stops somewhere stays there.
proof fn lemma_descend_stays(children: Seq<Seq<usize>>, covers: Seq<bool>, r: usize, j: nat, m: nat)
    requires
        j <= m,
        first_covering(children_at(children, ntv2_descend(children, covers, r, j)), covers) is None,
    ensures
        ntv2_descend(children, covers, r, m) == ntv2_descend(children, covers, r, j),
    decreases m - j,
{
    if j < m {
        lemma_descend_stays(children, covers, r, j, (m - 1) as nat);
        lemma_descend_last_step(children, covers, r, (m - 1) as nat);
    }
}

/// While every step finds a covering child, the descent from a root walks
/// down parent links: each subgrid reached names the previous one as its
/// parent.
proof fn lemma_descend_chain(
    children: Seq<Seq<usize>>,
    roots: Seq<usize>,
    covers: Seq<bool>,
    parent_of: spec_fn(int) -> Option<int>,
    r: usize,
    j: nat,
)
    requires
        children.len() == covers.len(),
        tree_places(children, roots, covers.len(), parent_of),
        roots.contains(r),
        j <= covers.len(),
        forall|t: nat|
            t < j ==> (#[trigger] first_covering(
                children_at(children, ntv2_descend(children, covers, r, t)),
                covers,
            )) is Some,
    ensures
        ntv2_descend(children, covers, r, j) < covers.len(),
        j == 0 ==> parent_of(ntv2_descend(children, covers, r, j) as int) is None,
        j > 0 ==> parent_of(ntv2_descend(children, covers, r, j) as int) == Some(
            ntv2_descend(children, covers, r, (j - 1) as nat) as int,
        ),
    decreases j,
{
    if j > 0 {
        let t = (j - 1) as nat;
        lemma_descend_chain(children, roots, covers, parent_of, r, t);
        let x = ntv2_descend(children, covers, r, t);
        lemma_descend_last_step(children, covers, r, t);
        assert(first_covering(children_at(children, x), covers) is Some);
        lemma_first_covering_covers(children_at(children, x), covers);
        let c = first_covering(children_at(children, x), covers).unwrap();
        assert(children[x as int].contains(c));
    }
}

/// Two steps of a descent from a root never meet the same subgrid.
proof fn lemma_descend_distinct(
    children: Seq<Seq<usize>>,
    roots: Seq<usize>,
    covers: Seq<bool>,
    parent_of: spec_fn(int) -> Option<int>,
    r: usize,
    a: nat,
    b: nat,
)
    requires
        children.len() == covers.len(),
        tree_places(children, roots, covers.len(), parent_of),
        roots.contains(r),
        a < b <= covers.len(),
        forall|t: nat|
            t < b ==> (#[trigger] first_covering(
                children_at(children, ntv2_descend(children, covers, r, t)),
                covers,
            )) is Some,
    ensures
        ntv2_descend(children, covers, r, a) != ntv2_descend(children, covers, r, b),
    decreases a,
{
    lemma_descend_chain(children, roots, covers, parent_of, r, a);
    lemma_descend_chain(children, roots, covers, parent_of, r, b);
    if a > 0 {
        lemma_descend_distinct(children, roots, covers, parent_of, r, (a - 1) as nat, (b - 1) as nat);
    }
}

/// On a tree that places each subgrid under the parent picked for it, the
/// selected subgrid is the deepest: none of its children holds the point.
pub proof fn lemma_ntv2_selection_is_deepest(
    children: Seq<Seq<usize>>,
    roots: Seq<usize>,
    covers: Seq<bool>,
    parent_of: spec_fn(int) -> Option<int>,
)
    requires
        children.len() == covers.len(),
        tree_places(children, roots, covers.len(), parent_of),
    ensures
        ntv2_select_spec(children, roots, covers) matches Some(i) ==> first_covering(
            children_at(children, i),
            covers,
        ) is None,
{
    let n = covers.len();
    lemma_first_covering_covers(roots, covers);
    if let Some(r) = first_covering(roots, covers) {
        if first_covering(children_at(children, ntv2_descend(children, covers, r, n)), covers) is Some {
            assert forall|t: nat| t <= n implies (#[trigger] first_covering(
                children_at(children, ntv2_descend(children, covers, r, t)),
                covers,
            )) is Some by {
                if first_covering(
                    children_at(children, ntv2_descend(children, covers, r, t)),
                    covers,
                ) is None {
                    lemma_descend_stays(children, covers, r, t, n);
                }
            }
            let s = Seq::new(n + 1, |j: int| ntv2_descend(children, covers, r, j as nat) as int);
            assert forall|a: int, b: int| 0 <= a < s.len() && 0 <= b < s.len() && a != b implies s[a]
                != s[b] by {
                if a < b {
                    lemma_descend_distinct(children, roots, covers, parent_of, r, a as nat, b as nat);
                } else {
                    lemma_descend_distinct(children, roots, covers, parent_of, r, b as nat, a as nat);
                }
            }
            assert(s.no_duplicates());
            s.unique_seq_to_set();
            assert forall|x: int| s.to_set().contains(x) implies vstd::set_lib::set_int_range(
                0,
                n as int,
            ).contains(x) by {
                let j = choose|j: int| 0 <= j < s.len() && s[j] == x;
                lemma_descend_chain(children, roots, covers, parent_of, r, j as nat);
            }
            vstd::set_lib::lemma_int_range(0, n as int);
            vstd::set_lib::lemma_len_subset(s.to_set(), vstd::set_lib::set_int_range(0, n as int));
        }
    }
}

/// Sampling a linked NTv2 file uses the deepest nested subgrid: when the
/// subgrids link, the subgrid selected for a point has no child whose
/// extent holds the point.
pub proof fn lemma_ntv2_linked_selection_is_deepest(
    names: Seq<Seq<char>>,
    parents: Seq<Seq<char>>,
    covers: Seq<bool>,
)
    requires
        names.len() == parents.len(),
        covers.len() == names.len(),
        names.len() <= usize::MAX,
    ensures
        ntv2_links_upto(names, parents, names.len()) matches Ok((children, roots)) ==> (
        ntv2_select_spec(children, roots, covers) matches Some(i) ==> first_covering(
            children_at(children, i),
            covers,
        ) is None),
{
    lemma_ntv2_links_place_subgrids(names, parents, names.len());
    if let Ok((children, roots)) = ntv2_links_upto(names, parents, names.len()) {
        lemma_ntv2_selection_is_deepest(children, roots, covers, ntv2_parent_of(names, parents));
    }
}

/// Sampling a nested GeoTIFF grid uses the deepest nested image: the image
/// selected for a point has no nested image whose extent holds the point.
pub proof fn lemma_geotiff_selection_is_deepest(
    name: Seq<char>,
    contains: Seq<Seq<bool>>,
    covers: Seq<bool>,
)
    requires
        covers.len() == contains.len(),
        contains.len() <= usize::MAX,
    ensures
        geotiff_nesting_spec(name, contains) matches Ok((children, roots)) ==> (ntv2_select_spec(
            children,
            roots,
            covers,
        ) matches Some(i) ==> first_covering(children_at(children, i), covers) is None),
{
    let n = contains.len();
    lemma_geotiff_nesting_places_images(contains, n, n);
    let (children, roots) = nesting_upto(contains, n, n);
    lemma_ntv2_selection_is_deepest(
        children,
        roots,
        covers,
        |c: int| nest_parent(contains, c, n),
    );
}

// ---------------------------------------------------------------------------
// GeoTIFF decoding
// ---------------------------------------------------------------------------

/// What a grid reads of one image (IFD) of a GeoTIFF, in order: its width,
/// its height, its samples per pixel, the values of its `ModelPixelScale`
/// and `ModelTiepoint` tags as the bits of `f64` values, when they hold
/// numbers, and its GDAL metadata text, when it is ASCII.
pub struct GeoTiffImageInfo(
    pub u32,
    pub u32,
    pub u16,
    pub Option<Vec<u64>>,
    pub Option<Vec<u64>>,
    pub Option<String>,
);

pub struct GeoTiffImageModel {
    pub width: u32,
    pub height: u32,
    pub samples_per_pixel: u16,
    pub pixel_scale: Option<Seq<u64>>,
    pub tiepoint: Option<Seq<u64>>,
    pub gdal_metadata: Option<Seq<char>>,
}

impl View for GeoTiffImageInfo {
    type V = GeoTiffImageModel;

    open spec fn view(&self) -> GeoTiffImageModel {
        GeoTiffImageModel {
            width: self.0,
            height: self.1,
            samples_per_pixel: self.2,
            pixel_scale: match self.3 {
                Some(v) => Some(v@),
                None => None,
            },
            tiepoint: match self.4 {
                Some(v) => Some(v@),
                None => None,
            },
            gdal_metadata: match self.5 {
                Some(t) => Some(t@),
                None => None,
            },
        }
    }
}

/// The images of a decoded GeoTIFF, in file order, and the index of its
/// full-resolution image.
pub struct GeoTiffInfo {
    pub images: Vec<GeoTiffImageInfo>,
    pub base_index: usize,
}

pub struct GeoTiffInfoModel {
    pub images: Seq<GeoTiffImageModel>,
    pub base_index: usize,
}

impl View for GeoTiffInfo {
    type V = GeoTiffInfoModel;

    open spec fn view(&self) -> GeoTiffInfoModel {
        GeoTiffInfoModel {
            images: self.images@.map_values(|i: GeoTiffImageInfo| i@),
            base_index: self.base_index,
        }
    }
}

/// What `geotiff-reader` decodes of a GeoTIFF file read with at most
/// `max_ifds` images, or the text of its error.
pub uninterp spec fn geotiff_decoded(bytes: Seq<u8>, max_ifds: nat) -> Result<
    GeoTiffInfoModel,
    Seq<char>,
>;

pub open spec fn decoded_view(r: Result<GeoTiffInfo, String>) -> Result<GeoTiffInfoModel, Seq<char>> {
    match r {
        Ok(i) => Ok(i@),
        Err(e) => Err(e@),
    }
}

/// Decodes a GeoTIFF with at most `max_ifds` images.
///
/// Trusted: calls `geotiff_reader::GeoTiffFile::from_bytes_with_options`
/// with that IFD budget and copies, for every IFD, its width, height,
/// samples per pixel, the values `TagValue::as_f64_vec` gives of tags 33550
/// and 33922 as bits and the `Ascii` text of tag 42112; an error is given
/// by its text. The result is named by `geotiff_decoded`; on success the base
/// image is one of the images, as `from_tiff` looks it up among them.
#[verifier::external_body]
fn decode_geotiff(bytes: Vec<u8>, max_ifds: usize) -> (r: Result<GeoTiffInfo, String>)
    ensures
        decoded_view(r) == geotiff_decoded(bytes@, max_ifds as nat),
        r matches Ok(i) ==> i.base_index < i.images@.len(),
{
    let mut o = GeoTiffOpenOptions::default();
    o.parse_budgets.max_ifds = max_ifds;
    let file = GeoTiffFile::from_bytes_with_options(bytes, o).map_err(|e| e.to_string())?;
    let bits = |t: Option<&Tag>| Some(t?.value.as_f64_vec()?.iter().map(|x| x.to_bits()).collect());
    Ok(GeoTiffInfo { images: file.tiff().ifds().iter().map(|d| GeoTiffImageInfo(d.width(), d.height(), d.samples_per_pixel(), bits(d.tag(33550)), bits(d.tag(33922)), d.tag(42112).and_then(|t| t.value.as_str()).map(String::from))).collect(), base_index: file.base_ifd_index() })
}

/// One image a GeoTIFF grid is built from: its IFD index, size, cell count
/// and georeferencing tags.
pub struct GeoTiffImageLayout {
    pub index: usize,
    pub width: usize,
    pub height: usize,
    pub cell_count: usize,
    pub pixel_scale: Vec<u64>,
    pub tiepoint: Vec<u64>,
}

pub struct GeoTiffLayoutModel {
    pub index: usize,
    pub width: usize,
    pub height: usize,
    pub cell_count: usize,
    pub pixel_scale: Seq<u64>,
    pub tiepoint: Seq<u64>,
}

impl View for GeoTiffImageLayout {
    type V = GeoTiffLayoutModel;

    open spec fn view(&self) -> GeoTiffLayoutModel {
        GeoTiffLayoutModel {
            index: self.index,
            width: self.width,
            height: self.height,
            cell_count: self.cell_count,
            pixel_scale: self.pixel_scale@,
            tiepoint: self.tiepoint@,
        }
    }
}

/// The structure of a GeoTIFF grid: its kind and the images its data comes
/// from (the base image of a vertical grid, every image of a horizontal one).
pub struct GeoTiffStructure {
    pub kind: GeoTiffGridKind,
    pub images: Vec<GeoTiffImageLayout>,
}

pub struct GeoTiffStructureModel {
    pub kind: GeoTiffGridKind,
    pub images: Seq<GeoTiffLayoutModel>,
}

impl View for GeoTiffStructure {
    type V = GeoTiffStructureModel;

    open spec fn view(&self) -> GeoTiffStructureModel {
        GeoTiffStructureModel {
            kind: self.kind,
            images: self.images@.map_values(|l: GeoTiffImageLayout| l@),
        }
    }
}

pub open spec fn structure_result(r: Result<GeoTiffStructure, GridError>) -> Result<
    GeoTiffStructureModel,
    GridErrorModel,
> {
    match r {
        Ok(s) => Ok(s@),
        Err(e) => Err(e@),
    }
}

/// The checks of one image, in order: its size, its georeferencing tags
/// (present, with at least two scale and six tiepoint values), the values
/// of those tags (`georef_ok`: the scales finite and positive and the origin
/// they give finite, which the caller works out in floating point) and its
/// band count.
pub open spec fn geotiff_image_spec(
    name: Seq<char>,
    index: usize,
    img: GeoTiffImageModel,
    kind: GeoTiffGridKind,
    georef_ok: bool,
) -> Result<GeoTiffLayoutModel, GridErrorModel> {
    match geotiff_image_cells_spec(name, index, img.width as usize, img.height as usize) {
        Err(e) => Err(e),
        Ok(cells) => match img.pixel_scale {
            None => parse_error(name + ": missing ModelPixelScale"@),
            Some(s) => match img.tiepoint {
                None => parse_error(name + ": missing ModelTiepoint"@),
                Some(t) => if s.len() < 2 || t.len() < 6 {
                    parse_error(name + ": malformed GeoTIFF georeferencing tags"@)
                } else if !georef_ok {
                    parse_error(name + ": invalid GeoTIFF georeferencing"@)
                } else {
                    match geotiff_bands_spec(name, index, img.samples_per_pixel as usize, kind) {
                        Err(e) => Err(e),
                        Ok(_) => Ok(
                            GeoTiffLayoutModel {
                                index,
                                width: img.width as usize,
                                height: img.height as usize,
                                cell_count: cells,
                                pixel_scale: s,
                                tiepoint: t,
                            },
                        ),
                    }
                },
            },
        },
    }
}

fn geotiff_image(
    name: &str,
    index: usize,
    img: &GeoTiffImageInfo,
    kind: GeoTiffGridKind,
    georef_ok: bool,
) -> (r: Result<GeoTiffImageLayout, GridError>)
    ensures
        match r {
            Ok(l) => Ok::<GeoTiffLayoutModel, GridErrorModel>(l@),
            Err(e) => Err(e@),
        } == geotiff_image_spec(name@, index, img@, kind, georef_ok),
{
    let width = img.0 as usize;
    let height = img.1 as usize;
    let cells = geotiff_image_cells(name, index, width, height)?;
    let scale = match &img.3 {
        None => return Err(prefixed_message(name, ": missing ModelPixelScale")),
        Some(s) => s,
    };
    let tiepoint = match &img.4 {
        None => return Err(prefixed_message(name, ": missing ModelTiepoint")),
        Some(t) => t,
    };
    if scale.len() < 2 || tiepoint.len() < 6 {
        return Err(prefixed_message(name, ": malformed GeoTIFF georeferencing tags"));
    }
    if !georef_ok {
        return Err(prefixed_message(name, ": invalid GeoTIFF georeferencing"));
    }
    geotiff_check_bands(name, index, img.2 as usize, kind)?;
    Ok(
        GeoTiffImageLayout {
            index,
            width,
            height,
            cell_count: cells,
            pixel_scale: scale.clone(),
            tiepoint: tiepoint.clone(),
        },
    )
}

/// The images of a horizontal grid after checking the first `k`, with their
/// total cell count, or the first failure.
pub open spec fn geotiff_images_upto(
    name: Seq<char>,
    images: Seq<GeoTiffImageModel>,
    georef: Seq<bool>,
    k: nat,
) -> Result<
    (Seq<GeoTiffLayoutModel>, usize),
    GridErrorModel,
>
    decreases k,
{
    if k == 0 {
        Ok((Seq::empty(), 0usize))
    } else {
        match geotiff_images_upto(name, images, georef, (k - 1) as nat) {
            Err(e) => Err(e),
            Ok((layouts, total)) => match geotiff_image_spec(
                name,
                (k - 1) as usize,
                images[k - 1],
                GeoTiffGridKind::Horizontal,
                georef[k - 1],
            ) {
                Err(e) => Err(e),
                Ok(l) => match geotiff_total_spec(name, total, l.cell_count) {
                    Err(e) => Err(e),
                    Ok(t) => Ok((layouts.push(l), t)),
                },
            },
        }
    }
}

/// The structure of a decoded GeoTIFF grid, or why it is refused: the image
/// count is checked, the base image's GDAL metadata names the kind, and the
/// images the grid uses are checked in order, `georef[i]` telling whether
/// the georeferencing values of image `i` are valid.
pub open spec fn geotiff_structure_spec(
    name: Seq<char>,
    info: GeoTiffInfoModel,
    georef: Seq<bool>,
) -> Result<
    GeoTiffStructureModel,
    GridErrorModel,
> {
    let n = info.images.len();
    match geotiff_ifd_count_spec(name, n as usize) {
        Err(e) => Err(e),
        Ok(_) => if info.base_index >= n {
            parse_error(name + ": IFD index "@ + decimal(info.base_index as nat) + " not found"@)
        } else {
            match geotiff_grid_kind_spec(info.images[info.base_index as int].gdal_metadata, name) {
                Err(e) => Err(e),
                Ok(GeoTiffGridKind::Vertical) => match geotiff_image_spec(
                    name,
                    info.base_index,
                    info.images[info.base_index as int],
                    GeoTiffGridKind::Vertical,
                    georef[info.base_index as int],
                ) {
                    Err(e) => Err(e),
                    Ok(l) => Ok(
                        GeoTiffStructureModel { kind: GeoTiffGridKind::Vertical, images: seq![l] },
                    ),
                },
                Ok(GeoTiffGridKind::Horizontal) => match geotiff_images_upto(
                    name,
                    info.images,
                    georef,
                    n,
                ) {
                    Err(e) => Err(e),
                    Ok((layouts, _)) => Ok(
                        GeoTiffStructureModel { kind: GeoTiffGridKind::Horizontal, images: layouts },
                    ),
                },
            }
        },
    }
}

proof fn lemma_images_err_sticks(
    name: Seq<char>,
    images: Seq<GeoTiffImageModel>,
    georef: Seq<bool>,
    k: nat,
    m: nat,
)
    requires
        k <= m,
        geotiff_images_upto(name, images, georef, k) is Err,
    ensures
        geotiff_images_upto(name, images, georef, m) == geotiff_images_upto(name, images, georef, k),
    decreases m - k,
{
    if k < m {
        lemma_images_err_sticks(name, images, georef, k, (m - 1) as nat);
    }
}

/// Checks the structure of a decoded GeoTIFF grid, given for each image
/// whether its georeferencing values are valid.
pub fn geotiff_structure(name: &str, info: &GeoTiffInfo, georef_ok: &Vec<bool>) -> (r: Result<
    GeoTiffStructure,
    GridError,
>)
    requires
        georef_ok@.len() == info.images@.len(),
    ensures
        structure_result(r) == geotiff_structure_spec(name@, info@, georef_ok@),
{
    let ghost imgs = info.images@.map_values(|i: GeoTiffImageInfo| i@);
    let n = info.images.len();
    geotiff_check_ifd_count(name, n)?;
    let base = info.base_index;
    if base >= n {
        let mut m = name.to_owned();
        append_str(&mut m, ": IFD index ");
        append_decimal(&mut m, base as u64);
        append_str(&mut m, " not found");
        return Err(GridError::Parse(m));
    }
    assert(imgs[base as int] == info.images@[base as int]@);
    let type_text = match &info.images[base].5 {
        Some(t) => Some(t.as_str()),
        None => None,
    };
    let kind = geotiff_grid_kind(type_text, name)?;
    match kind {
        GeoTiffGridKind::Vertical => {
            let l = geotiff_image(name, base, &info.images[base], kind, georef_ok[base])?;
            let mut images = Vec::new();
            images.push(l);
            assert(images@.map_values(|l: GeoTiffImageLayout| l@) =~= seq![images@[0]@]);
            Ok(GeoTiffStructure { kind, images })
        },
        GeoTiffGridKind::Horizontal => {
            let mut images: Vec<GeoTiffImageLayout> = Vec::new();
            let mut total: usize = 0;
            let mut k: usize = 0;
            assert(images@.map_values(|l: GeoTiffImageLayout| l@) =~= Seq::<GeoTiffLayoutModel>::empty());
            assert(info@.images == imgs);
            while k < n
                invariant
                    k <= n,
                    n == info.images@.len(),
                    n == georef_ok@.len(),
                    images@.len() == k,
                    imgs == info.images@.map_values(|i: GeoTiffImageInfo| i@),
                    geotiff_structure_spec(name@, info@, georef_ok@) == match geotiff_images_upto(
                        name@,
                        imgs,
                        georef_ok@,
                        n as nat,
                    ) {
                        Err(e) => Err(e),
                        Ok((layouts, _)) => Ok(
                            GeoTiffStructureModel {
                                kind: GeoTiffGridKind::Horizontal,
                                images: layouts,
                            },
                        ),
                    },
                    geotiff_images_upto(name@, imgs, georef_ok@, k as nat) == Ok::<
                        (Seq<GeoTiffLayoutModel>, usize),
                        GridErrorModel,
                    >((images@.map_values(|l: GeoTiffImageLayout| l@), total)),
                decreases n - k,
            {
                assert(imgs[k as int] == info.images@[k as int]@);
                let l = match geotiff_image(
                    name,
                    k,
                    &info.images[k],
                    GeoTiffGridKind::Horizontal,
                    georef_ok[k],
                ) {
                    Ok(l) => l,
                    Err(e) => {
                        proof {
                            lemma_images_err_sticks(name@, imgs, georef_ok@, (k + 1) as nat, n as nat);
                        }
                        return Err(e);
                    },
                };
                total = match geotiff_add_cells(name, total, l.cell_count) {
                    Ok(t) => t,
                    Err(e) => {
                        proof {
                            lemma_images_err_sticks(name@, imgs, georef_ok@, (k + 1) as nat, n as nat);
                        }
                        return Err(e);
                    },
                };
                let ghost before = images@.map_values(|l: GeoTiffImageLayout| l@);
                let ghost lm = l@;
                images.push(l);
                assert(images@.map_values(|l: GeoTiffImageLayout| l@) =~= before.push(lm));
                k = k + 1;
            }
            Ok(GeoTiffStructure { kind, images })
        },
    }
}

pub open spec fn info_result(r: Result<GeoTiffInfo, GridError>) -> Result<
    GeoTiffInfoModel,
    GridErrorModel,
> {
    match r {
        Ok(i) => Ok(i@),
        Err(e) => Err(e@),
    }
}

/// Decodes a GeoTIFF grid with at most `MAX_GEOTIFF_IFDS` images; a
/// decoding error is reported after the resource name. On success the base
/// image is one of the images.
pub fn decode_geotiff_info(name: &str, bytes: &[u8]) -> (r: Result<GeoTiffInfo, GridError>)
    ensures
        info_result(r) == match geotiff_decoded(bytes@, MAX_GEOTIFF_IFDS as nat) {
            Err(m) => parse_error(name@ + ": "@ + m),
            Ok(info) => Ok(info),
        },
        r matches Ok(i) ==> i.base_index < i.images@.len(),
{
    let mut copy: Vec<u8> = Vec::new();
    push_bytes(&mut copy, bytes);
    assert(copy@ =~= bytes@);
    match decode_geotiff(copy, MAX_GEOTIFF_IFDS) {
        Err(m) => {
            let mut text = name.to_owned();
            append_str(&mut text, ": ");
            append_str(&mut text, m.as_str());
            Err(GridError::Parse(text))
        },
        Ok(info) => Ok(info),
    }
}

/// The checks of one image accept it exactly when it is 2x2 to the size
/// limit on each side and in cells, it has a pixel scale of at least two
/// values and a tiepoint of at least six, its georeferencing values are
/// valid and it has the bands its kind needs, at most four; the accepted
/// image keeps its index, its size and its cell count `width * height`.
pub proof fn lemma_geotiff_image_acceptance(
    name: Seq<char>,
    index: usize,
    img: GeoTiffImageModel,
    kind: GeoTiffGridKind,
    georef_ok: bool,
)
    ensures
        geotiff_image_spec(name, index, img, kind, georef_ok) is Ok <==> {
            &&& 2 <= img.width && 2 <= img.height
            &&& img.width <= MAX_GEOTIFF_CELLS_PER_IMAGE && img.height <= MAX_GEOTIFF_CELLS_PER_IMAGE
            &&& img.width * img.height <= MAX_GEOTIFF_CELLS_PER_IMAGE
            &&& img.pixel_scale matches Some(s) && s.len() >= 2
            &&& img.tiepoint matches Some(t) && t.len() >= 6
            &&& georef_ok
            &&& (match kind {
                GeoTiffGridKind::Horizontal => 2int,
                GeoTiffGridKind::Vertical => 1int,
            }) <= img.samples_per_pixel <= MAX_GEOTIFF_BANDS
        },
        geotiff_image_spec(name, index, img, kind, georef_ok) matches Ok(l) ==> {
            &&& l.index == index
            &&& l.width == img.width && l.height == img.height
            &&& l.cell_count == img.width * img.height
        },
{
}

/// The node count along one axis of a subgrid, from the number of whole
/// spacings its span holds (rounded by the caller): one more than that
/// number, refused when over the per-subgrid limit or under two nodes.
pub open spec fn ntv2_axis_count_spec(rounded: usize, axis: Seq<char>, name: Seq<char>) -> Result<
    usize,
    GridErrorModel,
> {
    if rounded > MAX_NTV2_CELLS_PER_SUBGRID - 1 {
        parse_error(
            "NTv2 subgrid "@ + name + " "@ + axis + " cell count exceeds limit "@ + decimal(
                MAX_NTV2_CELLS_PER_SUBGRID as nat,
            ),
        )
    } else if rounded + 1 < 2 {
        parse_error("NTv2 subgrid "@ + name + " has fewer than two "@ + axis + " cells"@)
    } else {
        Ok((rounded + 1) as usize)
    }
}

pub fn ntv2_axis_count(rounded: usize, axis: &str, name: &str) -> (r: Result<usize, GridError>)
    ensures
        grid_result(r) == ntv2_axis_count_spec(rounded, axis@, name@),
        r matches Ok(n) ==> 2 <= n <= MAX_NTV2_CELLS_PER_SUBGRID,
{
    if rounded > MAX_NTV2_CELLS_PER_SUBGRID - 1 {
        let mut m = "NTv2 subgrid ".to_owned();
        append_str(&mut m, name);
        append_str(&mut m, " ");
        append_str(&mut m, axis);
        append_str(&mut m, " cell count exceeds limit ");
        append_decimal(&mut m, MAX_NTV2_CELLS_PER_SUBGRID as u64);
        return Err(GridError::Parse(m));
    }
    if rounded + 1 < 2 {
        let mut m = "NTv2 subgrid ".to_owned();
        append_str(&mut m, name);
        append_str(&mut m, " has fewer than two ");
        append_str(&mut m, axis);
        append_str(&mut m, " cells");
        return Err(GridError::Parse(m));
    }
    Ok(rounded + 1)
}

/// An NTv2 file is read as 1 to `MAX_NTV2_SUBFILES` subfiles.
pub proof fn lemma_ntv2_subfile_count(d: Seq<u8>)
    ensures
        ntv2_overview_spec(d) matches Ok((e, n)) ==> 1 <= n <= MAX_NTV2_SUBFILES,
{
}

/// An accepted subgrid of `width` by `height` nodes declares exactly that
/// many nodes, no more than the per-subgrid limit; the running totals grow
/// by its nodes and its record bytes and stay within their limits, and its
/// records end inside the file.
pub proof fn lemma_ntv2_subgrid_accepted(
    t: Ntv2Totals,
    name: Seq<char>,
    width: usize,
    height: usize,
    gs_count: usize,
    header_end: usize,
    len: nat,
)
    ensures
        ntv2_subgrid_spec(t, name, width, height, gs_count, header_end, len) matches Ok((t2, end))
            ==> {
            &&& width * height == gs_count
            &&& gs_count <= MAX_NTV2_CELLS_PER_SUBGRID
            &&& t2.cells == t.cells + gs_count
            &&& t2.cells <= MAX_NTV2_TOTAL_CELLS
            &&& t2.data_bytes == t.data_bytes + gs_count * NTV2_RECORD_LEN
            &&& t2.data_bytes <= MAX_NTV2_TOTAL_DATA_BYTES
            &&& end == header_end + gs_count * NTV2_RECORD_LEN
            &&& end <= len
        },
{
}

/// In a linked NTv2 tree every subgrid stands exactly once: among the
/// top-level subgrids, or in the children of exactly one subgrid.
pub proof fn lemma_ntv2_tree_partition(names: Seq<Seq<char>>, parents: Seq<Seq<char>>)
    requires
        names.len() == parents.len(),
        names.len() <= usize::MAX,
    ensures
        ntv2_links_upto(names, parents, names.len()) matches Ok((children, roots)) ==> forall|
            idx: usize,
        |
            idx < names.len() ==> {
                &&& roots.contains(idx) ==> forall|j: int|
                    0 <= j < children.len() ==> !(#[trigger] children[j].contains(idx))
                &&& !roots.contains(idx) ==> exists|j: int|
                    0 <= j < children.len() && #[trigger] children[j].contains(idx)
                &&& forall|j1: int, j2: int|
                    0 <= j1 < children.len() && 0 <= j2 < children.len() && #[trigger] children[j1].contains(
                        idx,
                    ) && #[trigger] children[j2].contains(idx) ==> j1 == j2
            },
{
    lemma_ntv2_links_place_subgrids(names, parents, names.len());
    if let Ok((children, roots)) = ntv2_links_upto(names, parents, names.len()) {
        let f = ntv2_parent_of(names, parents);
        assert forall|idx: usize| idx < names.len() implies {
            &&& roots.contains(idx) ==> forall|j: int|
                0 <= j < children.len() ==> !(#[trigger] children[j].contains(idx))
            &&& !roots.contains(idx) ==> exists|j: int|
                0 <= j < children.len() && #[trigger] children[j].contains(idx)
            &&& forall|j1: int, j2: int|
                0 <= j1 < children.len() && 0 <= j2 < children.len() && #[trigger] children[j1].contains(
                    idx,
                ) && #[trigger] children[j2].contains(idx) ==> j1 == j2
        } by {
            lemma_last_named_range(names, parents[idx as int]);
            if !roots.contains(idx) {
                let j = f(idx as int).unwrap();
                assert(children[j].contains(idx));
            }
        }
    }
}

/// The big-endian bytes of a `u64`.
pub open spec fn be_bytes_u64(v: u64) -> Seq<u8> {
    seq![
        (v >> 56u64) as u8,
        (v >> 48u64) as u8,
        (v >> 40u64) as u8,
        (v >> 32u64) as u8,
        (v >> 24u64) as u8,
        (v >> 16u64) as u8,
        (v >> 8u64) as u8,
        v as u8,
    ]
}

/// The big-endian bytes of a `u32`.
pub open spec fn be_bytes_u32(v: u32) -> Seq<u8> {
    seq![(v >> 24u32) as u8, (v >> 16u32) as u8, (v >> 8u32) as u8, v as u8]
}

/// The 40 header bytes of a GTX file with the given header: south, west,
/// latitude spacing, longitude spacing, rows and columns, each big-endian.
pub open spec fn gtx_header_bytes(h: GtxHeader) -> Seq<u8> {
    be_bytes_u64(h.south_bits) + be_bytes_u64(h.west_bits) + be_bytes_u64(h.delta_lat_bits)
        + be_bytes_u64(h.delta_lon_bits) + be_bytes_u32(h.height as u32) + be_bytes_u32(
        h.width as u32,
    )
}

proof fn lemma_be_u64_at(d: Seq<u8>, o: int, v: u64)
    requires
        0 <= o,
        o + 8 <= d.len(),
        d.subrange(o, o + 8) == be_bytes_u64(v),
    ensures
        be_u64(d, o) == v,
{
    let s = be_bytes_u64(v);
    assert(d.subrange(o, o + 8)[0] == d[o]);
    assert(d.subrange(o, o + 8)[1] == d[o + 1]);
    assert(d.subrange(o, o + 8)[2] == d[o + 2]);
    assert(d.subrange(o, o + 8)[3] == d[o + 3]);
    assert(d.subrange(o, o + 8)[4] == d[o + 4]);
    assert(d.subrange(o, o + 8)[5] == d[o + 5]);
    assert(d.subrange(o, o + 8)[6] == d[o + 6]);
    assert(d.subrange(o, o + 8)[7] == d[o + 7]);
    assert(((((v >> 56u64) as u8) as u64) << 56u64) | ((((v >> 48u64) as u8) as u64) << 48u64)
        | ((((v >> 40u64) as u8) as u64) << 40u64) | ((((v >> 32u64) as u8) as u64) << 32u64) | ((((v
        >> 24u64) as u8) as u64) << 24u64) | ((((v >> 16u64) as u8) as u64) << 16u64) | ((((v
        >> 8u64) as u8) as u64) << 8u64) | ((v as u8) as u64) == v) by (bit_vector);
}

proof fn lemma_be_u32_at(d: Seq<u8>, o: int, v: u32)
    requires
        0 <= o,
        o + 4 <= d.len(),
        d.subrange(o, o + 4) == be_bytes_u32(v),
    ensures
        be_u32(d, o) == v,
{
    assert(d.subrange(o, o + 4)[0] == d[o]);
    assert(d.subrange(o, o + 4)[1] == d[o + 1]);
    assert(d.subrange(o, o + 4)[2] == d[o + 2]);
    assert(d.subrange(o, o + 4)[3] == d[o + 3]);
    assert(((((v >> 24u32) as u8) as u32) << 24u32) | ((((v >> 16u32) as u8) as u32) << 16u32)
        | ((((v >> 8u32) as u8) as u32) << 8u32) | ((v as u8) as u32) == v) by (bit_vector);
}

/// Reading the header of a GTX file whose first 40 bytes were written from
/// a header gives back that header: south and west at bytes 0 and 8, the
/// latitude spacing at 16, the longitude spacing at 24, rows at 32 and
/// columns at 36, each big-endian.
pub proof fn lemma_gtx_header_round_trip(h: GtxHeader, data: Seq<u8>)
    requires
        GTX_HEADER_LEN + data.len() <= MAX_GTX_GRID_BYTES,
    ensures
        gtx_header_spec(gtx_header_bytes(h) + data) == Ok::<GtxHeader, GridErrorModel>(h),
{
    let r = gtx_header_bytes(h);
    let d = r + data;
    assert(r.len() == 40);
    assert(d.subrange(0, 8) =~= be_bytes_u64(h.south_bits));
    lemma_be_u64_at(d, 0, h.south_bits);
    assert(d.subrange(8, 16) =~= be_bytes_u64(h.west_bits));
    lemma_be_u64_at(d, 8, h.west_bits);
    assert(d.subrange(16, 24) =~= be_bytes_u64(h.delta_lat_bits));
    lemma_be_u64_at(d, 16, h.delta_lat_bits);
    assert(d.subrange(24, 32) =~= be_bytes_u64(h.delta_lon_bits));
    lemma_be_u64_at(d, 24, h.delta_lon_bits);
    assert(d.subrange(32, 36) =~= be_bytes_u32(h.height as u32));
    lemma_be_u32_at(d, 32, h.height as u32);
    assert(d.subrange(36, 40) =~= be_bytes_u32(h.width as u32));
    lemma_be_u32_at(d, 36, h.width as u32);
    let height = h.height;
    let width = h.width;
    assert(((height as u32) as i32) == height) by (bit_vector);
    assert(((width as u32) as i32) == width) by (bit_vector);
}

proof fn lemma_images_upto_layouts(
    name: Seq<char>,
    images: Seq<GeoTiffImageModel>,
    georef: Seq<bool>,
    k: nat,
)
    requires
        k <= images.len(),
        k <= usize::MAX,
    ensures
        geotiff_images_upto(name, images, georef, k) matches Ok((layouts, _)) ==> {
            &&& layouts.len() == k
            &&& forall|i: int| 0 <= i < k ==> (#[trigger] layouts[i]).index == i
        },
    decreases k,
{
    if k > 0 {
        lemma_images_upto_layouts(name, images, georef, (k - 1) as nat);
        lemma_geotiff_image_acceptance(
            name,
            (k - 1) as usize,
            images[k - 1],
            GeoTiffGridKind::Horizontal,
            georef[k - 1],
        );
    }
}

/// An accepted GeoTIFF grid uses every image of a horizontal file, in file
/// order (layout `i` is image `i`), and only the base image of a vertical
/// one.
pub proof fn lemma_geotiff_structure_uses_images(
    name: Seq<char>,
    info: GeoTiffInfoModel,
    georef: Seq<bool>,
)
    requires
        info.images.len() <= usize::MAX,
    ensures
        geotiff_structure_spec(name, info, georef) matches Ok(s) ==> match s.kind {
            GeoTiffGridKind::Horizontal => {
                &&& s.images.len() == info.images.len()
                &&& forall|i: int| 0 <= i < s.images.len() ==> (#[trigger] s.images[i]).index == i
            },
            GeoTiffGridKind::Vertical => s.images.len() == 1 && s.images[0].index == info.base_index,
        },
{
    lemma_images_upto_layouts(name, info.images, georef, info.images.len());
    if info.base_index < info.images.len() {
        lemma_geotiff_image_acceptance(
            name,
            info.base_index,
            info.images[info.base_index as int],
            GeoTiffGridKind::Vertical,
            georef[info.base_index as int],
        );
    }
}

/// The bytes of a `u64` in byte order `e`.
pub open spec fn u64_bytes_in(e: Endian, v: u64) -> Seq<u8> {
    match e {
        Endian::Little => le_bytes_u64(v),
        Endian::Big => be_bytes_u64(v),
    }
}

/// The bytes of a `u32` in byte order `e`.
pub open spec fn u32_bytes_in(e: Endian, v: u32) -> Seq<u8> {
    match e {
        Endian::Little => le_bytes_u32(v),
        Endian::Big => be_bytes_u32(v),
    }
}

proof fn lemma_u64_at_window(d: Seq<u8>, o: int, e: Endian, v: u64)
    requires
        0 <= o,
        o + 8 <= d.len(),
        d.subrange(o, o + 8) == u64_bytes_in(e, v),
    ensures
        u64_at(d, o, e) == v,
{
    match e {
        Endian::Little => lemma_le_u64_window(d, o, v),
        Endian::Big => lemma_be_u64_at(d, o, v),
    }
}

proof fn lemma_u32_at_window(d: Seq<u8>, o: int, e: Endian, v: u32)
    requires
        0 <= o,
        o + 4 <= d.len(),
        d.subrange(o, o + 4) == u32_bytes_in(e, v),
    ensures
        u32_at(d, o, e) == v,
{
    match e {
        Endian::Little => lemma_le_u32_window(d, o, v),
        Endian::Big => lemma_be_u32_at(d, o, v),
    }
}

/// A subfile header that starts with `SUB_NAME` and holds, in byte order
/// `e`, the south, north, east and west limits at offsets 72, 88, 104 and
/// 120, the latitude and longitude spacings at 136 and 152 and the node
/// count at 168 is read as exactly those values, its records starting right
/// after its 176 bytes.
pub proof fn lemma_ntv2_subfile_fields(
    d: Seq<u8>,
    o: usize,
    e: Endian,
    south: u64,
    north: u64,
    east: u64,
    west: u64,
    lat_inc: u64,
    lon_inc: u64,
    count: u32,
)
    requires
        o + NTV2_HEADER_LEN <= d.len(),
        o + NTV2_HEADER_LEN <= usize::MAX,
        d.subrange(o as int, o + 8) == sub_name_tag(),
        d.subrange(o + 72, o + 80) == u64_bytes_in(e, south),
        d.subrange(o + 88, o + 96) == u64_bytes_in(e, north),
        d.subrange(o + 104, o + 112) == u64_bytes_in(e, east),
        d.subrange(o + 120, o + 128) == u64_bytes_in(e, west),
        d.subrange(o + 136, o + 144) == u64_bytes_in(e, lat_inc),
        d.subrange(o + 152, o + 160) == u64_bytes_in(e, lon_inc),
        d.subrange(o + 168, o + 172) == u32_bytes_in(e, count),
    ensures
        ntv2_subfile_spec(d, o, e) matches Ok(h) && h.south_bits == south && h.north_bits == north
            && h.east_bits == east && h.west_bits == west && h.lat_increment_bits == lat_inc
            && h.lon_increment_bits == lon_inc && h.gs_count == count && h.header_end == o
            + NTV2_HEADER_LEN,
{
    lemma_u64_at_window(d, o + 72, e, south);
    lemma_u64_at_window(d, o + 88, e, north);
    lemma_u64_at_window(d, o + 104, e, east);
    lemma_u64_at_window(d, o + 120, e, west);
    lemma_u64_at_window(d, o + 136, e, lat_inc);
    lemma_u64_at_window(d, o + 152, e, lon_inc);
    lemma_u32_at_window(d, o + 168, e, count);
}

} // verus!
