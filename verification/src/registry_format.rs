//! The embedded EPSG registry's binary format.
//!
//! The registry is a little-endian file: a 36-byte header (magic, version and
//! seven record counts) followed by the ellipsoid, datum, geographic CRS,
//! projected CRS, extent, grid and operation sections. Floating-point fields
//! are carried as their raw IEEE-754 bit patterns; names are carried as the
//! bytes the file stores.

use vstd::prelude::*;
use crate::grid::GridFormat;
use crate::text::{from_utf8_lossy, utf8_lossy};
use crate::operation::{
    CoordinateOperationId, GridId, GridInterpolation, GridShiftDirection, OperationStep,
    OperationStepDirection,
};

verus! {

pub const REGISTRY_MAGIC: u32 = 0x4550_5347;
pub const REGISTRY_VERSION: u16 = 5;
pub const REGISTRY_HEADER_SIZE: usize = 36;

pub const ELLIPSOID_RECORD_SIZE: usize = 20;
pub const DATUM_RECORD_SIZE: usize = 72;
pub const GEO_CRS_RECORD_BASE_SIZE: usize = 8;
pub const PROJ_CRS_RECORD_BASE_SIZE: usize = 80;

pub const DATUM_SHIFT_UNKNOWN: u8 = 0;
pub const DATUM_SHIFT_IDENTITY: u8 = 1;
pub const DATUM_SHIFT_HELMERT: u8 = 2;

pub const METHOD_WEB_MERCATOR: u8 = 1;
pub const METHOD_TRANSVERSE_MERCATOR: u8 = 2;
pub const METHOD_MERCATOR: u8 = 3;
pub const METHOD_LCC: u8 = 4;
pub const METHOD_ALBERS: u8 = 5;
pub const METHOD_POLAR_STEREO: u8 = 6;
pub const METHOD_EQUIDISTANT_CYL: u8 = 7;

pub const OP_IDENTITY: u8 = 0;
pub const OP_HELMERT: u8 = 1;
pub const OP_GRID_SHIFT: u8 = 2;
pub const OP_CONCATENATED: u8 = 3;

pub const FLAG_DEPRECATED: u8 = 1;
pub const FLAG_PREFERRED: u8 = 2;
pub const FLAG_APPROXIMATE: u8 = 4;

pub const GRID_FORMAT_NTV2: u8 = 1;
pub const GRID_INTERPOLATION_BILINEAR: u8 = 1;

/// Why a registry file was rejected.
#[derive(Debug, Clone, Copy, PartialEq, Eq, Structural)]
pub enum RegistryError {
    /// Shorter than the header.
    TooSmall,
    /// The magic number is not `EPSG`.
    InvalidMagic,
    /// The format version is not the supported one.
    UnsupportedVersion,
    /// A record reaches past the end of the file.
    Truncated,
    /// A datum names an ellipsoid that the file does not define.
    MissingEllipsoid(u32),
    UnsupportedDatumShift(u8),
    /// A projected CRS's linear unit is not a finite positive number.
    InvalidLinearUnit,
    UnsupportedProjectionMethod(u8),
    UnsupportedGridInterpolation(u8),
    UnsupportedGridDirection(u8),
    UnsupportedStepDirection(u8),
    UnsupportedOperationMethod(u8),
}

// ---------------------------------------------------------------------------
// Little-endian readers
// ---------------------------------------------------------------------------

pub open spec fn le_u16(d: Seq<u8>, o: int) -> u16 {
    (d[o] as u16) | ((d[o + 1] as u16) << 8u16)
}

pub open spec fn le_u32(d: Seq<u8>, o: int) -> u32 {
    (d[o] as u32) | ((d[o + 1] as u32) << 8u32) | ((d[o + 2] as u32) << 16u32) | ((d[o
        + 3] as u32) << 24u32)
}

pub open spec fn le_u64(d: Seq<u8>, o: int) -> u64 {
    (d[o] as u64) | ((d[o + 1] as u64) << 8u64) | ((d[o + 2] as u64) << 16u64) | ((d[o
        + 3] as u64) << 24u64) | ((d[o + 4] as u64) << 32u64) | ((d[o + 5] as u64) << 40u64)
        | ((d[o + 6] as u64) << 48u64) | ((d[o + 7] as u64) << 56u64)
}

/// Reads a little-endian `u16` at `offset`.
pub fn read_u16(data: &[u8], offset: usize) -> (r: u16)
    requires
        offset + 2 <= data@.len(),
    ensures
        r == le_u16(data@, offset as int),
{
    (data[offset] as u16) | ((data[offset + 1] as u16) << 8u16)
}

/// Reads a little-endian `u32` at `offset`.
pub fn read_u32(data: &[u8], offset: usize) -> (r: u32)
    requires
        offset + 4 <= data@.len(),
    ensures
        r == le_u32(data@, offset as int),
{
    (data[offset] as u32) | ((data[offset + 1] as u32) << 8u32) | ((data[offset + 2] as u32)
        << 16u32) | ((data[offset + 3] as u32) << 24u32)
}

/// Reads the raw bits of a little-endian `f64` at `offset`.
pub fn read_u64(data: &[u8], offset: usize) -> (r: u64)
    requires
        offset + 8 <= data@.len(),
    ensures
        r == le_u64(data@, offset as int),
{
    (data[offset] as u64) | ((data[offset + 1] as u64) << 8u64) | ((data[offset + 2] as u64)
        << 16u64) | ((data[offset + 3] as u64) << 24u64) | ((data[offset + 4] as u64) << 32u64)
        | ((data[offset + 5] as u64) << 40u64) | ((data[offset + 6] as u64) << 48u64) | ((
    data[offset + 7] as u64) << 56u64)
}

/// Copies `len` bytes starting at `offset`.
pub fn read_bytes(data: &[u8], offset: usize, len: usize) -> (r: Vec<u8>)
    requires
        offset + len <= data@.len(),
    ensures
        r@ == data@.subrange(offset as int, offset + len),
{
    let mut r: Vec<u8> = Vec::new();
    let mut i: usize = 0;
    let dlen = data.len();
    while i < len
        invariant
            i <= len,
            offset + len <= data@.len(),
            dlen == data@.len(),
            r@ == data@.subrange(offset as int, offset + i),
        decreases len - i,
    {
        r.push(data[offset + i]);
        assert(data@.subrange(offset as int, offset + i).push(data@[offset + i]) =~= data@.subrange(
            offset as int,
            offset + i + 1,
        ));
        i = i + 1;
    }
    r
}

/// Decodes `len` bytes at `offset` as UTF-8 text, replacing invalid
/// sequences.
pub fn read_string(data: &[u8], offset: usize, len: usize) -> (r: String)
    requires
        offset + len <= data@.len(),
    ensures
        r@ == utf8_lossy(data@.subrange(offset as int, offset + len)),
{
    let bytes = read_bytes(data, offset, len);
    from_utf8_lossy(bytes.as_slice())
}

/// Like `read_string`, but an empty field gives the empty string without
/// decoding.
pub fn read_static_string(data: &[u8], offset: usize, len: usize) -> (r: String)
    requires
        offset + len <= data@.len(),
    ensures
        r@ == (if len == 0 {
            Seq::<char>::empty()
        } else {
            utf8_lossy(data@.subrange(offset as int, offset + len))
        }),
{
    if len == 0 {
        String::new()
    } else {
        read_string(data, offset, len)
    }
}

/// Registry codes use 0 for "absent".
pub open spec fn spec_opt_code(code: u32) -> Option<u32> {
    if code == 0 {
        None
    } else {
        Some(code)
    }
}

pub fn opt_code(code: u32) -> (r: Option<u32>)
    ensures
        r == spec_opt_code(code),
{
    if code == 0 {
        None
    } else {
        Some(code)
    }
}

/// The bits of an IEEE-754 double that is a NaN.
pub open spec fn is_nan_bits(bits: u64) -> bool {
    (bits & 0x7ff0_0000_0000_0000u64) == 0x7ff0_0000_0000_0000u64 && (bits
        & 0x000f_ffff_ffff_ffffu64) != 0
}

/// The bits of an IEEE-754 double that is finite and greater than zero:
/// sign clear, not zero, exponent not all ones.
pub open spec fn is_positive_finite_bits(bits: u64) -> bool {
    0 < bits < 0x7ff0_0000_0000_0000u64
}

pub fn nan_bits(bits: u64) -> (r: bool)
    ensures
        r == is_nan_bits(bits),
{
    (bits & 0x7ff0_0000_0000_0000u64) == 0x7ff0_0000_0000_0000u64 && (bits
        & 0x000f_ffff_ffff_ffffu64) != 0
}

// ---------------------------------------------------------------------------
// Records
// ---------------------------------------------------------------------------

/// An ellipsoid: semi-major axis and inverse flattening (0 for a sphere).
#[derive(Debug, Clone, Copy, PartialEq, Eq, Structural)]
pub struct EllipsoidRecord {
    pub code: u32,
    pub semi_major_axis_bits: u64,
    pub inverse_flattening_bits: u64,
}

/// Seven-parameter Helmert transformation (dx, dy, dz in metres; rx, ry, rz
/// in arc-seconds; ds in ppm), as raw `f64` bits.
#[derive(Debug, Clone, Copy, PartialEq, Eq, Structural)]
pub struct HelmertBits {
    pub dx: u64,
    pub dy: u64,
    pub dz: u64,
    pub rx: u64,
    pub ry: u64,
    pub rz: u64,
    pub ds: u64,
}

/// How a datum relates to WGS 84.
#[derive(Debug, Clone, Copy, PartialEq, Eq, Structural)]
pub enum DatumShiftRecord {
    Unknown,
    Identity,
    Helmert(HelmertBits),
}

#[derive(Debug, Clone, Copy, PartialEq, Eq, Structural)]
pub struct DatumRecord {
    pub code: u32,
    pub ellipsoid_code: u32,
    pub to_wgs84: DatumShiftRecord,
}

impl View for EllipsoidRecord {
    type V = EllipsoidRecord;

    open spec fn view(&self) -> EllipsoidRecord {
        *self
    }
}

impl View for DatumRecord {
    type V = DatumRecord;

    open spec fn view(&self) -> DatumRecord {
        *self
    }
}

#[derive(Debug)]
pub struct GeographicRecord {
    pub code: u32,
    pub datum_code: u32,
    pub name: Vec<u8>,
}

pub struct GeographicModel {
    pub code: u32,
    pub datum_code: u32,
    pub name: Seq<u8>,
}

impl View for GeographicRecord {
    type V = GeographicModel;

    open spec fn view(&self) -> GeographicModel {
        GeographicModel { code: self.code, datum_code: self.datum_code, name: self.name@ }
    }
}

/// Projection method and parameters (angles in degrees, offsets in metres),
/// as raw `f64` bits.
#[derive(Debug, Clone, Copy, PartialEq, Eq, Structural)]
pub enum ProjectionMethodRecord {
    WebMercator,
    TransverseMercator { lon0: u64, lat0: u64, k0: u64, false_easting: u64, false_northing: u64 },
    Mercator { lon0: u64, lat_ts: u64, k0: u64, false_easting: u64, false_northing: u64 },
    LambertConformalConic {
        lon0: u64,
        lat0: u64,
        lat1: u64,
        lat2: u64,
        false_easting: u64,
        false_northing: u64,
    },
    AlbersEqualArea {
        lon0: u64,
        lat0: u64,
        lat1: u64,
        lat2: u64,
        false_easting: u64,
        false_northing: u64,
    },
    PolarStereographic { lon0: u64, lat_ts: u64, k0: u64, false_easting: u64, false_northing: u64 },
    EquidistantCylindrical { lon0: u64, lat_ts: u64, false_easting: u64, false_northing: u64 },
}

#[derive(Debug)]
pub struct ProjectedRecord {
    pub code: u32,
    pub base_geographic_crs_epsg: u32,
    pub datum_code: u32,
    pub method: ProjectionMethodRecord,
    pub linear_unit_bits: u64,
    pub name: Vec<u8>,
}

pub struct ProjectedModel {
    pub code: u32,
    pub base_geographic_crs_epsg: u32,
    pub datum_code: u32,
    pub method: ProjectionMethodRecord,
    pub linear_unit_bits: u64,
    pub name: Seq<u8>,
}

impl View for ProjectedRecord {
    type V = ProjectedModel;

    open spec fn view(&self) -> ProjectedModel {
        ProjectedModel {
            code: self.code,
            base_geographic_crs_epsg: self.base_geographic_crs_epsg,
            datum_code: self.datum_code,
            method: self.method,
            linear_unit_bits: self.linear_unit_bits,
            name: self.name@,
        }
    }
}

/// An area of use: west, south, east, north in degrees (raw `f64` bits).
#[derive(Debug)]
pub struct ExtentRecord {
    pub code: u32,
    pub west_bits: u64,
    pub south_bits: u64,
    pub east_bits: u64,
    pub north_bits: u64,
    pub name: Vec<u8>,
}

pub struct ExtentModel {
    pub code: u32,
    pub west_bits: u64,
    pub south_bits: u64,
    pub east_bits: u64,
    pub north_bits: u64,
    pub name: Seq<u8>,
}

impl View for ExtentRecord {
    type V = ExtentModel;

    open spec fn view(&self) -> ExtentModel {
        ExtentModel {
            code: self.code,
            west_bits: self.west_bits,
            south_bits: self.south_bits,
            east_bits: self.east_bits,
            north_bits: self.north_bits,
            name: self.name@,
        }
    }
}

/// A grid resource definition. `area_code` 0 means no area of use.
#[derive(Debug)]
pub struct GridRecord {
    pub id: GridId,
    pub name: Vec<u8>,
    pub format: GridFormat,
    pub interpolation: GridInterpolation,
    pub area_code: u32,
    pub resource_names: Vec<Vec<u8>>,
}

pub struct GridModel {
    pub id: GridId,
    pub name: Seq<u8>,
    pub format: GridFormat,
    pub interpolation: GridInterpolation,
    pub area_code: u32,
    pub resource_names: Seq<Seq<u8>>,
}

impl View for GridRecord {
    type V = GridModel;

    open spec fn view(&self) -> GridModel {
        GridModel {
            id: self.id,
            name: self.name@,
            format: self.format,
            interpolation: self.interpolation,
            area_code: self.area_code,
            resource_names: self.resource_names@.map_values(|n: Vec<u8>| n@),
        }
    }
}

/// The method payload of a registry operation.
#[derive(Debug)]
pub enum OperationMethodRecord {
    Identity,
    Helmert(HelmertBits),
    GridShift { grid_id: GridId, interpolation: GridInterpolation, direction: GridShiftDirection },
    Concatenated(Vec<OperationStep>),
}

pub enum OperationMethodModel {
    Identity,
    Helmert(HelmertBits),
    GridShift { grid_id: GridId, interpolation: GridInterpolation, direction: GridShiftDirection },
    Concatenated(Seq<OperationStep>),
}

impl View for OperationMethodRecord {
    type V = OperationMethodModel;

    open spec fn view(&self) -> OperationMethodModel {
        match self {
            OperationMethodRecord::Identity => OperationMethodModel::Identity,
            OperationMethodRecord::Helmert(h) => OperationMethodModel::Helmert(*h),
            OperationMethodRecord::GridShift { grid_id, interpolation, direction } =>
                OperationMethodModel::GridShift {
                grid_id: *grid_id,
                interpolation: *interpolation,
                direction: *direction,
            },
            OperationMethodRecord::Concatenated(steps) => OperationMethodModel::Concatenated(
                steps@,
            ),
        }
    }
}

/// A registry coordinate operation. `area_codes` keeps, in file order, the
/// area codes that name extents the registry defines.
#[derive(Debug)]
pub struct OperationRecord {
    pub id: CoordinateOperationId,
    pub name: Vec<u8>,
    pub source_crs_epsg: Option<u32>,
    pub target_crs_epsg: Option<u32>,
    pub source_datum_epsg: Option<u32>,
    pub target_datum_epsg: Option<u32>,
    /// Accuracy in metres (raw `f64` bits); absent when the file stores NaN.
    pub accuracy_bits: Option<u64>,
    pub area_codes: Vec<u32>,
    pub deprecated: bool,
    pub preferred: bool,
    pub approximate: bool,
    pub method: OperationMethodRecord,
}

pub struct OperationModel {
    pub id: CoordinateOperationId,
    pub name: Seq<u8>,
    pub source_crs_epsg: Option<u32>,
    pub target_crs_epsg: Option<u32>,
    pub source_datum_epsg: Option<u32>,
    pub target_datum_epsg: Option<u32>,
    pub accuracy_bits: Option<u64>,
    pub area_codes: Seq<u32>,
    pub deprecated: bool,
    pub preferred: bool,
    pub approximate: bool,
    pub method: OperationMethodModel,
}

impl View for OperationRecord {
    type V = OperationModel;

    open spec fn view(&self) -> OperationModel {
        OperationModel {
            id: self.id,
            name: self.name@,
            source_crs_epsg: self.source_crs_epsg,
            target_crs_epsg: self.target_crs_epsg,
            source_datum_epsg: self.source_datum_epsg,
            target_datum_epsg: self.target_datum_epsg,
            accuracy_bits: self.accuracy_bits,
            area_codes: self.area_codes@,
            deprecated: self.deprecated,
            preferred: self.preferred,
            approximate: self.approximate,
            method: self.method@,
        }
    }
}

// ---------------------------------------------------------------------------
// Record layouts
// ---------------------------------------------------------------------------

pub open spec fn helmert_at(d: Seq<u8>, o: int) -> HelmertBits {
    HelmertBits {
        dx: le_u64(d, o),
        dy: le_u64(d, o + 8),
        dz: le_u64(d, o + 16),
        rx: le_u64(d, o + 24),
        ry: le_u64(d, o + 32),
        rz: le_u64(d, o + 40),
        ds: le_u64(d, o + 48),
    }
}

pub open spec fn ellipsoid_at(d: Seq<u8>, o: int) -> Result<(EllipsoidRecord, int), RegistryError> {
    if o + 20 > d.len() {
        Err(RegistryError::Truncated)
    } else {
        Ok(
            (
                EllipsoidRecord {
                    code: le_u32(d, o),
                    semi_major_axis_bits: le_u64(d, o + 4),
                    inverse_flattening_bits: le_u64(d, o + 12),
                },
                o + 20,
            ),
        )
    }
}

pub open spec fn has_ellipsoid(ells: Seq<EllipsoidRecord>, code: u32) -> bool {
    exists|i: int| 0 <= i < ells.len() && #[trigger] ells[i].code == code
}

pub open spec fn datum_at(d: Seq<u8>, o: int, ells: Seq<EllipsoidRecord>) -> Result<
    (DatumRecord, int),
    RegistryError,
> {
    if o + 8 > d.len() {
        Err(RegistryError::Truncated)
    } else if !has_ellipsoid(ells, le_u32(d, o + 4)) {
        Err(RegistryError::MissingEllipsoid(le_u32(d, o + 4)))
    } else if o + 9 > d.len() {
        Err(RegistryError::Truncated)
    } else {
        let kind = d[o + 8];
        let code = le_u32(d, o);
        let ellipsoid_code = le_u32(d, o + 4);
        if kind == DATUM_SHIFT_UNKNOWN {
            Ok(
                (
                    DatumRecord { code, ellipsoid_code, to_wgs84: DatumShiftRecord::Unknown },
                    o + 72,
                ),
            )
        } else if kind == DATUM_SHIFT_IDENTITY {
            Ok(
                (
                    DatumRecord { code, ellipsoid_code, to_wgs84: DatumShiftRecord::Identity },
                    o + 72,
                ),
            )
        } else if kind == DATUM_SHIFT_HELMERT {
            if o + 72 > d.len() {
                Err(RegistryError::Truncated)
            } else {
                Ok(
                    (
                        DatumRecord {
                            code,
                            ellipsoid_code,
                            to_wgs84: DatumShiftRecord::Helmert(helmert_at(d, o + 16)),
                        },
                        o + 72,
                    ),
                )
            }
        } else {
            Err(RegistryError::UnsupportedDatumShift(kind))
        }
    }
}

pub open spec fn geographic_at(d: Seq<u8>, o: int) -> Result<(GeographicModel, int), RegistryError> {
    if o + 10 > d.len() {
        Err(RegistryError::Truncated)
    } else {
        let name_len = le_u16(d, o + 8) as int;
        if o + 10 + name_len > d.len() {
            Err(RegistryError::Truncated)
        } else {
            Ok(
                (
                    GeographicModel {
                        code: le_u32(d, o),
                        datum_code: le_u32(d, o + 4),
                        name: d.subrange(o + 10, o + 10 + name_len),
                    },
                    o + 10 + name_len,
                ),
            )
        }
    }
}

/// The projection method a method id and seven parameters decode to.
pub open spec fn decode_projection_method(method_id: u8, p: Seq<u64>) -> Option<
    ProjectionMethodRecord,
> {
    if method_id == METHOD_WEB_MERCATOR {
        Some(ProjectionMethodRecord::WebMercator)
    } else if method_id == METHOD_TRANSVERSE_MERCATOR {
        Some(
            ProjectionMethodRecord::TransverseMercator {
                lon0: p[0],
                lat0: p[1],
                k0: p[2],
                false_easting: p[3],
                false_northing: p[4],
            },
        )
    } else if method_id == METHOD_MERCATOR {
        Some(
            ProjectionMethodRecord::Mercator {
                lon0: p[0],
                lat_ts: p[1],
                k0: p[2],
                false_easting: p[3],
                false_northing: p[4],
            },
        )
    } else if method_id == METHOD_LCC {
        Some(
            ProjectionMethodRecord::LambertConformalConic {
                lon0: p[0],
                lat0: p[1],
                lat1: p[2],
                lat2: p[5],
                false_easting: p[3],
                false_northing: p[6],
            },
        )
    } else if method_id == METHOD_ALBERS {
        Some(
            ProjectionMethodRecord::AlbersEqualArea {
                lon0: p[0],
                lat0: p[1],
                lat1: p[2],
                lat2: p[5],
                false_easting: p[3],
                false_northing: p[6],
            },
        )
    } else if method_id == METHOD_POLAR_STEREO {
        Some(
            ProjectionMethodRecord::PolarStereographic {
                lon0: p[0],
                lat_ts: p[1],
                k0: p[2],
                false_easting: p[3],
                false_northing: p[4],
            },
        )
    } else if method_id == METHOD_EQUIDISTANT_CYL {
        Some(
            ProjectionMethodRecord::EquidistantCylindrical {
                lon0: p[0],
                lat_ts: p[1],
                false_easting: p[3],
                false_northing: p[4],
            },
        )
    } else {
        None
    }
}

pub open spec fn projection_params_at(d: Seq<u8>, o: int) -> Seq<u64> {
    seq![
        le_u64(d, o),
        le_u64(d, o + 8),
        le_u64(d, o + 16),
        le_u64(d, o + 24),
        le_u64(d, o + 32),
        le_u64(d, o + 40),
        le_u64(d, o + 48),
    ]
}

pub open spec fn projected_at(d: Seq<u8>, o: int) -> Result<(ProjectedModel, int), RegistryError> {
    if o + 24 > d.len() {
        Err(RegistryError::Truncated)
    } else if !is_positive_finite_bits(le_u64(d, o + 16)) {
        Err(RegistryError::InvalidLinearUnit)
    } else if o + 82 > d.len() {
        Err(RegistryError::Truncated)
    } else {
        let name_len = le_u16(d, o + 80) as int;
        if o + 82 + name_len > d.len() {
            Err(RegistryError::Truncated)
        } else {
            match decode_projection_method(d[o + 12], projection_params_at(d, o + 24)) {
                Some(method) => Ok(
                    (
                        ProjectedModel {
                            code: le_u32(d, o),
                            base_geographic_crs_epsg: le_u32(d, o + 4),
                            datum_code: le_u32(d, o + 8),
                            method,
                            linear_unit_bits: le_u64(d, o + 16),
                            name: d.subrange(o + 82, o + 82 + name_len),
                        },
                        o + 82 + name_len,
                    ),
                ),
                None => Err(RegistryError::UnsupportedProjectionMethod(d[o + 12])),
            }
        }
    }
}

pub open spec fn extent_at(d: Seq<u8>, o: int) -> Result<(ExtentModel, int), RegistryError> {
    if o + 38 > d.len() {
        Err(RegistryError::Truncated)
    } else {
        let name_len = le_u16(d, o + 36) as int;
        if o + 38 + name_len > d.len() {
            Err(RegistryError::Truncated)
        } else {
            Ok(
                (
                    ExtentModel {
                        code: le_u32(d, o),
                        west_bits: le_u64(d, o + 4),
                        south_bits: le_u64(d, o + 12),
                        east_bits: le_u64(d, o + 20),
                        north_bits: le_u64(d, o + 28),
                        name: d.subrange(o + 38, o + 38 + name_len),
                    },
                    o + 38 + name_len,
                ),
            )
        }
    }
}

/// `n` length-prefixed strings starting at `o`.
pub open spec fn strings_at(d: Seq<u8>, o: int, n: nat) -> Result<(Seq<Seq<u8>>, int), RegistryError>
    decreases n,
{
    if n == 0 {
        Ok((Seq::empty(), o))
    } else {
        match strings_at(d, o, (n - 1) as nat) {
            Ok((names, c)) => if c + 2 > d.len() {
                Err(RegistryError::Truncated)
            } else {
                let len = le_u16(d, c) as int;
                if c + 2 + len > d.len() {
                    Err(RegistryError::Truncated)
                } else {
                    Ok((names.push(d.subrange(c + 2, c + 2 + len)), c + 2 + len))
                }
            },
            Err(e) => Err(e),
        }
    }
}

pub open spec fn grid_at(d: Seq<u8>, o: int) -> Result<(GridModel, int), RegistryError> {
    if o + 6 > d.len() {
        Err(RegistryError::Truncated)
    } else if d[o + 5] != GRID_INTERPOLATION_BILINEAR {
        Err(RegistryError::UnsupportedGridInterpolation(d[o + 5]))
    } else if o + 14 > d.len() {
        Err(RegistryError::Truncated)
    } else {
        let name_len = le_u16(d, o + 12) as int;
        if o + 14 + name_len > d.len() {
            Err(RegistryError::Truncated)
        } else {
            match strings_at(d, o + 14 + name_len, le_u16(d, o + 6) as nat) {
                Ok((resource_names, end)) => Ok(
                    (
                        GridModel {
                            id: GridId(le_u32(d, o)),
                            name: d.subrange(o + 14, o + 14 + name_len),
                            format: if d[o + 4] == GRID_FORMAT_NTV2 {
                                GridFormat::Ntv2
                            } else {
                                GridFormat::Unsupported
                            },
                            interpolation: GridInterpolation::Bilinear,
                            area_code: le_u32(d, o + 8),
                            resource_names,
                        },
                        end,
                    ),
                ),
                Err(e) => Err(e),
            }
        }
    }
}

pub open spec fn has_extent(extents: Seq<ExtentModel>, code: u32) -> bool {
    exists|i: int| 0 <= i < extents.len() && #[trigger] extents[i].code == code
}

/// `n` area codes starting at `o`, keeping those that name a known extent.
pub open spec fn area_codes_at(d: Seq<u8>, o: int, n: nat, extents: Seq<ExtentModel>) -> Result<
    (Seq<u32>, int),
    RegistryError,
>
    decreases n,
{
    if n == 0 {
        Ok((Seq::empty(), o))
    } else {
        match area_codes_at(d, o, (n - 1) as nat, extents) {
            Ok((codes, c)) => if c + 4 > d.len() {
                Err(RegistryError::Truncated)
            } else if has_extent(extents, le_u32(d, c)) {
                Ok((codes.push(le_u32(d, c)), c + 4))
            } else {
                Ok((codes, c + 4))
            },
            Err(e) => Err(e),
        }
    }
}

/// `n` concatenated-operation steps starting at `o`.
pub open spec fn steps_at(d: Seq<u8>, o: int, n: nat) -> Result<(Seq<OperationStep>, int), RegistryError>
    decreases n,
{
    if n == 0 {
        Ok((Seq::empty(), o))
    } else {
        match steps_at(d, o, (n - 1) as nat) {
            Ok((steps, c)) => if c + 5 > d.len() {
                Err(RegistryError::Truncated)
            } else if d[c + 4] == 0 {
                Ok(
                    (
                        steps.push(
                            OperationStep {
                                operation_id: CoordinateOperationId(le_u32(d, c)),
                                direction: OperationStepDirection::Forward,
                            },
                        ),
                        c + 8,
                    ),
                )
            } else if d[c + 4] == 1 {
                Ok(
                    (
                        steps.push(
                            OperationStep {
                                operation_id: CoordinateOperationId(le_u32(d, c)),
                                direction: OperationStepDirection::Reverse,
                            },
                        ),
                        c + 8,
                    ),
                )
            } else {
                Err(RegistryError::UnsupportedStepDirection(d[c + 4]))
            },
            Err(e) => Err(e),
        }
    }
}

/// The method payload of kind `kind` starting at `c`.
pub open spec fn method_at(d: Seq<u8>, c: int, kind: u8) -> Result<
    (OperationMethodModel, int),
    RegistryError,
> {
    if kind == OP_IDENTITY {
        Ok((OperationMethodModel::Identity, c))
    } else if kind == OP_HELMERT {
        if c + 56 > d.len() {
            Err(RegistryError::Truncated)
        } else {
            Ok((OperationMethodModel::Helmert(helmert_at(d, c)), c + 56))
        }
    } else if kind == OP_GRID_SHIFT {
        if c + 5 > d.len() {
            Err(RegistryError::Truncated)
        } else if d[c + 4] != 0 && d[c + 4] != 1 {
            Err(RegistryError::UnsupportedGridDirection(d[c + 4]))
        } else if c + 6 > d.len() {
            Err(RegistryError::Truncated)
        } else if d[c + 5] != GRID_INTERPOLATION_BILINEAR {
            Err(RegistryError::UnsupportedGridInterpolation(d[c + 5]))
        } else {
            Ok(
                (
                    OperationMethodModel::GridShift {
                        grid_id: GridId(le_u32(d, c)),
                        interpolation: GridInterpolation::Bilinear,
                        direction: if d[c + 4] == 0 {
                            GridShiftDirection::Forward
                        } else {
                            GridShiftDirection::Reverse
                        },
                    },
                    c + 8,
                ),
            )
        }
    } else if kind == OP_CONCATENATED {
        if c + 2 > d.len() {
            Err(RegistryError::Truncated)
        } else {
            match steps_at(d, c + 2, le_u16(d, c) as nat) {
                Ok((steps, end)) => Ok((OperationMethodModel::Concatenated(steps), end)),
                Err(e) => Err(e),
            }
        }
    } else {
        Err(RegistryError::UnsupportedOperationMethod(kind))
    }
}

pub open spec fn operation_at(d: Seq<u8>, o: int, extents: Seq<ExtentModel>) -> Result<
    (OperationModel, int),
    RegistryError,
> {
    if o + 34 > d.len() {
        Err(RegistryError::Truncated)
    } else {
        let name_len = le_u16(d, o + 32) as int;
        if o + 34 + name_len > d.len() {
            Err(RegistryError::Truncated)
        } else {
            match area_codes_at(d, o + 34 + name_len, le_u16(d, o + 6) as nat, extents) {
                Ok((area_codes, c)) => match method_at(d, c, d[o + 4]) {
                    Ok((method, end)) => {
                        let flags = d[o + 5];
                        let accuracy = le_u64(d, o + 24);
                        Ok(
                            (
                                OperationModel {
                                    id: CoordinateOperationId(le_u32(d, o)),
                                    name: d.subrange(o + 34, o + 34 + name_len),
                                    source_crs_epsg: spec_opt_code(le_u32(d, o + 8)),
                                    target_crs_epsg: spec_opt_code(le_u32(d, o + 12)),
                                    source_datum_epsg: spec_opt_code(le_u32(d, o + 16)),
                                    target_datum_epsg: spec_opt_code(le_u32(d, o + 20)),
                                    accuracy_bits: if is_nan_bits(accuracy) {
                                        None
                                    } else {
                                        Some(accuracy)
                                    },
                                    area_codes,
                                    deprecated: flags & FLAG_DEPRECATED != 0,
                                    preferred: flags & FLAG_PREFERRED != 0,
                                    approximate: flags & FLAG_APPROXIMATE != 0,
                                    method,
                                },
                                end,
                            ),
                        )
                    },
                    Err(e) => Err(e),
                },
                Err(e) => Err(e),
            }
        }
    }
}

/// `n` consecutive records starting at `start`, each read by `rec`.
pub open spec fn section<M>(
    start: int,
    n: nat,
    rec: spec_fn(int) -> Result<(M, int), RegistryError>,
) -> Result<(Seq<M>, int), RegistryError>
    decreases n,
{
    if n == 0 {
        Ok((Seq::empty(), start))
    } else {
        match section(start, (n - 1) as nat, rec) {
            Ok((ms, o)) => match rec(o) {
                Ok((m, next)) => Ok((ms.push(m), next)),
                Err(e) => Err(e),
            },
            Err(e) => Err(e),
        }
    }
}

/// Once a section fails, every longer section fails the same way.
pub proof fn lemma_section_err<M>(
    start: int,
    i: nat,
    n: nat,
    rec: spec_fn(int) -> Result<(M, int), RegistryError>,
    e: RegistryError,
)
    requires
        i <= n,
        section(start, i, rec) == Err::<(Seq<M>, int), RegistryError>(e),
    ensures
        section(start, n, rec) == Err::<(Seq<M>, int), RegistryError>(e),
    decreases n - i,
{
    if i < n {
        lemma_section_err(start, i + 1, n, rec, e);
    }
}


// ---------------------------------------------------------------------------
// Record readers
// ---------------------------------------------------------------------------

/// A parse result seen through the record's model.
pub open spec fn view_result<R: View>(r: Result<(R, usize), RegistryError>) -> Result<
    (R::V, int),
    RegistryError,
> {
    match r {
        Ok((rec, next)) => Ok((rec@, next as int)),
        Err(e) => Err(e),
    }
}

/// Offsets stay within the file plus one fixed-size record, and the file is
/// far enough from the top of the address space for offset arithmetic.
pub open spec fn offset_ok(d: Seq<u8>, o: int) -> bool {
    0 <= o <= d.len() + 72 && d.len() + 0x40000 <= usize::MAX
}

pub open spec fn next_ok<R>(r: Result<(R, usize), RegistryError>, d: Seq<u8>) -> bool {
    r matches Ok((_, next)) ==> next <= d.len() + 72
}

fn helmert_at_exec(data: &[u8], o: usize) -> (h: HelmertBits)
    requires
        o + 56 <= data@.len(),
        offset_ok(data@, o as int),
    ensures
        h == helmert_at(data@, o as int),
{
    HelmertBits {
        dx: read_u64(data, o),
        dy: read_u64(data, o + 8),
        dz: read_u64(data, o + 16),
        rx: read_u64(data, o + 24),
        ry: read_u64(data, o + 32),
        rz: read_u64(data, o + 40),
        ds: read_u64(data, o + 48),
    }
}

fn parse_ellipsoid_at(data: &[u8], o: usize) -> (r: Result<(EllipsoidRecord, usize), RegistryError>)
    requires
        offset_ok(data@, o as int),
    ensures
        view_result(r) == ellipsoid_at(data@, o as int),
        next_ok(r, data@),
{
    if o + 20 > data.len() {
        return Err(RegistryError::Truncated);
    }
    Ok(
        (
            EllipsoidRecord {
                code: read_u32(data, o),
                semi_major_axis_bits: read_u64(data, o + 4),
                inverse_flattening_bits: read_u64(data, o + 12),
            },
            o + 20,
        ),
    )
}

fn contains_ellipsoid(ells: &Vec<EllipsoidRecord>, code: u32) -> (r: bool)
    ensures
        r == has_ellipsoid(ells@.map_values(|e: EllipsoidRecord| e@), code),
{
    let ghost m = ells@.map_values(|e: EllipsoidRecord| e@);
    let mut i: usize = 0;
    while i < ells.len()
        invariant
            i <= ells@.len(),
            m == ells@.map_values(|e: EllipsoidRecord| e@),
            forall|j: int| 0 <= j < i ==> m[j].code != code,
        decreases ells.len() - i,
    {
        if ells[i].code == code {
            assert(m[i as int].code == code);
            return true;
        }
        i = i + 1;
    }
    false
}

fn parse_datum_at(data: &[u8], o: usize, ells: &Vec<EllipsoidRecord>) -> (r: Result<
    (DatumRecord, usize),
    RegistryError,
>)
    requires
        offset_ok(data@, o as int),
    ensures
        view_result(r) == datum_at(data@, o as int, ells@.map_values(|e: EllipsoidRecord| e@)),
        next_ok(r, data@),
{
    if o + 8 > data.len() {
        return Err(RegistryError::Truncated);
    }
    let code = read_u32(data, o);
    let ellipsoid_code = read_u32(data, o + 4);
    if !contains_ellipsoid(ells, ellipsoid_code) {
        return Err(RegistryError::MissingEllipsoid(ellipsoid_code));
    }
    if o + 9 > data.len() {
        return Err(RegistryError::Truncated);
    }
    let kind = data[o + 8];
    if kind == DATUM_SHIFT_UNKNOWN {
        Ok((DatumRecord { code, ellipsoid_code, to_wgs84: DatumShiftRecord::Unknown }, o + 72))
    } else if kind == DATUM_SHIFT_IDENTITY {
        Ok((DatumRecord { code, ellipsoid_code, to_wgs84: DatumShiftRecord::Identity }, o + 72))
    } else if kind == DATUM_SHIFT_HELMERT {
        if o + 72 > data.len() {
            return Err(RegistryError::Truncated);
        }
        let h = helmert_at_exec(data, o + 16);
        Ok((DatumRecord { code, ellipsoid_code, to_wgs84: DatumShiftRecord::Helmert(h) }, o + 72))
    } else {
        Err(RegistryError::UnsupportedDatumShift(kind))
    }
}

fn parse_geographic_at(data: &[u8], o: usize) -> (r: Result<(GeographicRecord, usize), RegistryError>)
    requires
        offset_ok(data@, o as int),
    ensures
        view_result(r) == geographic_at(data@, o as int),
        next_ok(r, data@),
{
    if o + 10 > data.len() {
        return Err(RegistryError::Truncated);
    }
    let name_len = read_u16(data, o + 8) as usize;
    if o + 10 + name_len > data.len() {
        return Err(RegistryError::Truncated);
    }
    let rec = GeographicRecord {
        code: read_u32(data, o),
        datum_code: read_u32(data, o + 4),
        name: read_bytes(data, o + 10, name_len),
    };
    Ok((rec, o + 10 + name_len))
}

fn decode_projection_method_exec(method_id: u8, data: &[u8], o: usize) -> (r: Option<
    ProjectionMethodRecord,
>)
    requires
        o + 56 <= data@.len(),
        offset_ok(data@, o as int),
    ensures
        r == decode_projection_method(method_id, projection_params_at(data@, o as int)),
{
    let p0 = read_u64(data, o);
    let p1 = read_u64(data, o + 8);
    let p2 = read_u64(data, o + 16);
    let p3 = read_u64(data, o + 24);
    let p4 = read_u64(data, o + 32);
    let p5 = read_u64(data, o + 40);
    let p6 = read_u64(data, o + 48);
    let ghost p = projection_params_at(data@, o as int);
    assert(p[0] == p0 && p[1] == p1 && p[2] == p2 && p[3] == p3 && p[4] == p4 && p[5] == p5
        && p[6] == p6);
    if method_id == METHOD_WEB_MERCATOR {
        Some(ProjectionMethodRecord::WebMercator)
    } else if method_id == METHOD_TRANSVERSE_MERCATOR {
        Some(
            ProjectionMethodRecord::TransverseMercator {
                lon0: p0,
                lat0: p1,
                k0: p2,
                false_easting: p3,
                false_northing: p4,
            },
        )
    } else if method_id == METHOD_MERCATOR {
        Some(
            ProjectionMethodRecord::Mercator {
                lon0: p0,
                lat_ts: p1,
                k0: p2,
                false_easting: p3,
                false_northing: p4,
            },
        )
    } else if method_id == METHOD_LCC {
        Some(
            ProjectionMethodRecord::LambertConformalConic {
                lon0: p0,
                lat0: p1,
                lat1: p2,
                lat2: p5,
                false_easting: p3,
                false_northing: p6,
            },
        )
    } else if method_id == METHOD_ALBERS {
        Some(
            ProjectionMethodRecord::AlbersEqualArea {
                lon0: p0,
                lat0: p1,
                lat1: p2,
                lat2: p5,
                false_easting: p3,
                false_northing: p6,
            },
        )
    } else if method_id == METHOD_POLAR_STEREO {
        Some(
            ProjectionMethodRecord::PolarStereographic {
                lon0: p0,
                lat_ts: p1,
                k0: p2,
                false_easting: p3,
                false_northing: p4,
            },
        )
    } else if method_id == METHOD_EQUIDISTANT_CYL {
        Some(
            ProjectionMethodRecord::EquidistantCylindrical {
                lon0: p0,
                lat_ts: p1,
                false_easting: p3,
                false_northing: p4,
            },
        )
    } else {
        None
    }
}

fn parse_projected_at(data: &[u8], o: usize) -> (r: Result<(ProjectedRecord, usize), RegistryError>)
    requires
        offset_ok(data@, o as int),
    ensures
        view_result(r) == projected_at(data@, o as int),
        next_ok(r, data@),
{
    if o + 24 > data.len() {
        return Err(RegistryError::Truncated);
    }
    let unit = read_u64(data, o + 16);
    if !(0 < unit && unit < 0x7ff0_0000_0000_0000u64) {
        return Err(RegistryError::InvalidLinearUnit);
    }
    if o + 82 > data.len() {
        return Err(RegistryError::Truncated);
    }
    let name_len = read_u16(data, o + 80) as usize;
    if o + 82 + name_len > data.len() {
        return Err(RegistryError::Truncated);
    }
    let method_id = data[o + 12];
    match decode_projection_method_exec(method_id, data, o + 24) {
        Some(method) => {
            let rec = ProjectedRecord {
                code: read_u32(data, o),
                base_geographic_crs_epsg: read_u32(data, o + 4),
                datum_code: read_u32(data, o + 8),
                method,
                linear_unit_bits: unit,
                name: read_bytes(data, o + 82, name_len),
            };
            Ok((rec, o + 82 + name_len))
        },
        None => Err(RegistryError::UnsupportedProjectionMethod(method_id)),
    }
}

fn parse_extent_at(data: &[u8], o: usize) -> (r: Result<(ExtentRecord, usize), RegistryError>)
    requires
        offset_ok(data@, o as int),
    ensures
        view_result(r) == extent_at(data@, o as int),
        next_ok(r, data@),
{
    if o + 38 > data.len() {
        return Err(RegistryError::Truncated);
    }
    let name_len = read_u16(data, o + 36) as usize;
    if o + 38 + name_len > data.len() {
        return Err(RegistryError::Truncated);
    }
    let rec = ExtentRecord {
        code: read_u32(data, o),
        west_bits: read_u64(data, o + 4),
        south_bits: read_u64(data, o + 12),
        east_bits: read_u64(data, o + 20),
        north_bits: read_u64(data, o + 28),
        name: read_bytes(data, o + 38, name_len),
    };
    Ok((rec, o + 38 + name_len))
}

fn parse_strings_at(data: &[u8], o: usize, n: u16) -> (r: Result<(Vec<Vec<u8>>, usize), RegistryError>)
    requires
        offset_ok(data@, o as int),
        o <= data@.len(),
    ensures
        match r {
            Ok((names, next)) => strings_at(data@, o as int, n as nat) == Ok::<
                (Seq<Seq<u8>>, int),
                RegistryError,
            >((names@.map_values(|v: Vec<u8>| v@), next as int)) && next <= data@.len(),
            Err(e) => strings_at(data@, o as int, n as nat) == Err::<
                (Seq<Seq<u8>>, int),
                RegistryError,
            >(e),
        },
{
    let mut names: Vec<Vec<u8>> = Vec::new();
    assert(names@.map_values(|v: Vec<u8>| v@) =~= Seq::<Seq<u8>>::empty());
    let mut c = o;
    let mut i: u16 = 0;
    while i < n
        invariant
            i <= n,
            offset_ok(data@, o as int),
            c <= data@.len(),
            strings_at(data@, o as int, i as nat) == Ok::<(Seq<Seq<u8>>, int), RegistryError>(
                (names@.map_values(|v: Vec<u8>| v@), c as int),
            ),
        decreases n - i,
    {
        if c + 2 > data.len() {
            proof {
                lemma_strings_err(data@, o as int, (i + 1) as nat, n as nat, RegistryError::Truncated);
            }
            return Err(RegistryError::Truncated);
        }
        let len = read_u16(data, c) as usize;
        if c + 2 + len > data.len() {
            proof {
                lemma_strings_err(data@, o as int, (i + 1) as nat, n as nat, RegistryError::Truncated);
            }
            return Err(RegistryError::Truncated);
        }
        let name = read_bytes(data, c + 2, len);
        let ghost old_names = names@;
        names.push(name);
        assert(names@.map_values(|v: Vec<u8>| v@) =~= old_names.map_values(|v: Vec<u8>| v@).push(
            data@.subrange(c + 2, c + 2 + len),
        ));
        c = c + 2 + len;
        i = i + 1;
    }
    Ok((names, c))
}

/// Once a list of strings fails to read, a longer list fails the same way.
pub proof fn lemma_strings_err(d: Seq<u8>, o: int, i: nat, n: nat, e: RegistryError)
    requires
        i <= n,
        strings_at(d, o, i) == Err::<(Seq<Seq<u8>>, int), RegistryError>(e),
    ensures
        strings_at(d, o, n) == Err::<(Seq<Seq<u8>>, int), RegistryError>(e),
    decreases n - i,
{
    if i < n {
        lemma_strings_err(d, o, i + 1, n, e);
    }
}

fn parse_grid_at(data: &[u8], o: usize) -> (r: Result<(GridRecord, usize), RegistryError>)
    requires
        offset_ok(data@, o as int),
    ensures
        view_result(r) == grid_at(data@, o as int),
        next_ok(r, data@),
{
    if o + 6 > data.len() {
        return Err(RegistryError::Truncated);
    }
    let interpolation = data[o + 5];
    if interpolation != GRID_INTERPOLATION_BILINEAR {
        return Err(RegistryError::UnsupportedGridInterpolation(interpolation));
    }
    if o + 14 > data.len() {
        return Err(RegistryError::Truncated);
    }
    let name_len = read_u16(data, o + 12) as usize;
    if o + 14 + name_len > data.len() {
        return Err(RegistryError::Truncated);
    }
    let resource_count = read_u16(data, o + 6);
    match parse_strings_at(data, o + 14 + name_len, resource_count) {
        Ok((resource_names, end)) => {
            let format = if data[o + 4] == GRID_FORMAT_NTV2 {
                GridFormat::Ntv2
            } else {
                GridFormat::Unsupported
            };
            let rec = GridRecord {
                id: GridId(read_u32(data, o)),
                name: read_bytes(data, o + 14, name_len),
                format,
                interpolation: GridInterpolation::Bilinear,
                area_code: read_u32(data, o + 8),
                resource_names,
            };
            Ok((rec, end))
        },
        Err(e) => Err(e),
    }
}

fn contains_extent(extents: &Vec<ExtentRecord>, code: u32) -> (r: bool)
    ensures
        r == has_extent(extents@.map_values(|e: ExtentRecord| e@), code),
{
    let ghost m = extents@.map_values(|e: ExtentRecord| e@);
    let mut i: usize = 0;
    while i < extents.len()
        invariant
            i <= extents@.len(),
            m == extents@.map_values(|e: ExtentRecord| e@),
            forall|j: int| 0 <= j < i ==> m[j].code != code,
        decreases extents.len() - i,
    {
        if extents[i].code == code {
            assert(m[i as int].code == code);
            return true;
        }
        i = i + 1;
    }
    false
}

/// Once a list of area codes fails to read, a longer list fails the same
/// way.
pub proof fn lemma_area_codes_err(
    d: Seq<u8>,
    o: int,
    i: nat,
    n: nat,
    extents: Seq<ExtentModel>,
    e: RegistryError,
)
    requires
        i <= n,
        area_codes_at(d, o, i, extents) == Err::<(Seq<u32>, int), RegistryError>(e),
    ensures
        area_codes_at(d, o, n, extents) == Err::<(Seq<u32>, int), RegistryError>(e),
    decreases n - i,
{
    if i < n {
        lemma_area_codes_err(d, o, i + 1, n, extents, e);
    }
}

fn parse_area_codes_at(data: &[u8], o: usize, n: u16, extents: &Vec<ExtentRecord>) -> (r: Result<
    (Vec<u32>, usize),
    RegistryError,
>)
    requires
        offset_ok(data@, o as int),
        o <= data@.len(),
    ensures
        match r {
            Ok((codes, next)) => area_codes_at(
                data@,
                o as int,
                n as nat,
                extents@.map_values(|e: ExtentRecord| e@),
            ) == Ok::<(Seq<u32>, int), RegistryError>((codes@, next as int)) && next <= data@.len(),
            Err(e) => area_codes_at(
                data@,
                o as int,
                n as nat,
                extents@.map_values(|e: ExtentRecord| e@),
            ) == Err::<(Seq<u32>, int), RegistryError>(e),
        },
{
    let ghost ex = extents@.map_values(|e: ExtentRecord| e@);
    let mut codes: Vec<u32> = Vec::new();
    let mut c = o;
    let mut i: u16 = 0;
    while i < n
        invariant
            i <= n,
            offset_ok(data@, o as int),
            c <= data@.len(),
            ex == extents@.map_values(|e: ExtentRecord| e@),
            area_codes_at(data@, o as int, i as nat, ex) == Ok::<(Seq<u32>, int), RegistryError>(
                (codes@, c as int),
            ),
        decreases n - i,
    {
        if c + 4 > data.len() {
            proof {
                lemma_area_codes_err(data@, o as int, (i + 1) as nat, n as nat, ex, RegistryError::Truncated);
            }
            return Err(RegistryError::Truncated);
        }
        let code = read_u32(data, c);
        if contains_extent(extents, code) {
            codes.push(code);
        }
        c = c + 4;
        i = i + 1;
    }
    Ok((codes, c))
}

/// Once a list of operation steps fails to read, a longer list fails the
/// same way.
pub proof fn lemma_steps_err(d: Seq<u8>, o: int, i: nat, n: nat, e: RegistryError)
    requires
        i <= n,
        steps_at(d, o, i) == Err::<(Seq<OperationStep>, int), RegistryError>(e),
    ensures
        steps_at(d, o, n) == Err::<(Seq<OperationStep>, int), RegistryError>(e),
    decreases n - i,
{
    if i < n {
        lemma_steps_err(d, o, i + 1, n, e);
    }
}

fn parse_steps_at(data: &[u8], o: usize, n: u16) -> (r: Result<
    (Vec<OperationStep>, usize),
    RegistryError,
>)
    requires
        offset_ok(data@, o as int),
        o <= data@.len(),
    ensures
        match r {
            Ok((steps, next)) => steps_at(data@, o as int, n as nat) == Ok::<
                (Seq<OperationStep>, int),
                RegistryError,
            >((steps@, next as int)) && next <= data@.len() + 8,
            Err(e) => steps_at(data@, o as int, n as nat) == Err::<
                (Seq<OperationStep>, int),
                RegistryError,
            >(e),
        },
{
    let mut steps: Vec<OperationStep> = Vec::new();
    let mut c = o;
    let mut i: u16 = 0;
    while i < n
        invariant
            i <= n,
            offset_ok(data@, o as int),
            c <= data@.len() + 8,
            steps_at(data@, o as int, i as nat) == Ok::<(Seq<OperationStep>, int), RegistryError>(
                (steps@, c as int),
            ),
        decreases n - i,
    {
        if c + 5 > data.len() {
            proof {
                lemma_steps_err(data@, o as int, (i + 1) as nat, n as nat, RegistryError::Truncated);
            }
            return Err(RegistryError::Truncated);
        }
        let op_id = read_u32(data, c);
        let dir = data[c + 4];
        let direction = if dir == 0 {
            OperationStepDirection::Forward
        } else if dir == 1 {
            OperationStepDirection::Reverse
        } else {
            proof {
                lemma_steps_err(data@, o as int, (i + 1) as nat, n as nat, RegistryError::UnsupportedStepDirection(dir));
            }
            return Err(RegistryError::UnsupportedStepDirection(dir));
        };
        steps.push(OperationStep { operation_id: CoordinateOperationId(op_id), direction });
        c = c + 8;
        i = i + 1;
    }
    Ok((steps, c))
}

fn parse_method_at(data: &[u8], c: usize, kind: u8) -> (r: Result<
    (OperationMethodRecord, usize),
    RegistryError,
>)
    requires
        offset_ok(data@, c as int),
        c <= data@.len(),
    ensures
        view_result(r) == method_at(data@, c as int, kind),
        next_ok(r, data@),
{
    if kind == OP_IDENTITY {
        Ok((OperationMethodRecord::Identity, c))
    } else if kind == OP_HELMERT {
        if c + 56 > data.len() {
            return Err(RegistryError::Truncated);
        }
        Ok((OperationMethodRecord::Helmert(helmert_at_exec(data, c)), c + 56))
    } else if kind == OP_GRID_SHIFT {
        if c + 5 > data.len() {
            return Err(RegistryError::Truncated);
        }
        let dir = data[c + 4];
        if dir != 0 && dir != 1 {
            return Err(RegistryError::UnsupportedGridDirection(dir));
        }
        if c + 6 > data.len() {
            return Err(RegistryError::Truncated);
        }
        let interpolation = data[c + 5];
        if interpolation != GRID_INTERPOLATION_BILINEAR {
            return Err(RegistryError::UnsupportedGridInterpolation(interpolation));
        }
        let direction = if dir == 0 {
            GridShiftDirection::Forward
        } else {
            GridShiftDirection::Reverse
        };
        Ok(
            (
                OperationMethodRecord::GridShift {
                    grid_id: GridId(read_u32(data, c)),
                    interpolation: GridInterpolation::Bilinear,
                    direction,
                },
                c + 8,
            ),
        )
    } else if kind == OP_CONCATENATED {
        if c + 2 > data.len() {
            return Err(RegistryError::Truncated);
        }
        let count = read_u16(data, c);
        match parse_steps_at(data, c + 2, count) {
            Ok((steps, end)) => Ok((OperationMethodRecord::Concatenated(steps), end)),
            Err(e) => Err(e),
        }
    } else {
        Err(RegistryError::UnsupportedOperationMethod(kind))
    }
}

fn parse_operation_at(data: &[u8], o: usize, extents: &Vec<ExtentRecord>) -> (r: Result<
    (OperationRecord, usize),
    RegistryError,
>)
    requires
        offset_ok(data@, o as int),
    ensures
        view_result(r) == operation_at(data@, o as int, extents@.map_values(|e: ExtentRecord| e@)),
        next_ok(r, data@),
{
    if o + 34 > data.len() {
        return Err(RegistryError::Truncated);
    }
    let name_len = read_u16(data, o + 32) as usize;
    if o + 34 + name_len > data.len() {
        return Err(RegistryError::Truncated);
    }
    let area_count = read_u16(data, o + 6);
    let (area_codes, c) = match parse_area_codes_at(data, o + 34 + name_len, area_count, extents) {
        Ok(v) => v,
        Err(e) => {
            return Err(e);
        },
    };
    let kind = data[o + 4];
    let (method, end) = match parse_method_at(data, c, kind) {
        Ok(v) => v,
        Err(e) => {
            return Err(e);
        },
    };
    let flags = data[o + 5];
    let accuracy = read_u64(data, o + 24);
    let rec = OperationRecord {
        id: CoordinateOperationId(read_u32(data, o)),
        name: read_bytes(data, o + 34, name_len),
        source_crs_epsg: opt_code(read_u32(data, o + 8)),
        target_crs_epsg: opt_code(read_u32(data, o + 12)),
        source_datum_epsg: opt_code(read_u32(data, o + 16)),
        target_datum_epsg: opt_code(read_u32(data, o + 20)),
        accuracy_bits: if nan_bits(accuracy) {
            None
        } else {
            Some(accuracy)
        },
        area_codes,
        deprecated: flags & FLAG_DEPRECATED != 0,
        preferred: flags & FLAG_PREFERRED != 0,
        approximate: flags & FLAG_APPROXIMATE != 0,
        method,
    };
    Ok((rec, end))
}


// ---------------------------------------------------------------------------
// Sections and the whole file
// ---------------------------------------------------------------------------

pub open spec fn ellipsoid_reader(d: Seq<u8>) -> spec_fn(int) -> Result<
    (EllipsoidRecord, int),
    RegistryError,
> {
    |o: int| ellipsoid_at(d, o)
}

pub open spec fn datum_reader(d: Seq<u8>, ells: Seq<EllipsoidRecord>) -> spec_fn(int) -> Result<
    (DatumRecord, int),
    RegistryError,
> {
    |o: int| datum_at(d, o, ells)
}

pub open spec fn geographic_reader(d: Seq<u8>) -> spec_fn(int) -> Result<
    (GeographicModel, int),
    RegistryError,
> {
    |o: int| geographic_at(d, o)
}

pub open spec fn projected_reader(d: Seq<u8>) -> spec_fn(int) -> Result<
    (ProjectedModel, int),
    RegistryError,
> {
    |o: int| projected_at(d, o)
}

pub open spec fn extent_reader(d: Seq<u8>) -> spec_fn(int) -> Result<
    (ExtentModel, int),
    RegistryError,
> {
    |o: int| extent_at(d, o)
}

pub open spec fn grid_reader(d: Seq<u8>) -> spec_fn(int) -> Result<(GridModel, int), RegistryError> {
    |o: int| grid_at(d, o)
}

pub open spec fn operation_reader(d: Seq<u8>, extents: Seq<ExtentModel>) -> spec_fn(int) -> Result<
    (OperationModel, int),
    RegistryError,
> {
    |o: int| operation_at(d, o, extents)
}

pub open spec fn view_vec_result<R: View>(r: Result<(Vec<R>, usize), RegistryError>) -> Result<
    (Seq<R::V>, int),
    RegistryError,
> {
    match r {
        Ok((v, next)) => Ok((v@.map_values(|x: R| x@), next as int)),
        Err(e) => Err(e),
    }
}

/// The record counts of the header.
#[derive(Debug, Clone, Copy, PartialEq, Eq, Structural)]
pub struct RegistryHeader {
    pub num_ellipsoids: u32,
    pub num_datums: u32,
    pub num_geographic_crs: u32,
    pub num_projected_crs: u32,
    pub num_extents: u32,
    pub num_grids: u32,
    pub num_operations: u32,
}

pub open spec fn header_spec(d: Seq<u8>) -> Result<RegistryHeader, RegistryError> {
    if d.len() < 36 {
        Err(RegistryError::TooSmall)
    } else if le_u32(d, 0) != REGISTRY_MAGIC {
        Err(RegistryError::InvalidMagic)
    } else if le_u16(d, 4) != REGISTRY_VERSION {
        Err(RegistryError::UnsupportedVersion)
    } else {
        Ok(
            RegistryHeader {
                num_ellipsoids: le_u32(d, 8),
                num_datums: le_u32(d, 12),
                num_geographic_crs: le_u32(d, 16),
                num_projected_crs: le_u32(d, 20),
                num_extents: le_u32(d, 24),
                num_grids: le_u32(d, 28),
                num_operations: le_u32(d, 32),
            },
        )
    }
}

/// Checks the header's size, magic and version and returns its counts.
pub fn read_header(data: &[u8]) -> (r: Result<RegistryHeader, RegistryError>)
    ensures
        r == header_spec(data@),
{
    if data.len() < REGISTRY_HEADER_SIZE {
        return Err(RegistryError::TooSmall);
    }
    if read_u32(data, 0) != REGISTRY_MAGIC {
        return Err(RegistryError::InvalidMagic);
    }
    if read_u16(data, 4) != REGISTRY_VERSION {
        return Err(RegistryError::UnsupportedVersion);
    }
    Ok(
        RegistryHeader {
            num_ellipsoids: read_u32(data, 8),
            num_datums: read_u32(data, 12),
            num_geographic_crs: read_u32(data, 16),
            num_projected_crs: read_u32(data, 20),
            num_extents: read_u32(data, 24),
            num_grids: read_u32(data, 28),
            num_operations: read_u32(data, 32),
        },
    )
}

/// The decoded registry, each section in file order.
pub struct RegistryDb {
    pub ellipsoids: Vec<EllipsoidRecord>,
    pub datums: Vec<DatumRecord>,
    pub geographic_crs: Vec<GeographicRecord>,
    pub projected_crs: Vec<ProjectedRecord>,
    pub extents: Vec<ExtentRecord>,
    pub grids: Vec<GridRecord>,
    pub operations: Vec<OperationRecord>,
}

pub struct RegistryModel {
    pub ellipsoids: Seq<EllipsoidRecord>,
    pub datums: Seq<DatumRecord>,
    pub geographic_crs: Seq<GeographicModel>,
    pub projected_crs: Seq<ProjectedModel>,
    pub extents: Seq<ExtentModel>,
    pub grids: Seq<GridModel>,
    pub operations: Seq<OperationModel>,
}

impl View for RegistryDb {
    type V = RegistryModel;

    open spec fn view(&self) -> RegistryModel {
        RegistryModel {
            ellipsoids: self.ellipsoids@.map_values(|r: EllipsoidRecord| r@),
            datums: self.datums@.map_values(|r: DatumRecord| r@),
            geographic_crs: self.geographic_crs@.map_values(|r: GeographicRecord| r@),
            projected_crs: self.projected_crs@.map_values(|r: ProjectedRecord| r@),
            extents: self.extents@.map_values(|r: ExtentRecord| r@),
            grids: self.grids@.map_values(|r: GridRecord| r@),
            operations: self.operations@.map_values(|r: OperationRecord| r@),
        }
    }
}

/// The registry a file decodes to, or the first defect found while reading
/// it front to back.
pub open spec fn parse_registry_spec(d: Seq<u8>) -> Result<RegistryModel, RegistryError> {
    match header_spec(d) {
        Err(e) => Err(e),
        Ok(h) => match section(36, h.num_ellipsoids as nat, ellipsoid_reader(d)) {
            Err(e) => Err(e),
            Ok((ellipsoids, o1)) => match section(o1, h.num_datums as nat, datum_reader(d, ellipsoids)) {
                Err(e) => Err(e),
                Ok((datums, o2)) => match section(o2, h.num_geographic_crs as nat, geographic_reader(d)) {
                    Err(e) => Err(e),
                    Ok((geographic_crs, o3)) => match section(
                        o3,
                        h.num_projected_crs as nat,
                        projected_reader(d),
                    ) {
                        Err(e) => Err(e),
                        Ok((projected_crs, o4)) => match section(o4, h.num_extents as nat, extent_reader(d)) {
                            Err(e) => Err(e),
                            Ok((extents, o5)) => match section(o5, h.num_grids as nat, grid_reader(d)) {
                                Err(e) => Err(e),
                                Ok((grids, o6)) => match section(
                                    o6,
                                    h.num_operations as nat,
                                    operation_reader(d, extents),
                                ) {
                                    Err(e) => Err(e),
                                    Ok((operations, _o7)) => Ok(
                                        RegistryModel {
                                            ellipsoids,
                                            datums,
                                            geographic_crs,
                                            projected_crs,
                                            extents,
                                            grids,
                                            operations,
                                        },
                                    ),
                                },
                            },
                        },
                    },
                },
            },
        },
    }
}

fn parse_ellipsoids(data: &[u8], start: usize, n: u32) -> (r: Result<(Vec<EllipsoidRecord>, usize), RegistryError>)
    requires
        offset_ok(data@, start as int),
    ensures
        view_vec_result(r) == section(start as int, n as nat, ellipsoid_reader(data@)),
        next_ok(r, data@),
{
    let mut v: Vec<EllipsoidRecord> = Vec::new();
    assert(v@.map_values(|x: EllipsoidRecord| x@) =~= Seq::<EllipsoidRecord>::empty());
    let mut offset = start;
    let mut i: u32 = 0;
    while i < n
        invariant
            i <= n,
            offset_ok(data@, offset as int),
            offset_ok(data@, start as int),
            section(start as int, i as nat, ellipsoid_reader(data@)) == Ok::<(Seq<EllipsoidRecord>, int), RegistryError>(
                (v@.map_values(|x: EllipsoidRecord| x@), offset as int),
            ),
        decreases n - i,
    {
        match parse_ellipsoid_at(data, offset) {
            Ok((rec, next)) => {
                let ghost old_v = v@;
                v.push(rec);
                assert(v@.map_values(|x: EllipsoidRecord| x@) =~= old_v.map_values(|x: EllipsoidRecord| x@).push(rec@));
                offset = next;
            },
            Err(e) => {
                proof {
                    lemma_section_err(start as int, (i + 1) as nat, n as nat, ellipsoid_reader(data@), e);
                }
                return Err(e);
            },
        }
        i = i + 1;
    }
    Ok((v, offset))
}

fn parse_datums(data: &[u8], start: usize, n: u32, ells: &Vec<EllipsoidRecord>) -> (r: Result<(Vec<DatumRecord>, usize), RegistryError>)
    requires
        offset_ok(data@, start as int),
    ensures
        view_vec_result(r) == section(start as int, n as nat, datum_reader(data@, ells@.map_values(|e: EllipsoidRecord| e@))),
        next_ok(r, data@),
{
    let ghost f = datum_reader(data@, ells@.map_values(|e: EllipsoidRecord| e@));
    let mut v: Vec<DatumRecord> = Vec::new();
    assert(v@.map_values(|x: DatumRecord| x@) =~= Seq::<DatumRecord>::empty());
    let mut offset = start;
    let mut i: u32 = 0;
    while i < n
        invariant
            i <= n,
            offset_ok(data@, offset as int),
            offset_ok(data@, start as int),
            f == datum_reader(data@, ells@.map_values(|e: EllipsoidRecord| e@)),
            section(start as int, i as nat, f) == Ok::<(Seq<DatumRecord>, int), RegistryError>(
                (v@.map_values(|x: DatumRecord| x@), offset as int),
            ),
        decreases n - i,
    {
        match parse_datum_at(data, offset, ells) {
            Ok((rec, next)) => {
                let ghost old_v = v@;
                v.push(rec);
                assert(v@.map_values(|x: DatumRecord| x@) =~= old_v.map_values(|x: DatumRecord| x@).push(rec@));
                offset = next;
            },
            Err(e) => {
                proof {
                    lemma_section_err(start as int, (i + 1) as nat, n as nat, f, e);
                }
                return Err(e);
            },
        }
        i = i + 1;
    }
    Ok((v, offset))
}

fn parse_geographics(data: &[u8], start: usize, n: u32) -> (r: Result<(Vec<GeographicRecord>, usize), RegistryError>)
    requires
        offset_ok(data@, start as int),
    ensures
        view_vec_result(r) == section(start as int, n as nat, geographic_reader(data@)),
        next_ok(r, data@),
{
    let mut v: Vec<GeographicRecord> = Vec::new();
    assert(v@.map_values(|x: GeographicRecord| x@) =~= Seq::<GeographicModel>::empty());
    let mut offset = start;
    let mut i: u32 = 0;
    while i < n
        invariant
            i <= n,
            offset_ok(data@, offset as int),
            offset_ok(data@, start as int),
            section(start as int, i as nat, geographic_reader(data@)) == Ok::<(Seq<GeographicModel>, int), RegistryError>(
                (v@.map_values(|x: GeographicRecord| x@), offset as int),
            ),
        decreases n - i,
    {
        match parse_geographic_at(data, offset) {
            Ok((rec, next)) => {
                let ghost old_v = v@;
                let ghost m = rec@;
                v.push(rec);
                assert(v@.map_values(|x: GeographicRecord| x@) =~= old_v.map_values(|x: GeographicRecord| x@).push(m));
                offset = next;
            },
            Err(e) => {
                proof {
                    lemma_section_err(start as int, (i + 1) as nat, n as nat, geographic_reader(data@), e);
                }
                return Err(e);
            },
        }
        i = i + 1;
    }
    Ok((v, offset))
}

fn parse_projecteds(data: &[u8], start: usize, n: u32) -> (r: Result<(Vec<ProjectedRecord>, usize), RegistryError>)
    requires
        offset_ok(data@, start as int),
    ensures
        view_vec_result(r) == section(start as int, n as nat, projected_reader(data@)),
        next_ok(r, data@),
{
    let mut v: Vec<ProjectedRecord> = Vec::new();
    assert(v@.map_values(|x: ProjectedRecord| x@) =~= Seq::<ProjectedModel>::empty());
    let mut offset = start;
    let mut i: u32 = 0;
    while i < n
        invariant
            i <= n,
            offset_ok(data@, offset as int),
            offset_ok(data@, start as int),
            section(start as int, i as nat, projected_reader(data@)) == Ok::<(Seq<ProjectedModel>, int), RegistryError>(
                (v@.map_values(|x: ProjectedRecord| x@), offset as int),
            ),
        decreases n - i,
    {
        match parse_projected_at(data, offset) {
            Ok((rec, next)) => {
                let ghost old_v = v@;
                let ghost m = rec@;
                v.push(rec);
                assert(v@.map_values(|x: ProjectedRecord| x@) =~= old_v.map_values(|x: ProjectedRecord| x@).push(m));
                offset = next;
            },
            Err(e) => {
                proof {
                    lemma_section_err(start as int, (i + 1) as nat, n as nat, projected_reader(data@), e);
                }
                return Err(e);
            },
        }
        i = i + 1;
    }
    Ok((v, offset))
}

fn parse_extents(data: &[u8], start: usize, n: u32) -> (r: Result<(Vec<ExtentRecord>, usize), RegistryError>)
    requires
        offset_ok(data@, start as int),
    ensures
        view_vec_result(r) == section(start as int, n as nat, extent_reader(data@)),
        next_ok(r, data@),
{
    let mut v: Vec<ExtentRecord> = Vec::new();
    assert(v@.map_values(|x: ExtentRecord| x@) =~= Seq::<ExtentModel>::empty());
    let mut offset = start;
    let mut i: u32 = 0;
    while i < n
        invariant
            i <= n,
            offset_ok(data@, offset as int),
            offset_ok(data@, start as int),
            section(start as int, i as nat, extent_reader(data@)) == Ok::<(Seq<ExtentModel>, int), RegistryError>(
                (v@.map_values(|x: ExtentRecord| x@), offset as int),
            ),
        decreases n - i,
    {
        match parse_extent_at(data, offset) {
            Ok((rec, next)) => {
                let ghost old_v = v@;
                let ghost m = rec@;
                v.push(rec);
                assert(v@.map_values(|x: ExtentRecord| x@) =~= old_v.map_values(|x: ExtentRecord| x@).push(m));
                offset = next;
            },
            Err(e) => {
                proof {
                    lemma_section_err(start as int, (i + 1) as nat, n as nat, extent_reader(data@), e);
                }
                return Err(e);
            },
        }
        i = i + 1;
    }
    Ok((v, offset))
}

fn parse_grids(data: &[u8], start: usize, n: u32) -> (r: Result<(Vec<GridRecord>, usize), RegistryError>)
    requires
        offset_ok(data@, start as int),
    ensures
        view_vec_result(r) == section(start as int, n as nat, grid_reader(data@)),
        next_ok(r, data@),
{
    let mut v: Vec<GridRecord> = Vec::new();
    assert(v@.map_values(|x: GridRecord| x@) =~= Seq::<GridModel>::empty());
    let mut offset = start;
    let mut i: u32 = 0;
    while i < n
        invariant
            i <= n,
            offset_ok(data@, offset as int),
            offset_ok(data@, start as int),
            section(start as int, i as nat, grid_reader(data@)) == Ok::<(Seq<GridModel>, int), RegistryError>(
                (v@.map_values(|x: GridRecord| x@), offset as int),
            ),
        decreases n - i,
    {
        match parse_grid_at(data, offset) {
            Ok((rec, next)) => {
                let ghost old_v = v@;
                let ghost m = rec@;
                v.push(rec);
                assert(v@.map_values(|x: GridRecord| x@) =~= old_v.map_values(|x: GridRecord| x@).push(m));
                offset = next;
            },
            Err(e) => {
                proof {
                    lemma_section_err(start as int, (i + 1) as nat, n as nat, grid_reader(data@), e);
                }
                return Err(e);
            },
        }
        i = i + 1;
    }
    Ok((v, offset))
}

fn parse_operations(data: &[u8], start: usize, n: u32, extents: &Vec<ExtentRecord>) -> (r: Result<(Vec<OperationRecord>, usize), RegistryError>)
    requires
        offset_ok(data@, start as int),
    ensures
        view_vec_result(r) == section(start as int, n as nat, operation_reader(data@, extents@.map_values(|e: ExtentRecord| e@))),
        next_ok(r, data@),
{
    let ghost f = operation_reader(data@, extents@.map_values(|e: ExtentRecord| e@));
    let mut v: Vec<OperationRecord> = Vec::new();
    assert(v@.map_values(|x: OperationRecord| x@) =~= Seq::<OperationModel>::empty());
    let mut offset = start;
    let mut i: u32 = 0;
    while i < n
        invariant
            i <= n,
            offset_ok(data@, offset as int),
            offset_ok(data@, start as int),
            f == operation_reader(data@, extents@.map_values(|e: ExtentRecord| e@)),
            section(start as int, i as nat, f) == Ok::<(Seq<OperationModel>, int), RegistryError>(
                (v@.map_values(|x: OperationRecord| x@), offset as int),
            ),
        decreases n - i,
    {
        match parse_operation_at(data, offset, extents) {
            Ok((rec, next)) => {
                let ghost old_v = v@;
                let ghost m = rec@;
                v.push(rec);
                assert(v@.map_values(|x: OperationRecord| x@) =~= old_v.map_values(|x: OperationRecord| x@).push(m));
                offset = next;
            },
            Err(e) => {
                proof {
                    lemma_section_err(start as int, (i + 1) as nat, n as nat, f, e);
                }
                return Err(e);
            },
        }
        i = i + 1;
    }
    Ok((v, offset))
}

impl RegistryDb {
    /// Decodes a registry file. The result is the registry that
    /// `parse_registry_spec` gives, or the first defect it reports. A file
    /// too small for the header, with another magic or another version is
    /// refused with `TooSmall`, `InvalidMagic` or `UnsupportedVersion`
    /// before any record is read; a loader that must not go on without its
    /// registry stops on these errors.
    pub fn parse(data: &[u8]) -> (r: Result<RegistryDb, RegistryError>)
        requires
            data@.len() + 0x40000 <= usize::MAX,
        ensures
            match r {
                Ok(db) => parse_registry_spec(data@) == Ok::<RegistryModel, RegistryError>(db@),
                Err(e) => parse_registry_spec(data@) == Err::<RegistryModel, RegistryError>(e),
            },
    {
        let h = match read_header(data) {
            Ok(h) => h,
            Err(e) => {
                return Err(e);
            },
        };
        let (ellipsoids, o1) = match parse_ellipsoids(data, REGISTRY_HEADER_SIZE, h.num_ellipsoids) {
            Ok(v) => v,
            Err(e) => {
                return Err(e);
            },
        };
        let (datums, o2) = match parse_datums(data, o1, h.num_datums, &ellipsoids) {
            Ok(v) => v,
            Err(e) => {
                return Err(e);
            },
        };
        let (geographic_crs, o3) = match parse_geographics(data, o2, h.num_geographic_crs) {
            Ok(v) => v,
            Err(e) => {
                return Err(e);
            },
        };
        let (projected_crs, o4) = match parse_projecteds(data, o3, h.num_projected_crs) {
            Ok(v) => v,
            Err(e) => {
                return Err(e);
            },
        };
        let (extents, o5) = match parse_extents(data, o4, h.num_extents) {
            Ok(v) => v,
            Err(e) => {
                return Err(e);
            },
        };
        let (grids, o6) = match parse_grids(data, o5, h.num_grids) {
            Ok(v) => v,
            Err(e) => {
                return Err(e);
            },
        };
        let (operations, _o7) = match parse_operations(data, o6, h.num_operations, &extents) {
            Ok(v) => v,
            Err(e) => {
                return Err(e);
            },
        };
        Ok(
            RegistryDb {
                ellipsoids,
                datums,
                geographic_crs,
                projected_crs,
                extents,
                grids,
                operations,
            },
        )
    }
}

} // verus!
