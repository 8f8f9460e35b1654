//! The binary registry file the generator writes: its records, with every
//! floating-point value carried as the bits of its canonical form, and the
//! byte layout of the file.

use vstd::prelude::*;
use vstd::string::StringSliceAdditionalSpecFns;
use vstd::utf8::encode_utf8;
use crate::registry_build::{
    le_bytes_u16, le_bytes_u64, push_u64_le, write_optional_bits, write_string_u16,
    CANONICAL_NAN_BITS,
};
use crate::registry_format::{
    GRID_INTERPOLATION_BILINEAR, OP_CONCATENATED, OP_GRID_SHIFT, OP_HELMERT, REGISTRY_MAGIC,
};
use crate::registry::{insert_sorted, strictly_increasing};
use crate::registry_build::lemma_u64_round_trip;
use crate::registry_build::lemma_u16_round_trip;
use crate::registry_format::{
    datum_at, decode_projection_method, ellipsoid_at, extent_at, geographic_at, has_ellipsoid,
    is_positive_finite_bits, le_u16, le_u32, le_u64, projected_at, projection_params_at,
    DatumRecord, DatumShiftRecord, EllipsoidRecord, ExtentModel, GeographicModel, HelmertBits,
    ProjectedModel, RegistryError, DATUM_SHIFT_HELMERT,
};
use crate::registry_build::{grid_format_from_method, grid_format_from_method_spec};
use crate::text::same_text;

verus! {

/// The format version the generator writes.
pub const GENERATED_REGISTRY_VERSION: u16 = 7;

/// The vertical offset convention of a geoid-height grid operation.
pub const VERTICAL_OFFSET_GEOID_HEIGHT_METERS: u8 = 1;

// ---------------------------------------------------------------------------
// Byte encodings
// ---------------------------------------------------------------------------

/// The little-endian bytes of a `u32`.
pub open spec fn le_bytes_u32(v: u32) -> Seq<u8> {
    seq![v as u8, (v >> 8u32) as u8, (v >> 16u32) as u8, (v >> 24u32) as u8]
}

fn push_u32_le(buf: &mut Vec<u8>, v: u32)
    ensures
        final(buf)@ == old(buf)@ + le_bytes_u32(v),
{
    buf.push(v as u8);
    buf.push((v >> 8u32) as u8);
    buf.push((v >> 16u32) as u8);
    buf.push((v >> 24u32) as u8);
    assert(buf@ =~= old(buf)@ + le_bytes_u32(v));
}

fn push_u16_le(buf: &mut Vec<u8>, v: u16)
    ensures
        final(buf)@ == old(buf)@ + le_bytes_u16(v),
{
    buf.push(v as u8);
    buf.push((v >> 8u16) as u8);
    assert(buf@ =~= old(buf)@ + le_bytes_u16(v));
}

/// A string field: its UTF-8 length as a little-endian `u16`, then its bytes.
pub open spec fn string_field(s: Seq<char>) -> Seq<u8> {
    le_bytes_u16(encode_utf8(s).len() as u16) + encode_utf8(s)
}

/// Whether a string fits a string field.
pub open spec fn fits_field(s: Seq<char>) -> bool {
    encode_utf8(s).len() <= u16::MAX
}

fn push_string(buf: &mut Vec<u8>, s: &String)
    requires
        fits_field(s@),
    ensures
        final(buf)@ == old(buf)@ + string_field(s@),
{
    let t = s.as_str();
    assert(t.spec_bytes() == encode_utf8(s@));
    write_string_u16(buf, t);
    assert(buf@ =~= old(buf)@ + string_field(s@));
}

/// The bytes of a sequence of items, each encoded by `f`, one after another.
pub open spec fn concat_map<T>(s: Seq<T>, f: spec_fn(T) -> Seq<u8>) -> Seq<u8>
    decreases s.len(),
{
    if s.len() == 0 {
        Seq::empty()
    } else {
        concat_map(s.drop_last(), f) + f(s.last())
    }
}

/// Bytes of `u32` values in order.
pub open spec fn u32s_bytes(s: Seq<u32>) -> Seq<u8> {
    concat_map(s, |v: u32| le_bytes_u32(v))
}

/// Bytes of `u64` values in order.
pub open spec fn u64s_bytes(s: Seq<u64>) -> Seq<u8> {
    concat_map(s, |v: u64| le_bytes_u64(v))
}

/// String fields in order.
pub open spec fn strings_bytes(s: Seq<Seq<char>>) -> Seq<u8> {
    concat_map(s, |v: Seq<char>| string_field(v))
}

proof fn lemma_u32s_step(s: Seq<u32>, i: int)
    requires
        0 <= i < s.len(),
    ensures
        u32s_bytes(s.take(i + 1)) == u32s_bytes(s.take(i)) + le_bytes_u32(s[i]),
{
    assert(s.take(i + 1).drop_last() =~= s.take(i));
}

proof fn lemma_u64s_step(s: Seq<u64>, i: int)
    requires
        0 <= i < s.len(),
    ensures
        u64s_bytes(s.take(i + 1)) == u64s_bytes(s.take(i)) + le_bytes_u64(s[i]),
{
    assert(s.take(i + 1).drop_last() =~= s.take(i));
}

proof fn lemma_strings_step(s: Seq<Seq<char>>, i: int)
    requires
        0 <= i < s.len(),
    ensures
        strings_bytes(s.take(i + 1)) == strings_bytes(s.take(i)) + string_field(s[i]),
{
    assert(s.take(i + 1).drop_last() =~= s.take(i));
}

fn push_u32s(buf: &mut Vec<u8>, values: &Vec<u32>)
    ensures
        final(buf)@ == old(buf)@ + u32s_bytes(values@),
{
    let mut i: usize = 0;
    assert(values@.take(0) =~= Seq::<u32>::empty());
    while i < values.len()
        invariant
            i <= values@.len(),
            buf@ == old(buf)@ + u32s_bytes(values@.take(i as int)),
        decreases values.len() - i,
    {
        proof {
            lemma_u32s_step(values@, i as int);
        }
        push_u32_le(buf, values[i]);
        i = i + 1;
        assert(buf@ =~= old(buf)@ + u32s_bytes(values@.take(i as int)));
    }
    assert(values@.take(values@.len() as int) =~= values@);
}

fn push_u64s(buf: &mut Vec<u8>, values: &Vec<u64>)
    ensures
        final(buf)@ == old(buf)@ + u64s_bytes(values@),
{
    let mut i: usize = 0;
    assert(values@.take(0) =~= Seq::<u64>::empty());
    while i < values.len()
        invariant
            i <= values@.len(),
            buf@ == old(buf)@ + u64s_bytes(values@.take(i as int)),
        decreases values.len() - i,
    {
        proof {
            lemma_u64s_step(values@, i as int);
        }
        push_u64_le(buf, values[i]);
        i = i + 1;
        assert(buf@ =~= old(buf)@ + u64s_bytes(values@.take(i as int)));
    }
    assert(values@.take(values@.len() as int) =~= values@);
}

fn push_strings(buf: &mut Vec<u8>, values: &Vec<String>)
    requires
        forall|k: int| 0 <= k < values@.len() ==> fits_field(#[trigger] values@[k]@),
    ensures
        final(buf)@ == old(buf)@ + strings_bytes(values@.map_values(|s: String| s@)),
{
    let ghost vs = values@.map_values(|s: String| s@);
    let mut i: usize = 0;
    assert(vs.take(0) =~= Seq::<Seq<char>>::empty());
    while i < values.len()
        invariant
            i <= values@.len(),
            vs == values@.map_values(|s: String| s@),
            forall|k: int| 0 <= k < values@.len() ==> fits_field(#[trigger] values@[k]@),
            buf@ == old(buf)@ + strings_bytes(vs.take(i as int)),
        decreases values.len() - i,
    {
        proof {
            lemma_strings_step(vs, i as int);
        }
        assert(vs[i as int] == values@[i as int]@);
        push_string(buf, &values[i]);
        i = i + 1;
        assert(buf@ =~= old(buf)@ + strings_bytes(vs.take(i as int)));
    }
    assert(vs.take(values@.len() as int) =~= vs);
}

/// The flag byte of an operation.
pub open spec fn flags_byte(deprecated: bool, preferred: bool, approximate: bool) -> u8 {
    ((if deprecated { 1u8 } else { 0u8 }) + (if preferred { 2u8 } else { 0u8 }) + (if approximate {
        4u8
    } else {
        0u8
    })) as u8
}

fn flags(deprecated: bool, preferred: bool, approximate: bool) -> (r: u8)
    ensures
        r == flags_byte(deprecated, preferred, approximate),
{
    let mut f: u8 = 0;
    if deprecated {
        f = f + 1;
    }
    if preferred {
        f = f + 2;
    }
    if approximate {
        f = f + 4;
    }
    f
}

/// An optional value's bits, the canonical NaN when it is absent.
pub open spec fn optional_bits(v: Option<u64>) -> u64 {
    match v {
        Some(b) => b,
        None => CANONICAL_NAN_BITS,
    }
}

// ---------------------------------------------------------------------------
// Records
// ---------------------------------------------------------------------------

/// An ellipsoid: EPSG code, semi-major axis and inverse flattening.
#[derive(Clone, Copy, PartialEq, Eq, Structural)]
pub struct EllipsoidEntry {
    pub code: u32,
    pub semi_major_axis_bits: u64,
    pub inverse_flattening_bits: u64,
}

/// A datum: EPSG code, ellipsoid, kind of shift to WGS 84 and its seven
/// Helmert parameters.
pub struct DatumEntry {
    pub code: u32,
    pub ellipsoid_code: u32,
    pub shift_kind: u8,
    pub helmert_bits: Vec<u64>,
}

/// A geographic CRS: EPSG code, datum and name.
pub struct GeographicEntry {
    pub code: u32,
    pub datum_code: u32,
    pub name: String,
}

/// A projected CRS: EPSG code, base geographic CRS, datum, projection
/// method, linear unit in metres, seven method parameters and name.
pub struct ProjectedEntry {
    pub code: u32,
    pub base_geographic_crs_code: u32,
    pub datum_code: u32,
    pub method_id: u8,
    pub linear_unit_bits: u64,
    pub param_bits: Vec<u64>,
    pub name: String,
}

/// An extent: EPSG code, bounds in degrees and name.
pub struct ExtentEntry {
    pub code: u32,
    pub west_bits: u64,
    pub south_bits: u64,
    pub east_bits: u64,
    pub north_bits: u64,
    pub name: String,
}

/// A grid resource: id, format, interpolation, area, name and resource
/// names.
pub struct GridEntry {
    pub id: u32,
    pub format: u8,
    pub interpolation: u8,
    pub area_code: u32,
    pub name: String,
    pub resource_names: Vec<String>,
}

/// What a horizontal operation does.
pub enum PayloadEntry {
    /// Seven Helmert parameters.
    Helmert(Vec<u64>),
    GridShift { grid_id: u32, direction: u8, interpolation: u8 },
    /// Steps: operation code and direction.
    Concatenated(Vec<(u32, u8)>),
}

/// A horizontal coordinate operation.
pub struct OperationEntry {
    pub code: u32,
    pub name: String,
    pub source_crs_code: u32,
    pub target_crs_code: u32,
    pub source_datum_code: u32,
    pub target_datum_code: u32,
    pub accuracy_bits: Option<u64>,
    pub deprecated: bool,
    pub preferred: bool,
    pub approximate: bool,
    pub area_codes: Vec<u32>,
    pub payload: PayloadEntry,
}

/// A vertical grid operation.
pub struct VerticalEntry {
    pub code: u32,
    pub name: String,
    pub source_horizontal_crs_code: u32,
    pub target_horizontal_crs_code: u32,
    pub grid_horizontal_crs_code: u32,
    pub source_vertical_crs_code: u32,
    pub target_vertical_crs_code: u32,
    pub source_vertical_datum_code: u32,
    pub target_vertical_datum_code: u32,
    pub grid_id: u32,
    pub accuracy_bits: Option<u64>,
    pub deprecated: bool,
    pub area_codes: Vec<u32>,
}

/// Every section of a registry file, in file order.
pub struct RegistryTables {
    pub ellipsoids: Vec<EllipsoidEntry>,
    pub datums: Vec<DatumEntry>,
    pub geographic_crs: Vec<GeographicEntry>,
    pub projected_crs: Vec<ProjectedEntry>,
    pub extents: Vec<ExtentEntry>,
    pub grids: Vec<GridEntry>,
    pub operations: Vec<OperationEntry>,
    pub vertical_operations: Vec<VerticalEntry>,
}

// ---------------------------------------------------------------------------
// Record layouts
// ---------------------------------------------------------------------------

/// An ellipsoid record: code, semi-major axis, inverse flattening (20 bytes).
pub open spec fn ellipsoid_bytes(e: EllipsoidEntry) -> Seq<u8> {
    le_bytes_u32(e.code) + le_bytes_u64(e.semi_major_axis_bits) + le_bytes_u64(
        e.inverse_flattening_bits,
    )
}

/// A datum record: code, ellipsoid, shift kind, seven zero bytes, then the
/// Helmert parameters (72 bytes).
pub open spec fn datum_bytes(d: DatumEntry) -> Seq<u8> {
    le_bytes_u32(d.code) + le_bytes_u32(d.ellipsoid_code) + seq![d.shift_kind] + Seq::new(
        7,
        |i: int| 0u8,
    ) + u64s_bytes(d.helmert_bits@)
}

/// A geographic CRS record: code, datum, name.
pub open spec fn geographic_bytes(g: GeographicEntry) -> Seq<u8> {
    le_bytes_u32(g.code) + le_bytes_u32(g.datum_code) + string_field(g.name@)
}

/// A projected CRS record: code, base CRS, datum, method and three zero
/// bytes, linear unit, seven parameters (80 bytes), then the name.
pub open spec fn projected_bytes(p: ProjectedEntry) -> Seq<u8> {
    le_bytes_u32(p.code) + le_bytes_u32(p.base_geographic_crs_code) + le_bytes_u32(p.datum_code)
        + seq![p.method_id, 0u8, 0u8, 0u8] + le_bytes_u64(p.linear_unit_bits) + u64s_bytes(
        p.param_bits@,
    ) + string_field(p.name@)
}

/// An extent record: code, west, south, east, north, name.
pub open spec fn extent_bytes(e: ExtentEntry) -> Seq<u8> {
    le_bytes_u32(e.code) + le_bytes_u64(e.west_bits) + le_bytes_u64(e.south_bits) + le_bytes_u64(
        e.east_bits,
    ) + le_bytes_u64(e.north_bits) + string_field(e.name@)
}

/// A grid record: id, format, interpolation, resource count, area, name,
/// resource names.
pub open spec fn grid_bytes(g: GridEntry) -> Seq<u8> {
    le_bytes_u32(g.id) + seq![g.format, g.interpolation] + le_bytes_u16(
        g.resource_names@.len() as u16,
    ) + le_bytes_u32(g.area_code) + string_field(g.name@) + strings_bytes(
        g.resource_names@.map_values(|s: String| s@),
    )
}

/// A concatenation step: operation code, direction, three zero bytes.
pub open spec fn step_bytes(s: (u32, u8)) -> Seq<u8> {
    le_bytes_u32(s.0) + seq![s.1, 0u8, 0u8, 0u8]
}

/// Concatenation steps in order.
pub open spec fn steps_bytes(s: Seq<(u32, u8)>) -> Seq<u8> {
    concat_map(s, |st: (u32, u8)| step_bytes(st))
}

proof fn lemma_steps_step(s: Seq<(u32, u8)>, i: int)
    requires
        0 <= i < s.len(),
    ensures
        steps_bytes(s.take(i + 1)) == steps_bytes(s.take(i)) + step_bytes(s[i]),
{
    assert(s.take(i + 1).drop_last() =~= s.take(i));
}

/// The payload tag of an operation.
pub open spec fn payload_tag(p: PayloadEntry) -> u8 {
    match p {
        PayloadEntry::Helmert(_) => OP_HELMERT,
        PayloadEntry::GridShift { .. } => OP_GRID_SHIFT,
        PayloadEntry::Concatenated(_) => OP_CONCATENATED,
    }
}

/// The payload bytes of an operation.
pub open spec fn payload_bytes(p: PayloadEntry) -> Seq<u8> {
    match p {
        PayloadEntry::Helmert(bits) => u64s_bytes(bits@),
        PayloadEntry::GridShift { grid_id, direction, interpolation } => le_bytes_u32(grid_id)
            + seq![direction, interpolation, 0u8, 0u8],
        PayloadEntry::Concatenated(steps) => le_bytes_u16(steps@.len() as u16) + steps_bytes(steps@),
    }
}

/// An operation record: code, payload tag, flags, area count, source and
/// target CRS and datum, accuracy, name, area codes, payload.
pub open spec fn operation_bytes(o: OperationEntry) -> Seq<u8> {
    le_bytes_u32(o.code) + seq![payload_tag(o.payload), flags_byte(o.deprecated, o.preferred, o.approximate)]
        + le_bytes_u16(o.area_codes@.len() as u16) + le_bytes_u32(o.source_crs_code)
        + le_bytes_u32(o.target_crs_code) + le_bytes_u32(o.source_datum_code) + le_bytes_u32(
        o.target_datum_code,
    ) + le_bytes_u64(optional_bits(o.accuracy_bits)) + string_field(o.name@) + u32s_bytes(
        o.area_codes@,
    ) + payload_bytes(o.payload)
}

/// A vertical operation record: code, flags, offset convention, area
/// count, the seven CRS and datum codes, grid, accuracy, name, area codes.
pub open spec fn vertical_bytes(v: VerticalEntry) -> Seq<u8> {
    le_bytes_u32(v.code) + seq![flags_byte(v.deprecated, false, false), VERTICAL_OFFSET_GEOID_HEIGHT_METERS]
        + le_bytes_u16(v.area_codes@.len() as u16) + le_bytes_u32(v.source_horizontal_crs_code)
        + le_bytes_u32(v.target_horizontal_crs_code) + le_bytes_u32(v.grid_horizontal_crs_code)
        + le_bytes_u32(v.source_vertical_crs_code) + le_bytes_u32(v.target_vertical_crs_code)
        + le_bytes_u32(v.source_vertical_datum_code) + le_bytes_u32(v.target_vertical_datum_code)
        + le_bytes_u32(v.grid_id) + le_bytes_u64(optional_bits(v.accuracy_bits)) + string_field(
        v.name@,
    ) + u32s_bytes(v.area_codes@)
}

/// The header: magic, version, two zero bytes and the count of each section.
pub open spec fn header_bytes(t: RegistryTables) -> Seq<u8> {
    le_bytes_u32(REGISTRY_MAGIC) + le_bytes_u16(GENERATED_REGISTRY_VERSION) + le_bytes_u16(0)
        + le_bytes_u32(t.ellipsoids@.len() as u32) + le_bytes_u32(t.datums@.len() as u32)
        + le_bytes_u32(t.geographic_crs@.len() as u32) + le_bytes_u32(
        t.projected_crs@.len() as u32,
    ) + le_bytes_u32(t.extents@.len() as u32) + le_bytes_u32(t.grids@.len() as u32)
        + le_bytes_u32(t.operations@.len() as u32) + le_bytes_u32(
        t.vertical_operations@.len() as u32,
    )
}

/// An ellipsoid section: its records one after another.
pub open spec fn ellipsoids_bytes(s: Seq<EllipsoidEntry>) -> Seq<u8> {
    concat_map(s, |r: EllipsoidEntry| ellipsoid_bytes(r))
}

proof fn lemma_ellipsoids_step(s: Seq<EllipsoidEntry>, i: int)
    requires
        0 <= i < s.len(),
    ensures
        ellipsoids_bytes(s.take(i + 1)) == ellipsoids_bytes(s.take(i)) + ellipsoid_bytes(s[i]),
{
    assert(s.take(i + 1).drop_last() =~= s.take(i));
}

/// A datum section: its records one after another.
pub open spec fn datums_bytes(s: Seq<DatumEntry>) -> Seq<u8> {
    concat_map(s, |r: DatumEntry| datum_bytes(r))
}

proof fn lemma_datums_step(s: Seq<DatumEntry>, i: int)
    requires
        0 <= i < s.len(),
    ensures
        datums_bytes(s.take(i + 1)) == datums_bytes(s.take(i)) + datum_bytes(s[i]),
{
    assert(s.take(i + 1).drop_last() =~= s.take(i));
}

/// A geographic CRS section: its records one after another.
pub open spec fn geographics_bytes(s: Seq<GeographicEntry>) -> Seq<u8> {
    concat_map(s, |r: GeographicEntry| geographic_bytes(r))
}

proof fn lemma_geographics_step(s: Seq<GeographicEntry>, i: int)
    requires
        0 <= i < s.len(),
    ensures
        geographics_bytes(s.take(i + 1)) == geographics_bytes(s.take(i)) + geographic_bytes(s[i]),
{
    assert(s.take(i + 1).drop_last() =~= s.take(i));
}

/// A projected CRS section: its records one after another.
pub open spec fn projecteds_bytes(s: Seq<ProjectedEntry>) -> Seq<u8> {
    concat_map(s, |r: ProjectedEntry| projected_bytes(r))
}

proof fn lemma_projecteds_step(s: Seq<ProjectedEntry>, i: int)
    requires
        0 <= i < s.len(),
    ensures
        projecteds_bytes(s.take(i + 1)) == projecteds_bytes(s.take(i)) + projected_bytes(s[i]),
{
    assert(s.take(i + 1).drop_last() =~= s.take(i));
}

/// An extent section: its records one after another.
pub open spec fn extents_bytes(s: Seq<ExtentEntry>) -> Seq<u8> {
    concat_map(s, |r: ExtentEntry| extent_bytes(r))
}

proof fn lemma_extents_step(s: Seq<ExtentEntry>, i: int)
    requires
        0 <= i < s.len(),
    ensures
        extents_bytes(s.take(i + 1)) == extents_bytes(s.take(i)) + extent_bytes(s[i]),
{
    assert(s.take(i + 1).drop_last() =~= s.take(i));
}

/// A grid section: its records one after another.
pub open spec fn grids_bytes(s: Seq<GridEntry>) -> Seq<u8> {
    concat_map(s, |r: GridEntry| grid_bytes(r))
}

proof fn lemma_grids_step(s: Seq<GridEntry>, i: int)
    requires
        0 <= i < s.len(),
    ensures
        grids_bytes(s.take(i + 1)) == grids_bytes(s.take(i)) + grid_bytes(s[i]),
{
    assert(s.take(i + 1).drop_last() =~= s.take(i));
}

/// An operation section: its records one after another.
pub open spec fn operations_bytes(s: Seq<OperationEntry>) -> Seq<u8> {
    concat_map(s, |r: OperationEntry| operation_bytes(r))
}

proof fn lemma_operations_step(s: Seq<OperationEntry>, i: int)
    requires
        0 <= i < s.len(),
    ensures
        operations_bytes(s.take(i + 1)) == operations_bytes(s.take(i)) + operation_bytes(s[i]),
{
    assert(s.take(i + 1).drop_last() =~= s.take(i));
}

/// A vertical operation section: its records one after another.
pub open spec fn verticals_bytes(s: Seq<VerticalEntry>) -> Seq<u8> {
    concat_map(s, |r: VerticalEntry| vertical_bytes(r))
}

proof fn lemma_verticals_step(s: Seq<VerticalEntry>, i: int)
    requires
        0 <= i < s.len(),
    ensures
        verticals_bytes(s.take(i + 1)) == verticals_bytes(s.take(i)) + vertical_bytes(s[i]),
{
    assert(s.take(i + 1).drop_last() =~= s.take(i));
}

/// The registry file: the header, then every section's records in order.
pub open spec fn registry_file_spec(t: RegistryTables) -> Seq<u8> {
    header_bytes(t) + ellipsoids_bytes(t.ellipsoids@) + datums_bytes(t.datums@) + geographics_bytes(
        t.geographic_crs@,
    ) + projecteds_bytes(t.projected_crs@) + extents_bytes(t.extents@) + grids_bytes(t.grids@)
        + operations_bytes(t.operations@) + verticals_bytes(t.vertical_operations@)
}

// ---------------------------------------------------------------------------
// What fits the file
// ---------------------------------------------------------------------------

pub open spec fn datum_fits(d: DatumEntry) -> bool {
    d.helmert_bits@.len() == 7
}

pub open spec fn geographic_fits(g: GeographicEntry) -> bool {
    fits_field(g.name@)
}

pub open spec fn projected_fits(p: ProjectedEntry) -> bool {
    p.param_bits@.len() == 7 && fits_field(p.name@)
}

pub open spec fn extent_fits(e: ExtentEntry) -> bool {
    fits_field(e.name@)
}

pub open spec fn grid_fits(g: GridEntry) -> bool {
    &&& fits_field(g.name@)
    &&& forall|k: int| 0 <= k < g.resource_names@.len() ==> fits_field(#[trigger] g.resource_names@[k]@)
}

pub open spec fn payload_fits(p: PayloadEntry) -> bool {
    match p {
        PayloadEntry::Helmert(bits) => bits@.len() == 7,
        PayloadEntry::GridShift { .. } => true,
        PayloadEntry::Concatenated(_) => true,
    }
}

pub open spec fn operation_fits(o: OperationEntry) -> bool {
    fits_field(o.name@) && payload_fits(o.payload)
}

pub open spec fn vertical_fits(v: VerticalEntry) -> bool {
    fits_field(v.name@)
}

/// What the generator needs of its tables: each record's fixed-size arrays
/// hold seven values and each string fits its `u16` length. Counts and list
/// lengths are written truncated to the width of their field.
pub open spec fn tables_fit(t: RegistryTables) -> bool {
    &&& forall|k: int| 0 <= k < t.datums@.len() ==> datum_fits(#[trigger] t.datums@[k])
    &&& forall|k: int| 0 <= k < t.geographic_crs@.len() ==> geographic_fits(#[trigger] t.geographic_crs@[k])
    &&& forall|k: int| 0 <= k < t.projected_crs@.len() ==> projected_fits(#[trigger] t.projected_crs@[k])
    &&& forall|k: int| 0 <= k < t.extents@.len() ==> extent_fits(#[trigger] t.extents@[k])
    &&& forall|k: int| 0 <= k < t.grids@.len() ==> grid_fits(#[trigger] t.grids@[k])
    &&& forall|k: int| 0 <= k < t.operations@.len() ==> operation_fits(#[trigger] t.operations@[k])
    &&& forall|k: int|
        0 <= k < t.vertical_operations@.len() ==> vertical_fits(#[trigger] t.vertical_operations@[k])
}

// ---------------------------------------------------------------------------
// Writers
// ---------------------------------------------------------------------------

fn write_ellipsoid(buf: &mut Vec<u8>, e: &EllipsoidEntry)
    ensures
        final(buf)@ == old(buf)@ + ellipsoid_bytes(*e),
{
    push_u32_le(buf, e.code);
    push_u64_le(buf, e.semi_major_axis_bits);
    push_u64_le(buf, e.inverse_flattening_bits);
    assert(buf@ =~= old(buf)@ + ellipsoid_bytes(*e));
}

fn write_datum(buf: &mut Vec<u8>, d: &DatumEntry)
    ensures
        final(buf)@ == old(buf)@ + datum_bytes(*d),
{
    push_u32_le(buf, d.code);
    push_u32_le(buf, d.ellipsoid_code);
    buf.push(d.shift_kind);
    let ghost mid = buf@;
    let mut i: usize = 0;
    while i < 7
        invariant
            i <= 7,
            buf@ == mid + Seq::new(i as nat, |k: int| 0u8),
        decreases 7 - i,
    {
        buf.push(0u8);
        i = i + 1;
        assert(buf@ =~= mid + Seq::new(i as nat, |k: int| 0u8));
    }
    push_u64s(buf, &d.helmert_bits);
    assert(buf@ =~= old(buf)@ + datum_bytes(*d));
}

fn write_geographic(buf: &mut Vec<u8>, g: &GeographicEntry)
    requires
        geographic_fits(*g),
    ensures
        final(buf)@ == old(buf)@ + geographic_bytes(*g),
{
    push_u32_le(buf, g.code);
    push_u32_le(buf, g.datum_code);
    push_string(buf, &g.name);
    assert(buf@ =~= old(buf)@ + geographic_bytes(*g));
}

fn write_projected(buf: &mut Vec<u8>, p: &ProjectedEntry)
    requires
        projected_fits(*p),
    ensures
        final(buf)@ == old(buf)@ + projected_bytes(*p),
{
    push_u32_le(buf, p.code);
    push_u32_le(buf, p.base_geographic_crs_code);
    push_u32_le(buf, p.datum_code);
    buf.push(p.method_id);
    buf.push(0u8);
    buf.push(0u8);
    buf.push(0u8);
    push_u64_le(buf, p.linear_unit_bits);
    push_u64s(buf, &p.param_bits);
    push_string(buf, &p.name);
    assert(buf@ =~= old(buf)@ + projected_bytes(*p));
}

fn write_extent(buf: &mut Vec<u8>, e: &ExtentEntry)
    requires
        extent_fits(*e),
    ensures
        final(buf)@ == old(buf)@ + extent_bytes(*e),
{
    push_u32_le(buf, e.code);
    push_u64_le(buf, e.west_bits);
    push_u64_le(buf, e.south_bits);
    push_u64_le(buf, e.east_bits);
    push_u64_le(buf, e.north_bits);
    push_string(buf, &e.name);
    assert(buf@ =~= old(buf)@ + extent_bytes(*e));
}

fn write_grid(buf: &mut Vec<u8>, g: &GridEntry)
    requires
        grid_fits(*g),
    ensures
        final(buf)@ == old(buf)@ + grid_bytes(*g),
{
    push_u32_le(buf, g.id);
    buf.push(g.format);
    buf.push(g.interpolation);
    push_u16_le(buf, g.resource_names.len() as u16);
    push_u32_le(buf, g.area_code);
    push_string(buf, &g.name);
    push_strings(buf, &g.resource_names);
    assert(buf@ =~= old(buf)@ + grid_bytes(*g));
}

fn write_payload(buf: &mut Vec<u8>, p: &PayloadEntry)
    requires
        payload_fits(*p),
    ensures
        final(buf)@ == old(buf)@ + payload_bytes(*p),
{
    match p {
        PayloadEntry::Helmert(bits) => {
            push_u64s(buf, bits);
        },
        PayloadEntry::GridShift { grid_id, direction, interpolation } => {
            push_u32_le(buf, *grid_id);
            buf.push(*direction);
            buf.push(*interpolation);
            buf.push(0u8);
            buf.push(0u8);
            assert(buf@ =~= old(buf)@ + payload_bytes(*p));
        },
        PayloadEntry::Concatenated(steps) => {
            push_u16_le(buf, steps.len() as u16);
            let ghost start = buf@;
            let mut i: usize = 0;
            assert(steps@.take(0) =~= Seq::<(u32, u8)>::empty());
            while i < steps.len()
                invariant
                    i <= steps@.len(),
                    buf@ == start + steps_bytes(steps@.take(i as int)),
                decreases steps.len() - i,
            {
                proof {
                    lemma_steps_step(steps@, i as int);
                }
                let (id, direction) = steps[i];
                push_u32_le(buf, id);
                buf.push(direction);
                buf.push(0u8);
                buf.push(0u8);
                buf.push(0u8);
                i = i + 1;
                assert(buf@ =~= start + steps_bytes(steps@.take(i as int)));
            }
            assert(steps@.take(steps@.len() as int) =~= steps@);
            assert(buf@ =~= old(buf)@ + payload_bytes(*p));
        },
    }
}

fn write_payload_tag(p: &PayloadEntry) -> (r: u8)
    ensures
        r == payload_tag(*p),
{
    match p {
        PayloadEntry::Helmert(_) => OP_HELMERT,
        PayloadEntry::GridShift { .. } => OP_GRID_SHIFT,
        PayloadEntry::Concatenated(_) => OP_CONCATENATED,
    }
}

fn write_operation(buf: &mut Vec<u8>, o: &OperationEntry)
    requires
        operation_fits(*o),
    ensures
        final(buf)@ == old(buf)@ + operation_bytes(*o),
{
    push_u32_le(buf, o.code);
    buf.push(write_payload_tag(&o.payload));
    buf.push(flags(o.deprecated, o.preferred, o.approximate));
    push_u16_le(buf, o.area_codes.len() as u16);
    push_u32_le(buf, o.source_crs_code);
    push_u32_le(buf, o.target_crs_code);
    push_u32_le(buf, o.source_datum_code);
    push_u32_le(buf, o.target_datum_code);
    write_optional_bits(buf, o.accuracy_bits);
    push_string(buf, &o.name);
    push_u32s(buf, &o.area_codes);
    write_payload(buf, &o.payload);
    assert(buf@ =~= old(buf)@ + operation_bytes(*o));
}

fn write_vertical(buf: &mut Vec<u8>, v: &VerticalEntry)
    requires
        vertical_fits(*v),
    ensures
        final(buf)@ == old(buf)@ + vertical_bytes(*v),
{
    push_u32_le(buf, v.code);
    buf.push(flags(v.deprecated, false, false));
    buf.push(VERTICAL_OFFSET_GEOID_HEIGHT_METERS);
    push_u16_le(buf, v.area_codes.len() as u16);
    push_u32_le(buf, v.source_horizontal_crs_code);
    push_u32_le(buf, v.target_horizontal_crs_code);
    push_u32_le(buf, v.grid_horizontal_crs_code);
    push_u32_le(buf, v.source_vertical_crs_code);
    push_u32_le(buf, v.target_vertical_crs_code);
    push_u32_le(buf, v.source_vertical_datum_code);
    push_u32_le(buf, v.target_vertical_datum_code);
    push_u32_le(buf, v.grid_id);
    write_optional_bits(buf, v.accuracy_bits);
    push_string(buf, &v.name);
    push_u32s(buf, &v.area_codes);
    assert(buf@ =~= old(buf)@ + vertical_bytes(*v));
}

fn write_ellipsoids(buf: &mut Vec<u8>, records: &Vec<EllipsoidEntry>)
    ensures
        final(buf)@ == old(buf)@ + ellipsoids_bytes(records@),
{
    let mut i: usize = 0;
    assert(records@.take(0) =~= Seq::<EllipsoidEntry>::empty());
    while i < records.len()
        invariant
            i <= records@.len(),
            buf@ == old(buf)@ + ellipsoids_bytes(records@.take(i as int)),
        decreases records.len() - i,
    {
        proof {
            lemma_ellipsoids_step(records@, i as int);
        }
        write_ellipsoid(buf, &records[i]);
        i = i + 1;
        assert(buf@ =~= old(buf)@ + ellipsoids_bytes(records@.take(i as int)));
    }
    assert(records@.take(records@.len() as int) =~= records@);
}

fn write_datums(buf: &mut Vec<u8>, records: &Vec<DatumEntry>)
    requires
        forall|k: int| 0 <= k < records@.len() ==> datum_fits(#[trigger] records@[k]),
    ensures
        final(buf)@ == old(buf)@ + datums_bytes(records@),
{
    let mut i: usize = 0;
    assert(records@.take(0) =~= Seq::<DatumEntry>::empty());
    while i < records.len()
        invariant
            i <= records@.len(),
            forall|k: int| 0 <= k < records@.len() ==> datum_fits(#[trigger] records@[k]),
            buf@ == old(buf)@ + datums_bytes(records@.take(i as int)),
        decreases records.len() - i,
    {
        proof {
            lemma_datums_step(records@, i as int);
        }
        write_datum(buf, &records[i]);
        i = i + 1;
        assert(buf@ =~= old(buf)@ + datums_bytes(records@.take(i as int)));
    }
    assert(records@.take(records@.len() as int) =~= records@);
}

fn write_geographics(buf: &mut Vec<u8>, records: &Vec<GeographicEntry>)
    requires
        forall|k: int| 0 <= k < records@.len() ==> geographic_fits(#[trigger] records@[k]),
    ensures
        final(buf)@ == old(buf)@ + geographics_bytes(records@),
{
    let mut i: usize = 0;
    assert(records@.take(0) =~= Seq::<GeographicEntry>::empty());
    while i < records.len()
        invariant
            i <= records@.len(),
            forall|k: int| 0 <= k < records@.len() ==> geographic_fits(#[trigger] records@[k]),
            buf@ == old(buf)@ + geographics_bytes(records@.take(i as int)),
        decreases records.len() - i,
    {
        proof {
            lemma_geographics_step(records@, i as int);
        }
        write_geographic(buf, &records[i]);
        i = i + 1;
        assert(buf@ =~= old(buf)@ + geographics_bytes(records@.take(i as int)));
    }
    assert(records@.take(records@.len() as int) =~= records@);
}

fn write_projecteds(buf: &mut Vec<u8>, records: &Vec<ProjectedEntry>)
    requires
        forall|k: int| 0 <= k < records@.len() ==> projected_fits(#[trigger] records@[k]),
    ensures
        final(buf)@ == old(buf)@ + projecteds_bytes(records@),
{
    let mut i: usize = 0;
    assert(records@.take(0) =~= Seq::<ProjectedEntry>::empty());
    while i < records.len()
        invariant
            i <= records@.len(),
            forall|k: int| 0 <= k < records@.len() ==> projected_fits(#[trigger] records@[k]),
            buf@ == old(buf)@ + projecteds_bytes(records@.take(i as int)),
        decreases records.len() - i,
    {
        proof {
            lemma_projecteds_step(records@, i as int);
        }
        write_projected(buf, &records[i]);
        i = i + 1;
        assert(buf@ =~= old(buf)@ + projecteds_bytes(records@.take(i as int)));
    }
    assert(records@.take(records@.len() as int) =~= records@);
}

fn write_extents(buf: &mut Vec<u8>, records: &Vec<ExtentEntry>)
    requires
        forall|k: int| 0 <= k < records@.len() ==> extent_fits(#[trigger] records@[k]),
    ensures
        final(buf)@ == old(buf)@ + extents_bytes(records@),
{
    let mut i: usize = 0;
    assert(records@.take(0) =~= Seq::<ExtentEntry>::empty());
    while i < records.len()
        invariant
            i <= records@.len(),
            forall|k: int| 0 <= k < records@.len() ==> extent_fits(#[trigger] records@[k]),
            buf@ == old(buf)@ + extents_bytes(records@.take(i as int)),
        decreases records.len() - i,
    {
        proof {
            lemma_extents_step(records@, i as int);
        }
        write_extent(buf, &records[i]);
        i = i + 1;
        assert(buf@ =~= old(buf)@ + extents_bytes(records@.take(i as int)));
    }
    assert(records@.take(records@.len() as int) =~= records@);
}

fn write_grids(buf: &mut Vec<u8>, records: &Vec<GridEntry>)
    requires
        forall|k: int| 0 <= k < records@.len() ==> grid_fits(#[trigger] records@[k]),
    ensures
        final(buf)@ == old(buf)@ + grids_bytes(records@),
{
    let mut i: usize = 0;
    assert(records@.take(0) =~= Seq::<GridEntry>::empty());
    while i < records.len()
        invariant
            i <= records@.len(),
            forall|k: int| 0 <= k < records@.len() ==> grid_fits(#[trigger] records@[k]),
            buf@ == old(buf)@ + grids_bytes(records@.take(i as int)),
        decreases records.len() - i,
    {
        proof {
            lemma_grids_step(records@, i as int);
        }
        write_grid(buf, &records[i]);
        i = i + 1;
        assert(buf@ =~= old(buf)@ + grids_bytes(records@.take(i as int)));
    }
    assert(records@.take(records@.len() as int) =~= records@);
}

fn write_operations(buf: &mut Vec<u8>, records: &Vec<OperationEntry>)
    requires
        forall|k: int| 0 <= k < records@.len() ==> operation_fits(#[trigger] records@[k]),
    ensures
        final(buf)@ == old(buf)@ + operations_bytes(records@),
{
    let mut i: usize = 0;
    assert(records@.take(0) =~= Seq::<OperationEntry>::empty());
    while i < records.len()
        invariant
            i <= records@.len(),
            forall|k: int| 0 <= k < records@.len() ==> operation_fits(#[trigger] records@[k]),
            buf@ == old(buf)@ + operations_bytes(records@.take(i as int)),
        decreases records.len() - i,
    {
        proof {
            lemma_operations_step(records@, i as int);
        }
        write_operation(buf, &records[i]);
        i = i + 1;
        assert(buf@ =~= old(buf)@ + operations_bytes(records@.take(i as int)));
    }
    assert(records@.take(records@.len() as int) =~= records@);
}

fn write_verticals(buf: &mut Vec<u8>, records: &Vec<VerticalEntry>)
    requires
        forall|k: int| 0 <= k < records@.len() ==> vertical_fits(#[trigger] records@[k]),
    ensures
        final(buf)@ == old(buf)@ + verticals_bytes(records@),
{
    let mut i: usize = 0;
    assert(records@.take(0) =~= Seq::<VerticalEntry>::empty());
    while i < records.len()
        invariant
            i <= records@.len(),
            forall|k: int| 0 <= k < records@.len() ==> vertical_fits(#[trigger] records@[k]),
            buf@ == old(buf)@ + verticals_bytes(records@.take(i as int)),
        decreases records.len() - i,
    {
        proof {
            lemma_verticals_step(records@, i as int);
        }
        write_vertical(buf, &records[i]);
        i = i + 1;
        assert(buf@ =~= old(buf)@ + verticals_bytes(records@.take(i as int)));
    }
    assert(records@.take(records@.len() as int) =~= records@);
}

/// Encodes a registry file: the header with the magic, the version and the
/// count of each section, then every section's records in order, each
/// floating-point value as its bits and each string with its `u16` length.
pub fn encode_registry(tables: &RegistryTables) -> (r: Vec<u8>)
    requires
        tables_fit(*tables),
    ensures
        r@ == registry_file_spec(*tables),
{
    let mut buf: Vec<u8> = Vec::new();
    push_u32_le(&mut buf, REGISTRY_MAGIC);
    push_u16_le(&mut buf, GENERATED_REGISTRY_VERSION);
    push_u16_le(&mut buf, 0);
    push_u32_le(&mut buf, tables.ellipsoids.len() as u32);
    push_u32_le(&mut buf, tables.datums.len() as u32);
    push_u32_le(&mut buf, tables.geographic_crs.len() as u32);
    push_u32_le(&mut buf, tables.projected_crs.len() as u32);
    push_u32_le(&mut buf, tables.extents.len() as u32);
    push_u32_le(&mut buf, tables.grids.len() as u32);
    push_u32_le(&mut buf, tables.operations.len() as u32);
    push_u32_le(&mut buf, tables.vertical_operations.len() as u32);
    assert(buf@ =~= header_bytes(*tables));
    write_ellipsoids(&mut buf, &tables.ellipsoids);
    write_datums(&mut buf, &tables.datums);
    write_geographics(&mut buf, &tables.geographic_crs);
    write_projecteds(&mut buf, &tables.projected_crs);
    write_extents(&mut buf, &tables.extents);
    write_grids(&mut buf, &tables.grids);
    write_operations(&mut buf, &tables.operations);
    write_verticals(&mut buf, &tables.vertical_operations);
    assert(buf@ =~= registry_file_spec(*tables));
    buf
}

// ---------------------------------------------------------------------------
// Record fix-ups
// ---------------------------------------------------------------------------

/// The area codes of a record sorted and without repeats: strictly
/// increasing and holding exactly the given codes.
pub fn sorted_unique_codes(codes: &Vec<u32>) -> (r: Vec<u32>)
    ensures
        strictly_increasing(r@),
        forall|x: u32| r@.contains(x) <==> codes@.contains(x),
{
    let mut out: Vec<u32> = Vec::new();
    let mut i: usize = 0;
    while i < codes.len()
        invariant
            i <= codes@.len(),
            strictly_increasing(out@),
            forall|x: u32| out@.contains(x) <==> codes@.take(i as int).contains(x),
        decreases codes.len() - i,
    {
        let ghost before = out@;
        let ghost t0 = codes@.take(i as int);
        let ghost t1 = codes@.take(i + 1);
        insert_sorted(&mut out, codes[i]);
        assert(t1 =~= t0.push(codes@[i as int]));
        assert forall|x: u32| out@.contains(x) <==> t1.contains(x) by {
            if t1.contains(x) {
                let k = choose|k: int| 0 <= k < t1.len() && #[trigger] t1[k] == x;
                if k < t0.len() {
                    assert(t0[k] == x);
                }
            }
            if t0.contains(x) {
                let k = choose|k: int| 0 <= k < t0.len() && #[trigger] t0[k] == x;
                assert(t1[k] == x);
            }
            if x == codes@[i as int] {
                assert(t1[t0.len() as int] == x);
            }
        }
        i = i + 1;
    }
    assert(codes@.take(codes@.len() as int) =~= codes@);
    out
}

/// The key a grid resource is found again by: the transformation method,
/// the grid name and the second grid name.
pub struct GridKey {
    pub method: String,
    pub grid: String,
    pub grid2: String,
}

/// The grid resources met so far, in the order met, and the key of each;
/// a resource's id is its position plus one.
pub struct GridResources {
    pub keys: Vec<GridKey>,
    pub grids: Vec<GridEntry>,
}

pub open spec fn key_view(k: GridKey) -> (Seq<char>, Seq<char>, Seq<char>) {
    (k.method@, k.grid@, k.grid2@)
}

impl GridResources {
    /// The keys and the grids pair up, ids count up from one, and no key
    /// repeats.
    pub open spec fn wf(&self) -> bool {
        &&& self.keys@.len() == self.grids@.len()
        &&& self.grids@.len() < u32::MAX
        &&& forall|i: int| 0 <= i < self.grids@.len() ==> (#[trigger] self.grids@[i]).id == i + 1
        &&& forall|i: int, j: int|
            0 <= i < j < self.keys@.len() ==> key_view(self.keys@[i]) != key_view(self.keys@[j])
    }

    /// The position of a key, if it was met.
    pub open spec fn position(&self, key: (Seq<char>, Seq<char>, Seq<char>)) -> Option<int> {
        if exists|i: int| 0 <= i < self.keys@.len() && key_view(self.keys@[i]) == key {
            Some(choose|i: int| 0 <= i < self.keys@.len() && key_view(self.keys@[i]) == key)
        } else {
            None
        }
    }

    pub fn new() -> (r: Self)
        ensures
            r.wf(),
            r.keys@.len() == 0,
            r.grids@.len() == 0,
    {
        GridResources { keys: Vec::new(), grids: Vec::new() }
    }

    fn find(&self, method: &str, grid: &str, grid2: &str) -> (r: Option<usize>)
        requires
            self.wf(),
        ensures
            match r {
                Some(i) => i < self.keys@.len() && key_view(self.keys@[i as int]) == (
                    method@,
                    grid@,
                    grid2@,
                ),
                None => self.position((method@, grid@, grid2@)) is None,
            },
    {
        let mut i: usize = 0;
        while i < self.keys.len()
            invariant
                i <= self.keys@.len(),
                forall|k: int| 0 <= k < i ==> key_view(self.keys@[k]) != (method@, grid@, grid2@),
            decreases self.keys.len() - i,
        {
            let k = &self.keys[i];
            if same_text(k.method.as_str(), method) && same_text(k.grid.as_str(), grid) && same_text(
                k.grid2.as_str(),
                grid2,
            ) {
                return Some(i);
            }
            i = i + 1;
        }
        None
    }

    /// The id of the grid resource with this key: the id it was given when
    /// first met, or, for a new key, the next id, given to a new resource
    /// named after the grid, with both grid names as resources (the second
    /// when not empty), its format from the method, bilinear interpolation
    /// and no area yet.
    pub fn intern(&mut self, method: &str, grid: &str, grid2: &str) -> (r: u32)
        requires
            old(self).wf(),
            old(self).grids@.len() + 1 < u32::MAX,
        ensures
            final(self).wf(),
            match old(self).position((method@, grid@, grid2@)) {
                Some(i) => r == i + 1 && *final(self) == *old(self),
                None => {
                    &&& r == old(self).grids@.len() + 1
                    &&& final(self).keys@.len() == old(self).keys@.len() + 1
                    &&& final(self).keys@.drop_last() == old(self).keys@
                    &&& key_view(final(self).keys@.last()) == (method@, grid@, grid2@)
                    &&& final(self).grids@.drop_last() == old(self).grids@
                    &&& final(self).grids@.last().id == r
                    &&& final(self).grids@.last().name@ == grid@
                    &&& final(self).grids@.last().format == grid_format_from_method_spec(method@)
                    &&& final(self).grids@.last().interpolation == GRID_INTERPOLATION_BILINEAR
                    &&& final(self).grids@.last().area_code == 0
                    &&& final(self).grids@.last().resource_names@.map_values(|s: String| s@) == (
                    if grid2@.len() == 0 {
                        seq![grid@]
                    } else {
                        seq![grid@, grid2@]
                    })
                },
            },
    {
        match self.find(method, grid, grid2) {
            Some(i) => {
                proof {
                    let key = (method@, grid@, grid2@);
                    let j = choose|j: int| 0 <= j < self.keys@.len() && key_view(self.keys@[j]) == key;
                    if j != i {
                        if j < i {
                            assert(key_view(self.keys@[j]) != key_view(self.keys@[i as int]));
                        } else {
                            assert(key_view(self.keys@[i as int]) != key_view(self.keys@[j]));
                        }
                    }
                }
                (i + 1) as u32
            },
            None => {
                let id = (self.grids.len() + 1) as u32;
                let mut resource_names: Vec<String> = Vec::new();
                resource_names.push(grid.to_owned());
                if !grid2.is_empty() {
                    resource_names.push(grid2.to_owned());
                }
                assert(resource_names@.map_values(|s: String| s@) =~= (if grid2@.len() == 0 {
                    seq![grid@]
                } else {
                    seq![grid@, grid2@]
                }));
                self.grids.push(
                    GridEntry {
                        id,
                        format: grid_format_from_method(method),
                        interpolation: GRID_INTERPOLATION_BILINEAR,
                        area_code: 0,
                        name: grid.to_owned(),
                        resource_names,
                    },
                );
                self.keys.push(
                    GridKey { method: method.to_owned(), grid: grid.to_owned(), grid2: grid2.to_owned() },
                );
                proof {
                    assert forall|i: int, j: int|
                        0 <= i < j < self.keys@.len() implies key_view(self.keys@[i]) != key_view(
                        self.keys@[j],
                    ) by {
                        if j == self.keys@.len() - 1 {
                            assert(key_view(old(self).keys@[i]) != (method@, grid@, grid2@));
                        } else {
                            assert(self.keys@[i] == old(self).keys@[i]);
                            assert(self.keys@[j] == old(self).keys@[j]);
                        }
                    }
                    assert forall|i: int| 0 <= i < self.grids@.len() implies (
                    #[trigger] self.grids@[i]).id == i + 1 by {
                        if i < self.grids@.len() - 1 {
                            assert(self.grids@[i] == old(self).grids@[i]);
                        }
                    }
                    assert(self.keys@.drop_last() =~= old(self).keys@);
                    assert(self.grids@.drop_last() =~= old(self).grids@);
                }
                id
            },
        }
    }
}

/// The area a grid-shift operation lends to its grid: its first area code,
/// when it shifts through that grid and has areas.
pub open spec fn operation_grid_area(o: OperationEntry, grid_id: u32) -> Option<u32> {
    match o.payload {
        PayloadEntry::GridShift { grid_id: g, .. } => if g == grid_id && o.area_codes@.len() > 0 {
            Some(o.area_codes@[0])
        } else {
            None
        },
        _ => None,
    }
}

/// The area a vertical operation lends to its grid.
pub open spec fn vertical_grid_area(v: VerticalEntry, grid_id: u32) -> Option<u32> {
    if v.grid_id == grid_id && v.area_codes@.len() > 0 {
        Some(v.area_codes@[0])
    } else {
        None
    }
}

/// The first area some operation lends to a grid.
pub open spec fn first_operation_area(ops: Seq<OperationEntry>, grid_id: u32) -> Option<u32>
    decreases ops.len(),
{
    if ops.len() == 0 {
        None
    } else {
        match operation_grid_area(ops[0], grid_id) {
            Some(a) => Some(a),
            None => first_operation_area(ops.drop_first(), grid_id),
        }
    }
}

/// The first area some vertical operation lends to a grid.
pub open spec fn first_vertical_area(ops: Seq<VerticalEntry>, grid_id: u32) -> Option<u32>
    decreases ops.len(),
{
    if ops.len() == 0 {
        None
    } else {
        match vertical_grid_area(ops[0], grid_id) {
            Some(a) => Some(a),
            None => first_vertical_area(ops.drop_first(), grid_id),
        }
    }
}

/// The area of a grid: the first area a horizontal operation lends it,
/// else the first a vertical operation lends it, else none (0).
pub open spec fn grid_area(ops: Seq<OperationEntry>, verticals: Seq<VerticalEntry>, grid_id: u32) -> u32 {
    match first_operation_area(ops, grid_id) {
        Some(a) => a,
        None => match first_vertical_area(verticals, grid_id) {
            Some(a) => a,
            None => 0,
        },
    }
}

fn find_operation_area(ops: &Vec<OperationEntry>, grid_id: u32) -> (r: Option<u32>)
    ensures
        r == first_operation_area(ops@, grid_id),
{
    let mut i: usize = 0;
    assert(ops@.skip(0) =~= ops@);
    while i < ops.len()
        invariant
            i <= ops@.len(),
            first_operation_area(ops@, grid_id) == first_operation_area(ops@.skip(i as int), grid_id),
        decreases ops.len() - i,
    {
        let o = &ops[i];
        assert(ops@.skip(i as int)[0] == ops@[i as int]);
        if let PayloadEntry::GridShift { grid_id: g, .. } = &o.payload {
            if *g == grid_id && o.area_codes.len() > 0 {
                return Some(o.area_codes[0]);
            }
        }
        assert(ops@.skip(i as int).drop_first() =~= ops@.skip(i + 1));
        i = i + 1;
    }
    None
}

fn find_vertical_area(ops: &Vec<VerticalEntry>, grid_id: u32) -> (r: Option<u32>)
    ensures
        r == first_vertical_area(ops@, grid_id),
{
    let mut i: usize = 0;
    assert(ops@.skip(0) =~= ops@);
    while i < ops.len()
        invariant
            i <= ops@.len(),
            first_vertical_area(ops@, grid_id) == first_vertical_area(ops@.skip(i as int), grid_id),
        decreases ops.len() - i,
    {
        let o = &ops[i];
        assert(ops@.skip(i as int)[0] == ops@[i as int]);
        if o.grid_id == grid_id && o.area_codes.len() > 0 {
            return Some(o.area_codes[0]);
        }
        assert(ops@.skip(i as int).drop_first() =~= ops@.skip(i + 1));
        i = i + 1;
    }
    None
}

/// Gives every grid the area of the operations that use it (`grid_area`);
/// nothing else about a grid changes.
pub fn assign_grid_areas(
    grids: &mut Vec<GridEntry>,
    operations: &Vec<OperationEntry>,
    verticals: &Vec<VerticalEntry>,
)
    ensures
        final(grids)@.len() == old(grids)@.len(),
        forall|i: int|
            0 <= i < final(grids)@.len() ==> {
                let (g, o) = (#[trigger] final(grids)@[i], old(grids)@[i]);
                &&& g.area_code == grid_area(operations@, verticals@, o.id)
                &&& g.id == o.id && g.format == o.format && g.interpolation == o.interpolation
                &&& g.name == o.name && g.resource_names == o.resource_names
            },
{
    let ghost original = grids@;
    let mut i: usize = 0;
    while i < grids.len()
        invariant
            i <= grids@.len(),
            grids@.len() == original.len(),
            forall|k: int| i <= k < grids@.len() ==> grids@[k] == original[k],
            forall|k: int|
                0 <= k < i ==> {
                    let (g, o) = (#[trigger] grids@[k], original[k]);
                    &&& g.area_code == grid_area(operations@, verticals@, o.id)
                    &&& g.id == o.id && g.format == o.format && g.interpolation == o.interpolation
                    &&& g.name == o.name && g.resource_names == o.resource_names
                },
        decreases grids.len() - i,
    {
        let id = grids[i].id;
        let area = match find_operation_area(operations, id) {
            Some(a) => a,
            None => match find_vertical_area(verticals, id) {
                Some(a) => a,
                None => 0,
            },
        };
        let mut g = grids.remove(i);
        g.area_code = area;
        grids.insert(i, g);
        i = i + 1;
    }
}

/// The direction code of a concatenation step as the database names it:
/// `forward` is 0, `reverse` is 1; any other name is refused.
pub fn step_direction_code(name: &str) -> (r: Option<u8>)
    ensures
        r == (if name@ == "forward"@ {
            Some(0u8)
        } else if name@ == "reverse"@ {
            Some(1u8)
        } else {
            None::<u8>
        }),
{
    if same_text(name, "forward") {
        Some(0)
    } else if same_text(name, "reverse") {
        Some(1)
    } else {
        None
    }
}

// ---------------------------------------------------------------------------
// Reading back what is written
// ---------------------------------------------------------------------------

proof fn lemma_u32_round_trip(v: u32)
    ensures
        le_u32(le_bytes_u32(v), 0) == v,
{
    let s = le_bytes_u32(v);
    assert(s[0] == v as u8 && s[1] == (v >> 8u32) as u8 && s[2] == (v >> 16u32) as u8 && s[3] == (v
        >> 24u32) as u8);
    assert((((v as u8) as u32) | ((((v >> 8u32) as u8) as u32) << 8u32) | ((((v >> 16u32) as u8)
        as u32) << 16u32) | ((((v >> 24u32) as u8) as u32) << 24u32)) == v) by (bit_vector);
}

/// Bytes `o..o + r.len()` of `d` are `r`: then so are the bytes of any
/// window of `r`.
proof fn lemma_window(d: Seq<u8>, o: int, r: Seq<u8>, a: int, b: int)
    requires
        0 <= o,
        o + r.len() <= d.len(),
        d.subrange(o, o + r.len()) == r,
        0 <= a <= b <= r.len(),
    ensures
        d.subrange(o + a, o + b) == r.subrange(a, b),
{
    assert forall|k: int| 0 <= k < b - a implies d.subrange(o + a, o + b)[k] == r.subrange(a, b)[k] by {
        assert(d.subrange(o, o + r.len())[a + k] == r[a + k]);
    }
    assert(d.subrange(o + a, o + b) =~= r.subrange(a, b));
}

pub(crate) proof fn lemma_le_u64_window(d: Seq<u8>, o: int, v: u64)
    requires
        0 <= o,
        o + 8 <= d.len(),
        d.subrange(o, o + 8) == le_bytes_u64(v),
    ensures
        le_u64(d, o) == v,
{
    let s = le_bytes_u64(v);
    lemma_u64_round_trip(v);
    assert(d[o] == s[0] && d[o + 1] == s[1] && d[o + 2] == s[2] && d[o + 3] == s[3]) by {
        assert(d.subrange(o, o + 8)[0] == d[o]);
        assert(d.subrange(o, o + 8)[1] == d[o + 1]);
        assert(d.subrange(o, o + 8)[2] == d[o + 2]);
        assert(d.subrange(o, o + 8)[3] == d[o + 3]);
    }
    assert(d[o + 4] == s[4] && d[o + 5] == s[5] && d[o + 6] == s[6] && d[o + 7] == s[7]) by {
        assert(d.subrange(o, o + 8)[4] == d[o + 4]);
        assert(d.subrange(o, o + 8)[5] == d[o + 5]);
        assert(d.subrange(o, o + 8)[6] == d[o + 6]);
        assert(d.subrange(o, o + 8)[7] == d[o + 7]);
    }
}

pub(crate) proof fn lemma_le_u32_window(d: Seq<u8>, o: int, v: u32)
    requires
        0 <= o,
        o + 4 <= d.len(),
        d.subrange(o, o + 4) == le_bytes_u32(v),
    ensures
        le_u32(d, o) == v,
{
    let s = le_bytes_u32(v);
    lemma_u32_round_trip(v);
    assert(d.subrange(o, o + 4)[0] == d[o]);
    assert(d.subrange(o, o + 4)[1] == d[o + 1]);
    assert(d.subrange(o, o + 4)[2] == d[o + 2]);
    assert(d.subrange(o, o + 4)[3] == d[o + 3]);
}

proof fn lemma_le_u16_window(d: Seq<u8>, o: int, v: u16)
    requires
        0 <= o,
        o + 2 <= d.len(),
        d.subrange(o, o + 2) == le_bytes_u16(v),
    ensures
        le_u16(d, o) == v,
{
    lemma_u16_round_trip(v);
    assert(d.subrange(o, o + 2)[0] == d[o]);
    assert(d.subrange(o, o + 2)[1] == d[o + 1]);
}

/// The bytes of `u64` values: eight per value, value `i` at `8 * i`.
proof fn lemma_u64s_layout(s: Seq<u64>)
    ensures
        u64s_bytes(s).len() == 8 * s.len(),
        forall|i: int|
            0 <= i < s.len() ==> u64s_bytes(s).subrange(8 * i, 8 * i + 8) == le_bytes_u64(
                #[trigger] s[i],
            ),
    decreases s.len(),
{
    if s.len() > 0 {
        let p = s.drop_last();
        lemma_u64s_layout(p);
        let a = u64s_bytes(p);
        let b = le_bytes_u64(s.last());
        assert(u64s_bytes(s) == a + b);
        assert forall|i: int| 0 <= i < s.len() implies u64s_bytes(s).subrange(8 * i, 8 * i + 8)
            == le_bytes_u64(#[trigger] s[i]) by {
            if i < p.len() {
                assert(s[i] == p[i]);
                assert((a + b).subrange(8 * i, 8 * i + 8) =~= a.subrange(8 * i, 8 * i + 8));
            } else {
                assert((a + b).subrange(8 * i, 8 * i + 8) =~= b);
            }
        }
    }
}

/// Reading an ellipsoid record at the place the generator wrote one gives
/// back the ellipsoid written: its code, semi-major axis and inverse
/// flattening, and the record ends 20 bytes on.
pub proof fn lemma_ellipsoid_round_trip(pre: Seq<u8>, e: EllipsoidEntry, post: Seq<u8>)
    ensures
        ellipsoid_at(pre + ellipsoid_bytes(e) + post, pre.len() as int) == Ok::<
            (EllipsoidRecord, int),
            RegistryError,
        >(
            (
                EllipsoidRecord {
                    code: e.code,
                    semi_major_axis_bits: e.semi_major_axis_bits,
                    inverse_flattening_bits: e.inverse_flattening_bits,
                },
                pre.len() + 20int,
            ),
        ),
{
    let r = ellipsoid_bytes(e);
    let d = pre + r + post;
    let o = pre.len() as int;
    assert(r.len() == 20);
    assert(d.subrange(o, o + 20) =~= r);
    lemma_window(d, o, r, 0, 4);
    assert(r.subrange(0, 4) =~= le_bytes_u32(e.code));
    lemma_le_u32_window(d, o, e.code);
    lemma_window(d, o, r, 4, 12);
    assert(r.subrange(4, 12) =~= le_bytes_u64(e.semi_major_axis_bits));
    lemma_le_u64_window(d, o + 4, e.semi_major_axis_bits);
    lemma_window(d, o, r, 12, 20);
    assert(r.subrange(12, 20) =~= le_bytes_u64(e.inverse_flattening_bits));
    lemma_le_u64_window(d, o + 12, e.inverse_flattening_bits);
}

/// The parameters of a written projected record are its entry's, in order.
proof fn lemma_projected_params(d: Seq<u8>, o: int, p: ProjectedEntry)
    requires
        projected_fits(p),
        0 <= o,
        o + projected_bytes(p).len() <= d.len(),
        d.subrange(o, o + projected_bytes(p).len()) == projected_bytes(p),
    ensures
        projection_params_at(d, o + 24) == p.param_bits@,
{
    let r = projected_bytes(p);
    let params = p.param_bits@;
    lemma_u64s_layout(params);
    let u = u64s_bytes(params);
    let h = le_bytes_u32(p.code) + le_bytes_u32(p.base_geographic_crs_code) + le_bytes_u32(
        p.datum_code,
    ) + seq![p.method_id, 0u8, 0u8, 0u8] + le_bytes_u64(p.linear_unit_bits);
    assert(h.len() == 24);
    assert(r == h + u + string_field(p.name@));
    assert(r.subrange(24, 80) =~= u);
    assert forall|i: int| 0 <= i < 7 implies le_u64(d, o + 24 + 8 * i) == #[trigger] params[i] by {
        lemma_window(d, o, r, 24 + 8 * i, 32 + 8 * i);
        assert(r.subrange(24 + 8 * i, 32 + 8 * i) =~= u.subrange(8 * i, 8 * i + 8));
        lemma_le_u64_window(d, o + 24 + 8 * i, params[i]);
    }
    assert(le_u64(d, o + 24) == params[0]);
    assert(le_u64(d, o + 24 + 8) == params[1]);
    assert(le_u64(d, o + 24 + 16) == params[2]);
    assert(le_u64(d, o + 24 + 24) == params[3]);
    assert(le_u64(d, o + 24 + 32) == params[4]);
    assert(le_u64(d, o + 24 + 40) == params[5]);
    assert(le_u64(d, o + 24 + 48) == params[6]);
    assert(projection_params_at(d, o + 24) =~= params);
}

/// The fixed fields and the name of a written projected record are its
/// entry's.
proof fn lemma_projected_fields(d: Seq<u8>, o: int, p: ProjectedEntry)
    requires
        projected_fits(p),
        0 <= o,
        o + projected_bytes(p).len() <= d.len(),
        d.subrange(o, o + projected_bytes(p).len()) == projected_bytes(p),
    ensures
        projected_bytes(p).len() == 82 + encode_utf8(p.name@).len(),
        le_u32(d, o) == p.code,
        le_u32(d, o + 4) == p.base_geographic_crs_code,
        le_u32(d, o + 8) == p.datum_code,
        d[o + 12] == p.method_id,
        le_u64(d, o + 16) == p.linear_unit_bits,
        le_u16(d, o + 80) == encode_utf8(p.name@).len(),
        d.subrange(o + 82, o + 82 + encode_utf8(p.name@).len()) == encode_utf8(p.name@),
{
    let r = projected_bytes(p);
    let nb = encode_utf8(p.name@);
    lemma_u64s_layout(p.param_bits@);
    let u = u64s_bytes(p.param_bits@);
    let h = le_bytes_u32(p.code) + le_bytes_u32(p.base_geographic_crs_code) + le_bytes_u32(
        p.datum_code,
    ) + seq![p.method_id, 0u8, 0u8, 0u8] + le_bytes_u64(p.linear_unit_bits);
    assert(r == h + u + string_field(p.name@));
    assert(r.len() == 82 + nb.len());
    lemma_window(d, o, r, 0, 4);
    assert(r.subrange(0, 4) =~= le_bytes_u32(p.code));
    lemma_le_u32_window(d, o, p.code);
    lemma_window(d, o, r, 4, 8);
    assert(r.subrange(4, 8) =~= le_bytes_u32(p.base_geographic_crs_code));
    lemma_le_u32_window(d, o + 4, p.base_geographic_crs_code);
    lemma_window(d, o, r, 8, 12);
    assert(r.subrange(8, 12) =~= le_bytes_u32(p.datum_code));
    lemma_le_u32_window(d, o + 8, p.datum_code);
    lemma_window(d, o, r, 12, 13);
    assert(r[12] == p.method_id);
    assert(d.subrange(o + 12, o + 13)[0] == d[o + 12]);
    lemma_window(d, o, r, 16, 24);
    assert(r.subrange(16, 24) =~= le_bytes_u64(p.linear_unit_bits));
    lemma_le_u64_window(d, o + 16, p.linear_unit_bits);
    lemma_window(d, o, r, 80, 82);
    assert(r.subrange(80, 82) =~= le_bytes_u16(nb.len() as u16));
    lemma_le_u16_window(d, o + 80, nb.len() as u16);
    lemma_window(d, o, r, 82, 82 + nb.len() as int);
    assert(r.subrange(82, 82 + nb.len() as int) =~= nb);
}

/// Reading a projected CRS record at the place the generator wrote one
/// gives back the entry written: its codes, its linear unit, its seven
/// parameters in order (parameter `i` is the one at record offset
/// `24 + 8 * i`), decoded by its method, and its name; a unit that is not a
/// positive finite number or an unknown method is refused.
pub proof fn lemma_projected_round_trip(pre: Seq<u8>, p: ProjectedEntry, post: Seq<u8>)
    requires
        projected_fits(p),
    ensures
        projection_params_at(pre + projected_bytes(p) + post, pre.len() + 24int) == p.param_bits@,
        projected_at(pre + projected_bytes(p) + post, pre.len() as int) == (if !is_positive_finite_bits(
            p.linear_unit_bits,
        ) {
            Err(RegistryError::InvalidLinearUnit)
        } else {
            match decode_projection_method(p.method_id, p.param_bits@) {
                Some(method) => Ok(
                    (
                        ProjectedModel {
                            code: p.code,
                            base_geographic_crs_epsg: p.base_geographic_crs_code,
                            datum_code: p.datum_code,
                            method,
                            linear_unit_bits: p.linear_unit_bits,
                            name: encode_utf8(p.name@),
                        },
                        pre.len() + 82int + encode_utf8(p.name@).len(),
                    ),
                ),
                None => Err(RegistryError::UnsupportedProjectionMethod(p.method_id)),
            }
        }),
{
    let r = projected_bytes(p);
    let d = pre + r + post;
    let o = pre.len() as int;
    assert(d.subrange(o, o + r.len()) =~= r);
    lemma_projected_params(d, o, p);
    lemma_projected_fields(d, o, p);
}

/// Reading a geographic CRS record at the place the generator wrote one
/// gives back its code, its datum and its name.
pub proof fn lemma_geographic_round_trip(pre: Seq<u8>, g: GeographicEntry, post: Seq<u8>)
    requires
        geographic_fits(g),
    ensures
        geographic_at(pre + geographic_bytes(g) + post, pre.len() as int) == Ok::<
            (GeographicModel, int),
            RegistryError,
        >(
            (
                GeographicModel {
                    code: g.code,
                    datum_code: g.datum_code,
                    name: encode_utf8(g.name@),
                },
                pre.len() + 10int + encode_utf8(g.name@).len(),
            ),
        ),
{
    let r = geographic_bytes(g);
    let d = pre + r + post;
    let o = pre.len() as int;
    let nb = encode_utf8(g.name@);
    assert(r.len() == 10 + nb.len());
    assert(d.subrange(o, o + r.len()) =~= r);
    lemma_window(d, o, r, 0, 4);
    assert(r.subrange(0, 4) =~= le_bytes_u32(g.code));
    lemma_le_u32_window(d, o, g.code);
    lemma_window(d, o, r, 4, 8);
    assert(r.subrange(4, 8) =~= le_bytes_u32(g.datum_code));
    lemma_le_u32_window(d, o + 4, g.datum_code);
    lemma_window(d, o, r, 8, 10);
    assert(r.subrange(8, 10) =~= le_bytes_u16(nb.len() as u16));
    lemma_le_u16_window(d, o + 8, nb.len() as u16);
    lemma_window(d, o, r, 10, 10 + nb.len() as int);
    assert(r.subrange(10, 10 + nb.len() as int) =~= nb);
}

/// Reading an extent record at the place the generator wrote one gives back
/// its code, its west, south, east and north bounds in that order, and its
/// name.
pub proof fn lemma_extent_round_trip(pre: Seq<u8>, e: ExtentEntry, post: Seq<u8>)
    requires
        extent_fits(e),
    ensures
        extent_at(pre + extent_bytes(e) + post, pre.len() as int) == Ok::<
            (ExtentModel, int),
            RegistryError,
        >(
            (
                ExtentModel {
                    code: e.code,
                    west_bits: e.west_bits,
                    south_bits: e.south_bits,
                    east_bits: e.east_bits,
                    north_bits: e.north_bits,
                    name: encode_utf8(e.name@),
                },
                pre.len() + 38int + encode_utf8(e.name@).len(),
            ),
        ),
{
    let r = extent_bytes(e);
    let d = pre + r + post;
    let o = pre.len() as int;
    let nb = encode_utf8(e.name@);
    assert(r.len() == 38 + nb.len());
    assert(d.subrange(o, o + r.len()) =~= r);
    lemma_window(d, o, r, 0, 4);
    assert(r.subrange(0, 4) =~= le_bytes_u32(e.code));
    lemma_le_u32_window(d, o, e.code);
    lemma_window(d, o, r, 4, 12);
    assert(r.subrange(4, 12) =~= le_bytes_u64(e.west_bits));
    lemma_le_u64_window(d, o + 4, e.west_bits);
    lemma_window(d, o, r, 12, 20);
    assert(r.subrange(12, 20) =~= le_bytes_u64(e.south_bits));
    lemma_le_u64_window(d, o + 12, e.south_bits);
    lemma_window(d, o, r, 20, 28);
    assert(r.subrange(20, 28) =~= le_bytes_u64(e.east_bits));
    lemma_le_u64_window(d, o + 20, e.east_bits);
    lemma_window(d, o, r, 28, 36);
    assert(r.subrange(28, 36) =~= le_bytes_u64(e.north_bits));
    lemma_le_u64_window(d, o + 28, e.north_bits);
    lemma_window(d, o, r, 36, 38);
    assert(r.subrange(36, 38) =~= le_bytes_u16(nb.len() as u16));
    lemma_le_u16_window(d, o + 36, nb.len() as u16);
    lemma_window(d, o, r, 38, 38 + nb.len() as int);
    assert(r.subrange(38, 38 + nb.len() as int) =~= nb);
}

/// Reading a datum record with a Helmert shift at the place the generator
/// wrote one gives back its code, its ellipsoid and its seven parameters in
/// order, when the ellipsoid was read before it.
pub proof fn lemma_datum_round_trip(
    pre: Seq<u8>,
    dm: DatumEntry,
    post: Seq<u8>,
    ells: Seq<EllipsoidRecord>,
)
    requires
        datum_fits(dm),
        dm.shift_kind == DATUM_SHIFT_HELMERT,
        has_ellipsoid(ells, dm.ellipsoid_code),
    ensures
        datum_at(pre + datum_bytes(dm) + post, pre.len() as int, ells) == Ok::<
            (DatumRecord, int),
            RegistryError,
        >(
            (
                DatumRecord {
                    code: dm.code,
                    ellipsoid_code: dm.ellipsoid_code,
                    to_wgs84: DatumShiftRecord::Helmert(
                        HelmertBits {
                            dx: dm.helmert_bits@[0],
                            dy: dm.helmert_bits@[1],
                            dz: dm.helmert_bits@[2],
                            rx: dm.helmert_bits@[3],
                            ry: dm.helmert_bits@[4],
                            rz: dm.helmert_bits@[5],
                            ds: dm.helmert_bits@[6],
                        },
                    ),
                },
                pre.len() + 72int,
            ),
        ),
{
    let r = datum_bytes(dm);
    let d = pre + r + post;
    let o = pre.len() as int;
    let hs = dm.helmert_bits@;
    lemma_u64s_layout(hs);
    let u = u64s_bytes(hs);
    let head = le_bytes_u32(dm.code) + le_bytes_u32(dm.ellipsoid_code) + seq![dm.shift_kind]
        + Seq::new(7, |i: int| 0u8);
    assert(head.len() == 16);
    assert(r == head + u);
    assert(r.len() == 72);
    assert(d.subrange(o, o + r.len()) =~= r);
    lemma_window(d, o, r, 0, 4);
    assert(r.subrange(0, 4) =~= le_bytes_u32(dm.code));
    lemma_le_u32_window(d, o, dm.code);
    lemma_window(d, o, r, 4, 8);
    assert(r.subrange(4, 8) =~= le_bytes_u32(dm.ellipsoid_code));
    lemma_le_u32_window(d, o + 4, dm.ellipsoid_code);
    lemma_window(d, o, r, 8, 9);
    assert(d.subrange(o + 8, o + 9)[0] == d[o + 8]);
    assert(r[8] == dm.shift_kind);
    assert forall|i: int| 0 <= i < 7 implies le_u64(d, o + 16 + 8 * i) == #[trigger] hs[i] by {
        lemma_window(d, o, r, 16 + 8 * i, 24 + 8 * i);
        assert(r.subrange(16 + 8 * i, 24 + 8 * i) =~= u.subrange(8 * i, 8 * i + 8));
        lemma_le_u64_window(d, o + 16 + 8 * i, hs[i]);
    }
    assert(le_u64(d, o + 16) == hs[0]);
    assert(le_u64(d, o + 16 + 8) == hs[1]);
    assert(le_u64(d, o + 16 + 16) == hs[2]);
    assert(le_u64(d, o + 16 + 24) == hs[3]);
    assert(le_u64(d, o + 16 + 32) == hs[4]);
    assert(le_u64(d, o + 16 + 40) == hs[5]);
    assert(le_u64(d, o + 16 + 48) == hs[6]);
}

} // verus!
