use proj_core::grid::{
    embedded_grid_resource, geotiff_grid_kind, grid_runtime_cache_key, gtx_header, gtx_layout,
    is_safe_grid_resource_name, max_grid_resource_bytes, ntv2_account_subgrid, ntv2_link_subgrids,
    ntv2_axis_count, ntv2_overview, ntv2_record_offset, decode_geotiff_info, geotiff_structure, ntv2_select_subgrid, ntv2_subfile_header, parse_label, read_f32_bits,
    read_f64_bits, read_i32, read_u32, required_band_count, validate_grid_resource_size,
    EmbeddedGridProvider, Endian, GeoTiffGridKind, GridDataCacheKey, GridError, GridFormat,
    GtxLayout, Ntv2Totals, Ntv2Tree, MAX_GTX_GRID_BYTES, MAX_NTV2_CELLS_PER_SUBGRID, MAX_NTV2_GRID_BYTES,
    NTV2_HEADER_LEN, NTV2_RECORD_LEN,
};
use proj_core::operation::GridId;

fn parse_message<T>(r: Result<T, GridError>) -> String {
    match r {
        Ok(_) => panic!("expected a parse failure"),
        Err(GridError::Parse(message)) => message,
        Err(error) => panic!("expected a parse error, got {}", error.message()),
    }
}

fn write_ntv2_global_header(header: &mut [u8], num_subfiles: u32) {
    header[8..12].copy_from_slice(&11u32.to_le_bytes());
    header[40..44].copy_from_slice(&num_subfiles.to_le_bytes());
    header[56..63].copy_from_slice(b"SECONDS");
}

fn write_ntv2_label(header: &mut [u8], offset: usize, value: &str) {
    header[offset..offset + 8].fill(b' ');
    let bytes = value.as_bytes();
    let len = bytes.len().min(8);
    header[offset..offset + len].copy_from_slice(&bytes[..len]);
}

fn write_ntv2_f64(header: &mut [u8], offset: usize, value: f64) {
    header[offset..offset + 8].copy_from_slice(&value.to_le_bytes());
}

fn write_ntv2_u32(header: &mut [u8], offset: usize, value: u32) {
    header[offset..offset + 4].copy_from_slice(&value.to_le_bytes());
}

fn minimal_ntv2_bytes() -> Vec<u8> {
    let mut bytes = vec![0u8; NTV2_HEADER_LEN * 2 + 4 * NTV2_RECORD_LEN];
    write_ntv2_global_header(&mut bytes[..NTV2_HEADER_LEN], 1);
    let header = &mut bytes[NTV2_HEADER_LEN..NTV2_HEADER_LEN * 2];
    header[0..8].copy_from_slice(b"SUB_NAME");
    write_ntv2_label(header, 8, "TEST");
    write_ntv2_label(header, 24, "NONE");
    write_ntv2_f64(header, 72, 0.0);
    write_ntv2_f64(header, 88, 3600.0);
    write_ntv2_f64(header, 104, 0.0);
    write_ntv2_f64(header, 120, 3600.0);
    write_ntv2_f64(header, 136, 3600.0);
    write_ntv2_f64(header, 152, 3600.0);
    write_ntv2_u32(header, 168, 4);
    bytes
}

/// The node count along one axis, as the grid loader derives it from the
/// span and spacing of a subgrid header.
fn axis_nodes(span: f64, resolution: f64) -> usize {
    ((span / resolution) + 0.5).floor() as usize + 1
}

fn write_gtx_header(bytes: &mut Vec<u8>, height: i32, width: i32) {
    bytes.extend_from_slice(&10.0f64.to_be_bytes());
    bytes.extend_from_slice(&20.0f64.to_be_bytes());
    bytes.extend_from_slice(&1.0f64.to_be_bytes());
    bytes.extend_from_slice(&1.0f64.to_be_bytes());
    bytes.extend_from_slice(&height.to_be_bytes());
    bytes.extend_from_slice(&width.to_be_bytes());
}

fn gtx_parse_error(bytes: &[u8]) -> String {
    let header = match gtx_header(bytes) {
        Ok(h) => h,
        Err(e) => return parse_message::<()>(Err(e)),
    };
    parse_message(gtx_layout(&header, bytes.len()))
}

#[test]
fn ntv2_rejects_oversized_resource_length_before_reading() {
    let message = match validate_grid_resource_size(
        "oversized.gsb",
        GridFormat::Ntv2,
        MAX_NTV2_GRID_BYTES as u64 + 1,
    ) {
        Ok(()) => panic!("expected NTv2 resource size failure"),
        Err(GridError::Parse(message)) => message,
        Err(error) => panic!("expected NTv2 parse error, got {}", error.message()),
    };

    assert!(message.contains("maximum Ntv2 grid size"), "{message}");
}

#[test]
fn gtx_rejects_oversized_resource_length_before_reading() {
    let message = match validate_grid_resource_size(
        "oversized.gtx",
        GridFormat::Gtx,
        MAX_GTX_GRID_BYTES as u64 + 1,
    ) {
        Ok(()) => panic!("expected GTX resource size failure"),
        Err(GridError::Parse(message)) => message,
        Err(error) => panic!("expected GTX parse error, got {}", error.message()),
    };

    assert!(message.contains("maximum Gtx grid size"), "{message}");
}

#[test]
fn resource_size_limits_by_format() {
    assert_eq!(max_grid_resource_bytes(GridFormat::Ntv2), Some(269_156_528));
    assert_eq!(max_grid_resource_bytes(GridFormat::Gtx), Some(67_108_904));
    assert_eq!(max_grid_resource_bytes(GridFormat::GeoTiff), Some(268_435_456));
    assert_eq!(max_grid_resource_bytes(GridFormat::Unsupported), None);
    assert!(validate_grid_resource_size("a", GridFormat::Ntv2, MAX_NTV2_GRID_BYTES as u64).is_ok());
    assert!(validate_grid_resource_size("a", GridFormat::Unsupported, u64::MAX).is_ok());
    assert_eq!(
        parse_message(validate_grid_resource_size("big.tif", GridFormat::GeoTiff, 1 << 40)),
        "big.tif exceeds maximum GeoTiff grid size of 268435456 bytes"
    );
}

#[test]
fn grid_handle_rejects_excessive_ntv2_subfile_count_before_allocation() {
    let mut bytes = vec![0u8; NTV2_HEADER_LEN];
    write_ntv2_global_header(&mut bytes, u32::MAX);

    let message = parse_message(ntv2_overview(&bytes));

    assert!(message.contains("subfile count"), "{message}");
}

#[test]
fn ntv2_overview_errors() {
    assert_eq!(parse_message(ntv2_overview(&[0u8; 10])), "NTv2 file too small");
    let mut bytes = vec![0u8; NTV2_HEADER_LEN];
    write_ntv2_global_header(&mut bytes, 1);
    bytes[8] = 12;
    assert_eq!(parse_message(ntv2_overview(&bytes)), "invalid NTv2 header endianness marker");
    let mut bytes = vec![0u8; NTV2_HEADER_LEN];
    write_ntv2_global_header(&mut bytes, 1);
    bytes[56] = b'D';
    assert_eq!(parse_message(ntv2_overview(&bytes)), "only NTv2 GS_TYPE=SECONDS is supported");
    let mut bytes = vec![0u8; NTV2_HEADER_LEN];
    write_ntv2_global_header(&mut bytes, 0);
    assert_eq!(
        parse_message(ntv2_overview(&bytes)),
        "NTv2 subfile count 0 exceeds limit 4096"
    );
    let mut big = vec![0u8; NTV2_HEADER_LEN];
    big[8..12].copy_from_slice(&11u32.to_be_bytes());
    big[40..44].copy_from_slice(&3u32.to_be_bytes());
    big[56..63].copy_from_slice(b"SECONDS");
    assert_eq!(ntv2_overview(&big).unwrap(), (Endian::Big, 3));
}

#[test]
fn ntv2_rejects_excessive_subgrid_cell_count_before_allocation() {
    let mut bytes = minimal_ntv2_bytes();
    let header = &mut bytes[NTV2_HEADER_LEN..NTV2_HEADER_LEN * 2];
    write_ntv2_f64(header, 88, 4096.0);
    write_ntv2_f64(header, 120, 4096.0);
    write_ntv2_f64(header, 136, 1.0);
    write_ntv2_f64(header, 152, 1.0);
    write_ntv2_u32(header, 168, 16_785_409);

    let (endian, count) = ntv2_overview(&bytes).unwrap();
    assert_eq!(count, 1);
    let sub = ntv2_subfile_header(&bytes, NTV2_HEADER_LEN, endian).unwrap();
    let south = f64::from_bits(sub.south_bits);
    let north = f64::from_bits(sub.north_bits);
    let east = -f64::from_bits(sub.east_bits);
    let west = -f64::from_bits(sub.west_bits);
    let width = axis_nodes(east - west, f64::from_bits(sub.lon_increment_bits));
    let height = axis_nodes(north - south, f64::from_bits(sub.lat_increment_bits));
    let mut totals = Ntv2Totals { cells: 0, data_bytes: 0 };
    let message = parse_message(ntv2_account_subgrid(
        &mut totals,
        &sub.name,
        width,
        height,
        sub.gs_count,
        sub.header_end,
        bytes.len(),
    ));

    assert!(message.contains("exceeding limit"), "{message}");
    assert_eq!(
        message,
        format!("NTv2 subgrid TEST has 16785409 cells, exceeding limit {MAX_NTV2_CELLS_PER_SUBGRID}")
    );
    assert_eq!(totals, Ntv2Totals { cells: 0, data_bytes: 0 });
}

#[test]
fn ntv2_minimal_subgrid_is_accounted() {
    let bytes = minimal_ntv2_bytes();
    let (endian, _) = ntv2_overview(&bytes).unwrap();
    let sub = ntv2_subfile_header(&bytes, NTV2_HEADER_LEN, endian).unwrap();
    assert_eq!(sub.name, "TEST");
    assert_eq!(sub.parent, "NONE");
    assert_eq!(sub.gs_count, 4);
    assert_eq!(sub.header_end, 2 * NTV2_HEADER_LEN);
    assert_eq!(f64::from_bits(sub.north_bits), 3600.0);
    let mut totals = Ntv2Totals { cells: 0, data_bytes: 0 };
    let end = ntv2_account_subgrid(&mut totals, &sub.name, 2, 2, 4, sub.header_end, bytes.len())
        .unwrap();
    assert_eq!(end, bytes.len());
    assert_eq!(totals, Ntv2Totals { cells: 4, data_bytes: 64 });
    let mut totals = Ntv2Totals { cells: 0, data_bytes: 0 };
    assert_eq!(
        parse_message(ntv2_account_subgrid(&mut totals, "TEST", 3, 2, 4, 352, bytes.len())),
        "NTv2 subgrid TEST cell count mismatch: expected 6 got 4"
    );
    assert_eq!(
        parse_message(ntv2_account_subgrid(&mut totals, "TEST", 2, 2, 4, 352, bytes.len() - 1)),
        "truncated NTv2 data for subgrid TEST"
    );
    assert_eq!(
        parse_message(ntv2_subfile_header(&bytes, bytes.len() - 10, endian)),
        "truncated NTv2 subfile header"
    );
    assert_eq!(
        parse_message(ntv2_subfile_header(&bytes, 0, endian)),
        "invalid NTv2 subfile header tag"
    );
}

#[test]
fn ntv2_records_are_read_east_to_west() {
    assert_eq!(ntv2_record_offset(3, 2, 0, 0), 2 * NTV2_RECORD_LEN);
    assert_eq!(ntv2_record_offset(3, 2, 2, 0), 0);
    assert_eq!(ntv2_record_offset(3, 2, 0, 1), 5 * NTV2_RECORD_LEN);
}

#[test]
fn ntv2_subgrids_link_to_parents() {
    let names = vec!["AA".to_string(), "BB".to_string(), "CC".to_string(), "DD".to_string()];
    let parents = vec!["NONE".to_string(), "AA".to_string(), "BB".to_string(), "".to_string()];
    let tree = ntv2_link_subgrids(&names, &parents).unwrap();
    assert_eq!(tree.roots, vec![0, 3]);
    assert_eq!(tree.children, vec![vec![1], vec![2], vec![], vec![]]);
    let parents = vec!["none".to_string(), "ZZ".to_string(), "AA".to_string(), "AA".to_string()];
    assert_eq!(
        parse_message(ntv2_link_subgrids(&names, &parents)),
        "missing NTv2 parent subgrid ZZ for BB"
    );
}

#[test]
fn ntv2_labels_stop_at_nul_and_are_trimmed() {
    assert_eq!(parse_label(b"AB  \0xyz"), "AB");
    assert_eq!(parse_label(b"  CC    "), "CC");
    assert_eq!(parse_label(b"\0\0\0\0"), "");
}

#[test]
fn gtx_rejects_excessive_dimensions_before_allocation() {
    let mut bytes = Vec::new();
    write_gtx_header(&mut bytes, 4097, 4097);

    let message = gtx_parse_error(&bytes);

    assert!(message.contains("GTX cell count"), "{message}");
    assert!(message.contains("exceeds limit"), "{message}");
}

#[test]
fn gtx_truncated_data_remains_parse_error() {
    let mut bytes = Vec::new();
    write_gtx_header(&mut bytes, 3, 3);

    let message = gtx_parse_error(&bytes);

    assert!(message.contains("truncated GTX data"), "{message}");
}

#[test]
fn gtx_layout_of_complete_grid() {
    let mut bytes = Vec::new();
    write_gtx_header(&mut bytes, 3, 2);
    bytes.extend_from_slice(&[0u8; 24]);
    let header = gtx_header(&bytes).unwrap();
    assert_eq!(f64::from_bits(header.south_bits), 10.0);
    assert_eq!(f64::from_bits(header.west_bits), 20.0);
    assert_eq!((header.height, header.width), (3, 2));
    assert_eq!(
        gtx_layout(&header, bytes.len()).unwrap(),
        GtxLayout { width: 2, height: 3, count: 6 }
    );
    let mut bad = Vec::new();
    write_gtx_header(&mut bad, 1, 3);
    assert_eq!(gtx_parse_error(&bad), "invalid GTX georeferencing");
    let mut bad = bytes.clone();
    bad[16..24].copy_from_slice(&(-1.0f64).to_be_bytes());
    assert_eq!(gtx_parse_error(&bad), "invalid GTX georeferencing");
    let mut bad = bytes.clone();
    bad[0..8].copy_from_slice(&f64::NAN.to_be_bytes());
    assert_eq!(gtx_parse_error(&bad), "invalid GTX georeferencing");
    assert_eq!(gtx_parse_error(&bytes[..20]), "GTX file too small");
}

#[test]
fn endian_readers_report_truncation() {
    let bytes = [1u8, 0, 0, 0, 0, 0, 240, 63];
    assert_eq!(read_u32(&bytes, 0, Endian::Little).unwrap(), 1);
    assert_eq!(read_u32(&bytes, 0, Endian::Big).unwrap(), 0x0100_0000);
    assert_eq!(read_i32(&[255u8; 4], 0, Endian::Big).unwrap(), -1);
    assert_eq!(f64::from_bits(read_f64_bits(&bytes, 0, Endian::Little).unwrap()), 1.0000000000000002);
    assert_eq!(read_f32_bits(&bytes, 4, Endian::Little).unwrap(), 0x3ff0_0000);
    assert_eq!(parse_message(read_u32(&bytes, 6, Endian::Little)), "truncated integer");
    assert_eq!(parse_message(read_f64_bits(&bytes, 1, Endian::Big)), "truncated float64");
    assert_eq!(parse_message(read_f32_bits(&bytes, 5, Endian::Big)), "truncated float32");
    assert_eq!(
        parse_message(read_u32(&bytes, usize::MAX - 1, Endian::Big)),
        "integer offset overflow"
    );
}

#[test]
fn resource_names_must_be_plain_relative_names() {
    assert!(!is_safe_grid_resource_name("../safe.gtx"));
    assert!(!is_safe_grid_resource_name("/tmp/safe.gtx"));
    assert!(!is_safe_grid_resource_name(""));
    assert!(is_safe_grid_resource_name("safe.gtx"));
    assert!(is_safe_grid_resource_name("dir/safe.gtx"));
}

#[test]
fn embedded_resource_is_found_ignoring_case() {
    let names = vec!["other.gsb".to_string(), "NTV2_0.GSB".to_string()];
    assert_eq!(embedded_grid_resource(&names), Some("ntv2_0.gsb"));
    assert!(EmbeddedGridProvider.provides(&names));
    assert_eq!(embedded_grid_resource(&vec!["other.gsb".to_string()]), None);
}

#[test]
fn cache_keys_name_grid_format_and_resources() {
    let key = grid_runtime_cache_key(
        GridId(1313),
        GridFormat::Ntv2,
        &vec!["a.gsb".to_string(), "b.gsb".to_string()],
    );
    assert_eq!(key, "1313|Ntv2|a.gsb|b.gsb");
    assert_eq!(grid_runtime_cache_key(GridId(7), GridFormat::Gtx, &Vec::new()), "7|Gtx");
    let data_key = GridDataCacheKey::new(GridFormat::Gtx, "egm.gtx");
    assert_eq!(data_key.format, GridFormat::Gtx);
    assert_eq!(data_key.resource, "egm.gtx");
}

#[test]
fn geotiff_kinds_and_band_counts() {
    assert_eq!(
        geotiff_grid_kind(Some("vertical_offset"), "g.tif").unwrap(),
        GeoTiffGridKind::Vertical
    );
    assert_eq!(
        geotiff_grid_kind(Some("HORIZONTAL_OFFSET"), "g.tif").unwrap(),
        GeoTiffGridKind::Horizontal
    );
    assert!(parse_message(geotiff_grid_kind(None, "g.tif")).starts_with("g.tif: GeoTIFF grid"));
    assert_eq!(required_band_count(GeoTiffGridKind::Horizontal), 2);
    assert_eq!(required_band_count(GeoTiffGridKind::Vertical), 1);
}

#[test]
fn grid_errors_display_with_their_kind() {
    assert_eq!(GridError::Parse("x".into()).message(), "grid parse error: x");
    assert_eq!(GridError::NotFound("g".into()).message(), "grid not found: g");
    assert_eq!(GridError::Unavailable("g".into()).message(), "grid resource unavailable: g");
    assert_eq!(GridError::OutsideCoverage("p".into()).message(), "grid point outside coverage: p");
    assert_eq!(GridError::UnsupportedFormat("f".into()).message(), "unsupported grid format: f");
}

use proj_core::grid::{
    geotiff_add_cells, geotiff_check_bands, geotiff_check_ifd_count, geotiff_check_samples,
    geotiff_image_cells, geotiff_nesting, raster_index, MAX_GEOTIFF_BANDS,
    MAX_GEOTIFF_CELLS_PER_IMAGE, MAX_GEOTIFF_IFDS,
};

struct TestTiffTag {
    tag: u16,
    field_type: u16,
    count: u32,
    value: Vec<u8>,
}

fn geotiff_parse_error(bytes: &[u8]) -> String {
    parse_message(parse_geotiff_structure("test.tif", bytes))
}

/// Whether an image's georeferencing values give finite positive scales and
/// a finite origin.
fn georeferencing_is_valid(scale: &[u64], tiepoint: &[u64]) -> bool {
    if scale.len() < 2 || tiepoint.len() < 6 {
        return false;
    }
    let s: Vec<f64> = scale.iter().map(|&b| f64::from_bits(b)).collect();
    let t: Vec<f64> = tiepoint.iter().map(|&b| f64::from_bits(b)).collect();
    let west = t[3] - t[0] * s[0];
    let north = t[4] + t[1] * s[1];
    s[0].is_finite() && s[1].is_finite() && s[0] > 0.0 && s[1] > 0.0 && west.is_finite() && north.is_finite()
}

/// Decodes a GeoTIFF and checks its structure as a grid loader does.
fn parse_geotiff_structure(
    name: &str,
    bytes: &[u8],
) -> Result<proj_core::grid::GeoTiffStructure, GridError> {
    let info = decode_geotiff_info(name, bytes)?;
    let georef: Vec<bool> = info
        .images
        .iter()
        .map(|image| match (&image.3, &image.4) {
            (Some(scale), Some(tiepoint)) => georeferencing_is_valid(scale, tiepoint),
            _ => false,
        })
        .collect();
    geotiff_structure(name, &info, &georef)
}

fn minimal_geotiff_bytes(width: u32, height: u32, bands: u16, grid_type: &str) -> Vec<u8> {
    classic_tiff(vec![minimal_geotiff_tags(width, height, bands, grid_type)])
}

fn minimal_geotiff_tags(width: u32, height: u32, bands: u16, grid_type: &str) -> Vec<TestTiffTag> {
    vec![
        test_tiff_long(256, width),
        test_tiff_long(257, height),
        test_tiff_short(258, 32),
        test_tiff_short(259, 1),
        test_tiff_short(262, 1),
        test_tiff_short(277, bands),
        test_tiff_short(284, 1),
        test_tiff_short(339, 3),
        test_tiff_doubles(33550, &[1.0, 1.0, 0.0]),
        test_tiff_doubles(33922, &[0.0, 0.0, 0.0, 0.0, 0.0, 0.0]),
        test_tiff_shorts(34735, &[1, 1, 1, 0]),
        test_tiff_ascii(42112, grid_type),
    ]
}

fn classic_tiff(mut ifds: Vec<Vec<TestTiffTag>>) -> Vec<u8> {
    for tags in &mut ifds {
        tags.sort_by_key(|tag| tag.tag);
    }
    let block_lens: Vec<usize> = ifds
        .iter()
        .map(|tags| {
            let data_len = tags.iter().fold(0usize, |len, tag| {
                if tag.value.len() <= 4 {
                    len
                } else {
                    len + tag.value.len() + (tag.value.len() % 2)
                }
            });
            2 + tags.len() * 12 + 4 + data_len
        })
        .collect();
    let mut starts = Vec::with_capacity(block_lens.len());
    let mut next_start = 8usize;
    for block_len in &block_lens {
        starts.push(next_start);
        next_start += block_len;
    }

    let mut bytes = Vec::with_capacity(next_start);
    bytes.extend_from_slice(b"II");
    bytes.extend_from_slice(&42u16.to_le_bytes());
    bytes.extend_from_slice(&8u32.to_le_bytes());
    for (ifd_index, tags) in ifds.iter().enumerate() {
        assert_eq!(bytes.len(), starts[ifd_index]);
        bytes.extend_from_slice(&(tags.len() as u16).to_le_bytes());
        let data_start = starts[ifd_index] + 2 + tags.len() * 12 + 4;
        let mut data = Vec::new();
        for tag in tags {
            bytes.extend_from_slice(&tag.tag.to_le_bytes());
            bytes.extend_from_slice(&tag.field_type.to_le_bytes());
            bytes.extend_from_slice(&tag.count.to_le_bytes());
            if tag.value.len() <= 4 {
                let mut inline = [0u8; 4];
                inline[..tag.value.len()].copy_from_slice(&tag.value);
                bytes.extend_from_slice(&inline);
            } else {
                let offset = data_start + data.len();
                bytes.extend_from_slice(&(offset as u32).to_le_bytes());
                data.extend_from_slice(&tag.value);
                if data.len() % 2 != 0 {
                    data.push(0);
                }
            }
        }
        let next_ifd = starts.get(ifd_index + 1).copied().unwrap_or(0);
        bytes.extend_from_slice(&(next_ifd as u32).to_le_bytes());
        bytes.extend_from_slice(&data);
    }
    bytes
}

fn test_tiff_ascii(tag: u16, value: &str) -> TestTiffTag {
    let mut bytes = value.as_bytes().to_vec();
    if !bytes.ends_with(&[0]) {
        bytes.push(0);
    }
    TestTiffTag { tag, field_type: 2, count: bytes.len() as u32, value: bytes }
}

fn test_tiff_short(tag: u16, value: u16) -> TestTiffTag {
    test_tiff_shorts(tag, &[value])
}

fn test_tiff_shorts(tag: u16, values: &[u16]) -> TestTiffTag {
    TestTiffTag {
        tag,
        field_type: 3,
        count: values.len() as u32,
        value: values.iter().flat_map(|value| value.to_le_bytes()).collect(),
    }
}

fn test_tiff_long(tag: u16, value: u32) -> TestTiffTag {
    TestTiffTag { tag, field_type: 4, count: 1, value: value.to_le_bytes().to_vec() }
}

fn test_tiff_doubles(tag: u16, values: &[f64]) -> TestTiffTag {
    TestTiffTag {
        tag,
        field_type: 12,
        count: values.len() as u32,
        value: values.iter().flat_map(|value| value.to_le_bytes()).collect(),
    }
}

#[test]
fn geotiff_rejects_excessive_ifd_count_before_decoding() {
    let bytes = classic_tiff((0..MAX_GEOTIFF_IFDS + 1).map(|_| Vec::new()).collect());

    let message = geotiff_parse_error(&bytes);

    assert!(message.contains("IFD"), "{message}");
    assert!(message.contains(&MAX_GEOTIFF_IFDS.to_string()), "{message}");
}

#[test]
fn geotiff_rejects_excessive_axis_dimensions_before_decoding() {
    for (width, height, expected) in [
        ((MAX_GEOTIFF_CELLS_PER_IMAGE + 1) as u32, 2, "width"),
        (2, (MAX_GEOTIFF_CELLS_PER_IMAGE + 1) as u32, "height"),
    ] {
        let bytes = minimal_geotiff_bytes(width, height, 1, "TYPE=VERTICAL_OFFSET");

        let message = geotiff_parse_error(&bytes);

        assert!(message.contains(expected), "{message}");
        assert!(message.contains("exceeds limit"), "{message}");
    }
}

#[test]
fn geotiff_rejects_excessive_cell_count_before_decoding() {
    let bytes = minimal_geotiff_bytes(4097, 4097, 1, "TYPE=VERTICAL_OFFSET");

    let message = geotiff_parse_error(&bytes);

    assert!(message.contains("cell count"), "{message}");
    assert!(message.contains("exceeds limit"), "{message}");
}

#[test]
fn geotiff_rejects_excessive_band_count_before_decoding() {
    let bytes =
        minimal_geotiff_bytes(2, 2, (MAX_GEOTIFF_BANDS + 1) as u16, "TYPE=VERTICAL_OFFSET");

    let message = geotiff_parse_error(&bytes);

    assert!(message.contains("band count"), "{message}");
    assert!(message.contains("exceeds limit"), "{message}");
}

#[test]
fn geotiff_rejects_horizontal_grid_with_too_few_bands_before_decoding() {
    let bytes = minimal_geotiff_bytes(2, 2, 1, "TYPE=HORIZONTAL_OFFSET");

    let message = geotiff_parse_error(&bytes);

    assert!(message.contains("needs at least 2"), "{message}");
}

#[test]
fn geotiff_rejects_excessive_total_cell_count_before_decoding() {
    let bytes = classic_tiff(vec![
        minimal_geotiff_tags(4096, 4096, 2, "TYPE=HORIZONTAL_OFFSET"),
        minimal_geotiff_tags(4096, 4096, 2, "TYPE=HORIZONTAL_OFFSET"),
    ]);

    let message = geotiff_parse_error(&bytes);

    assert!(message.contains("total cell count"), "{message}");
    assert!(message.contains("exceeds limit"), "{message}");
}

#[test]
fn geotiff_structure_of_a_vertical_grid() {
    let bytes = minimal_geotiff_bytes(3, 2, 1, "TYPE=VERTICAL_OFFSET");
    let structure = parse_geotiff_structure("g.tif", &bytes).unwrap();
    assert_eq!(structure.kind, GeoTiffGridKind::Vertical);
    assert_eq!(structure.images.len(), 1);
    let image = &structure.images[0];
    assert_eq!((image.index, image.width, image.height, image.cell_count), (0, 3, 2, 6));
    assert_eq!(image.pixel_scale, vec![1.0f64.to_bits(), 1.0f64.to_bits(), 0.0f64.to_bits()]);
    assert_eq!(image.tiepoint, vec![0u64; 6]);
}

#[test]
fn geotiff_without_a_grid_type_is_refused() {
    let bytes = minimal_geotiff_bytes(2, 2, 1, "OTHER");
    assert_eq!(
        geotiff_parse_error(&bytes),
        "test.tif: GeoTIFF grid is missing a recognised GDAL `TYPE` (HORIZONTAL_OFFSET / VERTICAL_OFFSET)"
    );
}

#[test]
fn geotiff_that_is_not_a_tiff_reports_the_decoder_error() {
    let message = geotiff_parse_error(b"not a tiff");
    assert!(message.starts_with("test.tif: "), "{message}");
}

#[test]
fn geotiff_structure_messages() {
    assert_eq!(
        parse_message(geotiff_check_ifd_count("g.tif", 0)),
        "g.tif: no images in GeoTIFF"
    );
    assert_eq!(
        parse_message(geotiff_image_cells("g.tif", 3, 1, 5)),
        "g.tif: GeoTIFF image 3 is smaller than 2x2"
    );
    assert_eq!(geotiff_image_cells("g.tif", 0, 3, 4).unwrap(), 12);
    assert_eq!(
        parse_message(geotiff_check_bands("g.tif", 1, 0, GeoTiffGridKind::Vertical)),
        "g.tif: GeoTIFF image 1 has no bands"
    );
    assert!(geotiff_check_bands("g.tif", 1, 2, GeoTiffGridKind::Horizontal).is_ok());
    assert_eq!(
        parse_message(geotiff_check_samples("g.tif", 1, 3, 4)),
        "g.tif: band 1 has 3 samples, expected 4"
    );
    assert_eq!(raster_index(3, 2, 0, 0), 3);
    assert_eq!(raster_index(3, 2, 2, 1), 2);
}

#[test]
fn geotiff_images_nest_in_their_smallest_container() {
    // 0 contains 1 and 2, 1 contains 2.
    let contains = vec![
        vec![false, true, true],
        vec![false, false, true],
        vec![false, false, false],
    ];
    let tree = geotiff_nesting("g.tif", &contains).unwrap();
    assert_eq!(tree.roots, vec![0]);
    assert_eq!(tree.children, vec![vec![1], vec![2], vec![]]);
    let cyclic = vec![vec![false, true], vec![true, false]];
    assert_eq!(
        parse_message(geotiff_nesting("g.tif", &cyclic)),
        "g.tif: horizontal GeoTIFF grid has no root subgrid"
    );
}

/// Write one NTv2 subfile (header + constant-shift data) at `offset`.
///
/// Extents are in degrees; the file stores positive-west arcseconds. Every
/// node gets the same latitude shift and a zero longitude shift, so
/// subgrid selection is observable through the value.
#[allow(clippy::too_many_arguments)]
fn write_ntv2_subfile(
    bytes: &mut [u8],
    offset: usize,
    name: &str,
    parent: &str,
    west_deg: f64,
    east_deg: f64,
    south_deg: f64,
    north_deg: f64,
    res_deg: f64,
    lat_shift_arcsec: f32,
) -> usize {
    let nodes_x = ((east_deg - west_deg) / res_deg).round() as usize + 1;
    let nodes_y = ((north_deg - south_deg) / res_deg).round() as usize + 1;
    let gs_count = nodes_x * nodes_y;

    let header = &mut bytes[offset..offset + NTV2_HEADER_LEN];
    header[0..8].copy_from_slice(b"SUB_NAME");
    write_ntv2_label(header, 8, name);
    write_ntv2_label(header, 24, parent);
    write_ntv2_f64(header, 72, south_deg * 3600.0);
    write_ntv2_f64(header, 88, north_deg * 3600.0);
    write_ntv2_f64(header, 104, -east_deg * 3600.0);
    write_ntv2_f64(header, 120, -west_deg * 3600.0);
    write_ntv2_f64(header, 136, res_deg * 3600.0);
    write_ntv2_f64(header, 152, res_deg * 3600.0);
    write_ntv2_u32(header, 168, gs_count as u32);

    let data_start = offset + NTV2_HEADER_LEN;
    for record in 0..gs_count {
        let at = data_start + record * NTV2_RECORD_LEN;
        bytes[at..at + 4].copy_from_slice(&lat_shift_arcsec.to_le_bytes());
    }
    data_start + gs_count * NTV2_RECORD_LEN
}

/// A three-level NTv2 hierarchy with distinct constant latitude shifts:
/// root AA (1") contains child BB (2"), which contains grandchild CC (3").
fn nested_ntv2_bytes() -> Vec<u8> {
    let mut bytes = vec![0u8; NTV2_HEADER_LEN * 4 + 3 * 25 * NTV2_RECORD_LEN];
    write_ntv2_global_header(&mut bytes[..NTV2_HEADER_LEN], 3);

    let mut offset = NTV2_HEADER_LEN;
    offset = write_ntv2_subfile(&mut bytes, offset, "AA", "NONE", -4.0, 0.0, 0.0, 4.0, 1.0, 1.0);
    offset = write_ntv2_subfile(&mut bytes, offset, "BB", "AA", -3.0, -1.0, 1.0, 3.0, 0.5, 2.0);
    offset = write_ntv2_subfile(&mut bytes, offset, "CC", "BB", -2.5, -1.5, 1.5, 2.5, 0.25, 3.0);
    assert_eq!(offset, bytes.len());
    bytes
}

/// The extent of one subgrid in degrees, east positive, and the latitude
/// shift of its first node in arcseconds.
struct SubgridExtent {
    west: f64,
    east: f64,
    south: f64,
    north: f64,
    res_x: f64,
    res_y: f64,
    lat_shift_arcsec: f64,
}

impl SubgridExtent {
    fn contains(&self, lon_deg: f64, lat_deg: f64) -> bool {
        let epsilon = (self.res_x + self.res_y) * 1e-10;
        lon_deg >= self.west - epsilon
            && lon_deg <= self.east + epsilon
            && lat_deg >= self.south - epsilon
            && lat_deg <= self.north + epsilon
    }
}

/// Frames an NTv2 file with the library and reads back each subgrid's
/// extent, its first latitude shift and the subgrid tree.
fn frame_ntv2(bytes: &[u8]) -> (Vec<SubgridExtent>, Ntv2Tree) {
    let (endian, count) = ntv2_overview(bytes).unwrap();
    let mut offset = NTV2_HEADER_LEN;
    let mut extents = Vec::new();
    let mut names = Vec::new();
    let mut parents = Vec::new();
    for _ in 0..count {
        let header = ntv2_subfile_header(bytes, offset, endian).unwrap();
        let arcsec = |bits: u64| f64::from_bits(bits) / 3600.0;
        let lat_bits = read_f32_bits(bytes, header.header_end, endian).unwrap();
        extents.push(SubgridExtent {
            west: -arcsec(header.west_bits),
            east: -arcsec(header.east_bits),
            south: arcsec(header.south_bits),
            north: arcsec(header.north_bits),
            res_x: arcsec(header.lon_increment_bits),
            res_y: arcsec(header.lat_increment_bits),
            lat_shift_arcsec: f32::from_bits(lat_bits) as f64,
        });
        names.push(header.name.clone());
        parents.push(header.parent.clone());
        offset = header.header_end + header.gs_count * NTV2_RECORD_LEN;
    }
    (extents, ntv2_link_subgrids(&names, &parents).unwrap())
}

#[test]
fn ntv2_selects_deepest_nested_subgrid() {
    let (extents, tree) = frame_ntv2(&nested_ntv2_bytes());

    let cases = [
        (-2.0, 2.0, 3.0, "inside grandchild CC"),
        (-2.8, 1.2, 2.0, "inside child BB, outside CC"),
        (-0.5, 0.5, 1.0, "inside root AA only"),
    ];
    for (lon_deg, lat_deg, expected_arcsec, label) in cases {
        let covers: Vec<bool> = extents.iter().map(|e| e.contains(lon_deg, lat_deg)).collect();
        let selected = ntv2_select_subgrid(&tree, &covers)
            .unwrap_or_else(|| panic!("{label}: outside coverage"));
        let got = extents[selected].lat_shift_arcsec;
        assert!((got - expected_arcsec).abs() < 1e-12, "{label}: got {got} arcsec");
    }
}

#[test]
fn ntv2_selection_outside_every_root_is_none() {
    let (extents, tree) = frame_ntv2(&nested_ntv2_bytes());
    let covers: Vec<bool> = extents.iter().map(|e| e.contains(10.0, 10.0)).collect();
    assert_eq!(covers, vec![false, false, false]);
    assert_eq!(ntv2_select_subgrid(&tree, &covers), None);
}

#[test]
fn ntv2_selection_takes_first_covering_root_and_child() {
    let names: Vec<String> = ["R1", "R2", "A", "B"].iter().map(|s| s.to_string()).collect();
    let parents: Vec<String> = ["NONE", "", "R2", "R2"].iter().map(|s| s.to_string()).collect();
    let tree = ntv2_link_subgrids(&names, &parents).unwrap();
    assert_eq!(ntv2_select_subgrid(&tree, &vec![true, true, true, true]), Some(0));
    assert_eq!(ntv2_select_subgrid(&tree, &vec![false, true, true, true]), Some(2));
    assert_eq!(ntv2_select_subgrid(&tree, &vec![false, true, false, true]), Some(3));
    assert_eq!(ntv2_select_subgrid(&tree, &vec![false, true, false, false]), Some(1));
    // A child covering the point under a root that does not is never reached.
    assert_eq!(ntv2_select_subgrid(&tree, &vec![false, false, true, true]), None);
}

#[test]
fn ntv2_selection_never_enters_a_parent_cycle() {
    // A subgrid naming itself as parent is its own child, out of reach of
    // every top-level subgrid.
    let names = vec!["ROOT".to_string(), "LOOP".to_string()];
    let parents = vec!["NONE".to_string(), "LOOP".to_string()];
    let tree = ntv2_link_subgrids(&names, &parents).unwrap();
    assert_eq!(tree.roots, vec![0]);
    assert_eq!(tree.children, vec![Vec::<usize>::new(), vec![1]]);
    assert_eq!(ntv2_select_subgrid(&tree, &vec![true, true]), Some(0));
    assert_eq!(ntv2_select_subgrid(&tree, &vec![false, true]), None);
}

#[test]
fn ntv2_selection_bounds_a_hand_built_cycle() {
    let tree = Ntv2Tree { children: vec![vec![1], vec![0]], roots: vec![0] };
    assert_eq!(ntv2_select_subgrid(&tree, &vec![true, true]), Some(0));
    assert_eq!(ntv2_select_subgrid(&tree, &vec![true, false]), Some(0));
}

#[test]
fn resource_names_with_root_or_dot_segments_are_refused() {
    assert!(!is_safe_grid_resource_name("dir/../x.gsb"));
    assert!(!is_safe_grid_resource_name("dir/.."));
    assert!(!is_safe_grid_resource_name(".."));
    assert!(!is_safe_grid_resource_name("."));
    assert!(!is_safe_grid_resource_name("./x.gsb"));
    assert!(!is_safe_grid_resource_name("/"));
    assert!(is_safe_grid_resource_name("a//b.gsb"));
    assert!(is_safe_grid_resource_name("dir/sub/x.gsb"));
    assert!(is_safe_grid_resource_name("...gsb"));
    assert!(is_safe_grid_resource_name("a/./b.gsb"));
    assert!(is_safe_grid_resource_name("a/."));
}

#[test]
fn geotiff_reports_invalid_georeferencing_before_bands() {
    let mut tags = minimal_geotiff_tags(2, 2, (MAX_GEOTIFF_BANDS + 1) as u16, "TYPE=VERTICAL_OFFSET");
    for tag in &mut tags {
        if tag.tag == 33550 {
            *tag = test_tiff_doubles(33550, &[0.0, 1.0, 0.0]);
        }
    }
    let bytes = classic_tiff(vec![tags]);
    assert_eq!(geotiff_parse_error(&bytes), "test.tif: invalid GeoTIFF georeferencing");
}

#[test]
fn geotiff_georeferencing_checks_use_the_given_verdicts() {
    let bytes = minimal_geotiff_bytes(2, 2, 1, "TYPE=VERTICAL_OFFSET");
    let info = decode_geotiff_info("g.tif", &bytes).unwrap();
    assert_eq!(info.images.len(), 1);
    assert_eq!(info.base_index, 0);
    assert_eq!(
        parse_message(geotiff_structure("g.tif", &info, &vec![false])),
        "g.tif: invalid GeoTIFF georeferencing"
    );
    assert!(geotiff_structure("g.tif", &info, &vec![true]).is_ok());
}

#[test]
fn ntv2_rejects_excessive_axis_count_before_cell_multiplication() {
    let mut bytes = minimal_ntv2_bytes();
    let header = &mut bytes[NTV2_HEADER_LEN..NTV2_HEADER_LEN * 2];
    write_ntv2_f64(header, 120, MAX_NTV2_CELLS_PER_SUBGRID as f64);
    write_ntv2_f64(header, 152, 1.0);

    let (endian, _) = ntv2_overview(&bytes).unwrap();
    let subfile = ntv2_subfile_header(&bytes, NTV2_HEADER_LEN, endian).unwrap();
    let span = f64::from_bits(subfile.west_bits) - f64::from_bits(subfile.east_bits);
    let rounded = (span / f64::from_bits(subfile.lon_increment_bits) + 0.5).floor() as usize;
    let message = parse_message(ntv2_axis_count(rounded, "longitude", &subfile.name));

    assert!(message.contains("longitude cell count exceeds limit"), "{message}");
}

#[test]
fn ntv2_axis_counts() {
    assert_eq!(ntv2_axis_count(1, "latitude", "S").unwrap(), 2);
    assert_eq!(ntv2_axis_count(MAX_NTV2_CELLS_PER_SUBGRID - 1, "latitude", "S").unwrap(), MAX_NTV2_CELLS_PER_SUBGRID);
    assert_eq!(
        parse_message(ntv2_axis_count(0, "latitude", "S")),
        "NTv2 subgrid S has fewer than two latitude cells"
    );
    assert_eq!(
        parse_message(ntv2_axis_count(usize::MAX, "longitude", "S")),
        "NTv2 subgrid S longitude cell count exceeds limit 16777216"
    );
}
