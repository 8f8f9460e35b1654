use proj_core::grid::parse_label;
use proj_core::registry_build::push_u64_le;
use proj_core::registry_format::{read_static_string, read_string, read_u16, read_u64};
use proj_core::registry_build::{
    append_bytes, append_row, digest_payload, digest_query, explicitly_supported_deprecated_projected_crs_sql_list,
    grid_format_from_method, method_code_to_id, named_codes, parse_u32_code, quote_identifier,
    supported_grid_formats, supported_operation_payloads, supported_projection_methods,
    table_info_query, write_optional_bits, write_string_u16, DigestTable, RegistryArgs, RegistryMode, SqlValue,
    CANONICAL_NAN_BITS,
};
use proj_core::sha256::sha256_hex;
use std::path::{Path, PathBuf};

#[test]
fn sha256_hex_matches_known_vector() {
    assert_eq!(
        sha256_hex(b"abc"),
        "sha256:ba7816bf8f01cfea414140de5dae2223b00361a396177a9cb410ff61f20015ad"
    );
}

#[test]
fn sha256_hex_of_empty_and_two_block_input() {
    assert_eq!(
        sha256_hex(b""),
        "sha256:e3b0c44298fc1c149afbf4c8996fb92427ae41e4649b934ca495991b7852b855"
    );
    assert_eq!(
        sha256_hex(b"abcdbcdecdefdefgefghfghighijhijkijkljklmklmnlmnomnopnopq"),
        "sha256:248d6a61d20638b8e5c026930c3e6039a33ce45964ff2167f6ecedd419db06c1"
    );
}

#[test]
fn canonical_nan_encoding_is_fixed() {
    assert_eq!(CANONICAL_NAN_BITS.to_le_bytes(), [0, 0, 0, 0, 0, 0, 248, 127]);
}

#[test]
fn absent_values_are_written_as_canonical_nan() {
    let mut buf = vec![9u8];
    write_optional_bits(&mut buf, None);
    assert_eq!(buf, vec![9, 0, 0, 0, 0, 0, 0, 248, 127]);
    let mut buf = Vec::new();
    write_optional_bits(&mut buf, Some(1.0f64.to_bits()));
    assert_eq!(buf, 1.0f64.to_le_bytes().to_vec());
}

#[test]
fn parses_check_mode_with_explicit_paths() {
    let args = RegistryArgs::parse_from(
        ["--check", "--proj-db", "/tmp/proj.db", "--out-dir", "/tmp/out"]
            .iter()
            .map(|s| s.to_string())
            .collect(),
        "../proj-core/data".to_string(),
    )
    .unwrap();
    assert_eq!(args.mode, RegistryMode::Check);
    assert_eq!(args.proj_db.as_deref().map(Path::new), Some(Path::new("/tmp/proj.db")));
    assert_eq!(PathBuf::from(&args.out_dir), PathBuf::from("/tmp/out"));
}

#[test]
fn registry_args_defaults_and_errors() {
    let args = RegistryArgs::parse_from(Vec::new(), "data".to_string()).unwrap();
    assert_eq!(args.mode, RegistryMode::Write);
    assert!(args.proj_db.is_none());
    assert_eq!(args.out_dir, "data");
    let err = RegistryArgs::parse_from(vec!["--proj-db".to_string()], "d".to_string()).unwrap_err();
    assert_eq!(err, "--proj-db requires a path");
    let err = RegistryArgs::parse_from(vec!["--out-dir".to_string()], "d".to_string()).unwrap_err();
    assert_eq!(err, "--out-dir requires a path");
    let err = RegistryArgs::parse_from(vec!["--bogus".to_string()], "d".to_string()).unwrap_err();
    assert_eq!(err, "unknown argument: --bogus");
    let err = RegistryArgs::parse_from(vec!["-h".to_string()], "d".to_string()).unwrap_err();
    assert!(err.starts_with("usage: gen-registry [--write|--check]"));
    assert!(err.ends_with("default: write epsg.bin and epsg.provenance.json"));
    let args = RegistryArgs::parse_from(
        vec!["--check".to_string(), "--write".to_string()],
        "d".to_string(),
    )
    .unwrap();
    assert_eq!(args.mode, RegistryMode::Write);
}

#[test]
fn method_codes_map_to_registry_ids() {
    assert_eq!(method_code_to_id(9807), Some(2));
    assert_eq!(method_code_to_id(9805), Some(3));
    assert_eq!(method_code_to_id(9842), Some(7));
    assert_eq!(method_code_to_id(1027), Some(13));
    assert_eq!(method_code_to_id(1024), Some(1));
    assert_eq!(method_code_to_id(1234), None);
}

#[test]
fn grid_formats_from_method_names() {
    assert_eq!(grid_format_from_method("NTv2"), 1);
    assert_eq!(grid_format_from_method("ntv2"), 255);
    assert_eq!(grid_format_from_method("Geographic3D to GravityRelatedHeight (GTX)"), 2);
    assert_eq!(grid_format_from_method("Something else"), 255);
}

#[test]
fn code_columns_parse_after_trimming() {
    assert_eq!(parse_u32_code(" 4326 "), Some(4326));
    assert_eq!(parse_u32_code("+7"), Some(7));
    assert_eq!(parse_u32_code("4294967295"), Some(u32::MAX));
    assert_eq!(parse_u32_code("4294967296"), None);
    assert_eq!(parse_u32_code("-1"), None);
    assert_eq!(parse_u32_code(""), None);
    assert_eq!(parse_u32_code("12a"), None);
}

#[test]
fn identifiers_are_quoted_for_sql() {
    assert_eq!(quote_identifier("table"), "\"table\"");
    assert_eq!(quote_identifier("a\"b"), "\"a\"\"b\"");
    assert_eq!(table_info_query("x"), "PRAGMA table_info(\"x\")");
    assert_eq!(
        digest_query("t", &vec!["a".to_string(), "b".to_string()]),
        "SELECT \"a\", \"b\" FROM \"t\" ORDER BY \"a\", \"b\""
    );
}

#[test]
fn digest_payload_framing() {
    let mut payload = Vec::new();
    append_bytes(&mut payload, b't', b"ab");
    assert_eq!(payload, vec![b't', 2, 0, 0, 0, 0, 0, 0, 0, b'a', b'b']);
    let mut row = Vec::new();
    append_row(
        &mut row,
        &vec![
            SqlValue::Null,
            SqlValue::Integer(-1),
            SqlValue::Real(0),
            SqlValue::Text(b"x".to_vec()),
            SqlValue::Blob(vec![]),
        ],
    );
    let mut expected = vec![b'r', b'n', b'i'];
    expected.extend_from_slice(&(-1i64).to_le_bytes());
    expected.push(b'f');
    expected.extend_from_slice(&0u64.to_le_bytes());
    expected.extend_from_slice(&[b's', 1, 0, 0, 0, 0, 0, 0, 0, b'x']);
    expected.extend_from_slice(&[b'b', 0, 0, 0, 0, 0, 0, 0, 0]);
    assert_eq!(row, expected);
}

#[test]
fn strings_are_written_with_u16_length() {
    let mut buf = Vec::new();
    write_string_u16(&mut buf, "WGS 84");
    assert_eq!(buf, b"\x06\x00WGS 84".to_vec());
}

#[test]
fn named_code_tables_are_sorted_by_name() {
    let table = named_codes(&[("b", 2), ("a", 1), ("b", 3)]);
    assert_eq!(table, vec![("a".to_string(), 1), ("b".to_string(), 3)]);
    let methods = supported_projection_methods();
    assert_eq!(methods.len(), 13);
    assert_eq!(methods[0], ("Albers Equal Area".to_string(), 5));
    assert_eq!(methods[12], ("Web Mercator".to_string(), 1));
    assert_eq!(
        supported_grid_formats(),
        vec![("GTX".to_string(), 2), ("NTv2".to_string(), 1), ("Unsupported".to_string(), 255)]
    );
    assert_eq!(
        supported_operation_payloads(),
        vec![("Concatenated".to_string(), 3), ("GridShift".to_string(), 2), ("Helmert".to_string(), 1)]
    );
    assert_eq!(explicitly_supported_deprecated_projected_crs_sql_list(), "32662");
}

use proj_core::registry_build::{
    checksum_table, choose_proj_db, is_proj_db_candidate, used_operation_code, UsedOperation,
};

#[test]
fn proj_db_choice_requires_one_distinct_database() {
    let none: Vec<String> = Vec::new();
    assert_eq!(
        choose_proj_db("/build/target", &none, &none).unwrap_err(),
        "proj.db not found below /build/target. Run `cargo build --manifest-path gen-reference/Cargo.toml --bin gen-registry` first."
    );
    let paths = vec!["/a/proj.db".to_string(), "/b/proj.db".to_string(), "/c/proj.db".to_string()];
    let same = vec!["sha256:1".to_string(), "sha256:1".to_string(), "sha256:1".to_string()];
    assert_eq!(choose_proj_db("/t", &paths, &same), Ok(0));
    let different = vec!["sha256:2".to_string(), "sha256:1".to_string(), "sha256:2".to_string()];
    assert_eq!(
        choose_proj_db("/t", &paths, &different).unwrap_err(),
        "multiple distinct proj.db files were found; pass --proj-db explicitly:\nsha256:1 /b/proj.db\nsha256:2 /a/proj.db"
    );
    assert_eq!(
        checksum_table(&different, &paths),
        vec![
            ("sha256:1".to_string(), "/b/proj.db".to_string()),
            ("sha256:2".to_string(), "/a/proj.db".to_string())
        ]
    );
    assert!(is_proj_db_candidate("/x/target/release/proj.db"));
    assert!(!is_proj_db_candidate("/x/for_tests/proj.db"));
}

#[test]
fn used_operation_recovers_single_step_code() {
    assert_eq!(used_operation_code(Some(1313), true, &vec![1, 2]), Some(1313));
    assert_eq!(used_operation_code(None, true, &vec![1173]), Some(1173));
    assert_eq!(used_operation_code(None, true, &vec![1, 2]), None);
    assert_eq!(used_operation_code(None, false, &vec![1173]), None);
    let op = UsedOperation::new(
        "EPSG".to_string(),
        Some("bad"),
        "pipeline".to_string(),
        true,
        &vec![15851],
    );
    assert_eq!(op.code, Some(15851));
    assert_eq!(op.auth, "EPSG");
    assert_eq!(op.name, "pipeline");
    let op = UsedOperation::new("EPSG".to_string(), Some("1313"), String::new(), false, &vec![]);
    assert_eq!(op.code, Some(1313));
}

#[test]
fn written_fields_read_back() {
    let mut buf = vec![0xaa];
    write_string_u16(&mut buf, "NAD27 / UTM");
    assert_eq!(read_u16(&buf, 1), 11);
    assert_eq!(read_string(&buf, 3, 11), "NAD27 / UTM");
    let mut buf = Vec::new();
    push_u64_le(&mut buf, 0x0123_4567_89ab_cdef);
    assert_eq!(read_u64(&buf, 0), 0x0123_4567_89ab_cdef);
}

#[test]
fn invalid_utf8_is_replaced_when_decoded() {
    assert_eq!(read_string(b"\xffA", 0, 2), "\u{FFFD}A");
    assert_eq!(read_static_string(b"abc", 1, 0), "");
    assert_eq!(parse_label(b"\xffB  \0zz"), "\u{FFFD}B");
}

#[test]
fn digest_payload_frames_tables_columns_and_rows_in_order() {
    let tables = vec![
        DigestTable {
            name: "a".to_string(),
            columns: vec!["x".to_string(), "yz".to_string()],
            rows: vec![
                vec![SqlValue::Integer(7), SqlValue::Null],
                vec![SqlValue::Real(1u64 << 62), SqlValue::Text(b"q".to_vec())],
            ],
        },
        DigestTable { name: "b".to_string(), columns: vec![], rows: vec![vec![]] },
    ];
    let mut expected = vec![b't', 1, 0, 0, 0, 0, 0, 0, 0, b'a'];
    expected.extend_from_slice(&[b'c', 1, 0, 0, 0, 0, 0, 0, 0, b'x']);
    expected.extend_from_slice(&[b'c', 2, 0, 0, 0, 0, 0, 0, 0, b'y', b'z']);
    expected.extend_from_slice(&[b'r', b'i']);
    expected.extend_from_slice(&7i64.to_le_bytes());
    expected.push(b'n');
    expected.extend_from_slice(&[b'r', b'f']);
    expected.extend_from_slice(&(1u64 << 62).to_le_bytes());
    expected.extend_from_slice(&[b's', 1, 0, 0, 0, 0, 0, 0, 0, b'q']);
    expected.extend_from_slice(&[b't', 1, 0, 0, 0, 0, 0, 0, 0, b'b', b'r']);
    assert_eq!(digest_payload(&tables), expected);
}

#[test]
fn digest_payload_of_no_tables_is_empty() {
    assert_eq!(digest_payload(&Vec::new()), Vec::<u8>::new());
    assert_eq!(
        sha256_hex(&digest_payload(&Vec::new())),
        "sha256:e3b0c44298fc1c149afbf4c8996fb92427ae41e4649b934ca495991b7852b855"
    );
}

use proj_core::registry_encode::{
    assign_grid_areas, encode_registry, sorted_unique_codes, step_direction_code, DatumEntry, EllipsoidEntry,
    ExtentEntry, GeographicEntry, GridEntry, GridResources, OperationEntry, PayloadEntry,
    ProjectedEntry, RegistryTables, VerticalEntry,
};

fn empty_tables() -> RegistryTables {
    RegistryTables {
        ellipsoids: vec![],
        datums: vec![],
        geographic_crs: vec![],
        projected_crs: vec![],
        extents: vec![],
        grids: vec![],
        operations: vec![],
        vertical_operations: vec![],
    }
}

fn header(counts: [u32; 8]) -> Vec<u8> {
    let mut expected = Vec::new();
    expected.extend_from_slice(&0x4550_5347u32.to_le_bytes());
    expected.extend_from_slice(&7u16.to_le_bytes());
    expected.extend_from_slice(&0u16.to_le_bytes());
    for count in counts {
        expected.extend_from_slice(&count.to_le_bytes());
    }
    expected
}

fn string_field(expected: &mut Vec<u8>, text: &str) {
    expected.extend_from_slice(&(text.len() as u16).to_le_bytes());
    expected.extend_from_slice(text.as_bytes());
}

fn operation(code: u32, payload: PayloadEntry, area_codes: Vec<u32>) -> OperationEntry {
    OperationEntry {
        code,
        name: "op".to_string(),
        source_crs_code: 4267,
        target_crs_code: 4326,
        source_datum_code: 6267,
        target_datum_code: 6326,
        accuracy_bits: None,
        deprecated: true,
        preferred: true,
        approximate: false,
        area_codes,
        payload,
    }
}

#[test]
fn empty_registry_is_its_header() {
    let bytes = encode_registry(&empty_tables());
    assert_eq!(bytes, header([0; 8]));
    assert_eq!(bytes.len(), 40);
}

#[test]
fn registry_records_follow_the_header_in_section_order() {
    let mut tables = empty_tables();
    tables.ellipsoids.push(EllipsoidEntry {
        code: 7030,
        semi_major_axis_bits: 1,
        inverse_flattening_bits: 2,
    });
    tables.datums.push(DatumEntry {
        code: 6326,
        ellipsoid_code: 7030,
        shift_kind: 1,
        helmert_bits: vec![0, 1, 2, 3, 4, 5, 6],
    });
    tables.geographic_crs.push(GeographicEntry { code: 4326, datum_code: 6326, name: "WGS 84".to_string() });
    tables.projected_crs.push(ProjectedEntry {
        code: 3857,
        base_geographic_crs_code: 4326,
        datum_code: 6326,
        method_id: 1,
        linear_unit_bits: 9,
        param_bits: vec![1; 7],
        name: "P".to_string(),
    });
    tables.extents.push(ExtentEntry {
        code: 1262,
        west_bits: 1,
        south_bits: 2,
        east_bits: 3,
        north_bits: 4,
        name: "World".to_string(),
    });
    tables.grids.push(GridEntry {
        id: 1,
        format: 1,
        interpolation: 1,
        area_code: 1262,
        name: "g".to_string(),
        resource_names: vec!["g".to_string(), "h".to_string()],
    });
    tables.operations.push(operation(
        1313,
        PayloadEntry::GridShift { grid_id: 1, direction: 0, interpolation: 1 },
        vec![1262],
    ));
    tables.operations.push(operation(2000, PayloadEntry::Concatenated(vec![(1313, 1)]), vec![]));
    tables.vertical_operations.push(VerticalEntry {
        code: 9000,
        name: "v".to_string(),
        source_horizontal_crs_code: 1,
        target_horizontal_crs_code: 2,
        grid_horizontal_crs_code: 3,
        source_vertical_crs_code: 4,
        target_vertical_crs_code: 5,
        source_vertical_datum_code: 6,
        target_vertical_datum_code: 7,
        grid_id: 1,
        accuracy_bits: Some(42),
        deprecated: false,
        area_codes: vec![5, 6],
    });

    let mut e = header([1, 1, 1, 1, 1, 1, 2, 1]);
    e.extend_from_slice(&7030u32.to_le_bytes());
    e.extend_from_slice(&1u64.to_le_bytes());
    e.extend_from_slice(&2u64.to_le_bytes());
    e.extend_from_slice(&6326u32.to_le_bytes());
    e.extend_from_slice(&7030u32.to_le_bytes());
    e.extend_from_slice(&[1, 0, 0, 0, 0, 0, 0, 0]);
    for v in 0u64..7 {
        e.extend_from_slice(&v.to_le_bytes());
    }
    e.extend_from_slice(&4326u32.to_le_bytes());
    e.extend_from_slice(&6326u32.to_le_bytes());
    string_field(&mut e, "WGS 84");
    e.extend_from_slice(&3857u32.to_le_bytes());
    e.extend_from_slice(&4326u32.to_le_bytes());
    e.extend_from_slice(&6326u32.to_le_bytes());
    e.extend_from_slice(&[1, 0, 0, 0]);
    e.extend_from_slice(&9u64.to_le_bytes());
    for _ in 0..7 {
        e.extend_from_slice(&1u64.to_le_bytes());
    }
    string_field(&mut e, "P");
    e.extend_from_slice(&1262u32.to_le_bytes());
    for v in 1u64..=4 {
        e.extend_from_slice(&v.to_le_bytes());
    }
    string_field(&mut e, "World");
    e.extend_from_slice(&1u32.to_le_bytes());
    e.extend_from_slice(&[1, 1]);
    e.extend_from_slice(&2u16.to_le_bytes());
    e.extend_from_slice(&1262u32.to_le_bytes());
    string_field(&mut e, "g");
    string_field(&mut e, "g");
    string_field(&mut e, "h");
    for (code, tag, areas) in [(1313u32, 2u8, vec![1262u32]), (2000, 3, vec![])] {
        e.extend_from_slice(&code.to_le_bytes());
        e.extend_from_slice(&[tag, 3]);
        e.extend_from_slice(&(areas.len() as u16).to_le_bytes());
        for c in [4267u32, 4326, 6267, 6326] {
            e.extend_from_slice(&c.to_le_bytes());
        }
        e.extend_from_slice(&CANONICAL_NAN_BITS.to_le_bytes());
        string_field(&mut e, "op");
        for a in &areas {
            e.extend_from_slice(&a.to_le_bytes());
        }
        if tag == 2 {
            e.extend_from_slice(&1u32.to_le_bytes());
            e.extend_from_slice(&[0, 1, 0, 0]);
        } else {
            e.extend_from_slice(&1u16.to_le_bytes());
            e.extend_from_slice(&1313u32.to_le_bytes());
            e.extend_from_slice(&[1, 0, 0, 0]);
        }
    }
    e.extend_from_slice(&9000u32.to_le_bytes());
    e.extend_from_slice(&[0, 1]);
    e.extend_from_slice(&2u16.to_le_bytes());
    for c in 1u32..=7 {
        e.extend_from_slice(&c.to_le_bytes());
    }
    e.extend_from_slice(&1u32.to_le_bytes());
    e.extend_from_slice(&42u64.to_le_bytes());
    string_field(&mut e, "v");
    e.extend_from_slice(&5u32.to_le_bytes());
    e.extend_from_slice(&6u32.to_le_bytes());

    assert_eq!(encode_registry(&tables), e);
}

#[test]
fn area_codes_are_sorted_without_repeats() {
    assert_eq!(sorted_unique_codes(&vec![5, 1, 5, 3, 1]), vec![1, 3, 5]);
    assert_eq!(sorted_unique_codes(&vec![]), Vec::<u32>::new());
}

#[test]
fn grid_resources_are_interned_by_key() {
    let mut grids = GridResources::new();
    assert_eq!(grids.intern("NTv2", "a.gsb", ""), 1);
    assert_eq!(grids.intern("Geog3D to GravityRelatedHeight (gtx)", "b.gtx", "c.gtx"), 2);
    assert_eq!(grids.intern("NTv2", "a.gsb", ""), 1);
    assert_eq!(grids.intern("NTv1", "a.gsb", ""), 3);
    assert_eq!(grids.grids.len(), 3);
    assert_eq!(grids.grids[0].resource_names, vec!["a.gsb".to_string()]);
    assert_eq!(grids.grids[1].resource_names, vec!["b.gtx".to_string(), "c.gtx".to_string()]);
    assert_eq!(grids.grids[0].format, grid_format_from_method("NTv2"));
    assert_eq!(grids.grids[1].format, grid_format_from_method("Geog3D to GravityRelatedHeight (gtx)"));
    assert_eq!(grids.grids[2].area_code, 0);
}

#[test]
fn grids_take_the_first_area_of_the_operations_using_them() {
    let mut resources = GridResources::new();
    resources.intern("NTv2", "a.gsb", "");
    resources.intern("NTv2", "b.gsb", "");
    resources.intern("NTv2", "c.gsb", "");
    let operations = vec![
        operation(1, PayloadEntry::GridShift { grid_id: 1, direction: 0, interpolation: 1 }, vec![]),
        operation(2, PayloadEntry::GridShift { grid_id: 1, direction: 0, interpolation: 1 }, vec![7, 9]),
        operation(3, PayloadEntry::GridShift { grid_id: 1, direction: 0, interpolation: 1 }, vec![8]),
    ];
    let verticals = vec![VerticalEntry {
        code: 4,
        name: "v".to_string(),
        source_horizontal_crs_code: 0,
        target_horizontal_crs_code: 0,
        grid_horizontal_crs_code: 0,
        source_vertical_crs_code: 0,
        target_vertical_crs_code: 0,
        source_vertical_datum_code: 0,
        target_vertical_datum_code: 0,
        grid_id: 2,
        accuracy_bits: None,
        deprecated: false,
        area_codes: vec![11],
    }];
    let mut grids = resources.grids;
    assign_grid_areas(&mut grids, &operations, &verticals);
    assert_eq!(grids.iter().map(|g| g.area_code).collect::<Vec<_>>(), vec![7, 11, 0]);
}

#[test]
fn list_lengths_are_written_truncated_to_their_field() {
    let mut tables = empty_tables();
    tables.operations.push(operation(
        1,
        PayloadEntry::GridShift { grid_id: 1, direction: 0, interpolation: 1 },
        vec![3; 65537],
    ));
    let bytes = encode_registry(&tables);
    assert_eq!(&bytes[40 + 6..40 + 8], &1u16.to_le_bytes());
    assert_eq!(bytes.len(), 40 + 4 + 2 + 2 + 16 + 8 + 2 + 2 + 65537 * 4 + 8);
}

#[test]
fn step_directions_are_coded() {
    assert_eq!(step_direction_code("forward"), Some(0));
    assert_eq!(step_direction_code("reverse"), Some(1));
    assert_eq!(step_direction_code("Forward"), None);
    assert_eq!(step_direction_code(""), None);
}
