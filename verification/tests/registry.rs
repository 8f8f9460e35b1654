use proj_core::error::Error;
use proj_core::grid::GridFormat;
use proj_core::operation::{CoordinateOperationId, GridId, OperationStepDirection};
use proj_core::registry_format::{
    read_u16, read_u32, OperationMethodRecord, RegistryDb, RegistryError, REGISTRY_MAGIC,
    REGISTRY_VERSION,
};

fn u16le(b: &mut Vec<u8>, v: u16) {
    b.extend_from_slice(&v.to_le_bytes());
}

fn u32le(b: &mut Vec<u8>, v: u32) {
    b.extend_from_slice(&v.to_le_bytes());
}

fn f64le(b: &mut Vec<u8>, v: f64) {
    b.extend_from_slice(&v.to_le_bytes());
}

fn name(b: &mut Vec<u8>, s: &str) {
    u16le(b, s.len() as u16);
    b.extend_from_slice(s.as_bytes());
}

enum Method {
    Helmert,
    Grid(u32),
    Steps(Vec<u32>),
}

struct Op {
    id: u32,
    crs: (u32, u32),
    datums: (u32, u32),
    areas: Vec<u32>,
    method: Method,
}

/// A small registry: WGS 84 and NAD27 (geographic), Web Mercator and UTM
/// 18N (projected), one extent, the NTv2 grid and a few operations.
fn sample_registry(ops: &[Op]) -> Vec<u8> {
    let mut b = Vec::new();
    u32le(&mut b, REGISTRY_MAGIC);
    u16le(&mut b, REGISTRY_VERSION);
    u16le(&mut b, 0);
    for count in [2u32, 2, 2, 2, 1, 1, ops.len() as u32] {
        u32le(&mut b, count);
    }
    // ellipsoids
    for (code, a, rf) in [(7030u32, 6378137.0, 298.257223563), (7008, 6378206.4, 294.9786982)] {
        u32le(&mut b, code);
        f64le(&mut b, a);
        f64le(&mut b, rf);
    }
    // datums
    for (code, ell, kind) in [(6326u32, 7030u32, 1u8), (6267, 7008, 0)] {
        u32le(&mut b, code);
        u32le(&mut b, ell);
        b.push(kind);
        b.extend_from_slice(&[0u8; 63]);
    }
    // geographic CRS
    for (code, datum, n) in [(4326u32, 6326u32, "WGS 84"), (4267, 6267, "NAD27")] {
        u32le(&mut b, code);
        u32le(&mut b, datum);
        name(&mut b, n);
    }
    // projected CRS
    for (code, base, datum, method, n) in [
        (3857u32, 4326u32, 6326u32, 1u8, "WGS 84 / Pseudo-Mercator"),
        (32618, 4326, 6326, 2, "WGS 84 / UTM zone 18N"),
    ] {
        u32le(&mut b, code);
        u32le(&mut b, base);
        u32le(&mut b, datum);
        b.push(method);
        b.extend_from_slice(&[0u8; 3]);
        f64le(&mut b, 1.0);
        for p in [-75.0, 0.0, 0.9996, 500000.0, 0.0, 0.0, 0.0] {
            f64le(&mut b, p);
        }
        name(&mut b, n);
    }
    // extent
    u32le(&mut b, 1061);
    for v in [-141.0, 40.0, -47.0, 84.0] {
        f64le(&mut b, v);
    }
    name(&mut b, "Canada");
    // grid
    u32le(&mut b, 1);
    b.push(1);
    b.push(1);
    u16le(&mut b, 1);
    u32le(&mut b, 1061);
    name(&mut b, "NTv2_0");
    name(&mut b, "NTV2_0.GSB");
    // operations
    for op in ops {
        u32le(&mut b, op.id);
        b.push(match op.method {
            Method::Helmert => 1,
            Method::Grid(_) => 2,
            Method::Steps(_) => 3,
        });
        b.push(0);
        u16le(&mut b, op.areas.len() as u16);
        u32le(&mut b, op.crs.0);
        u32le(&mut b, op.crs.1);
        u32le(&mut b, op.datums.0);
        u32le(&mut b, op.datums.1);
        f64le(&mut b, 1.5);
        name(&mut b, "op");
        for a in &op.areas {
            u32le(&mut b, *a);
        }
        match &op.method {
            Method::Helmert => b.extend_from_slice(&[0u8; 56]),
            Method::Grid(g) => {
                u32le(&mut b, *g);
                b.extend_from_slice(&[0u8, 1, 0, 0]);
            }
            Method::Steps(ids) => {
                u16le(&mut b, ids.len() as u16);
                for id in ids {
                    u32le(&mut b, *id);
                    b.extend_from_slice(&[0u8; 4]);
                }
            }
        }
    }
    b
}

fn standard_ops() -> Vec<Op> {
    vec![
        Op {
            id: 1313,
            crs: (4267, 4326),
            datums: (6267, 6326),
            areas: vec![1061],
            method: Method::Grid(1),
        },
        Op {
            id: 1173,
            crs: (4267, 4326),
            datums: (6267, 6326),
            areas: vec![],
            method: Method::Helmert,
        },
        Op {
            id: 8243,
            crs: (4267, 4326),
            datums: (6267, 6326),
            areas: vec![1061],
            method: Method::Steps(vec![1313, 1173]),
        },
        Op {
            id: 9000,
            crs: (4326, 4267),
            datums: (6326, 6267),
            areas: vec![],
            method: Method::Steps(vec![9000, 4242]),
        },
    ]
}

fn sample_db() -> RegistryDb {
    RegistryDb::parse(&sample_registry(&standard_ops())).expect("sample registry parses")
}

#[test]
fn db_header_valid() {
    let data = sample_registry(&standard_ops());
    assert_eq!(read_u32(&data, 0), REGISTRY_MAGIC);
    assert_eq!(read_u16(&data, 4), REGISTRY_VERSION);
}

#[test]
fn registry_rejects_bad_headers() {
    assert!(matches!(RegistryDb::parse(&[0u8; 10]), Err(RegistryError::TooSmall)));
    let mut data = sample_registry(&standard_ops());
    data[0] = 0;
    assert!(matches!(RegistryDb::parse(&data), Err(RegistryError::InvalidMagic)));
    let mut data = sample_registry(&standard_ops());
    data[4] = 7;
    assert!(matches!(RegistryDb::parse(&data), Err(RegistryError::UnsupportedVersion)));
    let data = sample_registry(&standard_ops());
    assert!(matches!(
        RegistryDb::parse(&data[..data.len() - 7]),
        Err(RegistryError::Truncated)
    ));
}

#[test]
fn lookup_unknown_epsg() {
    let db = sample_db();
    assert!(!db.has_crs(99999));
    assert!(db.has_crs(4326));
    assert!(db.has_crs(3857));
}

#[test]
fn authority_code_parse() {
    let db = sample_db();
    let code = db.lookup_authority_code("EPSG:4326").expect("should parse");
    assert_eq!(code, 4326);
}

#[test]
fn authority_code_case_insensitive() {
    let db = sample_db();
    let code = db.lookup_authority_code("epsg:3857").expect("should parse");
    assert_eq!(code, 3857);
}

#[test]
fn authority_code_invalid_format() {
    let db = sample_db();
    assert!(db.lookup_authority_code("NONSENSE").is_err());
}

#[test]
fn authority_code_unknown() {
    let db = sample_db();
    assert!(db.lookup_authority_code("EPSG:99999").is_err());
}

#[test]
fn authority_code_non_epsg() {
    let db = sample_db();
    assert!(db.lookup_authority_code("OGC:CRS84").is_err());
}

fn unknown_crs_message(r: Result<u32, Error>) -> String {
    match r {
        Err(Error::UnknownCrs(m)) => m,
        other => panic!("expected an unknown-CRS error, got {other:?}"),
    }
}

#[test]
fn authority_code_error_messages() {
    let db = sample_db();
    assert_eq!(
        unknown_crs_message(db.lookup_authority_code("NONSENSE")),
        "invalid authority:code format: NONSENSE"
    );
    assert_eq!(
        unknown_crs_message(db.lookup_authority_code(" OGC : CRS84")),
        "unsupported authority: OGC (only EPSG is supported)"
    );
    assert_eq!(
        unknown_crs_message(db.lookup_authority_code("EPSG: 43x")),
        "invalid EPSG code: 43x"
    );
    assert_eq!(
        unknown_crs_message(db.lookup_authority_code("EPSG:99999")),
        "unknown EPSG code: 99999"
    );
    assert_eq!(db.lookup_authority_code(" Epsg : +4267 ").unwrap(), 4267);
    let err = Error::UnknownCrs("unknown EPSG code: 99999".to_string());
    assert_eq!(err.message(), "unknown CRS: unknown EPSG code: 99999");
}

#[test]
fn lookup_operation_1313() {
    let db = sample_db();
    let operation = db.lookup_operation(1313).expect("operation 1313");
    assert!(matches!(operation.method, OperationMethodRecord::GridShift { .. }));
    assert!(!operation.area_codes.is_empty());
}

#[test]
fn lookup_grid_ntv2() {
    let db = sample_db();
    let operation = db.lookup_operation(1313).expect("operation 1313");
    let OperationMethodRecord::GridShift { grid_id, .. } = operation.method else {
        panic!("expected grid shift");
    };
    let grid = db.lookup_grid(grid_id.0).expect("grid definition");
    assert_eq!(grid.format, GridFormat::Ntv2);
    assert!(grid
        .resource_names
        .iter()
        .any(|name| String::from_utf8_lossy(name).eq_ignore_ascii_case("ntv2_0.gsb")));
    assert_eq!(grid.id, GridId(1));
    let area = db.grid_area_of_use(grid).expect("area of use");
    assert_eq!(area.code, 1061);
}

#[test]
fn concatenated_grid_operation_reports_grid_usage() {
    let db = sample_db();
    let operation = db.lookup_operation(8243).expect("operation 8243");
    assert!(matches!(operation.method, OperationMethodRecord::Concatenated(_)));
    assert!(db.operation_uses_grids(operation));
    assert!(db.operation_metadata(operation).uses_grids);
}

#[test]
fn helmert_and_cyclic_operations_use_no_grids() {
    let db = sample_db();
    assert!(!db.operation_uses_grids(db.lookup_operation(1173).unwrap()));
    // 9000 names itself and an operation the registry lacks.
    assert!(!db.operation_uses_grids(db.lookup_operation(9000).unwrap()));
}

#[test]
fn later_records_replace_earlier_ones() {
    let mut ops = standard_ops();
    ops.push(Op {
        id: 1313,
        crs: (4267, 4326),
        datums: (6267, 6326),
        areas: vec![],
        method: Method::Helmert,
    });
    let db = RegistryDb::parse(&sample_registry(&ops)).unwrap();
    let op = db.lookup_operation(1313).unwrap();
    assert!(matches!(op.method, OperationMethodRecord::Helmert(_)));
    assert!(!db.operation_uses_grids(op));
    // 8243 now reaches only Helmert steps.
    assert!(!db.operation_uses_grids(db.lookup_operation(8243).unwrap()));
}

#[test]
fn metadata_for_reverse_direction_swaps_endpoints() {
    let db = sample_db();
    let op = db.lookup_operation(1313).unwrap();
    let forward = db.operation_metadata(op);
    let reverse = db.operation_metadata_for_direction(op, OperationStepDirection::Reverse);
    assert_eq!(forward.id, Some(CoordinateOperationId(1313)));
    assert_eq!(forward.endpoints.source_crs_epsg, Some(4267));
    assert_eq!(forward.endpoints.target_crs_epsg, Some(4326));
    assert_eq!(reverse.endpoints.source_crs_epsg, Some(4326));
    assert_eq!(reverse.endpoints.target_crs_epsg, Some(4267));
    assert_eq!(reverse.endpoints.source_datum_epsg, Some(6326));
    assert_eq!(reverse.endpoints.target_datum_epsg, Some(6267));
    assert_eq!(reverse.direction, OperationStepDirection::Reverse);
    assert_eq!(forward.area_code, Some(1061));
    assert_eq!(forward.accuracy_bits, Some(1.5f64.to_bits()));
    assert_eq!(forward.name, b"op".to_vec());
    assert!(forward.uses_grids && reverse.uses_grids);
}

#[test]
fn forward_and_related_operation_ids() {
    let db = sample_db();
    let forward = db.forward_operation_ids(Some(4267), Some(4326));
    assert_eq!(forward, vec![1173, 1313, 8243]);
    let related = db.related_operation_ids(Some(4267), Some(4326));
    assert_eq!(related, vec![1173, 1313, 8243, 9000]);
    let swapped = db.related_operation_ids(Some(4326), Some(4267));
    assert_eq!(swapped, vec![9000, 1173, 1313, 8243]);
    assert!(db.related_operation_ids(None, Some(4326)).is_empty());
    assert_eq!(db.lookup_datum_code_for_crs(3857), Some(6326));
    assert_eq!(db.lookup_datum_code_for_crs(1), None);
}

#[test]
fn index_hits_are_ascending_and_by_datum() {
    let db = sample_db();
    assert_eq!(db.index_hits(false, 4267, 4326), vec![1173, 1313, 8243]);
    assert_eq!(db.index_hits(true, 6326, 6267), vec![9000]);
    assert!(db.index_hits(true, 1, 2).is_empty());
}
