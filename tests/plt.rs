use tecio::{
    parse_header_zone, reindex_cells, PltFormat, PltParseError, TecData, TecDataType, TecZone,
    ValueLocation, ZoneType,
};

fn i32s(b: &mut Vec<u8>, x: i32) {
    b.extend_from_slice(&x.to_le_bytes());
}

fn f32s(b: &mut Vec<u8>, x: f32) {
    b.extend_from_slice(&x.to_le_bytes());
}

fn f64s(b: &mut Vec<u8>, x: f64) {
    b.extend_from_slice(&x.to_le_bytes());
}

fn text(b: &mut Vec<u8>, s: &str) {
    for c in s.chars() {
        i32s(b, c as i32);
    }
    i32s(b, 0);
}

fn preamble(b: &mut Vec<u8>, title: &str, vars: &[&str]) {
    b.extend_from_slice(b"#!TDV112");
    i32s(b, 1);
    i32s(b, 0);
    text(b, title);
    i32s(b, vars.len() as i32);
    for v in vars {
        text(b, v);
    }
}

/// A zone header; `locs` holds the stored location codes (1 = cell-centered).
fn ordered_header(b: &mut Vec<u8>, name: &str, parent: i32, locs: Option<&[i32]>, ijk: (i32, i32, i32)) {
    f32s(b, 299.0);
    text(b, name);
    i32s(b, parent);
    i32s(b, 4);
    f64s(b, 2.5);
    i32s(b, -1);
    i32s(b, 0);
    match locs {
        Some(l) => {
            i32s(b, 1);
            for c in l {
                i32s(b, *c);
            }
        }
        None => i32s(b, 0),
    }
    i32s(b, 0);
    i32s(b, 0);
    i32s(b, ijk.0);
    i32s(b, ijk.1);
    i32s(b, ijk.2);
    i32s(b, 0);
}

fn fe_header(b: &mut Vec<u8>, name: &str, zone_type: i32, nodes: i32, cells: i32) {
    f32s(b, 299.0);
    text(b, name);
    i32s(b, -1);
    i32s(b, -1);
    f64s(b, 0.0);
    i32s(b, -1);
    i32s(b, zone_type);
    i32s(b, 0);
    i32s(b, 0);
    i32s(b, 0);
    i32s(b, nodes);
    i32s(b, cells);
    i32s(b, 0);
    i32s(b, 0);
    i32s(b, 0);
    i32s(b, 0);
}

fn data_head(b: &mut Vec<u8>, types: &[i32], share_conn: i32) {
    f32s(b, 299.0);
    for t in types {
        i32s(b, *t);
    }
    i32s(b, 0);
    i32s(b, 0);
    i32s(b, share_conn);
    for (n, _) in types.iter().enumerate() {
        f64s(b, n as f64);
        f64s(b, n as f64 + 10.0);
    }
}

/// One ordered 3x2x1 zone with a nodal and a cell-centered double variable.
fn cell_centered_file() -> Vec<u8> {
    let mut b = vec![];
    preamble(&mut b, "cells", &["X", "P"]);
    ordered_header(&mut b, "grid", -1, Some(&[0, 1]), (3, 2, 1));
    f32s(&mut b, 357.0);
    data_head(&mut b, &[2, 2], -1);
    for v in 0..6 {
        f64s(&mut b, v as f64);
    }
    for v in 0..6 {
        f64s(&mut b, 10.0 + v as f64);
    }
    b
}

/// One triangle zone with 3 nodes, 1 cell and a single float variable.
fn triangle_file() -> Vec<u8> {
    let mut b = vec![];
    preamble(&mut b, "tri", &["T"]);
    fe_header(&mut b, "triangle", 2, 3, 1);
    f32s(&mut b, 357.0);
    data_head(&mut b, &[1], -1);
    for v in [1.0f32, 2.0, 3.0] {
        f32s(&mut b, v);
    }
    for c in [1, 2, 3] {
        i32s(&mut b, c);
    }
    b
}

fn f64_values(d: &TecData) -> Vec<f64> {
    match d {
        TecData::F64(v) => v.iter().map(|x| f64::from_bits(*x)).collect(),
        other => panic!("not binary64: {:?}", other),
    }
}

#[test]
fn plt_simple_test() {
    let mut b = vec![];
    preamble(&mut b, "two zones", &["X", "Y"]);
    ordered_header(&mut b, "first", -1, None, (2, 2, 1));
    f32s(&mut b, 799.0);
    text(&mut b, "Common.Author");
    i32s(&mut b, 0);
    text(&mut b, "someone");
    fe_header(&mut b, "second", 3, 4, 1);
    f32s(&mut b, 899.0);
    i32s(&mut b, 1);
    text(&mut b, "unit");
    i32s(&mut b, 0);
    text(&mut b, "m");
    f32s(&mut b, 357.0);
    data_head(&mut b, &[2, 1], -1);
    for v in 0..4 {
        f64s(&mut b, v as f64);
    }
    for v in 0..4 {
        f32s(&mut b, v as f32 * 0.5);
    }
    data_head(&mut b, &[1, 1], -1);
    for v in 0..8 {
        f32s(&mut b, v as f32);
    }
    for c in [1, 2, 3, 4] {
        i32s(&mut b, c);
    }
    let f = PltFormat::decode(&b).unwrap();
    assert_eq!(f.version, 112);
    assert_eq!(f.dataset.title, "two zones");
    assert_eq!(f.dataset.var_names, vec!["X".to_string(), "Y".to_string()]);
    assert_eq!(f.dataset.num_variables, 2);
    assert_eq!(f.dataset.num_zones, 2);
    assert_eq!(f.zones.len(), 2);
    assert_eq!(f.zones[0].name(), "first");
    assert_eq!(f.zones[0].zone_type(), ZoneType::Ordered);
    assert_eq!(f.zones[0].data_types(), Some(&[TecDataType::F64, TecDataType::F32][..]));
    assert_eq!(f.zones[1].zone_type(), ZoneType::FEQuad);
    assert_eq!(f.zones[1].solution_time(), 0);
    assert_eq!(f.zones[0].solution_time(), 2.5f64.to_bits());
    assert_eq!(f64_values(&f.data_blocks[0].data[0].1), vec![0.0, 1.0, 2.0, 3.0]);
    assert_eq!(
        f.data_blocks[0].data[1].1,
        TecData::F32(vec![0.0f32.to_bits(), 0.5f32.to_bits(), 1.0f32.to_bits(), 1.5f32.to_bits()])
    );
    assert_eq!(f.data_blocks[1].connectivity, Some(TecData::I32(vec![1, 2, 3, 4])));
    assert_eq!(f.data_blocks[0].connectivity, None);
    assert_eq!(f.data_blocks[1].min_max[1], (1.0f64.to_bits(), 11.0f64.to_bits()));
}

#[test]
fn cell_centered_values_are_gathered() {
    let f = PltFormat::decode(&cell_centered_file()).unwrap();
    let z = &f.zones[0];
    assert_eq!(z.var_locs(), &[ValueLocation::Nodal, ValueLocation::CellCentered][..]);
    assert_eq!(z.cell_count(), 2);
    assert_eq!(f64_values(&f.data_blocks[0].data[0].1), vec![0.0, 1.0, 2.0, 3.0, 4.0, 5.0]);
    assert_eq!(f64_values(&f.data_blocks[0].data[1].1), vec![10.0, 11.0]);
}

#[test]
fn reindex_selects_first_cell_layer() {
    let src: Vec<u32> = (0..6).collect();
    assert_eq!(reindex_cells(&src, 3, 2, 1), vec![0, 1]);
    let src: Vec<u32> = (0..24).collect();
    // 4x3x2 nodes: cells (i<3, j<2, k<1) read nodes i + 4 j.
    assert_eq!(reindex_cells(&src, 4, 3, 2), vec![0, 1, 2, 4, 5, 6]);
    let src: Vec<u32> = (0..1).collect();
    assert_eq!(reindex_cells(&src, 1, 1, 1), vec![0]);
}

#[test]
fn triangle_connectivity_has_three_entries() {
    let f = PltFormat::decode(&triangle_file()).unwrap();
    assert_eq!(f.zones[0].zone_type(), ZoneType::FETriangle);
    match &f.data_blocks[0].connectivity {
        Some(TecData::I32(c)) => assert_eq!(c, &vec![1, 2, 3]),
        other => panic!("unexpected {:?}", other),
    }
    assert_eq!(f.data_blocks[0].data[0].1.len(), 3);
}

#[test]
fn parent_zone_is_not_supported() {
    let mut b = vec![];
    preamble(&mut b, "p", &["X"]);
    ordered_header(&mut b, "child", 2, None, (1, 1, 1));
    f32s(&mut b, 357.0);
    assert_eq!(PltFormat::decode(&b), Err(PltParseError::NotSupportedFeature));
    let mut h = vec![];
    ordered_header(&mut h, "child", 0, None, (1, 1, 1));
    assert_eq!(parse_header_zone(&h, 0, 1), Err(PltParseError::NotSupportedFeature));
    let mut h = vec![];
    ordered_header(&mut h, "alone", -1, None, (2, 1, 1));
    let (z, end) = parse_header_zone(&h, 0, 1).unwrap();
    assert_eq!(end, h.len());
    assert_eq!(z.node_count(), 2);
    assert!(matches!(z, TecZone::Ordered(_)));
}

#[test]
fn decoding_twice_gives_equal_results() {
    let b = cell_centered_file();
    let first = PltFormat::decode(&b).unwrap();
    let second = PltFormat::decode(&b).unwrap();
    assert_eq!(first, second);
    let t = triangle_file();
    assert_eq!(PltFormat::decode(&t), PltFormat::decode(&t));
}

#[test]
fn header_errors() {
    assert_eq!(PltFormat::decode(b"#!TDX112"), Err(PltParseError::WrongMagic));
    assert_eq!(PltFormat::decode(b"#!TD"), Err(PltParseError::WrongMagic));
    assert_eq!(PltFormat::decode(b"#!TDVx12"), Err(PltParseError::Utf8Error));
    assert_eq!(PltFormat::decode(b"#!TDV1 2"), Err(PltParseError::Utf8Error));
    assert_eq!(PltFormat::decode(&[35, 33, 84, 68, 86, 0xff, 0xfe, 0x31]), Err(PltParseError::Utf8Error));
    assert_eq!(PltFormat::decode(b"#!TDV11"), Err(PltParseError::HeaderVersionMissing));
    assert_eq!(
        PltFormat::decode(b"#!TDV-12"),
        Err(PltParseError::VersionMismatch { min: 110, current: -12 })
    );
    assert_eq!(
        PltFormat::decode(b"#!TDV+99"),
        Err(PltParseError::VersionMismatch { min: 110, current: 99 })
    );
    assert_eq!(
        PltFormat::decode(b"#!TDV100"),
        Err(PltParseError::VersionMismatch { min: 110, current: 100 })
    );
    assert_eq!(
        PltFormat::decode(b"#!TDV110"),
        Err(PltParseError::VersionMismatch { min: 110, current: 110 })
    );
    assert_eq!(PltFormat::decode(b"#!TDV112"), Err(PltParseError::UnexpectedEnd));
    let mut b = b"#!TDV112".to_vec();
    i32s(&mut b, 2);
    assert_eq!(PltFormat::decode(&b), Err(PltParseError::BadSentinel));
    let mut b = b"#!TDV112".to_vec();
    i32s(&mut b, 1);
    i32s(&mut b, 7);
    assert_eq!(PltFormat::decode(&b), Err(PltParseError::InvalidCode));
}

#[test]
fn block_errors() {
    let mut b = vec![];
    preamble(&mut b, "t", &["X"]);
    f32s(&mut b, 399.0);
    assert_eq!(PltFormat::decode(&b), Err(PltParseError::NotSupportedFeature));
    let mut b = vec![];
    preamble(&mut b, "t", &["X"]);
    f32s(&mut b, 123.0);
    assert_eq!(PltFormat::decode(&b), Err(PltParseError::UnknownBlock));
    let mut b = vec![];
    preamble(&mut b, "t", &["X"]);
    ordered_header(&mut b, "z", -1, None, (1, 1, 1));
    f32s(&mut b, 357.0);
    f32s(&mut b, 300.0);
    assert_eq!(PltFormat::decode(&b), Err(PltParseError::WrongDataTag));
    let mut b = vec![];
    preamble(&mut b, "t", &["X"]);
    ordered_header(&mut b, "z", -1, None, (0, 1, 1));
    assert_eq!(PltFormat::decode(&b), Err(PltParseError::InvalidSize));
    let mut b = vec![];
    preamble(&mut b, "t", &["X"]);
    fe_header(&mut b, "poly", 6, 3, 1);
    assert_eq!(PltFormat::decode(&b), Err(PltParseError::NotSupportedFeature));
    let mut b = vec![];
    preamble(&mut b, "t", &["X"]);
    fe_header(&mut b, "bad", 9, 3, 1);
    assert_eq!(PltFormat::decode(&b), Err(PltParseError::InvalidCode));
}

#[test]
fn unsupported_data_layouts() {
    // integer payloads
    let mut b = vec![];
    preamble(&mut b, "t", &["X"]);
    ordered_header(&mut b, "z", -1, None, (1, 1, 1));
    f32s(&mut b, 357.0);
    data_head(&mut b, &[3], -1);
    i32s(&mut b, 5);
    assert_eq!(PltFormat::decode(&b), Err(PltParseError::NotSupportedFeature));
    // shared connectivity
    let mut b = vec![];
    preamble(&mut b, "tri", &["T"]);
    fe_header(&mut b, "triangle", 2, 3, 1);
    f32s(&mut b, 357.0);
    data_head(&mut b, &[1], 0);
    for v in [1.0f32, 2.0, 3.0] {
        f32s(&mut b, v);
    }
    assert_eq!(PltFormat::decode(&b), Err(PltParseError::NotSupportedFeature));
    // truncated payload
    let mut b = triangle_file();
    b.truncate(b.len() - 2);
    assert_eq!(PltFormat::decode(&b), Err(PltParseError::UnexpectedEnd));
    // unknown element type code
    let mut b = vec![];
    preamble(&mut b, "t", &["X"]);
    ordered_header(&mut b, "z", -1, None, (1, 1, 1));
    f32s(&mut b, 357.0);
    data_head(&mut b, &[9], -1);
    assert_eq!(PltFormat::decode(&b), Err(PltParseError::InvalidCode));
}

#[test]
fn string_units_keep_their_low_byte() {
    let mut b = b"#!TDV112".to_vec();
    i32s(&mut b, 1);
    i32s(&mut b, 0);
    i32s(&mut b, 0x141);
    i32s(&mut b, 0x42);
    i32s(&mut b, 0);
    i32s(&mut b, 0);
    f32s(&mut b, 357.0);
    let f = PltFormat::decode(&b).unwrap();
    assert_eq!(f.dataset.title, "AB");
    assert_eq!(f.dataset.num_variables, 0);
    assert!(f.zones.is_empty());
    let mut b = b"#!TDV112".to_vec();
    i32s(&mut b, 1);
    i32s(&mut b, 0);
    i32s(&mut b, 0xff);
    i32s(&mut b, 0);
    assert_eq!(PltFormat::decode(&b), Err(PltParseError::Utf8Error));
}
