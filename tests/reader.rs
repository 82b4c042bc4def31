use tecio::{DatFormat, PltFormat, TecData, TecReader, TecioError};

fn i32s(b: &mut Vec<u8>, x: i32) {
    b.extend_from_slice(&x.to_le_bytes());
}

fn f32s(b: &mut Vec<u8>, x: f32) {
    b.extend_from_slice(&x.to_le_bytes());
}

fn f64s(b: &mut Vec<u8>, x: f64) {
    b.extend_from_slice(&x.to_le_bytes());
}

fn text(b: &mut Vec<u8>, s: &str) {
    for c in s.chars() {
        i32s(b, c as i32);
    }
    i32s(b, 0);
}

/// The binary form of the dataset that `ascii_fixture` writes as text.
fn binary_fixture() -> Vec<u8> {
    let mut b = b"#!TDV112".to_vec();
    i32s(&mut b, 1);
    i32s(&mut b, 0);
    text(&mut b, "fin");
    i32s(&mut b, 2);
    text(&mut b, "X");
    text(&mut b, "P");
    // ordered zone, P cell-centered
    f32s(&mut b, 299.0);
    text(&mut b, "grid");
    i32s(&mut b, -1);
    i32s(&mut b, -1);
    f64s(&mut b, 0.0);
    i32s(&mut b, -1);
    i32s(&mut b, 0);
    i32s(&mut b, 1);
    i32s(&mut b, 0);
    i32s(&mut b, 1);
    i32s(&mut b, 0);
    i32s(&mut b, 0);
    i32s(&mut b, 3);
    i32s(&mut b, 2);
    i32s(&mut b, 1);
    i32s(&mut b, 0);
    // triangle zone
    f32s(&mut b, 299.0);
    text(&mut b, "tri");
    i32s(&mut b, -1);
    i32s(&mut b, -1);
    f64s(&mut b, 0.0);
    i32s(&mut b, -1);
    i32s(&mut b, 2);
    i32s(&mut b, 0);
    i32s(&mut b, 0);
    i32s(&mut b, 0);
    i32s(&mut b, 3);
    i32s(&mut b, 1);
    i32s(&mut b, 0);
    i32s(&mut b, 0);
    i32s(&mut b, 0);
    i32s(&mut b, 0);
    f32s(&mut b, 357.0);
    // data of the ordered zone
    f32s(&mut b, 299.0);
    i32s(&mut b, 2);
    i32s(&mut b, 2);
    i32s(&mut b, 0);
    i32s(&mut b, 0);
    i32s(&mut b, -1);
    for _ in 0..2 {
        f64s(&mut b, 0.0);
        f64s(&mut b, 1.0);
    }
    for v in [0.0, 0.1, 0.2, 0.3, 0.4, 0.5] {
        f64s(&mut b, v);
    }
    for v in [10.25, 11.75, 0.0, 0.0, 0.0, 0.0] {
        f64s(&mut b, v);
    }
    // data of the triangle zone
    f32s(&mut b, 299.0);
    i32s(&mut b, 2);
    i32s(&mut b, 2);
    i32s(&mut b, 0);
    i32s(&mut b, 0);
    i32s(&mut b, -1);
    for _ in 0..2 {
        f64s(&mut b, 0.0);
        f64s(&mut b, 1.0);
    }
    for v in [1.0, 2.0, 3.0, 7.5, 8.5, 9.5] {
        f64s(&mut b, v);
    }
    for c in [1, 2, 3] {
        i32s(&mut b, c);
    }
    b
}

fn ascii_fixture() -> &'static str {
    "TITLE = \"fin\"\nVARIABLES = \"X\", \"P\"\n\
     ZONE T=\"grid\", I=3, J=2, K=1, VARLOCATION=([2]=CELLCENTERED)\n\
     0.0 0.1 0.2 0.3 0.4 0.5\n10.25 11.75\n\
     ZONE T=\"tri\", ZONETYPE=FETRIANGLE, NODES=3, ELEMENTS=1\n\
     1 2 3\n7.5 8.5 9.5\n1 2 3\n"
}

fn as_f64(d: &TecData) -> Vec<f64> {
    match d {
        TecData::F64(v) => v.iter().map(|x| f64::from_bits(*x)).collect(),
        TecData::F32(v) => v.iter().map(|x| f32::from_bits(*x) as f64).collect(),
        other => panic!("not floating point: {:?}", other),
    }
}

#[test]
fn test_plt() {
    let plt = TecReader::from_bytes("plt", &binary_fixture()).unwrap();
    let dat = TecReader::from_bytes("dat", ascii_fixture().as_bytes()).unwrap();
    let num_vars = plt.dataset().num_variables as usize;
    assert_eq!(num_vars, dat.dataset().num_variables as usize);
    assert_eq!(plt.zones().len(), dat.zones().len());
    for (i, (p, d)) in plt.zones().iter().zip(dat.zones().iter()).enumerate() {
        assert_eq!(p.zone_type(), d.zone_type());
        assert_eq!(p.node_count(), d.node_count());
        assert_eq!(p.cell_count(), d.cell_count());
        assert_eq!(p.var_locs(), d.var_locs());
        for v in 1..=num_vars {
            let a = as_f64(&plt.get_data(i + 1, v).unwrap());
            let b = as_f64(&dat.get_data(i + 1, v).unwrap());
            assert_eq!(a.len(), b.len(), "Data in zone {}, var {}, is not equal", i + 1, v);
            for (s, t) in a.iter().zip(b.iter()) {
                assert!((s - t).abs() < 1e-5, "|s - d| = {:?}", (s - t).abs());
            }
        }
        assert_eq!(
            plt.get_connectivity(i + 1).unwrap(),
            dat.get_connectivity(i + 1).unwrap(),
            "Connectivity is not equal"
        );
    }
    assert_eq!(dat.get_connectivity(2).unwrap(), Some(TecData::I32(vec![1, 2, 3])));
}

#[test]
fn min_max_only_for_binary() {
    let plt = TecReader::from_bytes("plt", &binary_fixture()).unwrap();
    let dat = TecReader::from_bytes("dat", ascii_fixture().as_bytes()).unwrap();
    assert_eq!(plt.get_var_min_max(1, 2), Some((0.0f64.to_bits(), 1.0f64.to_bits())));
    assert_eq!(dat.get_var_min_max(1, 2), None);
}

#[test]
fn extension_selects_decoder() {
    assert!(matches!(
        TecReader::from_bytes("txt", b""),
        Err(TecioError::WrongFileExtension)
    ));
    assert!(matches!(TecReader::from_bytes("szplt", b""), Err(TecioError::FFIError)));
    assert!(matches!(
        TecReader::from_bytes("dat", &[0xff, 0xfe]),
        Err(TecioError::ParseError(tecio::ParseError::Utf8Error))
    ));
    assert!(matches!(
        TecReader::from_bytes("plt", b"nope"),
        Err(TecioError::PltParseError(tecio::PltParseError::WrongMagic))
    ));
    let direct = PltFormat::decode(&binary_fixture()).unwrap();
    let text = DatFormat::decode(ascii_fixture()).unwrap();
    assert_eq!(direct.zones.len(), text.zones.len());
}
