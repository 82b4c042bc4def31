use tecio::{
    resolve_var_location, DatFormat, ParseError, TecData, TecDataType, ValueLocation, VarRange,
    ZoneType,
};

fn f64_values(d: &TecData) -> Vec<f64> {
    match d {
        TecData::F64(v) => v.iter().map(|x| f64::from_bits(*x)).collect(),
        other => panic!("not binary64: {:?}", other),
    }
}

const GRID: &str = "TITLE = \"Example\"\nVARIABLES = \"X\", \"Y\"\nZONE T=\"Z1\", I=3, J=2, K=1, DATAPACKING=BLOCK, VARLOCATION=([2]=CELLCENTERED)\n0 1 2\n3 4 5\n10.5 11\n";

#[test]
fn dat_simple_test() {
    let r = DatFormat::decode(GRID);
    assert!(r.is_ok());
    let f = r.unwrap();
    assert_eq!(f.dataset.title, "Example");
    assert_eq!(f.dataset.var_names, vec!["X".to_string(), "Y".to_string()]);
    assert_eq!(f.dataset.num_zones, 1);
    let z = &f.zones[0];
    assert_eq!(z.name(), "Z1");
    assert_eq!(z.zone_type(), ZoneType::Ordered);
    assert_eq!(z.node_count(), 6);
    assert_eq!(z.cell_count(), 2);
    assert_eq!(z.data_types(), Some(&[TecDataType::F64, TecDataType::F64][..]));
    assert_eq!(f64_values(&f.data_blocks[0].data[0].1), vec![0.0, 1.0, 2.0, 3.0, 4.0, 5.0]);
    assert_eq!(f64_values(&f.data_blocks[0].data[1].1), vec![10.5, 11.0]);
    assert_eq!(f.data_blocks[0].connectivity, None);
    assert_eq!(f.data_blocks[0].min_max, vec![(0, 0), (0, 0)]);
}

#[test]
fn var_location_ranges() {
    let text = "VARIABLES = \"A\" \"B\" \"C\" \"D\"\nZONE I=1, VARLOCATION=([2-3]=CELLCENTERED)\n1 2 3 4\n";
    let f = DatFormat::decode(text).unwrap();
    assert_eq!(
        f.zones[0].var_locs(),
        &[
            ValueLocation::Nodal,
            ValueLocation::CellCentered,
            ValueLocation::CellCentered,
            ValueLocation::Nodal
        ][..]
    );
    let text = "VARIABLES = \"A\" \"B\" \"C\" \"D\"\nZONE I=1, VARLOCATION=([5]=CELLCENTERED)\n1 2 3 4\n";
    assert_eq!(DatFormat::decode(text), Err(ParseError::VarIndexOutOfRange));
}

#[test]
fn resolve_var_location_clauses() {
    let clauses = vec![(vec![VarRange { first: 2, last: 3 }], ValueLocation::CellCentered)];
    assert_eq!(
        resolve_var_location(&clauses, 4),
        Ok(vec![
            ValueLocation::Nodal,
            ValueLocation::CellCentered,
            ValueLocation::CellCentered,
            ValueLocation::Nodal
        ])
    );
    let clauses = vec![(vec![VarRange { first: 5, last: 5 }], ValueLocation::CellCentered)];
    assert_eq!(resolve_var_location(&clauses, 4), Err(ParseError::VarIndexOutOfRange));
    let clauses = vec![
        (vec![VarRange { first: 1, last: 3 }], ValueLocation::CellCentered),
        (vec![VarRange { first: 2, last: 2 }], ValueLocation::Nodal),
    ];
    assert_eq!(
        resolve_var_location(&clauses, 3),
        Ok(vec![ValueLocation::CellCentered, ValueLocation::Nodal, ValueLocation::CellCentered])
    );
    let clauses = vec![(vec![VarRange { first: 3, last: 2 }], ValueLocation::Nodal)];
    assert_eq!(resolve_var_location(&clauses, 3), Err(ParseError::VarIndexOutOfRange));
    let clauses = vec![(vec![VarRange { first: 0, last: 1 }], ValueLocation::Nodal)];
    assert_eq!(resolve_var_location(&clauses, 3), Err(ParseError::VarIndexOutOfRange));
    assert_eq!(resolve_var_location(&[], 2), Ok(vec![ValueLocation::Nodal, ValueLocation::Nodal]));
}

#[test]
fn point_packed_triangles() {
    let text = "TITLE=\"fe\"\nVARIABLES=\"X\",\"Y\"\nZONE T=\"tri\", ZONETYPE=FETRIANGLE, N=3, E=1, DATAPACKING=POINT, DT=(SINGLE DOUBLE), STRANDID=2, SOLUTIONTIME=1.5\n0 0\n1 0\n0 1\n1 2 3\n";
    let f = DatFormat::decode(text).unwrap();
    let z = &f.zones[0];
    assert_eq!(z.zone_type(), ZoneType::FETriangle);
    assert_eq!(z.node_count(), 3);
    assert_eq!(z.cell_count(), 1);
    assert_eq!(z.solution_time(), 1.5f64.to_bits());
    assert_eq!(
        f.data_blocks[0].data[0].1,
        TecData::F32(vec![0.0f32.to_bits(), 1.0f32.to_bits(), 0.0f32.to_bits()])
    );
    assert_eq!(f64_values(&f.data_blocks[0].data[1].1), vec![0.0, 0.0, 1.0]);
    assert_eq!(f.data_blocks[0].connectivity, Some(TecData::I32(vec![1, 2, 3])));
}

#[test]
fn integer_types_and_defaults() {
    let text = "VARIABLES = \"N\" \"S\"\nZONE DT=(LONGINT SHORTINT)\n-7\n12\n";
    let f = DatFormat::decode(text).unwrap();
    assert_eq!(f.dataset.title, "Dataset");
    assert_eq!(f.zones[0].name(), "Unnamed zone");
    assert_eq!(f.zones[0].solution_time(), 0);
    assert_eq!(f.data_blocks[0].data[0].1, TecData::I32(vec![-7]));
    assert_eq!(f.data_blocks[0].data[1].1, TecData::I16(vec![12]));
    let text = "VARIABLES = \"S\"\nZONE DT=(SHORTINT)\n70000\n";
    assert_eq!(DatFormat::decode(text), Err(ParseError::BadNumber));
}

#[test]
fn two_zones_get_consecutive_ids() {
    let text = "VARIABLES = \"X\"\nZONE T=\"a\" I=2\n1 2\nZONE T=\"b\" I=1\n3\n";
    let f = DatFormat::decode(text).unwrap();
    assert_eq!(f.zones.len(), 2);
    assert_eq!(tecio::Zone::id(&f.zones[0]), 1);
    assert_eq!(tecio::Zone::id(&f.zones[1]), 2);
    assert_eq!(f.zones[1].name(), "b");
    assert_eq!(f64_values(&f.data_blocks[1].data[0].1), vec![3.0]);
    assert_eq!(DatFormat::decode(text), DatFormat::decode(text));
}

#[test]
fn ascii_errors() {
    assert_eq!(DatFormat::decode("TITLE = \"x\"\n"), Err(ParseError::Syntax));
    assert_eq!(
        DatFormat::decode("VARIABLES = \"X\"\nZONE FOO=1\n1\n"),
        Err(ParseError::WrongHeaderTag)
    );
    assert_eq!(DatFormat::decode("AUTHOR = \"x\"\n"), Err(ParseError::WrongHeaderTag));
    assert_eq!(DatFormat::decode("VARIABLES = \"X\"\nZONE I=abc\n1\n"), Err(ParseError::BadNumber));
    assert_eq!(DatFormat::decode("VARIABLES = \"X\"\nZONE I=2\n1 2x\n"), Err(ParseError::BadNumber));
    assert_eq!(DatFormat::decode("VARIABLES = \"X\"\nZONE I=3\n1 2\n"), Err(ParseError::UnexpectedEnd));
    assert_eq!(
        DatFormat::decode("VARIABLES = \"X\"\nZONE FACES=3\n1\n"),
        Err(ParseError::NotSupportedFeature)
    );
    assert_eq!(
        DatFormat::decode("VARIABLES = \"X\"\nZONE ZONETYPE=FEPOLYGON\n1\n"),
        Err(ParseError::NotSupportedFeature)
    );
    assert_eq!(DatFormat::decode("VARIABLES = \"X\"\nZONE I=0\n"), Err(ParseError::InvalidZoneSize));
    assert_eq!(
        DatFormat::decode("VARIABLES = \"X\"\nZONE I=1, DATAPACKING=POINT, VARLOCATION=([1]=CELLCENTERED)\n1\n"),
        Err(ParseError::NotSupportedFeature)
    );
    assert_eq!(DatFormat::decode("VARIABLES = \"X\"\nZONE I=1\n1\nTEXT\n"), Err(ParseError::Syntax));
}

#[test]
fn header_assignments_in_any_order() {
    let text = "FILETYPE = GRID, VARIABLES = \"a\",\n\"b\"\nTITLE = \"late title\"\nZONE I=1\n1 2\n";
    let f = DatFormat::decode(text).unwrap();
    assert_eq!(f.dataset.title, "late title");
    assert_eq!(f.dataset.var_names, vec!["a".to_string(), "b".to_string()]);
    assert_eq!(f.dataset.num_variables, 2);
    assert_eq!(DatFormat::decode("VARIABLES = \"a\"\nTITLE = \"open\n"), Err(ParseError::UnexpectedEnd));
    assert_eq!(DatFormat::decode("VARIABLES \"a\"\n"), Err(ParseError::Syntax));
    assert_eq!(DatFormat::decode("VARIABLES = \"a\"\n"), DatFormat::decode("VARIABLES = \"a\"\n"));
    let f = DatFormat::decode("VARIABLES = \"a\"\n").unwrap();
    assert!(f.zones.is_empty());
}

#[test]
fn number_words_are_not_numbers() {
    assert_eq!(DatFormat::decode("VARIABLES = \"X\"\nZONE I=2\n1 nan\n"), Err(ParseError::BadNumber));
    assert_eq!(DatFormat::decode("VARIABLES = \"X\"\nZONE I=1\n+inf\n"), Err(ParseError::BadNumber));
    assert_eq!(DatFormat::decode("VARIABLES = \"X\"\nZONE I=1\n-1.5E+2\n").unwrap().data_blocks[0].data[0].1,
        tecio::TecData::F64(vec![(-150.0f64).to_bits()]));
}
