use tecio::{
    try_err, ClassicFEZone, DataBlock, Dataset, FaceNeighborMode, FileType, OrderedZone, TecData,
    TecDataType, TecZone, TecioError, ValueLocation, Zone, ZoneType,
};

fn ordered(i: i64, j: i64, k: i64) -> TecZone {
    TecZone::Ordered(OrderedZone {
        name: "grid".to_string(),
        id: 1,
        solution_time: 0,
        strand: 0,
        i_max: i,
        j_max: j,
        k_max: k,
        var_location: vec![ValueLocation::Nodal],
        var_types: None,
        passive_var_list: vec![],
    })
}

fn triangles(nodes: i64, cells: i64) -> ClassicFEZone {
    ClassicFEZone {
        name: "mesh".to_string(),
        zone_type: ZoneType::FETriangle,
        id: 2,
        solution_time: 0x3ff0_0000_0000_0000,
        strand: 3,
        nodes,
        cells,
        var_location: vec![ValueLocation::Nodal, ValueLocation::CellCentered],
        var_types: Some(vec![TecDataType::F64, TecDataType::F32]),
    }
}

#[test]
fn zone_type_fe_and_nodes_per_element() {
    assert!(!ZoneType::Ordered.is_fe());
    assert!(ZoneType::FELine.is_fe());
    assert!(ZoneType::FEPolyhedron.is_fe());
    assert_eq!(ZoneType::FELine.num_nodes(), 2);
    assert_eq!(ZoneType::FETriangle.num_nodes(), 3);
    assert_eq!(ZoneType::FEQuad.num_nodes(), 4);
    assert_eq!(ZoneType::FETetra.num_nodes(), 4);
    assert_eq!(ZoneType::FEBrick.num_nodes(), 8);
    assert_eq!(ZoneType::FEPolygon.num_nodes(), 0);
    assert_eq!(ZoneType::Ordered.num_nodes(), 0);
}

#[test]
fn codes_map_to_variants() {
    assert_eq!(ZoneType::from_code(0), Some(ZoneType::Ordered));
    assert_eq!(ZoneType::from_code(5), Some(ZoneType::FEBrick));
    assert_eq!(ZoneType::from_code(8), None);
    assert_eq!(ZoneType::from_code(-1), None);
    assert_eq!(TecDataType::from_code(1), Some(TecDataType::F32));
    assert_eq!(TecDataType::from_code(2), Some(TecDataType::F64));
    assert_eq!(TecDataType::from_code(6), Some(TecDataType::I1));
    assert_eq!(TecDataType::from_code(0), None);
    assert_eq!(ValueLocation::from_code(0), Some(ValueLocation::CellCentered));
    assert_eq!(ValueLocation::from_code(1), Some(ValueLocation::Nodal));
    assert_eq!(ValueLocation::from_code(2), None);
    assert_eq!(FaceNeighborMode::from_code(3), Some(FaceNeighborMode::GlobalOneToMany));
    assert_eq!(FaceNeighborMode::from_code(4), None);
    assert_eq!(FileType::from_code(2), Some(FileType::SolutionOnly));
    assert_eq!(FileType::GridOnly.as_i32(), 1);
    assert_eq!(FileType::SolutionOnly.as_i32(), 2);
}

#[test]
fn ordered_zone_counts() {
    let z = ordered(3, 2, 1);
    assert_eq!(z.node_count(), 6);
    assert_eq!(z.cell_count(), 2);
    let z = ordered(4, 3, 2);
    assert_eq!(z.node_count(), 24);
    assert_eq!(z.cell_count(), 6);
    let z = ordered(1, 1, 1);
    assert_eq!(z.node_count(), 1);
    assert_eq!(z.cell_count(), 1);
    assert_eq!(z.zone_type(), ZoneType::Ordered);
    assert!(!z.is_fe());
    assert_eq!(z.name(), "grid");
}

#[test]
fn fe_zone_counts_and_accessors() {
    let fe = triangles(4, 2);
    assert_eq!(fe.num_connections(), 6);
    let z = TecZone::ClassicFE(fe);
    assert_eq!(z.node_count(), 4);
    assert_eq!(z.cell_count(), 2);
    assert!(z.is_fe());
    assert_eq!(z.zone_type(), ZoneType::FETriangle);
    assert_eq!(z.var_locs(), &[ValueLocation::Nodal, ValueLocation::CellCentered][..]);
    assert_eq!(z.data_types(), Some(&[TecDataType::F64, TecDataType::F32][..]));
    assert_eq!(z.solution_time(), 0x3ff0_0000_0000_0000);
    assert_eq!(Zone::id(&z), 2);
    assert_eq!(Zone::name(&z), "mesh");
    assert_eq!(Zone::time(&z), 0x3ff0_0000_0000_0000);
}

#[test]
fn polygonal_zones_have_no_fixed_connectivity() {
    let mut fe = triangles(4, 2);
    fe.zone_type = ZoneType::FEPolygon;
    assert_eq!(fe.num_connections(), 0);
    fe.zone_type = ZoneType::FEBrick;
    assert_eq!(fe.num_connections(), 16);
}

#[test]
fn data_types_can_be_filled_in() {
    let mut z = ordered(2, 2, 1);
    assert_eq!(z.data_types(), None);
    *z.data_types_mut() = Some(vec![TecDataType::F32]);
    assert_eq!(z.data_types(), Some(&[TecDataType::F32][..]));
    assert_eq!(z.node_count(), 4);
}

#[test]
fn try_err_maps_status_codes() {
    assert!(try_err(0, "fine").is_ok());
    match try_err(-3, "Error opening file.") {
        Err(TecioError::Other { message, code }) => {
            assert_eq!(message, "Error opening file.");
            assert_eq!(code, -3);
        }
        other => panic!("unexpected {:?}", other),
    }
}

#[test]
fn empty_dataset() {
    let d = Dataset::empty();
    assert_eq!(d.num_variables, 0);
    assert_eq!(d.num_zones, 0);
    assert_eq!(d.title, "");
    assert!(d.var_names.is_empty());
}

#[test]
fn numeric_container_len_copy_and_i32() {
    let d = TecData::I32(vec![1, -2, 3]);
    assert_eq!(d.len(), 3);
    assert_eq!(d.get(), d);
    assert_eq!(d.as_i32(), vec![1, -2, 3]);
    let f = TecData::F64(vec![0x4000_0000_0000_0000]);
    assert_eq!(f.len(), 1);
    assert_eq!(f.get(), f);
    assert_ne!(f, TecData::U64(vec![0x4000_0000_0000_0000]));
    assert_eq!(TecData::I8(vec![]).len(), 0);
}

#[test]
fn data_block_returns_copies() {
    let blk = DataBlock {
        data: vec![(0, TecData::F32(vec![1, 2])), (1, TecData::I16(vec![7]))],
        connectivity: None,
        min_max: vec![(0, 0), (0, 0)],
    };
    assert_eq!(blk.get_data(1), TecData::I16(vec![7]));
    assert_eq!(blk.get_data(0), TecData::F32(vec![1, 2]));
}
