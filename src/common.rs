use vstd::prelude::*;
use vstd::utf8::{decode_utf8, valid_utf8};

verus! {

/// Topology of a zone: a structured grid, or an unstructured mesh of one
/// homogeneous element kind.
#[derive(Debug, PartialEq, Eq, Structural, Copy, Clone)]
pub enum ZoneType {
    Ordered,
    FELine,
    FETriangle,
    FEQuad,
    FETetra,
    FEBrick,
    FEPolygon,
    FEPolyhedron,
}

impl ZoneType {
    /// Nodes incident to one element of this topology (0 where it is not fixed).
    pub open spec fn nodes_per_element(self) -> nat {
        match self {
            ZoneType::FELine => 2,
            ZoneType::FETriangle => 3,
            ZoneType::FEQuad => 4,
            ZoneType::FETetra => 4,
            ZoneType::FEBrick => 8,
            _ => 0,
        }
    }

    /// The five element kinds whose data paths are supported.
    pub open spec fn is_classic_fe(self) -> bool {
        self.nodes_per_element() > 0
    }

    /// The integer code of this topology in the binary layout.
    pub open spec fn code(self) -> int {
        match self {
            ZoneType::Ordered => 0,
            ZoneType::FELine => 1,
            ZoneType::FETriangle => 2,
            ZoneType::FEQuad => 3,
            ZoneType::FETetra => 4,
            ZoneType::FEBrick => 5,
            ZoneType::FEPolygon => 6,
            ZoneType::FEPolyhedron => 7,
        }
    }

    pub fn is_fe(&self) -> (r: bool)
        ensures
            r == !(*self is Ordered),
    {
        match self {
            ZoneType::Ordered => false,
            _ => true,
        }
    }

    pub fn num_nodes(&self) -> (r: usize)
        ensures
            r == self.nodes_per_element(),
    {
        match self {
            ZoneType::FELine => 2,
            ZoneType::FETriangle => 3,
            ZoneType::FEQuad => 4,
            ZoneType::FETetra => 4,
            ZoneType::FEBrick => 8,
            _ => 0,
        }
    }

    /// The topology with the given code, if the code is one.
    pub fn from_code(code: i32) -> (r: Option<ZoneType>)
        ensures
            r is Some <==> 0 <= code <= 7,
            r matches Some(t) ==> t.code() == code,
    {
        match code {
            0 => Some(ZoneType::Ordered),
            1 => Some(ZoneType::FELine),
            2 => Some(ZoneType::FETriangle),
            3 => Some(ZoneType::FEQuad),
            4 => Some(ZoneType::FETetra),
            5 => Some(ZoneType::FEBrick),
            6 => Some(ZoneType::FEPolygon),
            7 => Some(ZoneType::FEPolyhedron),
            _ => None,
        }
    }
}

/// Element type of one variable's values.
#[derive(Debug, PartialEq, Eq, Structural, Copy, Clone)]
pub enum TecDataType {
    F32,
    F64,
    I32,
    I16,
    I8,
    I1,
}

impl TecDataType {
    /// The integer code of this element type in the binary layout.
    pub open spec fn code(self) -> int {
        match self {
            TecDataType::F32 => 1,
            TecDataType::F64 => 2,
            TecDataType::I32 => 3,
            TecDataType::I16 => 4,
            TecDataType::I8 => 5,
            TecDataType::I1 => 6,
        }
    }

    /// The element type with the given code, if the code is one.
    pub fn from_code(code: i32) -> (r: Option<TecDataType>)
        ensures
            r is Some <==> 1 <= code <= 6,
            r matches Some(t) ==> t.code() == code,
    {
        match code {
            1 => Some(TecDataType::F32),
            2 => Some(TecDataType::F64),
            3 => Some(TecDataType::I32),
            4 => Some(TecDataType::I16),
            5 => Some(TecDataType::I8),
            6 => Some(TecDataType::I1),
            _ => None,
        }
    }
}

/// A contiguous numeric array of one element type. Floating-point elements
/// are held as their IEEE-754 bit patterns (`F32` as binary32, `F64` as
/// binary64), exactly as they were decoded.
#[derive(Debug, Clone, PartialEq)]
pub enum TecData {
    F64(Vec<u64>),
    F32(Vec<u32>),
    I64(Vec<i64>),
    I32(Vec<i32>),
    I16(Vec<i16>),
    I8(Vec<i8>),
    U64(Vec<u64>),
    U32(Vec<u32>),
}

/// Mathematical content of a numeric container.
pub enum DataView {
    F64(Seq<u64>),
    F32(Seq<u32>),
    I64(Seq<i64>),
    I32(Seq<i32>),
    I16(Seq<i16>),
    I8(Seq<i8>),
    U64(Seq<u64>),
    U32(Seq<u32>),
}

impl TecData {
    pub open spec fn view(&self) -> DataView {
        match self {
            TecData::F64(v) => DataView::F64(v@),
            TecData::F32(v) => DataView::F32(v@),
            TecData::I64(v) => DataView::I64(v@),
            TecData::I32(v) => DataView::I32(v@),
            TecData::I16(v) => DataView::I16(v@),
            TecData::I8(v) => DataView::I8(v@),
            TecData::U64(v) => DataView::U64(v@),
            TecData::U32(v) => DataView::U32(v@),
        }
    }

    pub open spec fn spec_len(&self) -> nat {
        match self {
            TecData::F64(v) => v@.len(),
            TecData::F32(v) => v@.len(),
            TecData::I64(v) => v@.len(),
            TecData::I32(v) => v@.len(),
            TecData::I16(v) => v@.len(),
            TecData::I8(v) => v@.len(),
            TecData::U64(v) => v@.len(),
            TecData::U32(v) => v@.len(),
        }
    }

    /// Whether the container's tag is the one that the element type decodes to.
    pub open spec fn has_type(&self, t: TecDataType) -> bool {
        match t {
            TecDataType::F32 => self is F32,
            TecDataType::F64 => self is F64,
            TecDataType::I32 => self is I32,
            TecDataType::I16 => self is I16,
            TecDataType::I8 => self is I8,
            TecDataType::I1 => self is I8,
        }
    }

    pub fn len(&self) -> (r: usize)
        ensures
            r == self.spec_len(),
    {
        match self {
            TecData::F64(c) => c.len(),
            TecData::F32(c) => c.len(),
            TecData::I64(c) => c.len(),
            TecData::I32(c) => c.len(),
            TecData::I16(c) => c.len(),
            TecData::I8(c) => c.len(),
            TecData::U64(c) => c.len(),
            TecData::U32(c) => c.len(),
        }
    }

    /// Same tag and same elements in the same order.
    pub open spec fn equiv(&self, o: &TecData) -> bool {
        match (self, o) {
            (TecData::F64(a), TecData::F64(b)) => a@ == b@,
            (TecData::F32(a), TecData::F32(b)) => a@ == b@,
            (TecData::I64(a), TecData::I64(b)) => a@ == b@,
            (TecData::I32(a), TecData::I32(b)) => a@ == b@,
            (TecData::I16(a), TecData::I16(b)) => a@ == b@,
            (TecData::I8(a), TecData::I8(b)) => a@ == b@,
            (TecData::U64(a), TecData::U64(b)) => a@ == b@,
            (TecData::U32(a), TecData::U32(b)) => a@ == b@,
            _ => false,
        }
    }

    /// An independent copy with the same tag and elements.
    pub fn get(&self) -> (r: TecData)
        ensures
            r.equiv(self),
    {
        match self {
            TecData::F64(c) => TecData::F64(copy_vec(c)),
            TecData::F32(c) => TecData::F32(copy_vec(c)),
            TecData::I64(c) => TecData::I64(copy_vec(c)),
            TecData::I32(c) => TecData::I32(copy_vec(c)),
            TecData::I16(c) => TecData::I16(copy_vec(c)),
            TecData::I8(c) => TecData::I8(copy_vec(c)),
            TecData::U64(c) => TecData::U64(copy_vec(c)),
            TecData::U32(c) => TecData::U32(copy_vec(c)),
        }
    }

    /// The elements of an `I32` container; asking any other tag is a caller bug.
    pub fn as_i32(&self) -> (r: Vec<i32>)
        requires
            *self is I32,
        ensures
            r@ == self->I32_0@,
    {
        match self {
            TecData::I32(c) => copy_vec(c),
            _ => Vec::new(),
        }
    }
}

/// Element-wise copy of a vector of plain values.
pub(crate) fn copy_vec<T: Copy>(v: &Vec<T>) -> (r: Vec<T>)
    ensures
        r@ == v@,
{
    let mut r: Vec<T> = Vec::with_capacity(v.len());
    let mut i: usize = 0;
    while i < v.len()
        invariant
            i <= v.len(),
            r@ == v@.subrange(0, i as int),
        decreases v.len() - i,
    {
        r.push(v[i]);
        i += 1;
        assert(r@ =~= v@.subrange(0, i as int));
    }
    assert(r@ =~= v@);
    r
}

/// Element-wise copy of a slice of plain values.
pub(crate) fn copy_vec_from_slice<T: Copy>(v: &[T]) -> (r: Vec<T>)
    ensures
        r@ == v@,
{
    let mut r: Vec<T> = Vec::with_capacity(v.len());
    let mut i: usize = 0;
    while i < v.len()
        invariant
            i <= v@.len(),
            r@ == v@.subrange(0, i as int),
        decreases v@.len() - i,
    {
        r.push(v[i]);
        i += 1;
        assert(r@ =~= v@.subrange(0, i as int));
    }
    assert(r@ =~= v@);
    r
}

#[derive(Debug, PartialEq, Eq, Structural, Copy, Clone)]
pub enum FileFormat {
    Binary,
    Subzone,
}

/// What a file holds: grid and solution, grid only, or solution only.
#[derive(Debug, PartialEq, Eq, Structural, Copy, Clone)]
pub enum FileType {
    Full,
    GridOnly,
    SolutionOnly,
}

impl FileType {
    pub open spec fn code(self) -> int {
        match self {
            FileType::Full => 0,
            FileType::GridOnly => 1,
            FileType::SolutionOnly => 2,
        }
    }

    pub fn as_i32(&self) -> (r: i32)
        ensures
            r == self.code(),
    {
        match self {
            FileType::Full => 0,
            FileType::GridOnly => 1,
            FileType::SolutionOnly => 2,
        }
    }

    pub fn from_code(code: i32) -> (r: Option<FileType>)
        ensures
            r is Some <==> 0 <= code <= 2,
            r matches Some(t) ==> t.code() == code,
    {
        match code {
            0 => Some(FileType::Full),
            1 => Some(FileType::GridOnly),
            2 => Some(FileType::SolutionOnly),
            _ => None,
        }
    }
}

/// Where a variable's values live: one per cell, or one per node.
#[derive(Debug, PartialEq, Eq, Structural, Copy, Clone)]
pub enum ValueLocation {
    CellCentered,
    Nodal,
}

impl ValueLocation {
    pub open spec fn code(self) -> int {
        match self {
            ValueLocation::CellCentered => 0,
            ValueLocation::Nodal => 1,
        }
    }

    pub fn from_code(code: i32) -> (r: Option<ValueLocation>)
        ensures
            r is Some <==> 0 <= code <= 1,
            r matches Some(l) ==> l.code() == code,
    {
        match code {
            0 => Some(ValueLocation::CellCentered),
            1 => Some(ValueLocation::Nodal),
            _ => None,
        }
    }
}

#[derive(Debug, PartialEq, Eq, Structural, Copy, Clone)]
pub enum FaceNeighborMode {
    LocalOneToOne,
    LocalOneToMany,
    GlobalOneToOne,
    GlobalOneToMany,
}

impl FaceNeighborMode {
    pub open spec fn code(self) -> int {
        match self {
            FaceNeighborMode::LocalOneToOne => 0,
            FaceNeighborMode::LocalOneToMany => 1,
            FaceNeighborMode::GlobalOneToOne => 2,
            FaceNeighborMode::GlobalOneToMany => 3,
        }
    }

    pub fn from_code(code: i32) -> (r: Option<FaceNeighborMode>)
        ensures
            r is Some <==> 0 <= code <= 3,
            r matches Some(m) ==> m.code() == code,
    {
        match code {
            0 => Some(FaceNeighborMode::LocalOneToOne),
            1 => Some(FaceNeighborMode::LocalOneToMany),
            2 => Some(FaceNeighborMode::GlobalOneToOne),
            3 => Some(FaceNeighborMode::GlobalOneToMany),
            _ => None,
        }
    }
}

/// Maps a status code of the vendor library to a result: zero is success,
/// anything else an error that carries the code and the message.
pub fn try_err(er: i32, message: &str) -> (r: Result<(), TecioError>)
    ensures
        r is Ok <==> er == 0,
        r matches Err(e) ==> (e matches TecioError::Other { message: m, code } && m@ == message@
            && code == er),
{
    if er != 0 {
        Err(TecioError::Other { message: String::from_str(message), code: er })
    } else {
        Ok(())
    }
}

/// Relies on `String::from_utf8`: it accepts exactly the valid UTF-8
/// sequences and then holds the characters they encode.
#[verifier::external_body]
pub(crate) fn string_from_utf8(bytes: Vec<u8>) -> (r: Option<String>)
    ensures
        r is Some <==> valid_utf8(bytes@),
        r matches Some(s) ==> s@ == decode_utf8(bytes@),
{
    String::from_utf8(bytes).ok()
}

/// Title, variable names and the derived counts of a decoded dataset.
#[derive(Debug, Clone, PartialEq)]
pub struct Dataset {
    pub num_variables: i32,
    pub num_zones: i32,
    pub title: String,
    pub var_names: Vec<String>,
}

impl Dataset {
    pub fn empty() -> (r: Dataset)
        ensures
            r.num_variables == 0,
            r.num_zones == 0,
            r.title@ == Seq::<char>::empty(),
            r.var_names@.len() == 0,
    {
        Dataset { num_variables: 0, num_zones: 0, title: String::new(), var_names: Vec::new() }
    }
}

/// Cells along one axis of a structured grid with `d` nodes along it: an axis
/// of extent one still contributes one layer of cells.
pub open spec fn cell_extent(d: int) -> int {
    if d > 1 {
        d - 1
    } else {
        1
    }
}

/// A structured grid with extents `i_max`, `j_max`, `k_max`.
/// `solution_time` is the bit pattern of a binary64 value.
#[derive(Debug, Clone, PartialEq)]
pub struct OrderedZone {
    pub name: String,
    pub id: i32,
    pub solution_time: u64,
    pub strand: i32,
    pub i_max: i64,
    pub j_max: i64,
    pub k_max: i64,
    pub var_location: Vec<ValueLocation>,
    pub var_types: Option<Vec<TecDataType>>,
    pub passive_var_list: Vec<i32>,
}

impl OrderedZone {
    pub open spec fn spec_node_count(&self) -> int {
        self.i_max * self.j_max * self.k_max
    }

    pub open spec fn spec_cell_count(&self) -> int {
        cell_extent(self.i_max as int) * cell_extent(self.j_max as int) * cell_extent(
            self.k_max as int,
        )
    }

    /// Extents of at least one, and a node count that fits in `usize`.
    pub open spec fn wf(&self) -> bool {
        &&& self.i_max >= 1
        &&& self.j_max >= 1
        &&& self.k_max >= 1
        &&& self.spec_node_count() <= i64::MAX
        &&& self.spec_node_count() <= usize::MAX
    }

    pub fn cell_count(&self) -> (r: usize)
        requires
            self.wf(),
        ensures
            r == self.spec_cell_count(),
    {
        proof {
            lemma_cells_le_nodes(self.i_max as int, self.j_max as int, self.k_max as int);
        }
        let ci = if self.i_max != 1 { self.i_max - 1 } else { 1 };
        let cj = if self.j_max != 1 { self.j_max - 1 } else { 1 };
        let ck = if self.k_max != 1 { self.k_max - 1 } else { 1 };
        assert(ci == cell_extent(self.i_max as int));
        assert(cj == cell_extent(self.j_max as int));
        assert(ck == cell_extent(self.k_max as int));
        assert(1 <= ci * cj <= ci * cj * ck) by (nonlinear_arith)
            requires
                1 <= ci,
                1 <= cj,
                1 <= ck,
        ;
        (ci * cj * ck) as usize
    }
}

/// Cells never outnumber nodes on a grid with extents of at least one.
pub proof fn lemma_cells_le_nodes(i: int, j: int, k: int)
    requires
        i >= 1,
        j >= 1,
        k >= 1,
    ensures
        1 <= cell_extent(i) * cell_extent(j) * cell_extent(k) <= i * j * k,
        1 <= cell_extent(i) * cell_extent(j),
{
    let (a, b, c) = (cell_extent(i), cell_extent(j), cell_extent(k));
    assert(1 <= a * b <= i * j) by (nonlinear_arith)
        requires
            1 <= a <= i,
            1 <= b <= j,
    ;
    assert(1 <= a * b * c <= i * j * k) by (nonlinear_arith)
        requires
            1 <= a * b <= i * j,
            1 <= c <= k,
    ;
}

/// An unstructured mesh of one homogeneous element kind.
/// `solution_time` is the bit pattern of a binary64 value.
#[derive(Debug, Clone, PartialEq)]
pub struct ClassicFEZone {
    pub name: String,
    pub zone_type: ZoneType,
    pub id: i32,
    pub solution_time: u64,
    pub strand: i32,
    pub nodes: i64,
    pub cells: i64,
    pub var_location: Vec<ValueLocation>,
    pub var_types: Option<Vec<TecDataType>>,
}

impl ClassicFEZone {
    pub open spec fn spec_num_connections(&self) -> int {
        self.cells * self.zone_type.nodes_per_element()
    }

    /// A supported element kind, and counts that are non-negative and whose
    /// connectivity length fits in `usize`.
    pub open spec fn wf(&self) -> bool {
        &&& self.zone_type.is_classic_fe()
        &&& 0 <= self.nodes <= usize::MAX
        &&& 0 <= self.cells
        &&& self.spec_num_connections() <= usize::MAX
    }

    /// Length of the connectivity array: `cells * nodes_per_element`, which is
    /// 0 for the polygonal kinds.
    pub fn num_connections(&self) -> (r: usize)
        requires
            0 <= self.cells,
            self.spec_num_connections() <= usize::MAX,
        ensures
            r == self.spec_num_connections(),
    {
        let n = self.zone_type.num_nodes();
        if n == 0 {
            assert(self.cells * self.zone_type.nodes_per_element() == 0) by (nonlinear_arith)
                requires
                    self.zone_type.nodes_per_element() == 0,
            ;
            return 0;
        }
        assert(self.cells <= self.cells * n) by (nonlinear_arith)
            requires
                n >= 1,
                self.cells >= 0,
        ;
        self.cells as usize * n
    }
}

/// One mesh region of a dataset.
#[derive(Debug, Clone, PartialEq)]
pub enum TecZone {
    Ordered(OrderedZone),
    ClassicFE(ClassicFEZone),
}

impl TecZone {
    pub open spec fn wf(&self) -> bool {
        match self {
            TecZone::Ordered(z) => z.wf(),
            TecZone::ClassicFE(z) => z.wf(),
        }
    }

    pub open spec fn spec_name(&self) -> Seq<char> {
        match self {
            TecZone::Ordered(z) => z.name@,
            TecZone::ClassicFE(z) => z.name@,
        }
    }

    pub open spec fn spec_id(&self) -> i32 {
        match self {
            TecZone::Ordered(z) => z.id,
            TecZone::ClassicFE(z) => z.id,
        }
    }

    pub open spec fn spec_zone_type(&self) -> ZoneType {
        match self {
            TecZone::Ordered(_) => ZoneType::Ordered,
            TecZone::ClassicFE(z) => z.zone_type,
        }
    }

    pub open spec fn spec_time(&self) -> u64 {
        match self {
            TecZone::Ordered(z) => z.solution_time,
            TecZone::ClassicFE(z) => z.solution_time,
        }
    }

    pub open spec fn locs(&self) -> Seq<ValueLocation> {
        match self {
            TecZone::Ordered(z) => z.var_location@,
            TecZone::ClassicFE(z) => z.var_location@,
        }
    }

    pub open spec fn types(&self) -> Option<Vec<TecDataType>> {
        match self {
            TecZone::Ordered(z) => z.var_types,
            TecZone::ClassicFE(z) => z.var_types,
        }
    }

    /// The same zone with its per-variable element types replaced.
    pub open spec fn with_types(self, t: Option<Vec<TecDataType>>) -> TecZone {
        match self {
            TecZone::Ordered(z) => TecZone::Ordered(OrderedZone { var_types: t, ..z }),
            TecZone::ClassicFE(z) => TecZone::ClassicFE(ClassicFEZone { var_types: t, ..z }),
        }
    }

    pub open spec fn spec_node_count(&self) -> int {
        match self {
            TecZone::Ordered(z) => z.spec_node_count(),
            TecZone::ClassicFE(z) => z.nodes as int,
        }
    }

    pub open spec fn spec_cell_count(&self) -> int {
        match self {
            TecZone::Ordered(z) => z.spec_cell_count(),
            TecZone::ClassicFE(z) => z.cells as int,
        }
    }

    /// Number of values that a variable at `loc` has on this zone.
    pub open spec fn count_at(&self, loc: ValueLocation) -> int {
        match loc {
            ValueLocation::Nodal => self.spec_node_count(),
            ValueLocation::CellCentered => self.spec_cell_count(),
        }
    }

    /// Length of the connectivity array this zone's data block carries.
    pub open spec fn spec_num_connections(&self) -> int {
        match self {
            TecZone::Ordered(_) => 0,
            TecZone::ClassicFE(z) => z.spec_num_connections(),
        }
    }

    pub fn name(&self) -> (r: &str)
        ensures
            r@ == self.spec_name(),
    {
        match self {
            TecZone::Ordered(oz) => oz.name.as_str(),
            TecZone::ClassicFE(fe) => fe.name.as_str(),
        }
    }

    pub fn zone_type(&self) -> (r: ZoneType)
        ensures
            r == self.spec_zone_type(),
    {
        match self {
            TecZone::Ordered(_) => ZoneType::Ordered,
            TecZone::ClassicFE(fe) => fe.zone_type,
        }
    }

    pub fn is_fe(&self) -> (r: bool)
        ensures
            r == (*self is ClassicFE),
    {
        match self {
            TecZone::ClassicFE(_) => true,
            _ => false,
        }
    }

    pub fn var_locs(&self) -> (r: &[ValueLocation])
        ensures
            r@ == self.locs(),
    {
        match self {
            TecZone::Ordered(z) => z.var_location.as_slice(),
            TecZone::ClassicFE(z) => z.var_location.as_slice(),
        }
    }

    /// Bit pattern of the binary64 solution time.
    pub fn solution_time(&self) -> (r: u64)
        ensures
            r == self.spec_time(),
    {
        match self {
            TecZone::Ordered(z) => z.solution_time,
            TecZone::ClassicFE(z) => z.solution_time,
        }
    }

    pub fn node_count(&self) -> (r: usize)
        requires
            self.wf(),
        ensures
            r == self.spec_node_count(),
    {
        match self {
            TecZone::Ordered(z) => {
                assert(1 <= z.i_max * z.j_max <= z.i_max * z.j_max * z.k_max) by (nonlinear_arith)
                    requires
                        z.i_max >= 1,
                        z.j_max >= 1,
                        z.k_max >= 1,
                ;
                (z.i_max * z.j_max * z.k_max) as usize
            },
            TecZone::ClassicFE(z) => z.nodes as usize,
        }
    }

    pub fn cell_count(&self) -> (r: usize)
        requires
            self.wf(),
        ensures
            r == self.spec_cell_count(),
            r <= usize::MAX,
    {
        match self {
            TecZone::Ordered(z) => z.cell_count(),
            TecZone::ClassicFE(z) => {
                assert(z.cells <= z.spec_num_connections()) by (nonlinear_arith)
                    requires
                        z.zone_type.nodes_per_element() >= 1,
                        z.cells >= 0,
                ;
                z.cells as usize
            },
        }
    }

    pub fn data_types(&self) -> (r: Option<&[TecDataType]>)
        ensures
            r is Some <==> self.types() is Some,
            r matches Some(s) ==> s@ == self.types()->Some_0@,
    {
        match self {
            TecZone::Ordered(z) => match &z.var_types {
                Some(v) => Some(v.as_slice()),
                None => None,
            },
            TecZone::ClassicFE(z) => match &z.var_types {
                Some(v) => Some(v.as_slice()),
                None => None,
            },
        }
    }

    /// The zone's per-variable element types, for filling in once its data
    /// block has been read.
    pub fn data_types_mut(&mut self) -> (r: &mut Option<Vec<TecDataType>>)
        ensures
            *r == old(self).types(),
            *final(self) == old(self).with_types(*final(r)),
    {
        match self {
            TecZone::Ordered(z) => &mut z.var_types,
            TecZone::ClassicFE(z) => &mut z.var_types,
        }
    }
}

/// Extents of a grid, or element kind and counts of a mesh.
pub enum ShapeView {
    Grid { i: int, j: int, k: int },
    Mesh { kind: ZoneType, nodes: int, cells: int },
}

/// Mathematical content of a zone.
pub struct ZoneView {
    pub name: Seq<char>,
    pub id: int,
    pub time: u64,
    pub strand: int,
    pub shape: ShapeView,
    pub locs: Seq<ValueLocation>,
    pub types: Option<Seq<TecDataType>>,
}

impl TecZone {
    pub open spec fn view(&self) -> ZoneView {
        ZoneView {
            name: self.spec_name(),
            id: self.spec_id() as int,
            time: self.spec_time(),
            strand: match self {
                TecZone::Ordered(z) => z.strand as int,
                TecZone::ClassicFE(z) => z.strand as int,
            },
            shape: match self {
                TecZone::Ordered(z) => ShapeView::Grid {
                    i: z.i_max as int,
                    j: z.j_max as int,
                    k: z.k_max as int,
                },
                TecZone::ClassicFE(z) => ShapeView::Mesh {
                    kind: z.zone_type,
                    nodes: z.nodes as int,
                    cells: z.cells as int,
                },
            },
            locs: self.locs(),
            types: match self.types() {
                Some(t) => Some(t@),
                None => None,
            },
        }
    }
}

/// Identity shared by every zone kind.
pub trait Zone {
    fn id(&self) -> i32;

    fn name(&self) -> &str;

    /// Bit pattern of the binary64 solution time.
    fn time(&self) -> u64;
}

impl Zone for TecZone {
    fn id(&self) -> i32 {
        match self {
            TecZone::Ordered(z) => z.id,
            TecZone::ClassicFE(z) => z.id,
        }
    }

    fn time(&self) -> u64 {
        self.solution_time()
    }

    fn name(&self) -> &str {
        TecZone::name(self)
    }
}

impl Zone for OrderedZone {
    fn id(&self) -> i32 {
        self.id
    }

    fn time(&self) -> u64 {
        self.solution_time
    }

    fn name(&self) -> &str {
        self.name.as_str()
    }
}

impl Zone for ClassicFEZone {
    fn id(&self) -> i32 {
        self.id
    }

    fn time(&self) -> u64 {
        self.solution_time
    }

    fn name(&self) -> &str {
        self.name.as_str()
    }
}

/// The decoded payload of one zone: one `(variable index, values)` pair per
/// variable, the element connectivity of a finite-element zone, and a
/// `(min, max)` pair of binary64 bit patterns per variable.
#[derive(Debug, Clone, PartialEq)]
pub struct DataBlock {
    pub data: Vec<(usize, TecData)>,
    pub connectivity: Option<TecData>,
    pub min_max: Vec<(u64, u64)>,
}

/// Mathematical content of a data block: one array per variable in order,
/// the connectivity, and the recorded `(min, max)` pairs.
pub struct BlockView {
    pub data: Seq<DataView>,
    pub connectivity: Option<DataView>,
    pub min_max: Seq<(u64, u64)>,
}

impl DataBlock {
    pub open spec fn view(&self) -> BlockView {
        BlockView {
            data: Seq::new(self.data@.len(), |i: int| self.data@[i].1.view()),
            connectivity: match self.connectivity {
                Some(c) => Some(c.view()),
                None => None,
            },
            min_max: self.min_max@,
        }
    }

    /// The block holds, for each variable of `z` in order, as many values as
    /// the variable's location asks, decoded as its element type; and exactly
    /// the connectivity that `z`'s topology asks.
    pub open spec fn matches_zone(&self, z: &TecZone) -> bool {
        &&& self.data@.len() == z.locs().len()
        &&& self.min_max@.len() == z.locs().len()
        &&& z.types() is Some
        &&& z.types()->Some_0@.len() == z.locs().len()
        &&& forall|v: int|
            0 <= v < self.data@.len() ==> {
                &&& (#[trigger] self.data@[v]).0 == v
                &&& self.data@[v].1.spec_len() == z.count_at(z.locs()[v])
                &&& self.data@[v].1.has_type(z.types()->Some_0@[v])
            }
        &&& match z {
            TecZone::Ordered(_) => self.connectivity is None,
            TecZone::ClassicFE(fe) => self.connectivity matches Some(TecData::I32(c)) && c@.len()
                == fe.spec_num_connections(),
        }
    }

    pub fn get_data(&self, var_id: usize) -> (r: TecData)
        requires
            var_id < self.data@.len(),
        ensures
            r.equiv(&self.data@[var_id as int].1),
    {
        self.data[var_id].1.get()
    }
}

/// What every decoder guarantees of its result: the dataset's counts agree
/// with its lists, each zone is well formed, declares one location per
/// variable, carries its 1-based position as id, and its data block holds
/// exactly the values and connectivity that the zone asks for.
pub open spec fn consistent(ds: &Dataset, zones: Seq<TecZone>, blocks: Seq<DataBlock>) -> bool {
    &&& ds.var_names@.len() == ds.num_variables
    &&& ds.num_zones == zones.len()
    &&& blocks.len() == zones.len()
    &&& forall|z: int|
        0 <= z < zones.len() ==> {
            &&& (#[trigger] zones[z]).wf()
            &&& zones[z].locs().len() == ds.num_variables
            &&& blocks[z].matches_zone(&zones[z])
            &&& zones[z].spec_id() == z + 1
        }
}

/// Errors of the ASCII decoder.
#[derive(Debug, PartialEq, Eq, Structural, Copy, Clone)]
pub enum ParseError {
    HeaderVersionMissing,
    VersionMismatch { min: i32, current: i32 },
    Utf8Error,
    NotSupportedFeature,
    /// A keyword that the grammar does not know.
    WrongHeaderTag,
    WrongDataTag,
    EndOfHeader,
    /// The text ended where more was expected.
    UnexpectedEnd,
    /// A character that the grammar does not allow where it stands.
    Syntax,
    /// A token that does not parse as its declared numeric type.
    BadNumber,
    /// A variable index or range outside `1..=number of variables`.
    VarIndexOutOfRange,
    /// A zone size that is negative or does not fit in memory.
    InvalidZoneSize,
}

/// Errors that the library reports to its callers.
#[derive(Debug, Clone)]
pub enum TecioError {
    Other { message: String, code: i32 },
    FFIError,
    WrongFileExtension,
    ParseError(ParseError),
    PltParseError(crate::formats::PltParseError),

}

} // verus!
