use crate::common::{
    cell_extent, string_from_utf8, ClassicFEZone, DataBlock, Dataset, OrderedZone, TecData,
    TecDataType, TecZone, ValueLocation, ZoneType, FileType, consistent, ShapeView, ZoneView,
    DataView, BlockView,
};
use vstd::arithmetic::div_mod::lemma_fundamental_div_mod_converse;
use vstd::prelude::*;
use vstd::utf8::{decode_utf8, valid_utf8};

verus! {

/// Lowest format version that is not accepted: a file must carry a newer one.
pub const MIN_VERSION: i32 = 110;

/// Block tags: the bit patterns of the binary32 values 299, 399, 799, 899
/// and 357 that open each header and data block.
pub const ZONE_TAG: u32 = 0x4395_8000;

pub const GEOMETRY_TAG: u32 = 0x43c7_8000;

pub const DATASET_AUX_TAG: u32 = 0x4447_c000;

pub const VAR_AUX_TAG: u32 = 0x4460_c000;

pub const END_OF_HEADER_TAG: u32 = 0x43b2_8000;

/// Errors of the binary decoder.
#[derive(Debug, PartialEq, Eq, Structural, Copy, Clone)]
pub enum PltParseError {
    /// The three version digits are missing or are not digits.
    HeaderVersionMissing,
    VersionMismatch { min: i32, current: i32 },
    Utf8Error,
    NotSupportedFeature,
    WrongHeaderTag,
    WrongDataTag,
    EndOfHeader,
    /// The input ended inside a record.
    UnexpectedEnd,
    /// A header block whose tag is none of the known ones.
    UnknownBlock,
    /// The input does not start with the magic tag.
    WrongMagic,
    /// A fixed sentinel value differs from what the layout prescribes.
    BadSentinel,
    /// A topology, location, file-kind or element-type code out of its range.
    InvalidCode,
    /// A count or extent that is negative, zero where it must not be, or too large.
    InvalidSize,
}

/// The little-endian unsigned value of the four bytes at `p`.
pub open spec fn le_u32_at(s: Seq<u8>, p: int) -> int {
    s[p] + 256 * s[p + 1] + 65536 * s[p + 2] + 16777216 * s[p + 3]
}

/// The little-endian two's-complement value of the four bytes at `p`.
pub open spec fn le_i32_at(s: Seq<u8>, p: int) -> int {
    let u = le_u32_at(s, p);
    if u >= 0x8000_0000 {
        u - 0x1_0000_0000
    } else {
        u
    }
}

/// The little-endian unsigned value of the eight bytes at `p`.
pub open spec fn le_u64_at(s: Seq<u8>, p: int) -> int {
    le_u32_at(s, p) + 0x1_0000_0000 * le_u32_at(s, p + 4)
}

fn read_u32(b: &[u8], p: usize) -> (r: Result<(u32, usize), PltParseError>)
    requires
        p <= b@.len(),
    ensures
        r is Ok <==> p + 4 <= b@.len(),
        r matches Ok((v, q)) ==> v == le_u32_at(b@, p as int) && q == p + 4,
        r matches Err(e) ==> e == PltParseError::UnexpectedEnd,
{
    if b.len() - p < 4 {
        return Err(PltParseError::UnexpectedEnd);
    }
    let v = b[p] as u32 + (b[p + 1] as u32) * 256 + (b[p + 2] as u32) * 65536 + (b[p + 3] as u32)
        * 16777216;
    Ok((v, p + 4))
}

fn read_i32(b: &[u8], p: usize) -> (r: Result<(i32, usize), PltParseError>)
    requires
        p <= b@.len(),
    ensures
        r is Ok <==> p + 4 <= b@.len(),
        r matches Ok((v, q)) ==> v == le_i32_at(b@, p as int) && q == p + 4,
        r matches Err(e) ==> e == PltParseError::UnexpectedEnd,
{
    let (u, q) = read_u32(b, p)?;
    let v: i32 = if u >= 0x8000_0000 {
        (u - 0x8000_0000) as i32 - 0x7fff_ffff - 1
    } else {
        u as i32
    };
    Ok((v, q))
}

fn read_u64(b: &[u8], p: usize) -> (r: Result<(u64, usize), PltParseError>)
    requires
        p <= b@.len(),
    ensures
        r is Ok <==> p + 8 <= b@.len(),
        r matches Ok((v, q)) ==> v == le_u64_at(b@, p as int) && q == p + 8,
        r matches Err(e) ==> e == PltParseError::UnexpectedEnd,
{
    if b.len() - p < 8 {
        return Err(PltParseError::UnexpectedEnd);
    }
    let (lo, q) = read_u32(b, p)?;
    let (hi, q) = read_u32(b, q)?;
    Ok(((hi as u64) * 0x1_0000_0000 + lo as u64, q))
}

/// The position just past the zero unit that ends the string starting at `p`.
pub open spec fn string_end(s: Seq<u8>, p: int) -> Option<int>
    decreases s.len() - p,
    when 0 <= p
{
    if p + 4 > s.len() {
        None
    } else if le_u32_at(s, p) == 0 {
        Some(p + 4)
    } else {
        string_end(s, p + 4)
    }
}

/// The low byte of each four-byte unit of the string starting at `p`.
pub open spec fn string_bytes(s: Seq<u8>, p: int) -> Seq<u8>
    decreases s.len() - p,
    when 0 <= p
{
    if p + 4 > s.len() || le_u32_at(s, p) == 0 {
        seq![]
    } else {
        seq![(le_u32_at(s, p) % 256) as u8] + string_bytes(s, p + 4)
    }
}

/// Reads a zero-terminated string of four-byte units, keeping the low byte of
/// each unit.
fn read_string(b: &[u8], p: usize) -> (r: Result<(String, usize), PltParseError>)
    requires
        p <= b@.len(),
    ensures
        string_end(b@, p as int) is None ==> r == Err::<(String, usize), PltParseError>(
            PltParseError::UnexpectedEnd,
        ),
        string_end(b@, p as int) is Some && !valid_utf8(string_bytes(b@, p as int)) ==> r == Err::<
            (String, usize),
            PltParseError,
        >(PltParseError::Utf8Error),
        string_end(b@, p as int) is Some && valid_utf8(string_bytes(b@, p as int)) ==> (r matches Ok(
            (t, q),
        ) && t@ == decode_utf8(string_bytes(b@, p as int)) && q == string_end(b@, p as int)->Some_0),
        r matches Ok((_, q)) ==> p < q <= b@.len(),
        r matches Err(e) ==> e != PltParseError::EndOfHeader,
        match r {
            Ok((t, q)) => sp_string(b@, p as int) == Ok::<(Seq<char>, int), PltParseError>(
                (t@, q as int),
            ),
            Err(e) => sp_string(b@, p as int) == Err::<(Seq<char>, int), PltParseError>(e),
        },
{
    let mut bytes: Vec<u8> = Vec::new();
    let mut q = p;
    loop
        invariant_except_break
            p <= q <= b@.len(),
            string_end(b@, p as int) == string_end(b@, q as int),
            string_bytes(b@, p as int) == bytes@ + string_bytes(b@, q as int),
        ensures
            p < q <= b@.len(),
            string_end(b@, p as int) == Some(q as int),
            string_bytes(b@, p as int) == bytes@,
        decreases b@.len() - q,
    {
        let (u, next) = match read_u32(b, q) {
            Ok(x) => x,
            Err(e) => {
                return Err(e);
            },
        };
        if u == 0 {
            assert(bytes@ + seq![] =~= bytes@);
            q = next;
            break ;
        }
        assert(string_end(b@, q as int) == string_end(b@, next as int));
        assert(string_bytes(b@, q as int) == seq![(le_u32_at(b@, q as int) % 256) as u8]
            + string_bytes(b@, next as int));
        let ghost before = bytes@;
        bytes.push((u % 256) as u8);
        assert(bytes@ + string_bytes(b@, next as int) =~= string_bytes(b@, p as int)) by {
            assert(bytes@ =~= before.push((u % 256) as u8));
            assert(before + string_bytes(b@, q as int) == string_bytes(b@, p as int));
        }
        q = next;
    }
    match string_from_utf8(bytes) {
        Some(t) => Ok((t, q)),
        None => Err(PltParseError::Utf8Error),
    }
}

/// Which node a cell-centered value is taken from: cell `n` in cell-major
/// order on a grid of `ni` by `nj` nodes per plane. The file stores cell data
/// in a node-sized array, one extra layer per axis, and cell `(i, j, k)`
/// reads node `(i, j, k)`.
pub open spec fn gather_source(n: int, ni: int, nj: int) -> int {
    let ci = cell_extent(ni);
    let cj = cell_extent(nj);
    n % ci + ni * ((n / ci) % cj) + ni * nj * (n / ci / cj)
}

/// Gathers the cell values of an ordered zone from the node-sized array that
/// the file stores for a cell-centered variable.
pub fn reindex_cells<T: Copy>(src: &Vec<T>, i_max: usize, j_max: usize, k_max: usize) -> (r: Vec<T>)
    requires
        i_max >= 1,
        j_max >= 1,
        k_max >= 1,
        src@.len() == i_max * j_max * k_max,
        i_max * j_max * k_max <= usize::MAX,
    ensures
        r@.len() == cell_extent(i_max as int) * cell_extent(j_max as int) * cell_extent(
            k_max as int,
        ),
        forall|n: int|
            0 <= n < r@.len() ==> 0 <= #[trigger] gather_source(n, i_max as int, j_max as int)
                < src@.len() && r@[n] == src@[gather_source(n, i_max as int, j_max as int)],
{
    let ci: usize = if i_max > 1 { i_max - 1 } else { 1 };
    let cj: usize = if j_max > 1 { j_max - 1 } else { 1 };
    let ck: usize = if k_max > 1 { k_max - 1 } else { 1 };
    assert(1 <= i_max * j_max <= i_max * j_max * k_max) by (nonlinear_arith)
        requires
            i_max >= 1,
            j_max >= 1,
            k_max >= 1,
    ;
    let plane: usize = i_max * j_max;
    let mut r: Vec<T> = Vec::new();
    let mut k: usize = 0;
    while k < ck
        invariant
            ci == cell_extent(i_max as int),
            cj == cell_extent(j_max as int),
            ck == cell_extent(k_max as int),
            1 <= ci <= i_max,
            1 <= cj <= j_max,
            1 <= ck <= k_max,
            plane == i_max * j_max,
            src@.len() == plane * k_max,
            plane * k_max <= usize::MAX,
            k <= ck,
            r@.len() == ci * cj * k,
            forall|n: int|
                0 <= n < r@.len() ==> 0 <= #[trigger] gather_source(n, i_max as int, j_max as int)
                    < src@.len() && r@[n] == src@[gather_source(n, i_max as int, j_max as int)],
        decreases ck - k,
    {
        let mut j: usize = 0;
        assert(ci * (j + cj * k) == ci * cj * k) by (nonlinear_arith)
            requires
                j == 0,
        ;
        while j < cj
            invariant
                ci == cell_extent(i_max as int),
                cj == cell_extent(j_max as int),
                ck == cell_extent(k_max as int),
                1 <= ci <= i_max,
                1 <= cj <= j_max,
                1 <= ck <= k_max,
                plane == i_max * j_max,
                src@.len() == plane * k_max,
                plane * k_max <= usize::MAX,
                k < ck,
                j <= cj,
                r@.len() == ci * (j + cj * k),
                forall|n: int|
                    0 <= n < r@.len() ==> 0 <= #[trigger] gather_source(
                        n,
                        i_max as int,
                        j_max as int,
                    ) < src@.len() && r@[n] == src@[gather_source(n, i_max as int, j_max as int)],
            decreases cj - j,
        {
            let mut i: usize = 0;
            while i < ci
                invariant
                    ci == cell_extent(i_max as int),
                    cj == cell_extent(j_max as int),
                    ck == cell_extent(k_max as int),
                    1 <= ci <= i_max,
                    1 <= cj <= j_max,
                    1 <= ck <= k_max,
                    plane == i_max * j_max,
                    src@.len() == plane * k_max,
                    plane * k_max <= usize::MAX,
                    k < ck,
                    j < cj,
                    i <= ci,
                    r@.len() == i + ci * (j + cj * k),
                    forall|n: int|
                        0 <= n < r@.len() ==> 0 <= #[trigger] gather_source(
                            n,
                            i_max as int,
                            j_max as int,
                        ) < src@.len() && r@[n] == src@[gather_source(
                            n,
                            i_max as int,
                            j_max as int,
                        )],
                decreases ci - i,
            {
                assert(i + j * i_max + k * plane < plane * k_max && j * i_max < plane && k * plane
                    < plane * k_max) by (nonlinear_arith)
                    requires
                        i < i_max,
                        j < j_max,
                        k < k_max,
                        plane == i_max * j_max,
                ;
                let idx = i + j * i_max + k * plane;
                let ghost n = r@.len() as int;
                proof {
                    lemma_fundamental_div_mod_converse(n, ci as int, (j + cj * k) as int, i as int);
                    lemma_fundamental_div_mod_converse(
                        (j + cj * k) as int,
                        cj as int,
                        k as int,
                        j as int,
                    );
                    assert(n == i + ci * (j + cj * k));
                    assert(gather_source(n, i_max as int, j_max as int) == idx) by (nonlinear_arith)
                        requires
                            n / (ci as int) == j + cj * k,
                            n % (ci as int) == i,
                            (n / (ci as int)) % (cj as int) == j,
                            (n / (ci as int)) / (cj as int) == k,
                            ci == cell_extent(i_max as int),
                            cj == cell_extent(j_max as int),
                            idx == i + j * i_max + k * plane,
                            plane == i_max * j_max,
                    ;
                }
                r.push(src[idx]);
                i += 1;
                assert(r@.len() == i + ci * (j + cj * k)) by (nonlinear_arith)
                    requires
                        r@.len() == n + 1,
                        n == (i - 1) + ci * (j + cj * k),
                ;
            }
            j += 1;
            assert(r@.len() == ci * (j + cj * k)) by (nonlinear_arith)
                requires
                    r@.len() == ci + ci * ((j - 1) + cj * k),
            ;
        }
        k += 1;
        assert(r@.len() == ci * cj * k) by (nonlinear_arith)
            requires
                r@.len() == ci * (cj + cj * (k - 1)),
        ;
    }
    r
}

/// Reads `n` consecutive eight-byte little-endian values.
fn read_u64_array(b: &[u8], p: usize, n: usize) -> (r: Result<(Vec<u64>, usize), PltParseError>)
    requires
        p <= b@.len(),
    ensures
        r is Ok <==> p + 8 * n <= b@.len(),
        r matches Ok((v, q)) ==> q == p + 8 * n && v@.len() == n && forall|i: int|
            0 <= i < n ==> #[trigger] v@[i] == le_u64_at(b@, p + 8 * i),
        r matches Err(e) ==> e == PltParseError::UnexpectedEnd,
{
    let mut v: Vec<u64> = Vec::new();
    let mut q = p;
    while v.len() < n
        invariant
            v@.len() <= n,
            q == p + 8 * v@.len(),
            q <= b@.len(),
            forall|i: int| 0 <= i < v@.len() ==> #[trigger] v@[i] == le_u64_at(b@, p + 8 * i),
        decreases n - v@.len(),
    {
        let (x, next) = read_u64(b, q)?;
        v.push(x);
        q = next;
    }
    Ok((v, q))
}

/// Reads `n` consecutive four-byte little-endian unsigned values.
fn read_u32_array(b: &[u8], p: usize, n: usize) -> (r: Result<(Vec<u32>, usize), PltParseError>)
    requires
        p <= b@.len(),
    ensures
        r is Ok <==> p + 4 * n <= b@.len(),
        r matches Ok((v, q)) ==> q == p + 4 * n && v@.len() == n && forall|i: int|
            0 <= i < n ==> #[trigger] v@[i] == le_u32_at(b@, p + 4 * i),
        r matches Err(e) ==> e == PltParseError::UnexpectedEnd,
{
    let mut v: Vec<u32> = Vec::new();
    let mut q = p;
    while v.len() < n
        invariant
            v@.len() <= n,
            q == p + 4 * v@.len(),
            q <= b@.len(),
            forall|i: int| 0 <= i < v@.len() ==> #[trigger] v@[i] == le_u32_at(b@, p + 4 * i),
        decreases n - v@.len(),
    {
        let (x, next) = read_u32(b, q)?;
        v.push(x);
        q = next;
    }
    Ok((v, q))
}

/// Reads `n` consecutive four-byte little-endian signed values.
fn read_i32_array(b: &[u8], p: usize, n: usize) -> (r: Result<(Vec<i32>, usize), PltParseError>)
    requires
        p <= b@.len(),
    ensures
        r is Ok <==> p + 4 * n <= b@.len(),
        r matches Ok((v, q)) ==> q == p + 4 * n && v@.len() == n && forall|i: int|
            0 <= i < n ==> #[trigger] v@[i] == le_i32_at(b@, p + 4 * i),
        r matches Err(e) ==> e == PltParseError::UnexpectedEnd,
{
    let mut v: Vec<i32> = Vec::new();
    let mut q = p;
    while v.len() < n
        invariant
            v@.len() <= n,
            q == p + 4 * v@.len(),
            q <= b@.len(),
            forall|i: int| 0 <= i < v@.len() ==> #[trigger] v@[i] == le_i32_at(b@, p + 4 * i),
        decreases n - v@.len(),
    {
        let (x, next) = read_i32(b, q)?;
        v.push(x);
        q = next;
    }
    Ok((v, q))
}

/// Reads one auxiliary `(name, value)` pair: a string, a format code and a string.
fn parse_aux_pair(b: &[u8], p: usize) -> (r: Result<(String, String, usize), PltParseError>)
    requires
        p <= b@.len(),
    ensures
        r matches Ok((_, _, q)) ==> p < q <= b@.len(),
        r matches Err(e) ==> e != PltParseError::EndOfHeader,
        match r {
            Ok((n, v, q)) => sp_aux_pair(b@, p as int) == Ok::<
                (Seq<char>, Seq<char>, int),
                PltParseError,
            >((n@, v@, q as int)),
            Err(e) => sp_aux_pair(b@, p as int) == Err::<(Seq<char>, Seq<char>, int), PltParseError>(
                e,
            ),
        },
{
    let (name, q) = read_string(b, p)?;
    let (_format, q) = read_i32(b, q)?;
    let (value, q) = read_string(b, q)?;
    Ok((name, value, q))
}

/// Skips auxiliary pairs up to and including the zero that ends their list.
fn skip_aux_list(b: &[u8], p: usize) -> (r: Result<usize, PltParseError>)
    requires
        p <= b@.len(),
    ensures
        r matches Ok(q) ==> p < q <= b@.len(),
        r matches Err(e) ==> e != PltParseError::EndOfHeader,
        match r {
            Ok(q) => sp_aux_list(b@, p as int) == Ok::<int, PltParseError>(q as int),
            Err(e) => sp_aux_list(b@, p as int) == Err::<int, PltParseError>(e),
        },
{
    let mut q = p;
    loop
        invariant
            p <= q <= b@.len(),
            sp_aux_list(b@, p as int) == sp_aux_list(b@, q as int),
        decreases b@.len() - q,
    {
        let (marker, next) = read_i32(b, q)?;
        if marker == 0 {
            return Ok(next);
        }
        let (_name, _value, next) = parse_aux_pair(b, q)?;
        q = next;
    }
}

/// The location that a stored location code stands for: the code's
/// complement `1 - raw` is the location's own code.
pub open spec fn location_of_raw(raw: int) -> Option<ValueLocation> {
    if raw == 1 {
        Some(ValueLocation::CellCentered)
    } else if raw == 0 {
        Some(ValueLocation::Nodal)
    } else {
        None
    }
}

/// Reads the per-variable location list of a zone header: one stored code per
/// variable when `explicit`, otherwise every variable nodal.
fn read_locations(b: &[u8], p: usize, num_vars: usize, explicit: bool) -> (r: Result<
    (Vec<ValueLocation>, usize),
    PltParseError,
>)
    requires
        p <= b@.len(),
    ensures
        r matches Ok((v, q)) ==> v@.len() == num_vars && p <= q <= b@.len(),
        r matches Err(e) ==> e != PltParseError::EndOfHeader,
        match r {
            Ok((v, q)) => sp_locations(b@, p as int, num_vars as int, explicit) == Ok::<
                (Seq<ValueLocation>, int),
                PltParseError,
            >((v@, q as int)),
            Err(e) => sp_locations(b@, p as int, num_vars as int, explicit) == Err::<
                (Seq<ValueLocation>, int),
                PltParseError,
            >(e),
        },
{
    let mut v: Vec<ValueLocation> = Vec::new();
    if !explicit {
        while v.len() < num_vars
            invariant
                v@.len() <= num_vars,
                forall|i: int| 0 <= i < v@.len() ==> #[trigger] v@[i] == ValueLocation::Nodal,
            decreases num_vars - v@.len(),
        {
            v.push(ValueLocation::Nodal);
        }
        assert(v@ =~= Seq::new(num_vars as nat, |i: int| ValueLocation::Nodal));
        return Ok((v, p));
    }
    let (raw, q) = read_i32_array(b, p, num_vars)?;
    while v.len() < num_vars
        invariant
            explicit,
            raw@.len() == num_vars,
            p + 4 * num_vars <= b@.len(),
            forall|i: int|
                0 <= i < num_vars ==> #[trigger] raw@[i] == le_i32_at(b@, p + 4 * i),
            v@.len() <= num_vars,
            forall|i: int|
                0 <= i < v@.len() ==> Some(#[trigger] v@[i]) == location_of_raw(
                    le_i32_at(b@, p + 4 * i),
                ),
        decreases num_vars - v@.len(),
    {
        let code = raw[v.len()];
        let loc = if code == 1 {
            ValueLocation::CellCentered
        } else if code == 0 {
            ValueLocation::Nodal
        } else {
            let ghost i = v@.len() as int;
            assert(location_of_raw(le_i32_at(b@, p + 4 * i)) is None);
            assert(exists|i: int|
                0 <= i < num_vars && #[trigger] location_of_raw(le_i32_at(b@, p + 4 * i)) is None);
            return Err(PltParseError::InvalidCode);
        };
        v.push(loc);
    }
    assert forall|i: int| 0 <= i < num_vars implies #[trigger] location_of_raw(
        le_i32_at(b@, p + 4 * i),
    ) is Some by {
        assert(Some(v@[i]) == location_of_raw(le_i32_at(b@, p + 4 * i)));
    }
    assert(v@ =~= Seq::new(
        num_vars as nat,
        |i: int| location_of_raw(le_i32_at(b@, p + 4 * i))->Some_0,
    ));
    Ok((v, q))
}

/// The layout's reading of an `i32` at `p`.
pub open spec fn sp_i32(s: Seq<u8>, p: int) -> Result<(int, int), PltParseError> {
    if 0 <= p && p + 4 <= s.len() {
        Ok((le_i32_at(s, p), p + 4))
    } else {
        Err(PltParseError::UnexpectedEnd)
    }
}

/// The layout's reading of an eight-byte value at `p`.
pub open spec fn sp_u64(s: Seq<u8>, p: int) -> Result<(u64, int), PltParseError> {
    if 0 <= p && p + 8 <= s.len() {
        Ok((le_u64_at(s, p) as u64, p + 8))
    } else {
        Err(PltParseError::UnexpectedEnd)
    }
}

/// The layout's reading of a zero-terminated string at `p`.
pub open spec fn sp_string(s: Seq<u8>, p: int) -> Result<(Seq<char>, int), PltParseError> {
    match string_end(s, p) {
        None => Err(PltParseError::UnexpectedEnd),
        Some(q) => if valid_utf8(string_bytes(s, p)) {
            Ok((decode_utf8(string_bytes(s, p)), q))
        } else {
            Err(PltParseError::Utf8Error)
        },
    }
}

/// Name, value and end of one auxiliary `(name, format, value)` record at `p`.
pub open spec fn sp_aux_pair(s: Seq<u8>, p: int) -> Result<(Seq<char>, Seq<char>, int), PltParseError> {
    match sp_string(s, p) {
        Err(e) => Err(e),
        Ok((name, q)) => match sp_i32(s, q) {
            Err(e) => Err(e),
            Ok((_, q)) => match sp_string(s, q) {
                Err(e) => Err(e),
                Ok((value, q)) => Ok((name, value, q)),
            },
        },
    }
}

/// End of a list of auxiliary records closed by a zero.
pub open spec fn sp_aux_list(s: Seq<u8>, p: int) -> Result<int, PltParseError>
    decreases s.len() - p,
{
    match sp_i32(s, p) {
        Err(e) => Err(e),
        Ok((marker, q)) => if marker == 0 {
            Ok(q)
        } else {
            match sp_aux_pair(s, p) {
                Err(e) => Err(e),
                Ok((_, _, q)) => if p < q <= s.len() {
                    sp_aux_list(s, q)
                } else {
                    Err(PltParseError::UnexpectedEnd)
                },
            }
        },
    }
}

/// The layout's reading of the location list of a zone header.
pub open spec fn sp_locations(s: Seq<u8>, p: int, nv: int, explicit: bool) -> Result<
    (Seq<ValueLocation>, int),
    PltParseError,
> {
    if !explicit {
        Ok((Seq::new(nv as nat, |i: int| ValueLocation::Nodal), p))
    } else if p + 4 * nv > s.len() {
        Err(PltParseError::UnexpectedEnd)
    } else if exists|i: int| 0 <= i < nv && #[trigger] location_of_raw(le_i32_at(s, p + 4 * i)) is None {
        Err(PltParseError::InvalidCode)
    } else {
        Ok(
            (
                Seq::new(nv as nat, |i: int| location_of_raw(le_i32_at(s, p + 4 * i))->Some_0),
                p + 4 * nv,
            ),
        )
    }
}

/// The topology of a valid topology code.
pub open spec fn zone_type_of(code: int) -> ZoneType {
    if code == 0 {
        ZoneType::Ordered
    } else if code == 1 {
        ZoneType::FELine
    } else if code == 2 {
        ZoneType::FETriangle
    } else if code == 3 {
        ZoneType::FEQuad
    } else if code == 4 {
        ZoneType::FETetra
    } else if code == 5 {
        ZoneType::FEBrick
    } else if code == 6 {
        ZoneType::FEPolygon
    } else {
        ZoneType::FEPolyhedron
    }
}

/// The sizing fields that close a zone header, read at `p` for topology
/// `kind`, then its auxiliary records.
pub open spec fn sp_zone_shape(s: Seq<u8>, p: int, kind: ZoneType) -> Result<(ShapeView, int), PltParseError> {
    if kind is Ordered {
        match sp_i32(s, p) {
            Err(e) => Err(e),
            Ok((i, p)) => match sp_i32(s, p) {
                Err(e) => Err(e),
                Ok((j, p)) => match sp_i32(s, p) {
                    Err(e) => Err(e),
                    Ok((k, p)) => if i < 1 || j < 1 || k < 1 || i * j * k > i64::MAX || i * j * k
                        > usize::MAX {
                        Err(PltParseError::InvalidSize)
                    } else {
                        match sp_aux_list(s, p) {
                            Err(e) => Err(e),
                            Ok(q) => Ok((ShapeView::Grid { i, j, k }, q)),
                        }
                    },
                },
            },
        }
    } else if kind.is_classic_fe() {
        match sp_i32(s, p) {
            Err(e) => Err(e),
            Ok((nodes, p)) => match sp_i32(s, p) {
                Err(e) => Err(e),
                Ok((cells, p)) => if p + 12 > s.len() {
                    Err(PltParseError::UnexpectedEnd)
                } else if nodes < 0 || cells < 0 || nodes > usize::MAX || cells
                    * kind.nodes_per_element() > usize::MAX {
                    Err(PltParseError::InvalidSize)
                } else {
                    match sp_aux_list(s, p + 12) {
                        Err(e) => Err(e),
                        Ok(q) => Ok((ShapeView::Mesh { kind, nodes, cells }, q)),
                    }
                },
            },
        }
    } else {
        Err(PltParseError::NotSupportedFeature)
    }
}

/// The fields of a zone header after its parent reference, at `p`.
pub open spec fn sp_zone_body(s: Seq<u8>, p: int, nv: int, name: Seq<char>) -> Result<
    (ZoneView, int),
    PltParseError,
> {
    match sp_i32(s, p) {
        Err(e) => Err(e),
        Ok((strand, p)) => match sp_u64(s, p) {
            Err(e) => Err(e),
            Ok((time, p)) => match sp_i32(s, p) {
                Err(e) => Err(e),
                Ok((sentinel, p)) => if sentinel != -1 {
                    Err(PltParseError::BadSentinel)
                } else {
                    match sp_i32(s, p) {
                        Err(e) => Err(e),
                        Ok((code, p)) => if code < 0 || code > 7 {
                            Err(PltParseError::InvalidCode)
                        } else {
                            match sp_i32(s, p) {
                                Err(e) => Err(e),
                                Ok((explicit, p)) => match sp_locations(s, p, nv, explicit == 1) {
                                    Err(e) => Err(e),
                                    Ok((locs, p)) => match sp_i32(s, p) {
                                        Err(e) => Err(e),
                                        Ok((_, p)) => match sp_i32(s, p) {
                                            Err(e) => Err(e),
                                            Ok((face, p)) => if face != 0 {
                                                Err(PltParseError::NotSupportedFeature)
                                            } else {
                                                match sp_zone_shape(s, p, zone_type_of(code)) {
                                                    Err(e) => Err(e),
                                                    Ok((shape, q)) => Ok(
                                                        (
                                                            ZoneView {
                                                                name,
                                                                id: strand,
                                                                time,
                                                                strand,
                                                                shape,
                                                                locs,
                                                                types: None,
                                                            },
                                                            q,
                                                        ),
                                                    ),
                                                }
                                            },
                                        },
                                    },
                                },
                            }
                        },
                    }
                },
            },
        },
    }
}

/// The layout's reading of a zone header block at `p`.
pub open spec fn sp_header_zone(s: Seq<u8>, p: int, nv: int) -> Result<(ZoneView, int), PltParseError> {
    if !(0 <= p && p + 4 <= s.len()) {
        Err(PltParseError::UnexpectedEnd)
    } else if le_u32_at(s, p) != ZONE_TAG {
        Err(PltParseError::WrongHeaderTag)
    } else {
        match sp_string(s, p + 4) {
            Err(e) => Err(e),
            Ok((name, q)) => match sp_i32(s, q) {
                Err(e) => Err(e),
                Ok((parent, q)) => if parent != -1 {
                    Err(PltParseError::NotSupportedFeature)
                } else {
                    sp_zone_body(s, q, nv, name)
                },
            },
        }
    }
}

pub open spec fn zone_result(r: Result<(TecZone, usize), PltParseError>) -> Result<
    (ZoneView, int),
    PltParseError,
> {
    match r {
        Ok((z, q)) => Ok((z.view(), q as int)),
        Err(e) => Err(e),
    }
}

/// Reads a zone header block starting at its tag, at position `p` of `b`.
/// A header that refers to a parent zone is refused as unsupported.
pub fn parse_header_zone(b: &[u8], p: usize, num_vars: usize) -> (r: Result<
    (TecZone, usize),
    PltParseError,
>)
    requires
        p <= b@.len(),
    ensures
        r matches Ok((z, q)) ==> {
            &&& p < q <= b@.len()
            &&& z.wf()
            &&& z.locs().len() == num_vars
            &&& z.types() is None
        },
        r matches Err(e) ==> e != PltParseError::EndOfHeader,
        zone_result(r) == sp_header_zone(b@, p as int, num_vars as int),
        p + 4 <= b@.len() && le_u32_at(b@, p as int) != ZONE_TAG ==> r == Err::<
            (TecZone, usize),
            PltParseError,
        >(PltParseError::WrongHeaderTag),
        p + 4 <= b@.len() && le_u32_at(b@, p as int) == ZONE_TAG && string_end(
            b@,
            p + 4,
        ) is Some && valid_utf8(string_bytes(b@, p + 4)) && string_end(b@, p + 4)->Some_0 + 4
            <= b@.len() && le_i32_at(b@, string_end(b@, p + 4)->Some_0) != -1 ==> r == Err::<
            (TecZone, usize),
            PltParseError,
        >(PltParseError::NotSupportedFeature),
{
    let (tag, q) = read_u32(b, p)?;
    if tag != ZONE_TAG {
        return Err(PltParseError::WrongHeaderTag);
    }
    let (name, q) = read_string(b, q)?;
    let (parent_zone, q) = read_i32(b, q)?;
    if parent_zone != -1 {
        return Err(PltParseError::NotSupportedFeature);
    }
    let (strand, q) = read_i32(b, q)?;
    let (solution_time, q) = read_u64(b, q)?;
    let (sentinel, q) = read_i32(b, q)?;
    if sentinel != -1 {
        return Err(PltParseError::BadSentinel);
    }
    let (code, q) = read_i32(b, q)?;
    let zone_type = match ZoneType::from_code(code) {
        Some(t) => t,
        None => {
            return Err(PltParseError::InvalidCode);
        },
    };
    let (specify_var_loc, q) = read_i32(b, q)?;
    let (var_location, q) = read_locations(b, q, num_vars, specify_var_loc == 1)?;
    let (_raw_local_supplied, q) = read_i32(b, q)?;
    let (misc_face_connect, q) = read_i32(b, q)?;
    if misc_face_connect != 0 {
        // Face-neighbor connections would be read here; they are not supported.
        return Err(PltParseError::NotSupportedFeature);
    }
    match zone_type {
        ZoneType::Ordered => {
            let (i_max, q) = read_i32(b, q)?;
            let (j_max, q) = read_i32(b, q)?;
            let (k_max, q) = read_i32(b, q)?;
            if i_max < 1 || j_max < 1 || k_max < 1 {
                return Err(PltParseError::InvalidSize);
            }
            assert((i_max as int) * (j_max as int) < 0x4000_0000_0000_0000 && (i_max as int) * (
            j_max as int) * (k_max as int) < 0x2000_0000_0000_0000_0000_0000) by (nonlinear_arith)
                requires
                    1 <= i_max < 0x8000_0000,
                    1 <= j_max < 0x8000_0000,
                    1 <= k_max < 0x8000_0000,
            ;
            let nodes: u128 = (i_max as u128) * (j_max as u128) * (k_max as u128);
            if nodes > 0x7fff_ffff_ffff_ffff || nodes > usize::MAX as u128 {
                return Err(PltParseError::InvalidSize);
            }
            let q = skip_aux_list(b, q)?;
            let zone = OrderedZone {
                name,
                id: strand,
                solution_time,
                strand,
                i_max: i_max as i64,
                j_max: j_max as i64,
                k_max: k_max as i64,
                var_location,
                var_types: None,
                passive_var_list: Vec::new(),
            };
            Ok((TecZone::Ordered(zone), q))
        },
        ZoneType::FELine | ZoneType::FETriangle | ZoneType::FEQuad | ZoneType::FETetra
        | ZoneType::FEBrick => {
            let (nodes, q) = read_i32(b, q)?;
            let (cells, q) = read_i32(b, q)?;
            let (_i_cell_dim, q) = read_i32(b, q)?;
            let (_j_cell_dim, q) = read_i32(b, q)?;
            let (_k_cell_dim, q) = read_i32(b, q)?;
            if nodes < 0 || cells < 0 {
                return Err(PltParseError::InvalidSize);
            }
            assert((cells as int) * (zone_type.nodes_per_element() as int) <= 0x4_0000_0000)
                by (nonlinear_arith)
                requires
                    0 <= cells < 0x8000_0000,
                    zone_type.nodes_per_element() <= 8,
            ;
            let connections: u64 = (cells as u64) * (zone_type.num_nodes() as u64);
            if nodes as u64 > usize::MAX as u64 || connections > usize::MAX as u64 {
                return Err(PltParseError::InvalidSize);
            }
            let q = skip_aux_list(b, q)?;
            let zone = ClassicFEZone {
                name,
                zone_type,
                id: strand,
                solution_time,
                strand,
                nodes: nodes as i64,
                cells: cells as i64,
                var_location,
                var_types: None,
            };
            Ok((TecZone::ClassicFE(zone), q))
        },
        _ => Err(PltParseError::NotSupportedFeature),
    }
}

/// The layout's reading of one header block at `p`: a zone header gives its
/// zone, an auxiliary record gives nothing, and the end-of-header tag is
/// reported as `EndOfHeader`.
pub open spec fn sp_header_block(s: Seq<u8>, p: int, nv: int) -> Result<
    (Option<ZoneView>, int),
    PltParseError,
> {
    if !(0 <= p && p + 4 <= s.len()) {
        Err(PltParseError::UnexpectedEnd)
    } else if le_u32_at(s, p) == ZONE_TAG {
        match sp_header_zone(s, p, nv) {
            Err(e) => Err(e),
            Ok((z, q)) => Ok((Some(z), q)),
        }
    } else if le_u32_at(s, p) == GEOMETRY_TAG {
        Err(PltParseError::NotSupportedFeature)
    } else if le_u32_at(s, p) == DATASET_AUX_TAG {
        match sp_aux_pair(s, p + 4) {
            Err(e) => Err(e),
            Ok((_, _, q)) => Ok((None, q)),
        }
    } else if le_u32_at(s, p) == VAR_AUX_TAG {
        match sp_i32(s, p + 4) {
            Err(e) => Err(e),
            Ok((_, q)) => match sp_aux_pair(s, q) {
                Err(e) => Err(e),
                Ok((_, _, q)) => Ok((None, q)),
            },
        }
    } else if le_u32_at(s, p) == END_OF_HEADER_TAG {
        Err(PltParseError::EndOfHeader)
    } else {
        Err(PltParseError::UnknownBlock)
    }
}

pub open spec fn prepend_zones(acc: Seq<ZoneView>, r: Result<(Seq<ZoneView>, int), PltParseError>) -> Result<
    (Seq<ZoneView>, int),
    PltParseError,
> {
    match r {
        Ok((zs, q)) => Ok((acc + zs, q)),
        Err(e) => Err(e),
    }
}

/// The zones of the header blocks from `p` up to the end-of-header tag, and
/// the position of that tag.
pub open spec fn sp_header_blocks(s: Seq<u8>, p: int, nv: int) -> Result<
    (Seq<ZoneView>, int),
    PltParseError,
>
    decreases s.len() - p,
{
    match sp_header_block(s, p, nv) {
        Err(e) => if e == PltParseError::EndOfHeader {
            Ok((seq![], p))
        } else {
            Err(e)
        },
        Ok((oz, q)) => if p < q <= s.len() {
            prepend_zones(
                match oz {
                    Some(z) => seq![z],
                    None => seq![],
                },
                sp_header_blocks(s, q, nv),
            )
        } else {
            Err(PltParseError::UnexpectedEnd)
        },
    }
}

pub open spec fn header_result(r: Result<(HeaderBlock, usize), PltParseError>) -> Result<
    (Option<ZoneView>, int),
    PltParseError,
> {
    match r {
        Ok((HeaderBlock::Zone(z), q)) => Ok((Some(z.view()), q as int)),
        Ok((_, q)) => Ok((None, q as int)),
        Err(e) => Err(e),
    }
}

/// One block of the header section.
#[derive(Debug)]
pub enum HeaderBlock {
    Zone(TecZone),
    AuxDataset(String, String),
    AuxVar(i32, String, String),
    Text,
    Geom,
}

/// Reads one header block, dispatching on its tag. The end-of-header tag is
/// reported as `EndOfHeader` and not consumed.
fn parse_header_block(b: &[u8], p: usize, num_vars: usize) -> (r: Result<
    (HeaderBlock, usize),
    PltParseError,
>)
    requires
        p <= b@.len(),
    ensures
        r matches Ok((blk, q)) ==> p < q <= b@.len() && (blk matches HeaderBlock::Zone(z) ==> (
        z.wf() && z.locs().len() == num_vars)),
        header_result(r) == sp_header_block(b@, p as int, num_vars as int),
        p + 4 <= b@.len() && le_u32_at(b@, p as int) == DATASET_AUX_TAG && r is Ok ==> (r matches Ok(
            (HeaderBlock::AuxDataset(n, v), q),
        ) && sp_aux_pair(b@, p + 4) == Ok::<(Seq<char>, Seq<char>, int), PltParseError>(
            (n@, v@, q as int),
        )),
        p + 4 <= b@.len() && le_u32_at(b@, p as int) == VAR_AUX_TAG && r is Ok ==> (r matches Ok(
            (HeaderBlock::AuxVar(i, n, v), q),
        ) && p + 8 <= b@.len() && i == le_i32_at(b@, p + 4) && sp_aux_pair(b@, p + 8) == Ok::<
            (Seq<char>, Seq<char>, int),
            PltParseError,
        >((n@, v@, q as int))),
        r == Err::<(HeaderBlock, usize), PltParseError>(PltParseError::EndOfHeader) <==> (p + 4
            <= b@.len() && le_u32_at(b@, p as int) == END_OF_HEADER_TAG),
        p + 4 <= b@.len() && le_u32_at(b@, p as int) == GEOMETRY_TAG ==> r == Err::<
            (HeaderBlock, usize),
            PltParseError,
        >(PltParseError::NotSupportedFeature),
        p + 4 <= b@.len() && le_u32_at(b@, p as int) != ZONE_TAG && le_u32_at(b@, p as int)
            != GEOMETRY_TAG && le_u32_at(b@, p as int) != DATASET_AUX_TAG && le_u32_at(
            b@,
            p as int,
        ) != VAR_AUX_TAG && le_u32_at(b@, p as int) != END_OF_HEADER_TAG ==> r == Err::<
            (HeaderBlock, usize),
            PltParseError,
        >(PltParseError::UnknownBlock),
{
    let (tag, q) = read_u32(b, p)?;
    if tag == ZONE_TAG {
        let (zone, q) = parse_header_zone(b, p, num_vars)?;
        Ok((HeaderBlock::Zone(zone), q))
    } else if tag == GEOMETRY_TAG {
        Err(PltParseError::NotSupportedFeature)
    } else if tag == DATASET_AUX_TAG {
        let (name, value, q) = parse_aux_pair(b, q)?;
        Ok((HeaderBlock::AuxDataset(name, value), q))
    } else if tag == VAR_AUX_TAG {
        let (var, q) = read_i32(b, q)?;
        let (name, value, q) = parse_aux_pair(b, q)?;
        Ok((HeaderBlock::AuxVar(var, name, value), q))
    } else if tag == END_OF_HEADER_TAG {
        Err(PltParseError::EndOfHeader)
    } else {
        Err(PltParseError::UnknownBlock)
    }
}

/// Element type of a valid element-type code.
pub open spec fn data_type_of(code: int) -> TecDataType {
    if code == 1 {
        TecDataType::F32
    } else if code == 2 {
        TecDataType::F64
    } else if code == 3 {
        TecDataType::I32
    } else if code == 4 {
        TecDataType::I16
    } else if code == 5 {
        TecDataType::I8
    } else {
        TecDataType::I1
    }
}

/// Node count of a zone.
pub open spec fn view_nodes(z: ZoneView) -> int {
    match z.shape {
        ShapeView::Grid { i, j, k } => i * j * k,
        ShapeView::Mesh { nodes, .. } => nodes,
    }
}

/// Cell count of a zone.
pub open spec fn view_cells(z: ZoneView) -> int {
    match z.shape {
        ShapeView::Grid { i, j, k } => cell_extent(i) * cell_extent(j) * cell_extent(k),
        ShapeView::Mesh { cells, .. } => cells,
    }
}

/// How many values the file stores for a variable at `loc`: cell data of a
/// grid is stored node-sized.
pub open spec fn stored_count(z: ZoneView, loc: ValueLocation) -> int {
    if loc is Nodal || z.shape is Grid {
        view_nodes(z)
    } else {
        view_cells(z)
    }
}

/// The values a variable at `loc` holds, given what the file stores for it.
pub open spec fn located<T>(z: ZoneView, loc: ValueLocation, raw: Seq<T>) -> Seq<T> {
    match z.shape {
        ShapeView::Grid { i, j, k } => if loc is CellCentered {
            Seq::new(
                (cell_extent(i) * cell_extent(j) * cell_extent(k)) as nat,
                |n: int| raw[gather_source(n, i, j)],
            )
        } else {
            raw
        },
        _ => raw,
    }
}

/// The layout's reading of one variable's payload at `p`.
pub open spec fn sp_variable(s: Seq<u8>, p: int, z: ZoneView, loc: ValueLocation, ty: TecDataType) -> Result<
    (DataView, int),
    PltParseError,
> {
    let n = stored_count(z, loc);
    match ty {
        TecDataType::F64 => if p + 8 * n > s.len() {
            Err(PltParseError::UnexpectedEnd)
        } else {
            Ok(
                (
                    DataView::F64(
                        located(z, loc, Seq::new(n as nat, |i: int| le_u64_at(s, p + 8 * i) as u64)),
                    ),
                    p + 8 * n,
                ),
            )
        },
        TecDataType::F32 => if p + 4 * n > s.len() {
            Err(PltParseError::UnexpectedEnd)
        } else {
            Ok(
                (
                    DataView::F32(
                        located(z, loc, Seq::new(n as nat, |i: int| le_u32_at(s, p + 4 * i) as u32)),
                    ),
                    p + 4 * n,
                ),
            )
        },
        _ => Err(PltParseError::NotSupportedFeature),
    }
}

/// The payloads of the first `n` variables, read in order from `p`.
pub open spec fn sp_vars(s: Seq<u8>, p: int, z: ZoneView, types: Seq<TecDataType>, n: int) -> Result<
    (Seq<DataView>, int),
    PltParseError,
>
    decreases n,
{
    if n <= 0 {
        Ok((seq![], p))
    } else {
        match sp_vars(s, p, z, types, n - 1) {
            Err(e) => Err(e),
            Ok((ds, q)) => match sp_variable(s, q, z, z.locs[n - 1], types[n - 1]) {
                Err(e) => Err(e),
                Ok((d, q)) => Ok((ds.push(d), q)),
            },
        }
    }
}

pub open spec fn data_result(r: Result<(TecData, usize), PltParseError>) -> Result<
    (DataView, int),
    PltParseError,
> {
    match r {
        Ok((d, q)) => Ok((d.view(), q as int)),
        Err(e) => Err(e),
    }
}

/// Reads one variable's payload on `zone`: as many values as its location
/// asks, decoded as its element type, with cell data of an ordered zone
/// gathered out of the node-sized array that the file stores.
fn read_variable(b: &[u8], p: usize, zone: &TecZone, loc: ValueLocation, ty: TecDataType) -> (r: Result<
    (TecData, usize),
    PltParseError,
>)
    requires
        p <= b@.len(),
        zone.wf(),
    ensures
        r matches Ok((d, q)) ==> p <= q <= b@.len() && d.spec_len() == zone.count_at(loc)
            && d.has_type(ty),
        data_result(r) == sp_variable(b@, p as int, zone.view(), loc, ty),
{
    let stored = match (zone, loc) {
        (TecZone::Ordered(_), ValueLocation::CellCentered) => zone.node_count(),
        (_, ValueLocation::Nodal) => zone.node_count(),
        (_, ValueLocation::CellCentered) => zone.cell_count(),
    };
    let gather = match (zone, loc) {
        (TecZone::Ordered(z), ValueLocation::CellCentered) => {
            proof {
                lemma_extents_fit(z.i_max as int, z.j_max as int, z.k_max as int);
            }
            Some((z.i_max as usize, z.j_max as usize, z.k_max as usize))
        },
        _ => None,
    };
    assert(gather matches Some((i, j, k)) ==> (zone matches TecZone::Ordered(z) && i == z.i_max
        && j == z.j_max && k == z.k_max && i * j * k == stored && loc == ValueLocation::CellCentered));
    assert(gather is None ==> stored == zone.count_at(loc));
    match ty {
        TecDataType::F64 => {
            let (v, q) = read_u64_array(b, p, stored)?;
            let ghost raw = Seq::new(stored as nat, |i: int| le_u64_at(b@, p + 8 * i) as u64);
            assert(v@ =~= raw);
            match gather {
                Some((i, j, k)) => {
                    let c = reindex_cells(&v, i, j, k);
                    assert(c@ =~= located(zone.view(), loc, raw));
                    Ok((TecData::F64(c), q))
                },
                None => {
                    assert(v@ =~= located(zone.view(), loc, raw));
                    Ok((TecData::F64(v), q))
                },
            }
        },
        TecDataType::F32 => {
            let (v, q) = read_u32_array(b, p, stored)?;
            let ghost raw = Seq::new(stored as nat, |i: int| le_u32_at(b@, p + 4 * i) as u32);
            assert(v@ =~= raw);
            match gather {
                Some((i, j, k)) => {
                    let c = reindex_cells(&v, i, j, k);
                    assert(c@ =~= located(zone.view(), loc, raw));
                    Ok((TecData::F32(c), q))
                },
                None => {
                    assert(v@ =~= located(zone.view(), loc, raw));
                    Ok((TecData::F32(v), q))
                },
            }
        },
        _ => Err(PltParseError::NotSupportedFeature),
    }
}

/// Each extent of a grid is at most its node count.
proof fn lemma_extents_fit(i: int, j: int, k: int)
    requires
        i >= 1,
        j >= 1,
        k >= 1,
    ensures
        i <= i * j * k,
        j <= i * j * k,
        k <= i * j * k,
{
    assert(i <= i * j * k && j <= i * j * k && k <= i * j * k) by (nonlinear_arith)
        requires
            i >= 1,
            j >= 1,
            k >= 1,
    ;
}

/// The layout's reading of the per-variable element-type codes at `p`.
pub open spec fn sp_types(s: Seq<u8>, p: int, nv: int) -> Result<(Seq<TecDataType>, int), PltParseError> {
    if p + 4 * nv > s.len() {
        Err(PltParseError::UnexpectedEnd)
    } else if exists|i: int| 0 <= i < nv && !(1 <= #[trigger] le_i32_at(s, p + 4 * i) <= 6) {
        Err(PltParseError::InvalidCode)
    } else {
        Ok((Seq::new(nv as nat, |i: int| data_type_of(le_i32_at(s, p + 4 * i))), p + 4 * nv))
    }
}

/// The layout's reading of the `(min, max)` pairs at `p`.
pub open spec fn sp_min_max(s: Seq<u8>, p: int, nv: int) -> Result<(Seq<(u64, u64)>, int), PltParseError> {
    if p + 16 * nv > s.len() {
        Err(PltParseError::UnexpectedEnd)
    } else {
        Ok(
            (
                Seq::new(
                    nv as nat,
                    |i: int| (le_u64_at(s, p + 16 * i) as u64, le_u64_at(s, p + 16 * i + 8) as u64),
                ),
                p + 16 * nv,
            ),
        )
    }
}

/// The layout's reading of a zone's connectivity at `p`; only a zone that
/// owns its connectivity (`share == -1`) is supported.
pub open spec fn sp_connectivity(s: Seq<u8>, p: int, z: ZoneView, share: int) -> Result<
    (Option<DataView>, int),
    PltParseError,
> {
    match z.shape {
        ShapeView::Grid { .. } => Ok((None, p)),
        ShapeView::Mesh { kind, cells, .. } => if share != -1 {
            Err(PltParseError::NotSupportedFeature)
        } else if p + 4 * (cells * kind.nodes_per_element()) > s.len() {
            Err(PltParseError::UnexpectedEnd)
        } else {
            Ok(
                (
                    Some(
                        DataView::I32(
                            Seq::new(
                                (cells * kind.nodes_per_element()) as nat,
                                |i: int| le_i32_at(s, p + 4 * i) as i32,
                            ),
                        ),
                    ),
                    p + 4 * (cells * kind.nodes_per_element()),
                ),
            )
        },
    }
}

/// The layout's reading of the data block of zone `z` at `p`: the element
/// types it declares, its content, and where it ends.
pub open spec fn sp_data_block(s: Seq<u8>, p: int, nv: int, z: ZoneView) -> Result<
    (Seq<TecDataType>, BlockView, int),
    PltParseError,
> {
    if !(0 <= p && p + 4 <= s.len()) {
        Err(PltParseError::UnexpectedEnd)
    } else if le_u32_at(s, p) != ZONE_TAG {
        Err(PltParseError::WrongDataTag)
    } else {
        match sp_types(s, p + 4, nv) {
            Err(e) => Err(e),
            Ok((types, q)) => match sp_i32(s, q) {
                Err(e) => Err(e),
                Ok((passive, q)) => if passive != 0 {
                    Err(PltParseError::NotSupportedFeature)
                } else {
                    match sp_i32(s, q) {
                        Err(e) => Err(e),
                        Ok((shared, q)) => if shared != 0 {
                            Err(PltParseError::NotSupportedFeature)
                        } else {
                            match sp_i32(s, q) {
                                Err(e) => Err(e),
                                Ok((share, q)) => match sp_min_max(s, q, nv) {
                                    Err(e) => Err(e),
                                    Ok((mm, q)) => {
                                        let zt = ZoneView { types: Some(types), ..z };
                                        match sp_vars(s, q, zt, types, nv) {
                                            Err(e) => Err(e),
                                            Ok((ds, q)) => match sp_connectivity(s, q, zt, share) {
                                                Err(e) => Err(e),
                                                Ok((c, q)) => Ok(
                                                    (
                                                        types,
                                                        BlockView {
                                                            data: ds,
                                                            connectivity: c,
                                                            min_max: mm,
                                                        },
                                                        q,
                                                    ),
                                                ),
                                            },
                                        }
                                    },
                                },
                            }
                        },
                    }
                },
            },
        }
    }
}

/// A failure while reading the payloads stops the whole list there.
proof fn lemma_vars_err(
    s: Seq<u8>,
    p: int,
    z: ZoneView,
    types: Seq<TecDataType>,
    k: int,
    m: int,
)
    requires
        0 < k <= m,
        sp_vars(s, p, z, types, k) is Err,
    ensures
        sp_vars(s, p, z, types, m) == sp_vars(s, p, z, types, k),
    decreases m - k,
{
    if k < m {
        lemma_vars_err(s, p, z, types, k, m - 1);
    }
}

/// Reads the data block of `zone` and fills in the zone's element types from it.
fn parse_data_block(b: &[u8], p: usize, num_vars: usize, zone: &mut TecZone) -> (r: Result<
    (DataBlock, usize),
    PltParseError,
>)
    requires
        p <= b@.len(),
        old(zone).wf(),
        old(zone).locs().len() == num_vars,
    ensures
        p + 4 <= b@.len() && le_u32_at(b@, p as int) != ZONE_TAG ==> *final(zone) == *old(zone),
        r matches Ok((blk, q)) ==> {
            &&& p < q <= b@.len()
            &&& *final(zone) == old(zone).with_types(final(zone).types())
            &&& blk.matches_zone(final(zone))
            &&& final(zone).types() is Some
            &&& sp_data_block(b@, p as int, num_vars as int, old(zone).view()) == Ok::<
                (Seq<TecDataType>, BlockView, int),
                PltParseError,
            >((final(zone).types()->Some_0@, blk.view(), q as int))
        },
        r matches Err(e) ==> sp_data_block(b@, p as int, num_vars as int, old(zone).view())
            == Err::<(Seq<TecDataType>, BlockView, int), PltParseError>(e),
        p + 4 <= b@.len() && le_u32_at(b@, p as int) != ZONE_TAG ==> r == Err::<
            (DataBlock, usize),
            PltParseError,
        >(PltParseError::WrongDataTag),
{
    let ghost zv = zone.view();
    let (tag, q) = read_u32(b, p)?;
    if tag != ZONE_TAG {
        return Err(PltParseError::WrongDataTag);
    }
    let (codes, q) = read_i32_array(b, q, num_vars)?;
    let mut types: Vec<TecDataType> = Vec::new();
    while types.len() < num_vars
        invariant
            p + 4 <= b@.len() && le_u32_at(b@, p as int) == ZONE_TAG,
            codes@.len() == num_vars,
            p + 4 + 4 * num_vars <= b@.len(),
            forall|i: int| 0 <= i < num_vars ==> #[trigger] codes@[i] == le_i32_at(b@, p + 4 + 4 * i),
            types@.len() <= num_vars,
            forall|i: int|
                0 <= i < types@.len() ==> 1 <= le_i32_at(b@, p + 4 + 4 * i) <= 6 && #[trigger] types@[i]
                    == data_type_of(le_i32_at(b@, p + 4 + 4 * i)),
        decreases num_vars - types@.len(),
    {
        let code = codes[types.len()];
        match TecDataType::from_code(code) {
            Some(t) => {
                assert(data_type_of(t.code()) == t);
                types.push(t);
            },
            None => {
                let ghost i = types@.len() as int;
                assert(!(1 <= le_i32_at(b@, p + 4 + 4 * i) <= 6));
                assert(exists|i: int|
                    0 <= i < num_vars && !(1 <= #[trigger] le_i32_at(b@, p + 4 + 4 * i) <= 6));
                return Err(PltParseError::InvalidCode);
            },
        }
    }
    assert(!exists|i: int|
        0 <= i < num_vars && !(1 <= #[trigger] le_i32_at(b@, p + 4 + 4 * i) <= 6)) by {
        assert forall|i: int| 0 <= i < num_vars implies 1 <= #[trigger] le_i32_at(
            b@,
            p + 4 + 4 * i,
        ) <= 6 by {
            assert(types@[i] == data_type_of(le_i32_at(b@, p + 4 + 4 * i)));
        }
    }
    assert(types@ =~= Seq::new(
        num_vars as nat,
        |i: int| data_type_of(le_i32_at(b@, p + 4 + 4 * i)),
    ));
    let ghost tv = types@;
    *zone.data_types_mut() = Some(types);
    let ghost z0 = *zone;
    let ghost zt = ZoneView { types: Some(tv), ..zv };
    assert(z0.wf() && z0.locs() == old(zone).locs());
    assert(z0.view() == zt);
    let (has_passive, q) = read_i32(b, q)?;
    if has_passive != 0 {
        return Err(PltParseError::NotSupportedFeature);
    }
    let (has_share, q) = read_i32(b, q)?;
    if has_share != 0 {
        return Err(PltParseError::NotSupportedFeature);
    }
    let (share_connectivity, q) = read_i32(b, q)?;
    let ghost q_mm = q as int;
    let mut min_max: Vec<(u64, u64)> = Vec::new();
    let mut q = q;
    while min_max.len() < num_vars
        invariant
            p + 4 <= b@.len() && le_u32_at(b@, p as int) == ZONE_TAG,
            p < q_mm,
            p + 4 + 4 * num_vars + 12 == q_mm,
            q_mm <= b@.len(),
            sp_types(b@, p + 4, num_vars as int) == Ok::<(Seq<TecDataType>, int), PltParseError>(
                (tv, p + 4 + 4 * num_vars),
            ),
            le_i32_at(b@, q_mm - 12) == 0,
            le_i32_at(b@, q_mm - 8) == 0,
            le_i32_at(b@, q_mm - 4) == share_connectivity,
            zt == (ZoneView { types: Some(tv), ..zv }),
            q == q_mm + 16 * min_max@.len(),
            q <= b@.len(),
            min_max@.len() <= num_vars,
            forall|i: int|
                0 <= i < min_max@.len() ==> #[trigger] min_max@[i] == (
                    le_u64_at(b@, q_mm + 16 * i) as u64,
                    le_u64_at(b@, q_mm + 16 * i + 8) as u64,
                ),
        decreases num_vars - min_max@.len(),
    {
        let (lo, next) = read_u64(b, q)?;
        let (hi, next) = read_u64(b, next)?;
        min_max.push((lo, hi));
        q = next;
    }
    assert(min_max@ =~= Seq::new(
        num_vars as nat,
        |i: int| (le_u64_at(b@, q_mm + 16 * i) as u64, le_u64_at(b@, q_mm + 16 * i + 8) as u64),
    ));
    let ghost q_vars = q as int;
    let mut data: Vec<(usize, TecData)> = Vec::new();
    assert(Seq::new(data@.len(), |i: int| data@[i].1.view()) =~= Seq::<DataView>::empty());
    while data.len() < num_vars
        invariant
            p + 4 <= b@.len() && le_u32_at(b@, p as int) == ZONE_TAG,
            p + 4 + 4 * num_vars + 12 == q_mm,
            q_mm <= b@.len(),
            sp_types(b@, p + 4, num_vars as int) == Ok::<(Seq<TecDataType>, int), PltParseError>(
                (tv, p + 4 + 4 * num_vars),
            ),
            le_i32_at(b@, q_mm - 12) == 0,
            le_i32_at(b@, q_mm - 8) == 0,
            le_i32_at(b@, q_mm - 4) == share_connectivity,
            zt == (ZoneView { types: Some(tv), ..zv }),
            q_mm + 16 * num_vars == q_vars,
            sp_min_max(b@, q_mm, num_vars as int) == Ok::<(Seq<(u64, u64)>, int), PltParseError>(
                (min_max@, q_vars),
            ),
            *zone == z0,
            zv == old(zone).view(),
            z0.view() == zt,
            zt.locs == z0.locs(),
            zt.types == Some(tv),
            tv.len() == num_vars,
            z0.wf(),
            z0.locs().len() == num_vars,
            z0.types() matches Some(t) && t@ == tv,
            p < q_vars <= q <= b@.len(),
            data@.len() <= num_vars,
            forall|v: int|
                0 <= v < data@.len() ==> {
                    &&& (#[trigger] data@[v]).0 == v
                    &&& data@[v].1.spec_len() == z0.count_at(z0.locs()[v])
                    &&& data@[v].1.has_type(z0.types()->Some_0@[v])
                },
            sp_vars(b@, q_vars, zt, tv, data@.len() as int) == Ok::<
                (Seq<DataView>, int),
                PltParseError,
            >((Seq::new(data@.len(), |i: int| data@[i].1.view()), q as int)),
        decreases num_vars - data@.len(),
    {
        let n = data.len();
        let loc = zone.var_locs()[n];
        let ty = match zone.data_types() {
            Some(t) => t[n],
            None => {
                return Err(PltParseError::InvalidCode);
            },
        };
        let ghost before = Seq::new(data@.len(), |i: int| data@[i].1.view());
        match read_variable(b, q, zone, loc, ty) {
            Ok((d, next)) => {
                data.push((n, d));
                q = next;
                assert(Seq::new(data@.len(), |i: int| data@[i].1.view()) =~= before.push(d.view()));
            },
            Err(e) => {
                proof {
                    assert(loc == zt.locs[n as int]);
                    assert(ty == tv[n as int]);
                    assert(sp_variable(b@, q as int, zt, loc, ty) == Err::<(DataView, int), PltParseError>(e));
                    assert(sp_vars(b@, q_vars, zt, tv, n + 1) == Err::<(Seq<DataView>, int), PltParseError>(e));
                    lemma_vars_err(b@, q_vars, zt, tv, n + 1, num_vars as int);
                    assert(sp_vars(b@, q_vars, zt, tv, num_vars as int) == Err::<(Seq<DataView>, int), PltParseError>(e));
                }
                return Err(e);
            },
        }
    }
    let connectivity = match zone {
        TecZone::Ordered(_) => None,
        TecZone::ClassicFE(z) => {
            if share_connectivity != -1 {
                return Err(PltParseError::NotSupportedFeature);
            }
            let (c, next) = read_i32_array(b, q, z.num_connections())?;
            q = next;
            assert(c@ =~= Seq::new(
                (z.cells * z.zone_type.nodes_per_element()) as nat,
                |i: int| le_i32_at(b@, (q - 4 * c@.len()) + 4 * i) as i32,
            ));
            Some(TecData::I32(c))
        },
    };
    let blk = DataBlock { data, connectivity, min_max };
    assert(blk.view().data =~= Seq::new(blk.data@.len(), |i: int| blk.data@[i].1.view()));
    Ok((blk, q))
}

/// The five bytes `#!TDV` that open every binary file.
pub open spec fn is_magic(s: Seq<u8>) -> bool {
    s.len() >= 5 && s[0] == 35 && s[1] == 33 && s[2] == 84 && s[3] == 68 && s[4] == 86
}

pub open spec fn is_digit(c: u8) -> bool {
    48 <= c <= 57
}

/// The three ASCII bytes that follow the magic tag, read as a decimal
/// integer: three digits, or a sign and two digits.
pub open spec fn version_in(s: Seq<u8>) -> int {
    let low = (s[6] - 48) * 10 + (s[7] - 48);
    if s[5] == 45 {
        -low
    } else if s[5] == 43 {
        low
    } else {
        (s[5] - 48) * 100 + low
    }
}

/// Whether the three bytes after the magic tag spell a decimal integer.
pub open spec fn has_version_number(s: Seq<u8>) -> bool {
    s.len() >= 8 && (is_digit(s[5]) || s[5] == 43 || s[5] == 45) && is_digit(s[6]) && is_digit(
        s[7],
    )
}

/// The layout's reading of `n` variable names starting at `p`.
pub open spec fn sp_names(s: Seq<u8>, p: int, n: int) -> Result<(Seq<Seq<char>>, int), PltParseError>
    decreases n,
{
    if n <= 0 {
        Ok((seq![], p))
    } else {
        match sp_names(s, p, n - 1) {
            Err(e) => Err(e),
            Ok((names, q)) => match sp_string(s, q) {
                Err(e) => Err(e),
                Ok((t, q)) => Ok((names.push(t), q)),
            },
        }
    }
}

/// The data blocks of the first `n` zones of `zs`, read in order from `p`:
/// each zone takes its 1-based position as id and the element types its
/// block declares.
pub open spec fn sp_data_blocks(s: Seq<u8>, p: int, nv: int, zs: Seq<ZoneView>, n: int) -> Result<
    (Seq<ZoneView>, Seq<BlockView>, int),
    PltParseError,
>
    decreases n,
{
    if n <= 0 {
        Ok((seq![], seq![], p))
    } else {
        match sp_data_blocks(s, p, nv, zs, n - 1) {
            Err(e) => Err(e),
            Ok((done, blocks, q)) => {
                let z = ZoneView { id: n, ..zs[n - 1] };
                match sp_data_block(s, q, nv, z) {
                    Err(e) => Err(e),
                    Ok((types, blk, q)) => Ok(
                        (done.push(ZoneView { types: Some(types), ..z }), blocks.push(blk), q),
                    ),
                }
            },
        }
    }
}

/// Mathematical content of a decoded binary file.
pub struct PltView {
    pub version: int,
    pub title: Seq<char>,
    pub num_variables: int,
    pub var_names: Seq<Seq<char>>,
    pub zones: Seq<ZoneView>,
    pub blocks: Seq<BlockView>,
}

/// The layout's reading of a whole binary file.
pub open spec fn sp_decode(s: Seq<u8>) -> Result<PltView, PltParseError> {
    if !is_magic(s) {
        Err(PltParseError::WrongMagic)
    } else if s.len() < 8 {
        Err(PltParseError::HeaderVersionMissing)
    } else if !has_version_number(s) {
        Err(PltParseError::Utf8Error)
    } else if version_in(s) <= MIN_VERSION {
        Err(PltParseError::VersionMismatch { min: MIN_VERSION, current: version_in(s) as i32 })
    } else {
        match sp_i32(s, 8) {
            Err(e) => Err(e),
            Ok((order, p)) => if order != 1 {
                Err(PltParseError::BadSentinel)
            } else {
                match sp_i32(s, p) {
                    Err(e) => Err(e),
                    Ok((file_type, p)) => if file_type < 0 || file_type > 2 {
                        Err(PltParseError::InvalidCode)
                    } else {
                        match sp_string(s, p) {
                            Err(e) => Err(e),
                            Ok((title, p)) => match sp_i32(s, p) {
                                Err(e) => Err(e),
                                Ok((nv, p)) => if nv < 0 {
                                    Err(PltParseError::InvalidSize)
                                } else {
                                    sp_decode_body(s, p, version_in(s), title, nv)
                                },
                            },
                        }
                    },
                }
            },
        }
    }
}

/// The rest of a binary file from its variable names on.
pub open spec fn sp_decode_body(s: Seq<u8>, p: int, version: int, title: Seq<char>, nv: int) -> Result<
    PltView,
    PltParseError,
> {
    match sp_names(s, p, nv) {
        Err(e) => Err(e),
        Ok((names, p)) => match sp_header_blocks(s, p, nv) {
            Err(e) => Err(e),
            Ok((zs, p)) => if !(0 <= p && p + 4 <= s.len()) {
                Err(PltParseError::UnexpectedEnd)
            } else if le_u32_at(s, p) != END_OF_HEADER_TAG {
                Err(PltParseError::EndOfHeader)
            } else if zs.len() >= 0x7fff_ffff {
                Err(PltParseError::InvalidSize)
            } else {
                match sp_data_blocks(s, p + 4, nv, zs, zs.len() as int) {
                    Err(e) => Err(e),
                    Ok((zones, blocks, _)) => Ok(
                        PltView { version, title, num_variables: nv, var_names: names, zones, blocks },
                    ),
                }
            },
        },
    }
}

pub open spec fn zone_views(zs: Seq<TecZone>) -> Seq<ZoneView> {
    Seq::new(zs.len(), |i: int| zs[i].view())
}

pub open spec fn block_views(bs: Seq<DataBlock>) -> Seq<BlockView> {
    Seq::new(bs.len(), |i: int| bs[i].view())
}

pub open spec fn name_views(ns: Seq<String>) -> Seq<Seq<char>> {
    Seq::new(ns.len(), |i: int| ns[i]@)
}

pub open spec fn plt_result(r: Result<PltFormat, PltParseError>) -> Result<PltView, PltParseError> {
    match r {
        Ok(f) => Ok(f.view()),
        Err(e) => Err(e),
    }
}

proof fn lemma_names_err(s: Seq<u8>, p: int, k: int, m: int)
    requires
        0 < k <= m,
        sp_names(s, p, k) is Err,
    ensures
        sp_names(s, p, m) == sp_names(s, p, k),
    decreases m - k,
{
    if k < m {
        lemma_names_err(s, p, k, m - 1);
    }
}

proof fn lemma_blocks_err(s: Seq<u8>, p: int, nv: int, zs: Seq<ZoneView>, k: int, m: int)
    requires
        0 < k <= m,
        sp_data_blocks(s, p, nv, zs, k) is Err,
    ensures
        sp_data_blocks(s, p, nv, zs, m) == sp_data_blocks(s, p, nv, zs, k),
    decreases m - k,
{
    if k < m {
        lemma_blocks_err(s, p, nv, zs, k, m - 1);
    }
}

proof fn lemma_prepend_assoc(a: Seq<ZoneView>, b: Seq<ZoneView>, r: Result<(Seq<ZoneView>, int), PltParseError>)
    ensures
        prepend_zones(a, prepend_zones(b, r)) == prepend_zones(a + b, r),
{
    if let Ok((zs, q)) = r {
        assert((a + b) + zs =~= a + (b + zs));
    }
}

/// Reads `n` variable names starting at `p`.
fn read_names(b: &[u8], p: usize, n: usize) -> (r: Result<(Vec<String>, usize), PltParseError>)
    requires
        p <= b@.len(),
    ensures
        match r {
            Ok((v, q)) => v@.len() == n && p <= q <= b@.len() && sp_names(b@, p as int, n as int)
                == Ok::<(Seq<Seq<char>>, int), PltParseError>((name_views(v@), q as int)),
            Err(e) => sp_names(b@, p as int, n as int) == Err::<(Seq<Seq<char>>, int), PltParseError>(
                e,
            ),
        },
{
    let mut names: Vec<String> = Vec::new();
    let mut q = p;
    assert(name_views(names@) =~= Seq::<Seq<char>>::empty());
    while names.len() < n
        invariant
            p <= q <= b@.len(),
            names@.len() <= n,
            sp_names(b@, p as int, names@.len() as int) == Ok::<(Seq<Seq<char>>, int), PltParseError>(
                (name_views(names@), q as int),
            ),
        decreases n - names@.len(),
    {
        let ghost k = names@.len() as int;
        match read_string(b, q) {
            Ok((name, next)) => {
                let ghost before = name_views(names@);
                names.push(name);
                assert(name_views(names@) =~= before.push(name@));
                q = next;
            },
            Err(e) => {
                proof {
                    assert(sp_names(b@, p as int, k + 1) == Err::<(Seq<Seq<char>>, int), PltParseError>(
                        e,
                    ));
                    lemma_names_err(b@, p as int, k + 1, n as int);
                }
                return Err(e);
            },
        }
    }
    Ok((names, q))
}

/// Reads header blocks from `p` up to the end-of-header tag, keeping the zones.
fn read_header_blocks(b: &[u8], p: usize, num_vars: usize) -> (r: Result<
    (Vec<TecZone>, usize),
    PltParseError,
>)
    requires
        p <= b@.len(),
    ensures
        match r {
            Ok((zs, q)) => {
                &&& p <= q <= b@.len()
                &&& sp_header_blocks(b@, p as int, num_vars as int) == Ok::<
                    (Seq<ZoneView>, int),
                    PltParseError,
                >((zone_views(zs@), q as int))
                &&& forall|z: int|
                    0 <= z < zs@.len() ==> (#[trigger] zs@[z]).wf() && zs@[z].locs().len()
                        == num_vars
            },
            Err(e) => sp_header_blocks(b@, p as int, num_vars as int) == Err::<
                (Seq<ZoneView>, int),
                PltParseError,
            >(e),
        },
{
    let mut zones: Vec<TecZone> = Vec::new();
    let mut q = p;
    assert(zone_views(zones@) =~= Seq::<ZoneView>::empty());
    assert(prepend_zones(seq![], sp_header_blocks(b@, p as int, num_vars as int))
        == sp_header_blocks(b@, p as int, num_vars as int)) by {
        if let Ok((zs, _)) = sp_header_blocks(b@, p as int, num_vars as int) {
            assert(Seq::<ZoneView>::empty() + zs =~= zs);
        }
    }
    loop
        invariant
            p <= q <= b@.len(),
            sp_header_blocks(b@, p as int, num_vars as int) == prepend_zones(
                zone_views(zones@),
                sp_header_blocks(b@, q as int, num_vars as int),
            ),
            forall|z: int|
                0 <= z < zones@.len() ==> (#[trigger] zones@[z]).wf() && zones@[z].locs().len()
                    == num_vars,
        decreases b@.len() - q,
    {
        let ghost before = zone_views(zones@);
        match parse_header_block(b, q, num_vars) {
            Ok((HeaderBlock::Zone(zone), next)) => {
                proof {
                    lemma_prepend_assoc(
                        before,
                        seq![zone.view()],
                        sp_header_blocks(b@, next as int, num_vars as int),
                    );
                }
                zones.push(zone);
                assert(zone_views(zones@) =~= before + seq![zone.view()]);
                q = next;
            },
            Ok((_, next)) => {
                proof {
                    lemma_prepend_assoc(
                        before,
                        seq![],
                        sp_header_blocks(b@, next as int, num_vars as int),
                    );
                    assert(before + seq![] =~= before);
                }
                q = next;
            },
            Err(PltParseError::EndOfHeader) => {
                assert(before + seq![] =~= before);
                return Ok((zones, q));
            },
            Err(e) => {
                return Err(e);
            },
        }
    }
}

/// Reads the data block of each zone in order from `p`, giving each zone its
/// 1-based position as id and the element types its block declares.
fn read_data_blocks(b: &[u8], p: usize, num_vars: usize, zones: Vec<TecZone>) -> (r: Result<
    (Vec<TecZone>, Vec<DataBlock>),
    PltParseError,
>)
    requires
        p <= b@.len(),
        zones@.len() < 0x7fff_ffff,
        forall|z: int|
            0 <= z < zones@.len() ==> (#[trigger] zones@[z]).wf() && zones@[z].locs().len()
                == num_vars,
    ensures
        match r {
            Ok((done, blocks)) => {
                &&& done@.len() == zones@.len()
                &&& blocks@.len() == done@.len()
                &&& forall|z: int|
                    0 <= z < done@.len() ==> {
                        &&& (#[trigger] done@[z]).wf()
                        &&& done@[z].locs().len() == num_vars
                        &&& blocks@[z].matches_zone(&done@[z])
                        &&& done@[z].spec_id() == z + 1
                    }
                &&& sp_data_blocks(b@, p as int, num_vars as int, zone_views(zones@), zones@.len() as int)
                    matches Ok((zv, bv, _)) && zv == zone_views(done@) && bv == block_views(blocks@)
            },
            Err(e) => sp_data_blocks(b@, p as int, num_vars as int, zone_views(zones@), zones@.len() as int)
                == Err::<(Seq<ZoneView>, Seq<BlockView>, int), PltParseError>(e),
        },
{
    let ghost hz = zone_views(zones@);
    let total = zones.len();
    let mut pending = zones;
    let mut done: Vec<TecZone> = Vec::new();
    let mut blocks: Vec<DataBlock> = Vec::new();
    let mut q = p;
    assert(zone_views(done@) =~= Seq::<ZoneView>::empty());
    assert(block_views(blocks@) =~= Seq::<BlockView>::empty());
    while pending.len() > 0
        invariant
            p <= q <= b@.len(),
            hz == zone_views(zones@),
            hz.len() == total,
            total < 0x7fff_ffff,
            done@.len() + pending@.len() == total,
            blocks@.len() == done@.len(),
            forall|z: int|
                0 <= z < pending@.len() ==> (#[trigger] pending@[z]).wf() && pending@[z].locs().len()
                    == num_vars && pending@[z].view() == hz[done@.len() + z],
            forall|z: int|
                0 <= z < done@.len() ==> {
                    &&& (#[trigger] done@[z]).wf()
                    &&& done@[z].locs().len() == num_vars
                    &&& blocks@[z].matches_zone(&done@[z])
                    &&& done@[z].spec_id() == z + 1
                },
            sp_data_blocks(b@, p as int, num_vars as int, hz, done@.len() as int) == Ok::<
                (Seq<ZoneView>, Seq<BlockView>, int),
                PltParseError,
            >((zone_views(done@), block_views(blocks@), q as int)),
        decreases pending@.len(),
    {
        let ghost n = done@.len() as int;
        let ghost before_pending = pending@;
        let mut zone = pending.remove(0);
        assert(zone.view() == hz[n]);
        let id = (done.len() + 1) as i32;
        match &mut zone {
            TecZone::Ordered(z) => z.id = id,
            TecZone::ClassicFE(z) => z.id = id,
        }
        assert(zone.view() == (ZoneView { id: n + 1, ..hz[n] }));
        assert forall|z: int| 0 <= z < pending@.len() implies (#[trigger] pending@[z]).view()
            == hz[done@.len() + 1 + z] by {
            assert(pending@[z] == before_pending[z + 1]);
        }
        match parse_data_block(b, q, num_vars, &mut zone) {
            Ok((blk, next)) => {
                let ghost dv = zone_views(done@);
                let ghost bv = block_views(blocks@);
                done.push(zone);
                blocks.push(blk);
                assert(zone_views(done@) =~= dv.push(zone.view()));
                assert(block_views(blocks@) =~= bv.push(blk.view()));
                q = next;
            },
            Err(e) => {
                proof {
                    assert(sp_data_blocks(b@, p as int, num_vars as int, hz, n + 1) == Err::<
                        (Seq<ZoneView>, Seq<BlockView>, int),
                        PltParseError,
                    >(e));
                    lemma_blocks_err(b@, p as int, num_vars as int, hz, n + 1, total as int);
                }
                return Err(e);
            },
        }
    }
    Ok((done, blocks))
}

/// A decoded binary file.
#[derive(Clone, Debug, PartialEq)]
pub struct PltFormat {
    pub version: i32,
    pub dataset: Dataset,
    pub zones: Vec<TecZone>,
    pub data_blocks: Vec<DataBlock>,
}

impl PltFormat {
    pub open spec fn view(&self) -> PltView {
        PltView {
            version: self.version as int,
            title: self.dataset.title@,
            num_variables: self.dataset.num_variables as int,
            var_names: name_views(self.dataset.var_names@),
            zones: zone_views(self.zones@),
            blocks: block_views(self.data_blocks@),
        }
    }

    pub open spec fn wf(&self) -> bool {
        &&& self.version > MIN_VERSION
        &&& consistent(&self.dataset, self.zones@, self.data_blocks@)
    }

    /// Decodes a whole binary file. Any short read, bad tag or unsupported
    /// construct aborts the decode.
    #[verifier::rlimit(40)]
    pub fn decode(b: &[u8]) -> (r: Result<PltFormat, PltParseError>)
        ensures
            plt_result(r) == sp_decode(b@),
            r matches Ok(f) ==> f.wf() && f.version == version_in(b@),
            !is_magic(b@) ==> r == Err::<PltFormat, PltParseError>(PltParseError::WrongMagic),
            is_magic(b@) && b@.len() < 8 ==> r == Err::<PltFormat, PltParseError>(
                PltParseError::HeaderVersionMissing,
            ),
            is_magic(b@) && b@.len() >= 8 && !has_version_number(b@) ==> r == Err::<
                PltFormat,
                PltParseError,
            >(PltParseError::Utf8Error),
            is_magic(b@) && has_version_number(b@) && version_in(b@) <= MIN_VERSION ==> r == Err::<
                PltFormat,
                PltParseError,
            >(PltParseError::VersionMismatch { min: MIN_VERSION, current: version_in(b@) as i32 }),
    {
        if b.len() < 5 || b[0] != 35 || b[1] != 33 || b[2] != 84 || b[3] != 68 || b[4] != 86 {
            return Err(PltParseError::WrongMagic);
        }
        if b.len() < 8 {
            return Err(PltParseError::HeaderVersionMissing);
        }
        let signed = b[5] == 43 || b[5] == 45;
        if !((b[5] >= 48 && b[5] <= 57) || signed) || b[6] < 48 || b[6] > 57 || b[7] < 48 || b[7]
            > 57 {
            return Err(PltParseError::Utf8Error);
        }
        let low: i32 = (b[6] - 48) as i32 * 10 + (b[7] - 48) as i32;
        let version: i32 = if b[5] == 45 {
            -low
        } else if b[5] == 43 {
            low
        } else {
            (b[5] - 48) as i32 * 100 + low
        };
        if version <= MIN_VERSION {
            return Err(PltParseError::VersionMismatch { min: MIN_VERSION, current: version });
        }
        let (byte_order, p) = read_i32(b, 8)?;
        if byte_order != 1 {
            return Err(PltParseError::BadSentinel);
        }
        let (file_type, p) = read_i32(b, p)?;
        if FileType::from_code(file_type).is_none() {
            return Err(PltParseError::InvalidCode);
        }
        let (title, p) = read_string(b, p)?;
        let (nv, p) = read_i32(b, p)?;
        if nv < 0 {
            return Err(PltParseError::InvalidSize);
        }
        assert(sp_decode(b@) == sp_decode_body(b@, p as int, version as int, title@, nv as int));
        let num_vars = nv as usize;
        let (var_names, p) = read_names(b, p, num_vars)?;
        let (zones, p) = read_header_blocks(b, p, num_vars)?;
        let ghost hz = zone_views(zones@);
        let (end, p) = read_u32(b, p)?;
        if end != END_OF_HEADER_TAG {
            return Err(PltParseError::EndOfHeader);
        }
        if zones.len() >= 0x7fff_ffff {
            return Err(PltParseError::InvalidSize);
        }
        let (done, blocks) = read_data_blocks(b, p, num_vars, zones)?;
        let dataset = Dataset { num_variables: nv, num_zones: done.len() as i32, title, var_names };
        let f = PltFormat { version, dataset, zones: done, data_blocks: blocks };
        Ok(f)
    }
}

} // verus!
