use crate::common::{cell_extent, consistent, DataBlock, Dataset, ParseError, TecData, TecZone, ZoneView};
use crate::formats::plt::{
    gather_source, has_version_number, is_magic, le_i32_at, le_u32_at, sp_header_block,
    sp_header_blocks, sp_header_zone, sp_i32, sp_names, sp_string, string_bytes, string_end,
    version_in, PltView, MIN_VERSION, ZONE_TAG,
};
use crate::formats::{dat_result, plt_result, sp_dat, sp_decode, DatFormat, PltFormat, PltParseError};
use vstd::arithmetic::div_mod::lemma_fundamental_div_mod_converse;
use vstd::prelude::*;
use vstd::utf8::{decode_utf8, valid_utf8};

verus! {

/// Every finite-element zone of a decoded file comes with a connectivity
/// array of exactly `cells * nodes_per_element` 32-bit entries, and every
/// ordered zone with none.
pub proof fn lemma_connectivity_length(
    ds: &Dataset,
    zones: Seq<TecZone>,
    blocks: Seq<DataBlock>,
    z: int,
)
    requires
        consistent(ds, zones, blocks),
        0 <= z < zones.len(),
    ensures
        zones[z] matches TecZone::ClassicFE(fe) ==> (blocks[z].connectivity matches Some(
            TecData::I32(c),
        ) && c@.len() == fe.cells * fe.zone_type.nodes_per_element()),
        zones[z] is Ordered ==> blocks[z].connectivity is None,
{
    assert(blocks[z].matches_zone(&zones[z]));
}

/// Every variable of every zone of a decoded file holds as many values as
/// its location asks: the node count for a nodal variable, the cell count
/// for a cell-centered one.
pub proof fn lemma_value_counts(
    ds: &Dataset,
    zones: Seq<TecZone>,
    blocks: Seq<DataBlock>,
    z: int,
    v: int,
)
    requires
        consistent(ds, zones, blocks),
        0 <= z < zones.len(),
        0 <= v < ds.num_variables,
    ensures
        blocks[z].data@[v].1.spec_len() == zones[z].count_at(zones[z].locs()[v]),
{
    assert(blocks[z].matches_zone(&zones[z]));
}

/// Decoding a binary buffer depends on its bytes alone: any two results that
/// `PltFormat::decode` may return for the same buffer hold the same content
/// (version, title, variable names, zones and data blocks), or fail with the
/// same error.
pub proof fn lemma_plt_decode_deterministic(
    b: Seq<u8>,
    r1: Result<PltFormat, PltParseError>,
    r2: Result<PltFormat, PltParseError>,
)
    requires
        plt_result(r1) == sp_decode(b),
        plt_result(r2) == sp_decode(b),
    ensures
        plt_result(r1) == plt_result(r2),
{
}

/// Decoding an ASCII text depends on its bytes alone: any two results that
/// `DatFormat::decode` may return for the same text hold the same content
/// (title, variable names, zones and data blocks), or fail with the same
/// error.
pub proof fn lemma_dat_decode_deterministic(
    text: Seq<u8>,
    r1: Result<DatFormat, ParseError>,
    r2: Result<DatFormat, ParseError>,
)
    requires
        dat_result(r1) == sp_dat(text),
        dat_result(r2) == sp_dat(text),
    ensures
        dat_result(r1) == dat_result(r2),
{
}

/// Cell `(i, j, k)` of an ordered zone with `ni` by `nj` nodes per plane,
/// numbered cell-major, takes its value from node `(i, j, k)` of the
/// node-sized array the file stores: index `i + j * ni + k * ni * nj`.
pub proof fn lemma_gather_cell(i: int, j: int, k: int, ni: int, nj: int)
    requires
        ni >= 1,
        nj >= 1,
        0 <= i < cell_extent(ni),
        0 <= j < cell_extent(nj),
        0 <= k,
    ensures
        gather_source(i + cell_extent(ni) * (j + cell_extent(nj) * k), ni, nj) == i + j * ni + k
            * ni * nj,
{
    let ci = cell_extent(ni);
    let cj = cell_extent(nj);
    let n = i + ci * (j + cj * k);
    assert(n == (j + cj * k) * ci + i) by (nonlinear_arith)
        requires
            n == i + ci * (j + cj * k),
    ;
    lemma_fundamental_div_mod_converse(n, ci, j + cj * k, i);
    assert(j + cj * k == k * cj + j) by (nonlinear_arith);
    lemma_fundamental_div_mod_converse(j + cj * k, cj, k, j);
    assert(ni * j + ni * nj * k == j * ni + k * ni * nj) by (nonlinear_arith);
}

/// A string read at `p` ends past its terminator, at or after `p + 4`.
proof fn lemma_string_end_after(s: Seq<u8>, p: int)
    requires
        0 <= p,
    ensures
        string_end(s, p) matches Some(e) ==> e >= p + 4,
    decreases s.len() - p,
{
    if p + 4 <= s.len() && le_u32_at(s, p) != 0 {
        lemma_string_end_after(s, p + 4);
    }
}

/// A binary zone header that refers to a parent zone (any reference other
/// than -1) is refused as unsupported, never read with a default.
pub proof fn lemma_parent_zone_refused(s: Seq<u8>, p: int, nv: int)
    requires
        0 <= p,
        p + 4 <= s.len(),
        le_u32_at(s, p) == ZONE_TAG,
        string_end(s, p + 4) matches Some(e) && e + 4 <= s.len() && le_i32_at(s, e) != -1,
        valid_utf8(string_bytes(s, p + 4)),
    ensures
        sp_header_zone(s, p, nv) == Err::<(ZoneView, int), PltParseError>(
            PltParseError::NotSupportedFeature,
        ),
{
    let e = string_end(s, p + 4)->Some_0;
    lemma_string_end_after(s, p + 4);
    assert(sp_string(s, p + 4) == Ok::<(Seq<char>, int), PltParseError>(
        (decode_utf8(string_bytes(s, p + 4)), e),
    ));
    assert(sp_i32(s, e) == Ok::<(int, int), PltParseError>((le_i32_at(s, e), e + 4)));
}

/// A binary file that is well formed up to its header blocks, and whose
/// first header block is a zone header referring to a parent zone, fails to
/// decode with the unsupported-feature error: no result, and no default
/// parent in its place.
pub proof fn lemma_decode_refuses_parent_zone(s: Seq<u8>, title_end: int, names_end: int)
    requires
        is_magic(s),
        has_version_number(s),
        version_in(s) > MIN_VERSION,
        sp_i32(s, 8) == Ok::<(int, int), PltParseError>((1, 12)),
        0 <= le_i32_at(s, 12) <= 2,
        16 <= s.len(),
        sp_string(s, 16) matches Ok((_, q)) && q == title_end,
        0 <= title_end,
        title_end + 4 <= s.len(),
        le_i32_at(s, title_end) >= 0,
        sp_names(s, title_end + 4, le_i32_at(s, title_end)) matches Ok((_, q)) && q == names_end,
        0 <= names_end,
        names_end + 4 <= s.len(),
        le_u32_at(s, names_end) == ZONE_TAG,
        string_end(s, names_end + 4) matches Some(e) && e + 4 <= s.len() && le_i32_at(s, e) != -1,
        valid_utf8(string_bytes(s, names_end + 4)),
    ensures
        sp_decode(s) == Err::<PltView, PltParseError>(PltParseError::NotSupportedFeature),
{
    let nv = le_i32_at(s, title_end);
    lemma_parent_zone_refused(s, names_end, nv);
    assert(sp_i32(s, 12) == Ok::<(int, int), PltParseError>((le_i32_at(s, 12), 16)));
    assert(sp_header_block(s, names_end, nv) == Err::<(Option<ZoneView>, int), PltParseError>(
        PltParseError::NotSupportedFeature,
    ));
    assert(sp_header_blocks(s, names_end, nv) == Err::<(Seq<ZoneView>, int), PltParseError>(
        PltParseError::NotSupportedFeature,
    ));
}

} // verus!
