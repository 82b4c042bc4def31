mod dat;
pub(crate) mod plt;

pub use dat::{dat_result, resolve_var_location, sp_dat, DatFormat, DatHeader, DatView, VarRange};
pub use plt::{
    parse_header_zone, plt_result, reindex_cells, sp_decode, HeaderBlock, PltFormat, PltParseError,
    PltView,
};

use vstd::prelude::*;

verus! {

/// Marker for the decoded forms of the supported file formats.
pub trait Format {}

impl Format for PltFormat {}

impl Format for DatFormat {}

} // verus!
