//! Decoders for Tecplot datasets: the binary `.plt` layout and the ASCII
//! `.dat` keyword grammar, both producing the same dataset / zone / data-block
//! model, with numeric payloads held in a tagged container.
mod common;
mod formats;
mod laws;
mod reader;

pub use common::{
    cell_extent, consistent, try_err, BlockView, ClassicFEZone, DataBlock, DataView, Dataset,
    FaceNeighborMode, FileFormat, FileType, OrderedZone, ParseError, ShapeView, TecData,
    TecDataType, TecZone, TecioError, ValueLocation, Zone, ZoneType, ZoneView,
};
pub use formats::{
    dat_result, parse_header_zone, plt_result, reindex_cells, resolve_var_location, sp_dat,
    sp_decode, DatFormat, DatHeader, DatView, Format, HeaderBlock, PltFormat, PltParseError,
    PltView, VarRange,
};
pub use laws::{
    lemma_connectivity_length, lemma_dat_decode_deterministic, lemma_decode_refuses_parent_zone,
    lemma_gather_cell,
    lemma_parent_zone_refused, lemma_plt_decode_deterministic, lemma_value_counts,
};
pub use reader::{InnerReader, TecReader};
