use crate::common::{string_from_utf8, DataBlock, Dataset, ParseError, TecData, TecZone, TecioError};
use crate::formats::{sp_dat, sp_decode, DatFormat, DatView, PltFormat, PltParseError, PltView};
use vstd::string::StringSliceAdditionalSpecFns;
use vstd::prelude::*;
use vstd::utf8::{decode_utf8_encode_utf8, valid_utf8};

verus! {

/// The decoder that produced a reader's contents.
pub enum InnerReader {
    PltReader(PltFormat),
    DatReader(DatFormat),
}

/// Uniform query surface over a decoded file. Zone and variable ids are
/// 1-based, as in the file formats.
pub struct TecReader {
    pub inner: InnerReader,
}

/// Whether two strings hold the same characters.
fn same_text(a: &str, b: &str) -> (r: bool)
    ensures
        r == (a@ == b@),
{
    String::from_str(a) == String::from_str(b)
}

impl TecReader {
    pub open spec fn wf(&self) -> bool {
        match &self.inner {
            InnerReader::PltReader(f) => f.wf(),
            InnerReader::DatReader(f) => f.wf(),
        }
    }

    pub open spec fn spec_dataset(&self) -> Dataset {
        match &self.inner {
            InnerReader::PltReader(f) => f.dataset,
            InnerReader::DatReader(f) => f.dataset,
        }
    }

    pub open spec fn spec_zones(&self) -> Seq<TecZone> {
        match &self.inner {
            InnerReader::PltReader(f) => f.zones@,
            InnerReader::DatReader(f) => f.zones@,
        }
    }

    pub open spec fn spec_blocks(&self) -> Seq<DataBlock> {
        match &self.inner {
            InnerReader::PltReader(f) => f.data_blocks@,
            InnerReader::DatReader(f) => f.data_blocks@,
        }
    }

    /// Decodes `bytes` with the decoder that the file extension names:
    /// `plt` for the binary layout, `dat` for the ASCII grammar. The
    /// subzone formats `szplt` and `szplt_geom` need the vendor library.
    pub fn from_bytes(extension: &str, bytes: &[u8]) -> (r: Result<TecReader, TecioError>)
        ensures
            r matches Ok(t) ==> t.wf(),
            extension@ != "plt"@ && extension@ != "dat"@ && extension@ != "szplt"@ && extension@
                != "szplt_geom"@ ==> r matches Err(TecioError::WrongFileExtension),
            (extension@ == "szplt"@ || extension@ == "szplt_geom"@) ==> r matches Err(
                TecioError::FFIError,
            ),
            extension@ == "dat"@ && !valid_utf8(bytes@) ==> r matches Err(
                TecioError::ParseError(ParseError::Utf8Error),
            ),
            extension@ == "plt"@ ==> (r matches Ok(t) ==> t.inner is PltReader),
            extension@ == "plt"@ ==> (r is Ok <==> sp_decode(bytes@) is Ok),
            extension@ == "plt"@ ==> (r matches Ok(t) ==> (t.inner matches InnerReader::PltReader(f)
                && sp_decode(bytes@) == Ok::<PltView, PltParseError>(f.view()))),
            extension@ == "dat"@ ==> (r matches Ok(t) ==> t.inner is DatReader),
            extension@ == "dat"@ && valid_utf8(bytes@) ==> (r is Ok <==> sp_dat(bytes@) is Ok),
            extension@ == "dat"@ ==> (r matches Ok(t) ==> (t.inner matches InnerReader::DatReader(f)
                && sp_dat(bytes@) == Ok::<DatView, ParseError>(f.view()))),
    {
        proof {
            reveal_strlit("plt");
            reveal_strlit("dat");
            reveal_strlit("szplt");
            reveal_strlit("szplt_geom");
            assert("plt"@.len() == 3 && "dat"@.len() == 3 && "szplt"@.len() == 5
                && "szplt_geom"@.len() == 10);
            assert("plt"@[0] != "dat"@[0]);
        }
        if same_text(extension, "plt") {
            match PltFormat::decode(bytes) {
                Ok(f) => Ok(TecReader { inner: InnerReader::PltReader(f) }),
                Err(e) => Err(TecioError::PltParseError(e)),
            }
        } else if same_text(extension, "dat") {
            let text = match string_from_utf8(crate::common::copy_vec_from_slice(bytes)) {
                Some(t) => t,
                None => {
                    return Err(TecioError::ParseError(ParseError::Utf8Error));
                },
            };
            proof {
                decode_utf8_encode_utf8(bytes@);
            }
            let t = text.as_str();
            assert(t.spec_bytes() == bytes@);
            match DatFormat::decode(t) {
                Ok(f) => Ok(TecReader { inner: InnerReader::DatReader(f) }),
                Err(e) => Err(TecioError::ParseError(e)),
            }
        } else if same_text(extension, "szplt") || same_text(extension, "szplt_geom") {
            Err(TecioError::FFIError)
        } else {
            Err(TecioError::WrongFileExtension)
        }
    }

    pub fn dataset(&self) -> (r: &Dataset)
        ensures
            *r == self.spec_dataset(),
    {
        match &self.inner {
            InnerReader::PltReader(plt) => &plt.dataset,
            InnerReader::DatReader(dat) => &dat.dataset,
        }
    }

    pub fn zones(&self) -> (r: &[TecZone])
        ensures
            r@ == self.spec_zones(),
    {
        match &self.inner {
            InnerReader::PltReader(plt) => plt.zones.as_slice(),
            InnerReader::DatReader(dat) => dat.zones.as_slice(),
        }
    }

    /// Values of variable `var_id` on zone `zone_id`, both 1-based.
    pub fn get_data(&self, zone_id: usize, var_id: usize) -> (r: Result<TecData, TecioError>)
        requires
            self.wf(),
            1 <= zone_id <= self.spec_zones().len(),
            1 <= var_id <= self.spec_dataset().num_variables,
        ensures
            r matches Ok(d) && d.equiv(&self.spec_blocks()[zone_id - 1].data@[var_id - 1].1),
    {
        let blk = match &self.inner {
            InnerReader::PltReader(plt) => &plt.data_blocks[zone_id - 1],
            InnerReader::DatReader(dat) => &dat.data_blocks[zone_id - 1],
        };
        assert(blk.matches_zone(&self.spec_zones()[zone_id - 1]));
        Ok(blk.get_data(var_id - 1))
    }

    /// The `(min, max)` pair that a binary file records for variable `var_id`
    /// on zone `zone_id`, as binary64 bit patterns; the ASCII format records none.
    pub fn get_var_min_max(&self, zone_id: usize, var_id: usize) -> (r: Option<(u64, u64)>)
        requires
            self.wf(),
            1 <= zone_id <= self.spec_zones().len(),
            1 <= var_id <= self.spec_dataset().num_variables,
        ensures
            self.inner is DatReader ==> r is None,
            self.inner is PltReader ==> r == Some(
                self.spec_blocks()[zone_id - 1].min_max@[var_id - 1],
            ),
    {
        match &self.inner {
            InnerReader::PltReader(plt) => {
                let blk = &plt.data_blocks[zone_id - 1];
                assert(blk.matches_zone(&plt.zones@[zone_id - 1]));
                Some(blk.min_max[var_id - 1])
            },
            InnerReader::DatReader(_) => None,
        }
    }

    /// Connectivity of zone `zone_id` (1-based): `None` for an ordered zone.
    pub fn get_connectivity(&self, zone_id: usize) -> (r: Result<Option<TecData>, TecioError>)
        requires
            self.wf(),
            1 <= zone_id <= self.spec_zones().len(),
        ensures
            r matches Ok(c) && match (c, self.spec_blocks()[zone_id - 1].connectivity) {
                (Some(a), Some(b)) => a.equiv(&b),
                (None, None) => true,
                _ => false,
            },
    {
        let blk = match &self.inner {
            InnerReader::PltReader(plt) => &plt.data_blocks[zone_id - 1],
            InnerReader::DatReader(dat) => &dat.data_blocks[zone_id - 1],
        };
        match &blk.connectivity {
            Some(c) => Ok(Some(c.get())),
            None => Ok(None),
        }
    }
}

} // verus!
