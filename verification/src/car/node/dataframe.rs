//! DataFrame nodes: chunks of a payload too large for one node.
//!
//! A payload is split into frames; the first frame carries the hash of the whole
//! payload, the index of each frame and the total number of frames, and `next`
//! links to the frames that follow.
//!
//! Schema (a CBOR tuple): `[kind, hash?, index?, total?, data, [&DataFrame]?]`.
use vstd::prelude::*;

use crate::car::node::{
    decode_fields, decoded_as, from_cbor_bytes, lemma_decode_fields_error,
    lemma_decode_fields_step, spec_check_kind, Kind, NodeError,
};
use crate::car::util::cbor::{
    array_of, bytes_of, cids_view, decode_cbor, get_array, get_array_opt, get_bytes, get_cids,
    get_int, get_int_opt, int_of, int_opt_of, lemma_get_cids_exact, spec_get_cid, spec_get_cids, CborValue,
};
use crate::car::util::link::Cid;

verus! {

/// A data frame node.
#[derive(Debug, Clone, PartialEq, Eq, Hash)]
pub struct DataFrame {
    pub hash: Option<u64>,
    pub index: Option<u64>,
    pub total: Option<u64>,
    pub data: Vec<u8>,
    pub next: Vec<Cid>,
}

/// The mathematical content of a data frame.
pub struct DataFrameView {
    pub hash: Option<u64>,
    pub index: Option<u64>,
    pub total: Option<u64>,
    pub data: Seq<u8>,
    pub next: Seq<Seq<u8>>,
}

impl View for DataFrame {
    type V = DataFrameView;

    open spec fn view(&self) -> DataFrameView {
        DataFrameView {
            hash: self.hash,
            index: self.index,
            total: self.total,
            data: self.data@,
            next: cids_view(self.next@),
        }
    }
}

/// The data frame that fields not yet read leave in place.
pub open spec fn dataframe_default() -> DataFrameView {
    DataFrameView { hash: None, index: None, total: None, data: Seq::empty(), next: Seq::empty() }
}

/// An optional integer field narrowed to `u64` as the decoder stores it.
pub open spec fn opt_u64(v: Option<i128>) -> Option<u64> {
    match v {
        Some(x) => Some(x as u64),
        None => None,
    }
}

/// What reading the optional `next` links gives: null means no links.
pub open spec fn spec_next_links(v: CborValue) -> Result<Seq<Seq<u8>>, NodeError> {
    match v {
        CborValue::Null => Ok(Seq::empty()),
        _ => match array_of(v) {
            Some(items) => spec_get_cids(items, "DataFrame::next[]"),
            None => Err(NodeError::InvalidCborType("DataFrame::next")),
        },
    }
}

/// Folds item `i` of a data-frame tuple into `acc`.
pub open spec fn dataframe_step(acc: DataFrameView, i: int, v: CborValue) -> Result<DataFrameView, NodeError> {
    if i == 0 {
        match int_of(v) {
            Some(k) => match spec_check_kind(k as u64, Kind::DataFrame) {
                Ok(_) => Ok(acc),
                Err(e) => Err(e),
            },
            None => Err(NodeError::InvalidCborType("DataFrame::kind")),
        }
    } else if i == 1 {
        match int_opt_of(v) {
            Some(x) => Ok(DataFrameView { hash: opt_u64(x), ..acc }),
            None => Err(NodeError::InvalidCborType("DataFrame::hash")),
        }
    } else if i == 2 {
        match int_opt_of(v) {
            Some(x) => Ok(DataFrameView { index: opt_u64(x), ..acc }),
            None => Err(NodeError::InvalidCborType("DataFrame::index")),
        }
    } else if i == 3 {
        match int_opt_of(v) {
            Some(x) => Ok(DataFrameView { total: opt_u64(x), ..acc }),
            None => Err(NodeError::InvalidCborType("DataFrame::total")),
        }
    } else if i == 4 {
        match bytes_of(v) {
            Some(b) => Ok(DataFrameView { data: b, ..acc }),
            None => Err(NodeError::InvalidCborType("DataFrame::data")),
        }
    } else if i == 5 {
        match spec_next_links(v) {
            Ok(c) => Ok(DataFrameView { next: c, ..acc }),
            Err(e) => Err(e),
        }
    } else {
        Err(NodeError::UnexpectedCborValues)
    }
}

pub open spec fn dataframe_fields() -> spec_fn(DataFrameView, int, CborValue) -> Result<DataFrameView, NodeError> {
    |acc: DataFrameView, i: int, v: CborValue| dataframe_step(acc, i, v)
}

/// What decoding `value` as a data frame gives.
pub open spec fn spec_dataframe(value: CborValue) -> Result<DataFrameView, NodeError> {
    match array_of(value) {
        Some(items) => decode_fields(items, dataframe_default(), dataframe_fields()),
        None => Err(NodeError::InvalidCborType("DataFrame")),
    }
}

pub open spec fn dataframe_decoder() -> spec_fn(CborValue) -> Result<DataFrameView, NodeError> {
    |v: CborValue| spec_dataframe(v)
}

/// Reads the optional `next` links of a data frame.
fn get_next_links(value: &CborValue) -> (res: Result<Vec<Cid>, NodeError>)
    ensures
        match (res, spec_next_links(*value)) {
            (Ok(c), Ok(s)) => cids_view(c@) == s,
            (Err(e), Err(f)) => e == f,
            _ => false,
        },
{
    match get_array_opt(value, "DataFrame::next")? {
        Some(items) => get_cids(items, "DataFrame::next[]"),
        None => {
            let out: Vec<Cid> = Vec::new();
            assert(cids_view(out@) =~= Seq::<Seq<u8>>::empty());
            Ok(out)
        },
    }
}

impl DataFrame {
    /// Decodes a data frame from the bytes of its CBOR tuple.
    pub fn try_from(value: &[u8]) -> (res: Result<DataFrame, NodeError>)
        ensures
            decoded_as(res, from_cbor_bytes(value@, dataframe_decoder())),
    {
        match decode_cbor(value) {
            Ok(v) => DataFrame::try_from_cbor(&v),
            Err(_) => Err(NodeError::InvalidCbor),
        }
    }

    /// Decodes a data frame from its CBOR tuple. Missing trailing fields keep their defaults.
    pub fn try_from_cbor(value: &CborValue) -> (res: Result<DataFrame, NodeError>)
        ensures
            decoded_as(res, spec_dataframe(*value)),
    {
        let items = get_array(value, "DataFrame")?;
        let mut node = DataFrame { hash: None, index: None, total: None, data: Vec::new(), next: Vec::new() };
        assert(node@ =~= dataframe_default()) by {
            assert(cids_view(node.next@) =~= Seq::<Seq<u8>>::empty());
        }
        let mut i: usize = 0;
        while i < items.len()
            invariant
                i <= items@.len(),
                array_of(*value) == Some(items@),
                decode_fields(items@.take(i as int), dataframe_default(), dataframe_fields()) == Ok::<DataFrameView, NodeError>(node@),
            decreases items@.len() - i,
        {
            proof {
                lemma_decode_fields_step(items@, i as int, dataframe_default(), dataframe_fields());
                if decode_fields(items@.take(i + 1), dataframe_default(), dataframe_fields()) is Err {
                    lemma_decode_fields_error(items@, i + 1, dataframe_default(), dataframe_fields());
                }
            }
            let v = &items[i];
            if i == 0 {
                let kind = get_int(v, "DataFrame::kind")?;
                NodeError::assert_invalid_kind(kind as u64, Kind::DataFrame)?;
            } else if i == 1 {
                node.hash = match get_int_opt(v, "DataFrame::hash")? {
                    Some(x) => Some(x as u64),
                    None => None,
                };
            } else if i == 2 {
                node.index = match get_int_opt(v, "DataFrame::index")? {
                    Some(x) => Some(x as u64),
                    None => None,
                };
            } else if i == 3 {
                node.total = match get_int_opt(v, "DataFrame::total")? {
                    Some(x) => Some(x as u64),
                    None => None,
                };
            } else if i == 4 {
                node.data = get_bytes(v, "DataFrame::data")?;
            } else if i == 5 {
                node.next = get_next_links(v)?;
            } else {
                return Err(NodeError::UnexpectedCborValues);
            }
            i += 1;
        }
        assert(items@.take(i as int) == items@);
        Ok(node)
    }
}

/// An optional integer item as a frame field: an integer narrowed to its low
/// 64 bits, or absent for null.
pub open spec fn opt_field(v: CborValue) -> Option<u64> {
    match v {
        CborValue::Integer(x) => Some(x as u64),
        _ => None,
    }
}

/// Whether `v` is an integer or null.
pub open spec fn is_int_or_null(v: CborValue) -> bool {
    v is Integer || v is Null
}

/// A data frame decodes from a tuple of at most six items: the data-frame kind
/// tag (6), then `hash`, `index` and `total` (each an integer, kept as its low
/// 64 bits, or null), the data bytes, and the `next` links (null, or an array
/// whose elements are the links, one per element and in order), each read from
/// its own item; an item left out keeps its default. A full tuple whose items
/// have the right types and whose links are all CIDs always decodes.
pub proof fn lemma_dataframe_fields(value: CborValue)
    ensures
        spec_dataframe(value) matches Ok(d) ==> {
            &&& array_of(value) is Some
            &&& ({
                let items = array_of(value)->Some_0;
                &&& items.len() <= 6
                &&& items.len() > 0 ==> (int_of(items[0]) matches Some(k) && k as u64 == 6)
                &&& items.len() > 1 ==> is_int_or_null(items[1]) && d.hash == opt_field(items[1])
                &&& items.len() > 2 ==> is_int_or_null(items[2]) && d.index == opt_field(items[2])
                &&& items.len() > 3 ==> is_int_or_null(items[3]) && d.total == opt_field(items[3])
                &&& items.len() <= 1 ==> d.hash is None
                &&& items.len() <= 2 ==> d.index is None
                &&& items.len() <= 3 ==> d.total is None
                &&& d.data == (if items.len() > 4 { bytes_of(items[4])->Some_0 } else { Seq::empty() })
                &&& items.len() > 4 ==> bytes_of(items[4]) is Some
                &&& items.len() > 5 ==> (
                    (items[5] is Null && d.next.len() == 0)
                    || (array_of(items[5]) matches Some(links) && d.next.len() == links.len()
                        && forall|j: int| 0 <= j < links.len()
                            ==> Ok::<Seq<u8>, NodeError>(#[trigger] d.next[j]) == spec_get_cid(links[j], "DataFrame::next[]")))
                &&& items.len() <= 5 ==> d.next.len() == 0
            })
        },
        (array_of(value) matches Some(items) && items.len() == 6 && int_of(items[0]) == Some(6i128)
            && is_int_or_null(items[1]) && is_int_or_null(items[2]) && is_int_or_null(items[3])
            && bytes_of(items[4]) is Some
            && (items[5] is Null || (array_of(items[5]) matches Some(links)
                && forall|j: int| 0 <= j < links.len() ==> (#[trigger] spec_get_cid(links[j], "DataFrame::next[]")) is Ok)))
            ==> spec_dataframe(value) is Ok,
{
    if let Some(items) = array_of(value) {
        let f = dataframe_fields();
        let d = dataframe_default();
        assert(items.take(0) =~= Seq::<CborValue>::empty());
        if items.len() > 0 { lemma_decode_fields_step(items, 0, d, f); }
        if items.len() > 1 { lemma_decode_fields_step(items, 1, d, f); }
        if items.len() > 2 { lemma_decode_fields_step(items, 2, d, f); }
        if items.len() > 3 { lemma_decode_fields_step(items, 3, d, f); }
        if items.len() > 4 { lemma_decode_fields_step(items, 4, d, f); }
        if items.len() > 5 {
            lemma_decode_fields_step(items, 5, d, f);
            if let Some(links) = array_of(items[5]) {
                lemma_get_cids_exact(links, "DataFrame::next[]");
            }
        }
        if items.len() > 6 {
            lemma_decode_fields_step(items, 6, d, f);
            lemma_decode_fields_error(items, 7, d, f);
        } else {
            assert(items.take(items.len() as int) =~= items);
        }
    }
}

} // verus!
