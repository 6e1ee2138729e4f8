//! Subset nodes: a run of slots and the blocks in it.
//!
//! Schema (a CBOR tuple): `[kind, first, last, [&Block]]`.
use vstd::prelude::*;

use crate::car::node::{
    decode_fields, decoded_as, from_cbor_bytes, lemma_decode_fields_error,
    lemma_decode_fields_step, spec_check_kind, Kind, NodeError,
};
use crate::car::util::cbor::{
    array_of, cids_view, decode_cbor, get_array, get_array_cids, get_int, int_of,
    lemma_get_cids_exact, spec_get_array_cids, spec_get_cid, CborValue,
};
use crate::car::util::link::Cid;

verus! {

/// A subset node.
#[derive(Debug, Clone, PartialEq, Eq, Hash)]
pub struct Subset {
    pub first: u64,
    pub last: u64,
    pub blocks: Vec<Cid>,
}

/// The mathematical content of a subset.
pub struct SubsetView {
    pub first: u64,
    pub last: u64,
    pub blocks: Seq<Seq<u8>>,
}

impl View for Subset {
    type V = SubsetView;

    open spec fn view(&self) -> SubsetView {
        SubsetView { first: self.first, last: self.last, blocks: cids_view(self.blocks@) }
    }
}

/// The subset that fields not yet read leave in place.
pub open spec fn subset_default() -> SubsetView {
    SubsetView { first: 0, last: 0, blocks: Seq::empty() }
}

/// Folds item `i` of a subset tuple into `acc`.
pub open spec fn subset_step(acc: SubsetView, i: int, v: CborValue) -> Result<SubsetView, NodeError> {
    if i == 0 {
        match int_of(v) {
            Some(k) => match spec_check_kind(k as u64, Kind::Subset) {
                Ok(_) => Ok(acc),
                Err(e) => Err(e),
            },
            None => Err(NodeError::InvalidCborType("Subset::kind")),
        }
    } else if i == 1 {
        match int_of(v) {
            Some(x) => Ok(SubsetView { first: x as u64, ..acc }),
            None => Err(NodeError::InvalidCborType("Subset::first")),
        }
    } else if i == 2 {
        match int_of(v) {
            Some(x) => Ok(SubsetView { last: x as u64, ..acc }),
            None => Err(NodeError::InvalidCborType("Subset::last")),
        }
    } else if i == 3 {
        match spec_get_array_cids(v, "Subset::blocks", "Subset::blocks[]") {
            Ok(c) => Ok(SubsetView { blocks: c, ..acc }),
            Err(e) => Err(e),
        }
    } else {
        Err(NodeError::UnexpectedCborValues)
    }
}

pub open spec fn subset_fields() -> spec_fn(SubsetView, int, CborValue) -> Result<SubsetView, NodeError> {
    |acc: SubsetView, i: int, v: CborValue| subset_step(acc, i, v)
}

/// What decoding `value` as a subset gives.
pub open spec fn spec_subset(value: CborValue) -> Result<SubsetView, NodeError> {
    match array_of(value) {
        Some(items) => decode_fields(items, subset_default(), subset_fields()),
        None => Err(NodeError::InvalidCborType("Subset")),
    }
}

pub open spec fn subset_decoder() -> spec_fn(CborValue) -> Result<SubsetView, NodeError> {
    |v: CborValue| spec_subset(v)
}

impl Subset {
    /// Decodes a subset from the bytes of its CBOR tuple.
    pub fn try_from(value: &[u8]) -> (res: Result<Subset, NodeError>)
        ensures
            decoded_as(res, from_cbor_bytes(value@, subset_decoder())),
    {
        match decode_cbor(value) {
            Ok(v) => Subset::try_from_cbor(&v),
            Err(_) => Err(NodeError::InvalidCbor),
        }
    }

    /// Decodes a subset from its CBOR tuple. Missing trailing fields keep their defaults.
    pub fn try_from_cbor(value: &CborValue) -> (res: Result<Subset, NodeError>)
        ensures
            decoded_as(res, spec_subset(*value)),
    {
        let items = get_array(value, "Subset")?;
        let mut node = Subset { first: 0, last: 0, blocks: Vec::new() };
        assert(node@ =~= subset_default()) by {
            assert(cids_view(node.blocks@) =~= Seq::<Seq<u8>>::empty());
        }
        let mut i: usize = 0;
        while i < items.len()
            invariant
                i <= items@.len(),
                array_of(*value) == Some(items@),
                decode_fields(items@.take(i as int), subset_default(), subset_fields()) == Ok::<SubsetView, NodeError>(node@),
            decreases items@.len() - i,
        {
            proof {
                lemma_decode_fields_step(items@, i as int, subset_default(), subset_fields());
                if decode_fields(items@.take(i + 1), subset_default(), subset_fields()) is Err {
                    lemma_decode_fields_error(items@, i + 1, subset_default(), subset_fields());
                }
            }
            let v = &items[i];
            if i == 0 {
                let kind = get_int(v, "Subset::kind")?;
                NodeError::assert_invalid_kind(kind as u64, Kind::Subset)?;
            } else if i == 1 {
                node.first = get_int(v, "Subset::first")? as u64;
            } else if i == 2 {
                node.last = get_int(v, "Subset::last")? as u64;
            } else if i == 3 {
                node.blocks = get_array_cids(v, "Subset::blocks", "Subset::blocks[]")?;
            } else {
                return Err(NodeError::UnexpectedCborValues);
            }
            i += 1;
        }
        assert(items@.take(i as int) == items@);
        Ok(node)
    }
}

/// A subset decodes from a tuple of at most four items: the subset kind tag
/// (3), then `first` and `last` (integers kept as their low 64 bits) and the
/// block links, one per element of the fourth item and in order, each read
/// from its own item; an item left out keeps its default. A full tuple whose
/// items have the right types and whose links are all CIDs always decodes.
pub proof fn lemma_subset_fields(value: CborValue)
    ensures
        spec_subset(value) matches Ok(s) ==> {
            &&& array_of(value) is Some
            &&& ({
                let items = array_of(value)->Some_0;
                &&& items.len() <= 4
                &&& items.len() > 0 ==> (int_of(items[0]) matches Some(k) && k as u64 == 3)
                &&& s.first == (if items.len() > 1 { (int_of(items[1])->Some_0) as u64 } else { 0 })
                &&& items.len() > 1 ==> int_of(items[1]) is Some
                &&& s.last == (if items.len() > 2 { (int_of(items[2])->Some_0) as u64 } else { 0 })
                &&& items.len() > 2 ==> int_of(items[2]) is Some
                &&& items.len() > 3 ==> (array_of(items[3]) matches Some(links) && s.blocks.len() == links.len()
                    && forall|j: int| 0 <= j < links.len()
                        ==> Ok::<Seq<u8>, NodeError>(#[trigger] s.blocks[j]) == spec_get_cid(links[j], "Subset::blocks[]"))
                &&& items.len() <= 3 ==> s.blocks.len() == 0
            })
        },
        (array_of(value) matches Some(items) && items.len() == 4 && int_of(items[0]) == Some(3i128)
            && int_of(items[1]) is Some
            && int_of(items[2]) is Some
            && (array_of(items[3]) matches Some(links)
                && forall|j: int| 0 <= j < links.len() ==> (#[trigger] spec_get_cid(links[j], "Subset::blocks[]")) is Ok))
            ==> spec_subset(value) is Ok,
{
    if let Some(items) = array_of(value) {
        let f = subset_fields();
        let d = subset_default();
        assert(items.take(0) =~= Seq::<CborValue>::empty());
        if items.len() > 0 { lemma_decode_fields_step(items, 0, d, f); }
        if items.len() > 1 { lemma_decode_fields_step(items, 1, d, f); }
        if items.len() > 2 { lemma_decode_fields_step(items, 2, d, f); }
        if items.len() > 3 {
            lemma_decode_fields_step(items, 3, d, f);
            if let Some(links) = array_of(items[3]) {
                lemma_get_cids_exact(links, "Subset::blocks[]");
            }
        }
        if items.len() > 4 {
            lemma_decode_fields_step(items, 4, d, f);
            lemma_decode_fields_error(items, 5, d, f);
        } else {
            assert(items.take(items.len() as int) =~= items);
        }
    }
}

} // verus!
