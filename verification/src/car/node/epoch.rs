//! Epoch nodes: the root of an archive's DAG, linking to its subsets.
//!
//! Schema (a CBOR tuple): `[kind, epoch, [&Subset]]`.
use vstd::prelude::*;

use crate::car::node::{
    decode_fields, decoded_as, from_cbor_bytes, lemma_decode_fields_error,
    lemma_decode_fields_step, spec_check_kind, Kind, NodeError,
};
use crate::car::util::cbor::{
    array_of, cids_view, decode_cbor, get_array, get_array_cids, get_int, int_of,
    lemma_get_cids_exact, spec_get_array_cids, spec_get_cid, CborValue,
};
use crate::car::util::link::Cid;

verus! {

/// An epoch node.
#[derive(Debug, Clone, PartialEq, Eq, Hash)]
pub struct Epoch {
    pub epoch: u64,
    pub subsets: Vec<Cid>,
}

/// The mathematical content of an epoch.
pub struct EpochView {
    pub epoch: u64,
    pub subsets: Seq<Seq<u8>>,
}

impl View for Epoch {
    type V = EpochView;

    open spec fn view(&self) -> EpochView {
        EpochView { epoch: self.epoch, subsets: cids_view(self.subsets@) }
    }
}

/// The epoch that fields not yet read leave in place.
pub open spec fn epoch_default() -> EpochView {
    EpochView { epoch: 0, subsets: Seq::empty() }
}

/// Folds item `i` of an epoch tuple into `acc`.
pub open spec fn epoch_step(acc: EpochView, i: int, v: CborValue) -> Result<EpochView, NodeError> {
    if i == 0 {
        match int_of(v) {
            Some(k) => match spec_check_kind(k as u64, Kind::Epoch) {
                Ok(_) => Ok(acc),
                Err(e) => Err(e),
            },
            None => Err(NodeError::InvalidCborType("Epoch::kind")),
        }
    } else if i == 1 {
        match int_of(v) {
            Some(x) => Ok(EpochView { epoch: x as u64, ..acc }),
            None => Err(NodeError::InvalidCborType("Epoch::epoch")),
        }
    } else if i == 2 {
        match spec_get_array_cids(v, "Epoch::subsets", "Epoch::subsets[]") {
            Ok(c) => Ok(EpochView { subsets: c, ..acc }),
            Err(e) => Err(e),
        }
    } else {
        Err(NodeError::UnexpectedCborValues)
    }
}

pub open spec fn epoch_fields() -> spec_fn(EpochView, int, CborValue) -> Result<EpochView, NodeError> {
    |acc: EpochView, i: int, v: CborValue| epoch_step(acc, i, v)
}

/// What decoding `value` as an epoch gives.
pub open spec fn spec_epoch(value: CborValue) -> Result<EpochView, NodeError> {
    match array_of(value) {
        Some(items) => decode_fields(items, epoch_default(), epoch_fields()),
        None => Err(NodeError::InvalidCborType("Epoch")),
    }
}

pub open spec fn epoch_decoder() -> spec_fn(CborValue) -> Result<EpochView, NodeError> {
    |v: CborValue| spec_epoch(v)
}

impl Epoch {
    /// Decodes an epoch from the bytes of its CBOR tuple.
    pub fn try_from(value: &[u8]) -> (res: Result<Epoch, NodeError>)
        ensures
            decoded_as(res, from_cbor_bytes(value@, epoch_decoder())),
    {
        match decode_cbor(value) {
            Ok(v) => Epoch::try_from_cbor(&v),
            Err(_) => Err(NodeError::InvalidCbor),
        }
    }

    /// Decodes an epoch from its CBOR tuple. Missing trailing fields keep their defaults.
    pub fn try_from_cbor(value: &CborValue) -> (res: Result<Epoch, NodeError>)
        ensures
            decoded_as(res, spec_epoch(*value)),
    {
        let items = get_array(value, "Epoch")?;
        let mut node = Epoch { epoch: 0, subsets: Vec::new() };
        assert(node@ =~= epoch_default()) by {
            assert(cids_view(node.subsets@) =~= Seq::<Seq<u8>>::empty());
        }
        let mut i: usize = 0;
        while i < items.len()
            invariant
                i <= items@.len(),
                array_of(*value) == Some(items@),
                decode_fields(items@.take(i as int), epoch_default(), epoch_fields()) == Ok::<EpochView, NodeError>(node@),
            decreases items@.len() - i,
        {
            proof {
                lemma_decode_fields_step(items@, i as int, epoch_default(), epoch_fields());
                if decode_fields(items@.take(i + 1), epoch_default(), epoch_fields()) is Err {
                    lemma_decode_fields_error(items@, i + 1, epoch_default(), epoch_fields());
                }
            }
            let v = &items[i];
            if i == 0 {
                let kind = get_int(v, "Epoch::kind")?;
                NodeError::assert_invalid_kind(kind as u64, Kind::Epoch)?;
            } else if i == 1 {
                node.epoch = get_int(v, "Epoch::epoch")? as u64;
            } else if i == 2 {
                node.subsets = get_array_cids(v, "Epoch::subsets", "Epoch::subsets[]")?;
            } else {
                return Err(NodeError::UnexpectedCborValues);
            }
            i += 1;
        }
        assert(items@.take(i as int) == items@);
        Ok(node)
    }
}

/// An epoch decodes from a tuple of at most three items: the epoch kind tag
/// (4), then the epoch number (its low 64 bits) and the subset links, one per
/// element of the third item and in order; an item left out keeps its default.
/// A full tuple whose items have the right types and whose links are all CIDs
/// always decodes.
pub proof fn lemma_epoch_fields(value: CborValue)
    ensures
        spec_epoch(value) matches Ok(e) ==> {
            &&& array_of(value) is Some
            &&& ({
                let items = array_of(value)->Some_0;
                &&& items.len() <= 3
                &&& items.len() > 0 ==> (int_of(items[0]) matches Some(k) && k as u64 == 4)
                &&& e.epoch == (if items.len() > 1 { (int_of(items[1])->Some_0) as u64 } else { 0 })
                &&& items.len() > 1 ==> int_of(items[1]) is Some
                &&& items.len() > 2 ==> (array_of(items[2]) matches Some(links) && e.subsets.len() == links.len()
                    && forall|j: int| 0 <= j < links.len()
                        ==> Ok::<Seq<u8>, NodeError>(#[trigger] e.subsets[j]) == spec_get_cid(links[j], "Epoch::subsets[]"))
                &&& items.len() <= 2 ==> e.subsets.len() == 0
            })
        },
        (array_of(value) matches Some(items) && items.len() == 3 && int_of(items[0]) == Some(4i128)
            && int_of(items[1]) is Some
            && (array_of(items[2]) matches Some(links)
                && forall|j: int| 0 <= j < links.len() ==> (#[trigger] spec_get_cid(links[j], "Epoch::subsets[]")) is Ok))
            ==> spec_epoch(value) is Ok,
{
    if let Some(items) = array_of(value) {
        let f = epoch_fields();
        let d = epoch_default();
        assert(items.take(0) =~= Seq::<CborValue>::empty());
        if items.len() > 0 { lemma_decode_fields_step(items, 0, d, f); }
        if items.len() > 1 { lemma_decode_fields_step(items, 1, d, f); }
        if items.len() > 2 {
            lemma_decode_fields_step(items, 2, d, f);
            if let Some(links) = array_of(items[2]) {
                lemma_get_cids_exact(links, "Epoch::subsets[]");
            }
        }
        if items.len() > 3 {
            lemma_decode_fields_step(items, 3, d, f);
            lemma_decode_fields_error(items, 4, d, f);
        } else {
            assert(items.take(items.len() as int) =~= items);
        }
    }
}

} // verus!
