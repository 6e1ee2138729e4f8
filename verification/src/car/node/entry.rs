//! Entry nodes: a proof-of-history entry and the transactions it holds.
//!
//! Schema (a CBOR tuple): `[kind, num_hashes, hash, [&Transaction]]`.
use vstd::prelude::*;

use crate::car::node::{
    decode_fields, decoded_as, from_cbor_bytes, lemma_decode_fields_error,
    lemma_decode_fields_step, spec_check_kind, Kind, NodeError,
};
use crate::car::util::cbor::{
    array_of, bytes_of, cids_view, decode_cbor, get_array, get_array_cids, get_bytes, get_int,
    int_of, lemma_get_cids_exact, spec_get_array_cids, spec_get_cid, CborValue,
};
use crate::car::util::link::Cid;

verus! {

/// An entry node.
#[derive(Debug, Clone, PartialEq, Eq, Hash)]
pub struct Entry {
    pub num_hashes: u64,
    pub hash: Vec<u8>,
    pub transactions: Vec<Cid>,
}

/// The mathematical content of an entry.
pub struct EntryView {
    pub num_hashes: u64,
    pub hash: Seq<u8>,
    pub transactions: Seq<Seq<u8>>,
}

impl View for Entry {
    type V = EntryView;

    open spec fn view(&self) -> EntryView {
        EntryView { num_hashes: self.num_hashes, hash: self.hash@, transactions: cids_view(self.transactions@) }
    }
}

/// The entry that fields not yet read leave in place.
pub open spec fn entry_default() -> EntryView {
    EntryView { num_hashes: 0, hash: Seq::empty(), transactions: Seq::empty() }
}

/// Folds item `i` of an entry tuple into `acc`.
pub open spec fn entry_step(acc: EntryView, i: int, v: CborValue) -> Result<EntryView, NodeError> {
    if i == 0 {
        match int_of(v) {
            Some(k) => match spec_check_kind(k as u64, Kind::Entry) {
                Ok(_) => Ok(acc),
                Err(e) => Err(e),
            },
            None => Err(NodeError::InvalidCborType("Entry::kind")),
        }
    } else if i == 1 {
        match int_of(v) {
            Some(x) => Ok(EntryView { num_hashes: x as u64, ..acc }),
            None => Err(NodeError::InvalidCborType("Entry::num_hashes")),
        }
    } else if i == 2 {
        match bytes_of(v) {
            Some(b) => Ok(EntryView { hash: b, ..acc }),
            None => Err(NodeError::InvalidCborType("Entry::hash")),
        }
    } else if i == 3 {
        match spec_get_array_cids(v, "Entry::transactions", "Entry::transactions[]") {
            Ok(c) => Ok(EntryView { transactions: c, ..acc }),
            Err(e) => Err(e),
        }
    } else {
        Err(NodeError::UnexpectedCborValues)
    }
}

pub open spec fn entry_fields() -> spec_fn(EntryView, int, CborValue) -> Result<EntryView, NodeError> {
    |acc: EntryView, i: int, v: CborValue| entry_step(acc, i, v)
}

/// What decoding `value` as an entry gives.
pub open spec fn spec_entry(value: CborValue) -> Result<EntryView, NodeError> {
    match array_of(value) {
        Some(items) => decode_fields(items, entry_default(), entry_fields()),
        None => Err(NodeError::InvalidCborType("Entry")),
    }
}

pub open spec fn entry_decoder() -> spec_fn(CborValue) -> Result<EntryView, NodeError> {
    |v: CborValue| spec_entry(v)
}

impl Entry {
    /// Decodes an entry from the bytes of its CBOR tuple.
    pub fn try_from(value: &[u8]) -> (res: Result<Entry, NodeError>)
        ensures
            decoded_as(res, from_cbor_bytes(value@, entry_decoder())),
    {
        match decode_cbor(value) {
            Ok(v) => Entry::try_from_cbor(&v),
            Err(_) => Err(NodeError::InvalidCbor),
        }
    }

    /// Decodes an entry from its CBOR tuple. Missing trailing fields keep their defaults.
    pub fn try_from_cbor(value: &CborValue) -> (res: Result<Entry, NodeError>)
        ensures
            decoded_as(res, spec_entry(*value)),
    {
        let items = get_array(value, "Entry")?;
        let mut node = Entry { num_hashes: 0, hash: Vec::new(), transactions: Vec::new() };
        assert(node@ =~= entry_default()) by {
            assert(cids_view(node.transactions@) =~= Seq::<Seq<u8>>::empty());
        }
        let mut i: usize = 0;
        while i < items.len()
            invariant
                i <= items@.len(),
                array_of(*value) == Some(items@),
                decode_fields(items@.take(i as int), entry_default(), entry_fields()) == Ok::<EntryView, NodeError>(node@),
            decreases items@.len() - i,
        {
            proof {
                lemma_decode_fields_step(items@, i as int, entry_default(), entry_fields());
                if decode_fields(items@.take(i + 1), entry_default(), entry_fields()) is Err {
                    lemma_decode_fields_error(items@, i + 1, entry_default(), entry_fields());
                }
            }
            let v = &items[i];
            if i == 0 {
                let kind = get_int(v, "Entry::kind")?;
                NodeError::assert_invalid_kind(kind as u64, Kind::Entry)?;
            } else if i == 1 {
                node.num_hashes = get_int(v, "Entry::num_hashes")? as u64;
            } else if i == 2 {
                node.hash = get_bytes(v, "Entry::hash")?;
            } else if i == 3 {
                node.transactions = get_array_cids(v, "Entry::transactions", "Entry::transactions[]")?;
            } else {
                return Err(NodeError::UnexpectedCborValues);
            }
            i += 1;
        }
        assert(items@.take(i as int) == items@);
        Ok(node)
    }
}

/// An entry decodes from a tuple of at most four items: the entry kind tag
/// (1), then `num_hashes`, `hash` and the transaction links, each read from its
/// own item (an item left out keeps its default). The transactions are the
/// links of the fourth item, one per element and in order. A full tuple whose
/// items have the right types and whose links are all CIDs always decodes.
pub proof fn lemma_entry_fields(value: CborValue)
    ensures
        spec_entry(value) matches Ok(e) ==> {
            &&& array_of(value) is Some
            &&& ({
                let items = array_of(value)->Some_0;
                &&& items.len() <= 4
                &&& items.len() > 0 ==> (int_of(items[0]) matches Some(k) && k as u64 == 1)
                &&& e.num_hashes == (if items.len() > 1 { (int_of(items[1])->Some_0) as u64 } else { 0 })
                &&& items.len() > 1 ==> int_of(items[1]) is Some
                &&& e.hash == (if items.len() > 2 { bytes_of(items[2])->Some_0 } else { Seq::empty() })
                &&& items.len() > 2 ==> bytes_of(items[2]) is Some
                &&& items.len() > 3 ==> (array_of(items[3]) matches Some(links) && e.transactions.len() == links.len()
                    && forall|j: int| 0 <= j < links.len()
                        ==> Ok::<Seq<u8>, NodeError>(#[trigger] e.transactions[j]) == spec_get_cid(links[j], "Entry::transactions[]"))
                &&& items.len() <= 3 ==> e.transactions.len() == 0
            })
        },
        (array_of(value) matches Some(items) && items.len() == 4 && int_of(items[0]) == Some(1i128)
            && int_of(items[1]) is Some && bytes_of(items[2]) is Some
            && (array_of(items[3]) matches Some(links)
                && forall|j: int| 0 <= j < links.len() ==> (#[trigger] spec_get_cid(links[j], "Entry::transactions[]")) is Ok))
            ==> spec_entry(value) is Ok,
{
    if let Some(items) = array_of(value) {
        let f = entry_fields();
        let d = entry_default();
        assert(items.take(0) =~= Seq::<CborValue>::empty());
        if items.len() > 0 { lemma_decode_fields_step(items, 0, d, f); }
        if items.len() > 1 { lemma_decode_fields_step(items, 1, d, f); }
        if items.len() > 2 { lemma_decode_fields_step(items, 2, d, f); }
        if items.len() > 3 {
            lemma_decode_fields_step(items, 3, d, f);
            if let Some(links) = array_of(items[3]) {
                lemma_get_cids_exact(links, "Entry::transactions[]");
            }
        }
        if items.len() > 4 {
            lemma_decode_fields_step(items, 4, d, f);
            lemma_decode_fields_error(items, 5, d, f);
        } else {
            assert(items.take(items.len() as int) =~= items);
        }
    }
}

} // verus!
