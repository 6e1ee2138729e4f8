//! Transaction nodes: a transaction and its status metadata, each as a data frame.
//!
//! Schema (a CBOR tuple): `[kind, DataFrame, DataFrame, slot, index?]`.
use vstd::prelude::*;

use crate::car::node::dataframe::{dataframe_default, is_int_or_null, opt_field, opt_u64, spec_dataframe, DataFrame, DataFrameView};
use crate::car::node::{
    decode_fields, decoded_as, from_cbor_bytes, lemma_decode_fields_error,
    lemma_decode_fields_step, spec_check_kind, Kind, NodeError,
};
use crate::car::util::cbor::{
    array_of, cids_view, decode_cbor, get_array, get_int, get_int_opt, int_of, int_opt_of, CborValue,
};

verus! {

/// A transaction node.
#[derive(Debug, Clone, PartialEq, Eq, Hash)]
pub struct Transaction {
    pub data: DataFrame,
    pub metadata: DataFrame,
    pub slot: u64,
    pub index: Option<u64>,
}

/// The mathematical content of a transaction node.
pub struct TransactionView {
    pub data: DataFrameView,
    pub metadata: DataFrameView,
    pub slot: u64,
    pub index: Option<u64>,
}

impl View for Transaction {
    type V = TransactionView;

    open spec fn view(&self) -> TransactionView {
        TransactionView { data: self.data@, metadata: self.metadata@, slot: self.slot, index: self.index }
    }
}

/// The transaction node that fields not yet read leave in place.
pub open spec fn transaction_default() -> TransactionView {
    TransactionView { data: dataframe_default(), metadata: dataframe_default(), slot: 0, index: None }
}

/// Folds item `i` of a transaction tuple into `acc`.
pub open spec fn transaction_step(acc: TransactionView, i: int, v: CborValue) -> Result<TransactionView, NodeError> {
    if i == 0 {
        match int_of(v) {
            Some(k) => match spec_check_kind(k as u64, Kind::Transaction) {
                Ok(_) => Ok(acc),
                Err(e) => Err(e),
            },
            None => Err(NodeError::InvalidCborType("Transaction::kind")),
        }
    } else if i == 1 {
        match spec_dataframe(v) {
            Ok(d) => Ok(TransactionView { data: d, ..acc }),
            Err(e) => Err(e),
        }
    } else if i == 2 {
        match spec_dataframe(v) {
            Ok(d) => Ok(TransactionView { metadata: d, ..acc }),
            Err(e) => Err(e),
        }
    } else if i == 3 {
        match int_of(v) {
            Some(x) => Ok(TransactionView { slot: x as u64, ..acc }),
            None => Err(NodeError::InvalidCborType("Transaction::slot")),
        }
    } else if i == 4 {
        match int_opt_of(v) {
            Some(x) => Ok(TransactionView { index: opt_u64(x), ..acc }),
            None => Err(NodeError::InvalidCborType("Transaction::index")),
        }
    } else {
        Err(NodeError::UnexpectedCborValues)
    }
}

pub open spec fn transaction_fields() -> spec_fn(TransactionView, int, CborValue) -> Result<TransactionView, NodeError> {
    |acc: TransactionView, i: int, v: CborValue| transaction_step(acc, i, v)
}

/// What decoding `value` as a transaction node gives.
pub open spec fn spec_transaction(value: CborValue) -> Result<TransactionView, NodeError> {
    match array_of(value) {
        Some(items) => decode_fields(items, transaction_default(), transaction_fields()),
        None => Err(NodeError::InvalidCborType("Transaction")),
    }
}

pub open spec fn transaction_decoder() -> spec_fn(CborValue) -> Result<TransactionView, NodeError> {
    |v: CborValue| spec_transaction(v)
}

impl Transaction {
    /// Decodes a transaction node from the bytes of its CBOR tuple.
    pub fn try_from(value: &[u8]) -> (res: Result<Transaction, NodeError>)
        ensures
            decoded_as(res, from_cbor_bytes(value@, transaction_decoder())),
    {
        match decode_cbor(value) {
            Ok(v) => Transaction::try_from_cbor(&v),
            Err(_) => Err(NodeError::InvalidCbor),
        }
    }

    /// Decodes a transaction node from its CBOR tuple. Missing trailing fields keep their defaults.
    pub fn try_from_cbor(value: &CborValue) -> (res: Result<Transaction, NodeError>)
        ensures
            decoded_as(res, spec_transaction(*value)),
    {
        let items = get_array(value, "Transaction")?;
        let mut node = Transaction {
            data: DataFrame { hash: None, index: None, total: None, data: Vec::new(), next: Vec::new() },
            metadata: DataFrame { hash: None, index: None, total: None, data: Vec::new(), next: Vec::new() },
            slot: 0,
            index: None,
        };
        assert(node@ =~= transaction_default()) by {
            assert(cids_view(node.data.next@) =~= Seq::<Seq<u8>>::empty());
            assert(cids_view(node.metadata.next@) =~= Seq::<Seq<u8>>::empty());
            assert(node.data@ =~= dataframe_default());
            assert(node.metadata@ =~= dataframe_default());
        }
        let mut i: usize = 0;
        while i < items.len()
            invariant
                i <= items@.len(),
                array_of(*value) == Some(items@),
                decode_fields(items@.take(i as int), transaction_default(), transaction_fields()) == Ok::<TransactionView, NodeError>(node@),
            decreases items@.len() - i,
        {
            proof {
                lemma_decode_fields_step(items@, i as int, transaction_default(), transaction_fields());
                if decode_fields(items@.take(i + 1), transaction_default(), transaction_fields()) is Err {
                    lemma_decode_fields_error(items@, i + 1, transaction_default(), transaction_fields());
                }
            }
            let v = &items[i];
            if i == 0 {
                let kind = get_int(v, "Transaction::kind")?;
                NodeError::assert_invalid_kind(kind as u64, Kind::Transaction)?;
            } else if i == 1 {
                node.data = DataFrame::try_from_cbor(v)?;
            } else if i == 2 {
                node.metadata = DataFrame::try_from_cbor(v)?;
            } else if i == 3 {
                node.slot = get_int(v, "Transaction::slot")? as u64;
            } else if i == 4 {
                node.index = match get_int_opt(v, "Transaction::index")? {
                    Some(x) => Some(x as u64),
                    None => None,
                };
            } else {
                return Err(NodeError::UnexpectedCborValues);
            }
            i += 1;
        }
        assert(items@.take(i as int) == items@);
        Ok(node)
    }
}

/// A transaction node decodes from a tuple of at most five items: the
/// transaction kind tag (0), then the data frames of the transaction and of its
/// metadata (each the data-frame decoding of its own item), the slot (its low
/// 64 bits) and the optional index (an integer's low 64 bits, or null); an item
/// left out keeps its default. A full tuple whose items decode always decodes.
pub proof fn lemma_transaction_fields(value: CborValue)
    ensures
        spec_transaction(value) matches Ok(t) ==> {
            &&& array_of(value) is Some
            &&& ({
                let items = array_of(value)->Some_0;
                &&& items.len() <= 5
                &&& items.len() > 0 ==> (int_of(items[0]) matches Some(k) && k as u64 == 0)
                &&& items.len() > 1 ==> Ok::<DataFrameView, NodeError>(t.data) == spec_dataframe(items[1])
                &&& items.len() <= 1 ==> t.data == dataframe_default()
                &&& items.len() > 2 ==> Ok::<DataFrameView, NodeError>(t.metadata) == spec_dataframe(items[2])
                &&& items.len() <= 2 ==> t.metadata == dataframe_default()
                &&& t.slot == (if items.len() > 3 { (int_of(items[3])->Some_0) as u64 } else { 0 })
                &&& items.len() > 3 ==> int_of(items[3]) is Some
                &&& items.len() > 4 ==> is_int_or_null(items[4]) && t.index == opt_field(items[4])
                &&& items.len() <= 4 ==> t.index is None
            })
        },
        (array_of(value) matches Some(items) && items.len() == 5 && int_of(items[0]) == Some(0i128)
            && spec_dataframe(items[1]) is Ok
            && spec_dataframe(items[2]) is Ok
            && int_of(items[3]) is Some
            && is_int_or_null(items[4]))
            ==> spec_transaction(value) is Ok,
{
    if let Some(items) = array_of(value) {
        let f = transaction_fields();
        let d = transaction_default();
        assert(items.take(0) =~= Seq::<CborValue>::empty());
        if items.len() > 0 { lemma_decode_fields_step(items, 0, d, f); }
        if items.len() > 1 { lemma_decode_fields_step(items, 1, d, f); }
        if items.len() > 2 { lemma_decode_fields_step(items, 2, d, f); }
        if items.len() > 3 { lemma_decode_fields_step(items, 3, d, f); }
        if items.len() > 4 { lemma_decode_fields_step(items, 4, d, f); }
        if items.len() > 5 {
            lemma_decode_fields_step(items, 5, d, f);
            lemma_decode_fields_error(items, 6, d, f);
        } else {
            assert(items.take(items.len() as int) =~= items);
        }
    }
}

} // verus!
