//! The node kinds of an Old Faithful CAR archive and their decoding.
use vstd::prelude::*;

use crate::car::util::cbor::{cbor_decoding, CborValue};

pub mod block;
pub mod dataframe;
pub mod entry;
pub mod nodes;
pub mod rewards;
pub mod epoch;
pub mod subset;
pub mod transaction;

verus! {

/// The kind tag that opens every node's CBOR tuple.
#[derive(Clone, Copy, Debug, PartialEq, Eq, Hash, Structural)]
pub enum Kind {
    Transaction,
    Entry,
    Block,
    Subset,
    Epoch,
    Rewards,
    DataFrame,
}

impl Kind {
    /// The integer that encodes this kind.
    pub open spec fn spec_id(self) -> u64 {
        match self {
            Kind::Transaction => 0,
            Kind::Entry => 1,
            Kind::Block => 2,
            Kind::Subset => 3,
            Kind::Epoch => 4,
            Kind::Rewards => 5,
            Kind::DataFrame => 6,
        }
    }

    /// The integer that encodes this kind.
    #[verifier::when_used_as_spec(spec_id)]
    pub fn id(self) -> (res: u64)
        ensures
            res == self.spec_id(),
    {
        match self {
            Kind::Transaction => 0,
            Kind::Entry => 1,
            Kind::Block => 2,
            Kind::Subset => 3,
            Kind::Epoch => 4,
            Kind::Rewards => 5,
            Kind::DataFrame => 6,
        }
    }

    /// The kind that `id` encodes, if any.
    pub fn from_id(id: u64) -> (res: Option<Kind>)
        ensures
            res == kind_of_id(id),
            res matches Some(k) ==> k.spec_id() == id,
            res is None ==> forall|k: Kind| k.spec_id() != id,
    {
        if id == 0 {
            Some(Kind::Transaction)
        } else if id == 1 {
            Some(Kind::Entry)
        } else if id == 2 {
            Some(Kind::Block)
        } else if id == 3 {
            Some(Kind::Subset)
        } else if id == 4 {
            Some(Kind::Epoch)
        } else if id == 5 {
            Some(Kind::Rewards)
        } else if id == 6 {
            Some(Kind::DataFrame)
        } else {
            None
        }
    }
}

/// The kind that the integer `id` encodes, if any.
pub open spec fn kind_of_id(id: u64) -> Option<Kind> {
    if id == 0 {
        Some(Kind::Transaction)
    } else if id == 1 {
        Some(Kind::Entry)
    } else if id == 2 {
        Some(Kind::Block)
    } else if id == 3 {
        Some(Kind::Subset)
    } else if id == 4 {
        Some(Kind::Epoch)
    } else if id == 5 {
        Some(Kind::Rewards)
    } else if id == 6 {
        Some(Kind::DataFrame)
    } else {
        None
    }
}

/// Why a node could not be decoded.
#[derive(Debug)]
pub enum NodeError {
    /// The bytes are not one well-formed CBOR item.
    InvalidCbor,
    /// The named field holds a CBOR item of the wrong type.
    InvalidCborType(&'static str),
    /// The named link holds bytes that are not a CID.
    InvalidCid(&'static str),
    /// The kind tag is not the one the decoder expects.
    InvalidKind { kind: u64, expected: Kind },
    /// The tuple has more items than the node's schema.
    UnexpectedCborValues,
    /// The kind tag names no known kind.
    UnknownKind(u64),
}

impl NodeError {
    /// Fails unless `kind` encodes `expected`.
    pub fn assert_invalid_kind(kind: u64, expected: Kind) -> (res: Result<(), NodeError>)
        ensures
            res == spec_check_kind(kind, expected),
    {
        if kind == expected.id() {
            Ok(())
        } else {
            Err(NodeError::InvalidKind { kind, expected })
        }
    }
}

/// The outcome of checking a kind tag.
pub open spec fn spec_check_kind(kind: u64, expected: Kind) -> Result<(), NodeError> {
    if kind == expected.spec_id() {
        Ok(())
    } else {
        Err(NodeError::InvalidKind { kind, expected })
    }
}

/// Whether an executable decoding result agrees with the decoding that the spec gives.
pub open spec fn decoded_as<T: View>(res: Result<T, NodeError>, spec: Result<T::V, NodeError>) -> bool {
    match (res, spec) {
        (Ok(n), Ok(v)) => n@ == v,
        (Err(e), Err(f)) => e == f,
        _ => false,
    }
}

/// Decoding a node from bytes: one CBOR item, then the node's own decoding.
pub open spec fn from_cbor_bytes<T>(bytes: Seq<u8>, decode: spec_fn(CborValue) -> Result<T, NodeError>) -> Result<T, NodeError> {
    match cbor_decoding(bytes) {
        Some(v) => decode(v),
        None => Err(NodeError::InvalidCbor),
    }
}

/// Decodes the items of a node's CBOR tuple in order: `step` folds item `i` into
/// the node read so far; the first failing item gives the error.
pub open spec fn decode_fields<T>(
    items: Seq<CborValue>,
    init: T,
    step: spec_fn(T, int, CborValue) -> Result<T, NodeError>,
) -> Result<T, NodeError>
    decreases items.len(),
{
    if items.len() == 0 {
        Ok(init)
    } else {
        match decode_fields(items.drop_last(), init, step) {
            Ok(acc) => step(acc, items.len() - 1, items.last()),
            Err(e) => Err(e),
        }
    }
}

/// Decoding one more item extends the fold over a prefix.
pub proof fn lemma_decode_fields_step<T>(
    items: Seq<CborValue>,
    i: int,
    init: T,
    step: spec_fn(T, int, CborValue) -> Result<T, NodeError>,
)
    requires
        0 <= i < items.len(),
    ensures
        decode_fields(items.take(i + 1), init, step) == (match decode_fields(items.take(i), init, step) {
            Ok(acc) => step(acc, i, items[i]),
            Err(e) => Err(e),
        }),
{
    assert(items.take(i + 1).drop_last() == items.take(i));
}

/// Once an item fails, the whole tuple fails with the same error.
pub proof fn lemma_decode_fields_error<T>(
    items: Seq<CborValue>,
    i: int,
    init: T,
    step: spec_fn(T, int, CborValue) -> Result<T, NodeError>,
)
    requires
        0 <= i <= items.len(),
        decode_fields(items.take(i), init, step) is Err,
    ensures
        decode_fields(items, init, step) == decode_fields(items.take(i), init, step),
    decreases items.len() - i,
{
    if i < items.len() {
        lemma_decode_fields_step(items, i, init, step);
        lemma_decode_fields_error(items, i + 1, init, step);
    } else {
        assert(items.take(i) == items);
    }
}


/// Every kind is read back from the integer that encodes it, and no two kinds share one.
pub proof fn lemma_kind_id_roundtrip(kind: Kind, other: Kind)
    ensures
        kind_of_id(kind.spec_id()) == Some(kind),
        kind != other ==> kind.spec_id() != other.spec_id(),
{
}

} // verus!
