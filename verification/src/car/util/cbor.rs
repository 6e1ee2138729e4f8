//! CBOR data items and the accessors that the node decoders use on them.
use vstd::prelude::*;

use crate::car::node::{decode_fields, lemma_decode_fields_error, lemma_decode_fields_step, NodeError};
use crate::car::util::link::{cid_from_bytes, cid_parse, Cid};

verus! {

/// A decoded CBOR data item. Floating-point numbers and map entries are
/// recorded only by their kind: nothing in the Old Faithful node schema reads them.
#[derive(Debug)]
pub enum CborValue {
    Null,
    Bool(bool),
    Integer(i128),
    Float,
    Bytes(Vec<u8>),
    Text(String),
    Array(Vec<CborValue>),
    Dict,
    Tag(u64, Box<CborValue>),
}

#[verifier::external_type_specification]
#[verifier::external_body]
pub struct ExCborError(serde_cbor::Error);

#[verifier::external_type_specification]
#[verifier::external_body]
pub struct ExCborRawValue(serde_cbor::Value);

/// The data item that `serde_cbor::from_slice::<serde_cbor::Value>` reads from
/// `bytes`, or `None` where it refuses them (malformed input, trailing bytes,
/// nesting deeper than its limit).
pub uninterp spec fn cbor_decoding(bytes: Seq<u8>) -> Option<CborValue>;

/// Turns a `serde_cbor::Value` into the library's `CborValue`, variant by variant.
#[verifier::external_body]
fn cbor_value_of(value: serde_cbor::Value) -> CborValue {
    match value {
        serde_cbor::Value::Null => CborValue::Null,
        serde_cbor::Value::Bool(b) => CborValue::Bool(b),
        serde_cbor::Value::Integer(i) => CborValue::Integer(i),
        serde_cbor::Value::Float(_) => CborValue::Float,
        serde_cbor::Value::Bytes(b) => CborValue::Bytes(b),
        serde_cbor::Value::Text(t) => CborValue::Text(t),
        serde_cbor::Value::Array(a) => CborValue::Array(a.into_iter().map(cbor_value_of).collect()),
        serde_cbor::Value::Map(_) => CborValue::Dict,
        serde_cbor::Value::Tag(t, v) => CborValue::Tag(t, Box::new(cbor_value_of(*v))),
        _ => CborValue::Null,
    }
}

/// Calls `serde_cbor::from_slice::<serde_cbor::Value>`. Claimed: it succeeds
/// exactly when `cbor_decoding(bytes)` is some item, and then returns that item;
/// the result depends on the bytes alone.
#[verifier::external_body]
pub(crate) fn decode_cbor(bytes: &[u8]) -> (res: Result<CborValue, serde_cbor::Error>)
    ensures
        res is Ok <==> cbor_decoding(bytes@) is Some,
        res matches Ok(v) ==> cbor_decoding(bytes@) == Some(v),
{
    serde_cbor::from_slice::<serde_cbor::Value>(bytes).map(cbor_value_of)
}

/// The integer that `value` holds, if it is an integer item.
pub open spec fn int_of(value: CborValue) -> Option<i128> {
    match value {
        CborValue::Integer(v) => Some(v),
        _ => None,
    }
}

/// The optional integer that `value` holds: an integer, or null for none.
pub open spec fn int_opt_of(value: CborValue) -> Option<Option<i128>> {
    match value {
        CborValue::Integer(v) => Some(Some(v)),
        CborValue::Null => Some(None),
        _ => None,
    }
}

/// The bytes that `value` holds, if it is a byte string.
pub open spec fn bytes_of(value: CborValue) -> Option<Seq<u8>> {
    match value {
        CborValue::Bytes(b) => Some(b@),
        _ => None,
    }
}

/// The items of `value`, if it is an array.
pub open spec fn array_of(value: CborValue) -> Option<Seq<CborValue>> {
    match value {
        CborValue::Array(items) => Some(items@),
        _ => None,
    }
}

/// The binary CID inside a DAG-CBOR link: tag 42 around a byte string whose
/// first byte is the identity multibase prefix 0x00.
pub open spec fn link_bytes_of(value: CborValue) -> Option<Seq<u8>> {
    match value {
        CborValue::Tag(tag, inner) => if tag == 42 {
            match *inner {
                CborValue::Bytes(b) => if b@.len() > 0 && b@[0] == 0 {
                    Some(b@.subrange(1, b@.len() as int))
                } else {
                    None
                },
                _ => None,
            }
        } else {
            None
        },
        _ => None,
    }
}

/// What reading `value` as a link gives: the canonical CID bytes, or the error.
pub open spec fn spec_get_cid(value: CborValue, name: &'static str) -> Result<Seq<u8>, NodeError> {
    match link_bytes_of(value) {
        None => Err(NodeError::InvalidCborType(name)),
        Some(raw) => match cid_parse(raw) {
            Some(canonical) => Ok(canonical),
            None => Err(NodeError::InvalidCid(name)),
        },
    }
}

/// Reads an integer item; `name` labels the field in the error.
pub fn get_int(value: &CborValue, name: &'static str) -> (res: Result<i128, NodeError>)
    ensures
        res == (match int_of(*value) {
            Some(v) => Ok(v),
            None => Err::<i128, NodeError>(NodeError::InvalidCborType(name)),
        }),
{
    match value {
        CborValue::Integer(v) => Ok(*v),
        _ => Err(NodeError::InvalidCborType(name)),
    }
}

/// Reads an integer item or null.
pub fn get_int_opt(value: &CborValue, name: &'static str) -> (res: Result<Option<i128>, NodeError>)
    ensures
        res == (match int_opt_of(*value) {
            Some(v) => Ok(v),
            None => Err::<Option<i128>, NodeError>(NodeError::InvalidCborType(name)),
        }),
{
    match value {
        CborValue::Integer(v) => Ok(Some(*v)),
        CborValue::Null => Ok(None),
        _ => Err(NodeError::InvalidCborType(name)),
    }
}

/// Reads a byte string.
pub fn get_bytes(value: &CborValue, name: &'static str) -> (res: Result<Vec<u8>, NodeError>)
    ensures
        bytes_of(*value) is Some <==> res is Ok,
        res matches Ok(b) ==> bytes_of(*value) == Some(b@),
        res matches Err(e) ==> e == NodeError::InvalidCborType(name),
{
    match value {
        CborValue::Bytes(b) => Ok(vstd::slice::slice_to_vec(b.as_slice())),
        _ => Err(NodeError::InvalidCborType(name)),
    }
}

/// Reads an array.
pub fn get_array<'a>(value: &'a CborValue, name: &'static str) -> (res: Result<&'a Vec<CborValue>, NodeError>)
    ensures
        array_of(*value) is Some <==> res is Ok,
        res matches Ok(items) ==> array_of(*value) == Some(items@),
        res matches Err(e) ==> e == NodeError::InvalidCborType(name),
{
    match value {
        CborValue::Array(items) => Ok(items),
        _ => Err(NodeError::InvalidCborType(name)),
    }
}

/// Reads an array or null.
pub fn get_array_opt<'a>(value: &'a CborValue, name: &'static str) -> (res: Result<Option<&'a Vec<CborValue>>, NodeError>)
    ensures
        (array_of(*value) is Some || *value is Null) <==> res is Ok,
        res matches Ok(Some(items)) ==> array_of(*value) == Some(items@),
        res matches Ok(None) ==> *value is Null,
        res matches Err(e) ==> e == NodeError::InvalidCborType(name),
{
    match value {
        CborValue::Array(items) => Ok(Some(items)),
        CborValue::Null => Ok(None),
        _ => Err(NodeError::InvalidCborType(name)),
    }
}

/// Reads a DAG-CBOR link and parses the CID inside it.
pub fn get_cid(value: &CborValue, name: &'static str) -> (res: Result<Cid, NodeError>)
    ensures
        match (res, spec_get_cid(*value, name)) {
            (Ok(c), Ok(s)) => c@ == s,
            (Err(e), Err(f)) => e == f,
            _ => false,
        },
{
    match value {
        CborValue::Tag(tag, inner) => {
            if *tag != 42 {
                return Err(NodeError::InvalidCborType(name));
            }
            match &**inner {
                CborValue::Bytes(b) => {
                    if b.len() == 0 || b[0] != 0 {
                        return Err(NodeError::InvalidCborType(name));
                    }
                    let raw = vstd::slice::slice_subrange(b.as_slice(), 1, b.len());
                    match cid_from_bytes(raw) {
                        Ok(cid) => Ok(cid),
                        Err(_) => Err(NodeError::InvalidCid(name)),
                    }
                },
                _ => Err(NodeError::InvalidCborType(name)),
            }
        },
        _ => Err(NodeError::InvalidCborType(name)),
    }
}

/// Folds one more link into the list read so far.
pub open spec fn cids_step(acc: Seq<Seq<u8>>, i: int, v: CborValue, name: &'static str) -> Result<Seq<Seq<u8>>, NodeError> {
    match spec_get_cid(v, name) {
        Ok(c) => Ok(acc.push(c)),
        Err(e) => Err(e),
    }
}

pub open spec fn cids_fields(name: &'static str) -> spec_fn(Seq<Seq<u8>>, int, CborValue) -> Result<Seq<Seq<u8>>, NodeError> {
    |acc: Seq<Seq<u8>>, i: int, v: CborValue| cids_step(acc, i, v, name)
}

/// What reading `items` as a list of links gives.
pub open spec fn spec_get_cids(items: Seq<CborValue>, name: &'static str) -> Result<Seq<Seq<u8>>, NodeError> {
    decode_fields(items, Seq::empty(), cids_fields(name))
}

/// The canonical bytes of each CID in `cids`.
pub open spec fn cids_view(cids: Seq<Cid>) -> Seq<Seq<u8>> {
    cids.map_values(|c: Cid| c@)
}

/// Reads each item of `items` as a link, stopping at the first that is not one.
pub fn get_cids(items: &Vec<CborValue>, name: &'static str) -> (res: Result<Vec<Cid>, NodeError>)
    ensures
        match (res, spec_get_cids(items@, name)) {
            (Ok(c), Ok(s)) => cids_view(c@) == s,
            (Err(e), Err(f)) => e == f,
            _ => false,
        },
{
    let mut out: Vec<Cid> = Vec::new();
    let mut i: usize = 0;
    assert(cids_view(out@) =~= Seq::<Seq<u8>>::empty());
    while i < items.len()
        invariant
            i <= items@.len(),
            decode_fields(items@.take(i as int), Seq::empty(), cids_fields(name)) == Ok::<Seq<Seq<u8>>, NodeError>(cids_view(out@)),
        decreases items@.len() - i,
    {
        proof {
            lemma_decode_fields_step(items@, i as int, Seq::empty(), cids_fields(name));
            if decode_fields(items@.take(i + 1), Seq::empty(), cids_fields(name)) is Err {
                lemma_decode_fields_error(items@, i + 1, Seq::empty(), cids_fields(name));
            }
        }
        let cid = get_cid(&items[i], name)?;
        let ghost prev = out@;
        out.push(cid);
        assert(cids_view(out@) =~= cids_view(prev).push(cid@));
        i += 1;
    }
    assert(items@.take(i as int) == items@);
    Ok(out)
}

/// Reads an array of links.
pub fn get_array_cids(value: &CborValue, name: &'static str, item_name: &'static str) -> (res: Result<Vec<Cid>, NodeError>)
    ensures
        match (res, spec_get_array_cids(*value, name, item_name)) {
            (Ok(c), Ok(s)) => cids_view(c@) == s,
            (Err(e), Err(f)) => e == f,
            _ => false,
        },
{
    let items = get_array(value, name)?;
    get_cids(items, item_name)
}

/// What reading `value` as an array of links gives.
pub open spec fn spec_get_array_cids(value: CborValue, name: &'static str, item_name: &'static str) -> Result<Seq<Seq<u8>>, NodeError> {
    match array_of(value) {
        Some(items) => spec_get_cids(items, item_name),
        None => Err(NodeError::InvalidCborType(name)),
    }
}

/// Reading a list of links succeeds exactly when every item is a link, and
/// then gives one CID per item, in order: CID `i` is the one item `i` holds.
/// Where some item is not a link, the first such item's error is the result.
pub proof fn lemma_get_cids_exact(items: Seq<CborValue>, name: &'static str)
    ensures
        spec_get_cids(items, name) is Ok <==> forall|i: int| 0 <= i < items.len() ==> (#[trigger] spec_get_cid(items[i], name)) is Ok,
        spec_get_cids(items, name) matches Ok(c) ==> {
            &&& c.len() == items.len()
            &&& forall|i: int| 0 <= i < items.len() ==> Ok::<Seq<u8>, NodeError>(#[trigger] c[i]) == spec_get_cid(items[i], name)
        },
        spec_get_cids(items, name) is Err ==> exists|i: int| {
            &&& 0 <= i < items.len()
            &&& (#[trigger] spec_get_cid(items[i], name)) is Err
            &&& spec_get_cids(items, name) == Err::<Seq<Seq<u8>>, NodeError>(spec_get_cid(items[i], name)->Err_0)
            &&& forall|j: int| 0 <= j < i ==> (#[trigger] spec_get_cid(items[j], name)) is Ok
        },
    decreases items.len(),
{
    if items.len() > 0 {
        let init = items.drop_last();
        lemma_get_cids_exact(init, name);
        let n = items.len() - 1;
        assert forall|i: int| 0 <= i < n implies items[i] == init[i] by {}
        match spec_get_cids(init, name) {
            Ok(c0) => {
                if spec_get_cid(items.last(), name) is Ok {
                    let c = spec_get_cids(items, name)->Ok_0;
                    assert forall|i: int| 0 <= i < items.len() implies (#[trigger] spec_get_cid(items[i], name)) is Ok by {
                        if i < n {
                            assert(spec_get_cid(init[i], name) is Ok);
                        }
                    }
                    assert forall|i: int| 0 <= i < items.len() implies Ok::<Seq<u8>, NodeError>(#[trigger] c[i]) == spec_get_cid(items[i], name) by {
                        if i < n {
                            assert(Ok::<Seq<u8>, NodeError>(c0[i]) == spec_get_cid(init[i], name));
                        }
                    }
                } else {
                    assert(spec_get_cid(items[n], name) is Err);
                    assert forall|j: int| 0 <= j < n implies (#[trigger] spec_get_cid(items[j], name)) is Ok by {
                        assert(spec_get_cid(init[j], name) is Ok);
                    }
                }
            },
            Err(_) => {
                let i = choose|i: int| {
                    &&& 0 <= i < init.len()
                    &&& (#[trigger] spec_get_cid(init[i], name)) is Err
                    &&& spec_get_cids(init, name) == Err::<Seq<Seq<u8>>, NodeError>(spec_get_cid(init[i], name)->Err_0)
                    &&& forall|j: int| 0 <= j < i ==> (#[trigger] spec_get_cid(init[j], name)) is Ok
                };
                assert(spec_get_cid(items[i], name) is Err);
                assert forall|j: int| 0 <= j < i implies (#[trigger] spec_get_cid(items[j], name)) is Ok by {
                    assert(spec_get_cid(init[j], name) is Ok);
                }
            },
        }
    }
}

/// A link is read only from tag 42 around a byte string that opens with the
/// identity prefix 0x00; its CID is the one parsed from the bytes after that
/// prefix. Any other item is a type error, and bytes after the prefix that are
/// no CID are a CID error.
pub proof fn lemma_link_shape(value: CborValue, name: &'static str)
    ensures
        spec_get_cid(value, name) matches Ok(c) ==> (value matches CborValue::Tag(t, inner) && t == 42
            && (match *inner {
                CborValue::Bytes(b) => b@.len() > 0 && b@[0] == 0 && cid_parse(b@.subrange(1, b@.len() as int)) == Some(c),
                _ => false,
            })),
        spec_get_cid(value, name) matches Err(e) ==> (e == NodeError::InvalidCborType(name) || e == NodeError::InvalidCid(name)),
        !(value is Tag) ==> spec_get_cid(value, name) == Err::<Seq<u8>, NodeError>(NodeError::InvalidCborType(name)),
        (value matches CborValue::Tag(t, _) && t != 42) ==> spec_get_cid(value, name) == Err::<Seq<u8>, NodeError>(NodeError::InvalidCborType(name)),
{
}

} // verus!
