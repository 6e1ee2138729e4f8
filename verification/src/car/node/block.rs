//! Block nodes: a slot's entries, shredding layout and metadata.
//!
//! Schema (a CBOR tuple): `[kind, slot, [Shredding], [&Entry], SlotMeta, &Rewards]`.
use vstd::prelude::*;

use crate::car::node::{
    decode_fields, decoded_as, from_cbor_bytes, lemma_decode_fields_error,
    lemma_decode_fields_step, spec_check_kind, Kind, NodeError,
};
use crate::car::util::cbor::{
    array_of, decode_cbor, get_array, get_array_cids, get_int, get_int_opt, int_of, int_opt_of,
    spec_get_array_cids, spec_get_cid, get_cid, cids_view, lemma_get_cids_exact, CborValue,
};
use crate::car::node::dataframe::{is_int_or_null, opt_field};
use crate::car::util::link::{default_cid_bytes, Cid};

verus! {

/// Where a block's entries end among its shreds.
#[derive(Clone, Copy, Debug, PartialEq, Eq, Hash, Structural)]
pub struct Shredding {
    pub entry_end_idx: i64,
    pub shred_end_idx: i64,
}

impl View for Shredding {
    type V = Shredding;

    open spec fn view(&self) -> Shredding {
        *self
    }
}

/// The slot metadata of a block.
#[derive(Clone, Copy, Debug, PartialEq, Eq, Hash, Structural)]
pub struct SlotMeta {
    pub parent_slot: u64,
    pub blocktime: u64,
    pub block_height: Option<u64>,
}

impl View for SlotMeta {
    type V = SlotMeta;

    open spec fn view(&self) -> SlotMeta {
        *self
    }
}

/// A block node.
#[derive(Debug, Clone, PartialEq, Eq, Hash)]
pub struct Block {
    pub slot: u64,
    pub shredding: Vec<Shredding>,
    pub entries: Vec<Cid>,
    pub meta: SlotMeta,
    pub rewards: Cid,
}

/// The mathematical content of a block: links by their canonical CID bytes.
pub struct BlockView {
    pub slot: u64,
    pub shredding: Seq<Shredding>,
    pub entries: Seq<Seq<u8>>,
    pub meta: SlotMeta,
    pub rewards: Seq<u8>,
}

impl View for Block {
    type V = BlockView;

    open spec fn view(&self) -> BlockView {
        BlockView {
            slot: self.slot,
            shredding: self.shredding@,
            entries: cids_view(self.entries@),
            meta: self.meta,
            rewards: self.rewards@,
        }
    }
}

/// The shredding record that fields not yet read leave in place.
pub open spec fn shredding_default() -> Shredding {
    Shredding { entry_end_idx: 0, shred_end_idx: 0 }
}

/// Folds item `i` of a shredding tuple into `acc`.
pub open spec fn shredding_step(acc: Shredding, i: int, v: CborValue) -> Result<Shredding, NodeError> {
    if i == 0 {
        match int_of(v) {
            Some(x) => Ok(Shredding { entry_end_idx: x as i64, ..acc }),
            None => Err(NodeError::InvalidCborType("Shredding::entry_end_idx")),
        }
    } else if i == 1 {
        match int_of(v) {
            Some(x) => Ok(Shredding { shred_end_idx: x as i64, ..acc }),
            None => Err(NodeError::InvalidCborType("Shredding::shred_end_idx")),
        }
    } else {
        Err(NodeError::UnexpectedCborValues)
    }
}

pub open spec fn shredding_fields() -> spec_fn(Shredding, int, CborValue) -> Result<Shredding, NodeError> {
    |acc: Shredding, i: int, v: CborValue| shredding_step(acc, i, v)
}

/// What decoding `value` as a shredding record gives.
pub open spec fn spec_shredding(value: CborValue) -> Result<Shredding, NodeError> {
    match array_of(value) {
        Some(items) => decode_fields(items, shredding_default(), shredding_fields()),
        None => Err(NodeError::InvalidCborType("Shredding")),
    }
}

impl Shredding {
    /// Decodes a shredding record from its CBOR tuple `[entry_end_idx, shred_end_idx]`.
    pub fn try_from_cbor(value: &CborValue) -> (res: Result<Shredding, NodeError>)
        ensures
            res == spec_shredding(*value),
    {
        let items = get_array(value, "Shredding")?;
        let mut node = Shredding { entry_end_idx: 0, shred_end_idx: 0 };
        let mut i: usize = 0;
        while i < items.len()
            invariant
                i <= items@.len(),
                array_of(*value) == Some(items@),
                decode_fields(items@.take(i as int), shredding_default(), shredding_fields()) == Ok::<Shredding, NodeError>(node),
            decreases items@.len() - i,
        {
            proof {
                lemma_decode_fields_step(items@, i as int, shredding_default(), shredding_fields());
                if decode_fields(items@.take(i + 1), shredding_default(), shredding_fields()) is Err {
                    lemma_decode_fields_error(items@, i + 1, shredding_default(), shredding_fields());
                }
            }
            let v = &items[i];
            if i == 0 {
                node.entry_end_idx = get_int(v, "Shredding::entry_end_idx")? as i64;
            } else if i == 1 {
                node.shred_end_idx = get_int(v, "Shredding::shred_end_idx")? as i64;
            } else {
                return Err(NodeError::UnexpectedCborValues);
            }
            i += 1;
        }
        assert(items@.take(i as int) == items@);
        Ok(node)
    }
}

/// The slot metadata that fields not yet read leave in place.
pub open spec fn slot_meta_default() -> SlotMeta {
    SlotMeta { parent_slot: 0, blocktime: 0, block_height: None }
}

/// Folds item `i` of a slot-metadata tuple into `acc`.
pub open spec fn slot_meta_step(acc: SlotMeta, i: int, v: CborValue) -> Result<SlotMeta, NodeError> {
    if i == 0 {
        match int_of(v) {
            Some(x) => Ok(SlotMeta { parent_slot: x as u64, ..acc }),
            None => Err(NodeError::InvalidCborType("SlotMeta::parent_slot")),
        }
    } else if i == 1 {
        match int_of(v) {
            Some(x) => Ok(SlotMeta { blocktime: x as u64, ..acc }),
            None => Err(NodeError::InvalidCborType("SlotMeta::blocktime")),
        }
    } else if i == 2 {
        match int_opt_of(v) {
            Some(Some(x)) => Ok(SlotMeta { block_height: Some(x as u64), ..acc }),
            Some(None) => Ok(SlotMeta { block_height: None, ..acc }),
            None => Err(NodeError::InvalidCborType("SlotMeta::block_height")),
        }
    } else {
        Err(NodeError::UnexpectedCborValues)
    }
}

pub open spec fn slot_meta_fields() -> spec_fn(SlotMeta, int, CborValue) -> Result<SlotMeta, NodeError> {
    |acc: SlotMeta, i: int, v: CborValue| slot_meta_step(acc, i, v)
}

/// What decoding `value` as slot metadata gives.
pub open spec fn spec_slot_meta(value: CborValue) -> Result<SlotMeta, NodeError> {
    match array_of(value) {
        Some(items) => decode_fields(items, slot_meta_default(), slot_meta_fields()),
        None => Err(NodeError::InvalidCborType("SlotMeta")),
    }
}

impl SlotMeta {
    /// Decodes slot metadata from its CBOR tuple `[parent_slot, blocktime, block_height?]`.
    pub fn try_from_cbor(value: &CborValue) -> (res: Result<SlotMeta, NodeError>)
        ensures
            res == spec_slot_meta(*value),
    {
        let items = get_array(value, "SlotMeta")?;
        let mut node = SlotMeta { parent_slot: 0, blocktime: 0, block_height: None };
        let mut i: usize = 0;
        while i < items.len()
            invariant
                i <= items@.len(),
                array_of(*value) == Some(items@),
                decode_fields(items@.take(i as int), slot_meta_default(), slot_meta_fields()) == Ok::<SlotMeta, NodeError>(node),
            decreases items@.len() - i,
        {
            proof {
                lemma_decode_fields_step(items@, i as int, slot_meta_default(), slot_meta_fields());
                if decode_fields(items@.take(i + 1), slot_meta_default(), slot_meta_fields()) is Err {
                    lemma_decode_fields_error(items@, i + 1, slot_meta_default(), slot_meta_fields());
                }
            }
            let v = &items[i];
            if i == 0 {
                node.parent_slot = get_int(v, "SlotMeta::parent_slot")? as u64;
            } else if i == 1 {
                node.blocktime = get_int(v, "SlotMeta::blocktime")? as u64;
            } else if i == 2 {
                node.block_height = match get_int_opt(v, "SlotMeta::block_height")? {
                    Some(x) => Some(x as u64),
                    None => None,
                };
            } else {
                return Err(NodeError::UnexpectedCborValues);
            }
            i += 1;
        }
        assert(items@.take(i as int) == items@);
        Ok(node)
    }
}

/// Folds one more shredding record into the list read so far.
pub open spec fn shreddings_step(acc: Seq<Shredding>, i: int, v: CborValue) -> Result<Seq<Shredding>, NodeError> {
    match spec_shredding(v) {
        Ok(s) => Ok(acc.push(s)),
        Err(e) => Err(e),
    }
}

pub open spec fn shreddings_fields() -> spec_fn(Seq<Shredding>, int, CborValue) -> Result<Seq<Shredding>, NodeError> {
    |acc: Seq<Shredding>, i: int, v: CborValue| shreddings_step(acc, i, v)
}

/// What decoding `value` as the list of shredding records gives.
pub open spec fn spec_shreddings(value: CborValue) -> Result<Seq<Shredding>, NodeError> {
    match array_of(value) {
        Some(items) => decode_fields(items, Seq::empty(), shreddings_fields()),
        None => Err(NodeError::InvalidCborType("Block::shredding")),
    }
}

/// Decodes the list of shredding records of a block.
fn get_shreddings(value: &CborValue) -> (res: Result<Vec<Shredding>, NodeError>)
    ensures
        match (res, spec_shreddings(*value)) {
            (Ok(v), Ok(s)) => v@ == s,
            (Err(e), Err(f)) => e == f,
            _ => false,
        },
{
    let items = get_array(value, "Block::shredding")?;
    let mut out: Vec<Shredding> = Vec::new();
    let mut i: usize = 0;
    while i < items.len()
        invariant
            i <= items@.len(),
            array_of(*value) == Some(items@),
            decode_fields(items@.take(i as int), Seq::empty(), shreddings_fields()) == Ok::<Seq<Shredding>, NodeError>(out@),
        decreases items@.len() - i,
    {
        proof {
            lemma_decode_fields_step(items@, i as int, Seq::empty(), shreddings_fields());
            if decode_fields(items@.take(i + 1), Seq::empty(), shreddings_fields()) is Err {
                lemma_decode_fields_error(items@, i + 1, Seq::empty(), shreddings_fields());
            }
        }
        let s = Shredding::try_from_cbor(&items[i])?;
        out.push(s);
        i += 1;
    }
    assert(items@.take(i as int) == items@);
    Ok(out)
}

/// The block that fields not yet read leave in place.
pub open spec fn block_default() -> BlockView {
    BlockView {
        slot: 0,
        shredding: Seq::empty(),
        entries: Seq::empty(),
        meta: slot_meta_default(),
        rewards: default_cid_bytes(),
    }
}

/// Folds item `i` of a block tuple into `acc`.
pub open spec fn block_step(acc: BlockView, i: int, v: CborValue) -> Result<BlockView, NodeError> {
    if i == 0 {
        match int_of(v) {
            Some(k) => match spec_check_kind(k as u64, Kind::Block) {
                Ok(_) => Ok(acc),
                Err(e) => Err(e),
            },
            None => Err(NodeError::InvalidCborType("Block::kind")),
        }
    } else if i == 1 {
        match int_of(v) {
            Some(x) => Ok(BlockView { slot: x as u64, ..acc }),
            None => Err(NodeError::InvalidCborType("Block::slot")),
        }
    } else if i == 2 {
        match spec_shreddings(v) {
            Ok(s) => Ok(BlockView { shredding: s, ..acc }),
            Err(e) => Err(e),
        }
    } else if i == 3 {
        match spec_get_array_cids(v, "Block::entries", "Block::entries[]") {
            Ok(c) => Ok(BlockView { entries: c, ..acc }),
            Err(e) => Err(e),
        }
    } else if i == 4 {
        match spec_slot_meta(v) {
            Ok(m) => Ok(BlockView { meta: m, ..acc }),
            Err(e) => Err(e),
        }
    } else if i == 5 {
        match spec_get_cid(v, "Block::rewards") {
            Ok(c) => Ok(BlockView { rewards: c, ..acc }),
            Err(e) => Err(e),
        }
    } else {
        Err(NodeError::UnexpectedCborValues)
    }
}

pub open spec fn block_fields() -> spec_fn(BlockView, int, CborValue) -> Result<BlockView, NodeError> {
    |acc: BlockView, i: int, v: CborValue| block_step(acc, i, v)
}

/// What decoding `value` as a block gives.
pub open spec fn spec_block(value: CborValue) -> Result<BlockView, NodeError> {
    match array_of(value) {
        Some(items) => decode_fields(items, block_default(), block_fields()),
        None => Err(NodeError::InvalidCborType("Block")),
    }
}

pub open spec fn block_decoder() -> spec_fn(CborValue) -> Result<BlockView, NodeError> {
    |v: CborValue| spec_block(v)
}

impl Block {
    /// Decodes a block from the bytes of its CBOR tuple.
    pub fn try_from(value: &[u8]) -> (res: Result<Block, NodeError>)
        ensures
            decoded_as(res, from_cbor_bytes(value@, block_decoder())),
    {
        match decode_cbor(value) {
            Ok(v) => Block::try_from_cbor(&v),
            Err(_) => Err(NodeError::InvalidCbor),
        }
    }

    /// Decodes a block from its CBOR tuple. Missing trailing fields keep their defaults.
    pub fn try_from_cbor(value: &CborValue) -> (res: Result<Block, NodeError>)
        ensures
            decoded_as(res, spec_block(*value)),
    {
        let items = get_array(value, "Block")?;
        let mut node = Block {
            slot: 0,
            shredding: Vec::new(),
            entries: Vec::new(),
            meta: SlotMeta { parent_slot: 0, blocktime: 0, block_height: None },
            rewards: Cid::default(),
        };
        assert(node@ =~= block_default()) by {
            assert(cids_view(node.entries@) =~= Seq::<Seq<u8>>::empty());
        }
        let mut i: usize = 0;
        while i < items.len()
            invariant
                i <= items@.len(),
                array_of(*value) == Some(items@),
                decode_fields(items@.take(i as int), block_default(), block_fields()) == Ok::<BlockView, NodeError>(node@),
            decreases items@.len() - i,
        {
            proof {
                lemma_decode_fields_step(items@, i as int, block_default(), block_fields());
                if decode_fields(items@.take(i + 1), block_default(), block_fields()) is Err {
                    lemma_decode_fields_error(items@, i + 1, block_default(), block_fields());
                }
            }
            let v = &items[i];
            if i == 0 {
                let kind = get_int(v, "Block::kind")?;
                NodeError::assert_invalid_kind(kind as u64, Kind::Block)?;
            } else if i == 1 {
                node.slot = get_int(v, "Block::slot")? as u64;
            } else if i == 2 {
                node.shredding = get_shreddings(v)?;
            } else if i == 3 {
                node.entries = get_array_cids(v, "Block::entries", "Block::entries[]")?;
            } else if i == 4 {
                node.meta = SlotMeta::try_from_cbor(v)?;
            } else if i == 5 {
                node.rewards = get_cid(v, "Block::rewards")?;
            } else {
                return Err(NodeError::UnexpectedCborValues);
            }
            i += 1;
        }
        assert(items@.take(i as int) == items@);
        Ok(node)
    }
}

/// A shredding record decodes from a tuple of at most two integers, the entry
/// and shred end indexes, each kept as its low 64 bits (signed); an item left
/// out is zero. Two integers always decode.
pub proof fn lemma_shredding_fields(value: CborValue)
    ensures
        spec_shredding(value) matches Ok(s) ==> {
            &&& array_of(value) is Some
            &&& ({
                let items = array_of(value)->Some_0;
                &&& items.len() <= 2
                &&& s.entry_end_idx == (if items.len() > 0 { (int_of(items[0])->Some_0) as i64 } else { 0 })
                &&& items.len() > 0 ==> int_of(items[0]) is Some
                &&& s.shred_end_idx == (if items.len() > 1 { (int_of(items[1])->Some_0) as i64 } else { 0 })
                &&& items.len() > 1 ==> int_of(items[1]) is Some
            })
        },
        (array_of(value) matches Some(items) && items.len() == 2 && int_of(items[0]) is Some && int_of(items[1]) is Some)
            ==> spec_shredding(value) is Ok,
{
    if let Some(items) = array_of(value) {
        let f = shredding_fields();
        let d = shredding_default();
        assert(items.take(0) =~= Seq::<CborValue>::empty());
        if items.len() > 0 { lemma_decode_fields_step(items, 0, d, f); }
        if items.len() > 1 { lemma_decode_fields_step(items, 1, d, f); }
        if items.len() > 2 {
            lemma_decode_fields_step(items, 2, d, f);
            lemma_decode_fields_error(items, 3, d, f);
        } else {
            assert(items.take(items.len() as int) =~= items);
        }
    }
}

/// Slot metadata decodes from a tuple of at most three items: the parent slot
/// and the block time (integers kept as their low 64 bits) and the optional
/// block height (an integer's low 64 bits, or null); an item left out keeps
/// its default. Three items of those types always decode.
pub proof fn lemma_slot_meta_fields(value: CborValue)
    ensures
        spec_slot_meta(value) matches Ok(m) ==> {
            &&& array_of(value) is Some
            &&& ({
                let items = array_of(value)->Some_0;
                &&& items.len() <= 3
                &&& m.parent_slot == (if items.len() > 0 { (int_of(items[0])->Some_0) as u64 } else { 0 })
                &&& items.len() > 0 ==> int_of(items[0]) is Some
                &&& m.blocktime == (if items.len() > 1 { (int_of(items[1])->Some_0) as u64 } else { 0 })
                &&& items.len() > 1 ==> int_of(items[1]) is Some
                &&& items.len() > 2 ==> is_int_or_null(items[2]) && m.block_height == opt_field(items[2])
                &&& items.len() <= 2 ==> m.block_height is None
            })
        },
        (array_of(value) matches Some(items) && items.len() == 3 && int_of(items[0]) is Some
            && int_of(items[1]) is Some && is_int_or_null(items[2]))
            ==> spec_slot_meta(value) is Ok,
{
    if let Some(items) = array_of(value) {
        let f = slot_meta_fields();
        let d = slot_meta_default();
        assert(items.take(0) =~= Seq::<CborValue>::empty());
        if items.len() > 0 { lemma_decode_fields_step(items, 0, d, f); }
        if items.len() > 1 { lemma_decode_fields_step(items, 1, d, f); }
        if items.len() > 2 { lemma_decode_fields_step(items, 2, d, f); }
        if items.len() > 3 {
            lemma_decode_fields_step(items, 3, d, f);
            lemma_decode_fields_error(items, 4, d, f);
        } else {
            assert(items.take(items.len() as int) =~= items);
        }
    }
}

/// Reading a list of shredding records succeeds exactly when every item
/// decodes as one, and then gives one record per item, in order.
pub proof fn lemma_shreddings_exact(items: Seq<CborValue>)
    ensures
        decode_fields(items, Seq::empty(), shreddings_fields()) is Ok
            <==> forall|i: int| 0 <= i < items.len() ==> (#[trigger] spec_shredding(items[i])) is Ok,
        decode_fields(items, Seq::empty(), shreddings_fields()) matches Ok(l) ==> {
            &&& l.len() == items.len()
            &&& forall|i: int| 0 <= i < items.len() ==> Ok::<Shredding, NodeError>(#[trigger] l[i]) == spec_shredding(items[i])
        },
    decreases items.len(),
{
    if items.len() > 0 {
        let init = items.drop_last();
        lemma_shreddings_exact(init);
        let n = items.len() - 1;
        assert forall|i: int| 0 <= i < n implies items[i] == init[i] by {}
        match decode_fields(init, Seq::empty(), shreddings_fields()) {
            Ok(l0) => {
                if spec_shredding(items.last()) is Ok {
                    let l = decode_fields(items, Seq::empty(), shreddings_fields())->Ok_0;
                    assert forall|i: int| 0 <= i < items.len() implies (#[trigger] spec_shredding(items[i])) is Ok by {
                        if i < n {
                            assert(spec_shredding(init[i]) is Ok);
                        }
                    }
                    assert forall|i: int| 0 <= i < items.len() implies Ok::<Shredding, NodeError>(#[trigger] l[i]) == spec_shredding(items[i]) by {
                        if i < n {
                            assert(Ok::<Shredding, NodeError>(l0[i]) == spec_shredding(init[i]));
                        }
                    }
                } else {
                    assert(spec_shredding(items[n]) is Err);
                }
            },
            Err(_) => {
                let i = choose|i: int| 0 <= i < init.len() && !((#[trigger] spec_shredding(init[i])) is Ok);
                assert(spec_shredding(items[i]) is Err);
            },
        }
    }
}

/// A block decodes from a tuple of at most six items: the block kind tag (2),
/// then the slot (its low 64 bits), the shredding records (one per element of
/// the third item, in order), the entry links (one per element of the fourth
/// item, in order), the slot metadata and the rewards link, each read from its
/// own item; an item left out keeps its default. A full tuple whose items
/// decode always decodes.
pub proof fn lemma_block_fields(value: CborValue)
    ensures
        spec_block(value) matches Ok(b) ==> {
            &&& array_of(value) is Some
            &&& ({
                let items = array_of(value)->Some_0;
                &&& items.len() <= 6
                &&& items.len() > 0 ==> (int_of(items[0]) matches Some(k) && k as u64 == 2)
                &&& b.slot == (if items.len() > 1 { (int_of(items[1])->Some_0) as u64 } else { 0 })
                &&& items.len() > 1 ==> int_of(items[1]) is Some
                &&& items.len() > 2 ==> (array_of(items[2]) matches Some(list) && b.shredding.len() == list.len()
                    && forall|j: int| 0 <= j < list.len()
                        ==> Ok::<Shredding, NodeError>(#[trigger] b.shredding[j]) == spec_shredding(list[j]))
                &&& items.len() <= 2 ==> b.shredding.len() == 0
                &&& items.len() > 3 ==> (array_of(items[3]) matches Some(links) && b.entries.len() == links.len()
                    && forall|j: int| 0 <= j < links.len()
                        ==> Ok::<Seq<u8>, NodeError>(#[trigger] b.entries[j]) == spec_get_cid(links[j], "Block::entries[]"))
                &&& items.len() <= 3 ==> b.entries.len() == 0
                &&& items.len() > 4 ==> Ok::<SlotMeta, NodeError>(b.meta) == spec_slot_meta(items[4])
                &&& items.len() <= 4 ==> b.meta == slot_meta_default()
                &&& items.len() > 5 ==> Ok::<Seq<u8>, NodeError>(b.rewards) == spec_get_cid(items[5], "Block::rewards")
                &&& items.len() <= 5 ==> b.rewards == default_cid_bytes()
            })
        },
        (array_of(value) matches Some(items) && items.len() == 6 && int_of(items[0]) == Some(2i128)
            && int_of(items[1]) is Some
            && (array_of(items[2]) matches Some(list)
                && forall|j: int| 0 <= j < list.len() ==> (#[trigger] spec_shredding(list[j])) is Ok)
            && (array_of(items[3]) matches Some(links)
                && forall|j: int| 0 <= j < links.len() ==> (#[trigger] spec_get_cid(links[j], "Block::entries[]")) is Ok)
            && spec_slot_meta(items[4]) is Ok
            && spec_get_cid(items[5], "Block::rewards") is Ok)
            ==> spec_block(value) is Ok,
{
    if let Some(items) = array_of(value) {
        let f = block_fields();
        let d = block_default();
        assert(items.take(0) =~= Seq::<CborValue>::empty());
        if items.len() > 0 { lemma_decode_fields_step(items, 0, d, f); }
        if items.len() > 1 { lemma_decode_fields_step(items, 1, d, f); }
        if items.len() > 2 {
            lemma_decode_fields_step(items, 2, d, f);
            if let Some(list) = array_of(items[2]) {
                lemma_shreddings_exact(list);
            }
        }
        if items.len() > 3 {
            lemma_decode_fields_step(items, 3, d, f);
            if let Some(links) = array_of(items[3]) {
                lemma_get_cids_exact(links, "Block::entries[]");
            }
        }
        if items.len() > 4 { lemma_decode_fields_step(items, 4, d, f); }
        if items.len() > 5 { lemma_decode_fields_step(items, 5, d, f); }
        if items.len() > 6 {
            lemma_decode_fields_step(items, 6, d, f);
            lemma_decode_fields_error(items, 7, d, f);
        } else {
            assert(items.take(items.len() as int) =~= items);
        }
    }
}

} // verus!
