//! Rewards nodes: the rewards of a block, as a data frame.
//!
//! Schema (a CBOR tuple): `[kind, slot, DataFrame]`.
use vstd::prelude::*;

use crate::car::node::dataframe::{dataframe_default, spec_dataframe, DataFrame, DataFrameView};
use crate::car::node::{
    decode_fields, decoded_as, from_cbor_bytes, lemma_decode_fields_error,
    lemma_decode_fields_step, spec_check_kind, Kind, NodeError,
};
use crate::car::util::cbor::{array_of, cids_view, decode_cbor, get_array, get_int, int_of, CborValue};

verus! {

/// A rewards node: the slot, and the block's rewards payload.
#[derive(Debug, Clone, PartialEq, Eq, Hash)]
pub struct BlockRewards {
    pub slot: u64,
    pub data: DataFrame,
}

/// The mathematical content of a rewards node.
pub struct BlockRewardsView {
    pub slot: u64,
    pub data: DataFrameView,
}

impl View for BlockRewards {
    type V = BlockRewardsView;

    open spec fn view(&self) -> BlockRewardsView {
        BlockRewardsView { slot: self.slot, data: self.data@ }
    }
}

/// The rewards node that fields not yet read leave in place.
pub open spec fn rewards_default() -> BlockRewardsView {
    BlockRewardsView { slot: 0, data: dataframe_default() }
}

/// Folds item `i` of a rewards tuple into `acc`.
pub open spec fn rewards_step(acc: BlockRewardsView, i: int, v: CborValue) -> Result<BlockRewardsView, NodeError> {
    if i == 0 {
        match int_of(v) {
            Some(k) => match spec_check_kind(k as u64, Kind::Rewards) {
                Ok(_) => Ok(acc),
                Err(e) => Err(e),
            },
            None => Err(NodeError::InvalidCborType("Rewards::kind")),
        }
    } else if i == 1 {
        match int_of(v) {
            Some(x) => Ok(BlockRewardsView { slot: x as u64, ..acc }),
            None => Err(NodeError::InvalidCborType("Rewards::slot")),
        }
    } else if i == 2 {
        match spec_dataframe(v) {
            Ok(d) => Ok(BlockRewardsView { data: d, ..acc }),
            Err(e) => Err(e),
        }
    } else {
        Err(NodeError::UnexpectedCborValues)
    }
}

pub open spec fn rewards_fields() -> spec_fn(BlockRewardsView, int, CborValue) -> Result<BlockRewardsView, NodeError> {
    |acc: BlockRewardsView, i: int, v: CborValue| rewards_step(acc, i, v)
}

/// What decoding `value` as a rewards node gives.
pub open spec fn spec_rewards(value: CborValue) -> Result<BlockRewardsView, NodeError> {
    match array_of(value) {
        Some(items) => decode_fields(items, rewards_default(), rewards_fields()),
        None => Err(NodeError::InvalidCborType("Rewards")),
    }
}

pub open spec fn rewards_decoder() -> spec_fn(CborValue) -> Result<BlockRewardsView, NodeError> {
    |v: CborValue| spec_rewards(v)
}

impl BlockRewards {
    /// Decodes a rewards node from the bytes of its CBOR tuple.
    pub fn try_from(value: &[u8]) -> (res: Result<BlockRewards, NodeError>)
        ensures
            decoded_as(res, from_cbor_bytes(value@, rewards_decoder())),
    {
        match decode_cbor(value) {
            Ok(v) => BlockRewards::try_from_cbor(&v),
            Err(_) => Err(NodeError::InvalidCbor),
        }
    }

    /// Decodes a rewards node from its CBOR tuple. Missing trailing fields keep their defaults.
    pub fn try_from_cbor(value: &CborValue) -> (res: Result<BlockRewards, NodeError>)
        ensures
            decoded_as(res, spec_rewards(*value)),
    {
        let items = get_array(value, "Rewards")?;
        let mut node = BlockRewards {
            slot: 0,
            data: DataFrame { hash: None, index: None, total: None, data: Vec::new(), next: Vec::new() },
        };
        assert(node@ =~= rewards_default()) by {
            assert(cids_view(node.data.next@) =~= Seq::<Seq<u8>>::empty());
            assert(node.data@ =~= dataframe_default());
        }
        let mut i: usize = 0;
        while i < items.len()
            invariant
                i <= items@.len(),
                array_of(*value) == Some(items@),
                decode_fields(items@.take(i as int), rewards_default(), rewards_fields()) == Ok::<BlockRewardsView, NodeError>(node@),
            decreases items@.len() - i,
        {
            proof {
                lemma_decode_fields_step(items@, i as int, rewards_default(), rewards_fields());
                if decode_fields(items@.take(i + 1), rewards_default(), rewards_fields()) is Err {
                    lemma_decode_fields_error(items@, i + 1, rewards_default(), rewards_fields());
                }
            }
            let v = &items[i];
            if i == 0 {
                let kind = get_int(v, "Rewards::kind")?;
                NodeError::assert_invalid_kind(kind as u64, Kind::Rewards)?;
            } else if i == 1 {
                node.slot = get_int(v, "Rewards::slot")? as u64;
            } else if i == 2 {
                node.data = DataFrame::try_from_cbor(v)?;
            } else {
                return Err(NodeError::UnexpectedCborValues);
            }
            i += 1;
        }
        assert(items@.take(i as int) == items@);
        Ok(node)
    }
}

/// A rewards node decodes from a tuple of at most three items: the rewards
/// kind tag (5), then the slot (its low 64 bits) and the data frame of the
/// rewards (the data-frame decoding of its own item); an item left out keeps
/// its default. A full tuple whose items decode always decodes.
pub proof fn lemma_rewards_fields(value: CborValue)
    ensures
        spec_rewards(value) matches Ok(r) ==> {
            &&& array_of(value) is Some
            &&& ({
                let items = array_of(value)->Some_0;
                &&& items.len() <= 3
                &&& items.len() > 0 ==> (int_of(items[0]) matches Some(k) && k as u64 == 5)
                &&& r.slot == (if items.len() > 1 { (int_of(items[1])->Some_0) as u64 } else { 0 })
                &&& items.len() > 1 ==> int_of(items[1]) is Some
                &&& items.len() > 2 ==> Ok::<DataFrameView, NodeError>(r.data) == spec_dataframe(items[2])
                &&& items.len() <= 2 ==> r.data == dataframe_default()
            })
        },
        (array_of(value) matches Some(items) && items.len() == 3 && int_of(items[0]) == Some(5i128)
            && int_of(items[1]) is Some
            && spec_dataframe(items[2]) is Ok)
            ==> spec_rewards(value) is Ok,
{
    if let Some(items) = array_of(value) {
        let f = rewards_fields();
        let d = rewards_default();
        assert(items.take(0) =~= Seq::<CborValue>::empty());
        if items.len() > 0 { lemma_decode_fields_step(items, 0, d, f); }
        if items.len() > 1 { lemma_decode_fields_step(items, 1, d, f); }
        if items.len() > 2 { lemma_decode_fields_step(items, 2, d, f); }
        if items.len() > 3 {
            lemma_decode_fields_step(items, 3, d, f);
            lemma_decode_fields_error(items, 4, d, f);
        } else {
            assert(items.take(items.len() as int) =~= items);
        }
    }
}

} // verus!
