use serde_cbor::Value;
use yellowstone_faithful_car_source::car::node::block::{Block, Shredding, SlotMeta};
use yellowstone_faithful_car_source::car::node::dataframe::DataFrame;
use yellowstone_faithful_car_source::car::node::entry::Entry;
use yellowstone_faithful_car_source::car::node::epoch::Epoch;
use yellowstone_faithful_car_source::car::node::nodes::Node;
use yellowstone_faithful_car_source::car::node::rewards::BlockRewards;
use yellowstone_faithful_car_source::car::node::subset::Subset;
use yellowstone_faithful_car_source::car::node::transaction::Transaction;
use yellowstone_faithful_car_source::car::node::{Kind, NodeError};
use yellowstone_faithful_car_source::car::util::cbor::CborValue as C;
use yellowstone_faithful_car_source::car::util::link::Cid;

fn cid_bytes(seed: u8) -> Vec<u8> {
    let mh = cid::multihash::Multihash::<64>::wrap(0x12, &[seed; 32]).unwrap();
    cid::Cid::new_v1(0x71, mh).to_bytes()
}

fn link(seed: u8) -> Value {
    let mut b = vec![0u8];
    b.extend(cid_bytes(seed));
    Value::Tag(42, Box::new(Value::Bytes(b)))
}

fn num(v: i128) -> Value {
    Value::Integer(v)
}

fn enc(v: &Value) -> Vec<u8> {
    serde_cbor::to_vec(v).unwrap()
}

fn block_value() -> Value {
    Value::Array(vec![
        num(2),
        num(12345),
        Value::Array(vec![Value::Array(vec![num(3), num(-1)])]),
        Value::Array(vec![link(1), link(2)]),
        Value::Array(vec![num(12344), num(1_600_000_000), num(99)]),
        link(9),
    ])
}

#[test]
fn block_decodes_every_field() {
    let block = Block::try_from(enc(&block_value()).as_slice()).unwrap();
    assert_eq!(block.slot, 12345);
    assert_eq!(block.shredding, vec![Shredding { entry_end_idx: 3, shred_end_idx: -1 }]);
    assert_eq!(block.entries.len(), 2);
    assert_eq!(block.entries[0].to_bytes(), cid_bytes(1));
    assert_eq!(block.entries[1].to_bytes(), cid_bytes(2));
    assert_eq!(block.meta, SlotMeta { parent_slot: 12344, blocktime: 1_600_000_000, block_height: Some(99) });
    assert_eq!(block.rewards.to_bytes(), cid_bytes(9));
}

#[test]
fn block_missing_trailing_fields_keep_defaults() {
    let v = Value::Array(vec![num(2), num(7)]);
    let block = Block::try_from(enc(&v).as_slice()).unwrap();
    assert_eq!(block.slot, 7);
    assert!(block.shredding.is_empty());
    assert!(block.entries.is_empty());
    assert_eq!(block.meta, SlotMeta { parent_slot: 0, blocktime: 0, block_height: None });
    assert_eq!(block.rewards.to_bytes(), cid::Cid::default().to_bytes());
}

#[test]
fn default_cid_matches_cid_crate() {
    assert_eq!(Cid::default().to_bytes(), cid::Cid::default().to_bytes());
    assert_eq!(Cid::default().to_bytes(), vec![1, 0, 0, 0]);
}

#[test]
fn block_wrong_kind_is_rejected() {
    let v = Value::Array(vec![num(1), num(7)]);
    let err = Block::try_from(enc(&v).as_slice()).unwrap_err();
    assert!(matches!(err, NodeError::InvalidKind { kind: 1, expected: Kind::Block }));
}

#[test]
fn block_extra_item_is_rejected() {
    let mut items = match block_value() {
        Value::Array(items) => items,
        _ => unreachable!(),
    };
    items.push(num(0));
    let err = Block::try_from(enc(&Value::Array(items)).as_slice()).unwrap_err();
    assert!(matches!(err, NodeError::UnexpectedCborValues));
}

#[test]
fn block_wrong_field_type_names_the_field() {
    let v = Value::Array(vec![num(2), Value::Text("x".to_string())]);
    let err = Block::try_from(enc(&v).as_slice()).unwrap_err();
    assert!(matches!(err, NodeError::InvalidCborType("Block::slot")));
}

#[test]
fn block_not_an_array_is_rejected() {
    let err = Block::try_from(enc(&num(2)).as_slice()).unwrap_err();
    assert!(matches!(err, NodeError::InvalidCborType("Block")));
}

#[test]
fn malformed_cbor_is_rejected() {
    let err = Block::try_from(&[0xff, 0x00][..]).unwrap_err();
    assert!(matches!(err, NodeError::InvalidCbor));
    let err = Block::try_from(&[][..]).unwrap_err();
    assert!(matches!(err, NodeError::InvalidCbor));
}

#[test]
fn link_without_identity_prefix_is_rejected() {
    let bad = Value::Tag(42, Box::new(Value::Bytes(cid_bytes(1))));
    let v = Value::Array(vec![num(2), num(1), Value::Array(vec![]), Value::Array(vec![bad])]);
    let err = Block::try_from(enc(&v).as_slice()).unwrap_err();
    assert!(matches!(err, NodeError::InvalidCborType("Block::entries[]")));
}

#[test]
fn link_with_other_tag_is_rejected() {
    let mut b = vec![0u8];
    b.extend(cid_bytes(1));
    let bad = Value::Tag(41, Box::new(Value::Bytes(b)));
    let v = Value::Array(vec![num(2), num(1), Value::Array(vec![]), Value::Array(vec![]), Value::Array(vec![]), bad]);
    let err = Block::try_from(enc(&v).as_slice()).unwrap_err();
    assert!(matches!(err, NodeError::InvalidCborType("Block::rewards")));
}

#[test]
fn link_with_garbage_cid_is_rejected() {
    let bad = Value::Tag(42, Box::new(Value::Bytes(vec![0, 0x07, 0x01])));
    let v = Value::Array(vec![num(2), num(1), Value::Array(vec![]), Value::Array(vec![bad])]);
    let err = Block::try_from(enc(&v).as_slice()).unwrap_err();
    assert!(matches!(err, NodeError::InvalidCid("Block::entries[]")));
}

#[test]
fn first_failing_field_gives_the_error() {
    let v = Value::Array(vec![num(2), Value::Null, Value::Null]);
    let err = Block::try_from(enc(&v).as_slice()).unwrap_err();
    assert!(matches!(err, NodeError::InvalidCborType("Block::slot")));
}

#[test]
fn shredding_and_slot_meta_decode() {
    let s = Shredding::try_from_cbor(&C::Array(vec![C::Integer(10), C::Integer(20)])).unwrap();
    assert_eq!(s, Shredding { entry_end_idx: 10, shred_end_idx: 20 });
    let err = Shredding::try_from_cbor(&C::Array(vec![C::Integer(1), C::Integer(2), C::Integer(3)])).unwrap_err();
    assert!(matches!(err, NodeError::UnexpectedCborValues));
    let m = SlotMeta::try_from_cbor(&C::Array(vec![C::Integer(5), C::Integer(6), C::Null])).unwrap();
    assert_eq!(m, SlotMeta { parent_slot: 5, blocktime: 6, block_height: None });
    let err = SlotMeta::try_from_cbor(&C::Array(vec![C::Integer(5), C::Integer(6), C::Bool(true)])).unwrap_err();
    assert!(matches!(err, NodeError::InvalidCborType("SlotMeta::block_height")));
}

#[test]
fn integers_are_narrowed_by_truncation() {
    let v = Value::Array(vec![num(2), num(-1)]);
    let block = Block::try_from(enc(&v).as_slice()).unwrap();
    assert_eq!(block.slot, u64::MAX);
}

fn dataframe_value(hash: Value, index: Value, total: Value, data: &[u8], next: Value) -> Value {
    Value::Array(vec![num(6), hash, index, total, Value::Bytes(data.to_vec()), next])
}

#[test]
fn dataframe_decodes_with_null_next() {
    let v = dataframe_value(num(77), num(0), num(1), b"abc", Value::Null);
    let df = DataFrame::try_from(enc(&v).as_slice()).unwrap();
    assert_eq!(df.hash, Some(77));
    assert_eq!(df.index, Some(0));
    assert_eq!(df.total, Some(1));
    assert_eq!(df.data, b"abc".to_vec());
    assert!(df.next.is_empty());
}

#[test]
fn dataframe_decodes_links_and_nulls() {
    let v = dataframe_value(Value::Null, Value::Null, Value::Null, b"", Value::Array(vec![link(3), link(4)]));
    let df = DataFrame::try_from(enc(&v).as_slice()).unwrap();
    assert_eq!(df.hash, None);
    assert_eq!(df.index, None);
    assert_eq!(df.total, None);
    assert_eq!(df.next.len(), 2);
    assert_eq!(df.next[1].to_bytes(), cid_bytes(4));
}

#[test]
fn dataframe_bad_data_field() {
    let v = dataframe_value(Value::Null, Value::Null, Value::Null, b"", Value::Null);
    let mut items = match v {
        Value::Array(items) => items,
        _ => unreachable!(),
    };
    items[4] = num(1);
    let err = DataFrame::try_from(enc(&Value::Array(items)).as_slice()).unwrap_err();
    assert!(matches!(err, NodeError::InvalidCborType("DataFrame::data")));
    let v = dataframe_value(Value::Null, Value::Null, Value::Null, b"", num(3));
    let err = DataFrame::try_from(enc(&v).as_slice()).unwrap_err();
    assert!(matches!(err, NodeError::InvalidCborType("DataFrame::next")));
}

#[test]
fn entry_epoch_subset_decode() {
    let e = Entry::try_from(enc(&Value::Array(vec![num(1), num(12), Value::Bytes(vec![9; 32]), Value::Array(vec![link(5)])])).as_slice()).unwrap();
    assert_eq!(e.num_hashes, 12);
    assert_eq!(e.hash, vec![9; 32]);
    assert_eq!(e.transactions[0].to_bytes(), cid_bytes(5));

    let ep = Epoch::try_from(enc(&Value::Array(vec![num(4), num(39), Value::Array(vec![link(6), link(7)])])).as_slice()).unwrap();
    assert_eq!(ep.epoch, 39);
    assert_eq!(ep.subsets.len(), 2);

    let s = Subset::try_from(enc(&Value::Array(vec![num(3), num(100), num(200), Value::Array(vec![link(8)])])).as_slice()).unwrap();
    assert_eq!(s.first, 100);
    assert_eq!(s.last, 200);
    assert_eq!(s.blocks[0].to_bytes(), cid_bytes(8));

    let err = Epoch::try_from(enc(&Value::Array(vec![num(3)])).as_slice()).unwrap_err();
    assert!(matches!(err, NodeError::InvalidKind { kind: 3, expected: Kind::Epoch }));
    let err = Subset::try_from(enc(&Value::Array(vec![num(3), num(1), num(2), num(3)])).as_slice()).unwrap_err();
    assert!(matches!(err, NodeError::InvalidCborType("Subset::blocks")));
}

#[test]
fn transaction_node_decodes_nested_frames() {
    let data = dataframe_value(Value::Null, Value::Null, Value::Null, b"tx", Value::Null);
    let meta = dataframe_value(Value::Null, Value::Null, Value::Null, b"meta", Value::Null);
    let v = Value::Array(vec![num(0), data, meta, num(55), num(3)]);
    let t = Transaction::try_from(enc(&v).as_slice()).unwrap();
    assert_eq!(t.data.data, b"tx".to_vec());
    assert_eq!(t.metadata.data, b"meta".to_vec());
    assert_eq!(t.slot, 55);
    assert_eq!(t.index, Some(3));

    let bad = Value::Array(vec![num(0), num(1)]);
    let err = Transaction::try_from(enc(&bad).as_slice()).unwrap_err();
    assert!(matches!(err, NodeError::InvalidCborType("DataFrame")));
}

#[test]
fn node_dispatches_on_kind() {
    match Node::try_from(enc(&block_value()).as_slice()).unwrap() {
        Node::Block(b) => assert_eq!(b.slot, 12345),
        _ => panic!("expected a block"),
    }
    match Node::try_from(enc(&Value::Array(vec![num(5), num(1)])).as_slice()).unwrap() {
        Node::Rewards(r) => assert_eq!(r.slot, 1),
        _ => panic!("expected rewards"),
    }
    let err = Node::try_from(enc(&Value::Array(vec![num(7)])).as_slice()).unwrap_err();
    assert!(matches!(err, NodeError::UnknownKind(7)));
    let err = Node::try_from(enc(&Value::Array(vec![])).as_slice()).unwrap_err();
    assert!(matches!(err, NodeError::InvalidCborType("Node::kind")));
}

#[test]
fn kind_ids_round_trip() {
    for kind in [Kind::Transaction, Kind::Entry, Kind::Block, Kind::Subset, Kind::Epoch, Kind::Rewards, Kind::DataFrame] {
        assert_eq!(Kind::from_id(kind.id()), Some(kind));
    }
    assert_eq!(Kind::Block.id(), 2);
    assert_eq!(Kind::DataFrame.id(), 6);
    assert_eq!(Kind::from_id(7), None);
}

#[test]
fn assert_invalid_kind_checks_the_tag() {
    assert!(NodeError::assert_invalid_kind(2, Kind::Block).is_ok());
    assert!(matches!(NodeError::assert_invalid_kind(3, Kind::Block), Err(NodeError::InvalidKind { kind: 3, expected: Kind::Block })));
}

#[test]
fn rewards_node_decodes_its_frame() {
    let data = dataframe_value(Value::Null, Value::Null, Value::Null, b"rw", Value::Null);
    let r = BlockRewards::try_from(enc(&Value::Array(vec![num(5), num(77), data])).as_slice()).unwrap();
    assert_eq!(r.slot, 77);
    assert_eq!(r.data.data, b"rw".to_vec());
    let err = BlockRewards::try_from(enc(&Value::Array(vec![num(0)])).as_slice()).unwrap_err();
    assert!(matches!(err, NodeError::InvalidKind { kind: 0, expected: Kind::Rewards }));
    let err = BlockRewards::try_from(enc(&Value::Array(vec![num(5), num(1), num(2)])).as_slice()).unwrap_err();
    assert!(matches!(err, NodeError::InvalidCborType("DataFrame")));
}
