use serde_cbor::Value;
use yellowstone_faithful_car_source::car::node::dataframe::DataFrame;
use yellowstone_faithful_car_source::car::node::nodes::{Node, Nodes, ReassableError};
use yellowstone_faithful_car_source::car::node::rewards::BlockRewards;
use yellowstone_faithful_car_source::car::node::NodeError;
use yellowstone_faithful_car_source::car::reader::{parse_section, VarintReader, VarintStep};
use yellowstone_faithful_car_source::car::util::crc::checksum_crc64;
use yellowstone_faithful_car_source::car::util::link::Cid;

fn raw_cid(seed: u8) -> Vec<u8> {
    let mh = cid::multihash::Multihash::<64>::wrap(0x12, &[seed; 32]).unwrap();
    cid::Cid::new_v1(0x71, mh).to_bytes()
}

fn cid(seed: u8) -> Cid {
    Cid::from_bytes(&raw_cid(seed)).unwrap()
}

fn frame(data: &[u8], next: &[u8]) -> DataFrame {
    DataFrame { hash: None, index: None, total: None, data: data.to_vec(), next: next.iter().map(|s| cid(*s)).collect() }
}

fn empty_frame() -> DataFrame {
    frame(b"", &[])
}

#[test]
fn cid_reads_back_its_bytes() {
    assert_eq!(cid(3).to_bytes(), raw_cid(3));
    assert!(cid(3).same(&cid(3)));
    assert!(!cid(3).same(&cid(4)));
    assert!(Cid::from_bytes(&[0x07]).is_none());
}

#[test]
fn lone_frame_holds_its_data() {
    let nodes = Nodes::new();
    assert_eq!(nodes.reassemble_dataframes(&frame(b"hello", &[])).unwrap(), b"hello".to_vec());
}

#[test]
fn frames_are_joined_depth_first_in_link_order() {
    let mut nodes = Nodes::new();
    nodes.insert(cid(1), Node::DataFrame(frame(b"B", &[])));
    nodes.insert(cid(2), Node::DataFrame(frame(b"C", &[4, 5])));
    nodes.insert(cid(3), Node::DataFrame(frame(b"F", &[])));
    nodes.insert(cid(4), Node::DataFrame(frame(b"D", &[])));
    nodes.insert(cid(5), Node::DataFrame(frame(b"E", &[])));
    let first = frame(b"A", &[1, 2, 3]);
    assert_eq!(nodes.reassemble_dataframes(&first).unwrap(), b"ABCDEF".to_vec());
}

#[test]
fn missing_frame_is_an_error() {
    let mut nodes = Nodes::new();
    nodes.insert(cid(1), Node::DataFrame(frame(b"B", &[])));
    let first = frame(b"A", &[1, 2]);
    assert_eq!(nodes.reassemble_dataframes(&first).unwrap_err(), ReassableError::MissingDataFrame);
}

#[test]
fn link_to_other_node_is_an_error() {
    let mut nodes = Nodes::new();
    nodes.insert(cid(1), Node::Rewards(BlockRewards { slot: 1, data: empty_frame() }));
    let first = frame(b"A", &[1]);
    assert_eq!(nodes.reassemble_dataframes(&first).unwrap_err(), ReassableError::NotDataFrame);
}

#[test]
fn cyclic_frames_are_an_error() {
    let mut nodes = Nodes::new();
    nodes.insert(cid(1), Node::DataFrame(frame(b"B", &[2])));
    nodes.insert(cid(2), Node::DataFrame(frame(b"C", &[1])));
    let first = frame(b"A", &[1]);
    assert_eq!(nodes.reassemble_dataframes(&first).unwrap_err(), ReassableError::TooManyFrames);
}

#[test]
fn insert_replaces_and_get_finds() {
    let mut nodes = Nodes::new();
    nodes.insert(cid(1), Node::DataFrame(frame(b"old", &[])));
    nodes.insert(cid(2), Node::Rewards(BlockRewards { slot: 2, data: empty_frame() }));
    nodes.insert(cid(1), Node::DataFrame(frame(b"new", &[])));
    assert_eq!(nodes.nodes.len(), 2);
    match nodes.get(&cid(1)) {
        Some(Node::DataFrame(d)) => assert_eq!(d.data, b"new".to_vec()),
        _ => panic!("expected the new frame"),
    }
    assert!(matches!(nodes.get(&cid(2)), Some(Node::Rewards(r)) if r.slot == 2));
    assert!(nodes.get(&cid(3)).is_none());
    assert!(nodes.find_block().is_none());
}

#[test]
fn crc64_iso_matches_the_check_value() {
    assert_eq!(checksum_crc64(b"123456789"), 0xb909_56c7_75a4_1001);
    assert_eq!(checksum_crc64(b""), 0);
}

#[test]
fn frame_hash_is_checked_over_the_whole_payload() {
    let mut nodes = Nodes::new();
    nodes.insert(cid(1), Node::DataFrame(frame(b"6789", &[])));
    let mut first = frame(b"12345", &[1]);
    first.hash = Some(0xb909_56c7_75a4_1001);
    assert_eq!(nodes.reassemble_dataframes(&first).unwrap(), b"123456789".to_vec());
    first.hash = Some(1);
    assert_eq!(nodes.reassemble_dataframes(&first).unwrap_err(), ReassableError::HashMismatch);
}

fn feed_all(bytes: &[u8]) -> Vec<VarintStep> {
    let mut r = VarintReader::new();
    bytes.iter().map(|b| r.feed(*b)).collect()
}

#[test]
fn varints_decode() {
    assert!(matches!(feed_all(&[0x05])[..], [VarintStep::Done(5)]));
    assert!(matches!(feed_all(&[0x96, 0x01])[..], [VarintStep::More, VarintStep::Done(150)]));
    assert!(matches!(feed_all(&[0x80, 0x80, 0x01])[..], [_, _, VarintStep::Done(16384)]));
    let max = [0xff, 0xff, 0xff, 0xff, 0xff, 0xff, 0xff, 0xff, 0xff, 0x01];
    assert!(matches!(feed_all(&max).last(), Some(VarintStep::Done(u64::MAX))));
}

#[test]
fn varints_that_overflow_are_refused() {
    let too_big = [0xff, 0xff, 0xff, 0xff, 0xff, 0xff, 0xff, 0xff, 0xff, 0x02];
    assert!(matches!(feed_all(&too_big).last(), Some(VarintStep::Overflow)));
    let too_long = [0x80; 10];
    assert!(matches!(feed_all(&too_long).last(), Some(VarintStep::Overflow)));
}

#[test]
fn sections_split_cid_and_node() {
    let node = serde_cbor::to_vec(&Value::Array(vec![Value::Integer(5), Value::Integer(1)])).unwrap();
    let mut payload = raw_cid(7);
    payload.extend(&node);
    let (c, n) = parse_section(&payload).unwrap();
    assert_eq!(c.to_bytes(), raw_cid(7));
    assert!(matches!(n, Node::Rewards(r) if r.slot == 1));
    let err = parse_section(&[0x07, 0x00]).unwrap_err();
    assert!(matches!(err, NodeError::InvalidCid("Section::cid")));
}

#[test]
fn add_section_closes_the_group_on_a_block() {
    let mut nodes = Nodes::new();
    let rewards = serde_cbor::to_vec(&Value::Array(vec![Value::Integer(5)])).unwrap();
    let mut payload = raw_cid(1);
    payload.extend(&rewards);
    assert_eq!(nodes.add_section(&payload).unwrap(), false);
    let blk = serde_cbor::to_vec(&Value::Array(vec![Value::Integer(2), Value::Integer(44)])).unwrap();
    let mut payload = raw_cid(2);
    payload.extend(&blk);
    assert_eq!(nodes.add_section(&payload).unwrap(), true);
    assert_eq!(nodes.find_block().unwrap().slot, 44);
}
