use bincode::Options;
use solana_message::compiled_instruction::CompiledInstruction;
use solana_message::{v0, Address, Message, MessageHeader, VersionedMessage};
use yellowstone_faithful_car_source::car::node::block::{Block, SlotMeta};
use yellowstone_faithful_car_source::car::node::dataframe::DataFrame;
use yellowstone_faithful_car_source::car::node::nodes::{Node, Nodes};
use yellowstone_faithful_car_source::car::node::transaction::Transaction;
use yellowstone_faithful_car_source::car::util::link::Cid;
use yellowstone_faithful_car_source::error::CarSourceError;
use yellowstone_faithful_car_source::filters::{
    match_transaction_prefilter, matching_transaction_filters, slot_filter_ids, Filters, ParserFilter,
    TransactionFilter,
};
use yellowstone_faithful_car_source::car::node::entry::Entry;
use yellowstone_faithful_car_source::meta::meta_from_stored;
use yellowstone_faithful_car_source::source::{gather_accounts, plan_block, slot_update, transaction_update};
use yellowstone_faithful_car_source::tx::{
    is_vote_transaction, static_account_keys, to_proto_header, to_proto_message, to_proto_transaction,
    vote_program_key, TxHeader, TxInstruction, TxLegacyMessage, VersionedMsg, VersionedTx,
};
use yellowstone_grpc_proto::prost::Message as _;
use yellowstone_grpc_proto::solana::storage::confirmed_block::TransactionStatusMeta;

#[allow(deprecated)]
type SolTx = solana_sdk::transaction::VersionedTransaction;

fn key(seed: u8) -> [u8; 32] {
    [seed; 32]
}

fn vote_address() -> Address {
    "Vote111111111111111111111111111111111111111".parse::<Address>().unwrap()
}

fn legacy_tx(keys: Vec<Address>, program_index: u8) -> SolTx {
    let message = Message {
        header: MessageHeader { num_required_signatures: 1, num_readonly_signed_accounts: 0, num_readonly_unsigned_accounts: 1 },
        account_keys: keys,
        recent_blockhash: solana_message::Hash::new_from_array([7; 32]),
        instructions: vec![CompiledInstruction { program_id_index: program_index, accounts: vec![0, 1], data: vec![1, 2, 3] }],
    };
    SolTx { signatures: vec![[5u8; 64].into(), [6u8; 64].into()], message: VersionedMessage::Legacy(message) }
}

fn v0_tx(keys: Vec<Address>) -> SolTx {
    let message = v0::Message {
        header: MessageHeader { num_required_signatures: 1, num_readonly_signed_accounts: 0, num_readonly_unsigned_accounts: 0 },
        account_keys: keys,
        recent_blockhash: solana_message::Hash::new_from_array([8; 32]),
        instructions: vec![],
        address_table_lookups: vec![v0::MessageAddressTableLookup {
            account_key: Address::new_from_array(key(40)),
            writable_indexes: vec![0],
            readonly_indexes: vec![1, 2],
        }],
    };
    SolTx { signatures: vec![], message: VersionedMessage::V0(message) }
}

fn tx_bytes(tx: &SolTx) -> Vec<u8> {
    bincode::DefaultOptions::new().with_fixint_encoding().serialize(tx).unwrap()
}

fn model_tx(keys: Vec<[u8; 32]>, program_index: u8) -> VersionedTx {
    VersionedTx {
        signatures: vec![vec![1; 64]],
        message: VersionedMsg::Legacy(TxLegacyMessage {
            header: TxHeader { num_required_signatures: 1, num_readonly_signed_accounts: 0, num_readonly_unsigned_accounts: 0 },
            account_keys: keys,
            recent_blockhash: [0; 32],
            instructions: vec![TxInstruction { program_id_index: program_index, accounts: vec![], data: vec![] }],
        }),
    }
}

#[test]
fn vote_program_key_is_the_vote_address() {
    assert_eq!(vote_program_key(), vote_address().to_bytes());
}

#[test]
fn vote_detection_reads_the_first_instruction() {
    assert!(is_vote_transaction(&model_tx(vec![key(1), vote_program_key()], 1)));
    assert!(!is_vote_transaction(&model_tx(vec![key(1), vote_program_key()], 0)));
    assert!(!is_vote_transaction(&model_tx(vec![key(1)], 5)));
    let mut no_ix = model_tx(vec![vote_program_key()], 0);
    if let VersionedMsg::Legacy(m) = &mut no_ix.message {
        m.instructions.clear();
    }
    assert!(!is_vote_transaction(&no_ix));
}

#[test]
fn static_keys_are_the_message_keys() {
    let t = model_tx(vec![key(1), key(2)], 0);
    assert_eq!(static_account_keys(&t), vec![key(1), key(2)]);
}

#[test]
fn proto_forms_carry_the_fields() {
    let h = to_proto_header(&TxHeader { num_required_signatures: 2, num_readonly_signed_accounts: 1, num_readonly_unsigned_accounts: 255 });
    assert_eq!(h.num_required_signatures, 2);
    assert_eq!(h.num_readonly_unsigned_accounts, 255);
    let t = model_tx(vec![key(1)], 0);
    let p = to_proto_transaction(&t);
    assert_eq!(p.signatures, vec![vec![1u8; 64]]);
    let m = p.message.unwrap();
    assert!(!m.versioned);
    assert_eq!(m.account_keys, vec![vec![1u8; 32]]);
    assert_eq!(m.recent_blockhash, vec![0u8; 32]);
    assert_eq!(m.instructions.len(), 1);
    assert!(m.address_table_lookups.is_empty());
}

fn frame(data: Vec<u8>) -> DataFrame {
    DataFrame { hash: None, index: None, total: None, data, next: vec![] }
}

fn group_with(tx: &[u8], meta: &[u8]) -> (Transaction, Nodes) {
    let t = Transaction { data: frame(tx.to_vec()), metadata: frame(meta.to_vec()), slot: 321, index: None };
    (t, Nodes::new())
}

fn filters(entries: Vec<(&str, bool, Option<TransactionFilter>)>) -> Filters {
    Filters {
        parsers_filters: entries
            .into_iter()
            .map(|(id, slot, transaction)| ParserFilter { id: id.to_string(), slot, transaction })
            .collect(),
    }
}

fn open_filter() -> TransactionFilter {
    TransactionFilter { accounts_include: vec![], accounts_required: vec![] }
}

#[test]
fn transaction_update_decodes_and_routes() {
    let tx = legacy_tx(vec![Address::new_from_array(key(1)), vote_address()], 1);
    let meta = TransactionStatusMeta {
        fee: 5000,
        loaded_writable_addresses: vec![vec![2; 32], vec![3; 5]],
        loaded_readonly_addresses: vec![vec![4; 32]],
        ..Default::default()
    };
    let meta_bytes = zstd::encode_all(&meta.encode_to_vec()[..], 0).unwrap();
    let (car_tx, nodes) = group_with(&tx_bytes(&tx), &meta_bytes);
    let wants_key4 = TransactionFilter { accounts_include: vec![key(4)], accounts_required: vec![] };
    let wants_key9 = TransactionFilter { accounts_include: vec![key(9)], accounts_required: vec![] };
    let f = filters(vec![("a", false, Some(wants_key4)), ("b", true, Some(wants_key9)), ("c", true, None)]);
    let update = transaction_update(&car_tx, &nodes, &f).unwrap().unwrap();
    assert_eq!(update.filters, vec!["a".to_string()]);
    assert_eq!(update.slot, 321);
    let info = update.transaction.unwrap();
    assert_eq!(info.signature, vec![5u8; 64]);
    assert!(info.is_vote);
    assert_eq!(info.index, 0);
    let p = info.transaction.unwrap();
    assert_eq!(p.signatures.len(), 2);
    assert_eq!(p.message.unwrap().instructions[0].data, vec![1, 2, 3]);
    let m = info.meta.unwrap();
    assert_eq!(m.fee, 5000);
    assert_eq!(m.loaded_writable_addresses, vec![vec![2u8; 32], vec![3u8; 5]]);
    assert_eq!(m.loaded_readonly_addresses, vec![vec![4u8; 32]]);
}

#[test]
fn transaction_update_skips_unwanted_transactions() {
    let tx = legacy_tx(vec![Address::new_from_array(key(1))], 0);
    let (car_tx, nodes) = group_with(&tx_bytes(&tx), &[]);
    let wants_key9 = TransactionFilter { accounts_include: vec![key(9)], accounts_required: vec![] };
    let f = filters(vec![("b", false, Some(wants_key9))]);
    assert!(transaction_update(&car_tx, &nodes, &f).unwrap().is_none());
}

#[test]
fn transaction_update_without_signatures_reports_empty_signature() {
    let tx = v0_tx(vec![Address::new_from_array(key(1))]);
    let (car_tx, nodes) = group_with(&tx_bytes(&tx), &[]);
    let f = filters(vec![("all", false, Some(open_filter()))]);
    let update = transaction_update(&car_tx, &nodes, &f).unwrap().unwrap();
    let info = update.transaction.unwrap();
    assert!(info.signature.is_empty());
    assert!(!info.is_vote);
    assert!(info.meta.is_none());
    let m = info.transaction.unwrap().message.unwrap();
    assert!(m.versioned);
    assert_eq!(m.address_table_lookups[0].readonly_indexes, vec![1, 2]);
}

#[test]
fn transaction_update_rejects_garbage_transaction() {
    let (car_tx, nodes) = group_with(&[1, 2, 3], &[]);
    let f = filters(vec![("all", false, Some(open_filter()))]);
    assert!(matches!(transaction_update(&car_tx, &nodes, &f), Err(CarSourceError::Bincode(_))));
}

#[test]
fn transaction_update_rejects_garbage_metadata() {
    let tx = legacy_tx(vec![Address::new_from_array(key(1))], 0);
    let (car_tx, nodes) = group_with(&tx_bytes(&tx), &[0xff, 0xff, 0xff, 0xff, 0xff]);
    let f = filters(vec![("all", false, Some(open_filter()))]);
    assert!(matches!(transaction_update(&car_tx, &nodes, &f), Err(CarSourceError::MetaDecode(_))));
}

#[test]
fn transaction_update_reports_missing_frames() {
    let tx = legacy_tx(vec![Address::new_from_array(key(1))], 0);
    let mut car_tx = group_with(&tx_bytes(&tx), &[]).0;
    let mh = cid::multihash::Multihash::<64>::wrap(0x12, &[1; 32]).unwrap();
    car_tx.data.next = vec![Cid::from_bytes(&cid::Cid::new_v1(0x71, mh).to_bytes()).unwrap()];
    let f = filters(vec![("all", false, Some(open_filter()))]);
    assert!(matches!(transaction_update(&car_tx, &Nodes::new(), &f), Err(CarSourceError::Reassemble(_))));
}

#[test]
fn gathered_accounts_skip_malformed_addresses() {
    let t = model_tx(vec![key(1)], 0);
    let mut meta = meta_from_stored((None, 0, vec![], vec![]));
    meta.loaded_writable_addresses = vec![vec![2; 32], vec![3; 31]];
    meta.loaded_readonly_addresses = vec![vec![4; 33], vec![5; 32]];
    assert_eq!(gather_accounts(&t, Some(&meta)), vec![key(1), key(2), key(5)]);
    assert_eq!(gather_accounts(&t, None), vec![key(1)]);
}

#[test]
fn prefilter_include_and_required() {
    let accounts = [key(1), key(2)];
    assert!(match_transaction_prefilter(&open_filter(), &accounts));
    assert!(match_transaction_prefilter(&open_filter(), &[]));
    let inc = TransactionFilter { accounts_include: vec![key(3), key(2)], accounts_required: vec![] };
    assert!(match_transaction_prefilter(&inc, &accounts));
    let inc_miss = TransactionFilter { accounts_include: vec![key(3)], accounts_required: vec![] };
    assert!(!match_transaction_prefilter(&inc_miss, &accounts));
    let req = TransactionFilter { accounts_include: vec![], accounts_required: vec![key(1), key(2)] };
    assert!(match_transaction_prefilter(&req, &accounts));
    let req_miss = TransactionFilter { accounts_include: vec![], accounts_required: vec![key(1), key(3)] };
    assert!(!match_transaction_prefilter(&req_miss, &accounts));
    let both = TransactionFilter { accounts_include: vec![key(2)], accounts_required: vec![key(3)] };
    assert!(!match_transaction_prefilter(&both, &accounts));
}

#[test]
fn prefilter_keeps_passing_with_more_accounts() {
    let f = TransactionFilter { accounts_include: vec![key(1)], accounts_required: vec![key(2)] };
    assert!(match_transaction_prefilter(&f, &[key(1), key(2)]));
    assert!(match_transaction_prefilter(&f, &[key(3), key(1), key(2), key(4)]));
}

#[test]
fn filters_are_listed_in_order() {
    let f = filters(vec![
        ("x", true, Some(open_filter())),
        ("y", false, None),
        ("z", true, Some(TransactionFilter { accounts_include: vec![key(9)], accounts_required: vec![] })),
        ("w", false, Some(open_filter())),
    ]);
    assert_eq!(matching_transaction_filters(&f, &[key(1)]), vec!["x".to_string(), "w".to_string()]);
    assert_eq!(slot_filter_ids(&f), vec!["x".to_string(), "z".to_string()]);
}

#[test]
fn slot_updates_only_when_asked() {
    let block = Block {
        slot: 50,
        shredding: vec![],
        entries: vec![],
        meta: SlotMeta { parent_slot: 49, blocktime: 0, block_height: None },
        rewards: Cid::default(),
    };
    assert!(slot_update(&block, &filters(vec![("t", false, Some(open_filter()))])).is_none());
    let u = slot_update(&block, &filters(vec![("s", true, None)])).unwrap();
    assert_eq!(u.filters, vec!["s".to_string()]);
    assert_eq!(u.slot, 50);
    assert_eq!(u.parent, Some(49));
    assert!(u.finalized);
}

#[test]
fn versioned_message_round_trips_through_the_model() {
    let tx = v0_tx(vec![Address::new_from_array(key(1)), Address::new_from_array(key(2))]);
    let (car_tx, nodes) = group_with(&tx_bytes(&tx), &[]);
    let f = filters(vec![("all", false, Some(open_filter()))]);
    let update = transaction_update(&car_tx, &nodes, &f).unwrap().unwrap();
    let m = update.transaction.unwrap().transaction.unwrap().message.unwrap();
    assert_eq!(m.account_keys, vec![vec![1u8; 32], vec![2u8; 32]]);
    assert_eq!(m.recent_blockhash, vec![8u8; 32]);
    assert_eq!(m.address_table_lookups[0].account_key, vec![40u8; 32]);
    let msg = to_proto_message(&VersionedMsg::Legacy(TxLegacyMessage {
        header: TxHeader { num_required_signatures: 0, num_readonly_signed_accounts: 0, num_readonly_unsigned_accounts: 0 },
        account_keys: vec![],
        recent_blockhash: [3; 32],
        instructions: vec![],
    }));
    assert!(msg.header.is_some());
}

#[test]
fn filters_keep_one_entry_per_pipeline() {
    let mut f = Filters::new();
    f.insert(ParserFilter { id: "a".to_string(), slot: false, transaction: Some(open_filter()) });
    f.insert(ParserFilter { id: "b".to_string(), slot: true, transaction: None });
    f.insert(ParserFilter { id: "a".to_string(), slot: true, transaction: None });
    assert_eq!(f.parsers_filters.len(), 2);
    assert_eq!(f.parsers_filters[0].id, "a");
    assert!(f.parsers_filters[0].slot);
    assert!(f.parsers_filters[0].transaction.is_none());
    assert_eq!(f.parsers_filters[1].id, "b");
    assert_eq!(slot_filter_ids(&f), vec!["a".to_string(), "b".to_string()]);
}

fn link(seed: u8) -> Cid {
    let mh = cid::multihash::Multihash::<64>::wrap(0x12, &[seed; 32]).unwrap();
    Cid::from_bytes(&cid::Cid::new_v1(0x71, mh).to_bytes()).unwrap()
}

fn car_txn(slot: u64, account: u8) -> Transaction {
    let tx = legacy_tx(vec![Address::new_from_array(key(account))], 0);
    Transaction { data: frame(tx_bytes(&tx)), metadata: frame(vec![]), slot, index: Some(slot) }
}

fn car_block(entries: &[u8]) -> Block {
    Block {
        slot: 10,
        shredding: vec![],
        entries: entries.iter().map(|s| link(*s)).collect(),
        meta: SlotMeta { parent_slot: 9, blocktime: 0, block_height: None },
        rewards: Cid::default(),
    }
}

fn car_entry(txs: &[u8]) -> Entry {
    Entry { num_hashes: 0, hash: vec![], transactions: txs.iter().map(|s| link(*s)).collect() }
}

/// Transactions 11 and 13 touch key 1, transaction 12 touches key 2; the
/// block links entries 21 (11, 12), 22 (none) and 23 (13).
fn block_group() -> Nodes {
    let mut nodes = Nodes::new();
    nodes.insert(link(11), Node::Transaction(car_txn(1, 1)));
    nodes.insert(link(12), Node::Transaction(car_txn(2, 2)));
    nodes.insert(link(13), Node::Transaction(car_txn(3, 1)));
    nodes.insert(link(21), Node::Entry(car_entry(&[11, 12])));
    nodes.insert(link(22), Node::Entry(car_entry(&[])));
    nodes.insert(link(23), Node::Entry(car_entry(&[13])));
    nodes.insert(link(30), Node::Block(car_block(&[21, 22, 23])));
    nodes
}

fn wants(account: u8) -> Filters {
    filters(vec![("p", false, Some(TransactionFilter { accounts_include: vec![key(account)], accounts_required: vec![] }))])
}

fn slots(updates: &[yellowstone_faithful_car_source::source::TransactionUpdate]) -> Vec<u64> {
    updates.iter().map(|u| u.slot).collect()
}

#[test]
fn plan_walks_entries_and_transactions_in_order() {
    let nodes = block_group();
    let all = filters(vec![("all", false, Some(open_filter()))]);
    let plan = plan_block(&nodes, &all, 0, None).unwrap();
    assert_eq!(plan.block.slot, 10);
    assert_eq!(slots(&plan.updates), vec![1, 2, 3]);
    assert_eq!(plan.updates[1].transaction.as_ref().unwrap().index, 2);
    assert!(plan.end.is_ok());
}

#[test]
fn plan_emits_only_passing_transactions() {
    let nodes = block_group();
    let plan = plan_block(&nodes, &wants(1), 0, None).unwrap();
    assert_eq!(slots(&plan.updates), vec![1, 3]);
    assert!(plan.end.is_ok());
    let plan = plan_block(&nodes, &wants(9), 0, None).unwrap();
    assert!(plan.updates.is_empty());
    assert!(plan.end.is_ok());
}

#[test]
fn plan_counts_only_emitted_transactions() {
    let nodes = block_group();
    // The first transaction passes no filter: the limit of one is met by the second.
    let plan = plan_block(&nodes, &wants(2), 0, Some(1)).unwrap();
    assert_eq!(slots(&plan.updates), vec![2]);
    assert!(plan.end.is_ok());
    let plan = plan_block(&nodes, &wants(1), 0, Some(1)).unwrap();
    assert_eq!(slots(&plan.updates), vec![1]);
    let plan = plan_block(&nodes, &wants(1), 0, Some(2)).unwrap();
    assert_eq!(slots(&plan.updates), vec![1, 3]);
    let plan = plan_block(&nodes, &wants(1), 1, Some(2)).unwrap();
    assert_eq!(slots(&plan.updates), vec![1]);
    let plan = plan_block(&nodes, &wants(1), 5, Some(2)).unwrap();
    assert!(plan.updates.is_empty());
    assert!(plan.end.is_ok());
}

#[test]
fn plan_without_block_is_an_error() {
    let mut nodes = Nodes::new();
    nodes.insert(link(11), Node::Transaction(car_txn(1, 1)));
    match plan_block(&nodes, &wants(1), 0, None) {
        Err(CarSourceError::MissingNode(k)) => assert_eq!(k, "Block"),
        _ => panic!("expected a missing block"),
    }
}

#[test]
fn plan_reports_missing_entry_after_earlier_transactions() {
    let mut nodes = block_group();
    nodes.insert(link(30), Node::Block(car_block(&[21, 24])));
    let plan = plan_block(&nodes, &filters(vec![("all", false, Some(open_filter()))]), 0, None).unwrap();
    assert_eq!(slots(&plan.updates), vec![1, 2]);
    match plan.end {
        Err(CarSourceError::MissingNode(k)) => assert_eq!(k, "Entry"),
        _ => panic!("expected a missing entry"),
    }
}

#[test]
fn plan_reports_missing_transaction() {
    let mut nodes = block_group();
    nodes.insert(link(23), Node::Entry(car_entry(&[14])));
    let plan = plan_block(&nodes, &wants(1), 0, None).unwrap();
    assert_eq!(slots(&plan.updates), vec![1]);
    match plan.end {
        Err(CarSourceError::MissingNode(k)) => assert_eq!(k, "Transaction"),
        _ => panic!("expected a missing transaction"),
    }
}

#[test]
fn plan_stops_at_a_transaction_that_fails() {
    let mut nodes = block_group();
    let broken = Transaction { data: frame(vec![1, 2, 3]), metadata: frame(vec![]), slot: 2, index: None };
    nodes.insert(link(12), Node::Transaction(broken));
    let plan = plan_block(&nodes, &wants(1), 0, None).unwrap();
    assert_eq!(slots(&plan.updates), vec![1]);
    assert!(matches!(plan.end, Err(CarSourceError::Bincode(_))));
}

#[test]
fn limit_over_several_blocks_emits_the_first_passing_transactions() {
    let nodes = block_group();
    let f = wants(1);
    // Two blocks with two passing transactions each, and a limit of three.
    let first = plan_block(&nodes, &f, 0, Some(3)).unwrap();
    assert_eq!(slots(&first.updates), vec![1, 3]);
    let second = plan_block(&nodes, &f, first.updates.len(), Some(3)).unwrap();
    assert_eq!(slots(&second.updates), vec![1]);
    assert_eq!(first.updates.len() + second.updates.len(), 3);
}
