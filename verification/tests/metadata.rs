use yellowstone_faithful_car_source::error::CarSourceError;
use yellowstone_faithful_car_source::meta::{decode_metadata, decode_rewards, meta_from_stored, ProtoTransactionError};
use yellowstone_grpc_proto::prost::Message as _;
use yellowstone_grpc_proto::solana::storage::confirmed_block::{NumPartitions, Reward, Rewards, TransactionStatusMeta};

#[allow(deprecated)]
type TxError = solana_sdk::transaction::TransactionError;

fn proto_meta() -> TransactionStatusMeta {
    TransactionStatusMeta {
        fee: 42,
        pre_balances: vec![1, 2],
        loaded_readonly_addresses: vec![vec![8; 32]],
        ..Default::default()
    }
}

#[test]
fn empty_metadata_is_none() {
    assert!(decode_metadata(&[]).unwrap().is_none());
    let empty_payload = zstd::encode_all(&[][..], 0).unwrap();
    assert!(decode_metadata(&empty_payload).unwrap().is_none());
}

#[test]
fn compressed_protobuf_metadata_decodes() {
    let bytes = zstd::encode_all(&proto_meta().encode_to_vec()[..], 0).unwrap();
    match decode_metadata(&bytes).unwrap() {
        Some(m) => {
            assert_eq!(m.fee, 42);
            assert_eq!(m.pre_balances, vec![1, 2]);
            assert!(m.loaded_writable_addresses.is_empty());
            assert_eq!(m.loaded_readonly_addresses, vec![vec![8u8; 32]]);
            assert!(!m.inner_instructions_none);
            assert!(m.compute_units_consumed.is_none());
        }
        _ => panic!("expected protobuf metadata"),
    }
}

#[test]
fn uncompressed_protobuf_metadata_decodes() {
    let bytes = proto_meta().encode_to_vec();
    match decode_metadata(&bytes).unwrap() {
        Some(m) => assert_eq!(m.pre_balances, vec![1, 2]),
        _ => panic!("expected protobuf metadata"),
    }
}

#[test]
fn stored_bincode_metadata_decodes() {
    let ok: Result<(), TxError> = Ok(());
    let bytes = zstd::encode_all(&bincode::serialize(&(ok, 5000u64, vec![10u64, 20], vec![5u64])).unwrap()[..], 0).unwrap();
    match decode_metadata(&bytes).unwrap() {
        Some(s) => {
            assert!(s.err.is_none());
            assert_eq!(s.fee, 5000);
            assert_eq!(s.pre_balances, vec![10, 20]);
            assert_eq!(s.post_balances, vec![5]);
            assert!(s.inner_instructions_none && s.log_messages_none && s.return_data_none);
            assert!(s.inner_instructions.is_empty() && s.log_messages.is_empty() && s.rewards.is_empty());
            assert!(s.pre_token_balances.is_empty() && s.post_token_balances.is_empty());
            assert!(s.loaded_writable_addresses.is_empty() && s.loaded_readonly_addresses.is_empty());
            assert!(s.return_data.is_none() && s.compute_units_consumed.is_none() && s.cost_units.is_none());
        }
        _ => panic!("expected stored metadata"),
    }
}

#[test]
fn stored_metadata_keeps_the_error_encoding() {
    let failed: Result<(), TxError> = Err(TxError::AccountInUse);
    let bytes = bincode::serialize(&(failed, 1u64, Vec::<u64>::new(), Vec::<u64>::new())).unwrap();
    match decode_metadata(&bytes).unwrap() {
        Some(s) => {
            assert_eq!(s.err, Some(ProtoTransactionError { err: bincode::serialize(&TxError::AccountInUse).unwrap() }));
            assert_eq!(s.fee, 1);
        }
        _ => panic!("expected stored metadata"),
    }
}

#[test]
fn undecodable_metadata_is_an_error() {
    let bytes = [0xff, 0xff, 0xff];
    let expected = bincode::deserialize::<(Result<(), TxError>, u64, Vec<u64>, Vec<u64>)>(&bytes).unwrap_err().to_string();
    match decode_metadata(&bytes) {
        Err(CarSourceError::MetaDecode(text)) => assert_eq!(text, expected),
        _ => panic!("expected a metadata decoding error"),
    }
}

#[test]
fn meta_from_stored_keeps_fields() {
    let s = meta_from_stored((Some(None), 7, vec![1], vec![2]));
    assert_eq!(s.err, Some(ProtoTransactionError { err: vec![] }));
    assert_eq!(s.fee, 7);
    assert_eq!(s.pre_balances, vec![1]);
    assert_eq!(s.post_balances, vec![2]);
    let s = meta_from_stored((Some(Some(vec![9, 9])), 8, vec![], vec![]));
    assert_eq!(s.err, Some(ProtoTransactionError { err: vec![9, 9] }));
    let s = meta_from_stored((None, 5000, vec![100, 7], vec![95, 7]));
    assert!(s.err.is_none());
    assert_eq!(s.fee, 5000);
    assert_eq!(s.pre_balances, vec![100, 7]);
    assert_eq!(s.post_balances, vec![95, 7]);
    assert!(s.inner_instructions_none && s.log_messages_none && s.return_data_none);
    assert!(s.rewards.is_empty() && s.loaded_writable_addresses.is_empty());
    assert!(s.compute_units_consumed.is_none());
}

#[test]
fn protobuf_rewards_decode() {
    let rewards = Rewards {
        rewards: vec![Reward { pubkey: "abc".to_string(), lamports: 5, post_balance: 9, reward_type: 2, ..Default::default() }],
        num_partitions: Some(NumPartitions { num_partitions: 4 }),
    };
    let bytes = zstd::encode_all(&rewards.encode_to_vec()[..], 0).unwrap();
    let r = decode_rewards(&bytes).unwrap();
    assert_eq!(r.rewards.len(), 1);
    assert_eq!(r.rewards[0].pubkey, "abc");
    assert_eq!(r.rewards[0].lamports, 5);
    assert_eq!(r.rewards[0].post_balance, 9);
    assert_eq!(r.rewards[0].reward_type, 2);
    assert_eq!(r.num_partitions, Some(4));
}

#[test]
fn stored_rewards_decode() {
    let stored = vec![("key1".to_string(), 10i64), ("key2".to_string(), -3i64)];
    let bytes = zstd::encode_all(&bincode::serialize(&stored).unwrap()[..], 0).unwrap();
    let r = decode_rewards(&bytes).unwrap();
    assert_eq!(r.rewards.len(), 2);
    assert_eq!(r.rewards[0].pubkey, "key1");
    assert_eq!(r.rewards[0].lamports, 10);
    assert_eq!(r.rewards[1].pubkey, "key2");
    assert_eq!(r.rewards[1].lamports, -3);
    for w in &r.rewards {
        assert_eq!(w.post_balance, 0);
        assert_eq!(w.reward_type, 0);
        assert!(w.commission.is_empty() && w.commission_bps.is_empty());
    }
    assert!(r.num_partitions.is_none());
}

#[test]
fn rewards_need_compression() {
    assert!(matches!(decode_rewards(&[1, 2, 3]), Err(CarSourceError::Io(_))));
}

#[test]
fn undecodable_rewards_are_a_bincode_error() {
    let bytes = zstd::encode_all(&[0xff, 0xff][..], 0).unwrap();
    assert!(matches!(decode_rewards(&bytes), Err(CarSourceError::Bincode(_))));
}
