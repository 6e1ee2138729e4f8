//! Transaction status metadata and block rewards, as the archive stores them:
//! zstd-compressed (or not), in protobuf or in the older bincode layout.
use yellowstone_grpc_proto::prost::Message;
use vstd::prelude::*;

use crate::error::CarSourceError;
use yellowstone_grpc_proto::solana::storage::confirmed_block::{
    InnerInstruction, InnerInstructions, ReturnData, Reward, TokenBalance,
    TransactionStatusMeta, UiTokenAmount,
};

verus! {

#[verifier::external_type_specification]
#[verifier::external_body]
pub struct ExTransactionStatusMeta(TransactionStatusMeta);

#[verifier::external_type_specification]
#[verifier::external_body]
pub struct ExRewards(yellowstone_grpc_proto::solana::storage::confirmed_block::Rewards);

#[verifier::external_type_specification]
#[verifier::external_body]
pub struct ExReward(Reward);

#[verifier::external_type_specification]
#[verifier::external_body]
pub struct ExInnerInstructions(InnerInstructions);

#[verifier::external_type_specification]
#[verifier::external_body]
pub struct ExInnerInstruction(InnerInstruction);

#[verifier::external_type_specification]
#[verifier::external_body]
pub struct ExTokenBalance(TokenBalance);

#[verifier::external_type_specification]
#[verifier::external_body]
pub struct ExUiTokenAmount(UiTokenAmount);

#[verifier::external_type_specification]
#[verifier::external_body]
pub struct ExReturnData(ReturnData);

/// The error of a failed transaction: its bincode encoding.
#[derive(Debug, Clone, PartialEq, Eq)]
pub struct ProtoTransactionError {
    pub err: Vec<u8>,
}

/// An instruction that another instruction invoked.
#[derive(Debug, Clone, PartialEq, Eq)]
pub struct ProtoInnerInstruction {
    pub program_id_index: u32,
    pub accounts: Vec<u8>,
    pub data: Vec<u8>,
    pub stack_height: Option<u32>,
}

/// The inner instructions of one top-level instruction.
#[derive(Debug, Clone, PartialEq, Eq)]
pub struct ProtoInnerInstructions {
    pub index: u32,
    pub instructions: Vec<ProtoInnerInstruction>,
}

/// A token amount. The amount as a floating-point number is held by the bits
/// of its IEEE 754 encoding, which the library passes on and never reads.
#[derive(Debug, Clone, PartialEq, Eq)]
pub struct ProtoUiTokenAmount {
    pub ui_amount_bits: u64,
    pub decimals: u32,
    pub amount: String,
    pub ui_amount_string: String,
}

/// The token balance of one account.
#[derive(Debug, Clone, PartialEq, Eq)]
pub struct ProtoTokenBalance {
    pub account_index: u32,
    pub mint: String,
    pub ui_token_amount: Option<ProtoUiTokenAmount>,
    pub owner: String,
    pub program_id: String,
}

/// A reward paid to an account.
#[derive(Debug, Clone, PartialEq, Eq)]
pub struct ProtoReward {
    pub pubkey: String,
    pub lamports: i64,
    pub post_balance: u64,
    pub reward_type: i32,
    pub commission: String,
    pub commission_bps: String,
}

/// The data a transaction returned.
#[derive(Debug, Clone, PartialEq, Eq)]
pub struct ProtoReturnData {
    pub program_id: Vec<u8>,
    pub data: Vec<u8>,
}

/// The status metadata of a transaction, field for field as the protobuf
/// `TransactionStatusMeta` message has it.
#[derive(Debug, Clone, PartialEq, Eq)]
pub struct ProtoStatusMeta {
    pub err: Option<ProtoTransactionError>,
    pub fee: u64,
    pub pre_balances: Vec<u64>,
    pub post_balances: Vec<u64>,
    pub inner_instructions: Vec<ProtoInnerInstructions>,
    pub inner_instructions_none: bool,
    pub log_messages: Vec<String>,
    pub log_messages_none: bool,
    pub pre_token_balances: Vec<ProtoTokenBalance>,
    pub post_token_balances: Vec<ProtoTokenBalance>,
    pub rewards: Vec<ProtoReward>,
    pub loaded_writable_addresses: Vec<Vec<u8>>,
    pub loaded_readonly_addresses: Vec<Vec<u8>>,
    pub return_data: Option<ProtoReturnData>,
    pub return_data_none: bool,
    pub compute_units_consumed: Option<u64>,
    pub cost_units: Option<u64>,
}

/// The rewards of a block, as the protobuf `Rewards` message has them; the
/// number of partitions stands for its `NumPartitions` message.
#[derive(Debug, Clone, PartialEq, Eq)]
pub struct ProtoRewards {
    pub rewards: Vec<ProtoReward>,
    pub num_partitions: Option<u64>,
}

/// What `zstd::decode_all` decompresses `bytes` to, or `None` where it fails.
pub uninterp spec fn zstd_decoding(bytes: Seq<u8>) -> Option<Seq<u8>>;

/// Calls `zstd::decode_all` on the bytes. Claimed: success exactly when
/// `zstd_decoding(bytes)` is some payload, which is then returned; the result
/// depends on the bytes alone.
#[verifier::external_body]
pub(crate) fn zstd_decode_all(bytes: &[u8]) -> (res: Result<Vec<u8>, std::io::Error>)
    ensures
        res is Ok <==> zstd_decoding(bytes@) is Some,
        res matches Ok(d) ==> zstd_decoding(bytes@) == Some(d@),
{
    zstd::decode_all(bytes)
}

/// The `TransactionStatusMeta` message that protobuf decodes from `bytes`, or
/// `None` where decoding fails.
pub uninterp spec fn proto_meta_decoding(bytes: Seq<u8>) -> Option<ProtoStatusMeta>;

/// Calls `prost::Message::decode` for a `TransactionStatusMeta` and turns the
/// message into the library's model, field by field. Claimed: the result is
/// `proto_meta_decoding(bytes)`, which depends on the bytes alone.
#[verifier::external_body]
pub(crate) fn decode_proto_meta(bytes: &[u8]) -> (res: Option<ProtoStatusMeta>)
    ensures
        res == proto_meta_decoding(bytes@),
{
    TransactionStatusMeta::decode(bytes).ok().map(status_meta_of)
}

/// Turns a protobuf status meta into the library's model, field by field.
#[verifier::external_body]
fn status_meta_of(m: TransactionStatusMeta) -> ProtoStatusMeta {
    ProtoStatusMeta {
        err: m.err.map(|e| ProtoTransactionError { err: e.err }),
        fee: m.fee, pre_balances: m.pre_balances, post_balances: m.post_balances,
        inner_instructions: m.inner_instructions.into_iter().map(inner_instructions_of).collect(),
        inner_instructions_none: m.inner_instructions_none,
        log_messages: m.log_messages, log_messages_none: m.log_messages_none,
        pre_token_balances: m.pre_token_balances.into_iter().map(token_balance_of).collect(),
        post_token_balances: m.post_token_balances.into_iter().map(token_balance_of).collect(),
        rewards: m.rewards.into_iter().map(reward_of).collect(),
        loaded_writable_addresses: m.loaded_writable_addresses, loaded_readonly_addresses: m.loaded_readonly_addresses,
        return_data: m.return_data.map(|r| ProtoReturnData { program_id: r.program_id, data: r.data }),
        return_data_none: m.return_data_none,
        compute_units_consumed: m.compute_units_consumed, cost_units: m.cost_units,
    }
}

/// Turns protobuf inner instructions into the library's model.
#[verifier::external_body]
fn inner_instructions_of(i: InnerInstructions) -> ProtoInnerInstructions {
    ProtoInnerInstructions {
        index: i.index,
        instructions: i.instructions.into_iter().map(inner_instruction_of).collect(),
    }
}

/// Turns a protobuf inner instruction into the library's model.
#[verifier::external_body]
fn inner_instruction_of(i: InnerInstruction) -> ProtoInnerInstruction {
    ProtoInnerInstruction {
        program_id_index: i.program_id_index,
        accounts: i.accounts,
        data: i.data,
        stack_height: i.stack_height,
    }
}

/// Turns a protobuf token balance into the library's model; the float amount
/// is kept as its bits.
#[verifier::external_body]
fn token_balance_of(b: TokenBalance) -> ProtoTokenBalance {
    ProtoTokenBalance {
        account_index: b.account_index,
        mint: b.mint,
        ui_token_amount: b.ui_token_amount.map(|u: UiTokenAmount| ProtoUiTokenAmount {
            ui_amount_bits: u.ui_amount.to_bits(),
            decimals: u.decimals,
            amount: u.amount,
            ui_amount_string: u.ui_amount_string,
        }),
        owner: b.owner,
        program_id: b.program_id,
    }
}

/// Turns a protobuf reward into the library's model.
#[verifier::external_body]
fn reward_of(r: Reward) -> ProtoReward {
    ProtoReward {
        pubkey: r.pubkey,
        lamports: r.lamports,
        post_balance: r.post_balance,
        reward_type: r.reward_type,
        commission: r.commission,
        commission_bps: r.commission_bps,
    }
}

/// What `bincode::deserialize` reads from `bytes` in the stored layout
/// `(Result<(), TransactionError>, u64, Vec<u64>, Vec<u64>)`: for the error,
/// `None` when it is `Ok(())`, else the outcome of `bincode::serialize` on it;
/// where bincode refuses the bytes, the text of its error. The serialisation
/// and the error text are taken of values that only bincode and Solana hold
/// (a `TransactionError`, a `bincode::ErrorKind`), so they are named here as
/// functions of the bytes that produced those values.
pub uninterp spec fn stored_meta_decoding(bytes: Seq<u8>) -> Result<(Option<Option<Seq<u8>>>, u64, Seq<u64>, Seq<u64>), Seq<char>>;

/// Calls `bincode::deserialize` for the stored metadata layout, and
/// `bincode::serialize` on the transaction error it holds, if any; a refusal
/// is turned into the text of bincode's error. Claimed: the result is
/// `stored_meta_decoding(bytes)`, which depends on the bytes alone.
#[verifier::external_body]
pub(crate) fn decode_stored_meta(bytes: &[u8]) -> (res: Result<(Option<Option<Vec<u8>>>, u64, Vec<u64>, Vec<u64>), String>)
    ensures
        match (res, stored_meta_decoding(bytes@)) {
            (Ok(r), Ok(s)) => s == (
                match r.0 {
                    None => None,
                    Some(None) => Some(None),
                    Some(Some(e)) => Some(Some(e@)),
                },
                r.1,
                r.2@,
                r.3@,
            ),
            (Err(t), Err(u)) => t@ == u,
            _ => false,
        },
{
    match bincode::deserialize::<(Result<(), solana_sdk::transaction::TransactionError>, u64, Vec<u64>, Vec<u64>)>(bytes) {
        Ok((err, fee, pre, post)) => Ok((err.err().map(|e| bincode::serialize(&e).ok()), fee, pre, post)),
        Err(e) => Err(e.to_string()),
    }
}

/// The payload that metadata bytes hold: their zstd decompression where it
/// succeeds, else the bytes as they are.
pub open spec fn meta_source(bytes: Seq<u8>) -> Seq<u8> {
    match zstd_decoding(bytes) {
        Some(d) => d,
        None => bytes,
    }
}

/// Whether `m` is the status meta that decoded bincode fields `r` become: the
/// error (empty bytes where its re-encoding failed), the fee and the balances;
/// the three `*_none` flags set; every other list empty and every other
/// optional field absent.
pub open spec fn stored_meta_as(m: ProtoStatusMeta, r: (Option<Option<Seq<u8>>>, u64, Seq<u64>, Seq<u64>)) -> bool {
    &&& match r.0 {
        None => m.err is None,
        Some(None) => (m.err matches Some(e) && e.err@ == Seq::<u8>::empty()),
        Some(Some(b)) => (m.err matches Some(e) && e.err@ == b),
    }
    &&& m.fee == r.1
    &&& m.pre_balances@ == r.2
    &&& m.post_balances@ == r.3
    &&& m.inner_instructions@.len() == 0
    &&& m.inner_instructions_none
    &&& m.log_messages@.len() == 0
    &&& m.log_messages_none
    &&& m.pre_token_balances@.len() == 0
    &&& m.post_token_balances@.len() == 0
    &&& m.rewards@.len() == 0
    &&& m.loaded_writable_addresses@.len() == 0
    &&& m.loaded_readonly_addresses@.len() == 0
    &&& m.return_data is None
    &&& m.return_data_none
    &&& m.compute_units_consumed is None
    &&& m.cost_units is None
}

/// Builds the status meta from its decoded bincode fields: an error whose
/// re-encoding failed is kept as empty bytes; what the layout lacks is
/// marked absent.
pub fn meta_from_stored(stored: (Option<Option<Vec<u8>>>, u64, Vec<u64>, Vec<u64>)) -> (res: ProtoStatusMeta)
    ensures
        stored_meta_as(res, (
            match stored.0 {
                None => None,
                Some(None) => Some(None),
                Some(Some(e)) => Some(Some(e@)),
            },
            stored.1,
            stored.2@,
            stored.3@,
        )),
{
    let (err, fee, pre_balances, post_balances) = stored;
    let err = match err {
        None => None,
        Some(None) => Some(ProtoTransactionError { err: Vec::new() }),
        Some(Some(e)) => Some(ProtoTransactionError { err: e }),
    };
    ProtoStatusMeta {
        err,
        fee,
        pre_balances,
        post_balances,
        inner_instructions: Vec::new(),
        inner_instructions_none: true,
        log_messages: Vec::new(),
        log_messages_none: true,
        pre_token_balances: Vec::new(),
        post_token_balances: Vec::new(),
        rewards: Vec::new(),
        loaded_writable_addresses: Vec::new(),
        loaded_readonly_addresses: Vec::new(),
        return_data: None,
        return_data_none: true,
        compute_units_consumed: None,
        cost_units: None,
    }
}

/// What decoding metadata bytes gives.
pub enum MetaOutcome {
    /// No metadata: the bytes, or their payload, are empty.
    Absent,
    /// The protobuf message decoded from the payload.
    Proto(ProtoStatusMeta),
    /// The fields read from the payload in the bincode layout.
    Stored((Option<Option<Seq<u8>>>, u64, Seq<u64>, Seq<u64>)),
    /// The payload decodes in neither layout; bincode's error text.
    Undecodable(Seq<char>),
}

/// What decoding the metadata bytes `bytes` gives.
pub open spec fn spec_decode_metadata(bytes: Seq<u8>) -> MetaOutcome {
    if bytes.len() == 0 {
        MetaOutcome::Absent
    } else {
        let payload = meta_source(bytes);
        if payload.len() == 0 {
            MetaOutcome::Absent
        } else {
            match proto_meta_decoding(payload) {
                Some(m) => MetaOutcome::Proto(m),
                None => match stored_meta_decoding(payload) {
                    Ok(s) => MetaOutcome::Stored(s),
                    Err(t) => MetaOutcome::Undecodable(t),
                },
            }
        }
    }
}

/// Whether a decoding result agrees with the outcome that the spec gives.
pub open spec fn meta_decoded_as(res: Result<Option<ProtoStatusMeta>, CarSourceError>, outcome: MetaOutcome) -> bool {
    match outcome {
        MetaOutcome::Absent => res matches Ok(None),
        MetaOutcome::Proto(m) => res == Ok::<Option<ProtoStatusMeta>, CarSourceError>(Some(m)),
        MetaOutcome::Stored(s) => (res matches Ok(Some(m)) && stored_meta_as(m, s)),
        MetaOutcome::Undecodable(t) => (res matches Err(e) && (e matches CarSourceError::MetaDecode(x) && x@ == t)),
    }
}

/// Decodes the status metadata of a transaction: empty bytes mean none;
/// otherwise the bytes are decompressed with zstd (or, where that fails, taken
/// as they are) and read as protobuf, else in the bincode layout.
pub fn decode_metadata(meta_bytes: &[u8]) -> (res: Result<Option<ProtoStatusMeta>, CarSourceError>)
    ensures
        meta_decoded_as(res, spec_decode_metadata(meta_bytes@)),
{
    if meta_bytes.len() == 0 {
        return Ok(None);
    }
    let decompressed = match zstd_decode_all(meta_bytes) {
        Ok(buf) => buf,
        Err(_) => vstd::slice::slice_to_vec(meta_bytes),
    };
    assert(decompressed@ == meta_source(meta_bytes@));
    if decompressed.len() == 0 {
        return Ok(None);
    }
    if let Some(meta) = decode_proto_meta(decompressed.as_slice()) {
        return Ok(Some(meta));
    }
    match decode_stored_meta(decompressed.as_slice()) {
        Ok(stored) => Ok(Some(meta_from_stored(stored))),
        Err(text) => Err(CarSourceError::MetaDecode(text)),
    }
}

/// A block reward in the older bincode layout.
#[derive(Debug, Clone, PartialEq, Eq)]
pub struct StoredReward {
    pub pubkey: String,
    pub lamports: i64,
}

/// The `Rewards` message that protobuf decodes from `bytes`, or `None` where
/// decoding fails.
pub uninterp spec fn proto_rewards_decoding(bytes: Seq<u8>) -> Option<ProtoRewards>;

/// Calls `prost::Message::decode` for a `Rewards` message and turns it into
/// the library's model. Claimed: the result is `proto_rewards_decoding(bytes)`,
/// which depends on the bytes alone.
#[verifier::external_body]
pub(crate) fn decode_proto_rewards(bytes: &[u8]) -> (res: Option<ProtoRewards>)
    ensures
        res == proto_rewards_decoding(bytes@),
{
    yellowstone_grpc_proto::solana::storage::confirmed_block::Rewards::decode(bytes).ok().map(|r| ProtoRewards {
        rewards: r.rewards.into_iter().map(reward_of).collect(),
        num_partitions: r.num_partitions.map(|n| n.num_partitions),
    })
}

/// The `(pubkey, lamports)` records that `bincode::deserialize` reads from
/// `bytes` in the stored rewards layout, or `None` where it refuses them.
pub uninterp spec fn stored_rewards_decoding(bytes: Seq<u8>) -> Option<Seq<(Seq<char>, i64)>>;

/// The records of stored rewards.
pub open spec fn rewards_view(rewards: Seq<StoredReward>) -> Seq<(Seq<char>, i64)> {
    rewards.map_values(|r: StoredReward| (r.pubkey@, r.lamports))
}

/// Calls `bincode::deserialize` for a list of `(pubkey: String, lamports: i64)`
/// records. Claimed: success exactly when `stored_rewards_decoding(bytes)` is
/// some list, which is then returned; the result depends on the bytes alone.
#[verifier::external_body]
pub(crate) fn decode_stored_rewards(bytes: &[u8]) -> (res: Result<Vec<StoredReward>, Box<bincode::ErrorKind>>)
    ensures
        res is Ok <==> stored_rewards_decoding(bytes@) is Some,
        res matches Ok(v) ==> stored_rewards_decoding(bytes@) == Some(rewards_view(v@)),
{
    bincode::deserialize::<Vec<(String, i64)>>(bytes)
        .map(|v| v.into_iter().map(|(pubkey, lamports)| StoredReward { pubkey, lamports }).collect())
}

/// Whether `r` is the rewards message that stored records `s` become: one
/// reward per record, in order, with its pubkey and lamports, a post balance
/// and type of zero and empty commissions; no partitions.
pub open spec fn stored_rewards_as(r: ProtoRewards, s: Seq<(Seq<char>, i64)>) -> bool {
    &&& r.num_partitions is None
    &&& r.rewards@.len() == s.len()
    &&& forall|i: int| 0 <= i < s.len() ==> {
        let w = #[trigger] r.rewards@[i];
        &&& w.pubkey@ == s[i].0
        &&& w.lamports == s[i].1
        &&& w.post_balance == 0
        &&& w.reward_type == 0
        &&& w.commission@.len() == 0
        &&& w.commission_bps@.len() == 0
    }
}

/// Builds the rewards message from stored reward records.
fn rewards_from_stored(stored: &Vec<StoredReward>) -> (res: ProtoRewards)
    ensures
        stored_rewards_as(res, rewards_view(stored@)),
{
    let mut rewards: Vec<ProtoReward> = Vec::new();
    let mut i: usize = 0;
    while i < stored.len()
        invariant
            i <= stored@.len(),
            rewards@.len() == i,
            forall|j: int| 0 <= j < i ==> {
                let w = #[trigger] rewards@[j];
                &&& w.pubkey@ == stored@[j].pubkey@
                &&& w.lamports == stored@[j].lamports
                &&& w.post_balance == 0
                &&& w.reward_type == 0
                &&& w.commission@.len() == 0
                &&& w.commission_bps@.len() == 0
            },
        decreases stored@.len() - i,
    {
        let r = &stored[i];
        let w = ProtoReward {
            pubkey: r.pubkey.clone(),
            lamports: r.lamports,
            post_balance: 0,
            reward_type: 0,
            commission: String::new(),
            commission_bps: String::new(),
        };
        rewards.push(w);
        i += 1;
    }
    ProtoRewards { rewards, num_partitions: None }
}

/// Decodes the rewards of a block: the bytes must decompress with zstd; the
/// payload is read as protobuf, else in the bincode layout.
pub fn decode_rewards(data: &[u8]) -> (res: Result<ProtoRewards, CarSourceError>)
    ensures
        zstd_decoding(data@) is None ==> (res matches Err(e) && e is Io),
        zstd_decoding(data@) matches Some(d) ==> {
            match proto_rewards_decoding(d) {
                Some(p) => res == Ok::<ProtoRewards, CarSourceError>(p),
                None => match stored_rewards_decoding(d) {
                    Some(s) => (res matches Ok(r) && stored_rewards_as(r, s)),
                    None => (res matches Err(e) && e is Bincode),
                },
            }
        },
{
    let decompressed = match zstd_decode_all(data) {
        Ok(d) => d,
        Err(e) => return Err(CarSourceError::Io(e)),
    };
    if let Some(rewards) = decode_proto_rewards(decompressed.as_slice()) {
        return Ok(rewards);
    }
    match decode_stored_rewards(decompressed.as_slice()) {
        Ok(stored) => Ok(rewards_from_stored(&stored)),
        Err(e) => Err(CarSourceError::Bincode(e)),
    }
}

} // verus!
