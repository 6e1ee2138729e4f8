//! Solana transactions as stored in the archive, what the stream reads of
//! them, and their protobuf form.
use bincode::Options;
use vstd::prelude::*;

use crate::car::util::bytes::bytes_eq;

verus! {

/// The header of a message: how its account keys divide into signers and read-only accounts.
#[derive(Clone, Copy, Debug, PartialEq, Eq, Hash, Structural)]
pub struct TxHeader {
    pub num_required_signatures: u8,
    pub num_readonly_signed_accounts: u8,
    pub num_readonly_unsigned_accounts: u8,
}

/// An instruction that names its program and accounts by index into the account keys.
#[derive(Debug, Clone, PartialEq, Eq, Hash)]
pub struct TxInstruction {
    pub program_id_index: u8,
    pub accounts: Vec<u8>,
    pub data: Vec<u8>,
}

/// A reference to an address lookup table of a version-0 message.
#[derive(Debug, Clone, PartialEq, Eq, Hash)]
pub struct TxTableLookup {
    pub account_key: [u8; 32],
    pub writable_indexes: Vec<u8>,
    pub readonly_indexes: Vec<u8>,
}

/// A legacy message.
#[derive(Debug, Clone, PartialEq, Eq, Hash)]
pub struct TxLegacyMessage {
    pub header: TxHeader,
    pub account_keys: Vec<[u8; 32]>,
    pub recent_blockhash: [u8; 32],
    pub instructions: Vec<TxInstruction>,
}

/// A version-0 message: a legacy message plus address table lookups.
#[derive(Debug, Clone, PartialEq, Eq, Hash)]
pub struct TxV0Message {
    pub header: TxHeader,
    pub account_keys: Vec<[u8; 32]>,
    pub recent_blockhash: [u8; 32],
    pub instructions: Vec<TxInstruction>,
    pub address_table_lookups: Vec<TxTableLookup>,
}

/// A message of either version.
#[derive(Debug, Clone, PartialEq, Eq, Hash)]
pub enum VersionedMsg {
    Legacy(TxLegacyMessage),
    V0(TxV0Message),
}

/// A signed transaction: its signatures (64 bytes each) and its message.
#[derive(Debug, Clone, PartialEq, Eq, Hash)]
pub struct VersionedTx {
    pub signatures: Vec<Vec<u8>>,
    pub message: VersionedMsg,
}

#[verifier::external_type_specification]
#[verifier::external_body]
pub struct ExBincodeErrorKind(bincode::ErrorKind);

#[verifier::external_type_specification]
#[verifier::external_body]
pub struct ExSolanaTransaction(solana_sdk::transaction::VersionedTransaction);

#[verifier::external_type_specification]
#[verifier::external_body]
pub struct ExSolanaMessage(solana_message::VersionedMessage);

#[verifier::external_type_specification]
#[verifier::external_body]
pub struct ExSolanaLegacyMessage(solana_message::Message);

#[verifier::external_type_specification]
#[verifier::external_body]
pub struct ExSolanaV0Message(solana_message::v0::Message);

#[verifier::external_type_specification]
#[verifier::external_body]
pub struct ExSolanaHeader(solana_message::MessageHeader);

#[verifier::external_type_specification]
#[verifier::external_body]
pub struct ExSolanaInstruction(solana_message::compiled_instruction::CompiledInstruction);

#[verifier::external_type_specification]
#[verifier::external_body]
pub struct ExSolanaLookup(solana_message::v0::MessageAddressTableLookup);

/// The transaction that bincode (fixed-width integers, no trailing bytes)
/// reads from `bytes` as a `solana_sdk::transaction::VersionedTransaction`,
/// or `None` where it refuses them.
pub uninterp spec fn transaction_decoding(bytes: Seq<u8>) -> Option<VersionedTx>;

/// Calls `bincode::DefaultOptions::new().with_fixint_encoding().deserialize`
/// for a `VersionedTransaction`. Claimed: success exactly when
/// `transaction_decoding(bytes)` is some transaction, which is then returned;
/// the result depends on the bytes alone.
#[verifier::external_body]
pub(crate) fn decode_transaction(bytes: &[u8]) -> (res: Result<VersionedTx, Box<bincode::ErrorKind>>)
    ensures
        res is Ok <==> transaction_decoding(bytes@) is Some,
        res matches Ok(t) ==> transaction_decoding(bytes@) == Some(t),
{
    bincode::DefaultOptions::new()
        .with_fixint_encoding()
        .deserialize::<solana_sdk::transaction::VersionedTransaction>(bytes)
        .map(transaction_of)
}

/// Turns a decoded Solana transaction into the library's model, field by field.
#[verifier::external_body]
fn transaction_of(tx: solana_sdk::transaction::VersionedTransaction) -> VersionedTx {
    VersionedTx {
        signatures: tx.signatures.iter().map(|s| s.as_ref().to_vec()).collect(),
        message: message_of(tx.message),
    }
}

/// Turns a Solana message into the library's model, by its version.
#[verifier::external_body]
fn message_of(message: solana_message::VersionedMessage) -> VersionedMsg {
    match message {
        solana_message::VersionedMessage::Legacy(m) => VersionedMsg::Legacy(legacy_message_of(m)),
        solana_message::VersionedMessage::V0(m) => VersionedMsg::V0(v0_message_of(m)),
    }
}

/// Turns a legacy Solana message into the library's model, field by field.
#[verifier::external_body]
fn legacy_message_of(m: solana_message::Message) -> TxLegacyMessage {
    TxLegacyMessage {
        header: header_of(m.header),
        account_keys: m.account_keys.iter().map(|k| k.to_bytes()).collect(),
        recent_blockhash: m.recent_blockhash.to_bytes(),
        instructions: m.instructions.into_iter().map(instruction_of).collect(),
    }
}

/// Turns a version-0 Solana message into the library's model, field by field.
#[verifier::external_body]
fn v0_message_of(m: solana_message::v0::Message) -> TxV0Message {
    TxV0Message {
        header: header_of(m.header),
        account_keys: m.account_keys.iter().map(|k| k.to_bytes()).collect(),
        recent_blockhash: m.recent_blockhash.to_bytes(),
        instructions: m.instructions.into_iter().map(instruction_of).collect(),
        address_table_lookups: m.address_table_lookups.into_iter().map(lookup_of).collect(),
    }
}

/// Turns a Solana message header into the library's model.
#[verifier::external_body]
fn header_of(h: solana_message::MessageHeader) -> TxHeader {
    TxHeader {
        num_required_signatures: h.num_required_signatures,
        num_readonly_signed_accounts: h.num_readonly_signed_accounts,
        num_readonly_unsigned_accounts: h.num_readonly_unsigned_accounts,
    }
}

/// Turns a Solana compiled instruction into the library's model.
#[verifier::external_body]
fn instruction_of(ix: solana_message::compiled_instruction::CompiledInstruction) -> TxInstruction {
    TxInstruction { program_id_index: ix.program_id_index, accounts: ix.accounts, data: ix.data }
}

/// Turns a Solana address table lookup into the library's model.
#[verifier::external_body]
fn lookup_of(l: solana_message::v0::MessageAddressTableLookup) -> TxTableLookup {
    TxTableLookup {
        account_key: l.account_key.to_bytes(),
        writable_indexes: l.writable_indexes,
        readonly_indexes: l.readonly_indexes,
    }
}

impl VersionedMsg {
    /// The account keys of the message.
    pub open spec fn keys(&self) -> Seq<[u8; 32]> {
        match self {
            VersionedMsg::Legacy(m) => m.account_keys@,
            VersionedMsg::V0(m) => m.account_keys@,
        }
    }

    /// The instructions of the message.
    pub open spec fn spec_instructions(&self) -> Seq<TxInstruction> {
        match self {
            VersionedMsg::Legacy(m) => m.instructions@,
            VersionedMsg::V0(m) => m.instructions@,
        }
    }
}

/// The address of the vote program, `Vote111111111111111111111111111111111111111`.
pub open spec fn vote_program_id() -> Seq<u8> {
    seq![
        7u8, 97u8, 72u8, 29u8, 53u8, 116u8, 116u8, 187u8, 124u8, 77u8, 118u8, 36u8, 235u8, 211u8, 189u8, 179u8,
        216u8, 53u8, 94u8, 115u8, 209u8, 16u8, 67u8, 252u8, 13u8, 163u8, 83u8, 128u8, 0u8, 0u8, 0u8, 0u8,
    ]
}

/// The address of the vote program.
pub fn vote_program_key() -> (res: [u8; 32])
    ensures
        res@ == vote_program_id(),
{
    let res: [u8; 32] = [
        7, 97, 72, 29, 53, 116, 116, 187, 124, 77, 118, 36, 235, 211, 189, 179,
        216, 53, 94, 115, 209, 16, 67, 252, 13, 163, 83, 128, 0, 0, 0, 0,
    ];
    assert(res@ =~= vote_program_id());
    res
}

/// Whether the first instruction of the transaction calls the vote program.
pub open spec fn spec_is_vote(tx: VersionedTx) -> bool {
    let ixs = tx.message.spec_instructions();
    let keys = tx.message.keys();
    &&& ixs.len() > 0
    &&& (ixs[0].program_id_index as int) < keys.len()
    &&& keys[ixs[0].program_id_index as int]@ == vote_program_id()
}

/// Whether the transaction is a vote: its first instruction's program is the vote program.
pub fn is_vote_transaction(tx: &VersionedTx) -> (res: bool)
    ensures
        res == spec_is_vote(*tx),
{
    let (keys, instructions) = match &tx.message {
        VersionedMsg::Legacy(m) => (&m.account_keys, &m.instructions),
        VersionedMsg::V0(m) => (&m.account_keys, &m.instructions),
    };
    if instructions.len() == 0 {
        return false;
    }
    let index = instructions[0].program_id_index as usize;
    if index >= keys.len() {
        return false;
    }
    let vote = vote_program_key();
    bytes_eq(keys[index].as_slice(), vote.as_slice())
}

/// The static account keys of the transaction's message.
pub fn static_account_keys(tx: &VersionedTx) -> (res: Vec<[u8; 32]>)
    ensures
        res@ == tx.message.keys(),
{
    let keys = match &tx.message {
        VersionedMsg::Legacy(m) => &m.account_keys,
        VersionedMsg::V0(m) => &m.account_keys,
    };
    let mut out: Vec<[u8; 32]> = Vec::new();
    let mut i: usize = 0;
    while i < keys.len()
        invariant
            i <= keys@.len(),
            keys@ == tx.message.keys(),
            out@ == keys@.take(i as int),
        decreases keys@.len() - i,
    {
        out.push(keys[i]);
        i += 1;
        assert(out@ =~= keys@.take(i as int));
    }
    assert(keys@.take(i as int) =~= keys@);
    out
}


/// A message header in its protobuf form.
#[derive(Clone, Copy, Debug, PartialEq, Eq, Hash, Structural)]
pub struct ProtoHeader {
    pub num_required_signatures: u32,
    pub num_readonly_signed_accounts: u32,
    pub num_readonly_unsigned_accounts: u32,
}

/// A compiled instruction in its protobuf form.
#[derive(Debug, Clone, PartialEq, Eq, Hash)]
pub struct ProtoCompiledInstruction {
    pub program_id_index: u32,
    pub accounts: Vec<u8>,
    pub data: Vec<u8>,
}

/// An address table lookup in its protobuf form.
#[derive(Debug, Clone, PartialEq, Eq, Hash)]
pub struct ProtoMessageAddressTableLookup {
    pub account_key: Vec<u8>,
    pub writable_indexes: Vec<u8>,
    pub readonly_indexes: Vec<u8>,
}

/// A message in its protobuf form.
#[derive(Debug, Clone, PartialEq, Eq, Hash)]
pub struct ProtoMessage {
    pub header: Option<ProtoHeader>,
    pub account_keys: Vec<Vec<u8>>,
    pub recent_blockhash: Vec<u8>,
    pub instructions: Vec<ProtoCompiledInstruction>,
    pub versioned: bool,
    pub address_table_lookups: Vec<ProtoMessageAddressTableLookup>,
}

/// A transaction in its protobuf form.
#[derive(Debug, Clone, PartialEq, Eq, Hash)]
pub struct ProtoTransaction {
    pub signatures: Vec<Vec<u8>>,
    pub message: Option<ProtoMessage>,
}

/// The protobuf header carries the three counts, widened.
pub open spec fn header_carried(p: ProtoHeader, h: TxHeader) -> bool {
    &&& p.num_required_signatures == h.num_required_signatures as u32
    &&& p.num_readonly_signed_accounts == h.num_readonly_signed_accounts as u32
    &&& p.num_readonly_unsigned_accounts == h.num_readonly_unsigned_accounts as u32
}

/// The protobuf instruction carries the instruction's fields.
pub open spec fn instruction_carried(p: ProtoCompiledInstruction, ix: TxInstruction) -> bool {
    &&& p.program_id_index == ix.program_id_index as u32
    &&& p.accounts@ == ix.accounts@
    &&& p.data@ == ix.data@
}

/// The protobuf lookup carries the lookup's fields.
pub open spec fn lookup_carried(p: ProtoMessageAddressTableLookup, l: TxTableLookup) -> bool {
    &&& p.account_key@ == l.account_key@
    &&& p.writable_indexes@ == l.writable_indexes@
    &&& p.readonly_indexes@ == l.readonly_indexes@
}

/// Each protobuf key holds the bytes of the key at the same place.
pub open spec fn keys_carried(p: Seq<Vec<u8>>, keys: Seq<[u8; 32]>) -> bool {
    &&& p.len() == keys.len()
    &&& forall|i: int| 0 <= i < keys.len() ==> (#[trigger] p[i])@ == keys[i]@
}

/// Each protobuf instruction carries the instruction at the same place.
pub open spec fn instructions_carried(p: Seq<ProtoCompiledInstruction>, ixs: Seq<TxInstruction>) -> bool {
    &&& p.len() == ixs.len()
    &&& forall|i: int| 0 <= i < ixs.len() ==> instruction_carried(#[trigger] p[i], ixs[i])
}

/// Each protobuf lookup carries the lookup at the same place.
pub open spec fn lookups_carried(p: Seq<ProtoMessageAddressTableLookup>, ls: Seq<TxTableLookup>) -> bool {
    &&& p.len() == ls.len()
    &&& forall|i: int| 0 <= i < ls.len() ==> lookup_carried(#[trigger] p[i], ls[i])
}

/// The protobuf message carries the message: header, keys, blockhash and
/// instructions; `versioned` and the lookups tell a version-0 message apart.
pub open spec fn message_carried(p: ProtoMessage, m: VersionedMsg) -> bool {
    match m {
        VersionedMsg::Legacy(l) => {
            &&& p.header matches Some(h) && header_carried(h, l.header)
            &&& keys_carried(p.account_keys@, l.account_keys@)
            &&& p.recent_blockhash@ == l.recent_blockhash@
            &&& instructions_carried(p.instructions@, l.instructions@)
            &&& !p.versioned
            &&& p.address_table_lookups@.len() == 0
        },
        VersionedMsg::V0(v) => {
            &&& p.header matches Some(h) && header_carried(h, v.header)
            &&& keys_carried(p.account_keys@, v.account_keys@)
            &&& p.recent_blockhash@ == v.recent_blockhash@
            &&& instructions_carried(p.instructions@, v.instructions@)
            &&& p.versioned
            &&& lookups_carried(p.address_table_lookups@, v.address_table_lookups@)
        },
    }
}

/// Each protobuf signature holds the bytes of the signature at the same place.
pub open spec fn signatures_carried(p: Seq<Vec<u8>>, sigs: Seq<Vec<u8>>) -> bool {
    &&& p.len() == sigs.len()
    &&& forall|i: int| 0 <= i < sigs.len() ==> (#[trigger] p[i])@ == sigs[i]@
}

/// A message header in protobuf form.
pub fn to_proto_header(header: &TxHeader) -> (res: ProtoHeader)
    ensures
        header_carried(res, *header),
{
    ProtoHeader {
        num_required_signatures: header.num_required_signatures as u32,
        num_readonly_signed_accounts: header.num_readonly_signed_accounts as u32,
        num_readonly_unsigned_accounts: header.num_readonly_unsigned_accounts as u32,
    }
}

/// A compiled instruction in protobuf form.
pub fn to_proto_instruction(ix: &TxInstruction) -> (res: ProtoCompiledInstruction)
    ensures
        instruction_carried(res, *ix),
{
    ProtoCompiledInstruction {
        program_id_index: ix.program_id_index as u32,
        accounts: vstd::slice::slice_to_vec(ix.accounts.as_slice()),
        data: vstd::slice::slice_to_vec(ix.data.as_slice()),
    }
}

/// An address table lookup in protobuf form.
pub fn to_proto_lookup(lookup: &TxTableLookup) -> (res: ProtoMessageAddressTableLookup)
    ensures
        lookup_carried(res, *lookup),
{
    ProtoMessageAddressTableLookup {
        account_key: vstd::slice::slice_to_vec(lookup.account_key.as_slice()),
        writable_indexes: vstd::slice::slice_to_vec(lookup.writable_indexes.as_slice()),
        readonly_indexes: vstd::slice::slice_to_vec(lookup.readonly_indexes.as_slice()),
    }
}

/// Account keys as byte vectors.
fn keys_to_proto(keys: &Vec<[u8; 32]>) -> (res: Vec<Vec<u8>>)
    ensures
        keys_carried(res@, keys@),
{
    let mut out: Vec<Vec<u8>> = Vec::new();
    let mut i: usize = 0;
    while i < keys.len()
        invariant
            i <= keys@.len(),
            out@.len() == i,
            forall|j: int| 0 <= j < i ==> (#[trigger] out@[j])@ == keys@[j]@,
        decreases keys@.len() - i,
    {
        out.push(vstd::slice::slice_to_vec(keys[i].as_slice()));
        i += 1;
    }
    out
}

/// Instructions in protobuf form.
fn instructions_to_proto(ixs: &Vec<TxInstruction>) -> (res: Vec<ProtoCompiledInstruction>)
    ensures
        instructions_carried(res@, ixs@),
{
    let mut out: Vec<ProtoCompiledInstruction> = Vec::new();
    let mut i: usize = 0;
    while i < ixs.len()
        invariant
            i <= ixs@.len(),
            out@.len() == i,
            forall|j: int| 0 <= j < i ==> instruction_carried(#[trigger] out@[j], ixs@[j]),
        decreases ixs@.len() - i,
    {
        out.push(to_proto_instruction(&ixs[i]));
        i += 1;
    }
    out
}

/// Address table lookups in protobuf form.
fn lookups_to_proto(ls: &Vec<TxTableLookup>) -> (res: Vec<ProtoMessageAddressTableLookup>)
    ensures
        lookups_carried(res@, ls@),
{
    let mut out: Vec<ProtoMessageAddressTableLookup> = Vec::new();
    let mut i: usize = 0;
    while i < ls.len()
        invariant
            i <= ls@.len(),
            out@.len() == i,
            forall|j: int| 0 <= j < i ==> lookup_carried(#[trigger] out@[j], ls@[j]),
        decreases ls@.len() - i,
    {
        out.push(to_proto_lookup(&ls[i]));
        i += 1;
    }
    out
}

/// A message in protobuf form.
pub fn to_proto_message(message: &VersionedMsg) -> (res: ProtoMessage)
    ensures
        message_carried(res, *message),
{
    match message {
        VersionedMsg::Legacy(m) => ProtoMessage {
            header: Some(to_proto_header(&m.header)),
            account_keys: keys_to_proto(&m.account_keys),
            recent_blockhash: vstd::slice::slice_to_vec(m.recent_blockhash.as_slice()),
            instructions: instructions_to_proto(&m.instructions),
            versioned: false,
            address_table_lookups: Vec::new(),
        },
        VersionedMsg::V0(m) => ProtoMessage {
            header: Some(to_proto_header(&m.header)),
            account_keys: keys_to_proto(&m.account_keys),
            recent_blockhash: vstd::slice::slice_to_vec(m.recent_blockhash.as_slice()),
            instructions: instructions_to_proto(&m.instructions),
            versioned: true,
            address_table_lookups: lookups_to_proto(&m.address_table_lookups),
        },
    }
}

/// Copies of byte strings.
pub fn copy_byte_strings(items: &Vec<Vec<u8>>) -> (res: Vec<Vec<u8>>)
    ensures
        signatures_carried(res@, items@),
{
    let mut out: Vec<Vec<u8>> = Vec::new();
    let mut i: usize = 0;
    while i < items.len()
        invariant
            i <= items@.len(),
            out@.len() == i,
            forall|j: int| 0 <= j < i ==> (#[trigger] out@[j])@ == items@[j]@,
        decreases items@.len() - i,
    {
        out.push(vstd::slice::slice_to_vec(items[i].as_slice()));
        i += 1;
    }
    out
}

/// A transaction in protobuf form.
pub fn to_proto_transaction(tx: &VersionedTx) -> (res: ProtoTransaction)
    ensures
        signatures_carried(res.signatures@, tx.signatures@),
        res.message matches Some(m) && message_carried(m, tx.message),
{
    ProtoTransaction {
        signatures: copy_byte_strings(&tx.signatures),
        message: Some(to_proto_message(&tx.message)),
    }
}

} // verus!
