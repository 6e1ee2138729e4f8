//! The decisions of the Old Faithful CAR source: which transactions of a block
//! are emitted, to which pipelines, and in what form.
use vstd::prelude::*;

use crate::car::node::nodes::{lookup, spec_reassemble, Node, NodeView, Nodes};
use crate::car::node::block::Block;
use crate::car::node::transaction::{Transaction, TransactionView};
use crate::error::CarSourceError;
use crate::filters::{
    keys_view, matching_transaction_filters, slot_filter_ids, spec_matching_ids, spec_slot_ids,
    strings_view, Filters,
};
use crate::meta::{decode_metadata, meta_decoded_as, spec_decode_metadata, MetaOutcome, ProtoStatusMeta};
use crate::tx::{
    decode_transaction, is_vote_transaction, message_carried, signatures_carried, spec_is_vote,
    static_account_keys, to_proto_transaction, transaction_decoding, ProtoTransaction, VersionedTx,
};

verus! {

/// The addresses among `addrs` that are 32 bytes long, in order.
pub open spec fn keys_of_length(addrs: Seq<Seq<u8>>) -> Seq<Seq<u8>>
    decreases addrs.len(),
{
    if addrs.len() == 0 {
        Seq::empty()
    } else {
        let rest = keys_of_length(addrs.drop_last());
        if addrs.last().len() == 32 {
            rest.push(addrs.last())
        } else {
            rest
        }
    }
}

/// The accounts of a transaction: its static keys, then the loaded writable and
/// read-only addresses that are 32 bytes long.
pub open spec fn spec_gather_accounts(tx: VersionedTx, writable: Seq<Seq<u8>>, readonly: Seq<Seq<u8>>) -> Seq<Seq<u8>> {
    keys_view(tx.message.keys()) + keys_of_length(writable + readonly)
}

/// The 32-byte key that `bytes` hold, if they are 32 bytes long.
fn key_from_bytes(bytes: &[u8]) -> (res: Option<[u8; 32]>)
    ensures
        res is Some <==> bytes@.len() == 32,
        res matches Some(k) ==> k@ == bytes@,
{
    if bytes.len() != 32 {
        return None;
    }
    let mut key: [u8; 32] = [0u8; 32];
    let mut i: usize = 0;
    while i < 32
        invariant
            i <= 32,
            bytes@.len() == 32,
            key@.len() == 32,
            forall|j: int| 0 <= j < i ==> key@[j] == bytes@[j],
        decreases 32 - i,
    {
        key.set(i, bytes[i]);
        i += 1;
    }
    assert(key@ =~= bytes@);
    Some(key)
}

/// Appends the 32-byte addresses among `addrs` to `accounts`.
fn push_loaded_keys(accounts: &mut Vec<[u8; 32]>, addrs: &Vec<Vec<u8>>)
    ensures
        keys_view(final(accounts)@) == keys_view(old(accounts)@) + keys_of_length(addrs.deep_view()),
{
    let mut i: usize = 0;
    assert(addrs.deep_view().take(0) =~= Seq::<Seq<u8>>::empty());
    assert(keys_view(accounts@) =~= keys_view(old(accounts)@) + keys_of_length(Seq::<Seq<u8>>::empty()));
    while i < addrs.len()
        invariant
            i <= addrs@.len(),
            addrs.deep_view().len() == addrs@.len(),
            keys_view(accounts@) == keys_view(old(accounts)@) + keys_of_length(addrs.deep_view().take(i as int)),
        decreases addrs@.len() - i,
    {
        let ghost prev = accounts@;
        assert(addrs.deep_view().take(i + 1).drop_last() =~= addrs.deep_view().take(i as int));
        assert(addrs.deep_view()[i as int] == addrs@[i as int]@);
        if let Some(key) = key_from_bytes(addrs[i].as_slice()) {
            accounts.push(key);
            assert(keys_view(accounts@) =~= keys_view(prev).push(key@));
        }
        i += 1;
    }
    assert(addrs.deep_view().take(i as int) =~= addrs.deep_view());
}

/// The accounts a transaction touches: its static account keys, then the
/// addresses its metadata says were loaded from lookup tables (writable, then
/// read-only), leaving out any that are not 32 bytes long.
pub fn gather_accounts(versioned_tx: &VersionedTx, meta: Option<&ProtoStatusMeta>) -> (res: Vec<[u8; 32]>)
    ensures
        keys_view(res@) == match meta {
            Some(m) => spec_gather_accounts(*versioned_tx, m.loaded_writable_addresses.deep_view(), m.loaded_readonly_addresses.deep_view()),
            None => spec_gather_accounts(*versioned_tx, Seq::empty(), Seq::empty()),
        },
{
    let mut accounts = static_account_keys(versioned_tx);
    if let Some(m) = meta {
        push_loaded_keys(&mut accounts, &m.loaded_writable_addresses);
        push_loaded_keys(&mut accounts, &m.loaded_readonly_addresses);
        proof {
            lemma_keys_of_length_append(m.loaded_writable_addresses.deep_view(), m.loaded_readonly_addresses.deep_view());
        }
    } else {
        assert(Seq::<Seq<u8>>::empty() + Seq::<Seq<u8>>::empty() =~= Seq::<Seq<u8>>::empty());
        assert(keys_view(accounts@) =~= keys_view(accounts@) + keys_of_length(Seq::<Seq<u8>>::empty()));
    }
    accounts
}

/// Picking the 32-byte addresses of two lists in turn picks them of the joined list.
pub proof fn lemma_keys_of_length_append(a: Seq<Seq<u8>>, b: Seq<Seq<u8>>)
    ensures
        keys_of_length(a + b) == keys_of_length(a) + keys_of_length(b),
    decreases b.len(),
{
    if b.len() == 0 {
        assert(a + b =~= a);
        assert(keys_of_length(a) + keys_of_length(b) =~= keys_of_length(a));
    } else {
        lemma_keys_of_length_append(a, b.drop_last());
        assert((a + b).drop_last() =~= a + b.drop_last());
        assert((a + b).last() == b.last());
        if b.last().len() == 32 {
            assert(keys_of_length(a) + keys_of_length(b) =~= (keys_of_length(a) + keys_of_length(b.drop_last())).push(b.last()));
        }
    }
}


/// Where walking a block's transactions stopped.
pub enum PlanEnd {
    /// Every transaction of every entry was reached.
    Done,
    /// The limit on emitted transactions was reached.
    Limit,
    /// An entry link leads to no entry node.
    MissingEntry,
    /// A transaction link leads to no transaction node.
    MissingTransaction,
    /// Turning this transaction node into an update failed.
    Failed(TransactionView),
}

/// Whether `sent` emitted transactions reach the limit `max`.
pub open spec fn at_limit(sent: int, max: Option<usize>) -> bool {
    match max {
        Some(m) => sent >= m,
        None => false,
    }
}

/// What turning a transaction node into an update comes to.
pub enum UpdateOutcome {
    /// An error stops the block.
    Failed,
    /// No pipeline's filter passes it: nothing is emitted.
    Skipped,
    /// An update is emitted.
    Emitted,
}

/// What turning the node `car_tx` of the group `nodes` into an update for
/// `filters` comes to (see `update_as` for the update itself).
pub open spec fn update_outcome(nodes: Seq<(Seq<u8>, NodeView)>, car_tx: TransactionView, filters: Filters) -> UpdateOutcome {
    match spec_reassemble(nodes, car_tx.data) {
        Err(_) => UpdateOutcome::Failed,
        Ok(tx_bytes) => match transaction_decoding(tx_bytes) {
            None => UpdateOutcome::Failed,
            Some(tx) => match spec_reassemble(nodes, car_tx.metadata) {
                Err(_) => UpdateOutcome::Failed,
                Ok(meta_bytes) => {
                    let outcome = spec_decode_metadata(meta_bytes);
                    if outcome is Undecodable {
                        UpdateOutcome::Failed
                    } else if spec_matching_ids(filters.parsers_filters@, accounts_with_meta(tx, outcome)).len() == 0 {
                        UpdateOutcome::Skipped
                    } else {
                        UpdateOutcome::Emitted
                    }
                },
            },
        },
    }
}

/// The transactions whose updates are emitted when the links `cids` of one
/// entry are walked in order, with `sent` updates already emitted, and where
/// the walk stopped. Only emitted updates count toward the limit.
pub open spec fn plan_transactions(
    nodes: Seq<(Seq<u8>, NodeView)>,
    cids: Seq<Seq<u8>>,
    sent: int,
    max: Option<usize>,
    filters: Filters,
) -> (Seq<TransactionView>, PlanEnd)
    decreases cids.len(),
{
    if cids.len() == 0 {
        (Seq::empty(), PlanEnd::Done)
    } else if at_limit(sent, max) {
        (Seq::empty(), PlanEnd::Limit)
    } else {
        match lookup(nodes, cids[0]) {
            Some(NodeView::Transaction(t)) => match update_outcome(nodes, t, filters) {
                UpdateOutcome::Failed => (Seq::empty(), PlanEnd::Failed(t)),
                UpdateOutcome::Skipped => plan_transactions(nodes, cids.drop_first(), sent, max, filters),
                UpdateOutcome::Emitted => {
                    let rest = plan_transactions(nodes, cids.drop_first(), sent + 1, max, filters);
                    (seq![t] + rest.0, rest.1)
                },
            },
            _ => (Seq::empty(), PlanEnd::MissingTransaction),
        }
    }
}

/// The transactions whose updates are emitted when the entries linked by
/// `entries` are walked in order, with `sent` updates already emitted, and
/// where the walk stopped.
pub open spec fn plan_entries(
    nodes: Seq<(Seq<u8>, NodeView)>,
    entries: Seq<Seq<u8>>,
    sent: int,
    max: Option<usize>,
    filters: Filters,
) -> (Seq<TransactionView>, PlanEnd)
    decreases entries.len(),
{
    if entries.len() == 0 {
        (Seq::empty(), PlanEnd::Done)
    } else {
        match lookup(nodes, entries[0]) {
            Some(NodeView::Entry(e)) => {
                let first = plan_transactions(nodes, e.transactions, sent, max, filters);
                if first.1 is Done {
                    let rest = plan_entries(nodes, entries.drop_first(), sent + first.0.len(), max, filters);
                    (first.0 + rest.0, rest.1)
                } else {
                    first
                }
            },
            _ => (Seq::empty(), PlanEnd::MissingEntry),
        }
    }
}

/// What processing one block comes to: the block, the updates to emit in
/// order, and how the walk ended (an error after those updates are emitted).
#[derive(Debug)]
pub struct BlockPlan<'a> {
    pub block: &'a Block,
    pub updates: Vec<TransactionUpdate>,
    pub end: Result<(), CarSourceError>,
}

/// Whether the outcome of a walk is the end that the spec gives.
pub open spec fn end_as(end: Result<(), CarSourceError>, e: PlanEnd, nodes: Seq<(Seq<u8>, NodeView)>, filters: Filters) -> bool {
    match e {
        PlanEnd::Done => end is Ok,
        PlanEnd::Limit => end is Ok,
        PlanEnd::MissingEntry => (end matches Err(err) && (err matches CarSourceError::MissingNode(n) && n@ == "Entry"@)),
        PlanEnd::MissingTransaction => (end matches Err(err) && (err matches CarSourceError::MissingNode(n) && n@ == "Transaction"@)),
        PlanEnd::Failed(t) => (end matches Err(err)
            && update_as(Err::<Option<TransactionUpdate>, CarSourceError>(err), nodes, t, filters)),
    }
}

/// The error for a missing node of the named kind.
fn missing_node(kind: &str) -> (res: CarSourceError)
    ensures
        res matches CarSourceError::MissingNode(n) && n@ == kind@,
{
    CarSourceError::MissingNode(String::from_str(kind))
}

/// The outcome of a transaction node is the shape of its update.
proof fn lemma_update_outcome(
    res: Result<Option<TransactionUpdate>, CarSourceError>,
    nodes: Seq<(Seq<u8>, NodeView)>,
    car_tx: TransactionView,
    filters: Filters,
)
    requires
        update_as(res, nodes, car_tx, filters),
    ensures
        res is Err <==> update_outcome(nodes, car_tx, filters) is Failed,
        res matches Ok(None) <==> update_outcome(nodes, car_tx, filters) is Skipped,
        res matches Ok(Some(_)) <==> update_outcome(nodes, car_tx, filters) is Emitted,
{
}

/// Decides what processing a block's group of nodes comes to: the block must
/// be there; then the entries it links, in order, and the transactions each
/// links, in order, are turned into updates for `filters` until the limit on
/// emitted transactions is reached (with `txs_sent` emitted already), a link
/// leads nowhere, or a transaction cannot be turned into an update.
pub fn plan_block<'a>(nodes: &'a Nodes, filters: &Filters, txs_sent: usize, max_txs: Option<usize>) -> (res: Result<BlockPlan<'a>, CarSourceError>)
    ensures
        res is Err <==> !exists|i: int| 0 <= i < nodes@.len() && nodes@[i].1 is Block,
        res matches Err(e) ==> (e matches CarSourceError::MissingNode(n) && n@ == "Block"@),
        res matches Ok(p) ==> {
            let walk = plan_entries(nodes@, p.block@.entries, txs_sent as int, max_txs, *filters);
            &&& exists|i: int| 0 <= i < nodes@.len() && nodes@[i].1 == NodeView::Block(p.block@)
            &&& p.updates@.len() == walk.0.len()
            &&& forall|i: int| 0 <= i < p.updates@.len()
                ==> update_as(Ok(Some(#[trigger] p.updates@[i])), nodes@, walk.0[i], *filters)
            &&& end_as(p.end, walk.1, nodes@, *filters)
        },
{
    proof {
        reveal_strlit("Block");
        reveal_strlit("Entry");
        reveal_strlit("Transaction");
    }
    let block = match nodes.find_block() {
        Some(b) => b,
        None => return Err(missing_node("Block")),
    };
    let ghost entries = block@.entries;
    let ghost fs = *filters;
    let mut out: Vec<TransactionUpdate> = Vec::new();
    let ghost mut emitted: Seq<TransactionView> = Seq::empty();
    let mut i: usize = 0;
    assert(entries.skip(0) =~= entries);
    assert(emitted + plan_entries(nodes@, entries, txs_sent as int, max_txs, fs).0 =~= plan_entries(nodes@, entries, txs_sent as int, max_txs, fs).0);
    while i < block.entries.len()
        invariant
            i <= block.entries@.len(),
            entries == block@.entries,
            entries.len() == block.entries@.len(),
            fs == *filters,
            exists|j: int| 0 <= j < nodes@.len() && nodes@[j].1 == NodeView::Block(block@),
            out@.len() == emitted.len(),
            forall|x: int| 0 <= x < out@.len() ==> update_as(Ok(Some(#[trigger] out@[x])), nodes@, emitted[x], fs),
            plan_entries(nodes@, entries, txs_sent as int, max_txs, fs)
                == prepend(emitted, plan_entries(nodes@, entries.skip(i as int), txs_sent + out@.len(), max_txs, fs)),
        decreases block.entries@.len() - i,
    {
        let ghost rest_entries = entries.skip(i as int);
        assert(rest_entries[0] == block.entries@[i as int]@);
        assert(rest_entries.drop_first() =~= entries.skip(i + 1));
        let entry = match nodes.get(&block.entries[i]) {
            Some(Node::Entry(e)) => e,
            _ => {
                assert(emitted + Seq::<TransactionView>::empty() =~= emitted);
                return Ok(BlockPlan { block, updates: out, end: Err(missing_node("Entry")) });
            },
        };
        let ghost base = out@.len();
        let ghost cids = entry@.transactions;
        let ghost sent0 = txs_sent + base;
        let mut k: usize = 0;
        assert(cids.skip(0) =~= cids);
        assert(emitted.skip(base as int) =~= Seq::<TransactionView>::empty());
        assert(emitted.take(base as int) =~= emitted);
        while k < entry.transactions.len()
            invariant
                k <= entry.transactions@.len(),
                i < entries.len(),
                entries == block@.entries,
                fs == *filters,
                exists|j: int| 0 <= j < nodes@.len() && nodes@[j].1 == NodeView::Block(block@),
                lookup(nodes@, entries[i as int]) == Some(NodeView::Entry(entry@)),
                cids == entry@.transactions,
                cids.len() == entry.transactions@.len(),
                base <= out@.len(),
                out@.len() == emitted.len(),
                forall|x: int| 0 <= x < out@.len() ==> update_as(Ok(Some(#[trigger] out@[x])), nodes@, emitted[x], fs),
                sent0 == txs_sent + base,
                plan_entries(nodes@, entries, txs_sent as int, max_txs, fs)
                    == prepend(emitted.take(base as int), plan_entries(nodes@, entries.skip(i as int), sent0, max_txs, fs)),
                plan_transactions(nodes@, cids, sent0, max_txs, fs)
                    == prepend(emitted.skip(base as int), plan_transactions(nodes@, cids.skip(k as int), txs_sent + out@.len(), max_txs, fs)),
            decreases entry.transactions@.len() - k,
        {
            let ghost rest_cids = cids.skip(k as int);
            assert(rest_cids[0] == entry.transactions@[k as int]@);
            assert(rest_cids.drop_first() =~= cids.skip(k + 1));
            let reached = match max_txs {
                Some(m) => txs_sent >= m || out.len() >= m - txs_sent,
                None => false,
            };
            if reached {
                proof {
                    lemma_plan_entries_stop(nodes@, entries, i as int, txs_sent as int, max_txs, fs, emitted, base as int, cids);
                }
                return Ok(BlockPlan { block, updates: out, end: Ok(()) });
            }
            let txn = match nodes.get(&entry.transactions[k]) {
                Some(Node::Transaction(t)) => t,
                _ => {
                    proof {
                        lemma_plan_entries_stop(nodes@, entries, i as int, txs_sent as int, max_txs, fs, emitted, base as int, cids);
                    }
                    return Ok(BlockPlan { block, updates: out, end: Err(missing_node("Transaction")) });
                },
            };
            let r = transaction_update(txn, nodes, filters);
            let ghost gr = r;
            proof {
                lemma_update_outcome(gr, nodes@, txn@, fs);
            }
            match r {
                Err(e) => {
                    proof {
                        lemma_plan_entries_stop(nodes@, entries, i as int, txs_sent as int, max_txs, fs, emitted, base as int, cids);
                    }
                    return Ok(BlockPlan { block, updates: out, end: Err(e) });
                },
                Ok(None) => {},
                Ok(Some(u)) => {
                    let ghost prev = emitted;
                    out.push(u);
                    proof {
                        emitted = emitted.push(txn@);
                        assert(emitted.take(base as int) =~= prev.take(base as int));
                        assert(emitted.skip(base as int) =~= prev.skip(base as int).push(txn@));
                        assert(forall|x: int| 0 <= x < prev.len() ==> emitted[x] == prev[x]);
                    }
                },
            }
            k += 1;
        }
        assert(cids.skip(k as int) =~= Seq::<Seq<u8>>::empty());
        assert(emitted.take(base as int) + emitted.skip(base as int) =~= emitted);
        i += 1;
    }
    assert(entries.skip(i as int) =~= Seq::<Seq<u8>>::empty());
    assert(emitted + Seq::<TransactionView>::empty() =~= emitted);
    Ok(BlockPlan { block, updates: out, end: Ok(()) })
}

/// `prefix` followed by the transactions of a walk, and where it stopped.
pub open spec fn prepend(prefix: Seq<TransactionView>, r: (Seq<TransactionView>, PlanEnd)) -> (Seq<TransactionView>, PlanEnd) {
    (prefix + r.0, r.1)
}

/// When the walk over one entry's transactions stops early, the walk over the
/// block stops there too.
proof fn lemma_plan_entries_stop(
    nodes: Seq<(Seq<u8>, NodeView)>,
    entries: Seq<Seq<u8>>,
    i: int,
    sent: int,
    max: Option<usize>,
    filters: Filters,
    out: Seq<TransactionView>,
    base: int,
    cids: Seq<Seq<u8>>,
)
    requires
        0 <= i < entries.len(),
        0 <= base <= out.len(),
        lookup(nodes, entries[i]) matches Some(NodeView::Entry(e)) && e.transactions == cids,
        !(plan_transactions(nodes, cids, sent + base, max, filters).1 is Done),
        plan_transactions(nodes, cids, sent + base, max, filters).0 == out.skip(base),
        plan_entries(nodes, entries, sent, max, filters) == prepend(out.take(base), plan_entries(nodes, entries.skip(i), sent + base, max, filters)),
    ensures
        plan_entries(nodes, entries, sent, max, filters) == (out, plan_transactions(nodes, cids, sent + base, max, filters).1),
{
    assert(entries.skip(i)[0] == entries[i]);
    assert(out.take(base) + out.skip(base) =~= out);
}

/// A slot update for the pipelines that ask for slots.
#[derive(Debug, Clone, PartialEq, Eq)]
pub struct SlotUpdate {
    pub filters: Vec<String>,
    pub slot: u64,
    pub parent: Option<u64>,
    /// Archived slots are final: every update reports the slot finalized.
    pub finalized: bool,
}

/// The slot update that a block gives, unless no pipeline asks for slots.
pub fn slot_update(block: &Block, filters: &Filters) -> (res: Option<SlotUpdate>)
    ensures
        spec_slot_ids(filters.parsers_filters@).len() == 0 <==> res is None,
        res matches Some(u) ==> {
            &&& strings_view(u.filters@) == spec_slot_ids(filters.parsers_filters@)
            &&& u.slot == block.slot
            &&& u.parent == Some(block.meta.parent_slot)
            &&& u.finalized
        },
{
    let slot_filters = slot_filter_ids(filters);
    if slot_filters.len() == 0 {
        return None;
    }
    Some(SlotUpdate { filters: slot_filters, slot: block.slot, parent: Some(block.meta.parent_slot), finalized: true })
}

/// What the stream reports of one transaction.
#[derive(Debug)]
pub struct TransactionInfo {
    /// The first signature, or no bytes where the transaction has none.
    pub signature: Vec<u8>,
    pub is_vote: bool,
    pub transaction: Option<ProtoTransaction>,
    pub meta: Option<ProtoStatusMeta>,
    pub index: u64,
}

/// A transaction update for the pipelines whose filters it passes.
#[derive(Debug)]
pub struct TransactionUpdate {
    pub filters: Vec<String>,
    pub transaction: Option<TransactionInfo>,
    pub slot: u64,
}

/// The first signature of a transaction, or no bytes.
pub open spec fn first_signature(tx: VersionedTx) -> Seq<u8> {
    if tx.signatures@.len() > 0 {
        tx.signatures@[0]@
    } else {
        Seq::empty()
    }
}

/// The accounts a transaction touches, given what its metadata decodes to.
pub open spec fn accounts_with_meta(tx: VersionedTx, outcome: MetaOutcome) -> Seq<Seq<u8>> {
    match outcome {
        MetaOutcome::Proto(m) => spec_gather_accounts(tx, m.loaded_writable_addresses.deep_view(), m.loaded_readonly_addresses.deep_view()),
        _ => spec_gather_accounts(tx, Seq::empty(), Seq::empty()),
    }
}

/// Whether `res` is what turning the node `car_tx` of the group `nodes` into an
/// update for `filters` comes to. The transaction's payload is put back
/// together from its data frames and read with bincode; its metadata likewise,
/// then decoded; an update goes to the pipelines whose filters pass the
/// accounts the transaction touches, and to none when no filter passes.
pub open spec fn update_as(
    res: Result<Option<TransactionUpdate>, CarSourceError>,
    nodes: Seq<(Seq<u8>, NodeView)>,
    car_tx: TransactionView,
    filters: Filters,
) -> bool {
    match spec_reassemble(nodes, car_tx.data) {
        Err(e) => (res matches Err(err) && (err matches CarSourceError::Reassemble(x) && x == e)),
        Ok(tx_bytes) => match transaction_decoding(tx_bytes) {
            None => (res matches Err(err) && err is Bincode),
            Some(tx) => match spec_reassemble(nodes, car_tx.metadata) {
                Err(e) => (res matches Err(err) && (err matches CarSourceError::Reassemble(x) && x == e)),
                Ok(meta_bytes) => {
                    let outcome = spec_decode_metadata(meta_bytes);
                    if outcome is Undecodable {
                        meta_decoded_as(match res { Err(err) => Err(err), Ok(_) => Ok(None) }, outcome)
                    } else {
                        let ids = spec_matching_ids(filters.parsers_filters@, accounts_with_meta(tx, outcome));
                        if ids.len() == 0 {
                            res matches Ok(None)
                        } else {
                            res matches Ok(Some(u)) && {
                                &&& strings_view(u.filters@) == ids
                                &&& u.slot == car_tx.slot
                                &&& u.transaction matches Some(info) && {
                                    &&& info.signature@ == first_signature(tx)
                                    &&& info.is_vote == spec_is_vote(tx)
                                    &&& info.index == match car_tx.index { Some(i) => i, None => 0 }
                                    &&& info.transaction matches Some(p) && signatures_carried(p.signatures@, tx.signatures@)
                                        && (p.message matches Some(m) && message_carried(m, tx.message))
                                    &&& meta_decoded_as(Ok(info.meta), outcome)
                                }
                            }
                        }
                    }
                },
            },
        },
    }
}

/// Turns a transaction node into the update the stream emits for it, if any
/// pipeline's filter passes it.
pub fn transaction_update(car_tx: &Transaction, nodes: &Nodes, filters: &Filters) -> (res: Result<Option<TransactionUpdate>, CarSourceError>)
    ensures
        update_as(res, nodes@, car_tx@, *filters),
{
    let tx_bytes = match nodes.reassemble_dataframes(&car_tx.data) {
        Ok(b) => b,
        Err(e) => return Err(CarSourceError::Reassemble(e)),
    };
    let versioned_tx = match decode_transaction(tx_bytes.as_slice()) {
        Ok(t) => t,
        Err(e) => return Err(CarSourceError::Bincode(e)),
    };
    let meta_bytes = match nodes.reassemble_dataframes(&car_tx.metadata) {
        Ok(b) => b,
        Err(e) => return Err(CarSourceError::Reassemble(e)),
    };
    let meta = match decode_metadata(meta_bytes.as_slice()) {
        Ok(m) => m,
        Err(e) => return Err(e),
    };
    let account_keys = gather_accounts(&versioned_tx, meta.as_ref());
    let filter_ids = matching_transaction_filters(filters, account_keys.as_slice());
    if filter_ids.len() == 0 {
        return Ok(None);
    }
    let tx_proto = to_proto_transaction(&versioned_tx);
    let signature = if versioned_tx.signatures.len() > 0 {
        vstd::slice::slice_to_vec(versioned_tx.signatures[0].as_slice())
    } else {
        Vec::new()
    };
    let is_vote = is_vote_transaction(&versioned_tx);
    let index = match car_tx.index {
        Some(i) => i,
        None => 0,
    };
    let info = TransactionInfo { signature, is_vote, transaction: Some(tx_proto), meta, index };
    Ok(Some(TransactionUpdate { filters: filter_ids, transaction: Some(info), slot: car_tx.slot }))
}


/// The settings of the source.
#[derive(Debug, Clone, PartialEq, Eq)]
pub struct OldFaithfulCarConfig {
    /// Directory where CAR files are stored or read from.
    pub data_dir: String,
    /// Epochs to stream, in order.
    pub epochs: Vec<u64>,
    /// Stop after this many blocks.
    pub max_blocks: Option<usize>,
    /// Stop after this many transactions.
    pub max_transactions: Option<usize>,
    /// Never download: a missing CAR file is an error.
    pub skip_download: bool,
}

/// The epochs to stream, in order; streaming nothing is an error.
pub fn epochs_to_stream(config: &OldFaithfulCarConfig) -> (res: Result<Vec<u64>, CarSourceError>)
    ensures
        config.epochs@.len() == 0 <==> res is Err,
        res matches Ok(e) ==> e@ == config.epochs@,
        res matches Err(e) ==> (e matches CarSourceError::DownloadFailed(m) && m@ == "no epochs provided"@),
{
    if config.epochs.len() == 0 {
        return Err(CarSourceError::DownloadFailed(String::from_str("no epochs provided")));
    }
    Ok(vstd::slice::slice_to_vec(config.epochs.as_slice()))
}

/// The decimal digit for `d`.
pub open spec fn digit_char(d: nat) -> char {
    if d == 0 { '0' }
    else if d == 1 { '1' }
    else if d == 2 { '2' }
    else if d == 3 { '3' }
    else if d == 4 { '4' }
    else if d == 5 { '5' }
    else if d == 6 { '6' }
    else if d == 7 { '7' }
    else if d == 8 { '8' }
    else { '9' }
}

/// The value of a decimal digit.
pub open spec fn digit_value(c: char) -> nat {
    if c == '0' { 0 }
    else if c == '1' { 1 }
    else if c == '2' { 2 }
    else if c == '3' { 3 }
    else if c == '4' { 4 }
    else if c == '5' { 5 }
    else if c == '6' { 6 }
    else if c == '7' { 7 }
    else if c == '8' { 8 }
    else { 9 }
}

/// The decimal numeral of `n`: no leading zeros, `"0"` for zero.
pub open spec fn decimal(n: nat) -> Seq<char>
    decreases n,
{
    if n < 10 {
        seq![digit_char(n)]
    } else {
        decimal(n / 10).push(digit_char(n % 10))
    }
}

/// The number that a string of decimal digits denotes.
pub open spec fn decimal_value(s: Seq<char>) -> nat
    decreases s.len(),
{
    if s.len() == 0 {
        0
    } else {
        decimal_value(s.drop_last()) * 10 + digit_value(s.last())
    }
}

/// Appends a character to a string: `String::push`.
#[verifier::external_body]
fn push_char(s: &mut String, c: char)
    ensures
        final(s)@ == old(s)@.push(c),
{
    s.push(c)
}

/// The digit for `d`, which is below ten.
fn digit(d: u64) -> (c: char)
    requires
        d < 10,
    ensures
        c == digit_char(d as nat),
{
    if d == 0 { '0' }
    else if d == 1 { '1' }
    else if d == 2 { '2' }
    else if d == 3 { '3' }
    else if d == 4 { '4' }
    else if d == 5 { '5' }
    else if d == 6 { '6' }
    else if d == 7 { '7' }
    else if d == 8 { '8' }
    else { '9' }
}

/// Appends the decimal numeral of `n` to `s`.
fn push_decimal(s: &mut String, n: u64)
    ensures
        final(s)@ == old(s)@ + decimal(n as nat),
    decreases n,
{
    if n >= 10 {
        push_decimal(s, n / 10);
    }
    push_char(s, digit(n % 10));
    proof {
        if n >= 10 {
            assert(old(s)@ + decimal(n as nat) =~= old(s)@ + decimal((n / 10) as nat) + seq![digit_char((n % 10) as nat)]);
        } else {
            assert(old(s)@ + decimal(n as nat) =~= old(s)@.push(digit_char(n as nat)));
        }
    }
}

/// The name of the CAR file of an epoch.
pub open spec fn spec_epoch_file_name(epoch: u64) -> Seq<char> {
    "epoch-"@ + decimal(epoch as nat) + ".car"@
}

/// The name of the CAR file of an epoch: `epoch-{epoch}.car`.
pub fn epoch_file_name(epoch: u64) -> (res: String)
    ensures
        res@ == spec_epoch_file_name(epoch),
{
    let mut name = String::from_str("epoch-");
    push_decimal(&mut name, epoch);
    name.append(".car");
    name
}

/// Where the CAR file of an epoch is downloaded from.
pub open spec fn spec_epoch_url(epoch: u64) -> Seq<char> {
    "https://files.old-faithful.net/"@ + decimal(epoch as nat) + "/"@ + spec_epoch_file_name(epoch)
}

/// Where the CAR file of an epoch is downloaded from:
/// `https://files.old-faithful.net/{epoch}/epoch-{epoch}.car`.
pub fn epoch_url(epoch: u64) -> (res: String)
    ensures
        res@ == spec_epoch_url(epoch),
{
    let mut url = String::from_str("https://files.old-faithful.net/");
    push_decimal(&mut url, epoch);
    url.append("/");
    let name = epoch_file_name(epoch);
    url.append(name.as_str());
    proof {
        assert(url@ =~= spec_epoch_url(epoch));
    }
    url
}

/// What to do about the CAR file of an epoch.
#[derive(Clone, Copy, Debug, PartialEq, Eq, Structural)]
pub enum DownloadStep {
    /// The file is there: use it.
    UseCached,
    /// The file is missing and downloads are off: fail.
    Refuse,
    /// The file is missing: download it.
    Download,
}

/// Decides what to do about an epoch's CAR file, given whether it is there.
pub fn download_step(cached: bool, skip_download: bool) -> (res: DownloadStep)
    ensures
        cached ==> res == DownloadStep::UseCached,
        !cached && skip_download ==> res == DownloadStep::Refuse,
        !cached && !skip_download ==> res == DownloadStep::Download,
{
    if cached {
        DownloadStep::UseCached
    } else if skip_download {
        DownloadStep::Refuse
    } else {
        DownloadStep::Download
    }
}

/// The error for an epoch's CAR file that is missing while downloads are off,
/// naming the file's path.
pub fn missing_file_error(path: &str) -> (res: CarSourceError)
    ensures
        res matches CarSourceError::DownloadFailed(m) && m@ == "file missing: "@ + path@ + " (skip_download=true)"@,
{
    let mut message = String::from_str("file missing: ");
    message.append(path);
    message.append(" (skip_download=true)");
    CarSourceError::DownloadFailed(message)
}

/// The arguments of the `aria2c` download: 32 connections, 16 per server,
/// 300 MiB pieces, into `tmp_dir`.
pub fn aria2c_args(url: &str, tmp_dir: &str) -> (res: Vec<String>)
    ensures
        res@.len() == 6,
        res@[0]@ == "-s32"@,
        res@[1]@ == "-x16"@,
        res@[2]@ == "-k300M"@,
        res@[3]@ == url@,
        res@[4]@ == "-d"@,
        res@[5]@ == tmp_dir@,
{
    let mut args: Vec<String> = Vec::new();
    args.push(String::from_str("-s32"));
    args.push(String::from_str("-x16"));
    args.push(String::from_str("-k300M"));
    args.push(String::from_str(url));
    args.push(String::from_str("-d"));
    args.push(String::from_str(tmp_dir));
    args
}

/// The counters of one CAR file's scan.
#[derive(Debug, Clone, Copy, PartialEq, Eq)]
pub struct CarScan {
    pub blocks_seen: usize,
    pub txs_sent: usize,
}

impl CarScan {
    /// A scan that has seen nothing.
    pub fn new() -> (res: CarScan)
        ensures
            res.blocks_seen == 0,
            res.txs_sent == 0,
    {
        CarScan { blocks_seen: 0, txs_sent: 0 }
    }

    /// A group of nodes was read: it is processed (`true`) only where it is
    /// not empty (an empty group ends the file) and neither limit is reached
    /// yet; a processed block is counted.
    pub fn on_block_read(&mut self, empty: bool, max_blocks: Option<usize>, max_transactions: Option<usize>) -> (res: bool)
        requires
            old(self).blocks_seen < usize::MAX,
        ensures
            res == (!empty && !at_limit(old(self).blocks_seen as int, max_blocks)
                && !at_limit(old(self).txs_sent as int, max_transactions)),
            final(self).blocks_seen == if res { (old(self).blocks_seen + 1) as usize } else { old(self).blocks_seen },
            final(self).txs_sent == old(self).txs_sent,
    {
        if empty || self.should_stop(max_blocks, max_transactions) {
            return false;
        }
        self.blocks_seen = self.blocks_seen + 1;
        true
    }

    /// Counts the transactions of a processed block.
    pub fn on_transactions(&mut self, n: usize)
        requires
            old(self).txs_sent + n <= usize::MAX,
        ensures
            final(self).txs_sent == old(self).txs_sent + n,
            final(self).blocks_seen == old(self).blocks_seen,
    {
        self.txs_sent = self.txs_sent + n;
    }

    /// Whether the scan stops after the block just processed: the block limit
    /// or the transaction limit is reached.
    pub fn should_stop(&self, max_blocks: Option<usize>, max_transactions: Option<usize>) -> (res: bool)
        ensures
            res == (at_limit(self.blocks_seen as int, max_blocks) || at_limit(self.txs_sent as int, max_transactions)),
    {
        if let Some(max) = max_blocks {
            if self.blocks_seen >= max {
                return true;
            }
        }
        if let Some(max) = max_transactions {
            if self.txs_sent >= max {
                return true;
            }
        }
        false
    }
}


/// The digit of `d` has the value `d`.
proof fn lemma_digit_roundtrip(d: nat)
    requires
        d < 10,
    ensures
        digit_value(digit_char(d)) == d,
{
}

/// A decimal numeral denotes the number it was made from.
pub proof fn lemma_decimal_value(n: nat)
    ensures
        decimal_value(decimal(n)) == n,
    decreases n,
{
    if n < 10 {
        lemma_digit_roundtrip(n);
        assert(decimal(n).drop_last() =~= Seq::<char>::empty());
        assert(decimal(n).last() == digit_char(n));
        assert(decimal_value(Seq::<char>::empty()) == 0);
    } else {
        lemma_decimal_value(n / 10);
        lemma_digit_roundtrip(n % 10);
        assert(decimal(n).drop_last() =~= decimal(n / 10));
        assert(decimal(n).last() == digit_char(n % 10));
        assert((n / 10) * 10 + n % 10 == n) by (nonlinear_arith);
    }
}

/// Different epochs have different CAR file names.
pub proof fn lemma_epoch_file_names_distinct(a: u64, b: u64)
    requires
        a != b,
    ensures
        spec_epoch_file_name(a) != spec_epoch_file_name(b),
{
    lemma_decimal_value(a as nat);
    lemma_decimal_value(b as nat);
    if spec_epoch_file_name(a) == spec_epoch_file_name(b) {
        let pa = "epoch-"@;
        let sa = ".car"@;
        let x = spec_epoch_file_name(a);
        assert(x.subrange(pa.len() as int, x.len() - sa.len()) =~= decimal(a as nat));
        assert(x.subrange(pa.len() as int, x.len() - sa.len()) =~= decimal(b as nat));
    }
}

/// With a limit on emitted transactions, a walk over one entry never goes past it.
proof fn lemma_plan_transactions_limit(nodes: Seq<(Seq<u8>, NodeView)>, cids: Seq<Seq<u8>>, sent: int, m: usize, filters: Filters)
    ensures
        sent <= m ==> sent + plan_transactions(nodes, cids, sent, Some(m), filters).0.len() <= m,
        sent > m ==> plan_transactions(nodes, cids, sent, Some(m), filters).0.len() == 0,
        plan_transactions(nodes, cids, sent, Some(m), filters).1 is Limit && sent <= m
            ==> sent + plan_transactions(nodes, cids, sent, Some(m), filters).0.len() == m,
    decreases cids.len(),
{
    if cids.len() > 0 && !at_limit(sent, Some(m)) {
        lemma_plan_transactions_limit(nodes, cids.drop_first(), sent, m, filters);
        lemma_plan_transactions_limit(nodes, cids.drop_first(), sent + 1, m, filters);
    }
}

/// With a limit on emitted transactions, the updates planned for a block,
/// added to those already emitted, never go past the limit; once past it, none
/// are planned; and a walk that stops at the limit has reached it exactly.
pub proof fn lemma_plan_respects_limit(nodes: Seq<(Seq<u8>, NodeView)>, entries: Seq<Seq<u8>>, sent: int, m: usize, filters: Filters)
    ensures
        sent <= m ==> sent + plan_entries(nodes, entries, sent, Some(m), filters).0.len() <= m,
        sent > m ==> plan_entries(nodes, entries, sent, Some(m), filters).0.len() == 0,
        plan_entries(nodes, entries, sent, Some(m), filters).1 is Limit && sent <= m
            ==> sent + plan_entries(nodes, entries, sent, Some(m), filters).0.len() == m,
    decreases entries.len(),
{
    if entries.len() > 0 {
        match lookup(nodes, entries[0]) {
            Some(NodeView::Entry(e)) => {
                lemma_plan_transactions_limit(nodes, e.transactions, sent, m, filters);
                let first = plan_transactions(nodes, e.transactions, sent, Some(m), filters);
                if first.1 is Done {
                    lemma_plan_respects_limit(nodes, entries.drop_first(), sent + first.0.len(), m, filters);
                }
            },
            _ => {},
        }
    }
}

/// The transaction nodes that the links `cids` lead to and that some
/// pipeline's filter passes, in order: those whose updates would be emitted
/// with no limit and no failure.
pub open spec fn emitted_links(nodes: Seq<(Seq<u8>, NodeView)>, cids: Seq<Seq<u8>>, filters: Filters) -> Seq<TransactionView>
    decreases cids.len(),
{
    if cids.len() == 0 {
        Seq::empty()
    } else {
        let rest = emitted_links(nodes, cids.drop_first(), filters);
        match lookup(nodes, cids[0]) {
            Some(NodeView::Transaction(t)) => if update_outcome(nodes, t, filters) is Emitted {
                seq![t] + rest
            } else {
                rest
            },
            _ => rest,
        }
    }
}

/// A walk over one entry emits the passing transactions in order, skipping the
/// others: what it emits is always a prefix of them, all of them when it
/// reaches the end, and without a limit it never stops at one.
pub proof fn lemma_plan_emits_passing(nodes: Seq<(Seq<u8>, NodeView)>, cids: Seq<Seq<u8>>, sent: int, max: Option<usize>, filters: Filters)
    ensures
        plan_transactions(nodes, cids, sent, max, filters).0.len() <= emitted_links(nodes, cids, filters).len(),
        plan_transactions(nodes, cids, sent, max, filters).0
            == emitted_links(nodes, cids, filters).take(plan_transactions(nodes, cids, sent, max, filters).0.len() as int),
        plan_transactions(nodes, cids, sent, max, filters).1 is Done
            ==> plan_transactions(nodes, cids, sent, max, filters).0 == emitted_links(nodes, cids, filters),
        max is None ==> !(plan_transactions(nodes, cids, sent, max, filters).1 is Limit),
    decreases cids.len(),
{
    let p = plan_transactions(nodes, cids, sent, max, filters);
    let all = emitted_links(nodes, cids, filters);
    if cids.len() == 0 {
        assert(all.take(0) =~= p.0);
    } else if at_limit(sent, max) {
        assert(all.take(0) =~= p.0);
    } else {
        lemma_plan_emits_passing(nodes, cids.drop_first(), sent, max, filters);
        lemma_plan_emits_passing(nodes, cids.drop_first(), sent + 1, max, filters);
        match lookup(nodes, cids[0]) {
            Some(NodeView::Transaction(t)) => {
                if update_outcome(nodes, t, filters) is Emitted {
                    let rest = plan_transactions(nodes, cids.drop_first(), sent + 1, max, filters);
                    let erest = emitted_links(nodes, cids.drop_first(), filters);
                    assert(all.take(p.0.len() as int) =~= seq![t] + erest.take(rest.0.len() as int));
                } else if update_outcome(nodes, t, filters) is Failed {
                    assert(all.take(0) =~= p.0);
                }
            },
            _ => {
                assert(all.take(0) =~= p.0);
            },
        }
    }
}

/// A walk with a limit emits a prefix of what the same walk without a limit
/// emits, and where it does not stop at the limit it is that walk.
pub proof fn lemma_plan_transactions_prefix(
    nodes: Seq<(Seq<u8>, NodeView)>,
    cids: Seq<Seq<u8>>,
    sent: int,
    max: Option<usize>,
    s2: int,
    filters: Filters,
)
    ensures
        ({
            let l = plan_transactions(nodes, cids, sent, max, filters);
            let u = plan_transactions(nodes, cids, s2, None, filters);
            &&& l.0.len() <= u.0.len()
            &&& l.0 == u.0.take(l.0.len() as int)
            &&& !(l.1 is Limit) ==> l == u
        }),
    decreases cids.len(),
{
    let l = plan_transactions(nodes, cids, sent, max, filters);
    let u = plan_transactions(nodes, cids, s2, None, filters);
    if cids.len() == 0 {
        assert(u.0.take(0) =~= l.0);
    } else if at_limit(sent, max) {
        assert(u.0.take(0) =~= l.0);
    } else {
        match lookup(nodes, cids[0]) {
            Some(NodeView::Transaction(t)) => {
                if update_outcome(nodes, t, filters) is Skipped {
                    lemma_plan_transactions_prefix(nodes, cids.drop_first(), sent, max, s2, filters);
                } else if update_outcome(nodes, t, filters) is Emitted {
                    lemma_plan_transactions_prefix(nodes, cids.drop_first(), sent + 1, max, s2 + 1, filters);
                    let rl = plan_transactions(nodes, cids.drop_first(), sent + 1, max, filters);
                    let ru = plan_transactions(nodes, cids.drop_first(), s2 + 1, None, filters);
                    assert(u.0.take(l.0.len() as int) =~= seq![t] + ru.0.take(rl.0.len() as int));
                } else {
                    assert(u.0.take(0) =~= l.0);
                }
            },
            _ => {
                assert(u.0.take(0) =~= l.0);
            },
        }
    }
}

/// A block walk with a limit emits a prefix of what the same walk without a
/// limit emits, and where it does not stop at the limit it is that walk.
pub proof fn lemma_plan_entries_prefix(
    nodes: Seq<(Seq<u8>, NodeView)>,
    entries: Seq<Seq<u8>>,
    sent: int,
    max: Option<usize>,
    s2: int,
    filters: Filters,
)
    ensures
        ({
            let l = plan_entries(nodes, entries, sent, max, filters);
            let u = plan_entries(nodes, entries, s2, None, filters);
            &&& l.0.len() <= u.0.len()
            &&& l.0 == u.0.take(l.0.len() as int)
            &&& !(l.1 is Limit) ==> l == u
        }),
    decreases entries.len(),
{
    let l = plan_entries(nodes, entries, sent, max, filters);
    let u = plan_entries(nodes, entries, s2, None, filters);
    if entries.len() == 0 {
        assert(u.0.take(0) =~= l.0);
    } else {
        match lookup(nodes, entries[0]) {
            Some(NodeView::Entry(e)) => {
                lemma_plan_transactions_prefix(nodes, e.transactions, sent, max, s2, filters);
                let lf = plan_transactions(nodes, e.transactions, sent, max, filters);
                let uf = plan_transactions(nodes, e.transactions, s2, None, filters);
                if lf.1 is Done {
                    lemma_plan_entries_prefix(nodes, entries.drop_first(), sent + lf.0.len(), max, s2 + uf.0.len(), filters);
                    let rl = plan_entries(nodes, entries.drop_first(), sent + lf.0.len(), max, filters);
                    let ru = plan_entries(nodes, entries.drop_first(), s2 + uf.0.len(), None, filters);
                    assert(u.0.take(l.0.len() as int) =~= lf.0 + ru.0.take(rl.0.len() as int));
                } else if uf.1 is Done {
                    assert(u.0.take(l.0.len() as int) =~= uf.0.take(lf.0.len() as int));
                }
            },
            _ => {
                assert(u.0.take(0) =~= l.0);
            },
        }
    }
}

/// The blocks of a stream, each as its group of nodes and the entry links of
/// its block.
pub open spec fn stream_walk(
    blocks: Seq<(Seq<(Seq<u8>, NodeView)>, Seq<Seq<u8>>)>,
    sent: int,
    max: Option<usize>,
    filters: Filters,
) -> (Seq<TransactionView>, PlanEnd)
    decreases blocks.len(),
{
    if blocks.len() == 0 {
        (Seq::empty(), PlanEnd::Done)
    } else if at_limit(sent, max) {
        (Seq::empty(), PlanEnd::Limit)
    } else {
        let first = plan_entries(blocks[0].0, blocks[0].1, sent, max, filters);
        if first.1 is Done {
            let rest = stream_walk(blocks.drop_first(), sent + first.0.len(), max, filters);
            (first.0 + rest.0, rest.1)
        } else {
            first
        }
    }
}

/// Over a stream of blocks walked in turn, with `sent` updates counted at the
/// start: the limited walk emits a prefix of the unlimited one, is that walk
/// where it does not stop at the limit, never goes past the limit, and meets
/// it exactly where it stops there.
pub proof fn lemma_stream_prefix(
    blocks: Seq<(Seq<(Seq<u8>, NodeView)>, Seq<Seq<u8>>)>,
    sent: int,
    m: usize,
    s2: int,
    filters: Filters,
)
    requires
        sent <= m,
    ensures
        ({
            let l = stream_walk(blocks, sent, Some(m), filters);
            let u = stream_walk(blocks, s2, None, filters);
            &&& l.0.len() <= u.0.len()
            &&& l.0 == u.0.take(l.0.len() as int)
            &&& !(l.1 is Limit) ==> l == u
            &&& sent + l.0.len() <= m
            &&& l.1 is Limit ==> sent + l.0.len() == m
        }),
    decreases blocks.len(),
{
    let l = stream_walk(blocks, sent, Some(m), filters);
    let u = stream_walk(blocks, s2, None, filters);
    if blocks.len() == 0 {
        assert(u.0.take(0) =~= l.0);
    } else if at_limit(sent, Some(m)) {
        assert(u.0.take(0) =~= l.0);
    } else {
        let (nodes, entries) = blocks[0];
        lemma_plan_entries_prefix(nodes, entries, sent, Some(m), s2, filters);
        lemma_plan_respects_limit(nodes, entries, sent, m, filters);
        let lf = plan_entries(nodes, entries, sent, Some(m), filters);
        let uf = plan_entries(nodes, entries, s2, None, filters);
        if lf.1 is Done {
            lemma_stream_prefix(blocks.drop_first(), sent + lf.0.len(), m, s2 + uf.0.len(), filters);
            let rl = stream_walk(blocks.drop_first(), sent + lf.0.len(), Some(m), filters);
            let ru = stream_walk(blocks.drop_first(), s2 + uf.0.len(), None, filters);
            assert(u.0.take(l.0.len() as int) =~= lf.0 + ru.0.take(rl.0.len() as int));
        } else if uf.1 is Done {
            assert(u.0.take(l.0.len() as int) =~= uf.0.take(lf.0.len() as int));
        }
    }
}

/// Where a stream walked without a limit reaches its end, the walk with a
/// limit of `m` emitted transactions emits the first `min(m, n)` of the `n`
/// transactions that the unlimited walk emits.
pub proof fn lemma_stream_emits_min(
    blocks: Seq<(Seq<(Seq<u8>, NodeView)>, Seq<Seq<u8>>)>,
    m: usize,
    filters: Filters,
)
    requires
        stream_walk(blocks, 0, None, filters).1 is Done,
    ensures
        ({
            let all = stream_walk(blocks, 0, None, filters).0;
            stream_walk(blocks, 0, Some(m), filters).0
                == all.take(if m < all.len() { m as int } else { all.len() as int })
        }),
{
    lemma_stream_prefix(blocks, 0, m, 0, filters);
    let all = stream_walk(blocks, 0, None, filters).0;
    let l = stream_walk(blocks, 0, Some(m), filters);
    if !(l.1 is Limit) {
        assert(all.take(all.len() as int) =~= all);
    }
}

} // verus!
