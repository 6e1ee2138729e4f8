//! Decoded nodes, the group of nodes that makes up one block, and the
//! reassembly of payloads split over data frames.
use vstd::prelude::*;

use crate::car::node::block::{spec_block, Block, BlockView};
use crate::car::node::dataframe::{spec_dataframe, DataFrame, DataFrameView};
use crate::car::node::entry::{spec_entry, Entry, EntryView};
use crate::car::node::epoch::{spec_epoch, Epoch, EpochView};
use crate::car::node::rewards::{spec_rewards, BlockRewards, BlockRewardsView};
use crate::car::node::subset::{spec_subset, Subset, SubsetView};
use crate::car::node::transaction::{spec_transaction, Transaction, TransactionView};
use crate::car::node::{kind_of_id, Kind, NodeError};
use crate::car::util::bytes::extend_bytes;
use crate::car::util::cbor::{array_of, cbor_decoding, decode_cbor, get_array, get_int, int_of, CborValue};
use crate::car::util::link::Cid;
use crate::car::util::crc::{checksum_crc64, crc64_iso};

verus! {

/// A decoded node of any kind.
#[derive(Debug, Clone, PartialEq, Eq)]
pub enum Node {
    Transaction(Transaction),
    Entry(Entry),
    Block(Block),
    Subset(Subset),
    Epoch(Epoch),
    Rewards(BlockRewards),
    DataFrame(DataFrame),
}

/// The mathematical content of a node.
pub enum NodeView {
    Transaction(TransactionView),
    Entry(EntryView),
    Block(BlockView),
    Subset(SubsetView),
    Epoch(EpochView),
    Rewards(BlockRewardsView),
    DataFrame(DataFrameView),
}

impl View for Node {
    type V = NodeView;

    open spec fn view(&self) -> NodeView {
        match self {
            Node::Transaction(t) => NodeView::Transaction(t@),
            Node::Entry(e) => NodeView::Entry(e@),
            Node::Block(b) => NodeView::Block(b@),
            Node::Subset(s) => NodeView::Subset(s@),
            Node::Epoch(e) => NodeView::Epoch(e@),
            Node::Rewards(r) => NodeView::Rewards(r@),
            Node::DataFrame(d) => NodeView::DataFrame(d@),
        }
    }
}

/// Wraps a decoding result of one kind into a node result.
pub open spec fn wrap_node<T>(r: Result<T, NodeError>, f: spec_fn(T) -> NodeView) -> Result<NodeView, NodeError> {
    match r {
        Ok(t) => Ok(f(t)),
        Err(e) => Err(e),
    }
}

/// What decoding `value` as a node of the kind its first item names gives.
pub open spec fn spec_node(value: CborValue) -> Result<NodeView, NodeError> {
    match array_of(value) {
        None => Err(NodeError::InvalidCborType("Node")),
        Some(items) => if items.len() == 0 {
            Err(NodeError::InvalidCborType("Node::kind"))
        } else {
            match int_of(items[0]) {
                None => Err(NodeError::InvalidCborType("Node::kind")),
                Some(k) => match kind_of_id(k as u64) {
                    None => Err(NodeError::UnknownKind(k as u64)),
                    Some(Kind::Transaction) => wrap_node(spec_transaction(value), |t| NodeView::Transaction(t)),
                    Some(Kind::Entry) => wrap_node(spec_entry(value), |e| NodeView::Entry(e)),
                    Some(Kind::Block) => wrap_node(spec_block(value), |b| NodeView::Block(b)),
                    Some(Kind::Subset) => wrap_node(spec_subset(value), |s| NodeView::Subset(s)),
                    Some(Kind::Epoch) => wrap_node(spec_epoch(value), |e| NodeView::Epoch(e)),
                    Some(Kind::Rewards) => wrap_node(spec_rewards(value), |r| NodeView::Rewards(r)),
                    Some(Kind::DataFrame) => wrap_node(spec_dataframe(value), |d| NodeView::DataFrame(d)),
                },
            }
        },
    }
}

/// What decoding `bytes` as a node gives.
pub open spec fn spec_node_bytes(bytes: Seq<u8>) -> Result<NodeView, NodeError> {
    match cbor_decoding(bytes) {
        Some(v) => spec_node(v),
        None => Err(NodeError::InvalidCbor),
    }
}

impl Node {
    /// Decodes a node of any kind from the bytes of its CBOR tuple.
    pub fn try_from(bytes: &[u8]) -> (res: Result<Node, NodeError>)
        ensures
            match (res, spec_node_bytes(bytes@)) {
                (Ok(n), Ok(v)) => n@ == v,
                (Err(e), Err(f)) => e == f,
                _ => false,
            },
    {
        match decode_cbor(bytes) {
            Ok(v) => Node::try_from_cbor(&v),
            Err(_) => Err(NodeError::InvalidCbor),
        }
    }

    /// Decodes a node of the kind that the first item of its tuple names.
    pub fn try_from_cbor(value: &CborValue) -> (res: Result<Node, NodeError>)
        ensures
            match (res, spec_node(*value)) {
                (Ok(n), Ok(v)) => n@ == v,
                (Err(e), Err(f)) => e == f,
                _ => false,
            },
    {
        let items = get_array(value, "Node")?;
        if items.len() == 0 {
            return Err(NodeError::InvalidCborType("Node::kind"));
        }
        let id = get_int(&items[0], "Node::kind")? as u64;
        match Kind::from_id(id) {
            None => Err(NodeError::UnknownKind(id)),
            Some(kind) => {
                match kind {
                    Kind::Transaction => match Transaction::try_from_cbor(value) {
                        Ok(t) => Ok(Node::Transaction(t)),
                        Err(e) => Err(e),
                    },
                    Kind::Entry => match Entry::try_from_cbor(value) {
                        Ok(t) => Ok(Node::Entry(t)),
                        Err(e) => Err(e),
                    },
                    Kind::Block => match Block::try_from_cbor(value) {
                        Ok(t) => Ok(Node::Block(t)),
                        Err(e) => Err(e),
                    },
                    Kind::Subset => match Subset::try_from_cbor(value) {
                        Ok(t) => Ok(Node::Subset(t)),
                        Err(e) => Err(e),
                    },
                    Kind::Epoch => match Epoch::try_from_cbor(value) {
                        Ok(t) => Ok(Node::Epoch(t)),
                        Err(e) => Err(e),
                    },
                    Kind::Rewards => match BlockRewards::try_from_cbor(value) {
                        Ok(t) => Ok(Node::Rewards(t)),
                        Err(e) => Err(e),
                    },
                    Kind::DataFrame => match DataFrame::try_from_cbor(value) {
                        Ok(t) => Ok(Node::DataFrame(t)),
                        Err(e) => Err(e),
                    },
                }
            },
        }
    }

    /// Whether this node is a block.
    pub fn is_block(&self) -> (res: bool)
        ensures
            res == (self@ is Block),
    {
        match self {
            Node::Block(_) => true,
            _ => false,
        }
    }
}


/// Why the payload of a chain of data frames could not be put back together.
#[derive(Debug, Clone, Copy, PartialEq, Eq, Structural)]
pub enum ReassableError {
    /// A frame links to a CID that the group does not hold.
    MissingDataFrame,
    /// A frame links to a node that is not a data frame.
    NotDataFrame,
    /// The links visit more frames than the group holds: they go round in a cycle.
    TooManyFrames,
    /// The first frame's hash is not the CRC-64/ISO checksum of the whole payload.
    HashMismatch,
}

/// The nodes read for one block: each CID with the node stored under it.
#[derive(Debug, Clone)]
pub struct Nodes {
    pub nodes: Vec<(Cid, Node)>,
}

/// The node stored under `cid`, if any.
pub open spec fn lookup(entries: Seq<(Seq<u8>, NodeView)>, cid: Seq<u8>) -> Option<NodeView>
    decreases entries.len(),
{
    if entries.len() == 0 {
        None
    } else if entries[0].0 == cid {
        Some(entries[0].1)
    } else {
        lookup(entries.drop_first(), cid)
    }
}

/// No CID is stored twice.
pub open spec fn distinct_cids(entries: Seq<(Seq<u8>, NodeView)>) -> bool {
    forall|i: int, j: int| 0 <= i < j < entries.len() ==> entries[i].0 != entries[j].0
}

impl View for Nodes {
    type V = Seq<(Seq<u8>, NodeView)>;

    open spec fn view(&self) -> Seq<(Seq<u8>, NodeView)> {
        self.nodes@.map_values(|p: (Cid, Node)| (p.0@, p.1@))
    }
}

/// The bytes that a walk over the frames in `pending` (depth first: a frame's
/// own data, then the frames it links to, then the rest) puts together,
/// visiting at most `fuel` frames: a link to a node not stored, or stored but
/// not a frame, fails at once; a frame beyond the `fuel` fails the walk.
pub open spec fn spec_frames(entries: Seq<(Seq<u8>, NodeView)>, pending: Seq<Seq<u8>>, fuel: nat) -> Result<Seq<u8>, ReassableError>
    decreases fuel,
{
    if pending.len() == 0 {
        Ok(Seq::empty())
    } else {
        match lookup(entries, pending[0]) {
            None => Err(ReassableError::MissingDataFrame),
            Some(NodeView::DataFrame(f)) => if fuel == 0 {
                Err(ReassableError::TooManyFrames)
            } else {
                match spec_frames(entries, f.next + pending.drop_first(), (fuel - 1) as nat) {
                    Ok(rest) => Ok(f.data + rest),
                    Err(e) => Err(e),
                }
            },
            Some(_) => Err(ReassableError::NotDataFrame),
        }
    }
}

/// The payload that a first frame and the frames it links to make up.
pub open spec fn spec_reassemble(entries: Seq<(Seq<u8>, NodeView)>, first: DataFrameView) -> Result<Seq<u8>, ReassableError> {
    then_checked(first.hash, after_prefix(first.data, spec_frames(entries, first.next, entries.len())))
}

/// The payload that `r` puts together, checked against `hash`.
pub open spec fn then_checked(hash: Option<u64>, r: Result<Seq<u8>, ReassableError>) -> Result<Seq<u8>, ReassableError> {
    match r {
        Ok(data) => checked_payload(hash, data),
        Err(e) => Err(e),
    }
}

/// A whole payload, accepted where the first frame carries no hash or a hash
/// equal to the payload's CRC-64/ISO checksum.
pub open spec fn checked_payload(hash: Option<u64>, data: Seq<u8>) -> Result<Seq<u8>, ReassableError> {
    match hash {
        Some(h) => if crc64_iso(data) == h {
            Ok(data)
        } else {
            Err(ReassableError::HashMismatch)
        },
        None => Ok(data),
    }
}

/// `prefix` followed by what `r` puts together.
pub open spec fn after_prefix(prefix: Seq<u8>, r: Result<Seq<u8>, ReassableError>) -> Result<Seq<u8>, ReassableError> {
    match r {
        Ok(rest) => Ok(prefix + rest),
        Err(e) => Err(e),
    }
}

/// The CIDs on a stack, from the top down.
pub open spec fn stack_order(stack: Seq<Cid>) -> Seq<Seq<u8>> {
    Seq::new(stack.len(), |i: int| stack[stack.len() - 1 - i]@)
}

impl Nodes {
    /// An empty group.
    pub fn new() -> (res: Nodes)
        ensures
            res@ == Seq::<(Seq<u8>, NodeView)>::empty(),
    {
        let res = Nodes { nodes: Vec::new() };
        assert(res@ =~= Seq::<(Seq<u8>, NodeView)>::empty());
        res
    }

    /// The position of the entry stored under `cid`, if any.
    fn position(&self, cid: &Cid) -> (res: Option<usize>)
        ensures
            match res {
                Some(i) => i < self@.len() && self@[i as int].0 == cid@
                    && lookup(self@, cid@) == Some(self@[i as int].1)
                    && forall|j: int| 0 <= j < i ==> self@[j].0 != cid@,
                None => lookup(self@, cid@) is None && forall|j: int| 0 <= j < self@.len() ==> self@[j].0 != cid@,
            },
    {
        let mut i: usize = 0;
        assert(self@.skip(0) =~= self@);
        while i < self.nodes.len()
            invariant
                i <= self@.len(),
                self@.len() == self.nodes@.len(),
                lookup(self@, cid@) == lookup(self@.skip(i as int), cid@),
                forall|j: int| 0 <= j < i ==> self@[j].0 != cid@,
            decreases self@.len() - i,
        {
            assert(self@.skip(i as int)[0] == self@[i as int]);
            if self.nodes[i].0.same(cid) {
                return Some(i);
            }
            assert(self@.skip(i as int).drop_first() =~= self@.skip(i + 1));
            i += 1;
        }
        None
    }

    /// The node stored under `cid`, if any.
    pub fn get(&self, cid: &Cid) -> (res: Option<&Node>)
        ensures
            match res {
                Some(n) => lookup(self@, cid@) == Some(n@),
                None => lookup(self@, cid@) is None,
            },
    {
        match self.position(cid) {
            Some(i) => Some(&self.nodes[i].1),
            None => None,
        }
    }

    /// Stores `node` under `cid`, in place of any node stored under it before.
    pub fn insert(&mut self, cid: Cid, node: Node)
        ensures
            lookup(final(self)@, cid@) == Some(node@),
            forall|other: Seq<u8>| other != cid@ ==> lookup(final(self)@, other) == lookup(old(self)@, other),
            distinct_cids(old(self)@) ==> distinct_cids(final(self)@),
    {
        let ghost k = cid@;
        let ghost v = node@;
        match self.position(&cid) {
            Some(i) => {
                let ghost before = self@;
                self.nodes.set(i, (cid, node));
                assert(self@ =~= before.update(i as int, (k, v)));
                proof {
                    lemma_lookup_update(before, i as int, k, v);
                }
            },
            None => {
                let ghost before = self@;
                self.nodes.push((cid, node));
                assert(self@ =~= before.push((k, v)));
                proof {
                    lemma_lookup_push(before, k, v);
                }
            },
        }
    }

    /// The block of the group, if it holds one.
    pub fn find_block(&self) -> (res: Option<&Block>)
        ensures
            res is Some <==> exists|i: int| 0 <= i < self@.len() && self@[i].1 is Block,
            res matches Some(b) ==> exists|i: int| 0 <= i < self@.len() && self@[i].1 == NodeView::Block(b@),
    {
        let mut i: usize = 0;
        while i < self.nodes.len()
            invariant
                i <= self@.len(),
                self@.len() == self.nodes@.len(),
                forall|j: int| 0 <= j < i ==> !(self@[j].1 is Block),
            decreases self@.len() - i,
        {
            match &self.nodes[i].1 {
                Node::Block(b) => {
                    assert(self@[i as int].1 == NodeView::Block(b@));
                    return Some(b);
                },
                _ => {},
            }
            i += 1;
        }
        None
    }

    /// Puts back together the payload that `first` starts: its own data, then
    /// the data of the frames it links to, depth first, in link order.
    pub fn reassemble_dataframes(&self, first: &DataFrame) -> (res: Result<Vec<u8>, ReassableError>)
        ensures
            match (res, spec_reassemble(self@, first@)) {
                (Ok(d), Ok(s)) => d@ == s,
                (Err(e), Err(f)) => e == f,
                _ => false,
            },
    {
        let mut data: Vec<u8> = vstd::slice::slice_to_vec(first.data.as_slice());
        let mut stack: Vec<Cid> = Vec::new();
        push_links(&mut stack, &first.next);
        assert(stack_order(stack@) =~= first@.next);
        let mut fuel: usize = self.nodes.len();
        assert(self@.len() == self.nodes@.len());
        while stack.len() > 0
            invariant
                fuel <= self@.len(),
                spec_reassemble(self@, first@) == then_checked(first@.hash, after_prefix(data@, spec_frames(self@, stack_order(stack@), fuel as nat))),
            decreases fuel, stack@.len(),
        {
            let ghost pending = stack_order(stack@);
            let cid = stack.pop().unwrap();
            assert(pending[0] == cid@);
            assert(pending.drop_first() =~= stack_order(stack@));
            match self.get(&cid) {
                None => {
                    return Err(ReassableError::MissingDataFrame);
                },
                Some(node) => match node {
                    Node::DataFrame(frame) => {
                        if fuel == 0 {
                            return Err(ReassableError::TooManyFrames);
                        }
                        let ghost before = data@;
                        crate::car::util::bytes::extend_bytes(&mut data, frame.data.as_slice());
                        let ghost rest_before = stack_order(stack@);
                        push_links(&mut stack, &frame.next);
                        assert(stack_order(stack@) =~= frame@.next + rest_before);
                        fuel = fuel - 1;
                        proof {
                            let r = spec_frames(self@, stack_order(stack@), fuel as nat);
                            assert(after_prefix(before, after_prefix(frame@.data, r)) == after_prefix(data@, r)) by {
                                assert(before + (frame@.data + r.unwrap()) =~= data@ + r.unwrap());
                            }
                        }
                    },
                    _ => {
                        return Err(ReassableError::NotDataFrame);
                    },
                },
            }
        }
        assert(data@ + Seq::<u8>::empty() =~= data@);
        if let Some(h) = first.hash {
            if checksum_crc64(data.as_slice()) != h {
                return Err(ReassableError::HashMismatch);
            }
        }
        Ok(data)
    }
}

/// Pushes `links` onto `stack` so that `links[0]` ends on top.
fn push_links(stack: &mut Vec<Cid>, links: &Vec<Cid>)
    ensures
        stack_order(final(stack)@) == crate::car::util::cbor::cids_view(links@) + stack_order(old(stack)@),
{
    let mut k: usize = links.len();
    while k > 0
        invariant
            k <= links@.len(),
            stack_order(stack@) == crate::car::util::cbor::cids_view(links@.skip(k as int)) + stack_order(old(stack)@),
        decreases k,
    {
        k = k - 1;
        let ghost before = stack@;
        stack.push(links[k].copy());
        assert(stack_order(stack@) =~= seq![links@[k as int]@] + stack_order(before));
        assert(crate::car::util::cbor::cids_view(links@.skip(k as int)) =~= seq![links@[k as int]@] + crate::car::util::cbor::cids_view(links@.skip(k + 1)));
    }
    assert(links@.skip(0) =~= links@);
}

/// Replacing the entry at `i` changes the lookup of its CID only.
pub proof fn lemma_lookup_update(entries: Seq<(Seq<u8>, NodeView)>, i: int, k: Seq<u8>, v: NodeView)
    requires
        0 <= i < entries.len(),
        entries[i].0 == k,
        forall|j: int| 0 <= j < i ==> entries[j].0 != k,
    ensures
        lookup(entries.update(i, (k, v)), k) == Some(v),
        forall|other: Seq<u8>| other != k ==> lookup(entries.update(i, (k, v)), other) == lookup(entries, other),
    decreases entries.len(),
{
    let updated = entries.update(i, (k, v));
    if i == 0 {
        assert(updated.drop_first() =~= entries.drop_first());
        assert forall|other: Seq<u8>| other != k implies lookup(updated, other) == lookup(entries, other) by {
            assert(updated[0].0 == k);
        }
    } else {
        lemma_lookup_update(entries.drop_first(), i - 1, k, v);
        assert(updated.drop_first() =~= entries.drop_first().update(i - 1, (k, v)));
        assert(updated[0] == entries[0]);
        assert forall|other: Seq<u8>| other != k implies lookup(updated, other) == lookup(entries, other) by {
            if entries[0].0 != other {
                assert(lookup(updated, other) == lookup(updated.drop_first(), other));
                assert(lookup(entries.drop_first().update(i - 1, (k, v)), other) == lookup(entries.drop_first(), other));
            }
        }
    }
}

/// Adding an entry for a CID not yet stored makes it found and changes nothing else.
pub proof fn lemma_lookup_push(entries: Seq<(Seq<u8>, NodeView)>, k: Seq<u8>, v: NodeView)
    requires
        forall|j: int| 0 <= j < entries.len() ==> entries[j].0 != k,
    ensures
        lookup(entries.push((k, v)), k) == Some(v),
        forall|other: Seq<u8>| other != k ==> lookup(entries.push((k, v)), other) == lookup(entries, other),
    decreases entries.len(),
{
    let pushed = entries.push((k, v));
    if entries.len() > 0 {
        lemma_lookup_push(entries.drop_first(), k, v);
        assert(pushed.drop_first() =~= entries.drop_first().push((k, v)));
        assert(pushed[0] == entries[0]);
        assert forall|other: Seq<u8>| other != k implies lookup(pushed, other) == lookup(entries, other) by {
            if entries[0].0 != other {
                assert(lookup(pushed, other) == lookup(pushed.drop_first(), other));
                assert(lookup(entries.drop_first().push((k, v)), other) == lookup(entries.drop_first(), other));
            }
        }
    } else {
        assert(pushed.drop_first() =~= Seq::<(Seq<u8>, NodeView)>::empty());
        assert forall|other: Seq<u8>| other != k implies lookup(pushed, other) == lookup(entries, other) by {
            assert(lookup(pushed.drop_first(), other) is None);
        }
    }
}


/// A frame that links to no other frame holds its whole payload, checked
/// against its hash.
pub proof fn lemma_reassemble_single(entries: Seq<(Seq<u8>, NodeView)>, first: DataFrameView)
    requires
        first.next.len() == 0,
    ensures
        spec_reassemble(entries, first) == checked_payload(first.hash, first.data),
{
    assert(first.data + Seq::<u8>::empty() =~= first.data);
}

/// A frame that links to one stored frame, which links nowhere, holds the two
/// frames' data in order, checked against the first frame's hash.
pub proof fn lemma_reassemble_pair(entries: Seq<(Seq<u8>, NodeView)>, first: DataFrameView, cid: Seq<u8>, second: DataFrameView)
    requires
        first.next == seq![cid],
        lookup(entries, cid) == Some(NodeView::DataFrame(second)),
        second.next.len() == 0,
    ensures
        spec_reassemble(entries, first) == checked_payload(first.hash, first.data + second.data),
{
    assert(lookup(entries, cid) is Some);
    lemma_lookup_some_nonempty(entries, cid);
    let fuel = entries.len();
    assert(second.next + first.next.drop_first() =~= Seq::<Seq<u8>>::empty());
    assert(first.next[0] == cid);
    assert(spec_frames(entries, Seq::<Seq<u8>>::empty(), (fuel - 1) as nat) == Ok::<Seq<u8>, ReassableError>(Seq::<u8>::empty()));
    assert(spec_frames(entries, first.next, fuel) == Ok::<Seq<u8>, ReassableError>(second.data + Seq::<u8>::empty()));
    assert(second.data + Seq::<u8>::empty() =~= second.data);
}

/// A CID that is found is stored in a non-empty group.
proof fn lemma_lookup_some_nonempty(entries: Seq<(Seq<u8>, NodeView)>, cid: Seq<u8>)
    requires
        lookup(entries, cid) is Some,
    ensures
        entries.len() > 0,
{
}

/// A CID that is found is stored at some position of the group.
proof fn lemma_lookup_index(entries: Seq<(Seq<u8>, NodeView)>, cid: Seq<u8>)
    requires
        lookup(entries, cid) is Some,
    ensures
        exists|i: int| 0 <= i < entries.len() && (#[trigger] entries[i]).0 == cid,
    decreases entries.len(),
{
    if entries[0].0 != cid {
        lemma_lookup_index(entries.drop_first(), cid);
        let i = choose|i: int| 0 <= i < entries.len() - 1 && (#[trigger] entries.drop_first()[i]).0 == cid;
        assert(entries[i + 1] == entries.drop_first()[i]);
    }
}

/// Frames are joined depth first, in link order: a first frame linking two
/// stored frames, the first of which links a third, holds the first frame's
/// data, then the first link's, then its own link's, then the second link's,
/// checked against the first frame's hash.
pub proof fn lemma_reassemble_depth_first(
    entries: Seq<(Seq<u8>, NodeView)>,
    first: DataFrameView,
    c1: Seq<u8>,
    f1: DataFrameView,
    c2: Seq<u8>,
    f2: DataFrameView,
    c3: Seq<u8>,
    f3: DataFrameView,
)
    requires
        first.next == seq![c1, c2],
        f1.next == seq![c3],
        f2.next.len() == 0,
        f3.next.len() == 0,
        lookup(entries, c1) == Some(NodeView::DataFrame(f1)),
        lookup(entries, c2) == Some(NodeView::DataFrame(f2)),
        lookup(entries, c3) == Some(NodeView::DataFrame(f3)),
        c1 != c2,
        c1 != c3,
        c2 != c3,
    ensures
        spec_reassemble(entries, first) == checked_payload(first.hash, first.data + f1.data + f3.data + f2.data),
{
    lemma_lookup_index(entries, c1);
    lemma_lookup_index(entries, c2);
    lemma_lookup_index(entries, c3);
    let i1 = choose|i: int| 0 <= i < entries.len() && (#[trigger] entries[i]).0 == c1;
    let i2 = choose|i: int| 0 <= i < entries.len() && (#[trigger] entries[i]).0 == c2;
    let i3 = choose|i: int| 0 <= i < entries.len() && (#[trigger] entries[i]).0 == c3;
    assert(entries.len() >= 3);
    let fuel = entries.len();
    let empty = Seq::<Seq<u8>>::empty();
    assert(seq![c2].drop_first() =~= empty);
    assert(f2.next + seq![c2].drop_first() =~= empty);
    assert(spec_frames(entries, empty, (fuel - 3) as nat) == Ok::<Seq<u8>, ReassableError>(Seq::<u8>::empty()));
    assert(seq![c2][0] == c2);
    assert(spec_frames(entries, seq![c2], (fuel - 2) as nat) == Ok::<Seq<u8>, ReassableError>(f2.data + Seq::<u8>::empty()));
    assert(seq![c3, c2].drop_first() =~= seq![c2]);
    assert(f3.next + seq![c3, c2].drop_first() =~= seq![c2]);
    assert(seq![c3, c2][0] == c3);
    assert(spec_frames(entries, seq![c3, c2], (fuel - 1) as nat) == Ok::<Seq<u8>, ReassableError>(f3.data + (f2.data + Seq::<u8>::empty())));
    assert(first.next.drop_first() =~= seq![c2]);
    assert(f1.next + first.next.drop_first() =~= seq![c3, c2]);
    assert(first.next[0] == c1);
    assert(spec_frames(entries, first.next, fuel) == Ok::<Seq<u8>, ReassableError>(f1.data + (f3.data + (f2.data + Seq::<u8>::empty()))));
    assert(first.data + (f1.data + (f3.data + (f2.data + Seq::<u8>::empty()))) =~= first.data + f1.data + f3.data + f2.data);
}

/// A frame that links to a frame not stored in the group cannot be reassembled.
pub proof fn lemma_reassemble_missing(entries: Seq<(Seq<u8>, NodeView)>, first: DataFrameView)
    requires
        first.next.len() > 0,
        lookup(entries, first.next[0]) is None,
    ensures
        spec_reassemble(entries, first) == Err::<Seq<u8>, ReassableError>(ReassableError::MissingDataFrame),
{
}

/// The node stored under a CID is found again, and storing it leaves what
/// other CIDs find unchanged.
pub proof fn lemma_insert_then_lookup(entries: Seq<(Seq<u8>, NodeView)>, cid: Seq<u8>, node: NodeView, other: Seq<u8>)
    requires
        forall|j: int| 0 <= j < entries.len() ==> entries[j].0 != cid,
    ensures
        lookup(entries.push((cid, node)), cid) == Some(node),
        other != cid ==> lookup(entries.push((cid, node)), other) == lookup(entries, other),
{
    lemma_lookup_push(entries, cid, node);
}

/// The kind a decoded node is of.
pub open spec fn node_kind(n: NodeView) -> Kind {
    match n {
        NodeView::Transaction(_) => Kind::Transaction,
        NodeView::Entry(_) => Kind::Entry,
        NodeView::Block(_) => Kind::Block,
        NodeView::Subset(_) => Kind::Subset,
        NodeView::Epoch(_) => Kind::Epoch,
        NodeView::Rewards(_) => Kind::Rewards,
        NodeView::DataFrame(_) => Kind::DataFrame,
    }
}

/// The kind tag that opens a node's tuple, if the value is an array whose
/// first item is an integer.
pub open spec fn node_tag(value: CborValue) -> Option<u64> {
    match array_of(value) {
        Some(items) => if items.len() > 0 {
            match int_of(items[0]) {
                Some(k) => Some(k as u64),
                None => None,
            }
        } else {
            None
        },
        None => None,
    }
}

/// A node decodes as the kind its tag names, with that kind's own decoding of
/// the whole tuple: tag 0 a transaction, 1 an entry, 2 a block, 3 a subset,
/// 4 an epoch, 5 rewards, 6 a data frame; any other tag is an unknown kind.
/// So every decoded node is of the kind its tag names.
pub proof fn lemma_node_dispatch(value: CborValue)
    ensures
        node_tag(value) == Some(0u64) ==> match spec_transaction(value) {
            Ok(x) => spec_node(value) == Ok::<NodeView, NodeError>(NodeView::Transaction(x)),
            Err(e) => spec_node(value) == Err::<NodeView, NodeError>(e),
        },
        node_tag(value) == Some(1u64) ==> match spec_entry(value) {
            Ok(x) => spec_node(value) == Ok::<NodeView, NodeError>(NodeView::Entry(x)),
            Err(e) => spec_node(value) == Err::<NodeView, NodeError>(e),
        },
        node_tag(value) == Some(2u64) ==> match spec_block(value) {
            Ok(x) => spec_node(value) == Ok::<NodeView, NodeError>(NodeView::Block(x)),
            Err(e) => spec_node(value) == Err::<NodeView, NodeError>(e),
        },
        node_tag(value) == Some(3u64) ==> match spec_subset(value) {
            Ok(x) => spec_node(value) == Ok::<NodeView, NodeError>(NodeView::Subset(x)),
            Err(e) => spec_node(value) == Err::<NodeView, NodeError>(e),
        },
        node_tag(value) == Some(4u64) ==> match spec_epoch(value) {
            Ok(x) => spec_node(value) == Ok::<NodeView, NodeError>(NodeView::Epoch(x)),
            Err(e) => spec_node(value) == Err::<NodeView, NodeError>(e),
        },
        node_tag(value) == Some(5u64) ==> match spec_rewards(value) {
            Ok(x) => spec_node(value) == Ok::<NodeView, NodeError>(NodeView::Rewards(x)),
            Err(e) => spec_node(value) == Err::<NodeView, NodeError>(e),
        },
        node_tag(value) == Some(6u64) ==> match spec_dataframe(value) {
            Ok(x) => spec_node(value) == Ok::<NodeView, NodeError>(NodeView::DataFrame(x)),
            Err(e) => spec_node(value) == Err::<NodeView, NodeError>(e),
        },
        node_tag(value) matches Some(k) ==> (k > 6 ==> spec_node(value) == Err::<NodeView, NodeError>(NodeError::UnknownKind(k))),
        node_tag(value) is None ==> spec_node(value) is Err,
        spec_node(value) matches Ok(n) ==> (node_tag(value) matches Some(k) && k == node_kind(n).spec_id()),
{
}

} // verus!
