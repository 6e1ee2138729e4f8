//! The framing of a CAR archive: after a header section, each section is a
//! varint length, then a CID, then the node stored under it.
use vstd::prelude::*;

use crate::car::node::nodes::{spec_node_bytes, Node, NodeView, Nodes, lookup};
use crate::car::node::NodeError;
use crate::car::util::link::{cid_prefix, cid_read_prefix, Cid};

verus! {

/// `128` to the power `n`.
pub open spec fn pow128(n: nat) -> nat
    decreases n,
{
    if n == 0 {
        1
    } else {
        128 * pow128((n - 1) as nat)
    }
}

/// The number that the bytes of an unsigned LEB128 varint encode: the low
/// seven bits of each byte, least significant group first.
pub open spec fn varint_value(bytes: Seq<u8>) -> nat
    decreases bytes.len(),
{
    if bytes.len() == 0 {
        0
    } else {
        varint_value(bytes.drop_last()) + (bytes.last() % 128) as nat * pow128((bytes.len() - 1) as nat)
    }
}

/// Whether every byte but the last carries the continuation bit and the last does not.
pub open spec fn varint_complete(bytes: Seq<u8>) -> bool {
    &&& bytes.len() > 0
    &&& forall|i: int| 0 <= i < bytes.len() - 1 ==> bytes[i] >= 128
    &&& bytes.last() < 128
}

/// What feeding one more byte to a varint comes to.
#[derive(Debug)]
pub enum VarintStep {
    /// The varint goes on.
    More,
    /// The varint ends here, with this value.
    Done(u64),
    /// The varint does not fit in 64 bits.
    Overflow,
}

/// A varint being read one byte at a time.
pub struct VarintReader {
    value: u64,
    count: usize,
    scale: u64,
    bytes: Ghost<Seq<u8>>,
}

impl VarintReader {
    /// The bytes fed so far.
    pub closed spec fn fed(&self) -> Seq<u8> {
        self.bytes@
    }

    /// The reader's invariant: it has read continuation bytes only, fewer than ten.
    pub closed spec fn wf(&self) -> bool {
        &&& self.count == self.bytes@.len()
        &&& self.count < 10
        &&& self.scale as nat == pow128(self.count as nat)
        &&& self.value as nat == varint_value(self.bytes@)
        &&& self.value < self.scale
        &&& forall|i: int| 0 <= i < self.bytes@.len() ==> self.bytes@[i] >= 128
    }

    /// A reader that has read nothing.
    pub fn new() -> (res: VarintReader)
        ensures
            res.wf(),
            res.fed() == Seq::<u8>::empty(),
    {
        VarintReader { value: 0, count: 0, scale: 1, bytes: Ghost(Seq::empty()) }
    }

    /// Feeds the next byte: the varint ends with a byte below 128; it may span
    /// at most ten bytes and must fit in 64 bits.
    pub fn feed(&mut self, byte: u8) -> (res: VarintStep)
        requires
            old(self).wf(),
        ensures
            final(self).fed() == old(self).fed().push(byte),
            res matches VarintStep::More ==> final(self).wf() && byte >= 128,
            res matches VarintStep::Done(v) ==> varint_complete(final(self).fed()) && v as nat == varint_value(final(self).fed()),
            res is Overflow ==> varint_value(final(self).fed()) > u64::MAX || (byte >= 128 && final(self).fed().len() >= 10),
    {
        let payload: u64 = (byte % 128) as u64;
        let ghost old_value = self.value;
        let ghost before = self.bytes@;
        let ghost new_bytes = before.push(byte);
        proof {
            self.bytes = Ghost(new_bytes);
            assert(new_bytes.drop_last() =~= before);
            lemma_pow128_step(before.len());
        }
        if self.count == 9 && payload > 1 {
            proof {
                lemma_pow128_nine();
                assert(payload * pow128(9) >= 2 * pow128(9)) by (nonlinear_arith)
                    requires payload >= 2;
            }
            return VarintStep::Overflow;
        }
        proof {
            if self.count < 9 {
                lemma_pow128_below(self.count as nat);
                assert(payload * self.scale <= 127 * self.scale) by (nonlinear_arith)
                    requires payload <= 127;
            } else {
                lemma_pow128_nine();
                assert(payload * self.scale <= self.scale) by (nonlinear_arith)
                    requires payload <= 1;
            }
        }
        let added = payload * self.scale;
        self.value = self.value + added;
        self.count = self.count + 1;
        if byte < 128 {
            proof {
                assert forall|i: int| 0 <= i < new_bytes.len() - 1 implies new_bytes[i] >= 128 by {
                    assert(new_bytes[i] == before[i]);
                }
            }
            return VarintStep::Done(self.value);
        }
        if self.count == 10 {
            return VarintStep::Overflow;
        }
        proof {
            lemma_pow128_below((self.count - 1) as nat);
            let v = self.value;
            let sc = self.scale;
            assert(v < 128 * sc) by (nonlinear_arith)
                requires v == old_value + payload * sc, old_value < sc, payload <= 127;
        }
        self.scale = self.scale * 128;
        proof {
            assert forall|i: int| 0 <= i < new_bytes.len() implies new_bytes[i] >= 128 by {
                if i < before.len() {
                    assert(new_bytes[i] == before[i]);
                }
            }
        }
        VarintStep::More
    }
}

/// The unsigned LEB128 encoding of `n`: seven bits per byte, least
/// significant group first, with the continuation bit on every byte but the last.
pub open spec fn varint_encode(n: nat) -> Seq<u8>
    decreases n,
{
    if n < 128 {
        seq![n as u8]
    } else {
        seq![((n % 128) + 128) as u8] + varint_encode(n / 128)
    }
}

/// Reading a byte in front of a varint adds its low seven bits below the rest.
proof fn lemma_varint_value_cons(b: u8, rest: Seq<u8>)
    ensures
        varint_value(seq![b] + rest) == (b % 128) as nat + 128 * varint_value(rest),
    decreases rest.len(),
{
    let all = seq![b] + rest;
    if rest.len() == 0 {
        assert(all.drop_last() =~= Seq::<u8>::empty());
        assert(all.last() == b);
        assert(pow128(0) == 1);
        assert(varint_value(Seq::<u8>::empty()) == 0);
        assert(varint_value(all) == varint_value(all.drop_last()) + (all.last() % 128) as nat * pow128(0));
    } else {
        let init = rest.drop_last();
        lemma_varint_value_cons(b, init);
        assert(all.drop_last() =~= seq![b] + init);
        assert(all.last() == rest.last());
        assert(all.len() - 1 == rest.len());
        let x = (rest.last() % 128) as nat;
        let p = pow128((rest.len() - 1) as nat);
        assert(pow128(rest.len() as nat) == 128 * p);
        assert(x * (128 * p) == 128 * (x * p)) by (nonlinear_arith);
        assert(varint_value(all) == varint_value(seq![b] + init) + x * pow128(rest.len() as nat));
        assert(varint_value(rest) == varint_value(init) + x * p);
    }
}

/// Every number is read back from its LEB128 encoding, which is a complete varint.
pub proof fn lemma_varint_roundtrip(n: nat)
    ensures
        varint_value(varint_encode(n)) == n,
        varint_complete(varint_encode(n)),
    decreases n,
{
    if n < 128 {
        let e = seq![n as u8];
        assert(e.drop_last() =~= Seq::<u8>::empty());
        assert(pow128(0) == 1);
        assert(varint_value(e) == varint_value(e.drop_last()) + (e.last() % 128) as nat * pow128(0));
    } else {
        let b = ((n % 128) + 128) as u8;
        let rest = varint_encode(n / 128);
        lemma_varint_roundtrip(n / 128);
        lemma_varint_value_cons(b, rest);
        assert(b % 128 == n % 128);
        let e = seq![b] + rest;
        assert forall|i: int| 0 <= i < e.len() - 1 implies e[i] >= 128 by {
            if i > 0 {
                assert(e[i] == rest[i - 1]);
            }
        }
        assert(e.last() == rest.last());
    }
}

/// `128^(n+1) == 128 * 128^n`.
proof fn lemma_pow128_step(n: nat)
    ensures
        pow128(n + 1) == 128 * pow128(n),
{
}

/// `128^9 == 2^63`.
proof fn lemma_pow128_nine()
    ensures
        pow128(9) == 0x8000_0000_0000_0000,
{
    reveal_with_fuel(pow128, 10);
}

/// Below the ninth power, `128 * 128^n` stays within `2^63`.
proof fn lemma_pow128_below(n: nat)
    requires
        n < 9,
    ensures
        128 * pow128(n) <= 0x8000_0000_0000_0000,
        pow128(n) >= 1,
    decreases 9 - n,
{
    reveal_with_fuel(pow128, 10);
    if n < 8 {
        lemma_pow128_below(n + 1);
    }
}

/// What reading a data section gives: the CID at its start, then the node stored after it.
pub open spec fn spec_section(payload: Seq<u8>) -> Result<(Seq<u8>, NodeView), NodeError> {
    match cid_prefix(payload) {
        None => Err(NodeError::InvalidCid("Section::cid")),
        Some((cid, left)) => match spec_node_bytes(payload.subrange(payload.len() - left, payload.len() as int)) {
            Ok(node) => Ok((cid, node)),
            Err(e) => Err(e),
        },
    }
}

/// Reads a data section's payload: the CID, then the node after it.
pub fn parse_section(payload: &[u8]) -> (res: Result<(Cid, Node), NodeError>)
    ensures
        match (res, spec_section(payload@)) {
            (Ok((c, n)), Ok((sc, sn))) => c@ == sc && n@ == sn,
            (Err(e), Err(f)) => e == f,
            _ => false,
        },
{
    let (cid, left) = match cid_read_prefix(payload) {
        Ok(p) => p,
        Err(_) => return Err(NodeError::InvalidCid("Section::cid")),
    };
    let read = payload.len() - left;
    let rest = vstd::slice::slice_subrange(payload, read, payload.len());
    let node = Node::try_from(rest)?;
    Ok((cid, node))
}

impl Nodes {
    /// Reads a data section into the group; tells whether its node is the
    /// block, which closes the group.
    pub fn add_section(&mut self, payload: &[u8]) -> (res: Result<bool, NodeError>)
        ensures
            match (res, spec_section(payload@)) {
                (Ok(is_block), Ok((c, n))) => is_block == (n is Block) && lookup(final(self)@, c) == Some(n)
                    && forall|other: Seq<u8>| other != c ==> lookup(final(self)@, other) == lookup(old(self)@, other),
                (Err(e), Err(f)) => e == f && final(self)@ == old(self)@,
                _ => false,
            },
    {
        let (cid, node) = parse_section(payload)?;
        let is_block = node.is_block();
        self.insert(cid, node);
        Ok(is_block)
    }
}

} // verus!
