//! Content identifiers (CIDs) that link the nodes of a CAR archive.
use vstd::prelude::*;

use crate::car::util::bytes::bytes_eq;

verus! {

/// A CID, held as its canonical binary encoding.
#[derive(Debug, Clone, PartialEq, Eq, Hash)]
pub struct Cid {
    bytes: Vec<u8>,
}

impl View for Cid {
    type V = Seq<u8>;

    closed spec fn view(&self) -> Seq<u8> {
        self.bytes@
    }
}

#[verifier::external_type_specification]
#[verifier::external_body]
pub struct ExCidError(cid::Error);

/// The canonical bytes of the CID that `cid::Cid::try_from(&[u8])` reads at the
/// start of `bytes` (its `to_bytes()`), or `None` where it refuses them: the
/// CID part of what `cid::Cid::read_bytes` reads, which `try_from` calls.
pub open spec fn cid_parse(bytes: Seq<u8>) -> Option<Seq<u8>> {
    match cid_prefix(bytes) {
        Some((c, _)) => Some(c),
        None => None,
    }
}

/// Calls `cid::Cid::try_from(&[u8])`, which calls `cid::Cid::read_bytes`, then
/// `to_bytes()` on the CID read. Claimed: success exactly when `cid_parse(bytes)`
/// is some encoding, which is then returned; the result depends on the bytes alone.
#[verifier::external_body]
pub(crate) fn cid_from_bytes(bytes: &[u8]) -> (res: Result<Cid, cid::Error>)
    ensures
        res is Ok <==> cid_parse(bytes@) is Some,
        res matches Ok(c) ==> cid_parse(bytes@) == Some(c@),
{
    cid::Cid::try_from(bytes).map(|c| Cid { bytes: c.to_bytes() })
}

/// The canonical bytes of the CID that `cid::Cid::read_bytes` reads at the
/// start of `bytes`, and how many bytes it leaves unread after it, or `None`
/// where it refuses them.
pub uninterp spec fn cid_prefix(bytes: Seq<u8>) -> Option<(Seq<u8>, nat)>;

/// Calls `cid::Cid::read_bytes` on a slice over the bytes, then `to_bytes()` on
/// the CID read, and gives the length of the slice that is left. Claimed:
/// success exactly when `cid_prefix(bytes)` is some pair, which is then the
/// CID's encoding and that length; reading only advances the slice, so what is
/// left is no longer than the bytes given; the result depends on the bytes alone.
#[verifier::external_body]
pub(crate) fn cid_read_prefix(bytes: &[u8]) -> (res: Result<(Cid, usize), cid::Error>)
    ensures
        res is Ok <==> cid_prefix(bytes@) is Some,
        res matches Ok((c, left)) ==> cid_prefix(bytes@) == Some((c@, left as nat)) && left <= bytes@.len(),
{
    let mut rest = bytes;
    cid::Cid::read_bytes(&mut rest).map(|c| (Cid { bytes: c.to_bytes() }, rest.len()))
}

/// The encoding of `cid::Cid::default()`: version 1, codec 0, and the empty
/// identity multihash (code 0, length 0).
pub open spec fn default_cid_bytes() -> Seq<u8> {
    seq![1u8, 0u8, 0u8, 0u8]
}

impl Cid {
    /// The CID that a node holds before its link field is read.
    pub fn default() -> (res: Cid)
        ensures
            res@ == default_cid_bytes(),
    {
        let mut bytes: Vec<u8> = Vec::new();
        bytes.push(1);
        bytes.push(0);
        bytes.push(0);
        bytes.push(0);
        assert(bytes@ =~= default_cid_bytes());
        Cid { bytes }
    }

    /// The canonical binary encoding of this CID.
    pub fn to_bytes(&self) -> (res: Vec<u8>)
        ensures
            res@ == self@,
    {
        vstd::slice::slice_to_vec(self.bytes.as_slice())
    }

    /// Reads a CID from its binary encoding (trailing bytes are ignored, as the `cid` crate does).
    pub fn from_bytes(bytes: &[u8]) -> (res: Option<Cid>)
        ensures
            res is Some <==> cid_parse(bytes@) is Some,
            res matches Some(c) ==> cid_parse(bytes@) == Some(c@),
    {
        match cid_from_bytes(bytes) {
            Ok(c) => Some(c),
            Err(_) => None,
        }
    }

    /// Whether two CIDs are the same.
    pub fn same(&self, other: &Cid) -> (res: bool)
        ensures
            res == (self@ == other@),
    {
        bytes_eq(self.bytes.as_slice(), other.bytes.as_slice())
    }

    /// A copy of this CID.
    pub fn copy(&self) -> (res: Cid)
        ensures
            res@ == self@,
    {
        Cid { bytes: self.to_bytes() }
    }
}

} // verus!
