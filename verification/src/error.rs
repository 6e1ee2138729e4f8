//! The errors of the stream.
use vstd::prelude::*;

use crate::car::node::nodes::ReassableError;
use crate::car::node::NodeError;

verus! {

#[verifier::external_type_specification]
#[verifier::external_body]
pub struct ExIoError(std::io::Error);

#[verifier::external_type_specification]
#[verifier::external_body]
pub struct ExProstDecodeError(yellowstone_grpc_proto::prost::DecodeError);

/// Why streaming an archive stopped.
#[derive(Debug)]
pub enum CarSourceError {
    /// Reading or writing a file failed, or a payload did not decompress.
    Io(std::io::Error),
    /// A node could not be decoded.
    Node(NodeError),
    /// A payload split over data frames could not be put back together.
    Reassemble(ReassableError),
    /// A protobuf message could not be decoded.
    ProstDecode(yellowstone_grpc_proto::prost::DecodeError),
    /// A bincode payload could not be decoded.
    Bincode(Box<bincode::ErrorKind>),
    /// The receiver of the updates has gone.
    ChannelClosed,
    /// The group of nodes lacks a node of the named kind where one is linked.
    MissingNode(String),
    /// An archive could not be found or fetched.
    DownloadFailed(String),
    /// The status metadata of a transaction decodes in no known layout.
    MetaDecode(String),
}

} // verus!
