//! The messages ring members exchange.
use vstd::prelude::*;
use crate::node::NodeInfo;

verus! {

/// A request or reply between ring members.
#[derive(Debug, PartialEq, Eq)]
#[allow(inconsistent_fields)]
pub enum Message {
    Ping,
    Pong,
    FindSuccessor { id: u8 },
    SuccessorResponse { node: NodeInfo },
    GetPredecessor,
    PredecessorResponse { node: Option<NodeInfo> },
    Notify { node: NodeInfo },
    Ack,
    PublishFile { file_id: u8, file_hash: String, owner_address: String },
    UpdateSuccessor { node: NodeInfo },
    UpdatePredecessor { node: Option<NodeInfo> },
    PutData { key_id: u8, file_hash: String, value: String },
    GetData { key_id: u8, file_hash: String },
    DataResponse { value: Option<String> },
    GetAllFiles { origin_id: u8, files: Vec<String> },
    AllFilesResponse { files: Vec<String> },
    RequestChunk { file_hash: String, chunk_index: usize },
    ChunkData { data: Vec<u8> },
    TransferKeys { data: Vec<(String, String)> },
}

/// A message and the address it goes to.
#[derive(Debug, PartialEq, Eq)]
pub struct Outgoing {
    pub address: String,
    pub message: Message,
}

} // verus!
