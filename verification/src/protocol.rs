//! Request and response envelopes of the application protocol.
//!
//! A request envelope carries at most one populated variant; an envelope with
//! none populated is a protocol violation and is answered with
//! `ProtocolError::MalformedRequest` rather than a silent default response.
//! Each request kind is mirrored by exactly one response kind.

use vstd::prelude::*;

verus! {

/// The closed set of request kinds; a response envelope answers a request of
/// the same kind.
#[derive(Clone, Copy, Debug, PartialEq, Eq, Structural)]
pub enum RequestKind {
    Echo,
    Flush,
    Info,
    SetOption,
    InitChain,
    Query,
    BeginBlock,
    CheckTx,
    DeliverTx,
    EndBlock,
    Commit,
    ListSnapshots,
    OfferSnapshot,
    LoadSnapshotChunk,
    ApplySnapshotChunk,
}

#[derive(Clone, Debug, PartialEq, Eq)]
pub struct RequestEcho {
    pub message: String,
}

#[derive(Clone, Debug, PartialEq, Eq)]
pub struct RequestInfo {
    pub version: String,
    pub block_version: u64,
    pub p2p_version: u64,
}

#[derive(Clone, Debug, PartialEq, Eq)]
pub struct RequestInitChain {
    pub chain_id: String,
    pub app_state_bytes: Vec<u8>,
}

#[derive(Clone, Debug, PartialEq, Eq)]
pub struct RequestQuery {
    pub data: Vec<u8>,
    pub path: String,
    pub height: u64,
    pub prove: bool,
}

#[derive(Clone, Debug, PartialEq, Eq)]
pub struct RequestBeginBlock {
    pub hash: Vec<u8>,
    pub height: u64,
}

#[derive(Clone, Debug, PartialEq, Eq)]
pub struct RequestCheckTx {
    pub tx: Vec<u8>,
}

#[derive(Clone, Debug, PartialEq, Eq)]
pub struct RequestDeliverTx {
    pub tx: Vec<u8>,
}

#[derive(Clone, Debug, PartialEq, Eq)]
pub struct RequestEndBlock {
    pub height: u64,
}

#[derive(Clone, Debug, PartialEq, Eq)]
pub struct RequestSetOption {
    pub key: String,
    pub value: String,
}

/// Identity of a snapshot: height it was taken at, encoding format and the
/// number of chunks it decomposes into.
#[derive(Clone, Debug, PartialEq, Eq)]
pub struct SnapshotMeta {
    pub height: u64,
    pub format: u32,
    pub chunks: u32,
    pub hash: Vec<u8>,
}

#[derive(Clone, Debug, PartialEq, Eq)]
pub struct RequestOfferSnapshot {
    pub snapshot: SnapshotMeta,
    pub app_hash: Vec<u8>,
}

#[derive(Clone, Debug, PartialEq, Eq)]
pub struct RequestLoadSnapshotChunk {
    pub height: u64,
    pub format: u32,
    pub chunk: u32,
}

#[derive(Clone, Debug, PartialEq, Eq)]
pub struct RequestApplySnapshotChunk {
    pub index: u32,
    pub chunk: Vec<u8>,
    pub sender: String,
}

#[derive(Clone, Debug, PartialEq, Eq)]
pub struct ResponseEcho {
    pub message: String,
}

#[derive(Clone, Debug, PartialEq, Eq)]
pub struct ResponseFlush {}

#[derive(Clone, Debug, PartialEq, Eq)]
pub struct ResponseInfo {
    pub data: String,
    pub version: String,
    pub app_version: u64,
    pub last_block_height: u64,
    pub last_block_app_hash: Vec<u8>,
}

#[derive(Clone, Debug, PartialEq, Eq)]
pub struct ResponseSetOption {
    pub code: u32,
    pub log: String,
}

#[derive(Clone, Debug, PartialEq, Eq)]
pub struct ResponseInitChain {}

#[derive(Clone, Debug, PartialEq, Eq)]
pub struct ResponseQuery {
    pub code: u32,
    pub log: String,
    pub key: Vec<u8>,
    pub value: Vec<u8>,
    pub height: u64,
}

#[derive(Clone, Debug, PartialEq, Eq)]
pub struct ResponseBeginBlock {}

#[derive(Clone, Debug, PartialEq, Eq)]
pub struct ResponseCheckTx {
    pub code: u32,
    pub log: String,
}

#[derive(Clone, Debug, PartialEq, Eq)]
pub struct ResponseDeliverTx {
    pub code: u32,
    pub log: String,
}

#[derive(Clone, Debug, PartialEq, Eq)]
pub struct ResponseEndBlock {}

#[derive(Clone, Debug, PartialEq, Eq)]
pub struct ResponseCommit {
    pub data: Vec<u8>,
}

#[derive(Clone, Debug, PartialEq, Eq)]
pub struct ResponseListSnapshots {
    pub snapshots: Vec<SnapshotMeta>,
}

/// The application's decision on an offered snapshot.
#[derive(Clone, Copy, Debug, PartialEq, Eq, Structural)]
pub enum OfferSnapshotResult {
    Accept,
    Abort,
    Reject,
    RejectFormat,
    RejectSender,
}

#[derive(Clone, Debug, PartialEq, Eq)]
pub struct ResponseOfferSnapshot {
    pub result: OfferSnapshotResult,
}

#[derive(Clone, Debug, PartialEq, Eq)]
pub struct ResponseLoadSnapshotChunk {
    pub chunk: Vec<u8>,
}

/// The application's decision on an applied snapshot chunk; a rejected chunk
/// is recoverable by retry, it never aborts the channel.
#[derive(Clone, Copy, Debug, PartialEq, Eq, Structural)]
pub enum ApplySnapshotChunkResult {
    Accept,
    Abort,
    Retry,
    RetrySnapshot,
    RejectSnapshot,
}

#[derive(Clone, Debug, PartialEq, Eq)]
pub struct ResponseApplySnapshotChunk {
    pub result: ApplySnapshotChunkResult,
    pub refetch_chunks: Vec<u32>,
    pub reject_senders: Vec<String>,
}

/// One populated request variant.
#[derive(Clone, Debug, PartialEq, Eq)]
pub enum RequestValue {
    Echo(RequestEcho),
    Flush,
    Info(RequestInfo),
    SetOption(RequestSetOption),
    InitChain(RequestInitChain),
    Query(RequestQuery),
    BeginBlock(RequestBeginBlock),
    CheckTx(RequestCheckTx),
    DeliverTx(RequestDeliverTx),
    EndBlock(RequestEndBlock),
    Commit,
    ListSnapshots,
    OfferSnapshot(RequestOfferSnapshot),
    LoadSnapshotChunk(RequestLoadSnapshotChunk),
    ApplySnapshotChunk(RequestApplySnapshotChunk),
}

/// The request envelope as it arrives from the driver: at most one variant
/// populated. `value == None` models a malformed envelope.
#[derive(Clone, Debug, PartialEq, Eq)]
pub struct Request {
    pub value: Option<RequestValue>,
}

/// One populated response variant.
#[derive(Clone, Debug, PartialEq, Eq)]
pub enum ResponseValue {
    Echo(ResponseEcho),
    Flush(ResponseFlush),
    Info(ResponseInfo),
    SetOption(ResponseSetOption),
    InitChain(ResponseInitChain),
    Query(ResponseQuery),
    BeginBlock(ResponseBeginBlock),
    CheckTx(ResponseCheckTx),
    DeliverTx(ResponseDeliverTx),
    EndBlock(ResponseEndBlock),
    Commit(ResponseCommit),
    ListSnapshots(ResponseListSnapshots),
    OfferSnapshot(ResponseOfferSnapshot),
    LoadSnapshotChunk(ResponseLoadSnapshotChunk),
    ApplySnapshotChunk(ResponseApplySnapshotChunk),
}

/// The response envelope handed back to the driver, mirroring the request
/// envelope's wire shape.
#[derive(Clone, Debug, PartialEq, Eq)]
pub struct Response {
    pub value: Option<ResponseValue>,
}

/// Protocol-level failures: these abort the current call rather than being
/// encoded in a response payload.
#[derive(Clone, Copy, Debug, PartialEq, Eq, Structural)]
pub enum ProtocolError {
    /// The envelope carried no recognizable variant; the driver violated the
    /// protocol and the connection should be terminated.
    MalformedRequest,
}

/// The kind of a populated request variant.
pub open spec fn request_kind(v: RequestValue) -> RequestKind {
    match v {
        RequestValue::Echo(_) => RequestKind::Echo,
        RequestValue::Flush => RequestKind::Flush,
        RequestValue::Info(_) => RequestKind::Info,
        RequestValue::SetOption(_) => RequestKind::SetOption,
        RequestValue::InitChain(_) => RequestKind::InitChain,
        RequestValue::Query(_) => RequestKind::Query,
        RequestValue::BeginBlock(_) => RequestKind::BeginBlock,
        RequestValue::CheckTx(_) => RequestKind::CheckTx,
        RequestValue::DeliverTx(_) => RequestKind::DeliverTx,
        RequestValue::EndBlock(_) => RequestKind::EndBlock,
        RequestValue::Commit => RequestKind::Commit,
        RequestValue::ListSnapshots => RequestKind::ListSnapshots,
        RequestValue::OfferSnapshot(_) => RequestKind::OfferSnapshot,
        RequestValue::LoadSnapshotChunk(_) => RequestKind::LoadSnapshotChunk,
        RequestValue::ApplySnapshotChunk(_) => RequestKind::ApplySnapshotChunk,
    }
}

/// The kind of a populated response variant.
pub open spec fn response_kind(v: ResponseValue) -> RequestKind {
    match v {
        ResponseValue::Echo(_) => RequestKind::Echo,
        ResponseValue::Flush(_) => RequestKind::Flush,
        ResponseValue::Info(_) => RequestKind::Info,
        ResponseValue::SetOption(_) => RequestKind::SetOption,
        ResponseValue::InitChain(_) => RequestKind::InitChain,
        ResponseValue::Query(_) => RequestKind::Query,
        ResponseValue::BeginBlock(_) => RequestKind::BeginBlock,
        ResponseValue::CheckTx(_) => RequestKind::CheckTx,
        ResponseValue::DeliverTx(_) => RequestKind::DeliverTx,
        ResponseValue::EndBlock(_) => RequestKind::EndBlock,
        ResponseValue::Commit(_) => RequestKind::Commit,
        ResponseValue::ListSnapshots(_) => RequestKind::ListSnapshots,
        ResponseValue::OfferSnapshot(_) => RequestKind::OfferSnapshot,
        ResponseValue::LoadSnapshotChunk(_) => RequestKind::LoadSnapshotChunk,
        ResponseValue::ApplySnapshotChunk(_) => RequestKind::ApplySnapshotChunk,
    }
}

} // verus!
