//! The application capability set and the protocol dispatcher.
//!
//! `Application` exposes one operation per request kind. Every operation has
//! a deterministic default — an empty success — that a concrete application
//! overrides only where its rules require. `handle` is the single dispatch
//! entry point: it routes each populated request variant to exactly one
//! operation and wraps the result in the response variant of the same kind;
//! an envelope with no populated variant is answered with
//! `ProtocolError::MalformedRequest`.

use vstd::prelude::*;

use crate::protocol::ApplySnapshotChunkResult;
use crate::protocol::OfferSnapshotResult;
use crate::protocol::ProtocolError;
use crate::protocol::Request;
use crate::protocol::RequestApplySnapshotChunk;
use crate::protocol::RequestBeginBlock;
use crate::protocol::RequestCheckTx;
use crate::protocol::RequestDeliverTx;
use crate::protocol::RequestEcho;
use crate::protocol::RequestEndBlock;
use crate::protocol::RequestInfo;
use crate::protocol::RequestInitChain;
use crate::protocol::RequestLoadSnapshotChunk;
use crate::protocol::RequestOfferSnapshot;
use crate::protocol::RequestQuery;
use crate::protocol::RequestSetOption;
use crate::protocol::RequestValue;
use crate::protocol::Response;
use crate::protocol::ResponseApplySnapshotChunk;
use crate::protocol::ResponseBeginBlock;
use crate::protocol::ResponseCheckTx;
use crate::protocol::ResponseCommit;
use crate::protocol::ResponseDeliverTx;
use crate::protocol::ResponseEcho;
use crate::protocol::ResponseEndBlock;
use crate::protocol::ResponseFlush;
use crate::protocol::ResponseInfo;
use crate::protocol::ResponseInitChain;
use crate::protocol::ResponseListSnapshots;
use crate::protocol::ResponseLoadSnapshotChunk;
use crate::protocol::ResponseOfferSnapshot;
use crate::protocol::ResponseQuery;
use crate::protocol::ResponseSetOption;
use crate::protocol::ResponseValue;
use crate::protocol::request_kind;
use crate::protocol::response_kind;

verus! {

/// The default info response: everything empty, height zero.
pub open spec fn info_is_default(r: ResponseInfo) -> bool {
    &&& r.data@ == Seq::<char>::empty()
    &&& r.version@ == Seq::<char>::empty()
    &&& r.app_version == 0
    &&& r.last_block_height == 0
    &&& r.last_block_app_hash@ == Seq::<u8>::empty()
}

/// The default query response: success, everything empty.
pub open spec fn query_is_default(r: ResponseQuery) -> bool {
    &&& r.code == 0
    &&& r.log@ == Seq::<char>::empty()
    &&& r.key@ == Seq::<u8>::empty()
    &&& r.value@ == Seq::<u8>::empty()
    &&& r.height == 0
}

/// The default transaction outcome: accepted, empty log.
pub open spec fn tx_accepted(code: u32, log: Seq<char>) -> bool {
    code == 0 && log == Seq::<char>::empty()
}

/// One operation per protocol request kind, each with a deterministic
/// default. Determinism is the central correctness contract: every verified
/// implementation computes its response and state change from its arguments
/// and prior state alone.
pub trait Application: Sized {
    /// The implementation's well-formedness invariant. Every operation may
    /// assume it and every operation preserves it; a freshly constructed
    /// application must establish it.
    spec fn inv(&self) -> bool;

    /// Echo back the same message as provided in the request. Overriding
    /// this away from the identity is a protocol violation, so the identity
    /// is demanded of every implementation.
    fn echo(&self, request: RequestEcho) -> (response: ResponseEcho)
        requires
            self.inv(),
        ensures
            response.message@ == request.message@,
    {
        ResponseEcho { message: request.message }
    }

    /// Provide information about the application; used on driver restart to
    /// resynchronize with the last committed height.
    fn info(&self, _request: RequestInfo) -> (response: ResponseInfo)
        requires
            self.inv(),
        default_ensures
            info_is_default(response),
    {
        ResponseInfo {
            data: String::new(),
            version: String::new(),
            app_version: 0,
            last_block_height: 0,
            last_block_app_hash: Vec::new(),
        }
    }

    /// Called once upon genesis.
    fn init_chain(&mut self, _request: RequestInitChain) -> (response: ResponseInitChain)
        requires
            old(self).inv(),
        ensures
            final(self).inv(),
        default_ensures
            *final(self) == *old(self),
            response == (ResponseInitChain {}),
    {
        ResponseInitChain {}
    }

    /// Query the application for data at the current or past height; never
    /// mutates state.
    fn query(&self, _request: RequestQuery) -> (response: ResponseQuery)
        requires
            self.inv(),
        default_ensures
            query_is_default(response),
    {
        ResponseQuery {
            code: 0,
            log: String::new(),
            key: Vec::new(),
            value: Vec::new(),
            height: 0,
        }
    }

    /// Check the given transaction before admitting it to the local mempool;
    /// applies no durable state change.
    fn check_tx(&self, _request: RequestCheckTx) -> (response: ResponseCheckTx)
        requires
            self.inv(),
        default_ensures
            tx_accepted(response.code, response.log@),
    {
        ResponseCheckTx { code: 0, log: String::new() }
    }

    /// Signals the beginning of a new block, prior to any `deliver_tx` call
    /// for that block.
    fn begin_block(&mut self, _request: RequestBeginBlock) -> (response: ResponseBeginBlock)
        requires
            old(self).inv(),
        ensures
            final(self).inv(),
        default_ensures
            *final(self) == *old(self),
            response == (ResponseBeginBlock {}),
    {
        ResponseBeginBlock {}
    }

    /// Apply a transaction to the application's state; the order of calls
    /// within a block is significant.
    fn deliver_tx(&mut self, _request: RequestDeliverTx) -> (response: ResponseDeliverTx)
        requires
            old(self).inv(),
        ensures
            final(self).inv(),
        default_ensures
            *final(self) == *old(self),
            tx_accepted(response.code, response.log@),
    {
        ResponseDeliverTx { code: 0, log: String::new() }
    }

    /// Signals the end of a block; no further `deliver_tx` is valid for this
    /// height afterwards.
    fn end_block(&mut self, _request: RequestEndBlock) -> (response: ResponseEndBlock)
        requires
            old(self).inv(),
        ensures
            final(self).inv(),
        default_ensures
            *final(self) == *old(self),
            response == (ResponseEndBlock {}),
    {
        ResponseEndBlock {}
    }

    /// Purely a synchronization barrier; no state effect.
    fn flush(&self) -> (response: ResponseFlush)
        requires
            self.inv(),
        ensures
            response == (ResponseFlush {}),
    {
        ResponseFlush {}
    }

    /// Durably persist the execution context built since the last commit and
    /// return a state-identity digest.
    fn commit(&mut self) -> (response: ResponseCommit)
        requires
            old(self).inv(),
        ensures
            final(self).inv(),
        default_ensures
            *final(self) == *old(self),
            response.data@ == Seq::<u8>::empty(),
    {
        ResponseCommit { data: Vec::new() }
    }

    /// Deprecated compatibility hook; legal to ignore.
    fn set_option(&self, _request: RequestSetOption) -> (response: ResponseSetOption)
        requires
            self.inv(),
        default_ensures
            response.code == 0 && response.log@ == Seq::<char>::empty(),
    {
        ResponseSetOption { code: 0, log: String::new() }
    }

    /// Enumerate locally available snapshots for state-sync serving.
    fn list_snapshots(&self) -> (response: ResponseListSnapshots)
        requires
            self.inv(),
        default_ensures
            response.snapshots@ == Seq::<crate::protocol::SnapshotMeta>::empty(),
    {
        ResponseListSnapshots { snapshots: Vec::new() }
    }

    /// Decide whether to accept, reject or abort an offered snapshot.
    fn offer_snapshot(&mut self, _request: RequestOfferSnapshot) -> (response: ResponseOfferSnapshot)
        requires
            old(self).inv(),
        ensures
            final(self).inv(),
        default_ensures
            *final(self) == *old(self),
            response == (ResponseOfferSnapshot { result: OfferSnapshotResult::Reject }),
    {
        ResponseOfferSnapshot { result: OfferSnapshotResult::Reject }
    }

    /// Return a chunk of a previously taken snapshot, verbatim, when this
    /// node is itself the serving peer.
    fn load_snapshot_chunk(&self, _request: RequestLoadSnapshotChunk) -> (response:
        ResponseLoadSnapshotChunk)
        requires
            self.inv(),
        default_ensures
            response.chunk@ == Seq::<u8>::empty(),
    {
        ResponseLoadSnapshotChunk { chunk: Vec::new() }
    }

    /// Apply the given snapshot chunk and signal whether more chunks are
    /// needed or the snapshot should be retried or abandoned.
    fn apply_snapshot_chunk(&mut self, _request: RequestApplySnapshotChunk) -> (response:
        ResponseApplySnapshotChunk)
        requires
            old(self).inv(),
        ensures
            final(self).inv(),
        default_ensures
            *final(self) == *old(self),
            response.result == ApplySnapshotChunkResult::Abort,
            response.refetch_chunks@ == Seq::<u32>::empty(),
            response.reject_senders@ == Seq::<String>::empty(),
    {
        ResponseApplySnapshotChunk {
            result: ApplySnapshotChunkResult::Abort,
            refetch_chunks: Vec::new(),
            reject_senders: Vec::new(),
        }
    }

    /// Execute the one operation matching the request's populated variant
    /// and wrap its result in the response variant of the same kind. A
    /// request with no populated variant is a protocol violation and yields
    /// `MalformedRequest`; no variant is dropped silently and no two
    /// variants reach the same operation.
    fn handle(&mut self, request: Request) -> (r: Result<Response, ProtocolError>)
        requires
            old(self).inv(),
        ensures
            final(self).inv(),
            r is Ok <==> request.value is Some,
            request.value is None ==> r == Err::<Response, ProtocolError>(
                ProtocolError::MalformedRequest,
            ),
            r matches Ok(resp) ==> resp.value matches Some(rv) && request.value matches Some(q)
                && response_kind(rv) == request_kind(q),
            r matches Ok(resp) ==> (request.value matches Some(RequestValue::Echo(e)) ==> (
            resp.value matches Some(ResponseValue::Echo(re)) && re.message@ == e.message@)),
    {
        match request.value {
            None => Err(ProtocolError::MalformedRequest),
            Some(v) => Ok(
                Response {
                    value: Some(
                        match v {
                            RequestValue::Echo(req) => ResponseValue::Echo(self.echo(req)),
                            RequestValue::Flush => ResponseValue::Flush(self.flush()),
                            RequestValue::Info(req) => ResponseValue::Info(self.info(req)),
                            RequestValue::SetOption(req) => ResponseValue::SetOption(
                                self.set_option(req),
                            ),
                            RequestValue::InitChain(req) => ResponseValue::InitChain(
                                self.init_chain(req),
                            ),
                            RequestValue::Query(req) => ResponseValue::Query(self.query(req)),
                            RequestValue::BeginBlock(req) => ResponseValue::BeginBlock(
                                self.begin_block(req),
                            ),
                            RequestValue::CheckTx(req) => ResponseValue::CheckTx(
                                self.check_tx(req),
                            ),
                            RequestValue::DeliverTx(req) => ResponseValue::DeliverTx(
                                self.deliver_tx(req),
                            ),
                            RequestValue::EndBlock(req) => ResponseValue::EndBlock(
                                self.end_block(req),
                            ),
                            RequestValue::Commit => ResponseValue::Commit(self.commit()),
                            RequestValue::ListSnapshots => ResponseValue::ListSnapshots(
                                self.list_snapshots(),
                            ),
                            RequestValue::OfferSnapshot(req) => ResponseValue::OfferSnapshot(
                                self.offer_snapshot(req),
                            ),
                            RequestValue::LoadSnapshotChunk(req) => ResponseValue::LoadSnapshotChunk(
                                self.load_snapshot_chunk(req),
                            ),
                            RequestValue::ApplySnapshotChunk(req) => ResponseValue::ApplySnapshotChunk(
                                self.apply_snapshot_chunk(req),
                            ),
                        },
                    ),
                },
            ),
        }
    }
}

/// The bare scaffold application: every operation keeps its default
/// behavior, an empty success, and no state is held at all.
#[derive(Clone, Copy, Debug, PartialEq, Eq, Structural)]
pub struct DefaultApp {}

impl Application for DefaultApp {
    open spec fn inv(&self) -> bool {
        true
    }
}

} // verus!
