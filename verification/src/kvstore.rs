//! An in-memory key/value application with a verified block-execution
//! lifecycle and state-sync snapshot transfer.
//!
//! A transaction is `key '=' value`; `deliver_tx` collects the bindings of
//! the open block in a pending context, and only `commit` merges them into
//! the committed store, so a query issued before commit never observes
//! them. Every operation's effect is stated as a pure transition function of
//! the model, which is what makes two replicas fed identical requests end in
//! identical states with identical responses.

use vstd::prelude::*;

use crate::application::Application;
use crate::codec::decode_entries;
use crate::codec::decode_entries_from;
use crate::codec::encode_entries;
use crate::codec::encode_entries_exec;
use crate::codec::lemma_decode_encode;
use crate::codec::lemma_decode_lengths_bounded;
use crate::codec::u64_be_bytes;
use crate::codec::u64_be_bytes_exec;
use crate::protocol::ApplySnapshotChunkResult;
use crate::protocol::OfferSnapshotResult;
use crate::protocol::ProtocolError;
use crate::protocol::Request;
use crate::protocol::RequestApplySnapshotChunk;
use crate::protocol::RequestBeginBlock;
use crate::protocol::RequestCheckTx;
use crate::protocol::RequestDeliverTx;
use crate::protocol::RequestEndBlock;
use crate::protocol::RequestInfo;
use crate::protocol::RequestInitChain;
use crate::protocol::RequestLoadSnapshotChunk;
use crate::protocol::RequestOfferSnapshot;
use crate::protocol::RequestQuery;
use crate::protocol::RequestValue;
use crate::protocol::Response;
use crate::protocol::ResponseApplySnapshotChunk;
use crate::protocol::ResponseBeginBlock;
use crate::protocol::ResponseCheckTx;
use crate::protocol::ResponseCommit;
use crate::protocol::ResponseDeliverTx;
use crate::protocol::ResponseEndBlock;
use crate::protocol::ResponseInfo;
use crate::protocol::ResponseInitChain;
use crate::protocol::ResponseListSnapshots;
use crate::protocol::ResponseLoadSnapshotChunk;
use crate::protocol::ResponseOfferSnapshot;
use crate::protocol::ResponseQuery;
use crate::protocol::ResponseValue;
use crate::protocol::SnapshotMeta;
use crate::store::Store;
use crate::store::StoreEntry;
use crate::store::StoreModel;
use crate::store::lemma_entries_view;
use crate::store::lemma_store_insert_all_snoc;
use crate::store::lemma_store_insert_all_wf;
use crate::store::lemma_store_insert_keys;
use crate::store::lemma_store_insert_len;
use crate::store::lemma_store_prefix_wf;
use crate::store::lemma_store_rebuild;
use crate::store::store_get;
use crate::store::store_insert;
use crate::store::store_insert_all;
use crate::store::store_keys_unique;
use crate::store::store_lengths_bounded;

verus! {

/// The snapshot encoding format this application understands.
pub const SNAPSHOT_FORMAT: u32 = 1;

/// How many bindings go into one snapshot chunk.
pub const SNAPSHOT_CHUNK_ENTRIES: usize = 4;

/// Transaction outcome: accepted.
pub const CODE_OK: u32 = 0;

/// Transaction outcome: no block is open, so the transaction cannot be
/// applied.
pub const CODE_NO_BLOCK: u32 = 1;

/// Transaction outcome: the bytes are not `key '=' value`.
pub const CODE_BAD_TX: u32 = 2;

/// Transaction outcome: the store is full.
pub const CODE_FULL: u32 = 3;

/// Transaction outcome: the transaction is too long for the snapshot
/// encoding's length prefixes.
pub const CODE_OVERSIZE: u32 = 4;

/// Query outcome: the key is not bound.
pub const CODE_NOT_FOUND: u32 = 1;

/// The progress of a snapshot restore: the height being restored, how many
/// chunks it has, and the next chunk the application demands.
pub ghost struct RestoreModel {
    pub height: u64,
    pub chunk_count: u32,
    pub next_chunk: u32,
}

/// The mathematical state of the application.
pub ghost struct AppModel {
    /// The durably committed bindings, visible to queries.
    pub committed: StoreModel,
    /// The bindings delivered in the open block, not yet visible.
    pub pending: StoreModel,
    /// The last committed height.
    pub height: u64,
    /// Whether a block execution context is open.
    pub block_open: bool,
    /// The height of the open block, recorded at `begin_block`.
    pub working_height: u64,
    /// The state-sync restore in progress, if any.
    pub restore: Option<RestoreModel>,
}

/// The state of a freshly constructed application.
pub open spec fn app_init() -> AppModel {
    AppModel {
        committed: Seq::<(Seq<u8>, Seq<u8>)>::empty(),
        pending: Seq::<(Seq<u8>, Seq<u8>)>::empty(),
        height: 0,
        block_open: false,
        working_height: 0,
        restore: None,
    }
}

/// Well-formedness of the application state.
pub open spec fn app_wf(m: AppModel) -> bool {
    &&& store_keys_unique(m.committed)
    &&& store_lengths_bounded(m.committed)
    &&& store_keys_unique(m.pending)
    &&& store_lengths_bounded(m.pending)
    &&& m.committed.len() + m.pending.len() < 0xFFFF_FFFF
    &&& (!m.block_open ==> m.pending == Seq::<(Seq<u8>, Seq<u8>)>::empty())
    &&& (m.restore matches Some(rs) ==> !m.block_open && rs.next_chunk < rs.chunk_count)
}

/// The position of the first `'='` in a transaction, if any.
pub open spec fn find_eq(tx: Seq<u8>) -> Option<int>
    decreases tx.len(),
{
    if tx.len() == 0 {
        None
    } else if tx[0] == 61 {
        Some(0)
    } else {
        match find_eq(tx.drop_first()) {
            Some(i) => Some(i + 1),
            None => None,
        }
    }
}

/// The key of a transaction: the bytes before the first `'='`.
pub open spec fn tx_key(tx: Seq<u8>) -> Seq<u8> {
    tx.take(find_eq(tx)->Some_0)
}

/// The value of a transaction: the bytes after the first `'='`.
pub open spec fn tx_value(tx: Seq<u8>) -> Seq<u8> {
    tx.skip(find_eq(tx)->Some_0 + 1)
}

/// The code `check_tx` and `deliver_tx` assign to the shape of a
/// transaction, independent of any state.
pub open spec fn tx_shape_code(tx: Seq<u8>) -> u32 {
    if tx.len() > 0xFFFF_FFFE {
        CODE_OVERSIZE
    } else if find_eq(tx) is None {
        CODE_BAD_TX
    } else {
        CODE_OK
    }
}

/// What `deliver_tx` does: the new state and the response code.
pub open spec fn deliver_tx_step(m: AppModel, tx: Seq<u8>) -> (AppModel, u32) {
    if !m.block_open {
        (m, CODE_NO_BLOCK)
    } else if tx_shape_code(tx) != CODE_OK {
        (m, tx_shape_code(tx))
    } else if m.committed.len() + m.pending.len() >= 0xFFFF_FFFE {
        (m, CODE_FULL)
    } else {
        (
            AppModel { pending: store_insert(m.pending, tx_key(tx), tx_value(tx)), ..m },
            CODE_OK,
        )
    }
}

/// What `begin_block` does: open a fresh execution context for the block's
/// height; any state-sync restore in progress is abandoned, since normal
/// operation and state sync are mutually exclusive.
pub open spec fn begin_block_step(m: AppModel, height: u64) -> AppModel {
    AppModel {
        pending: Seq::<(Seq<u8>, Seq<u8>)>::empty(),
        block_open: true,
        working_height: height,
        restore: None,
        ..m
    }
}

/// What `commit` does when a block is open: merge the pending bindings into
/// the committed store, close the context and move to the block's height.
/// Without an open block it is a provable no-op: the same digest is
/// returned and nothing is re-applied.
pub open spec fn commit_step(m: AppModel) -> (AppModel, Seq<u8>) {
    if m.block_open {
        (
            AppModel {
                committed: store_insert_all(m.committed, m.pending),
                pending: Seq::<(Seq<u8>, Seq<u8>)>::empty(),
                height: m.working_height,
                block_open: false,
                ..m
            },
            u64_be_bytes(m.working_height),
        )
    } else {
        (m, u64_be_bytes(m.height))
    }
}

/// What `init_chain` does: start over from genesis. The genesis bindings
/// are the chain's initial application state if they decode, and empty
/// otherwise. Replaying the same genesis lands in the same state, so a
/// driver retry is harmless.
pub open spec fn init_chain_step(m: AppModel, app_state_bytes: Seq<u8>) -> AppModel {
    match decode_entries(app_state_bytes) {
        Some(es) => if store_insert_all(Seq::<(Seq<u8>, Seq<u8>)>::empty(), es).len()
            < 0xFFFF_FFFF {
            AppModel {
                committed: store_insert_all(Seq::<(Seq<u8>, Seq<u8>)>::empty(), es),
                ..app_init()
            }
        } else {
            app_init()
        },
        None => app_init(),
    }
}

/// The value a query reports for a key: what the committed store binds it
/// to, or empty.
pub open spec fn query_value(m: AppModel, key: Seq<u8>) -> Seq<u8> {
    match store_get(m.committed, key) {
        Some(v) => v,
        None => Seq::<u8>::empty(),
    }
}

/// The code a query reports for a key.
pub open spec fn query_code(m: AppModel, key: Seq<u8>) -> u32 {
    if store_get(m.committed, key) is Some {
        CODE_OK
    } else {
        CODE_NOT_FOUND
    }
}

/// How many chunks the snapshot of a store decomposes into; an empty store
/// still has one (empty) chunk.
pub open spec fn snapshot_chunk_count(s: StoreModel) -> int {
    if s.len() == 0 {
        1
    } else {
        (s.len() + (SNAPSHOT_CHUNK_ENTRIES - 1) as int) / SNAPSHOT_CHUNK_ENTRIES as int
    }
}

/// The bindings of chunk `i` of a store's snapshot.
pub open spec fn snapshot_chunk_entries(s: StoreModel, i: int) -> StoreModel {
    let lo = vstd::math::min(SNAPSHOT_CHUNK_ENTRIES as int * i, s.len() as int);
    let hi = vstd::math::min(SNAPSHOT_CHUNK_ENTRIES as int * i + SNAPSHOT_CHUNK_ENTRIES as int,
        s.len() as int);
    s.subrange(lo, hi)
}

/// The bytes of chunk `i` of a store's snapshot.
pub open spec fn snapshot_chunk_bytes(s: StoreModel, i: int) -> Seq<u8> {
    encode_entries(snapshot_chunk_entries(s, i))
}

/// What `offer_snapshot` does: accept a first-format snapshot with a sane
/// chunk count when no block is executing, clearing the state and recording
/// the restore target; reject anything else untouched.
pub open spec fn offer_snapshot_step(m: AppModel, height: u64, format: u32, chunks: u32) -> (
    AppModel,
    OfferSnapshotResult,
) {
    if m.block_open {
        (m, OfferSnapshotResult::Reject)
    } else if format != SNAPSHOT_FORMAT {
        (m, OfferSnapshotResult::RejectFormat)
    } else if chunks == 0 {
        (m, OfferSnapshotResult::Reject)
    } else {
        (
            AppModel {
                restore: Some(
                    RestoreModel { height, chunk_count: chunks, next_chunk: 0 },
                ),
                ..app_init()
            },
            OfferSnapshotResult::Accept,
        )
    }
}

/// What `apply_snapshot_chunk` does: with a restore in progress, the chunk
/// the application asked for next is decoded and its bindings merged; the
/// final chunk completes the restore and moves to the restored height. A
/// chunk out of the dictated order asks for a retry, undecodable bytes ask
/// for the snapshot to be retried, and a chunk that would overflow the
/// store rejects the snapshot; none of these changes the state.
pub open spec fn apply_snapshot_chunk_step(m: AppModel, index: u32, chunk: Seq<u8>) -> (
    AppModel,
    ApplySnapshotChunkResult,
) {
    match m.restore {
        None => (m, ApplySnapshotChunkResult::Abort),
        Some(rs) => {
            if index != rs.next_chunk {
                (m, ApplySnapshotChunkResult::Retry)
            } else {
                match decode_entries(chunk) {
                    None => (m, ApplySnapshotChunkResult::RetrySnapshot),
                    Some(es) => {
                        if m.committed.len() + es.len() >= 0xFFFF_FFFF {
                            (m, ApplySnapshotChunkResult::RejectSnapshot)
                        } else {
                            let c = store_insert_all(m.committed, es);
                            if rs.next_chunk + 1 == rs.chunk_count {
                                (
                                    AppModel {
                                        committed: c,
                                        height: rs.height,
                                        restore: None,
                                        ..m
                                    },
                                    ApplySnapshotChunkResult::Accept,
                                )
                            } else {
                                (
                                    AppModel {
                                        committed: c,
                                        restore: Some(
                                            RestoreModel {
                                                next_chunk: (rs.next_chunk + 1) as u32,
                                                ..rs
                                            },
                                        ),
                                        ..m
                                    },
                                    ApplySnapshotChunkResult::Accept,
                                )
                            }
                        }
                    },
                }
            }
        },
    }
}

/// The state after any one request, composed from the per-operation
/// transitions; read-only operations leave it unchanged.
pub open spec fn kv_transition(m: AppModel, v: RequestValue) -> AppModel {
    match v {
        RequestValue::InitChain(r) => init_chain_step(m, r.app_state_bytes@),
        RequestValue::BeginBlock(r) => begin_block_step(m, r.height),
        RequestValue::DeliverTx(r) => deliver_tx_step(m, r.tx@).0,
        RequestValue::Commit => commit_step(m).0,
        RequestValue::OfferSnapshot(r) => offer_snapshot_step(
            m,
            r.snapshot.height,
            r.snapshot.format,
            r.snapshot.chunks,
        ).0,
        RequestValue::ApplySnapshotChunk(r) => apply_snapshot_chunk_step(m, r.index, r.chunk@).0,
        _ => m,
    }
}

/// The state after a whole request sequence, first to last.
pub open spec fn kv_run(m: AppModel, reqs: Seq<RequestValue>) -> AppModel
    decreases reqs.len(),
{
    if reqs.len() == 0 {
        m
    } else {
        kv_run(kv_transition(m, reqs[0]), reqs.drop_first())
    }
}

/// The observable content of a response: every field, with byte vectors and
/// strings taken as sequences. Two responses with the same model are
/// byte-identical on the wire.
#[verifier::ext_equal]
pub ghost enum ResponseModel {
    Echo { message: Seq<char> },
    Flush,
    Info {
        data: Seq<char>,
        version: Seq<char>,
        app_version: u64,
        last_block_height: u64,
        last_block_app_hash: Seq<u8>,
    },
    SetOption { code: u32, log: Seq<char> },
    InitChain,
    Query { code: u32, log: Seq<char>, key: Seq<u8>, value: Seq<u8>, height: u64 },
    BeginBlock,
    CheckTx { code: u32, log: Seq<char> },
    DeliverTx { code: u32, log: Seq<char> },
    EndBlock,
    Commit { data: Seq<u8> },
    ListSnapshots { snapshots: Seq<(u64, u32, u32, Seq<u8>)> },
    OfferSnapshot { result: OfferSnapshotResult },
    LoadSnapshotChunk { chunk: Seq<u8> },
    ApplySnapshotChunk {
        result: ApplySnapshotChunkResult,
        refetch_chunks: Seq<u32>,
        reject_senders: Seq<Seq<char>>,
    },
}

/// The observable content of a populated response variant.
pub open spec fn response_model(v: ResponseValue) -> ResponseModel {
    match v {
        ResponseValue::Echo(r) => ResponseModel::Echo { message: r.message@ },
        ResponseValue::Flush(_) => ResponseModel::Flush,
        ResponseValue::Info(r) => ResponseModel::Info {
            data: r.data@,
            version: r.version@,
            app_version: r.app_version,
            last_block_height: r.last_block_height,
            last_block_app_hash: r.last_block_app_hash@,
        },
        ResponseValue::SetOption(r) => ResponseModel::SetOption { code: r.code, log: r.log@ },
        ResponseValue::InitChain(_) => ResponseModel::InitChain,
        ResponseValue::Query(r) => ResponseModel::Query {
            code: r.code,
            log: r.log@,
            key: r.key@,
            value: r.value@,
            height: r.height,
        },
        ResponseValue::BeginBlock(_) => ResponseModel::BeginBlock,
        ResponseValue::CheckTx(r) => ResponseModel::CheckTx { code: r.code, log: r.log@ },
        ResponseValue::DeliverTx(r) => ResponseModel::DeliverTx { code: r.code, log: r.log@ },
        ResponseValue::EndBlock(_) => ResponseModel::EndBlock,
        ResponseValue::Commit(r) => ResponseModel::Commit { data: r.data@ },
        ResponseValue::ListSnapshots(r) => ResponseModel::ListSnapshots {
            snapshots: r.snapshots@.map(
                |i: int, s: SnapshotMeta| (s.height, s.format, s.chunks, s.hash@),
            ),
        },
        ResponseValue::OfferSnapshot(r) => ResponseModel::OfferSnapshot { result: r.result },
        ResponseValue::LoadSnapshotChunk(r) => ResponseModel::LoadSnapshotChunk {
            chunk: r.chunk@,
        },
        ResponseValue::ApplySnapshotChunk(r) => ResponseModel::ApplySnapshotChunk {
            result: r.result,
            refetch_chunks: r.refetch_chunks@,
            reject_senders: r.reject_senders@.map(|i: int, s: String| s@),
        },
    }
}

/// What the key/value application answers to any one request: a function of
/// the state and the request alone — the determinism contract in one place.
pub open spec fn kv_respond(m: AppModel, v: RequestValue) -> ResponseModel {
    match v {
        RequestValue::Echo(r) => ResponseModel::Echo { message: r.message@ },
        RequestValue::Flush => ResponseModel::Flush,
        RequestValue::Info(_) => ResponseModel::Info {
            data: Seq::<char>::empty(),
            version: Seq::<char>::empty(),
            app_version: 1,
            last_block_height: m.height,
            last_block_app_hash: u64_be_bytes(m.height),
        },
        RequestValue::SetOption(_) => ResponseModel::SetOption {
            code: 0,
            log: Seq::<char>::empty(),
        },
        RequestValue::InitChain(_) => ResponseModel::InitChain,
        RequestValue::Query(r) => ResponseModel::Query {
            code: query_code(m, r.data@),
            log: Seq::<char>::empty(),
            key: r.data@,
            value: query_value(m, r.data@),
            height: m.height,
        },
        RequestValue::BeginBlock(_) => ResponseModel::BeginBlock,
        RequestValue::CheckTx(r) => ResponseModel::CheckTx {
            code: tx_shape_code(r.tx@),
            log: Seq::<char>::empty(),
        },
        RequestValue::DeliverTx(r) => ResponseModel::DeliverTx {
            code: deliver_tx_step(m, r.tx@).1,
            log: Seq::<char>::empty(),
        },
        RequestValue::EndBlock(_) => ResponseModel::EndBlock,
        RequestValue::Commit => ResponseModel::Commit { data: commit_step(m).1 },
        RequestValue::ListSnapshots => ResponseModel::ListSnapshots {
            snapshots: if m.height > 0 {
                seq![
                    (
                        m.height,
                        SNAPSHOT_FORMAT,
                        snapshot_chunk_count(m.committed) as u32,
                        u64_be_bytes(m.height),
                    ),
                ]
            } else {
                Seq::<(u64, u32, u32, Seq<u8>)>::empty()
            },
        },
        RequestValue::OfferSnapshot(r) => ResponseModel::OfferSnapshot {
            result: offer_snapshot_step(
                m,
                r.snapshot.height,
                r.snapshot.format,
                r.snapshot.chunks,
            ).1,
        },
        RequestValue::LoadSnapshotChunk(r) => ResponseModel::LoadSnapshotChunk {
            chunk: if r.height == m.height && m.height > 0 && r.format == SNAPSHOT_FORMAT
                && r.chunk < snapshot_chunk_count(m.committed) {
                snapshot_chunk_bytes(m.committed, r.chunk as int)
            } else {
                Seq::<u8>::empty()
            },
        },
        RequestValue::ApplySnapshotChunk(r) => ResponseModel::ApplySnapshotChunk {
            result: apply_snapshot_chunk_step(m, r.index, r.chunk@).1,
            refetch_chunks: Seq::<u32>::empty(),
            reject_senders: Seq::<Seq<char>>::empty(),
        },
    }
}

/// Looking past a prefix without `'='` shifts the found position.
proof fn lemma_find_eq_skip(tx: Seq<u8>, i: int)
    requires
        0 <= i <= tx.len(),
        forall|j: int| 0 <= j < i ==> tx[j] != 61,
    ensures
        find_eq(tx) == match find_eq(tx.skip(i)) {
            Some(p) => Some(p + i),
            None => None::<int>,
        },
    decreases i,
{
    if i == 0 {
        assert(tx.skip(0) =~= tx);
    } else {
        lemma_find_eq_skip(tx, i - 1);
        let s1 = tx.skip(i - 1);
        assert(s1[0] == tx[i - 1]);
        assert(tx[i - 1] != 61);
        assert(s1.drop_first() =~= tx.skip(i));
    }
}

/// The position of the first `'='` in the bytes, computed.
fn find_eq_exec(tx: &Vec<u8>) -> (r: Option<usize>)
    ensures
        r matches Some(i) ==> find_eq(tx@) == Some(i as int) && i < tx@.len(),
        r is None ==> find_eq(tx@) is None,
{
    let n = tx.len();
    let mut i: usize = 0;
    while i < n
        invariant
            0 <= i <= n,
            n == tx@.len(),
            forall|j: int| 0 <= j < i ==> tx@[j] != 61,
        decreases n - i,
    {
        if tx[i] == 61 {
            proof {
                lemma_find_eq_skip(tx@, i as int);
                assert(tx@.skip(i as int)[0] == tx@[i as int]);
            }
            return Some(i);
        }
        i += 1;
    }
    proof {
        lemma_find_eq_skip(tx@, n as int);
        assert(tx@.skip(n as int) =~= Seq::<u8>::empty());
    }
    None
}

/// Determinism law: two independent executions fed an identical ordered
/// request sequence from identical states traverse identical states, and at
/// every step the response content — `kv_respond` of the state and request,
/// which `handle` is proved to return — is identical too.
pub proof fn lemma_determinism(
    m1: AppModel,
    m2: AppModel,
    reqs1: Seq<RequestValue>,
    reqs2: Seq<RequestValue>,
)
    requires
        m1 == m2,
        reqs1 == reqs2,
    ensures
        kv_run(m1, reqs1) == kv_run(m2, reqs2),
        forall|i: int| 0 <= i < reqs1.len() ==> kv_respond(
            kv_run(m1, reqs1.take(i)),
            reqs1[i],
        ) == kv_respond(kv_run(m2, reqs2.take(i)), reqs2[i]),
{
}

/// Isolation law: a transaction delivered into the open block's context
/// changes no query result and no query code; only commit makes it visible.
pub proof fn lemma_query_isolation(m: AppModel, tx: Seq<u8>, key: Seq<u8>)
    ensures
        query_value(deliver_tx_step(m, tx).0, key) == query_value(m, key),
        query_code(deliver_tx_step(m, tx).0, key) == query_code(m, key),
{
    assert(deliver_tx_step(m, tx).0.committed == m.committed);
}

/// Commit-twice law: a second commit without an intervening `begin_block`
/// leaves the state untouched and returns the same digest — effects are
/// never re-applied.
pub proof fn lemma_commit_idempotent(m: AppModel)
    ensures
        commit_step(commit_step(m).0).0 == commit_step(m).0,
        commit_step(commit_step(m).0).1 == commit_step(m).1,
{
    assert(!commit_step(m).0.block_open);
}

/// Write-then-read law, the end-to-end scenario in the small: opening a
/// block, delivering `key '=' value` and committing makes a query for that
/// key return exactly that value, at the committed block's height.
pub proof fn lemma_committed_write_is_read(m: AppModel, h: u64, tx: Seq<u8>)
    requires
        find_eq(tx) is Some,
        tx.len() <= 0xFFFF_FFFE,
        m.committed.len() < 0xFFFF_FFFE,
    ensures
        ({
            let opened = begin_block_step(m, h);
            let (delivered, code) = deliver_tx_step(opened, tx);
            let landed = commit_step(delivered).0;
            &&& code == CODE_OK
            &&& query_code(landed, tx_key(tx)) == CODE_OK
            &&& query_value(landed, tx_key(tx)) == tx_value(tx)
            &&& landed.height == h
        }),
{
    let opened = begin_block_step(m, h);
    let (delivered, code) = deliver_tx_step(opened, tx);
    let k = tx_key(tx);
    let v = tx_value(tx);
    let empty_store = Seq::<(Seq<u8>, Seq<u8>)>::empty();
    assert(delivered.pending == store_insert(empty_store, k, v));
    assert(store_insert(empty_store, k, v) == seq![(k, v)]);
    let landed = commit_step(delivered).0;
    assert(seq![(k, v)].drop_first() =~= empty_store);
    assert(landed.committed == store_insert_all(m.committed, seq![(k, v)]));
    assert(seq![(k, v)][0] == (k, v));
    assert(store_insert_all(store_insert(m.committed, k, v), empty_store) == store_insert(
        m.committed,
        k,
        v,
    ));
    assert(landed.committed == store_insert(m.committed, k, v));
    crate::store::lemma_store_insert_get(m.committed, k, v, k);
}

/// The state after the first `j` chunks of the snapshot of `src` have been
/// applied, in the dictated order, to a node that accepted the offer.
pub open spec fn apply_chunks(m: AppModel, src: StoreModel, j: int) -> AppModel
    decreases j,
{
    if j <= 0 {
        m
    } else {
        apply_snapshot_chunk_step(
            apply_chunks(m, src, j - 1),
            (j - 1) as u32,
            snapshot_chunk_bytes(src, j - 1),
        ).0
    }
}

/// A slice of a well-formed binding sequence keeps its length bounds.
proof fn lemma_subrange_bounded(src: StoreModel, lo: int, hi: int)
    requires
        store_lengths_bounded(src),
        0 <= lo <= hi <= src.len(),
    ensures
        store_lengths_bounded(src.subrange(lo, hi)),
{
    assert(forall|i: int| 0 <= i < hi - lo ==> src.subrange(lo, hi)[i] == src[lo + i]);
}

/// A node mid-restore: the first `min(4 j, len)` bindings of the source
/// are in place and chunk `j` is demanded next.
pub open spec fn restore_partial(src: StoreModel, h: u64, j: int) -> AppModel {
    AppModel {
        committed: src.take(
            vstd::math::min(SNAPSHOT_CHUNK_ENTRIES as int * j, src.len() as int),
        ),
        restore: Some(
            RestoreModel {
                height: h,
                chunk_count: snapshot_chunk_count(src) as u32,
                next_chunk: j as u32,
            },
        ),
        ..app_init()
    }
}

/// A node whose restore has completed: the whole source at its height.
pub open spec fn restore_done(src: StoreModel, h: u64) -> AppModel {
    AppModel { committed: src, height: h, ..app_init() }
}

/// The chunk count is at least one and fits the metadata's 32 bits, and
/// four chunks of four bindings cover the whole source.
proof fn lemma_chunk_count_bounds(src: StoreModel)
    requires
        src.len() < 0xFFFF_FFFF,
    ensures
        1 <= snapshot_chunk_count(src) < 0x1_0000_0000,
        SNAPSHOT_CHUNK_ENTRIES as int * snapshot_chunk_count(src) >= src.len(),
{
    let len = src.len() as int;
    if len > 0 {
        vstd::arithmetic::div_mod::lemma_fundamental_div_mod(len + 3, 4);
    }
}

/// Applying the one chunk a mid-restore node demands moves it one chunk
/// further, and the last chunk completes the restore.
#[verifier::rlimit(100)]
proof fn lemma_restore_step(src: StoreModel, h: u64, j: int)
    requires
        store_keys_unique(src),
        store_lengths_bounded(src),
        src.len() < 0xFFFF_FFFF,
        0 <= j < snapshot_chunk_count(src),
    ensures
        ({
            let step = apply_snapshot_chunk_step(
                restore_partial(src, h, j),
                j as u32,
                snapshot_chunk_bytes(src, j),
            );
            &&& step.1 == ApplySnapshotChunkResult::Accept
            &&& step.0 == if j + 1 < snapshot_chunk_count(src) {
                restore_partial(src, h, j + 1)
            } else {
                restore_done(src, h)
            }
        }),
{
    let len = src.len() as int;
    let count = snapshot_chunk_count(src);
    lemma_chunk_count_bounds(src);
    let mprev = restore_partial(src, h, j);
    let lo = vstd::math::min(4 * j, len);
    let hi = vstd::math::min(4 * j + 4, len);
    let entries = snapshot_chunk_entries(src, j);
    assert(entries == src.subrange(lo, hi));
    lemma_subrange_bounded(src, lo, hi);
    lemma_decode_encode(entries);
    assert(decode_entries(snapshot_chunk_bytes(src, j)) == Some(entries));
    assert(mprev.committed == src.take(lo));
    assert(mprev.committed.len() + entries.len() <= src.len());
    assert(src.take(lo) + src.subrange(lo, hi) =~= src.take(hi)) by {
        assert(forall|t: int| 0 <= t < hi ==> src.take(hi)[t] == src[t]);
    }
    lemma_store_prefix_wf(src, hi);
    lemma_store_rebuild(src.take(lo), src.subrange(lo, hi));
    assert(store_insert_all(mprev.committed, entries) == src.take(hi));
    if j + 1 == count {
        assert(hi == len);
        assert(src.take(len) =~= src);
    } else {
        assert(hi == vstd::math::min(4 * (j + 1), len));
    }
}

/// How a restore progresses, chunk by chunk: after `j` chunks the node is
/// mid-restore with the first `j` chunks' bindings in place, and after the
/// last chunk it holds the whole source at the restored height.
proof fn lemma_apply_chunks_progress(src: StoreModel, h: u64, j: int)
    requires
        store_keys_unique(src),
        store_lengths_bounded(src),
        src.len() < 0xFFFF_FFFF,
        0 <= j <= snapshot_chunk_count(src),
    ensures
        apply_chunks(restore_partial(src, h, 0), src, j) == if j < snapshot_chunk_count(src) {
            restore_partial(src, h, j)
        } else {
            restore_done(src, h)
        },
    decreases j,
{
    lemma_chunk_count_bounds(src);
    if j == 0 {
        assert(apply_chunks(restore_partial(src, h, 0), src, 0) == restore_partial(src, h, 0));
    } else {
        lemma_apply_chunks_progress(src, h, j - 1);
        lemma_restore_step(src, h, j - 1);
    }
}

/// State-sync equivalence law: a fresh node that accepts the offered
/// snapshot of a state and applies all its chunks in the dictated order
/// ends with exactly that state's committed store at that state's height,
/// so every query it answers equals the answer of the node the snapshot was
/// taken from.
pub proof fn lemma_state_sync_equivalence(m: AppModel)
    requires
        app_wf(m),
    ensures
        ({
            let count = snapshot_chunk_count(m.committed);
            let offered = offer_snapshot_step(
                app_init(),
                m.height,
                SNAPSHOT_FORMAT,
                count as u32,
            );
            let restored = apply_chunks(offered.0, m.committed, count);
            &&& offered.1 == OfferSnapshotResult::Accept
            &&& restored.committed == m.committed
            &&& restored.height == m.height
            &&& restored.restore is None
            &&& forall|key: Seq<u8>| query_value(restored, key) == query_value(m, key)
                && query_code(restored, key) == query_code(m, key)
        }),
{
    let count = snapshot_chunk_count(m.committed);
    let len = m.committed.len() as int;
    assert(1 <= count < 0x1_0000_0000) by {
        if len > 0 {
            vstd::arithmetic::div_mod::lemma_fundamental_div_mod(len + 3, 4);
        }
    }
    let offered = offer_snapshot_step(app_init(), m.height, SNAPSHOT_FORMAT, count as u32);
    assert(m.committed.take(vstd::math::min(0, len)) =~= Seq::<(Seq<u8>, Seq<u8>)>::empty());
    assert(offered.0 == restore_partial(m.committed, m.height, 0));
    lemma_apply_chunks_progress(m.committed, m.height, count);
}

/// The key/value application: a committed store, the pending context of the
/// open block, and the restore bookkeeping of a state sync in progress.
pub struct KeyValueStoreApp {
    committed: Store,
    pending: Store,
    height: u64,
    block_open: bool,
    working_height: u64,
    restore_height: u64,
    restore_chunk_count: u32,
    restore_next_chunk: u32,
    restoring: bool,
}

impl View for KeyValueStoreApp {
    type V = AppModel;

    closed spec fn view(&self) -> AppModel {
        AppModel {
            committed: self.committed@,
            pending: self.pending@,
            height: self.height,
            block_open: self.block_open,
            working_height: self.working_height,
            restore: if self.restoring {
                Some(
                    RestoreModel {
                        height: self.restore_height,
                        chunk_count: self.restore_chunk_count,
                        next_chunk: self.restore_next_chunk,
                    },
                )
            } else {
                None
            },
        }
    }
}

impl KeyValueStoreApp {
    /// A fresh application: nothing committed, nothing pending, height
    /// zero.
    pub fn new() -> (app: KeyValueStoreApp)
        ensures
            app@ == app_init(),
            app_wf(app@),
    {
        let app = KeyValueStoreApp {
            committed: Store::new(),
            pending: Store::new(),
            height: 0,
            block_open: false,
            working_height: 0,
            restore_height: 0,
            restore_chunk_count: 0,
            restore_next_chunk: 0,
            restoring: false,
        };
        proof {
            assert(app@ =~= app_init());
        }
        app
    }
}

impl Application for KeyValueStoreApp {
    open spec fn inv(&self) -> bool {
        app_wf(self@)
    }

    /// Report the last committed height and its digest, so a restarting
    /// driver can resynchronize.
    fn info(&self, _request: RequestInfo) -> (response: ResponseInfo)
        ensures
            response.data@ == Seq::<char>::empty(),
            response.version@ == Seq::<char>::empty(),
            response.app_version == 1,
            response.last_block_height == self@.height,
            response.last_block_app_hash@ == u64_be_bytes(self@.height),
    {
        ResponseInfo {
            data: String::new(),
            version: String::new(),
            app_version: 1,
            last_block_height: self.height,
            last_block_app_hash: u64_be_bytes_exec(self.height),
        }
    }

    /// Answer from the committed store only: bindings delivered in the open
    /// block are not yet visible here.
    fn query(&self, request: RequestQuery) -> (response: ResponseQuery)
        ensures
            response.code == query_code(self@, request.data@),
            response.log@ == Seq::<char>::empty(),
            response.key@ == request.data@,
            response.value@ == query_value(self@, request.data@),
            response.height == self@.height,
    {
        let (code, value) = match self.committed.get(&request.data) {
            Some(v) => (CODE_OK, v),
            None => (CODE_NOT_FOUND, Vec::new()),
        };
        ResponseQuery {
            code,
            log: String::new(),
            key: request.data,
            value,
            height: self.height,
        }
    }

    /// Validate the shape of a transaction without touching any state.
    fn check_tx(&self, request: RequestCheckTx) -> (response: ResponseCheckTx)
        ensures
            response.code == tx_shape_code(request.tx@),
            response.log@ == Seq::<char>::empty(),
    {
        let code: u32 = if request.tx.len() > 0xFFFF_FFFE {
            CODE_OVERSIZE
        } else {
            match find_eq_exec(&request.tx) {
                None => CODE_BAD_TX,
                Some(_) => CODE_OK,
            }
        };
        ResponseCheckTx { code, log: String::new() }
    }

    /// Open a fresh execution context for the block's height.
    fn begin_block(&mut self, request: RequestBeginBlock) -> (response: ResponseBeginBlock)
        ensures
            final(self)@ == begin_block_step(old(self)@, request.height),
            response == (ResponseBeginBlock {}),
    {
        self.pending.clear();
        self.block_open = true;
        self.working_height = request.height;
        self.restoring = false;
        ResponseBeginBlock {}
    }

    /// Apply a `key '=' value` transaction to the open block's context; the
    /// response code says exactly why a transaction was not applied.
    fn deliver_tx(&mut self, request: RequestDeliverTx) -> (response: ResponseDeliverTx)
        ensures
            final(self)@ == deliver_tx_step(old(self)@, request.tx@).0,
            response.code == deliver_tx_step(old(self)@, request.tx@).1,
            response.log@ == Seq::<char>::empty(),
    {
        let ghost m = old(self)@;
        if !self.block_open {
            return ResponseDeliverTx { code: CODE_NO_BLOCK, log: String::new() };
        }
        let n = request.tx.len();
        if n > 0xFFFF_FFFE {
            return ResponseDeliverTx { code: CODE_OVERSIZE, log: String::new() };
        }
        let p = match find_eq_exec(&request.tx) {
            None => {
                return ResponseDeliverTx { code: CODE_BAD_TX, log: String::new() };
            },
            Some(p) => p,
        };
        if self.committed.len() + self.pending.len() >= 0xFFFF_FFFE {
            return ResponseDeliverTx { code: CODE_FULL, log: String::new() };
        }
        let key = crate::codec::copy_range(&request.tx, 0, p);
        let value = crate::codec::copy_range(&request.tx, p + 1, n - p - 1);
        proof {
            assert(key@ =~= tx_key(request.tx@));
            assert(value@ =~= tx_value(request.tx@));
        }
        self.pending.insert(key, value);
        proof {
            lemma_store_insert_keys(m.pending, tx_key(request.tx@), tx_value(request.tx@));
            lemma_store_insert_len(m.pending, tx_key(request.tx@), tx_value(request.tx@));
            assert(self@ == deliver_tx_step(m, request.tx@).0);
        }
        ResponseDeliverTx { code: CODE_OK, log: String::new() }
    }

    /// Start over from genesis: the genesis bindings, if they decode,
    /// become the committed state at height zero. Identical genesis bytes
    /// land in an identical state, so a driver retry is harmless.
    fn init_chain(&mut self, request: RequestInitChain) -> (response: ResponseInitChain)
        ensures
            final(self)@ == init_chain_step(old(self)@, request.app_state_bytes@),
            response == (ResponseInitChain {}),
    {
        let decoded = decode_entries_from(&request.app_state_bytes, 0);
        proof {
            assert(request.app_state_bytes@.skip(0) =~= request.app_state_bytes@);
        }
        self.pending.clear();
        self.height = 0;
        self.block_open = false;
        self.working_height = 0;
        self.restore_height = 0;
        self.restore_chunk_count = 0;
        self.restore_next_chunk = 0;
        self.restoring = false;
        match decoded {
            None => {
                self.committed.clear();
                proof {
                    assert(self@ == app_init());
                }
            },
            Some(es) => {
                proof {
                    lemma_decode_lengths_bounded(request.app_state_bytes@);
                    lemma_entries_view(es);
                }
                let ghost esm = es.deep_view();
                let ghost empty_store = Seq::<(Seq<u8>, Seq<u8>)>::empty();
                self.committed.clear();
                let n = es.len();
                let mut i: usize = 0;
                proof {
                    assert(esm.take(0) =~= empty_store);
                }
                while i < n
                    invariant
                        0 <= i <= n,
                        esm == es.deep_view(),
                        n == esm.len(),
                        n == es@.len(),
                        forall|j: int| 0 <= j < n ==> esm[j] == (es@[j].0@, es@[j].1@),
                        empty_store == Seq::<(Seq<u8>, Seq<u8>)>::empty(),
                        self@.committed == store_insert_all(empty_store, esm.take(i as int)),
                        self@.pending == empty_store,
                        self@.height == 0,
                        self@.block_open == false,
                        self@.working_height == 0,
                        self@.restore is None,
                    decreases n - i,
                {
                    let key = es[i].0.clone();
                    let value = es[i].1.clone();
                    self.committed.insert(key, value);
                    proof {
                        lemma_store_insert_all_snoc(empty_store, esm.take(i as int), esm[i as int]);
                        assert(esm.take(i as int).push(esm[i as int]) =~= esm.take(i as int + 1));
                    }
                    i += 1;
                }
                proof {
                    assert(esm.take(n as int) =~= esm);
                    lemma_store_insert_all_wf(empty_store, esm);
                }
                if self.committed.len() >= 0xFFFF_FFFF {
                    self.committed.clear();
                    proof {
                        assert(self@ == app_init());
                    }
                } else {
                    proof {
                        assert(self@ == init_chain_step(old(self)@, request.app_state_bytes@));
                    }
                }
            },
        }
        ResponseInitChain {}
    }

    /// Enumerate the snapshot this node can serve: its current committed
    /// state, once some height has been committed.
    fn list_snapshots(&self) -> (response: ResponseListSnapshots)
        ensures
            self@.height == 0 ==> response.snapshots@ == Seq::<SnapshotMeta>::empty(),
            self@.height > 0 ==> response.snapshots@.len() == 1 && response.snapshots@[0].height
                == self@.height && response.snapshots@[0].format == SNAPSHOT_FORMAT
                && response.snapshots@[0].chunks == snapshot_chunk_count(self@.committed) as u32
                && response.snapshots@[0].hash@ == u64_be_bytes(self@.height),
    {
        if self.height == 0 {
            let snapshots: Vec<SnapshotMeta> = Vec::new();
            proof {
                assert(snapshots@ =~= Seq::<SnapshotMeta>::empty());
            }
            return ResponseListSnapshots { snapshots };
        }
        let n = self.committed.len();
        let chunks64: u64 = if n == 0 {
            1
        } else {
            ((n as u64) + (SNAPSHOT_CHUNK_ENTRIES as u64 - 1)) / (SNAPSHOT_CHUNK_ENTRIES as u64)
        };
        proof {
            assert(chunks64 == snapshot_chunk_count(self@.committed));
            assert(chunks64 < 0x1_0000_0000);
        }
        let meta = SnapshotMeta {
            height: self.height,
            format: SNAPSHOT_FORMAT,
            chunks: chunks64 as u32,
            hash: u64_be_bytes_exec(self.height),
        };
        let mut snapshots: Vec<SnapshotMeta> = Vec::new();
        snapshots.push(meta);
        ResponseListSnapshots { snapshots }
    }

    /// Serve one chunk of the snapshot of the current committed state,
    /// verbatim as `apply_snapshot_chunk` on a bootstrapping peer expects
    /// it; anything this node cannot serve is an empty chunk.
    fn load_snapshot_chunk(&self, request: RequestLoadSnapshotChunk) -> (response:
        ResponseLoadSnapshotChunk)
        ensures
            (request.height == self@.height && self@.height > 0 && request.format
                == SNAPSHOT_FORMAT && (request.chunk as int) < snapshot_chunk_count(
                self@.committed,
            )) ==> response.chunk@ == snapshot_chunk_bytes(self@.committed, request.chunk as int),
            !(request.height == self@.height && self@.height > 0 && request.format
                == SNAPSHOT_FORMAT && (request.chunk as int) < snapshot_chunk_count(
                self@.committed,
            )) ==> response.chunk@ == Seq::<u8>::empty(),
    {
        if request.format != SNAPSHOT_FORMAT || self.height == 0 || request.height != self.height {
            let chunk: Vec<u8> = Vec::new();
            proof {
                assert(chunk@ =~= Seq::<u8>::empty());
            }
            return ResponseLoadSnapshotChunk { chunk };
        }
        let n = self.committed.len();
        let chunks64: u64 = if n == 0 {
            1
        } else {
            ((n as u64) + (SNAPSHOT_CHUNK_ENTRIES as u64 - 1)) / (SNAPSHOT_CHUNK_ENTRIES as u64)
        };
        proof {
            assert(chunks64 == snapshot_chunk_count(self@.committed));
        }
        if (request.chunk as u64) >= chunks64 {
            let chunk: Vec<u8> = Vec::new();
            proof {
                assert(chunk@ =~= Seq::<u8>::empty());
            }
            return ResponseLoadSnapshotChunk { chunk };
        }
        let c64: u64 = request.chunk as u64;
        proof {
            assert((SNAPSHOT_CHUNK_ENTRIES as u64) * c64 <= 4 * 0xFFFF_FFFFu64)
                by (nonlinear_arith)
                requires
                    c64 <= 0xFFFF_FFFF,
            ;
        }
        let lo64: u64 = (SNAPSHOT_CHUNK_ENTRIES as u64) * c64;
        proof {
            assert(SNAPSHOT_CHUNK_ENTRIES == 4);
            if n == 0 {
                assert(c64 == 0);
            } else {
                let x = (n + 3) as int;
                vstd::arithmetic::div_mod::lemma_fundamental_div_mod(x, 4);
                assert(4 * (x / 4) <= x);
                assert(c64 + 1 <= chunks64);
                assert(lo64 == 4 * c64);
                assert(4 * c64 <= 4 * chunks64 - 4) by (nonlinear_arith)
                    requires
                        c64 + 1 <= chunks64,
                ;
            }
            assert(lo64 <= n as u64);
        }
        let hi64: u64 = if lo64 + (SNAPSHOT_CHUNK_ENTRIES as u64) > (n as u64) {
            n as u64
        } else {
            lo64 + (SNAPSHOT_CHUNK_ENTRIES as u64)
        };
        let lo = lo64 as usize;
        let hi = hi64 as usize;
        let mut sel: Vec<StoreEntry> = Vec::new();
        let mut j: usize = lo;
        while j < hi
            invariant
                lo <= j <= hi,
                hi <= self@.committed.len(),
                sel@.len() == j - lo,
                forall|t: int| 0 <= t < sel@.len() ==> (sel@[t].0@, sel@[t].1@)
                    == self@.committed[lo + t],
            decreases hi - j,
        {
            let e = self.committed.entry_at(j);
            sel.push(e);
            j += 1;
        }
        proof {
            lemma_entries_view(sel);
            assert(sel.deep_view() =~= self@.committed.subrange(lo as int, hi as int));
            assert(sel.deep_view() =~= snapshot_chunk_entries(
                self@.committed,
                request.chunk as int,
            ));
            assert(store_lengths_bounded(sel.deep_view()));
        }
        let chunk = encode_entries_exec(&sel);
        ResponseLoadSnapshotChunk { chunk }
    }

    /// Accept or reject an offered snapshot; accepting clears the state and
    /// records the restore target without yet allocating anything for the
    /// chunks to come.
    fn offer_snapshot(&mut self, request: RequestOfferSnapshot) -> (response: ResponseOfferSnapshot)
        ensures
            final(self)@ == offer_snapshot_step(
                old(self)@,
                request.snapshot.height,
                request.snapshot.format,
                request.snapshot.chunks,
            ).0,
            response.result == offer_snapshot_step(
                old(self)@,
                request.snapshot.height,
                request.snapshot.format,
                request.snapshot.chunks,
            ).1,
    {
        if self.block_open {
            return ResponseOfferSnapshot { result: OfferSnapshotResult::Reject };
        }
        if request.snapshot.format != SNAPSHOT_FORMAT {
            return ResponseOfferSnapshot { result: OfferSnapshotResult::RejectFormat };
        }
        if request.snapshot.chunks == 0 {
            return ResponseOfferSnapshot { result: OfferSnapshotResult::Reject };
        }
        self.committed.clear();
        self.pending.clear();
        self.height = 0;
        self.block_open = false;
        self.working_height = 0;
        self.restoring = true;
        self.restore_height = request.snapshot.height;
        self.restore_chunk_count = request.snapshot.chunks;
        self.restore_next_chunk = 0;
        ResponseOfferSnapshot { result: OfferSnapshotResult::Accept }
    }

    /// Apply the chunk the application asked for next; the result signals
    /// retry for an out-of-order chunk, a snapshot retry for undecodable
    /// bytes, rejection for a chunk that would overflow the store, and
    /// acceptance otherwise. The final chunk completes the restore.
    fn apply_snapshot_chunk(&mut self, request: RequestApplySnapshotChunk) -> (response:
        ResponseApplySnapshotChunk)
        ensures
            final(self)@ == apply_snapshot_chunk_step(old(self)@, request.index, request.chunk@).0,
            response.result == apply_snapshot_chunk_step(
                old(self)@,
                request.index,
                request.chunk@,
            ).1,
            response.refetch_chunks@ == Seq::<u32>::empty(),
            response.reject_senders@ == Seq::<String>::empty(),
    {
        let ghost m = old(self)@;
        let refetch_chunks: Vec<u32> = Vec::new();
        let reject_senders: Vec<String> = Vec::new();
        proof {
            assert(refetch_chunks@ =~= Seq::<u32>::empty());
            assert(reject_senders@ =~= Seq::<String>::empty());
        }
        if !self.restoring {
            return ResponseApplySnapshotChunk {
                result: ApplySnapshotChunkResult::Abort,
                refetch_chunks,
                reject_senders,
            };
        }
        if request.index != self.restore_next_chunk {
            return ResponseApplySnapshotChunk {
                result: ApplySnapshotChunkResult::Retry,
                refetch_chunks,
                reject_senders,
            };
        }
        let decoded = decode_entries_from(&request.chunk, 0);
        proof {
            assert(request.chunk@.skip(0) =~= request.chunk@);
        }
        let es = match decoded {
            None => {
                return ResponseApplySnapshotChunk {
                    result: ApplySnapshotChunkResult::RetrySnapshot,
                    refetch_chunks,
                    reject_senders,
                };
            },
            Some(es) => es,
        };
        let store_would_overflow: bool = if (es.len() as u64) >= 0xFFFF_FFFF {
            true
        } else {
            (self.committed.len() as u64) + (es.len() as u64) >= 0xFFFF_FFFF
        };
        if store_would_overflow {
            return ResponseApplySnapshotChunk {
                result: ApplySnapshotChunkResult::RejectSnapshot,
                refetch_chunks,
                reject_senders,
            };
        }
        proof {
            lemma_decode_lengths_bounded(request.chunk@);
            lemma_entries_view(es);
        }
        let ghost esm = es.deep_view();
        let n = es.len();
        let mut i: usize = 0;
        proof {
            assert(esm.take(0) =~= Seq::<(Seq<u8>, Seq<u8>)>::empty());
        }
        while i < n
            invariant
                0 <= i <= n,
                esm == es.deep_view(),
                n == esm.len(),
                n == es@.len(),
                forall|j: int| 0 <= j < n ==> esm[j] == (es@[j].0@, es@[j].1@),
                self@.committed == store_insert_all(m.committed, esm.take(i as int)),
                self@.pending == m.pending,
                self@.height == m.height,
                self@.block_open == m.block_open,
                self@.working_height == m.working_height,
                self@.restore == m.restore,
            decreases n - i,
        {
            let key = es[i].0.clone();
            let value = es[i].1.clone();
            self.committed.insert(key, value);
            proof {
                lemma_store_insert_all_snoc(m.committed, esm.take(i as int), esm[i as int]);
                assert(esm.take(i as int).push(esm[i as int]) =~= esm.take(i as int + 1));
            }
            i += 1;
        }
        proof {
            assert(esm.take(n as int) =~= esm);
            lemma_store_insert_all_wf(m.committed, esm);
        }
        let next = self.restore_next_chunk + 1;
        if next == self.restore_chunk_count {
            self.restoring = false;
            self.height = self.restore_height;
        } else {
            self.restore_next_chunk = next;
        }
        ResponseApplySnapshotChunk {
            result: ApplySnapshotChunkResult::Accept,
            refetch_chunks,
            reject_senders,
        }
    }

    /// Close of per-block bookkeeping; this application accumulates no
    /// validator-set changes, so nothing is left to finalize.
    fn end_block(&mut self, _request: RequestEndBlock) -> (response: ResponseEndBlock)
        ensures
            *final(self) == *old(self),
            response == (ResponseEndBlock {}),
    {
        ResponseEndBlock {}
    }

    /// Merge the open block's context into the committed store, move to the
    /// block's height and return the height digest. Without an open block
    /// this is a provable no-op: the same digest comes back and no binding
    /// is applied again.
    fn commit(&mut self) -> (response: ResponseCommit)
        ensures
            final(self)@ == commit_step(old(self)@).0,
            response.data@ == commit_step(old(self)@).1,
    {
        let ghost m = old(self)@;
        if self.block_open {
            let n = self.pending.len();
            let mut i: usize = 0;
            proof {
                assert(m.pending.take(0) =~= Seq::<(Seq<u8>, Seq<u8>)>::empty());
            }
            while i < n
                invariant
                    0 <= i <= n,
                    app_wf(m),
                    m.block_open,
                    n == m.pending.len(),
                    self@.pending == m.pending,
                    self@.committed == store_insert_all(m.committed, m.pending.take(i as int)),
                    self@.height == m.height,
                    self@.block_open == m.block_open,
                    self@.working_height == m.working_height,
                    self@.restore == m.restore,
                decreases n - i,
            {
                let e = self.pending.entry_at(i);
                self.committed.insert(e.0, e.1);
                proof {
                    lemma_store_insert_all_snoc(
                        m.committed,
                        m.pending.take(i as int),
                        m.pending[i as int],
                    );
                    assert(m.pending.take(i as int).push(m.pending[i as int]) =~= m.pending.take(
                        i as int + 1,
                    ));
                }
                i += 1;
            }
            proof {
                assert(m.pending.take(n as int) =~= m.pending);
                lemma_store_insert_all_wf(m.committed, m.pending);
            }
            self.pending.clear();
            self.height = self.working_height;
            self.block_open = false;
            let data = u64_be_bytes_exec(self.height);
            proof {
                assert(self@ == commit_step(m).0);
            }
            ResponseCommit { data }
        } else {
            let data = u64_be_bytes_exec(self.height);
            ResponseCommit { data }
        }
    }

    /// Route the populated variant to its operation. On top of the
    /// dispatcher's contract, the key/value application pins the whole
    /// outcome: the new state is `kv_transition` of the old state and the
    /// request, and the response content is `kv_respond` of them — one call,
    /// one response, nothing dependent on anything but state and input.
    fn handle(&mut self, request: Request) -> (r: Result<Response, ProtocolError>)
        ensures
            request.value matches Some(v) ==> final(self)@ == kv_transition(old(self)@, v),
            request.value matches Some(v) ==> (r matches Ok(resp) && resp.value matches Some(rv)
                && response_model(rv) == kv_respond(old(self)@, v)),
            request.value is None ==> final(self)@ == old(self)@,
    {
        let ghost m = old(self)@;
        match request.value {
            None => Err(ProtocolError::MalformedRequest),
            Some(v) => {
                let rv = match v {
                    RequestValue::Echo(req) => ResponseValue::Echo(self.echo(req)),
                    RequestValue::Flush => ResponseValue::Flush(self.flush()),
                    RequestValue::Info(req) => ResponseValue::Info(self.info(req)),
                    RequestValue::SetOption(req) => ResponseValue::SetOption(self.set_option(req)),
                    RequestValue::InitChain(req) => ResponseValue::InitChain(self.init_chain(req)),
                    RequestValue::Query(req) => ResponseValue::Query(self.query(req)),
                    RequestValue::BeginBlock(req) => ResponseValue::BeginBlock(
                        self.begin_block(req),
                    ),
                    RequestValue::CheckTx(req) => ResponseValue::CheckTx(self.check_tx(req)),
                    RequestValue::DeliverTx(req) => ResponseValue::DeliverTx(self.deliver_tx(req)),
                    RequestValue::EndBlock(req) => ResponseValue::EndBlock(self.end_block(req)),
                    RequestValue::Commit => ResponseValue::Commit(self.commit()),
                    RequestValue::ListSnapshots => {
                        let resp = self.list_snapshots();
                        proof {
                            assert(response_model(ResponseValue::ListSnapshots(resp)) =~~= kv_respond(
                                m,
                                v,
                            ));
                        }
                        ResponseValue::ListSnapshots(resp)
                    },
                    RequestValue::OfferSnapshot(req) => ResponseValue::OfferSnapshot(
                        self.offer_snapshot(req),
                    ),
                    RequestValue::LoadSnapshotChunk(req) => ResponseValue::LoadSnapshotChunk(
                        self.load_snapshot_chunk(req),
                    ),
                    RequestValue::ApplySnapshotChunk(req) => {
                        let resp = self.apply_snapshot_chunk(req);
                        proof {
                            assert(response_model(ResponseValue::ApplySnapshotChunk(resp)) =~~= kv_respond(
                                m,
                                v,
                            ));
                        }
                        ResponseValue::ApplySnapshotChunk(resp)
                    },
                };
                Ok(Response { value: Some(rv) })
            },
        }
    }
}

} // verus!
