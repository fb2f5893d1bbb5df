//! The key/value application: the block-execution lifecycle, isolation,
//! commit idempotence, determinism across replicas, and state-sync
//! equivalence.

use abci::application::Application;
use abci::kvstore::KeyValueStoreApp;
use abci::protocol::ApplySnapshotChunkResult;
use abci::protocol::OfferSnapshotResult;
use abci::protocol::Request;
use abci::protocol::RequestApplySnapshotChunk;
use abci::protocol::RequestBeginBlock;
use abci::protocol::RequestCheckTx;
use abci::protocol::RequestDeliverTx;
use abci::protocol::RequestEndBlock;
use abci::protocol::RequestInfo;
use abci::protocol::RequestInitChain;
use abci::protocol::RequestLoadSnapshotChunk;
use abci::protocol::RequestOfferSnapshot;
use abci::protocol::RequestQuery;
use abci::protocol::RequestValue;
use abci::protocol::SnapshotMeta;

fn begin(height: u64) -> RequestBeginBlock {
    RequestBeginBlock { hash: Vec::new(), height }
}

fn deliver(tx: &[u8]) -> RequestDeliverTx {
    RequestDeliverTx { tx: tx.to_vec() }
}

fn query(key: &[u8]) -> RequestQuery {
    RequestQuery { data: key.to_vec(), path: String::new(), height: 0, prove: false }
}

fn run_block(app: &mut KeyValueStoreApp, height: u64, txs: &[&[u8]]) -> Vec<u8> {
    app.begin_block(begin(height));
    for tx in txs {
        let r = app.deliver_tx(deliver(tx));
        assert_eq!(r.code, 0);
    }
    app.end_block(RequestEndBlock { height });
    app.commit().data
}

#[test]
fn end_to_end_scenario() {
    let mut app = KeyValueStoreApp::new();
    app.init_chain(RequestInitChain { chain_id: "test-chain".to_string(), app_state_bytes: Vec::new() });
    app.begin_block(begin(1));
    let r = app.deliver_tx(deliver(b"fruit=apple"));
    assert_eq!(r.code, 0);
    app.end_block(RequestEndBlock { height: 1 });
    let commit = app.commit();
    assert_eq!(commit.data, vec![0, 0, 0, 0, 0, 0, 0, 1]);
    let q = app.query(RequestQuery { data: b"fruit".to_vec(), path: String::new(), height: 1, prove: false });
    assert_eq!(q.code, 0);
    assert_eq!(q.value, b"apple".to_vec());
    assert_eq!(q.key, b"fruit".to_vec());
    assert_eq!(q.height, 1);
}

#[test]
fn query_does_not_observe_uncommitted_state() {
    let mut app = KeyValueStoreApp::new();
    app.begin_block(begin(1));
    assert_eq!(app.deliver_tx(deliver(b"a=1")).code, 0);
    let q = app.query(query(b"a"));
    assert_eq!(q.code, 1);
    assert_eq!(q.value, Vec::<u8>::new());
    app.commit();
    let q = app.query(query(b"a"));
    assert_eq!(q.code, 0);
    assert_eq!(q.value, b"1".to_vec());
}

#[test]
fn commit_twice_is_a_no_op() {
    let mut app = KeyValueStoreApp::new();
    let first = run_block(&mut app, 1, &[b"a=1", b"b=2"]);
    let second = app.commit();
    assert_eq!(second.data, first);
    let q = app.query(query(b"a"));
    assert_eq!(q.value, b"1".to_vec());
    assert_eq!(app.info(RequestInfo { version: String::new(), block_version: 0, p2p_version: 0 }).last_block_height, 1);
}

#[test]
fn later_value_for_the_same_key_wins() {
    let mut app = KeyValueStoreApp::new();
    run_block(&mut app, 1, &[b"k=first", b"k=second"]);
    assert_eq!(app.query(query(b"k")).value, b"second".to_vec());
    run_block(&mut app, 2, &[b"k=third"]);
    assert_eq!(app.query(query(b"k")).value, b"third".to_vec());
}

#[test]
fn deliver_tx_error_codes() {
    let mut app = KeyValueStoreApp::new();
    // no open block
    assert_eq!(app.deliver_tx(deliver(b"a=1")).code, 1);
    app.begin_block(begin(1));
    // not key=value
    assert_eq!(app.deliver_tx(deliver(b"no-separator")).code, 2);
    // accepted, including an empty key and an empty value
    assert_eq!(app.deliver_tx(deliver(b"=")).code, 0);
    assert_eq!(app.deliver_tx(deliver(b"x=")).code, 0);
}

#[test]
fn check_tx_validates_shape_without_state() {
    let app = KeyValueStoreApp::new();
    assert_eq!(app.check_tx(RequestCheckTx { tx: b"a=1".to_vec() }).code, 0);
    assert_eq!(app.check_tx(RequestCheckTx { tx: b"garbage".to_vec() }).code, 2);
    assert_eq!(app.check_tx(RequestCheckTx { tx: Vec::new() }).code, 2);
}

#[test]
fn identical_request_sequences_give_identical_responses() {
    let requests = vec![
        Request { value: Some(RequestValue::InitChain(RequestInitChain { chain_id: "c".to_string(), app_state_bytes: Vec::new() })) },
        Request { value: Some(RequestValue::BeginBlock(begin(1))) },
        Request { value: Some(RequestValue::DeliverTx(deliver(b"a=1"))) },
        Request { value: Some(RequestValue::DeliverTx(deliver(b"b=2"))) },
        Request { value: Some(RequestValue::EndBlock(RequestEndBlock { height: 1 })) },
        Request { value: Some(RequestValue::Commit) },
        Request { value: Some(RequestValue::Query(query(b"a"))) },
        Request { value: Some(RequestValue::ListSnapshots) },
        Request { value: Some(RequestValue::Commit) },
    ];
    let mut app1 = KeyValueStoreApp::new();
    let mut app2 = KeyValueStoreApp::new();
    for request in &requests {
        let r1 = app1.handle(request.clone());
        let r2 = app2.handle(request.clone());
        assert_eq!(r1, r2);
    }
}

#[test]
fn init_chain_loads_genesis_state_and_is_idempotent() {
    let genesis_entries: Vec<(Vec<u8>, Vec<u8>)> =
        vec![(b"genesis-key".to_vec(), b"genesis-value".to_vec())];
    let genesis = abci::codec::encode_entries_exec(&genesis_entries);
    let mut app = KeyValueStoreApp::new();
    let request = RequestInitChain { chain_id: "c".to_string(), app_state_bytes: genesis };
    app.init_chain(request.clone());
    assert_eq!(app.query(query(b"genesis-key")).value, b"genesis-value".to_vec());
    assert_eq!(app.info(RequestInfo { version: String::new(), block_version: 0, p2p_version: 0 }).last_block_height, 0);
    // a driver retry with identical genesis lands in the identical state
    app.init_chain(request);
    assert_eq!(app.query(query(b"genesis-key")).value, b"genesis-value".to_vec());
}

#[test]
fn snapshot_round_trip_equals_live_execution() {
    // a live node that reached height 1 by normal block execution
    let mut live = KeyValueStoreApp::new();
    run_block(
        &mut live,
        1,
        &[b"a=1", b"b=2", b"c=3", b"d=4", b"e=5", b"f=6"],
    );

    let listed = live.list_snapshots();
    assert_eq!(listed.snapshots.len(), 1);
    let meta = listed.snapshots[0].clone();
    assert_eq!(meta.height, 1);
    assert_eq!(meta.format, 1);
    assert_eq!(meta.chunks, 2);

    // a bootstrapping node restores from the offered chunks, in order
    let mut synced = KeyValueStoreApp::new();
    let offer = synced.offer_snapshot(RequestOfferSnapshot {
        snapshot: meta.clone(),
        app_hash: meta.hash.clone(),
    });
    assert_eq!(offer.result, OfferSnapshotResult::Accept);
    for index in 0..meta.chunks {
        let chunk = live.load_snapshot_chunk(RequestLoadSnapshotChunk {
            height: meta.height,
            format: meta.format,
            chunk: index,
        });
        let applied = synced.apply_snapshot_chunk(RequestApplySnapshotChunk {
            index,
            chunk: chunk.chunk,
            sender: String::new(),
        });
        assert_eq!(applied.result, ApplySnapshotChunkResult::Accept);
    }
    for key in [&b"a"[..], b"b", b"c", b"d", b"e", b"f"] {
        assert_eq!(synced.query(query(key)), live.query(query(key)));
    }
    let info = synced.info(RequestInfo { version: String::new(), block_version: 0, p2p_version: 0 });
    assert_eq!(info.last_block_height, 1);
}

#[test]
fn snapshot_transfer_error_signals() {
    let mut app = KeyValueStoreApp::new();
    // a chunk with no restore in progress aborts
    let r = app.apply_snapshot_chunk(RequestApplySnapshotChunk {
        index: 0,
        chunk: Vec::new(),
        sender: String::new(),
    });
    assert_eq!(r.result, ApplySnapshotChunkResult::Abort);

    // an unknown format is rejected as such
    let r = app.offer_snapshot(RequestOfferSnapshot {
        snapshot: SnapshotMeta { height: 5, format: 9, chunks: 1, hash: Vec::new() },
        app_hash: Vec::new(),
    });
    assert_eq!(r.result, OfferSnapshotResult::RejectFormat);

    // accept a snapshot, then feed it garbage and disorder
    let r = app.offer_snapshot(RequestOfferSnapshot {
        snapshot: SnapshotMeta { height: 5, format: 1, chunks: 2, hash: Vec::new() },
        app_hash: Vec::new(),
    });
    assert_eq!(r.result, OfferSnapshotResult::Accept);
    let r = app.apply_snapshot_chunk(RequestApplySnapshotChunk {
        index: 1,
        chunk: Vec::new(),
        sender: String::new(),
    });
    assert_eq!(r.result, ApplySnapshotChunkResult::Retry);
    let r = app.apply_snapshot_chunk(RequestApplySnapshotChunk {
        index: 0,
        chunk: vec![1, 2, 3],
        sender: String::new(),
    });
    assert_eq!(r.result, ApplySnapshotChunkResult::RetrySnapshot);
}
