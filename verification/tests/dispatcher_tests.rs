//! The dispatcher on the default application: kind matching, echo
//! identity, and the malformed-envelope condition.

use abci::application::Application;
use abci::application::DefaultApp;
use abci::protocol::ProtocolError;
use abci::protocol::Request;
use abci::protocol::RequestCheckTx;
use abci::protocol::RequestEcho;
use abci::protocol::RequestInfo;
use abci::protocol::RequestQuery;
use abci::protocol::RequestValue;
use abci::protocol::ResponseValue;

fn echo_request(message: &str) -> Request {
    Request {
        value: Some(RequestValue::Echo(RequestEcho {
            message: message.to_string(),
        })),
    }
}

#[test]
fn echo_returns_the_same_message() {
    let app = DefaultApp {};
    let response = app.echo(RequestEcho {
        message: "hello-world".to_string(),
    });
    assert_eq!(response.message, "hello-world");
}

#[test]
fn echo_identity_holds_for_empty_and_unusual_messages() {
    let app = DefaultApp {};
    for message in ["", "=", "a=b", "\u{1F600} unicode"] {
        let response = app.echo(RequestEcho {
            message: message.to_string(),
        });
        assert_eq!(response.message, message);
    }
}

#[test]
fn handle_answers_each_kind_with_the_same_kind() {
    let mut app = DefaultApp {};
    let r = app.handle(echo_request("ping")).unwrap();
    match r.value {
        Some(ResponseValue::Echo(e)) => assert_eq!(e.message, "ping"),
        other => panic!("expected an echo response, got {:?}", other),
    }

    let r = app
        .handle(Request {
            value: Some(RequestValue::Info(RequestInfo {
                version: "0.17.0".to_string(),
                block_version: 10,
                p2p_version: 7,
            })),
        })
        .unwrap();
    assert!(matches!(r.value, Some(ResponseValue::Info(_))));

    let r = app
        .handle(Request {
            value: Some(RequestValue::Query(RequestQuery {
                data: b"key".to_vec(),
                path: String::new(),
                height: 0,
                prove: false,
            })),
        })
        .unwrap();
    assert!(matches!(r.value, Some(ResponseValue::Query(_))));

    let r = app
        .handle(Request {
            value: Some(RequestValue::CheckTx(RequestCheckTx { tx: b"a=b".to_vec() })),
        })
        .unwrap();
    assert!(matches!(r.value, Some(ResponseValue::CheckTx(_))));

    let r = app.handle(Request { value: Some(RequestValue::Flush) }).unwrap();
    assert!(matches!(r.value, Some(ResponseValue::Flush(_))));

    let r = app.handle(Request { value: Some(RequestValue::Commit) }).unwrap();
    assert!(matches!(r.value, Some(ResponseValue::Commit(_))));

    let r = app
        .handle(Request { value: Some(RequestValue::ListSnapshots) })
        .unwrap();
    assert!(matches!(r.value, Some(ResponseValue::ListSnapshots(_))));
}

#[test]
fn malformed_envelope_is_rejected_not_defaulted() {
    let mut app = DefaultApp {};
    let r = app.handle(Request { value: None });
    assert_eq!(r, Err(ProtocolError::MalformedRequest));
}
