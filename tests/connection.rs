use h1_server::connection::{keep_alive_for, plan_response, reconcile_connection, request_intent, KeepAlive, RequestIntent};
use h1_server::error::Error;
use h1_server::request::{Header, HttpVersion};
use h1_server::ConnectionStatus;

fn header(name: &str, value: &str) -> Header {
    Header { name: name.as_bytes().to_vec(), value: value.as_bytes().to_vec() }
}

#[test]
fn keep_alive_tokens() {
    assert_eq!(keep_alive_for(b"Keep-Alive", HttpVersion::Http1_0), KeepAlive::KeepAlive);
    assert_eq!(keep_alive_for(b"keep-alive, Upgrade", HttpVersion::Http1_0), KeepAlive::KeepAlive);
    assert_eq!(keep_alive_for(b"CLOSE", HttpVersion::Http1_1), KeepAlive::Close);
    assert_eq!(keep_alive_for(b"upgrade, close", HttpVersion::Http1_1), KeepAlive::Close);
    assert_eq!(keep_alive_for(b"", HttpVersion::Http1_1), KeepAlive::KeepAlive);
    assert_eq!(keep_alive_for(b"", HttpVersion::Http1_0), KeepAlive::Close);
}

#[test]
fn keep_alive_item_anywhere_in_list() {
    assert_eq!(keep_alive_for(b"close, keep-alive", HttpVersion::Http1_1), KeepAlive::KeepAlive);
    assert_eq!(keep_alive_for(b"Upgrade ,  Keep-Alive ", HttpVersion::Http1_0), KeepAlive::KeepAlive);
    assert_eq!(keep_alive_for(b"x keep-alive,", HttpVersion::Http1_0), KeepAlive::Close);
    assert_eq!(keep_alive_for(b"x keep-alive,", HttpVersion::Http1_1), KeepAlive::KeepAlive);
}

#[test]
fn upgrade_needs_both_headers() {
    let hs = vec![header("Connection", "keep-alive, Upgrade "), header("Upgrade", "websocket")];
    let intent = request_intent(&hs, HttpVersion::Http1_1);
    assert!(intent.upgrade_requested);
    assert_eq!(intent.keep_alive, KeepAlive::KeepAlive);
    let hs = vec![header("Connection", "Upgrade")];
    assert!(!request_intent(&hs, HttpVersion::Http1_1).upgrade_requested);
    let hs = vec![header("Upgrade", "h2c")];
    assert!(!request_intent(&hs, HttpVersion::Http1_1).upgrade_requested);
}

#[test]
fn reconciles_connection_values() {
    assert_eq!(reconcile_connection(None, KeepAlive::Close), Ok(b"close".to_vec()));
    let one = vec![b"upgrade".to_vec()];
    assert_eq!(reconcile_connection(Some(&one), KeepAlive::KeepAlive), Ok(b"upgrade, keep-alive".to_vec()));
    let empty = vec![Vec::new()];
    assert_eq!(reconcile_connection(Some(&empty), KeepAlive::Close), Ok(b"close".to_vec()));
    let two = vec![b"a".to_vec(), b"b".to_vec()];
    assert_eq!(reconcile_connection(Some(&two), KeepAlive::Close), Err(Error::MultipleConnectionHeaders));
}

#[test]
fn close_ends_the_connection() {
    let intent = RequestIntent { keep_alive: KeepAlive::Close, upgrade_requested: false };
    let plan = plan_response(intent, false, false, None).unwrap();
    assert_eq!(plan.status, ConnectionStatus::Close);
    assert_eq!(plan.connection, Some(b"close".to_vec()));
    assert!(!plan.hand_off);
}

#[test]
fn keep_alive_continues() {
    let intent = RequestIntent { keep_alive: KeepAlive::KeepAlive, upgrade_requested: false };
    let plan = plan_response(intent, false, false, None).unwrap();
    assert_eq!(plan.status, ConnectionStatus::KeepAlive);
}

#[test]
fn granted_upgrade_hands_off() {
    let intent = RequestIntent { keep_alive: KeepAlive::KeepAlive, upgrade_requested: true };
    let two = vec![b"a".to_vec(), b"b".to_vec()];
    let plan = plan_response(intent, true, true, Some(&two)).unwrap();
    assert!(plan.hand_off);
    assert_eq!(plan.connection, None);
    assert_eq!(plan.status, ConnectionStatus::Close);
}

#[test]
fn several_response_connection_values_fail() {
    let intent = RequestIntent { keep_alive: KeepAlive::KeepAlive, upgrade_requested: false };
    let two = vec![b"a".to_vec(), b"b".to_vec()];
    assert_eq!(plan_response(intent, false, false, Some(&two)).err(), Some(Error::MultipleConnectionHeaders));
}
