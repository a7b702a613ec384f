use edge_ingest::outcome::DeliveryError;
use edge_ingest::record::EdgeRecord;
use edge_ingest::rest::{rest_body, rest_endpoint, rest_outcome, RestReply};
use edge_ingest::rpc::{
    encode_rpc_request, reply_stored_triples, rpc_outcome, RpcReply,
};

fn record(src: &[u8], dest: &[u8], weight: &[u8], timestamp: &[u8]) -> EdgeRecord {
    EdgeRecord::new(
        src.to_vec(),
        dest.to_vec(),
        weight.to_vec(),
        timestamp.to_vec(),
    )
    .unwrap()
}

#[test]
fn record_constructor_validates_numeric_fields() {
    assert!(EdgeRecord::new(b"A".to_vec(), b"B".to_vec(), b"1.0".to_vec(), b"oops".to_vec())
        .is_none());
    assert!(EdgeRecord::new(b"A".to_vec(), b"B".to_vec(), b"x".to_vec(), b"0".to_vec()).is_none());
    assert!(EdgeRecord::new(b"A".to_vec(), b"B".to_vec(), b"1.0".to_vec(), b"0".to_vec())
        .is_some());
}

#[test]
fn rest_body_is_the_exact_json_object() {
    let rec = record(b"A", b"B", b"1.0", b"0.0");
    assert_eq!(
        rest_body(&rec),
        b"{\"src\":\"A\",\"dest\":\"B\",\"weight\":1.0,\"timestamp\":0.0}".to_vec()
    );
}

#[test]
fn rest_body_agrees_with_a_json_parser() {
    let rec = record(b"node one", b"n2", b"-12.5", b"1.5e9");
    let body = rest_body(&rec);
    let value: serde_json::Value = serde_json::from_slice(&body).unwrap();
    assert_eq!(value["src"], "node one");
    assert_eq!(value["dest"], "n2");
    assert_eq!(value["weight"], -12.5);
    assert_eq!(value["timestamp"], 1.5e9);
}

#[test]
fn rest_body_escapes_quotes_backslashes_and_controls() {
    let rec = record(b"a\"b\\c\nd", b"B", b"1", b"2");
    let body = rest_body(&rec);
    assert_eq!(
        body,
        b"{\"src\":\"a\\\"b\\\\c\\u000ad\",\"dest\":\"B\",\"weight\":1,\"timestamp\":2}".to_vec()
    );
    let value: serde_json::Value = serde_json::from_slice(&body).unwrap();
    assert_eq!(value["src"], "a\"b\\c\nd");
}

#[test]
fn rest_endpoint_appends_the_edge_path() {
    assert_eq!(
        rest_endpoint(&b"http://localhost:8000".to_vec()),
        b"http://localhost:8000/edge".to_vec()
    );
}

#[test]
fn rest_reply_with_message_field_succeeds() {
    let out = rest_outcome(RestReply::Body(b"{\"message\":\"ok\"}".to_vec()));
    assert_eq!(out, Ok(b"\"ok\"".to_vec()));
}

#[test]
fn rest_reply_with_nonjson_body_degrades_to_a_warning() {
    let out = rest_outcome(RestReply::Body(b"oops".to_vec()));
    assert_eq!(
        out,
        Ok(b"Warning: cannot decode HTTP reply: oops".to_vec())
    );
}

#[test]
fn rest_reply_without_message_field_degrades_to_a_warning() {
    let out = rest_outcome(RestReply::Body(b"{\"status\":\"fine\"}".to_vec()));
    assert_eq!(
        out,
        Ok(b"Warning: cannot decode HTTP reply: {\"status\":\"fine\"}".to_vec())
    );
}

#[test]
fn rest_reply_message_is_reserialized_json() {
    let out = rest_outcome(RestReply::Body(b"{\"message\":{\"a\":1}}".to_vec()));
    assert_eq!(out, Ok(b"{\"a\":1}".to_vec()));
}

#[test]
fn rest_transport_failure_is_an_error() {
    let out = rest_outcome(RestReply::Failure(b"connection refused".to_vec()));
    assert_eq!(
        out,
        Err(DeliveryError::Transport(b"connection refused".to_vec()))
    );
}

#[test]
fn rpc_request_matches_the_reference_encoder() {
    let mine = encode_rpc_request(&b"A".to_vec(), &b"B".to_vec(), 1.0f64.to_bits());
    let reference = rmp_serde::to_vec(&((("A", "B", 1.0f64),), ())).unwrap();
    assert_eq!(mine, reference);
}

#[test]
fn rpc_request_matches_the_reference_encoder_on_longer_names() {
    let src = "a-node-identifier-longer-than-thirty-one-bytes";
    let dest = "d";
    let mine = encode_rpc_request(
        &src.as_bytes().to_vec(),
        &dest.as_bytes().to_vec(),
        (-2.75f64).to_bits(),
    );
    let reference = rmp_serde::to_vec(&(((src, dest, -2.75f64),), ())).unwrap();
    assert_eq!(mine, reference);
}

#[test]
fn rpc_triple_reply_is_a_success() {
    let reply = rmp_serde::to_vec(&vec![("A".to_string(), "B".to_string(), 1.0f64)]).unwrap();
    let triples = reply_stored_triples(&reply).unwrap();
    assert_eq!(triples.len(), 1);
    assert_eq!(triples[0].src, b"A".to_vec());
    assert_eq!(triples[0].dest, b"B".to_vec());
    assert_eq!(triples[0].weight_bits, 1.0f64.to_bits());
    let out = rpc_outcome(RpcReply::Message(reply));
    assert_eq!(out, Ok(Vec::new()));
}

#[test]
fn rpc_empty_triple_list_is_a_success() {
    let reply = rmp_serde::to_vec(&Vec::<(String, String, f64)>::new()).unwrap();
    let out = rpc_outcome(RpcReply::Message(reply));
    assert_eq!(out, Ok(Vec::new()));
}

#[test]
fn rpc_string_reply_is_a_remote_error() {
    let reply = rmp_serde::to_vec("edge exists").unwrap();
    let out = rpc_outcome(RpcReply::Message(reply));
    assert_eq!(
        out,
        Err(DeliveryError::Remote(b"Server error: edge exists".to_vec()))
    );
}

#[test]
fn rpc_unreadable_reply_is_a_decode_error() {
    let reply = rmp_serde::to_vec(&42u32).unwrap();
    assert_eq!(
        rpc_outcome(RpcReply::Message(reply)),
        Err(DeliveryError::Decode)
    );
    assert_eq!(
        rpc_outcome(RpcReply::Message(Vec::new())),
        Err(DeliveryError::Decode)
    );
}

#[test]
fn rpc_transport_failure_is_an_error() {
    let out = rpc_outcome(RpcReply::Failure(b"dial failed".to_vec()));
    assert_eq!(out, Err(DeliveryError::Transport(b"dial failed".to_vec())));
}
