use edge_ingest::config::{select_backend, BackendKind, Config};
use edge_ingest::decoder::decode_rows;
use edge_ingest::dispatch::{deliver_outcome, dispatch_all, BackendReply};
use edge_ingest::outcome::DeliveryError;
use edge_ingest::record::EdgeRecord;
use edge_ingest::rest::RestReply;
use edge_ingest::rpc::RpcReply;
use rayon::iter::{IntoParallelIterator, ParallelIterator};

#[test]
fn batch_produces_exactly_one_outcome_per_record() {
    let data = b"A,B,1,2\nbad row\nC,D,3,4\nE,F,5,6\n".to_vec();
    let records = decode_rows(&data);
    assert_eq!(records.len(), 3);
    let replies = vec![
        BackendReply::Rest(RestReply::Body(b"{\"message\":\"ok\"}".to_vec())),
        BackendReply::Rest(RestReply::Failure(b"timed out".to_vec())),
        BackendReply::Rpc(RpcReply::Message(rmp_serde::to_vec("dup").unwrap())),
    ];
    let outcomes = dispatch_all(&records, replies);
    assert_eq!(outcomes.len(), 3);
    assert_eq!(outcomes[0], Ok(b"\"ok\"".to_vec()));
    assert_eq!(
        outcomes[1],
        Err(DeliveryError::Transport(b"timed out".to_vec()))
    );
    assert_eq!(
        outcomes[2],
        Err(DeliveryError::Remote(b"Server error: dup".to_vec()))
    );
}

fn generated_records(n: usize) -> Vec<EdgeRecord> {
    let mut records = Vec::new();
    for i in 0..n {
        let rec = EdgeRecord::new(
            format!("src{}", i).into_bytes(),
            format!("dst{}", i).into_bytes(),
            b"1.0".to_vec(),
            format!("{}", i).into_bytes(),
        )
        .unwrap();
        records.push(rec);
    }
    records
}

#[test]
fn failing_backend_still_completes_the_batch() {
    let records = generated_records(1000);
    let mut replies = Vec::new();
    for _ in 0..1000 {
        replies.push(BackendReply::Rpc(RpcReply::Failure(b"down".to_vec())));
    }
    let outcomes = dispatch_all(&records, replies);
    assert_eq!(outcomes.len(), 1000);
    for outcome in &outcomes {
        assert_eq!(
            *outcome,
            Err(DeliveryError::Transport(b"down".to_vec()))
        );
    }
}

#[test]
fn concurrent_failing_deliveries_all_report() {
    let records = generated_records(1000);
    let outcomes: Vec<Result<Vec<u8>, DeliveryError>> = records
        .into_par_iter()
        .map(|_rec| {
            deliver_outcome(BackendReply::Rest(RestReply::Failure(
                b"refused".to_vec(),
            )))
        })
        .collect();
    assert_eq!(outcomes.len(), 1000);
    assert!(outcomes
        .iter()
        .all(|o| *o == Err(DeliveryError::Transport(b"refused".to_vec()))));
}

#[test]
fn config_defaults_are_the_fixed_local_endpoints() {
    let cfg = Config::from_settings(BackendKind::Rest, None, None);
    assert_eq!(cfg.rest_base, b"http://localhost:8000".to_vec());
    assert_eq!(cfg.rpc_url, b"tcp://127.0.0.1:10234".to_vec());
    assert!(matches!(cfg.backend, BackendKind::Rest));
}

#[test]
fn config_supplied_values_win() {
    let cfg = Config::from_settings(
        BackendKind::Rpc,
        Some(b"http://svc:9000".to_vec()),
        Some(b"tcp://svc:7000".to_vec()),
    );
    assert_eq!(cfg.rest_base, b"http://svc:9000".to_vec());
    assert_eq!(cfg.rpc_url, b"tcp://svc:7000".to_vec());
    assert!(matches!(cfg.backend, BackendKind::Rpc));
}

#[test]
fn backend_selection_recognises_only_rpc() {
    assert!(matches!(select_backend(None), BackendKind::Rest));
    assert!(matches!(
        select_backend(Some(b"rpc".to_vec())),
        BackendKind::Rpc
    ));
    assert!(matches!(
        select_backend(Some(b"rest".to_vec())),
        BackendKind::Rest
    ));
    assert!(matches!(
        select_backend(Some(b"RPC".to_vec())),
        BackendKind::Rest
    ));
}
