use indexer_core::mock_grpc::{MockGrpcServer, Transaction, TransactionsResponse};

fn response(versions: &[u64]) -> TransactionsResponse {
    TransactionsResponse {
        transactions: versions.iter().map(|v| Transaction { version: *v }).collect(),
        chain_id: None,
    }
}

fn versions_of(r: &TransactionsResponse) -> Vec<u64> {
    r.transactions.iter().map(|t| t.version).collect()
}

#[test]
fn mock_server_reply_shaping() {
    let server = MockGrpcServer {
        transactions_response: vec![response(&[0, 1, 2, 3, 4])],
        chain_id: 4,
    };
    let reply = server.get_transactions(2, Some(2));
    assert_eq!(versions_of(&reply), vec![2, 3]);
    assert_eq!(reply.chain_id, Some(4));
}

#[test]
fn mock_server_default_count_is_one() {
    let server = MockGrpcServer {
        transactions_response: vec![response(&[0, 1, 2])],
        chain_id: 7,
    };
    let reply = server.get_transactions(1, None);
    assert_eq!(versions_of(&reply), vec![1]);
    assert_eq!(reply.chain_id, Some(7));
}

#[test]
fn mock_server_fills_gaps_by_expected_version() {
    // After accepting version 0, the server expects 1; version 5 satisfies
    // that, and then 6 satisfies the expectation of 2: the reply is gap-free
    // in collection order, not in version values.
    let server = MockGrpcServer {
        transactions_response: vec![response(&[0]), response(&[5, 6])],
        chain_id: 1,
    };
    let reply = server.get_transactions(0, Some(3));
    assert_eq!(versions_of(&reply), vec![0, 5, 6]);
    assert_eq!(reply.chain_id, Some(1));
}

#[test]
fn mock_server_falls_back_to_first_response() {
    let server = MockGrpcServer {
        transactions_response: vec![response(&[0, 1]), response(&[2, 3])],
        chain_id: 9,
    };
    // Nothing at or above version 10 exists, so nothing is collected.
    let reply = server.get_transactions(10, Some(2));
    assert_eq!(versions_of(&reply), vec![0, 1]);
    assert_eq!(reply.chain_id, Some(9));
}

#[test]
fn mock_server_stops_at_corpus_end() {
    let server = MockGrpcServer {
        transactions_response: vec![response(&[0, 1, 2])],
        chain_id: 2,
    };
    let reply = server.get_transactions(1, Some(10));
    assert_eq!(versions_of(&reply), vec![1, 2]);
    assert_eq!(reply.chain_id, Some(2));
}
