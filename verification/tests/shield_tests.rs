use shield_rpc::address::{address_key, cached_address_set, Address};
use shield_rpc::shield::{
    advance, checked_shield, expects, shield, target_rpc, ShieldAction, ShieldEvent, ShieldState,
    DEFAULT_RPC,
};
use shield_rpc::transaction::{checked_decode_transaction, decode_transaction};
use shield_rpc::types::{JsonRpcRequest, QueryParams, RpcParam};

const RECIPIENT: [u8; 20] = [0x11; 20];

fn legacy_raw_tx() -> String {
    // RLP list: nonce 0, gas price 1, gas 21000, to, value 0, no data, v 27, r 1, s 1.
    format!("0xdf800182520894{}80801b0101", "11".repeat(20))
}

fn contract_creation_raw_tx() -> String {
    "0xcb8001825208808080".to_string() + "1b0101"
}

fn request(method: &str, params: Vec<String>) -> JsonRpcRequest {
    JsonRpcRequest {
        jsonrpc: "2.0".to_string(),
        id: 1,
        method: method.to_string(),
        params: params.into_iter().map(RpcParam::Text).collect(),
    }
}

fn query(rpc: Option<&str>) -> QueryParams {
    QueryParams { rpc: rpc.map(|s| s.to_string()) }
}

#[test]
fn decode_transaction_reads_the_recipient() {
    let tx = decode_transaction(&legacy_raw_tx());
    assert_eq!(tx.to, Some(Address(RECIPIENT)));
}

#[test]
fn decode_transaction_of_a_contract_creation_has_no_recipient() {
    let tx = decode_transaction(&contract_creation_raw_tx());
    assert_eq!(tx.to, None);
}

#[test]
fn checked_decode_transaction_refuses_bad_input() {
    assert!(checked_decode_transaction("0").is_none());
    assert!(checked_decode_transaction("0xzz").is_none());
    assert!(checked_decode_transaction("0xc0").is_none());
    assert!(checked_decode_transaction(&legacy_raw_tx()).is_some());
}

#[test]
fn target_defaults_to_the_default_rpc() {
    assert_eq!(target_rpc(&query(None)), DEFAULT_RPC);
    assert_eq!(target_rpc(&query(Some("http://localhost:8545"))), "http://localhost:8545");
}

#[test]
fn invalid_rpc_url_is_answered() {
    let (state, action) = shield(&request("eth_blockNumber", vec![]), &query(Some("not a url")));
    assert!(matches!(state, ShieldState::Finished));
    assert!(matches!(action, ShieldAction::ReplyInvalidRpcUrl));
}

#[test]
fn other_calls_are_forwarded() {
    let (state, action) = shield(&request("eth_blockNumber", vec![]), &query(None));
    assert!(matches!(state, ShieldState::Finished));
    match action {
        ShieldAction::Forward(target) => assert_eq!(target, DEFAULT_RPC),
        other => panic!("unexpected {:?}", other),
    }
}

#[test]
fn raw_transaction_is_looked_up_first() {
    let (state, action) = shield(
        &request("eth_sendRawTransaction", vec![legacy_raw_tx()]),
        &query(Some("https://node.example/rpc")),
    );
    match action {
        ShieldAction::QueryMalicious(key) => {
            assert_eq!(key, format!("0x{}", "11".repeat(20)))
        }
        other => panic!("unexpected {:?}", other),
    }
    match state {
        ShieldState::AwaitingMaliciousCount { to, target, remember } => {
            assert_eq!(to, Address(RECIPIENT));
            assert_eq!(target, "https://node.example/rpc");
            assert!(remember);
        }
        other => panic!("unexpected {:?}", other),
    }
}

#[test]
fn checked_shield_refuses_undecodable_raw_transactions() {
    let params = query(None);
    assert!(checked_shield(&request("eth_sendRawTransaction", vec![]), &params).is_none());
    assert!(checked_shield(&request("eth_sendRawTransaction", vec!["0x12".to_string()]), &params).is_none());
    assert!(checked_shield(
        &request("eth_sendRawTransaction", vec![contract_creation_raw_tx()]),
        &params
    )
    .is_none());
    assert!(checked_shield(&request("eth_sendRawTransaction", vec![legacy_raw_tx()]), &params).is_some());
    assert!(checked_shield(&request("eth_sendRawTransaction", vec![]), &query(Some("bad"))).is_some());
}

#[test]
fn listed_recipient_is_refused() {
    let state = ShieldState::AwaitingMaliciousCount {
        to: Address(RECIPIENT),
        target: DEFAULT_RPC.to_string(),
        remember: true,
    };
    let (state, action) = advance(state, ShieldEvent::MaliciousCount(1));
    assert!(matches!(state, ShieldState::Finished));
    match action {
        ShieldAction::Reject(response) => {
            assert_eq!(response.id, 2);
            assert_eq!(response.jsonrpc, "2.0");
            assert_eq!(response.result, None);
            let error = response.error.unwrap();
            assert_eq!(error.code, -32600);
            assert_eq!(
                error.message,
                format!(
                    "Interaction with a suspicious contract. To Address: 0x{}",
                    "11".repeat(20)
                )
            );
        }
        other => panic!("unexpected {:?}", other),
    }
}

#[test]
fn vanity_recipient_is_refused() {
    let to = Address(RECIPIENT);
    let mut known = [0x11; 20];
    known[5] = 0x99;
    let state = ShieldState::AwaitingMaliciousCount { to, target: DEFAULT_RPC.to_string(), remember: true };
    let (state, action) = advance(state, ShieldEvent::MaliciousCount(0));
    assert!(matches!(action, ShieldAction::FetchCachedAddresses));
    let (state, action) = advance(state, ShieldEvent::CachedAddresses(vec![Address(known)]));
    assert!(matches!(state, ShieldState::Finished));
    match action {
        ShieldAction::Reject(response) => {
            let error = response.error.unwrap();
            assert_eq!(error.code, -32600);
            assert_eq!(
                error.message,
                format!(
                    "Interaction with a vanity address. To Address: 0x{}",
                    "11".repeat(20)
                )
            );
        }
        other => panic!("unexpected {:?}", other),
    }
}

#[test]
fn clean_recipient_is_cached_then_forwarded() {
    let to = Address(RECIPIENT);
    let state = ShieldState::AwaitingMaliciousCount { to, target: "http://node".to_string(), remember: true };
    let (state, action) = advance(state, ShieldEvent::MaliciousCount(0));
    assert!(matches!(action, ShieldAction::FetchCachedAddresses));
    let (state, action) = advance(state, ShieldEvent::CachedAddresses(vec![to, Address([0x22; 20])]));
    match action {
        ShieldAction::CacheAddress(key) => assert_eq!(key, address_key(&to)),
        other => panic!("unexpected {:?}", other),
    }
    let (state, action) = advance(state, ShieldEvent::CacheWritten);
    assert!(matches!(state, ShieldState::Finished));
    match action {
        ShieldAction::Forward(target) => assert_eq!(target, "http://node"),
        other => panic!("unexpected {:?}", other),
    }
}

#[test]
fn cached_recipient_exposes_a_later_lookalike() {
    let earlier = Address([0x1a; 20]);
    let rows = vec![address_key(&earlier)];
    let cached = cached_address_set(&rows);
    let mut lookalike = [0x1a; 20];
    lookalike[7] = 0x00;
    let state = ShieldState::AwaitingMaliciousCount {
        to: Address(lookalike),
        target: DEFAULT_RPC.to_string(),
        remember: true,
    };
    let (state, action) = advance(state, ShieldEvent::MaliciousCount(0));
    assert!(matches!(action, ShieldAction::FetchCachedAddresses));
    let (state, action) = advance(state, ShieldEvent::CachedAddresses(cached));
    assert!(matches!(state, ShieldState::Finished));
    assert!(matches!(action, ShieldAction::Reject(_)));
}

fn call_request(method: &str, to: Option<&str>) -> JsonRpcRequest {
    JsonRpcRequest {
        jsonrpc: "2.0".to_string(),
        id: 7,
        method: method.to_string(),
        params: vec![
            RpcParam::Object { to: to.map(|t| t.to_string()) },
            RpcParam::Text("latest".to_string()),
        ],
    }
}

#[test]
fn call_to_a_listed_address_is_refused() {
    let key = format!("0x{}", "11".repeat(20));
    let (state, action) = shield(&call_request("eth_call", Some(&key)), &query(None));
    match action {
        ShieldAction::QueryMalicious(k) => assert_eq!(k, key),
        other => panic!("unexpected {:?}", other),
    }
    match &state {
        ShieldState::AwaitingMaliciousCount { remember, .. } => assert!(!remember),
        other => panic!("unexpected {:?}", other),
    }
    let (state, action) = advance(state, ShieldEvent::MaliciousCount(3));
    assert!(matches!(state, ShieldState::Finished));
    match action {
        ShieldAction::Reject(response) => assert_eq!(response.error.unwrap().code, -32600),
        other => panic!("unexpected {:?}", other),
    }
}

#[test]
fn clean_call_is_forwarded_without_caching() {
    let key = format!("0x{}", "11".repeat(20));
    let (state, _) = shield(&call_request("eth_call", Some(&key)), &query(None));
    let (state, action) = advance(state, ShieldEvent::MaliciousCount(0));
    assert!(matches!(action, ShieldAction::FetchCachedAddresses));
    let (state, action) = advance(state, ShieldEvent::CachedAddresses(vec![Address([0x22; 20])]));
    assert!(matches!(state, ShieldState::Finished));
    match action {
        ShieldAction::Forward(target) => assert_eq!(target, DEFAULT_RPC),
        other => panic!("unexpected {:?}", other),
    }
}

#[test]
fn call_to_a_lookalike_is_refused() {
    let key = format!("0x{}", "11".repeat(20));
    let mut known = [0x11; 20];
    known[4] = 0x44;
    let (state, _) = shield(&call_request("eth_call", Some(&key)), &query(None));
    let (state, _) = advance(state, ShieldEvent::MaliciousCount(0));
    let (_, action) = advance(state, ShieldEvent::CachedAddresses(vec![Address(known)]));
    assert!(matches!(action, ShieldAction::Reject(_)));
}

#[test]
fn sent_transaction_is_remembered() {
    let key = format!("0x{}", "11".repeat(20));
    let (state, _) = shield(&call_request("eth_sendTransaction", Some(&key)), &query(None));
    match &state {
        ShieldState::AwaitingMaliciousCount { remember, .. } => assert!(remember),
        other => panic!("unexpected {:?}", other),
    }
    let (state, _) = advance(state, ShieldEvent::MaliciousCount(0));
    let (state, action) = advance(state, ShieldEvent::CachedAddresses(vec![]));
    assert!(matches!(action, ShieldAction::CacheAddress(_)));
    let (_, action) = advance(state, ShieldEvent::CacheWritten);
    assert!(matches!(action, ShieldAction::Forward(_)));
}

#[test]
fn calls_without_a_readable_address_are_forwarded() {
    for to in [None, Some("not an address")] {
        let (state, action) = shield(&call_request("eth_call", to), &query(None));
        assert!(matches!(state, ShieldState::Finished));
        assert!(matches!(action, ShieldAction::Forward(_)));
    }
}

#[test]
fn raw_transaction_needs_a_text_parameter() {
    let mut r = call_request("eth_sendRawTransaction", None);
    assert!(checked_shield(&r, &query(None)).is_none());
    r.params = vec![RpcParam::Other];
    assert!(checked_shield(&r, &query(None)).is_none());
}

#[test]
fn expects_matches_the_waiting_state() {
    let state = ShieldState::AwaitingMaliciousCount {
        to: Address(RECIPIENT),
        target: DEFAULT_RPC.to_string(),
        remember: false,
    };
    assert!(expects(&state, &ShieldEvent::MaliciousCount(0)));
    assert!(!expects(&state, &ShieldEvent::CacheWritten));
    assert!(!expects(&ShieldState::Finished, &ShieldEvent::CacheWritten));
}
