use shield_rpc::types::{RpcError, RpcErrorCode, RpcResponse};

#[test]
fn error_codes() {
    assert_eq!(RpcErrorCode::InvalidRequest.to_error_code(), -32600);
    assert_eq!(RpcErrorCode::InvalidParams.to_error_code(), -32602);
}

#[test]
fn new_response_has_fixed_id_and_version() {
    let r = RpcResponse::new(Some("0x1"), None);
    assert_eq!(r.id, 2);
    assert_eq!(r.jsonrpc, "2.0");
    assert_eq!(r.result, Some("0x1"));
    assert!(r.error.is_none());

    let r = RpcResponse::new(None, Some(RpcError { code: -32602, message: "m".to_string() }));
    assert_eq!(r.result, None);
    let e = r.error.unwrap();
    assert_eq!(e.code, -32602);
    assert_eq!(e.message, "m");
}
