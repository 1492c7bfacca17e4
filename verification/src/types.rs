//! JSON-RPC messages as the shield receives and answers them.

use vstd::prelude::*;

verus! {

/// A JSON-RPC request from the wallet.
#[derive(Debug)]
pub struct JsonRpcRequest {
    pub jsonrpc: String,
    pub id: i32,
    pub method: String,
    pub params: Vec<RpcParam>,
}

/// What the shield reads of one request parameter.
#[derive(Debug)]
pub enum RpcParam {
    /// A JSON string, such as a raw transaction or a block tag.
    Text(String),
    /// A JSON object, such as the call of `eth_call`, with its `to` member
    /// when that is a string.
    Object { to: Option<String> },
    /// Any other JSON value.
    Other,
}

/// The content of an `RpcParam`.
pub enum ParamView {
    Text(Seq<char>),
    Object { to: Option<Seq<char>> },
    Other,
}

impl View for RpcParam {
    type V = ParamView;

    open spec fn view(&self) -> ParamView {
        match self {
            RpcParam::Text(t) => ParamView::Text(t@),
            RpcParam::Object { to } => ParamView::Object {
                to: match to {
                    Some(t) => Some(t@),
                    None => None,
                },
            },
            RpcParam::Other => ParamView::Other,
        }
    }
}

/// The parts of a request that the shield's decisions read: the method and
/// the parameters.
pub struct RequestView {
    pub method: Seq<char>,
    pub params: Seq<ParamView>,
}

impl View for JsonRpcRequest {
    type V = RequestView;

    open spec fn view(&self) -> RequestView {
        RequestView { method: self.method@, params: self.params@.map_values(|p: RpcParam| p@) }
    }
}

/// A JSON-RPC answer written by the shield itself.
#[derive(Debug)]
pub struct RpcResponse<'a> {
    pub id: i8,
    pub jsonrpc: &'a str,
    pub result: Option<&'a str>,
    pub error: Option<RpcError>,
}

/// The content of a shield answer: id, protocol version, result, and the
/// error's code and message.
pub struct RpcResponseView {
    pub id: int,
    pub jsonrpc: Seq<char>,
    pub result: Option<Seq<char>>,
    pub error: Option<(int, Seq<char>)>,
}

impl<'a> View for RpcResponse<'a> {
    type V = RpcResponseView;

    open spec fn view(&self) -> RpcResponseView {
        RpcResponseView {
            id: self.id as int,
            jsonrpc: self.jsonrpc@,
            result: match self.result {
                Some(r) => Some(r@),
                None => None,
            },
            error: match self.error {
                Some(e) => Some((e.code as int, e.message@)),
                None => None,
            },
        }
    }
}

impl<'a> RpcResponse<'a> {
    /// An answer with the shield's fixed id 2 and protocol version "2.0".
    pub fn new(result: Option<&'a str>, error: Option<RpcError>) -> (response: Self)
        ensures
            response.id == 2,
            response.jsonrpc@ == "2.0"@,
            response.result == result,
            response.error == error,
    {
        RpcResponse { id: 2, jsonrpc: "2.0", result, error }
    }
}

/// The error member of a JSON-RPC answer.
#[derive(Debug)]
pub struct RpcError {
    pub code: i32,
    pub message: String,
}

/// The JSON-RPC error kinds that the shield reports.
#[derive(Debug)]
pub enum RpcErrorCode {
    InvalidRequest,
    InvalidParams,
}

impl RpcErrorCode {
    /// The numeric JSON-RPC code of this error kind.
    pub open spec fn spec_code(&self) -> int {
        match self {
            RpcErrorCode::InvalidRequest => -32600,
            RpcErrorCode::InvalidParams => -32602,
        }
    }

    /// The JSON-RPC error code: -32600 for an invalid request, -32602 for
    /// invalid parameters.
    pub fn to_error_code(&self) -> (code: i32)
        ensures
            code == self.spec_code(),
    {
        match self {
            RpcErrorCode::InvalidRequest => -32600,
            RpcErrorCode::InvalidParams => -32602,
        }
    }
}

/// The query string of a shield request: the RPC endpoint to forward to.
#[derive(Debug)]
pub struct QueryParams {
    pub rpc: Option<String>,
}

impl View for QueryParams {
    type V = Option<Seq<char>>;

    open spec fn view(&self) -> Option<Seq<char>> {
        match self.rpc {
            Some(rpc) => Some(rpc@),
            None => None,
        }
    }
}

} // verus!
