//! The shield's decisions for one JSON-RPC request, as a state machine.
//!
//! The library decides; the server performs each action (a database query,
//! a database write, forwarding to the RPC node, or an answer) and reports
//! back with an event. Transactions and calls addressed to an address on the
//! alert list, or to an address that imitates one the user sent to before,
//! are refused. A sent transaction is forwarded only after its recipient was
//! cleared and cached; a call is forwarded once its address was cleared.

use vstd::prelude::*;
use vstd::string::*;

use crate::address::{
    address_display, address_key, address_key_text, address_views, is_vanity_address,
    lemma_address_key_reads_back, lemma_vanity_means_same_outer_digits, looks_like_cached,
    all_white_space, hex_text_of, lemma_address_text_reads_back, parsed_address, resembles,
    row_names, same_outer_digits, string_to_h160, Address,
};
use crate::encoding::{hex_decodable, hex_decoded, hex_lower, same_text};
use vstd::utf8::encode_utf8;
use crate::transaction::{
    checked_decode_transaction, decode_transaction, lemma_raw_transaction_is_rlp_of_hex,
    raw_transaction, rlp_transaction_recipient,
};
use crate::types::{
    JsonRpcRequest, ParamView, QueryParams, RequestView, RpcError, RpcErrorCode, RpcParam,
    RpcResponse, RpcResponseView,
};

verus! {

/// The RPC node that requests go to when the query names none.
pub const DEFAULT_RPC: &'static str = "https://rpc-goerli.flashbots.net/fast";

/// The method that submits a signed transaction.
pub const SEND_RAW_TRANSACTION: &'static str = "eth_sendRawTransaction";

/// The method that asks the node to execute a call without sending it.
pub const ETH_CALL: &'static str = "eth_call";

/// The method that asks the node to sign and send a transaction.
pub const SEND_TRANSACTION: &'static str = "eth_sendTransaction";

/// The answer given when the RPC endpoint of the query is no URL.
pub const INVALID_RPC_URL_MESSAGE: &'static str = "Please provide a valid RPC URL";

/// The start of the message that refuses a transaction to a listed address.
pub const SUSPICIOUS_CONTRACT_MESSAGE: &'static str = "Interaction with a suspicious contract. To Address: ";

/// The start of the message that refuses a transaction to a look-alike address.
pub const VANITY_ADDRESS_MESSAGE: &'static str = "Interaction with a vanity address. To Address: ";

/// Whether `reqwest::Url::parse` accepts the text as an absolute URL.
pub uninterp spec fn url_parses(text: Seq<char>) -> bool;

/// `reqwest::Url::parse(text).is_ok()`: whether the text parses as a URL,
/// as `url_parses` names it. The URL grammar is left to that name.
#[verifier::external_body]
fn url_is_valid(text: &str) -> (valid: bool)
    ensures
        valid == url_parses(text@),
{
    reqwest::Url::parse(text).is_ok()
}

/// Where a request is handled so far. `remember` tells whether the
/// recipient is cached once cleared (sent transactions) or not (calls).
#[derive(Debug)]
pub enum ShieldState {
    /// Waiting for the number of alert-list entries that name the recipient.
    AwaitingMaliciousCount { to: Address, target: String, remember: bool },
    /// Waiting for the addresses the user dealt with before.
    AwaitingCachedAddresses { to: Address, target: String, remember: bool },
    /// Waiting for the recipient to be added to those addresses.
    AwaitingCacheWrite { to: Address, target: String },
    /// Nothing is left to decide.
    Finished,
}

/// What the server reports after performing an action.
#[derive(Debug)]
pub enum ShieldEvent {
    /// The number of alert-list entries under the queried key.
    MaliciousCount(i64),
    /// The cached addresses (none when they could not be read).
    CachedAddresses(Vec<Address>),
    /// The recipient was written to the cache (or the write failed).
    CacheWritten,
}

/// What the server is asked to do next.
#[derive(Debug)]
pub enum ShieldAction {
    /// Answer `INVALID_RPC_URL_MESSAGE`.
    ReplyInvalidRpcUrl,
    /// Answer with this refusal; the request goes no further.
    Reject(RpcResponse<'static>),
    /// Count the alert-list entries stored under this key.
    QueryMalicious(String),
    /// Read the cached addresses.
    FetchCachedAddresses,
    /// Add this key to the cached addresses.
    CacheAddress(String),
    /// Send the request to this RPC endpoint and answer with its reply.
    Forward(String),
}

/// The content of a `ShieldState`.
pub enum ShieldStateView {
    AwaitingMaliciousCount { to: Seq<u8>, target: Seq<char>, remember: bool },
    AwaitingCachedAddresses { to: Seq<u8>, target: Seq<char>, remember: bool },
    AwaitingCacheWrite { to: Seq<u8>, target: Seq<char> },
    Finished,
}

/// The content of a `ShieldEvent`.
pub enum ShieldEventView {
    MaliciousCount(int),
    CachedAddresses(Seq<Seq<u8>>),
    CacheWritten,
}

/// The content of a `ShieldAction`.
pub enum ShieldActionView {
    ReplyInvalidRpcUrl,
    Reject(RpcResponseView),
    QueryMalicious(Seq<char>),
    FetchCachedAddresses,
    CacheAddress(Seq<char>),
    Forward(Seq<char>),
}

impl View for ShieldState {
    type V = ShieldStateView;

    open spec fn view(&self) -> ShieldStateView {
        match self {
            ShieldState::AwaitingMaliciousCount { to, target, remember } => {
                ShieldStateView::AwaitingMaliciousCount {
                    to: to@,
                    target: target@,
                    remember: *remember,
                }
            },
            ShieldState::AwaitingCachedAddresses { to, target, remember } => {
                ShieldStateView::AwaitingCachedAddresses {
                    to: to@,
                    target: target@,
                    remember: *remember,
                }
            },
            ShieldState::AwaitingCacheWrite { to, target } => {
                ShieldStateView::AwaitingCacheWrite { to: to@, target: target@ }
            },
            ShieldState::Finished => ShieldStateView::Finished,
        }
    }
}

impl View for ShieldEvent {
    type V = ShieldEventView;

    open spec fn view(&self) -> ShieldEventView {
        match self {
            ShieldEvent::MaliciousCount(n) => ShieldEventView::MaliciousCount(*n as int),
            ShieldEvent::CachedAddresses(c) => ShieldEventView::CachedAddresses(
                address_views(c@),
            ),
            ShieldEvent::CacheWritten => ShieldEventView::CacheWritten,
        }
    }
}

impl View for ShieldAction {
    type V = ShieldActionView;

    open spec fn view(&self) -> ShieldActionView {
        match self {
            ShieldAction::ReplyInvalidRpcUrl => ShieldActionView::ReplyInvalidRpcUrl,
            ShieldAction::Reject(response) => ShieldActionView::Reject(response@),
            ShieldAction::QueryMalicious(key) => ShieldActionView::QueryMalicious(key@),
            ShieldAction::FetchCachedAddresses => ShieldActionView::FetchCachedAddresses,
            ShieldAction::CacheAddress(key) => ShieldActionView::CacheAddress(key@),
            ShieldAction::Forward(target) => ShieldActionView::Forward(target@),
        }
    }
}

/// The RPC endpoint that a request goes to: the one of the query, or the default.
pub open spec fn forward_target(rpc: Option<Seq<char>>) -> Seq<char> {
    match rpc {
        Some(target) => target,
        None => DEFAULT_RPC@,
    }
}

/// The request submits a signed transaction.
pub open spec fn is_raw_transaction_call(request: RequestView) -> bool {
    request.method == SEND_RAW_TRANSACTION@
}

/// The request carries a call object (`eth_call` or `eth_sendTransaction`).
pub open spec fn is_call_object_method(request: RequestView) -> bool {
    request.method == ETH_CALL@ || request.method == SEND_TRANSACTION@
}

/// The text of the first parameter (empty when it is no text).
pub open spec fn first_text(request: RequestView) -> Seq<char> {
    match request.params[0] {
        ParamView::Text(t) => t,
        _ => Seq::empty(),
    }
}

/// The address that the call object of the first parameter is addressed
/// to, when its `to` member reads back as an address.
pub open spec fn call_recipient(request: RequestView) -> Option<Seq<u8>> {
    if request.params.len() > 0 {
        match request.params[0] {
            ParamView::Object { to: Some(t) } => match parsed_address(t) {
                Ok(a) => Some(a),
                Err(_) => None,
            },
            _ => None,
        }
    } else {
        None
    }
}

/// The address a request is screened for, and whether that address is
/// cached once cleared: the recipient of a raw or sent transaction (cached),
/// or the address of a call (not cached). Other requests are not screened.
pub open spec fn screened_recipient(request: RequestView) -> Option<(Seq<u8>, bool)> {
    if is_raw_transaction_call(request) {
        Some((raw_transaction(first_text(request))->0->0, true))
    } else if is_call_object_method(request) {
        match call_recipient(request) {
            Some(a) => Some((a, request.method == SEND_TRANSACTION@)),
            None => None,
        }
    } else {
        None
    }
}

/// The address a screened request is screened for.
pub open spec fn screened_address(request: RequestView) -> Seq<u8> {
    match screened_recipient(request) {
        Some((a, _)) => a,
        None => Seq::empty(),
    }
}

/// The shield can start on the request: when a raw transaction is to be
/// checked, its first parameter is text that decodes to a transaction with
/// a recipient.
pub open spec fn shield_defined(request: RequestView, rpc: Option<Seq<char>>) -> bool {
    url_parses(forward_target(rpc)) && is_raw_transaction_call(request) ==> {
        &&& request.params.len() > 0
        &&& request.params[0] is Text
        &&& raw_transaction(first_text(request)) matches Some(Some(_))
    }
}

/// The refusal with code -32600 and the given message.
pub open spec fn refusal(message: Seq<char>) -> RpcResponseView {
    RpcResponseView {
        id: 2,
        jsonrpc: "2.0"@,
        result: None,
        error: Some((-32600, message)),
    }
}

/// The first decision on a request: a bad endpoint is answered at once, a
/// screened address is looked up on the alert list, any other request is
/// forwarded.
pub open spec fn shield_start(request: RequestView, rpc: Option<Seq<char>>) -> (
    ShieldStateView,
    ShieldActionView,
) {
    let target = forward_target(rpc);
    if !url_parses(target) {
        (ShieldStateView::Finished, ShieldActionView::ReplyInvalidRpcUrl)
    } else {
        match screened_recipient(request) {
            Some((to, remember)) => (
                ShieldStateView::AwaitingMaliciousCount { to, target, remember },
                ShieldActionView::QueryMalicious(address_key_text(to)),
            ),
            None => (ShieldStateView::Finished, ShieldActionView::Forward(target)),
        }
    }
}

/// The next decision after an event, or nothing when the state does not
/// wait for that event.
pub open spec fn shield_step(state: ShieldStateView, event: ShieldEventView) -> Option<
    (ShieldStateView, ShieldActionView),
> {
    match (state, event) {
        (
            ShieldStateView::AwaitingMaliciousCount { to, target, remember },
            ShieldEventView::MaliciousCount(count),
        ) => if count > 0 {
            Some(
                (
                    ShieldStateView::Finished,
                    ShieldActionView::Reject(
                        refusal(SUSPICIOUS_CONTRACT_MESSAGE@ + "0x"@ + hex_lower(to)),
                    ),
                ),
            )
        } else {
            Some(
                (
                    ShieldStateView::AwaitingCachedAddresses { to, target, remember },
                    ShieldActionView::FetchCachedAddresses,
                ),
            )
        },
        (
            ShieldStateView::AwaitingCachedAddresses { to, target, remember },
            ShieldEventView::CachedAddresses(cached),
        ) => if looks_like_cached(to, cached) {
            Some(
                (
                    ShieldStateView::Finished,
                    ShieldActionView::Reject(
                        refusal(VANITY_ADDRESS_MESSAGE@ + "0x"@ + hex_lower(to)),
                    ),
                ),
            )
        } else if remember {
            Some(
                (
                    ShieldStateView::AwaitingCacheWrite { to, target },
                    ShieldActionView::CacheAddress(address_key_text(to)),
                ),
            )
        } else {
            Some((ShieldStateView::Finished, ShieldActionView::Forward(target)))
        },
        (ShieldStateView::AwaitingCacheWrite { to, target }, ShieldEventView::CacheWritten) => {
            Some((ShieldStateView::Finished, ShieldActionView::Forward(target)))
        },
        _ => None,
    }
}

/// The state waits for the event.
pub open spec fn accepts(state: ShieldStateView, event: ShieldEventView) -> bool {
    shield_step(state, event) is Some
}

/// The actions taken from `state` on the events, up to the first event the
/// state does not wait for.
pub open spec fn run_from(state: ShieldStateView, events: Seq<ShieldEventView>) -> Seq<
    ShieldActionView,
>
    decreases events.len(),
{
    if events.len() == 0 {
        seq![]
    } else {
        match shield_step(state, events[0]) {
            Some((next, action)) => seq![action] + run_from(next, events.drop_first()),
            None => seq![],
        }
    }
}

/// All actions taken on a request, given the events that the server reports.
pub open spec fn shield_run(
    request: RequestView,
    rpc: Option<Seq<char>>,
    events: Seq<ShieldEventView>,
) -> Seq<ShieldActionView> {
    seq![shield_start(request, rpc).1] + run_from(shield_start(request, rpc).0, events)
}

/// A refusal whose message is `message` followed by the address.
fn refuse(message: &str, to: &Address) -> (response: RpcResponse<'static>)
    ensures
        response@ == refusal(message@ + "0x"@ + hex_lower(to@)),
{
    let mut text = String::from_str(message);
    text.append(address_display(to).as_str());
    let code = RpcErrorCode::InvalidRequest;
    let response = RpcResponse::new(None, Some(RpcError { code: code.to_error_code(), message: text }));
    assert(response@.error == Some((-32600int, message@ + "0x"@ + hex_lower(to@))));
    response
}

/// The endpoint a request goes to: the `rpc` of the query, or `DEFAULT_RPC`.
pub fn target_rpc(params: &QueryParams) -> (target: String)
    ensures
        target@ == forward_target(params@),
{
    match &params.rpc {
        Some(target) => target.clone(),
        None => String::from_str(DEFAULT_RPC),
    }
}

/// The address that the call object of the request's first parameter is
/// addressed to (see `call_recipient`).
pub fn call_object_recipient(request: &JsonRpcRequest) -> (to: Option<Address>)
    ensures
        match to {
            Some(a) => call_recipient(request@) == Some(a@),
            None => call_recipient(request@) is None,
        },
{
    if request.params.len() == 0 {
        return None;
    }
    assert(request@.params[0] == request.params@[0]@);
    match &request.params[0] {
        RpcParam::Object { to: Some(text) } => match string_to_h160(text.as_str()) {
            Ok(address) => Some(address),
            Err(_) => None,
        },
        _ => None,
    }
}

/// The first decision on a request (see `shield_start`).
pub fn shield(request: &JsonRpcRequest, params: &QueryParams) -> (r: (ShieldState, ShieldAction))
    requires
        shield_defined(request@, params@),
    ensures
        (r.0@, r.1@) == shield_start(request@, params@),
{
    let target = target_rpc(params);
    if !url_is_valid(target.as_str()) {
        return (ShieldState::Finished, ShieldAction::ReplyInvalidRpcUrl);
    }
    if same_text(request.method.as_str(), SEND_RAW_TRANSACTION) {
        assert(request@.params[0] == request.params@[0]@);
        let raw_tx = match &request.params[0] {
            RpcParam::Text(text) => text.as_str(),
            _ => "",
        };
        let tx = decode_transaction(raw_tx);
        let to = tx.to.unwrap();
        let key = address_key(&to);
        (
            ShieldState::AwaitingMaliciousCount { to, target, remember: true },
            ShieldAction::QueryMalicious(key),
        )
    } else if same_text(request.method.as_str(), ETH_CALL) || same_text(
        request.method.as_str(),
        SEND_TRANSACTION,
    ) {
        let remember = same_text(request.method.as_str(), SEND_TRANSACTION);
        match call_object_recipient(request) {
            Some(to) => {
                let key = address_key(&to);
                (
                    ShieldState::AwaitingMaliciousCount { to, target, remember },
                    ShieldAction::QueryMalicious(key),
                )
            },
            None => (ShieldState::Finished, ShieldAction::Forward(target)),
        }
    } else {
        (ShieldState::Finished, ShieldAction::Forward(target))
    }
}

/// `shield` where it is defined; nothing for a raw transaction call without
/// a text parameter that decodes to a transaction with a recipient.
pub fn checked_shield(request: &JsonRpcRequest, params: &QueryParams) -> (r: Option<
    (ShieldState, ShieldAction),
>)
    ensures
        r is Some <==> shield_defined(request@, params@),
        r matches Some(start) ==> (start.0@, start.1@) == shield_start(request@, params@),
{
    let target = target_rpc(params);
    if url_is_valid(target.as_str()) && same_text(request.method.as_str(), SEND_RAW_TRANSACTION) {
        if request.params.len() == 0 {
            return None;
        }
        assert(request@.params[0] == request.params@[0]@);
        let raw_tx = match &request.params[0] {
            RpcParam::Text(text) => text.as_str(),
            _ => return None,
        };
        match checked_decode_transaction(raw_tx) {
            None => return None,
            Some(tx) => {
                if tx.to.is_none() {
                    return None;
                }
            },
        }
    }
    Some(shield(request, params))
}

/// Whether the state waits for the event (see `accepts`).
pub fn expects(state: &ShieldState, event: &ShieldEvent) -> (waits: bool)
    ensures
        waits == accepts(state@, event@),
{
    match (state, event) {
        (ShieldState::AwaitingMaliciousCount { .. }, ShieldEvent::MaliciousCount(_)) => true,
        (ShieldState::AwaitingCachedAddresses { .. }, ShieldEvent::CachedAddresses(_)) => true,
        (ShieldState::AwaitingCacheWrite { .. }, ShieldEvent::CacheWritten) => true,
        _ => false,
    }
}

/// The next decision after an event (see `shield_step`).
pub fn advance(state: ShieldState, event: ShieldEvent) -> (r: (ShieldState, ShieldAction))
    requires
        accepts(state@, event@),
    ensures
        shield_step(state@, event@) == Some((r.0@, r.1@)),
{
    match state {
        ShieldState::AwaitingMaliciousCount { to, target, remember } => {
            let count: i64 = match event {
                ShieldEvent::MaliciousCount(count) => count,
                _ => 0,
            };
            if count > 0 {
                (ShieldState::Finished, ShieldAction::Reject(refuse(SUSPICIOUS_CONTRACT_MESSAGE, &to)))
            } else {
                (
                    ShieldState::AwaitingCachedAddresses { to, target, remember },
                    ShieldAction::FetchCachedAddresses,
                )
            }
        },
        ShieldState::AwaitingCachedAddresses { to, target, remember } => {
            let vanity = match &event {
                ShieldEvent::CachedAddresses(cached) => is_vanity_address(&to, cached.as_slice()),
                _ => false,
            };
            if vanity {
                (ShieldState::Finished, ShieldAction::Reject(refuse(VANITY_ADDRESS_MESSAGE, &to)))
            } else if remember {
                let key = address_key(&to);
                (ShieldState::AwaitingCacheWrite { to, target }, ShieldAction::CacheAddress(key))
            } else {
                (ShieldState::Finished, ShieldAction::Forward(target))
            }
        },
        ShieldState::AwaitingCacheWrite { to, target } => {
            (ShieldState::Finished, ShieldAction::Forward(target))
        },
        ShieldState::Finished => (ShieldState::Finished, ShieldAction::ReplyInvalidRpcUrl),
    }
}

/// No event moves a finished request: nothing more is done for it.
pub proof fn lemma_finished_runs_no_further(events: Seq<ShieldEventView>)
    ensures
        run_from(ShieldStateView::Finished, events) == Seq::<ShieldActionView>::empty(),
{
    if events.len() > 0 {
        assert(shield_step(ShieldStateView::Finished, events[0]) is None);
    }
    assert(run_from(ShieldStateView::Finished, events) =~= Seq::<ShieldActionView>::empty());
}

/// A request whose RPC endpoint is no URL is answered with
/// `INVALID_RPC_URL_MESSAGE` and nothing else happens.
pub proof fn lemma_invalid_rpc_url_is_answered(
    request: RequestView,
    rpc: Option<Seq<char>>,
    events: Seq<ShieldEventView>,
)
    requires
        !url_parses(forward_target(rpc)),
    ensures
        shield_run(request, rpc, events) == seq![ShieldActionView::ReplyInvalidRpcUrl],
{
    lemma_finished_runs_no_further(events);
    assert(shield_run(request, rpc, events) =~= seq![ShieldActionView::ReplyInvalidRpcUrl]);
}

/// A request that names no address to screen (neither a transaction nor a
/// call object with a readable `to`) goes straight to the RPC endpoint, with
/// no lookup and nothing cached.
pub proof fn lemma_unscreened_requests_are_forwarded(
    request: RequestView,
    rpc: Option<Seq<char>>,
    events: Seq<ShieldEventView>,
)
    requires
        url_parses(forward_target(rpc)),
        screened_recipient(request) is None,
    ensures
        shield_run(request, rpc, events) == seq![ShieldActionView::Forward(forward_target(rpc))],
{
    lemma_finished_runs_no_further(events);
    assert(shield_run(request, rpc, events) =~= seq![
        ShieldActionView::Forward(forward_target(rpc)),
    ]);
}

/// A transaction or call addressed to an address that the alert list names
/// is refused as an interaction with a suspicious contract right after the
/// lookup: nothing is cached and nothing is forwarded.
pub proof fn lemma_listed_address_is_refused(
    request: RequestView,
    rpc: Option<Seq<char>>,
    events: Seq<ShieldEventView>,
)
    requires
        shield_defined(request, rpc),
        url_parses(forward_target(rpc)),
        screened_recipient(request) is Some,
        events.len() > 0,
        events[0] matches ShieldEventView::MaliciousCount(count) && count > 0,
    ensures
        ({
            let to = screened_address(request);
            shield_run(request, rpc, events) == seq![
                ShieldActionView::QueryMalicious(address_key_text(to)),
                ShieldActionView::Reject(
                    refusal(SUSPICIOUS_CONTRACT_MESSAGE@ + "0x"@ + hex_lower(to)),
                ),
            ]
        }),
{
    let to = screened_address(request);
    let start = shield_start(request, rpc).0;
    lemma_finished_runs_no_further(events.drop_first());
    assert(run_from(start, events) =~= seq![
        ShieldActionView::Reject(refusal(SUSPICIOUS_CONTRACT_MESSAGE@ + "0x"@ + hex_lower(to))),
    ]);
    assert(shield_run(request, rpc, events) =~= seq![
        ShieldActionView::QueryMalicious(address_key_text(to)),
        ShieldActionView::Reject(refusal(SUSPICIOUS_CONTRACT_MESSAGE@ + "0x"@ + hex_lower(to))),
    ]);
}

/// A transaction or call addressed to an address that imitates a cached one
/// is refused as an interaction with a vanity address once the cache was
/// read: nothing is cached and nothing is forwarded.
pub proof fn lemma_lookalike_address_is_refused(
    request: RequestView,
    rpc: Option<Seq<char>>,
    events: Seq<ShieldEventView>,
)
    requires
        shield_defined(request, rpc),
        url_parses(forward_target(rpc)),
        screened_recipient(request) is Some,
        events.len() > 1,
        events[0] matches ShieldEventView::MaliciousCount(count) && count <= 0,
        events[1] matches ShieldEventView::CachedAddresses(cached) && looks_like_cached(
            screened_address(request),
            cached,
        ),
    ensures
        ({
            let to = screened_address(request);
            shield_run(request, rpc, events) == seq![
                ShieldActionView::QueryMalicious(address_key_text(to)),
                ShieldActionView::FetchCachedAddresses,
                ShieldActionView::Reject(refusal(VANITY_ADDRESS_MESSAGE@ + "0x"@ + hex_lower(to))),
            ]
        }),
{
    let (to, remember) = screened_recipient(request)->0;
    let target = forward_target(rpc);
    let start = shield_start(request, rpc).0;
    let rest = events.drop_first();
    lemma_finished_runs_no_further(rest.drop_first());
    assert(rest[0] == events[1]);
    let reject = ShieldActionView::Reject(refusal(VANITY_ADDRESS_MESSAGE@ + "0x"@ + hex_lower(to)));
    assert(run_from(ShieldStateView::AwaitingCachedAddresses { to, target, remember }, rest)
        =~= seq![reject]);
    assert(run_from(start, events) =~= seq![ShieldActionView::FetchCachedAddresses, reject]);
    assert(shield_run(request, rpc, events) =~= seq![
        ShieldActionView::QueryMalicious(address_key_text(to)),
        ShieldActionView::FetchCachedAddresses,
        reject,
    ]);
}

/// A screened request is forwarded only after its address was found on no
/// alert list and found to imitate no cached address; a sent transaction is
/// forwarded fourth, after its recipient was cached, a call third, with
/// nothing cached; and it goes to the requested endpoint.
pub proof fn lemma_forwarded_only_after_checks(
    request: RequestView,
    rpc: Option<Seq<char>>,
    events: Seq<ShieldEventView>,
    i: int,
)
    requires
        shield_defined(request, rpc),
        screened_recipient(request) is Some,
        0 <= i < shield_run(request, rpc, events).len(),
        shield_run(request, rpc, events)[i] is Forward,
    ensures
        ({
            let (to, remember) = screened_recipient(request)->0;
            &&& url_parses(forward_target(rpc))
            &&& events.len() >= 2
            &&& events[0] matches ShieldEventView::MaliciousCount(count) && count <= 0
            &&& events[1] matches ShieldEventView::CachedAddresses(cached) && !looks_like_cached(
                to,
                cached,
            )
            &&& remember ==> {
                &&& i == 3
                &&& events.len() >= 3
                &&& events[2] is CacheWritten
                &&& shield_run(request, rpc, events) == seq![
                    ShieldActionView::QueryMalicious(address_key_text(to)),
                    ShieldActionView::FetchCachedAddresses,
                    ShieldActionView::CacheAddress(address_key_text(to)),
                    ShieldActionView::Forward(forward_target(rpc)),
                ]
            }
            &&& !remember ==> {
                &&& i == 2
                &&& shield_run(request, rpc, events) == seq![
                    ShieldActionView::QueryMalicious(address_key_text(to)),
                    ShieldActionView::FetchCachedAddresses,
                    ShieldActionView::Forward(forward_target(rpc)),
                ]
            }
        }),
{
    let run = shield_run(request, rpc, events);
    let target = forward_target(rpc);
    if !url_parses(target) {
        lemma_invalid_rpc_url_is_answered(request, rpc, events);
        assert(false);
    }
    let (to, remember) = screened_recipient(request)->0;
    let s0 = ShieldStateView::AwaitingMaliciousCount { to, target, remember };
    let s1 = ShieldStateView::AwaitingCachedAddresses { to, target, remember };
    let s2 = ShieldStateView::AwaitingCacheWrite { to, target };
    assert(run =~= seq![ShieldActionView::QueryMalicious(address_key_text(to))] + run_from(s0, events));
    let e1 = events.drop_first();
    let e2 = e1.drop_first();
    let e3 = e2.drop_first();
    if events.len() == 0 || !(events[0] is MaliciousCount) {
        assert(run_from(s0, events) =~= Seq::<ShieldActionView>::empty());
        assert(false);
    }
    let count: int = events[0]->MaliciousCount_0;
    if count > 0 {
        lemma_listed_address_is_refused(request, rpc, events);
        assert(false);
    }
    assert(run_from(s0, events) =~= seq![ShieldActionView::FetchCachedAddresses] + run_from(s1, e1));
    if e1.len() == 0 || !(e1[0] is CachedAddresses) {
        assert(run_from(s1, e1) =~= Seq::<ShieldActionView>::empty());
        assert(false);
    }
    let cached = e1[0]->CachedAddresses_0;
    if looks_like_cached(to, cached) {
        lemma_lookalike_address_is_refused(request, rpc, events);
        assert(false);
    }
    assert(events[1] == e1[0]);
    if remember {
        assert(run_from(s1, e1) =~= seq![ShieldActionView::CacheAddress(address_key_text(to))]
            + run_from(s2, e2));
        if e2.len() == 0 || !(e2[0] is CacheWritten) {
            assert(run_from(s2, e2) =~= Seq::<ShieldActionView>::empty());
            assert(false);
        }
        lemma_finished_runs_no_further(e3);
        assert(run_from(s2, e2) =~= seq![ShieldActionView::Forward(target)]);
        assert(run =~= seq![
            ShieldActionView::QueryMalicious(address_key_text(to)),
            ShieldActionView::FetchCachedAddresses,
            ShieldActionView::CacheAddress(address_key_text(to)),
            ShieldActionView::Forward(target),
        ]);
        assert(events[2] == e2[0]);
    } else {
        lemma_finished_runs_no_further(e2);
        assert(run_from(s1, e1) =~= seq![ShieldActionView::Forward(target)]);
        assert(run =~= seq![
            ShieldActionView::QueryMalicious(address_key_text(to)),
            ShieldActionView::FetchCachedAddresses,
            ShieldActionView::Forward(target),
        ]);
    }
}

/// From this state on, nothing will be cached.
pub open spec fn caches_nothing(state: ShieldStateView) -> bool {
    match state {
        ShieldStateView::AwaitingMaliciousCount { remember, .. } => !remember,
        ShieldStateView::AwaitingCachedAddresses { remember, .. } => !remember,
        ShieldStateView::AwaitingCacheWrite { .. } => false,
        ShieldStateView::Finished => true,
    }
}

proof fn lemma_run_caches_nothing(state: ShieldStateView, events: Seq<ShieldEventView>)
    requires
        caches_nothing(state),
    ensures
        forall|i: int|
            0 <= i < run_from(state, events).len() ==> !(#[trigger] run_from(state, events)[i] is CacheAddress),
    decreases events.len(),
{
    if events.len() > 0 {
        match shield_step(state, events[0]) {
            Some((next, action)) => {
                lemma_run_caches_nothing(next, events.drop_first());
                assert(run_from(state, events) == seq![action] + run_from(next, events.drop_first()));
            },
            None => {},
        }
    }
}

/// An `eth_call` never has anything cached, whatever the server reports.
pub proof fn lemma_calls_are_never_cached(
    request: RequestView,
    rpc: Option<Seq<char>>,
    events: Seq<ShieldEventView>,
)
    requires
        request.method == ETH_CALL@,
    ensures
        forall|i: int|
            0 <= i < shield_run(request, rpc, events).len() ==> !(#[trigger] shield_run(
                request,
                rpc,
                events,
            )[i] is CacheAddress),
{
    reveal_strlit("eth_call");
    reveal_strlit("eth_sendTransaction");
    reveal_strlit("eth_sendRawTransaction");
    assert(ETH_CALL@.len() == 8);
    assert(SEND_TRANSACTION@.len() == 19);
    assert(SEND_RAW_TRANSACTION@.len() == 22);
    let start = shield_start(request, rpc);
    assert(caches_nothing(start.0));
    lemma_run_caches_nothing(start.0, events);
    assert(shield_run(request, rpc, events) == seq![start.1] + run_from(start.0, events));
}

/// Once an address `earlier` was cached (its key is among the stored rows),
/// a later transaction or call addressed to a different address that shares
/// its first and last hex digit is refused as a vanity address, provided the
/// cached addresses reported for it hold every address the stored rows name
/// (as `cached_address_set` makes them).
pub proof fn lemma_cached_address_exposes_lookalikes(
    request: RequestView,
    rpc: Option<Seq<char>>,
    events: Seq<ShieldEventView>,
    rows: Seq<Seq<char>>,
    earlier: Seq<u8>,
)
    requires
        shield_defined(request, rpc),
        url_parses(forward_target(rpc)),
        screened_recipient(request) is Some,
        screened_address(request).len() == 20,
        earlier.len() == 20,
        rows.contains(address_key_text(earlier)),
        same_outer_digits(earlier, screened_address(request)),
        events.len() > 1,
        events[0] matches ShieldEventView::MaliciousCount(count) && count <= 0,
        events[1] matches ShieldEventView::CachedAddresses(cached) && forall|i: int, a: Seq<u8>|
            0 <= i < rows.len() && #[trigger] row_names(rows[i], a) ==> exists|k: int|
                0 <= k < cached.len() && #[trigger] cached[k] == a,
    ensures
        ({
            let to = screened_address(request);
            shield_run(request, rpc, events) == seq![
                ShieldActionView::QueryMalicious(address_key_text(to)),
                ShieldActionView::FetchCachedAddresses,
                ShieldActionView::Reject(refusal(VANITY_ADDRESS_MESSAGE@ + "0x"@ + hex_lower(to))),
            ]
        }),
{
    let to = screened_address(request);
    let cached = events[1]->CachedAddresses_0;
    let i = choose|i: int| 0 <= i < rows.len() && rows[i] == address_key_text(earlier);
    lemma_address_key_reads_back(earlier);
    assert(row_names(rows[i], earlier));
    let k = choose|k: int| 0 <= k < cached.len() && #[trigger] cached[k] == earlier;
    let only = seq![earlier];
    assert(same_outer_digits(only[0], to));
    lemma_vanity_means_same_outer_digits(to, only);
    let (t, j) = choose|t: int, j: int|
        1 <= t <= 12 && 0 <= j < only.len() && #[trigger] resembles(
            hex_lower(only[j]),
            hex_lower(to),
            t,
        );
    assert(resembles(hex_lower(cached[k]), hex_lower(to), t));
    assert(looks_like_cached(to, cached));
    lemma_lookalike_address_is_refused(request, rpc, events);
}

/// The endpoint named in the query is forwarded to character for character;
/// without one, requests go to `DEFAULT_RPC`.
pub proof fn lemma_forward_target_is_the_query_endpoint(rpc: Option<Seq<char>>)
    ensures
        rpc matches Some(t) ==> forward_target(rpc) == t,
        rpc is None ==> forward_target(rpc) == DEFAULT_RPC@,
{
}

/// Only a raw-transaction call can leave the shield unable to start: every
/// other request, whatever its parameters, is handled.
pub proof fn lemma_only_raw_transactions_can_be_undefined(
    request: RequestView,
    rpc: Option<Seq<char>>,
)
    requires
        request.method != SEND_RAW_TRANSACTION@,
    ensures
        shield_defined(request, rpc),
{
}

/// A raw-transaction call is handled when its first parameter is text whose
/// bytes after the first two are hex for a transaction with a recipient.
pub proof fn lemma_decodable_raw_transactions_are_defined(
    request: RequestView,
    rpc: Option<Seq<char>>,
)
    requires
        request.params.len() > 0,
        request.params[0] is Text,
        encode_utf8(request.params[0]->Text_0).len() >= 2,
        hex_decodable(encode_utf8(request.params[0]->Text_0).skip(2)),
        rlp_transaction_recipient(hex_decoded(encode_utf8(request.params[0]->Text_0).skip(2)))
            matches Some(Some(_)),
    ensures
        shield_defined(request, rpc),
{
    lemma_raw_transaction_is_rlp_of_hex(request.params[0]->Text_0);
}

/// Every refusal has id 2, version "2.0", no result, code -32600 and the
/// given message.
pub proof fn lemma_refusal_content(message: Seq<char>)
    ensures
        refusal(message).id == 2,
        refusal(message).jsonrpc == "2.0"@,
        refusal(message).result is None,
        refusal(message).error == Some((-32600int, message)),
{
}

/// After the alert-list lookup: a positive count refuses the address as a
/// suspicious contract and ends the request; any other count goes on to
/// read the cache, with the address, endpoint and caching choice unchanged.
pub proof fn lemma_malicious_count_decides(
    to: Seq<u8>,
    target: Seq<char>,
    remember: bool,
    count: int,
)
    ensures
        ({
            let step = shield_step(
                ShieldStateView::AwaitingMaliciousCount { to, target, remember },
                ShieldEventView::MaliciousCount(count),
            );
            &&& count > 0 ==> step == Some(
                (
                    ShieldStateView::Finished,
                    ShieldActionView::Reject(
                        refusal(SUSPICIOUS_CONTRACT_MESSAGE@ + "0x"@ + hex_lower(to)),
                    ),
                ),
            )
            &&& count <= 0 ==> step == Some(
                (
                    ShieldStateView::AwaitingCachedAddresses { to, target, remember },
                    ShieldActionView::FetchCachedAddresses,
                ),
            )
        }),
{
}

/// After the cache was read: the address is refused as a vanity address
/// exactly when some cached address differs from it but shares its first
/// and last hex digit; otherwise a transaction's recipient is cached next
/// and a call is forwarded to the endpoint.
pub proof fn lemma_cache_check_decides(
    to: Seq<u8>,
    target: Seq<char>,
    remember: bool,
    cached: Seq<Seq<u8>>,
)
    requires
        to.len() == 20,
        forall|i: int| 0 <= i < cached.len() ==> (#[trigger] cached[i]).len() == 20,
    ensures
        ({
            let step = shield_step(
                ShieldStateView::AwaitingCachedAddresses { to, target, remember },
                ShieldEventView::CachedAddresses(cached),
            );
            let imitated = exists|i: int|
                0 <= i < cached.len() && #[trigger] same_outer_digits(cached[i], to);
            &&& imitated ==> step == Some(
                (
                    ShieldStateView::Finished,
                    ShieldActionView::Reject(refusal(VANITY_ADDRESS_MESSAGE@ + "0x"@ + hex_lower(to))),
                ),
            )
            &&& !imitated && remember ==> step == Some(
                (
                    ShieldStateView::AwaitingCacheWrite { to, target },
                    ShieldActionView::CacheAddress("0x"@ + hex_lower(to)),
                ),
            )
            &&& !imitated && !remember ==> step == Some(
                (ShieldStateView::Finished, ShieldActionView::Forward(target)),
            )
        }),
{
    lemma_vanity_means_same_outer_digits(to, cached);
}

/// A screened request whose address is on no alert list and imitates no
/// cached address is forwarded to the endpoint: a transaction after its
/// recipient was cached, a call right away.
pub proof fn lemma_clean_request_is_forwarded(
    request: RequestView,
    rpc: Option<Seq<char>>,
    count: int,
    cached: Seq<Seq<u8>>,
)
    requires
        shield_defined(request, rpc),
        url_parses(forward_target(rpc)),
        screened_recipient(request) is Some,
        screened_address(request).len() == 20,
        forall|i: int| 0 <= i < cached.len() ==> (#[trigger] cached[i]).len() == 20,
        forall|i: int| 0 <= i < cached.len() ==> !#[trigger] same_outer_digits(cached[i], screened_address(request)),
        count <= 0,
    ensures
        ({
            let (to, remember) = screened_recipient(request)->0;
            let events = seq![
                ShieldEventView::MaliciousCount(count),
                ShieldEventView::CachedAddresses(cached),
                ShieldEventView::CacheWritten,
            ];
            let run = shield_run(request, rpc, events);
            &&& remember ==> run == seq![
                ShieldActionView::QueryMalicious("0x"@ + hex_lower(to)),
                ShieldActionView::FetchCachedAddresses,
                ShieldActionView::CacheAddress("0x"@ + hex_lower(to)),
                ShieldActionView::Forward(forward_target(rpc)),
            ]
            &&& !remember ==> run == seq![
                ShieldActionView::QueryMalicious("0x"@ + hex_lower(to)),
                ShieldActionView::FetchCachedAddresses,
                ShieldActionView::Forward(forward_target(rpc)),
            ]
        }),
{
    let (to, remember) = screened_recipient(request)->0;
    let target = forward_target(rpc);
    let events = seq![
        ShieldEventView::MaliciousCount(count),
        ShieldEventView::CachedAddresses(cached),
        ShieldEventView::CacheWritten,
    ];
    lemma_cache_check_decides(to, target, remember, cached);
    let s0 = ShieldStateView::AwaitingMaliciousCount { to, target, remember };
    let s1 = ShieldStateView::AwaitingCachedAddresses { to, target, remember };
    let s2 = ShieldStateView::AwaitingCacheWrite { to, target };
    let e1 = events.drop_first();
    let e2 = e1.drop_first();
    let e3 = e2.drop_first();
    assert(e1[0] == events[1]);
    assert(e2[0] == events[2]);
    assert(e3.len() == 0);
    lemma_finished_runs_no_further(e2);
    lemma_finished_runs_no_further(e3);
    if remember {
        assert(run_from(s2, e2) =~= seq![ShieldActionView::Forward(target)]);
        assert(run_from(s1, e1) =~= seq![ShieldActionView::CacheAddress("0x"@ + hex_lower(to))]
            + run_from(s2, e2));
    } else {
        assert(run_from(s1, e1) =~= seq![ShieldActionView::Forward(target)]);
    }
    assert(run_from(s0, events) =~= seq![ShieldActionView::FetchCachedAddresses] + run_from(s1, e1));
    assert(shield_run(request, rpc, events) =~= seq![
        ShieldActionView::QueryMalicious(address_key_text(to)),
    ] + run_from(s0, events));
}

/// An `eth_call` whose call object is addressed to the text of an address
/// (`0x` and hex, either case, whitespace around it) is screened for that
/// address and caches nothing; an `eth_sendTransaction` likewise, but its
/// recipient is cached once cleared.
pub proof fn lemma_call_objects_screen_their_address(
    request: RequestView,
    pre: Seq<char>,
    digits: Seq<char>,
    post: Seq<char>,
    address: Seq<u8>,
)
    requires
        request.method == ETH_CALL@ || request.method == SEND_TRANSACTION@,
        request.params.len() > 0,
        request.params[0] == (ParamView::Object { to: Some(pre + "0x"@ + digits + post) }),
        address.len() == 20,
        all_white_space(pre),
        all_white_space(post),
        hex_text_of(digits, address),
    ensures
        screened_recipient(request) == Some((address, request.method == SEND_TRANSACTION@)),
{
    reveal_strlit("eth_call");
    reveal_strlit("eth_sendTransaction");
    reveal_strlit("eth_sendRawTransaction");
    assert(ETH_CALL@.len() == 8);
    assert(SEND_TRANSACTION@.len() == 19);
    assert(SEND_RAW_TRANSACTION@.len() == 22);
    lemma_address_text_reads_back(pre, digits, post, address);
}

} // verus!
