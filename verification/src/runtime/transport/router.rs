use vstd::prelude::*;

use crate::error::{
    JSON_RPC_CONTRACT_MISMATCH, JSON_RPC_DANGLING_CONTRACT_REF, JSON_RPC_INVALID_PARAMS,
    JSON_RPC_INVALID_REQUEST, JSON_RPC_METHOD_NOT_FOUND, JSON_RPC_PARSE_ERROR,
    JSON_RPC_REGISTRATION_CONFLICT, JSON_RPC_UNKNOWN_CONTRACT,
};
use crate::json::{as_str_spec, member, parse_json, parsed_json, JsonValue, JsonView};
use crate::runtime::services::registry::{
    registry_error_message, CapabilityRegistryError, RegistryErrorView,
};
use crate::runtime::transport::session::SessionId;
use crate::text::{push_str, str_eq, string_of};

verus! {

/// A JSON-RPC error object.
#[derive(Debug, PartialEq, Eq)]
pub struct JsonRpcError {
    pub code: i64,
    pub message: String,
}

pub struct ErrorView {
    pub code: int,
    pub message: Seq<char>,
}

impl View for JsonRpcError {
    type V = ErrorView;

    open spec fn view(&self) -> ErrorView {
        ErrorView { code: self.code as int, message: self.message@ }
    }
}

pub open spec fn error_view(code: int, message: Seq<char>) -> ErrorView {
    ErrorView { code, message }
}

impl JsonRpcError {
    pub fn parse_error() -> (r: Self)
        ensures
            r@ == error_view(-32700, "Parse error"@),
    {
        JsonRpcError { code: JSON_RPC_PARSE_ERROR, message: string_of("Parse error") }
    }

    pub fn invalid_request(message: String) -> (r: Self)
        ensures
            r@ == error_view(-32600, message@),
    {
        JsonRpcError { code: JSON_RPC_INVALID_REQUEST, message }
    }

    pub fn method_not_found(method: &str) -> (r: Self)
        ensures
            r@ == error_view(-32601, "Method not found: "@ + method@),
    {
        let mut message = string_of("Method not found: ");
        push_str(&mut message, method);
        JsonRpcError { code: JSON_RPC_METHOD_NOT_FOUND, message }
    }

    pub fn invalid_params(message: String) -> (r: Self)
        ensures
            r@ == error_view(-32602, message@),
    {
        JsonRpcError { code: JSON_RPC_INVALID_PARAMS, message }
    }

    pub fn server_error(code: i64, message: String) -> (r: Self)
        ensures
            r@ == error_view(code as int, message@),
    {
        JsonRpcError { code, message }
    }

    pub fn copy(&self) -> (r: Self)
        ensures
            r@ == self@,
    {
        JsonRpcError { code: self.code, message: self.message.clone() }
    }
}

impl Clone for JsonRpcError {
    fn clone(&self) -> (r: Self)
        ensures
            r@ == self@,
    {
        self.copy()
    }
}

/// A request as the runtime reads it: a message without an `id` is a
/// notification, and its id reads as `null`.
#[derive(Debug, PartialEq)]
pub struct JsonRpcRequest {
    pub method: String,
    pub params: Option<JsonValue>,
    pub id: JsonValue,
    pub notification: bool,
}

pub struct RequestView {
    pub method: Seq<char>,
    pub params: Option<JsonView>,
    pub id: JsonView,
    pub notification: bool,
}

pub open spec fn opt_json(o: Option<JsonValue>) -> Option<JsonView> {
    match o {
        Some(v) => Some(v.view()),
        None => None,
    }
}

pub fn copy_opt_json(o: &Option<JsonValue>) -> (r: Option<JsonValue>)
    ensures
        opt_json(r) == opt_json(*o),
{
    match o {
        Some(v) => Some(v.copy()),
        None => None,
    }
}

impl View for JsonRpcRequest {
    type V = RequestView;

    open spec fn view(&self) -> RequestView {
        RequestView {
            method: self.method@,
            params: opt_json(self.params),
            id: self.id.view(),
            notification: self.notification,
        }
    }
}

/// A request together with the session that sent it.
#[derive(Debug, PartialEq)]
pub struct MethodContext {
    pub caller: SessionId,
    pub request: JsonRpcRequest,
}

/// A JSON-RPC response.
#[derive(Debug, PartialEq)]
pub struct JsonRpcResponse {
    pub jsonrpc: String,
    pub result: Option<JsonValue>,
    pub error: Option<JsonRpcError>,
    pub id: JsonValue,
}

pub struct ResponseView {
    pub jsonrpc: Seq<char>,
    pub result: Option<JsonView>,
    pub error: Option<ErrorView>,
    pub id: JsonView,
}

impl View for JsonRpcResponse {
    type V = ResponseView;

    open spec fn view(&self) -> ResponseView {
        ResponseView {
            jsonrpc: self.jsonrpc@,
            result: opt_json(self.result),
            error: match self.error {
                Some(e) => Some(e@),
                None => None,
            },
            id: self.id.view(),
        }
    }
}

/// A message a session sends: a request (or notification), or a response to
/// a request forwarded to it.
#[derive(Debug, PartialEq)]
pub enum JsonRpcMessage {
    Request(JsonRpcRequest),
    Response(JsonRpcResponse),
}

pub open spec fn success_view(result: JsonView, id: JsonView) -> ResponseView {
    ResponseView { jsonrpc: "2.0"@, result: Some(result), error: None, id }
}

pub open spec fn failure_view(error: ErrorView, id: JsonView) -> ResponseView {
    ResponseView { jsonrpc: "2.0"@, result: None, error: Some(error), id }
}

impl JsonRpcResponse {
    pub fn success(result: JsonValue, id: JsonValue) -> (r: Self)
        ensures
            r@ == success_view(result.view(), id.view()),
    {
        JsonRpcResponse { jsonrpc: string_of("2.0"), result: Some(result), error: None, id }
    }

    pub fn failure(error: JsonRpcError, id: JsonValue) -> (r: Self)
        ensures
            r@ == failure_view(error@, id.view()),
    {
        JsonRpcResponse { jsonrpc: string_of("2.0"), result: None, error: Some(error), id }
    }
}

/// The text a member holds, when the value is an object whose member under
/// `key` is a JSON string.
pub open spec fn member_str(v: JsonView, key: Seq<char>) -> Option<Seq<char>> {
    match member(v, key) {
        Some(x) => as_str_spec(x),
        None => None,
    }
}

/// What `parse_request` makes of a JSON value.
pub open spec fn request_of(v: JsonView) -> Result<RequestView, ErrorView> {
    if !(v is Object) {
        Err(error_view(-32600, "request must be an object"@))
    } else if member_str(v, "jsonrpc"@) != Some("2.0"@) {
        Err(error_view(-32600, "jsonrpc must be \"2.0\""@))
    } else if member_str(v, "method"@) is None {
        Err(error_view(-32600, "method must be a string"@))
    } else {
        Ok(
            RequestView {
                method: member_str(v, "method"@)->0,
                params: member(v, "params"@),
                id: match member(v, "id"@) {
                    Some(id) => id,
                    None => JsonView::Null,
                },
                notification: member(v, "id"@) is None,
            },
        )
    }
}

/// Reads a request: it must be an object with `"jsonrpc": "2.0"` and a string
/// `method`; `params` is taken as given; without an `id` it is a notification.
pub fn parse_request(value: JsonValue) -> (r: Result<JsonRpcRequest, JsonRpcError>)
    ensures
        match (r, request_of(value.view())) {
            (Ok(req), Ok(expected)) => req@ == expected,
            (Err(e), Err(expected)) => e@ == expected,
            _ => false,
        },
{
    if !value.is_object() {
        return Err(JsonRpcError::invalid_request(string_of("request must be an object")));
    }
    let version_ok = match value.get("jsonrpc") {
        Some(v) => match v.as_str() {
            Some(s) => str_eq(s.as_str(), "2.0"),
            None => false,
        },
        None => false,
    };
    proof {
        reveal_strlit("2.0");
    }
    if !version_ok {
        return Err(JsonRpcError::invalid_request(string_of("jsonrpc must be \"2.0\"")));
    }
    let method = match value.get("method") {
        Some(v) => match v.as_str() {
            Some(s) => s.clone(),
            None => return Err(JsonRpcError::invalid_request(string_of("method must be a string"))),
        },
        None => return Err(JsonRpcError::invalid_request(string_of("method must be a string"))),
    };
    let params = match value.get("params") {
        Some(p) => Some(p.copy()),
        None => None,
    };
    let (id, notification) = match value.get("id") {
        Some(id) => (id.copy(), false),
        None => (JsonValue::Null, true),
    };
    Ok(JsonRpcRequest { method, params, id, notification })
}

/// How a message is to be read.
pub enum MessageKind {
    Request,
    Response,
    Invalid(JsonRpcError),
}

/// A message with a `method` is a request; one with a `result` or an `error`
/// is a response; anything else, or a value that is not an object, is refused.
pub fn classify_message(value: &JsonValue) -> (r: MessageKind)
    ensures
        match r {
            MessageKind::Invalid(e) => (!(value.view() is Object) && e@ == error_view(-32600, "message must be an object"@))
                || (value.view() is Object && member(value.view(), "method"@) is None
                    && member(value.view(), "result"@) is None && member(value.view(), "error"@) is None
                    && e@ == error_view(-32600, "message must contain method, result, or error"@)),
            MessageKind::Request => value.view() is Object && member(value.view(), "method"@) is Some,
            MessageKind::Response => value.view() is Object && member(value.view(), "method"@) is None && (member(
                value.view(),
                "result"@,
            ) is Some || member(value.view(), "error"@) is Some),
        },
{
    if !value.is_object() {
        MessageKind::Invalid(JsonRpcError::invalid_request(string_of("message must be an object")))
    } else if value.contains_key("method") {
        MessageKind::Request
    } else if value.contains_key("result") || value.contains_key("error") {
        MessageKind::Response
    } else {
        MessageKind::Invalid(
            JsonRpcError::invalid_request(string_of("message must contain method, result, or error")),
        )
    }
}

/// What decoding a value as a response gave: the response, or the
/// decoder's message.
pub open spec fn decoded_view(d: Result<JsonRpcResponse, String>) -> Result<ResponseView, Seq<char>> {
    match d {
        Ok(r) => Ok(r@),
        Err(m) => Err(m@),
    }
}

/// What `check_response` makes of a decoded response.
pub open spec fn response_check(d: Result<ResponseView, Seq<char>>) -> Result<ResponseView, ErrorView> {
    match d {
        Err(m) => Err(error_view(-32600, m)),
        Ok(resp) => if resp.jsonrpc != "2.0"@ {
            Err(error_view(-32600, "jsonrpc must be \"2.0\""@))
        } else if resp.result is None && resp.error is None {
            Err(error_view(-32600, "response must contain result or error"@))
        } else {
            Ok(resp)
        },
    }
}

/// Checks a decoded response: decoding must have succeeded, `jsonrpc` must be
/// `"2.0"`, and a result or an error must be present. A decoding failure
/// becomes an invalid-request error with the decoder's message.
pub fn check_response(decoded: Result<JsonRpcResponse, String>) -> (r: Result<JsonRpcResponse, JsonRpcError>)
    ensures
        match (r, response_check(decoded_view(decoded))) {
            (Ok(x), Ok(y)) => x@ == y,
            (Err(e), Err(y)) => e@ == y,
            _ => false,
        },
{
    proof {
        reveal_strlit("2.0");
    }
    match decoded {
        Err(message) => Err(JsonRpcError::invalid_request(message)),
        Ok(response) => {
            if !str_eq(response.jsonrpc.as_str(), "2.0") {
                Err(JsonRpcError::invalid_request(string_of("jsonrpc must be \"2.0\"")))
            } else if response.result.is_none() && response.error.is_none() {
                Err(JsonRpcError::invalid_request(string_of("response must contain result or error")))
            } else {
                Ok(response)
            }
        },
    }
}

pub enum MessageView {
    Request(RequestView),
    Response(ResponseView),
}

impl View for JsonRpcMessage {
    type V = MessageView;

    open spec fn view(&self) -> MessageView {
        match self {
            JsonRpcMessage::Request(r) => MessageView::Request(r@),
            JsonRpcMessage::Response(r) => MessageView::Response(r@),
        }
    }
}

/// What `parse_message` makes of a value, given what decoding it as a
/// response gave.
pub open spec fn message_of(v: JsonView, decoded: Result<ResponseView, Seq<char>>) -> Result<MessageView, ErrorView> {
    if !(v is Object) {
        Err(error_view(-32600, "message must be an object"@))
    } else if member(v, "method"@) is Some {
        match request_of(v) {
            Ok(r) => Ok(MessageView::Request(r)),
            Err(e) => Err(e),
        }
    } else if member(v, "result"@) is Some || member(v, "error"@) is Some {
        match response_check(decoded) {
            Ok(r) => Ok(MessageView::Response(r)),
            Err(e) => Err(e),
        }
    } else {
        Err(error_view(-32600, "message must contain method, result, or error"@))
    }
}

pub open spec fn message_result(r: Result<JsonRpcMessage, JsonRpcError>) -> Result<MessageView, ErrorView> {
    match r {
        Ok(m) => Ok(m@),
        Err(e) => Err(e@),
    }
}

/// Reads a message a session sent: one with a `method` is a request, one
/// with a `result` or an `error` a response. `decoded` is what decoding the
/// same value as a response gave; it is used only for a response.
pub fn parse_message(value: JsonValue, decoded: Result<JsonRpcResponse, String>) -> (r: Result<
    JsonRpcMessage,
    JsonRpcError,
>)
    ensures
        message_result(r) == message_of(value.view(), decoded_view(decoded)),
{
    match classify_message(&value) {
        MessageKind::Invalid(e) => Err(e),
        MessageKind::Request => match parse_request(value) {
            Ok(req) => Ok(JsonRpcMessage::Request(req)),
            Err(e) => Err(e),
        },
        MessageKind::Response => match check_response(decoded) {
            Ok(resp) => Ok(JsonRpcMessage::Response(resp)),
            Err(e) => Err(e),
        },
    }
}

/// What reading a message from JSON text gives: a parse error when the text
/// is not JSON; otherwise what `parse_message` makes of the document, with
/// what `decode` answered for it.
pub open spec fn read_outcome<D: Fn(&JsonValue) -> Result<JsonRpcResponse, String>>(
    source: Seq<char>,
    decode: D,
    r: Result<MessageView, ErrorView>,
) -> bool {
    match parsed_json(source) {
        None => r == Err::<MessageView, ErrorView>(error_view(-32700, "Parse error"@)),
        Some(doc) => exists|v: JsonValue, d: Result<JsonRpcResponse, String>|
            #[trigger] call_ensures(decode, (&v,), d) && v.view() == doc && r == message_of(
                doc,
                decoded_view(d),
            ),
    }
}

/// Reads a message a session sent as JSON text. Text that is not JSON is a
/// parse error; a document is read as `parse_message` reads it, `decode`
/// giving what decoding the document as a response gives.
pub fn read_message<D: Fn(&JsonValue) -> Result<JsonRpcResponse, String>>(source: &str, decode: D) -> (r: Result<
    JsonRpcMessage,
    JsonRpcError,
>)
    requires
        forall|v: &JsonValue| #[trigger] call_requires(decode, (v,)),
    ensures
        read_outcome(source@, decode, message_result(r)),
{
    match parse_json(source) {
        None => Err(JsonRpcError::parse_error()),
        Some(value) => {
            let decoded = decode(&value);
            parse_message(value, decoded)
        },
    }
}

/// The response to a request given what its handler did: `None` when no
/// handler serves the method. Notifications are never answered; a missing
/// handler answers "method not found".
pub open spec fn answer(request: RequestView, outcome: Option<Result<JsonView, ErrorView>>) -> Option<ResponseView> {
    if request.notification {
        None
    } else {
        match outcome {
            None => Some(failure_view(error_view(-32601, "Method not found: "@ + request.method), request.id)),
            Some(Ok(v)) => Some(success_view(v, request.id)),
            Some(Err(e)) => Some(failure_view(e, request.id)),
        }
    }
}

pub open spec fn outcome_view(o: Option<Result<JsonValue, JsonRpcError>>) -> Option<Result<JsonView, ErrorView>> {
    match o {
        None => None,
        Some(Ok(v)) => Some(Ok(v.view())),
        Some(Err(e)) => Some(Err(e@)),
    }
}

/// Turns what a handler did into the response the caller gets.
pub fn finish_request(request: JsonRpcRequest, outcome: Option<Result<JsonValue, JsonRpcError>>) -> (r: Option<JsonRpcResponse>)
    ensures
        match (r, answer(request@, outcome_view(outcome))) {
            (Some(x), Some(y)) => x@ == y,
            (None, None) => true,
            _ => false,
        },
{
    if request.notification {
        return None;
    }
    match outcome {
        None => {
            let error = JsonRpcError::method_not_found(request.method.as_str());
            Some(JsonRpcResponse::failure(error, request.id))
        },
        Some(Ok(result)) => Some(JsonRpcResponse::success(result, request.id)),
        Some(Err(error)) => Some(JsonRpcResponse::failure(error, request.id)),
    }
}

/// The JSON-RPC code a registration failure is answered with.
pub open spec fn registry_error_code(e: RegistryErrorView) -> int {
    match e {
        RegistryErrorView::ContractMismatch(_) => -32008,
        RegistryErrorView::UnknownContract(_) => -32009,
        RegistryErrorView::DanglingContractRef(_) => -32010,
        _ => -32001,
    }
}

pub fn registry_error_to_json_rpc(error: CapabilityRegistryError) -> (r: JsonRpcError)
    ensures
        r@ == error_view(registry_error_code(error@), registry_error_message(error@)),
{
    let code = match error {
        CapabilityRegistryError::ContractMismatch(_) => JSON_RPC_CONTRACT_MISMATCH,
        CapabilityRegistryError::UnknownContract(_) => JSON_RPC_UNKNOWN_CONTRACT,
        CapabilityRegistryError::DanglingContractRef(_) => JSON_RPC_DANGLING_CONTRACT_REF,
        _ => JSON_RPC_REGISTRATION_CONFLICT,
    };
    JsonRpcError::server_error(code, error.message())
}


/// The handler registered for `method`.
pub open spec fn handler_in<H>(hs: Seq<(String, H)>, method: Seq<char>) -> Option<H>
    decreases hs.len(),
{
    if hs.len() == 0 {
        None
    } else if hs.last().0@ == method {
        Some(hs.last().1)
    } else {
        handler_in(hs.drop_last(), method)
    }
}

/// The runtime's own methods: at most one handler per method name.
pub struct Router<H> {
    handlers: Vec<(String, H)>,
}

impl<H: Fn(MethodContext) -> Result<JsonValue, JsonRpcError>> Router<H> {
    /// The handler that serves `method`, if any.
    pub closed spec fn handler(&self, method: Seq<char>) -> Option<H> {
        handler_in(self.handlers@, method)
    }

    pub fn new() -> (r: Self)
        ensures
            forall|m: Seq<char>| #[trigger] r.handler(m) is None,
    {
        Router { handlers: Vec::new() }
    }

    /// Registers `handler` for `method`, replacing any handler it had.
    pub fn register(&mut self, method: String, handler: H)
        ensures
            forall|m: Seq<char>| #[trigger]
                final(self).handler(m) == if m == method@ {
                    Some(handler)
                } else {
                    old(self).handler(m)
                },
    {
        let ghost name = method@;
        self.handlers.push((method, handler));
        proof {
            assert(self.handlers@.drop_last() =~= old(self).handlers@);
        }
    }

    /// Whether a handler serves `method`.
    pub fn has_method(&self, method: &str) -> (r: bool)
        ensures
            r == self.handler(method@) is Some,
    {
        self.position(method).is_some()
    }

    fn position(&self, method: &str) -> (r: Option<usize>)
        ensures
            match r {
                Some(i) => i < self.handlers@.len() && self.handler(method@) == Some(self.handlers@[i as int].1),
                None => self.handler(method@) is None,
            },
    {
        let ghost hs = self.handlers@;
        let mut i: usize = self.handlers.len();
        assert(hs.subrange(0, hs.len() as int) =~= hs);
        while i > 0
            invariant
                i <= self.handlers.len(),
                hs == self.handlers@,
                handler_in(hs, method@) == handler_in(hs.subrange(0, i as int), method@),
            decreases i,
        {
            let ghost pre = hs.subrange(0, i as int);
            assert(pre.drop_last() =~= hs.subrange(0, i - 1));
            assert(pre.last() == hs[i - 1]);
            if str_eq(self.handlers[i - 1].0.as_str(), method) {
                return Some(i - 1);
            }
            i = i - 1;
        }
        assert(hs.subrange(0, 0) =~= Seq::<(String, H)>::empty());
        None
    }

    /// Answers a request with the handler for its method. Without a handler
    /// the answer is "method not found"; a notification is never answered;
    /// otherwise the answer carries the handler's result or error under the
    /// request's id.
    pub fn dispatch_request(&self, context: MethodContext) -> (r: Option<JsonRpcResponse>)
        requires
            match self.handler(context.request@.method) {
                Some(h) => call_requires(h, (context,)),
                None => true,
            },
        ensures
            match self.handler(context.request@.method) {
                None => response_opt(r) == answer(context.request@, None),
                Some(h) => exists|out: Result<JsonValue, JsonRpcError>|
                    call_ensures(h, (context,), out) && response_opt(r) == #[trigger] answer(
                        context.request@,
                        outcome_view(Some(out)),
                    ),
            },
    {
        let ghost ctx = context;
        match self.position(context.request.method.as_str()) {
            None => finish_request(context.request, None),
            Some(i) => {
                let request = JsonRpcRequest {
                    method: context.request.method.clone(),
                    params: None,
                    id: context.request.id.copy(),
                    notification: context.request.notification,
                };
                let out = (self.handlers[i].1)(context);
                let ghost o = out;
                let r = finish_request(request, Some(out));
                assert(response_opt(r) == answer(ctx.request@, outcome_view(Some(o))));
                r
            },
        }
    }

    /// Answers a message a session sent: a request as `dispatch_request`
    /// does; a response is not answered; a message that could not be read
    /// is answered with its error and a `null` id.
    pub fn dispatch_message(&self, caller: SessionId, message: Result<JsonRpcMessage, JsonRpcError>) -> (r: Option<
        JsonRpcResponse,
    >)
        requires
            message matches Ok(JsonRpcMessage::Request(req)) ==> match self.handler(req@.method) {
                Some(h) => call_requires(h, ((MethodContext { caller, request: req }),)),
                None => true,
            },
        ensures
            self.dispatched(caller, message, response_opt(r)),
    {
        match message {
            Err(error) => Some(JsonRpcResponse::failure(error, JsonValue::Null)),
            Ok(JsonRpcMessage::Response(_)) => None,
            Ok(JsonRpcMessage::Request(request)) => self.dispatch_request(MethodContext { caller, request }),
        }
    }

    /// The answer `dispatch_message` gives to a message from `caller`.
    pub open spec fn dispatched(
        &self,
        caller: SessionId,
        message: Result<JsonRpcMessage, JsonRpcError>,
        r: Option<ResponseView>,
    ) -> bool {
        match message {
            Err(e) => r == Some(failure_view(e@, JsonView::Null)),
            Ok(JsonRpcMessage::Response(_)) => r is None,
            Ok(JsonRpcMessage::Request(req)) => match self.handler(req@.method) {
                None => r == answer(req@, None),
                Some(h) => exists|out: Result<JsonValue, JsonRpcError>|
                    call_ensures(h, ((MethodContext { caller, request: req }),), out) && r
                        == #[trigger] answer(req@, outcome_view(Some(out))),
            },
        }
    }

    /// Answers a message a session sent as JSON text: text that is not JSON
    /// is answered with a parse error and a `null` id; otherwise the message
    /// `read_message` reads is answered as `dispatch_message` answers it.
    pub fn dispatch_text<D: Fn(&JsonValue) -> Result<JsonRpcResponse, String>>(
        &self,
        caller: SessionId,
        source: &str,
        decode: D,
    ) -> (r: Option<JsonRpcResponse>)
        requires
            forall|v: &JsonValue| #[trigger] call_requires(decode, (v,)),
            forall|ctx: MethodContext, h: H|
                #![trigger call_requires(h, (ctx,))]
                self.handler(ctx.request@.method) == Some(h) ==> call_requires(h, (ctx,)),
        ensures
            exists|m: Result<JsonRpcMessage, JsonRpcError>|
                read_outcome(source@, decode, message_result(m)) && #[trigger] self.dispatched(
                    caller,
                    m,
                    response_opt(r),
                ),
    {
        let message = read_message(source, decode);
        self.dispatch_message(caller, message)
    }
}

/// A response, by its view.
pub open spec fn response_opt(r: Option<JsonRpcResponse>) -> Option<ResponseView> {
    match r {
        Some(x) => Some(x@),
        None => None,
    }
}


impl JsonRpcRequest {
    pub fn copy(&self) -> (r: Self)
        ensures
            r@ == self@,
    {
        JsonRpcRequest {
            method: self.method.clone(),
            params: copy_opt_json(&self.params),
            id: self.id.copy(),
            notification: self.notification,
        }
    }
}

impl Clone for JsonRpcRequest {
    fn clone(&self) -> (r: Self)
        ensures
            r@ == self@,
    {
        self.copy()
    }
}

impl JsonRpcResponse {
    pub fn copy(&self) -> (r: Self)
        ensures
            r@ == self@,
    {
        JsonRpcResponse {
            jsonrpc: self.jsonrpc.clone(),
            result: copy_opt_json(&self.result),
            error: match &self.error {
                Some(e) => Some(e.copy()),
                None => None,
            },
            id: self.id.copy(),
        }
    }
}

impl Clone for JsonRpcResponse {
    fn clone(&self) -> (r: Self)
        ensures
            r@ == self@,
    {
        self.copy()
    }
}

impl Clone for MethodContext {
    fn clone(&self) -> (r: Self)
        ensures
            r.caller == self.caller,
            r.request@ == self.request@,
    {
        MethodContext { caller: self.caller, request: self.request.copy() }
    }
}

impl<H: Fn(MethodContext) -> Result<JsonValue, JsonRpcError>> Default for Router<H> {
    fn default() -> (r: Self)
        ensures
            forall|m: Seq<char>| #[trigger] r.handler(m) is None,
    {
        Router::new()
    }
}

} // verus!
