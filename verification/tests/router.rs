use skillsupport::json::{JsonNumber, JsonValue};
use skillsupport::runtime::transport::router::{
    check_response, classify_message, finish_request, parse_request, read_message, JsonRpcError,
    JsonRpcMessage, JsonRpcRequest, JsonRpcResponse, MessageKind, MethodContext, Router,
};
use skillsupport::runtime::transport::session::SessionId;

type Handler = Box<dyn Fn(MethodContext) -> Result<JsonValue, JsonRpcError>>;

fn from_serde(value: &serde_json::Value) -> JsonValue {
    match value {
        serde_json::Value::Null => JsonValue::Null,
        serde_json::Value::Bool(b) => JsonValue::Bool(*b),
        serde_json::Value::Number(n) => {
            if let Some(u) = n.as_u64() {
                JsonValue::Number(JsonNumber::PosInt(u))
            } else if let Some(i) = n.as_i64() {
                JsonValue::Number(JsonNumber::NegInt(i))
            } else {
                JsonValue::Number(JsonNumber::Float(n.to_string()))
            }
        }
        serde_json::Value::String(s) => JsonValue::String(s.clone()),
        serde_json::Value::Array(items) => JsonValue::Array(items.iter().map(from_serde).collect()),
        serde_json::Value::Object(entries) => JsonValue::Object(
            entries
                .iter()
                .map(|(key, value)| (key.clone(), from_serde(value)))
                .collect(),
        ),
    }
}

fn not_a_response(_value: &JsonValue) -> Result<JsonRpcResponse, String> {
    Err("not a response".to_string())
}

fn dispatch_text(router: &Router<Handler>, caller: SessionId, source: &str) -> Option<JsonRpcResponse> {
    router.dispatch_text(caller, source, not_a_response)
}

fn ping_router() -> Router<Handler> {
    let mut router: Router<Handler> = Router::default();
    router.register(
        "runtime.ping".to_string(),
        Box::new(|_| Ok(JsonValue::String("pong".to_string()))),
    );
    router
}

#[test]
fn dispatches_registered_method() {
    let router = ping_router();

    let response = dispatch_text(
        &router,
        SessionId::new(1),
        r#"{"jsonrpc":"2.0","method":"runtime.ping","id":1}"#,
    )
    .expect("response");

    assert_eq!(response.result, Some(JsonValue::String("pong".to_string())));
    assert_eq!(response.id, JsonValue::from_u64(1));
}

#[test]
fn unknown_method_returns_json_rpc_error() {
    let router: Router<Handler> = Router::default();

    let response = dispatch_text(
        &router,
        SessionId::new(1),
        r#"{"jsonrpc":"2.0","method":"runtime.missing","id":"a"}"#,
    )
    .expect("response");

    assert_eq!(
        response.error.expect("error"),
        JsonRpcError::method_not_found("runtime.missing")
    );
    assert_eq!(response.id, JsonValue::String("a".to_string()));
}

#[test]
fn notifications_do_not_return_responses() {
    let router = ping_router();

    let response = dispatch_text(
        &router,
        SessionId::new(1),
        r#"{"jsonrpc":"2.0","method":"runtime.ping"}"#,
    );

    assert!(response.is_none());
}

#[test]
fn handler_errors_are_answered_under_the_request_id() {
    let mut router: Router<Handler> = Router::new();
    router.register(
        "math.fail".to_string(),
        Box::new(|_| Err(JsonRpcError::invalid_params("no".to_string()))),
    );
    assert!(router.has_method("math.fail"));
    assert!(!router.has_method("math.add"));
    let response = dispatch_text(
        &router,
        SessionId::new(3),
        r#"{"jsonrpc":"2.0","method":"math.fail","id":7}"#,
    )
    .expect("response");
    assert_eq!(response.jsonrpc, "2.0");
    assert_eq!(response.result, None);
    assert_eq!(response.error, Some(JsonRpcError { code: -32602, message: "no".to_string() }));
    assert_eq!(response.id, JsonValue::from_u64(7));
}

#[test]
fn registering_a_method_again_replaces_its_handler() {
    let mut router: Router<Handler> = Router::new();
    router.register("m".to_string(), Box::new(|_| Ok(JsonValue::from_u64(1))));
    router.register("m".to_string(), Box::new(|_| Ok(JsonValue::from_u64(2))));
    let response = dispatch_text(&router, SessionId::new(1), r#"{"jsonrpc":"2.0","method":"m","id":0}"#)
        .expect("response");
    assert_eq!(response.result, Some(JsonValue::from_u64(2)));
}

#[test]
fn malformed_messages_get_error_responses() {
    let router = ping_router();
    let parse = dispatch_text(&router, SessionId::new(1), "{not json").expect("response");
    assert_eq!(parse.error, Some(JsonRpcError::parse_error()));
    assert_eq!(parse.error.as_ref().map(|e| e.code), Some(-32700));
    assert_eq!(parse.id, JsonValue::Null);

    let array = dispatch_text(&router, SessionId::new(1), "[1,2]").expect("response");
    assert_eq!(array.error, Some(JsonRpcError::invalid_request("message must be an object".to_string())));

    let empty = dispatch_text(&router, SessionId::new(1), "{}").expect("response");
    assert_eq!(
        empty.error,
        Some(JsonRpcError::invalid_request("message must contain method, result, or error".to_string()))
    );

    let version = dispatch_text(&router, SessionId::new(1), r#"{"jsonrpc":"1.0","method":"runtime.ping","id":1}"#)
        .expect("response");
    assert_eq!(version.error, Some(JsonRpcError::invalid_request("jsonrpc must be \"2.0\"".to_string())));

    let method = dispatch_text(&router, SessionId::new(1), r#"{"jsonrpc":"2.0","method":5,"id":1}"#)
        .expect("response");
    assert_eq!(method.error, Some(JsonRpcError::invalid_request("method must be a string".to_string())));
}

#[test]
fn requests_keep_params_and_ids() {
    let value = from_serde(
        &serde_json::from_str(r#"{"jsonrpc":"2.0","method":"m","params":{"x":1},"id":"abc"}"#).expect("json"),
    );
    let request = parse_request(value).expect("request");
    assert_eq!(request.method, "m");
    assert_eq!(
        request.params,
        Some(JsonValue::Object(vec![("x".to_string(), JsonValue::from_u64(1))]))
    );
    assert_eq!(request.id, JsonValue::String("abc".to_string()));
    assert!(!request.notification);

    let notification = from_serde(&serde_json::from_str(r#"{"jsonrpc":"2.0","method":"m"}"#).expect("json"));
    let request = parse_request(notification).expect("request");
    assert!(request.notification);
    assert_eq!(request.id, JsonValue::Null);
    assert_eq!(request.params, None);
}

#[test]
fn responses_are_classified_and_checked() {
    let value = from_serde(&serde_json::from_str(r#"{"jsonrpc":"2.0","result":5,"id":1}"#).expect("json"));
    assert!(matches!(classify_message(&value), MessageKind::Response));
    let ok = JsonRpcResponse::success(JsonValue::from_u64(5), JsonValue::from_u64(1));
    assert_eq!(check_response(Ok(ok.clone())), Ok(ok.clone()));
    assert_eq!(
        check_response(Err("missing field `id`".to_string())),
        Err(JsonRpcError::invalid_request("missing field `id`".to_string()))
    );
    let mut wrong = ok.clone();
    wrong.jsonrpc = "1.0".to_string();
    assert_eq!(
        check_response(Ok(wrong)),
        Err(JsonRpcError::invalid_request("jsonrpc must be \"2.0\"".to_string()))
    );
    let mut empty = ok;
    empty.result = None;
    assert_eq!(
        check_response(Ok(empty)),
        Err(JsonRpcError::invalid_request("response must contain result or error".to_string()))
    );
}

#[test]
fn finished_requests_answer_by_outcome() {
    let request = JsonRpcRequest {
        method: "m".to_string(),
        params: None,
        id: JsonValue::from_u64(4),
        notification: false,
    };
    let missing = finish_request(request.clone(), None).expect("answer");
    assert_eq!(missing.error, Some(JsonRpcError::method_not_found("m")));
    assert_eq!(missing.error.as_ref().map(|e| e.message.as_str()), Some("Method not found: m"));
    let ok = finish_request(request.clone(), Some(Ok(JsonValue::Bool(true)))).expect("answer");
    assert_eq!(ok, JsonRpcResponse::success(JsonValue::Bool(true), JsonValue::from_u64(4)));
    let mut notification = request;
    notification.notification = true;
    assert!(finish_request(notification, Some(Ok(JsonValue::Null))).is_none());
}

#[test]
fn error_constructors_use_the_standard_codes() {
    assert_eq!(JsonRpcError::parse_error(), JsonRpcError { code: -32700, message: "Parse error".to_string() });
    assert_eq!(JsonRpcError::invalid_request("r".to_string()).code, -32600);
    assert_eq!(JsonRpcError::method_not_found("x").code, -32601);
    assert_eq!(JsonRpcError::invalid_params("p".to_string()).code, -32602);
    assert_eq!(JsonRpcError::server_error(-32099, "s".to_string()).code, -32099);
}

#[test]
fn text_that_is_not_json_is_a_parse_error_with_null_id() {
    let router = ping_router();
    for source in ["", "{", "{\"jsonrpc\":\"2.0\",", "nul", "[1,"] {
        let response = router
            .dispatch_text(SessionId::new(2), source, not_a_response)
            .expect("response");
        assert_eq!(response.jsonrpc, "2.0");
        assert_eq!(response.result, None);
        assert_eq!(response.error, Some(JsonRpcError { code: -32700, message: "Parse error".to_string() }));
        assert_eq!(response.id, JsonValue::Null);
    }
}

#[test]
fn responses_sent_as_text_are_not_answered() {
    let router = ping_router();
    let decoded = |_value: &JsonValue| Ok(JsonRpcResponse::success(JsonValue::from_u64(5), JsonValue::from_u64(1)));
    let response = router.dispatch_text(SessionId::new(1), r#"{"jsonrpc":"2.0","result":5,"id":1}"#, decoded);
    assert!(response.is_none());

    let refused = router
        .dispatch_text(SessionId::new(1), r#"{"jsonrpc":"2.0","result":5}"#, |_value: &JsonValue| {
            Err("missing field `id`".to_string())
        })
        .expect("response");
    assert_eq!(refused.error, Some(JsonRpcError::invalid_request("missing field `id`".to_string())));
    assert_eq!(refused.id, JsonValue::Null);
}

#[test]
fn text_is_read_as_the_json_it_holds() {
    let router = ping_router();
    let response = router
        .dispatch_text(
            SessionId::new(1),
            " {\"id\": -3, \"method\": \"runtime.ping\", \"jsonrpc\": \"2.0\"} ",
            not_a_response,
        )
        .expect("response");
    assert_eq!(response.result, Some(JsonValue::String("pong".to_string())));
    assert_eq!(response.id, JsonValue::Number(JsonNumber::NegInt(-3)));

    let message = read_message(r#"{"jsonrpc":"2.0","method":"m","params":[1.5,"x",null,true],"id":"q"}"#, not_a_response)
        .expect("message");
    match message {
        JsonRpcMessage::Request(request) => {
            assert_eq!(
                request.params,
                Some(JsonValue::Array(vec![
                    JsonValue::Number(JsonNumber::Float("1.5".to_string())),
                    JsonValue::String("x".to_string()),
                    JsonValue::Null,
                    JsonValue::Bool(true),
                ]))
            );
            assert_eq!(request.id, JsonValue::String("q".to_string()));
        }
        JsonRpcMessage::Response(_) => panic!("expected a request"),
    }
    assert_eq!(read_message("{]", not_a_response), Err(JsonRpcError::parse_error()));
}
