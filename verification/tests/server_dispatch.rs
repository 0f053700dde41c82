//! The server dispatch engine, driven one message at a time.

use mcp_sdk::codec::{
    decode_call_tool_result, decode_initialize_result, decode_jsonrpc_response,
    decode_list_tools_result, decode_response,
};
use mcp_sdk::json::{to_json_chars, Json};
use mcp_sdk::parse::parse_json;
use mcp_sdk::schema::{ArgField, ArgType};
use mcp_sdk::server::{tool_call_reply, DispatchAction, Server, ServerSession};
use mcp_sdk::types::{CallToolResult, Content, JSONRPCResponse, RequestId, Tool};

fn parse_text(s: &str) -> Json {
    let chars: Vec<char> = s.chars().collect();
    parse_json(&chars).expect("text should parse")
}

fn to_text(j: &Json) -> String {
    to_json_chars(j).into_iter().collect()
}

fn obj(members: Vec<(&str, Json)>) -> Json {
    Json::Obj(
        members
            .into_iter()
            .map(|(k, v)| (k.to_string(), v))
            .collect(),
    )
}

fn make_init_request() -> Json {
    parse_text(
        r#"{"jsonrpc":"2.0","id":0,"method":"initialize","params":{"protocolVersion":"test","clientInfo":{"name":"test","version":"0"},"capabilities":{}}}"#,
    )
}

fn plain_tool(name: &str) -> Tool {
    Tool {
        name: name.to_string(),
        description: None,
        input_schema: Json::Null,
        annotations: None,
    }
}

#[test]
fn test_handler_registration() {
    let dummy_tool = Tool {
        name: "my-test-tool".to_string(),
        description: Some("A tool for testing.".to_string()),
        input_schema: obj(vec![("type", Json::Str("object".to_string()))]),
        annotations: None,
    };

    let server = Server::new("test-server".to_string())
        .register_tool(dummy_tool.clone())
        .on_list_prompts();

    assert_eq!(server.tools.len(), 1);
    assert_eq!(server.tools[0].tool.name, dummy_tool.name);
    assert!(server.find_tool("my-test-tool").is_some());
    assert!(server.has_list_prompts);
}

#[test]
fn test_session_dispatches_request() {
    let server = Server::new("test".to_string()).register_tool(plain_tool("test-tool"));
    let mut session = ServerSession::new(&server);

    let init_reply = session.dispatch_request(&make_init_request());
    assert!(matches!(init_reply, DispatchAction::Reply(_)));

    let list_req =
        parse_text(r#"{"jsonrpc":"2.0","id":1,"method":"tools/list","params":{}}"#);
    let action = session.dispatch_request(&list_req);
    let reply = match action {
        DispatchAction::Reply(j) => j,
        other => panic!(
            "Expected a successful response for tools/list, got: {:?}",
            other
        ),
    };
    assert!(to_text(&reply).contains("\"id\":1"));
    let response = decode_response(&reply).expect("expected a success response");
    let result = decode_list_tools_result(&response.result).unwrap();
    assert_eq!(result.tools.len(), 1);
    assert_eq!(result.tools[0].name, "test-tool");
}

#[test]
fn test_call_nonexistent_tool_sends_error() {
    let server = Server::new("test".to_string());
    let mut session = ServerSession::new(&server);
    session.dispatch_request(&make_init_request());

    let call_req = parse_text(
        r#"{"jsonrpc":"2.0","id":101,"method":"tools/call","params":{"name":"nonexistent-tool","arguments":{}}}"#,
    );
    let action = session.dispatch_request(&call_req);
    let reply = match action {
        DispatchAction::Reply(j) => j,
        other => panic!("Expected a reply, got: {:?}", other),
    };
    assert!(to_text(&reply).contains("\"id\":101"));
    match decode_jsonrpc_response(&reply).unwrap() {
        JSONRPCResponse::Success(_) => panic!("Expected an error response, but got success"),
        JSONRPCResponse::Error(err) => {
            assert_eq!(err.error.code, mcp_sdk::types::METHOD_NOT_FOUND);
            assert!(err.error.message.contains("Tool 'nonexistent-tool' not found"));
            assert!(err.error.message.contains("not found"));
        },
    }
}

#[test]
fn test_session_sends_notification() {
    // a handler that owes a notification hands its text to the outbox
    let notification = mcp_sdk::types::Notification {
        jsonrpc: "2.0".to_string(),
        method: "test/notification".to_string(),
        params: Some(obj(vec![])),
    };
    let wire: String = mcp_sdk::server::notification_to_wire(&notification)
        .into_iter()
        .collect();
    assert!(wire.contains("test/notification"));

    // the tool call that triggered it is answered separately
    let server =
        Server::new("test".to_string()).register_tool(plain_tool("notification-tool"));
    let mut session = ServerSession::new(&server);
    session.dispatch_request(&make_init_request());
    let call_req = parse_text(
        r#"{"jsonrpc":"2.0","id":1,"method":"tools/call","params":{"name":"notification-tool","arguments":{}}}"#,
    );
    let action = session.dispatch_request(&call_req);
    match action {
        DispatchAction::ToolCall { id, name, .. } => {
            assert_eq!(name, "notification-tool");
            let reply = tool_call_reply(
                id,
                &CallToolResult {
                    content: Vec::new(),
                    is_error: false,
                },
            );
            assert!(to_text(&reply).contains("\"id\":1"));
        },
        other => panic!("expected a tool invocation, got {:?}", other),
    }
}

#[test]
fn simple_echo_call_round() {
    let fields = vec![ArgField {
        name: "message".to_string(),
        ty: ArgType::Str,
        optional: false,
        desc: None,
        rename: None,
        skip: false,
        required: None,
    }];
    let tool = Tool::from_args("echo".to_string(), None, &fields);
    let server = Server::new("echo-server".to_string()).register_tool_typed(tool, fields);
    let mut session = ServerSession::new(&server);
    session.dispatch_request(&make_init_request());

    let call_req = parse_text(
        r#"{"jsonrpc":"2.0","id":1,"method":"tools/call","params":{"name":"echo","arguments":{"message":"hi"}}}"#,
    );
    let action = session.dispatch_request(&call_req);
    let (id, arguments) = match action {
        DispatchAction::ToolCall { id, arguments, .. } => (id, arguments),
        other => panic!("expected a tool invocation, got {:?}", other),
    };
    // the handler echoes the message
    let message = match &arguments {
        Json::Obj(ms) => match &ms.iter().find(|(k, _)| k == "message").unwrap().1 {
            Json::Str(s) => s.clone(),
            _ => panic!(),
        },
        _ => panic!(),
    };
    let result = CallToolResult {
        content: vec![Content::Text {
            text: format!("msg: {}", message),
        }],
        is_error: false,
    };
    let reply = tool_call_reply(id, &result);
    let response = decode_response(&reply).unwrap();
    assert_eq!(response.id, RequestId::Num(1));
    let round = decode_call_tool_result(&response.result).unwrap();
    assert!(!round.is_error);
    assert_eq!(
        round.content,
        vec![Content::Text {
            text: "msg: hi".to_string()
        }]
    );
}

#[test]
fn bad_arguments_yield_soft_error() {
    let fields = vec![
        ArgField {
            name: "a".to_string(),
            ty: ArgType::Int,
            optional: false,
            desc: None,
            rename: None,
            skip: false,
            required: None,
        },
        ArgField {
            name: "b".to_string(),
            ty: ArgType::Int,
            optional: false,
            desc: None,
            rename: None,
            skip: false,
            required: None,
        },
    ];
    let tool = Tool::from_args("add".to_string(), None, &fields);
    let server = Server::new("adder".to_string()).register_tool_typed(tool, fields);
    let mut session = ServerSession::new(&server);
    session.dispatch_request(&make_init_request());

    let call_req = parse_text(
        r#"{"jsonrpc":"2.0","id":7,"method":"tools/call","params":{"name":"add","arguments":{"a":1,"b":"two"}}}"#,
    );
    let action = session.dispatch_request(&call_req);
    let reply = match action {
        DispatchAction::Reply(j) => j,
        other => panic!("expected a reply, got {:?}", other),
    };
    // never a JSON-RPC error response: a success whose result is an error
    let response = match decode_jsonrpc_response(&reply).unwrap() {
        JSONRPCResponse::Success(r) => r,
        JSONRPCResponse::Error(e) => {
            panic!("Expected CallToolResult with is_error, got error response: {:?}", e)
        },
    };
    assert_eq!(response.id, RequestId::Num(7));
    let result = decode_call_tool_result(&response.result).unwrap();
    assert!(result.is_error);
    match &result.content[0] {
        Content::Text { text } => {
            assert!(text.contains("Invalid arguments for tool 'add'"));
            assert!(text.contains("invalid type for field `b`: expected integer, got string"));
            assert!(text.contains("Expected schema:"));
            // the schema is pretty-printed, one member per line
            assert!(text.contains("\n  \"type\": \"object\""));
        },
        other => panic!("expected text content, got {:?}", other),
    }
}

fn typed_fields() -> Vec<ArgField> {
    vec![
        ArgField {
            name: "message".to_string(),
            ty: ArgType::Str,
            optional: false,
            desc: None,
            rename: None,
            skip: false,
            required: None,
        },
        ArgField {
            name: "count".to_string(),
            ty: ArgType::Int,
            optional: false,
            desc: None,
            rename: None,
            skip: false,
            required: None,
        },
    ]
}

fn soft_error_text(session: &mut ServerSession, call_req: &Json) -> String {
    let action = session.dispatch_request(call_req);
    let reply = match action {
        DispatchAction::Reply(j) => j,
        other => panic!("expected a reply, got {:?}", other),
    };
    let response = match decode_jsonrpc_response(&reply).unwrap() {
        JSONRPCResponse::Success(r) => r,
        JSONRPCResponse::Error(e) => {
            panic!("Expected CallToolResult with is_error, got error response: {:?}", e)
        },
    };
    let result = decode_call_tool_result(&response.result).unwrap();
    assert!(result.is_error);
    match &result.content[0] {
        Content::Text { text } => text.clone(),
        other => panic!("expected text content, got {:?}", other),
    }
}

#[test]
fn test_typed_tool_missing_required_arg() {
    let fields = typed_fields();
    let tool = Tool::from_args(
        "check_simple_missing".to_string(),
        Some("Checks simple args.".to_string()),
        &fields,
    );
    let server =
        Server::new("test-server-typed-missing".to_string()).register_tool_typed(tool, fields);
    let mut session = ServerSession::new(&server);
    session.dispatch_request(&make_init_request());

    let call_req = parse_text(
        r#"{"jsonrpc":"2.0","id":1,"method":"tools/call","params":{"name":"check_simple_missing","arguments":{"message":"hello"}}}"#,
    );
    let text = soft_error_text(&mut session, &call_req);
    assert!(
        text.contains("Invalid arguments for tool 'check_simple_missing'"),
        "Error message prefix mismatch. Got: {}",
        text
    );
    assert!(
        text.contains("missing field `count`"),
        "Error message detail mismatch. Got: {}",
        text
    );
}

#[test]
fn test_typed_tool_wrong_arg_type() {
    let fields = typed_fields();
    let tool = Tool::from_args(
        "check_simple_type_wrong".to_string(),
        Some("Checks simple args type.".to_string()),
        &fields,
    );
    let server = Server::new("test-server-typed-wrongtype".to_string())
        .register_tool_typed(tool, fields);
    let mut session = ServerSession::new(&server);
    session.dispatch_request(&make_init_request());

    let call_req = parse_text(
        r#"{"jsonrpc":"2.0","id":1,"method":"tools/call","params":{"name":"check_simple_type_wrong","arguments":{"message":"hello","count":"not-a-number"}}}"#,
    );
    let text = soft_error_text(&mut session, &call_req);
    assert!(
        text.contains("Invalid arguments for tool 'check_simple_type_wrong'"),
        "Error message prefix mismatch. Got: {}",
        text
    );
    assert!(
        text.contains("invalid type for field `count`: expected integer, got string"),
        "Error message detail mismatch. Got: {}",
        text
    );
}

#[test]
fn test_typed_tool_successful_call() {
    let fields = typed_fields();
    let tool = Tool::from_args(
        "echo_simple".to_string(),
        Some("Echoes simple args.".to_string()),
        &fields,
    );
    let server =
        Server::new("test-server-typed-success".to_string()).register_tool_typed(tool, fields);
    let mut session = ServerSession::new(&server);
    session.dispatch_request(&make_init_request());

    let call_req = parse_text(
        r#"{"jsonrpc":"2.0","id":1,"method":"tools/call","params":{"name":"echo_simple","arguments":{"message":"hello","count":42}}}"#,
    );
    let action = session.dispatch_request(&call_req);
    let (id, arguments) = match action {
        DispatchAction::ToolCall { id, arguments, .. } => (id, arguments),
        other => panic!("Expected a response for echo_simple tool call, got {:?}", other),
    };
    let (message, count) = match &arguments {
        Json::Obj(ms) => {
            let m = match &ms.iter().find(|(k, _)| k == "message").unwrap().1 {
                Json::Str(s) => s.clone(),
                _ => panic!(),
            };
            let c = match &ms.iter().find(|(k, _)| k == "count").unwrap().1 {
                Json::Int(i) => *i,
                _ => panic!(),
            };
            (m, c)
        },
        _ => panic!(),
    };
    let result = CallToolResult {
        content: vec![Content::Text {
            text: format!("msg: {}, count: {}", message, count),
        }],
        is_error: false,
    };
    let reply = tool_call_reply(id, &result);
    let response = decode_response(&reply).unwrap();
    assert_eq!(response.id, RequestId::Num(1));
    let round = decode_call_tool_result(&response.result).unwrap();
    assert!(!round.is_error, "Expected success, got error: {:?}", round);
    assert_eq!(
        round.content,
        vec![Content::Text {
            text: "msg: hello, count: 42".to_string()
        }]
    );
}

#[test]
fn handshake_must_come_first() {
    let server = Server::new("strict".to_string()).register_tool(plain_tool("a"));
    let mut session = ServerSession::new(&server);
    let early_list =
        parse_text(r#"{"jsonrpc":"2.0","id":0,"method":"tools/list","params":{}}"#);
    let action = session.dispatch_request(&early_list);
    match action {
        DispatchAction::Terminate { .. } => {},
        other => panic!(
            "a request before the handshake must end the session, got {:?}",
            other
        ),
    }
    // the violation never flips the handshake state
    assert!(!session.is_initialized);
}

#[test]
fn second_initialize_terminates_the_session() {
    let server = Server::new("once".to_string());
    let mut session = ServerSession::new(&server);
    session.dispatch_request(&make_init_request());
    let action = session.dispatch_request(&make_init_request());
    match action {
        DispatchAction::Terminate { message } => {
            assert!(message.contains("initialize"));
        },
        other => panic!("expected the session to end, got {:?}", other),
    }
}

#[test]
fn initialized_notification_is_consumed() {
    let server = Server::new("quiet".to_string());
    let mut session = ServerSession::new(&server);
    session.dispatch_request(&make_init_request());
    let note = parse_text(
        r#"{"jsonrpc":"2.0","method":"notifications/initialized","params":{}}"#,
    );
    let action = session.dispatch_request(&note);
    assert!(matches!(action, DispatchAction::Ignore));
}

#[test]
fn protocol_handler_unknown_method() {
    let server = Server::new("plain".to_string());
    let mut session = ServerSession::new(&server);
    session.dispatch_request(&make_init_request());
    let req = parse_text(
        r#"{"jsonrpc":"2.0","id":3,"method":"unknown/method","params":{"type":"unknown"}}"#,
    );
    let action = session.dispatch_request(&req);
    let reply = match action {
        DispatchAction::Reply(j) => j,
        other => panic!("Response: {:?}", other),
    };
    match decode_jsonrpc_response(&reply).unwrap() {
        JSONRPCResponse::Error(err) => {
            assert_eq!(err.error.code, -32601);
            assert!(err.error.message.contains("Method 'unknown/method' not found"));
        },
        JSONRPCResponse::Success(_) => panic!("expected an error"),
    }
}

#[test]
fn unregistered_handler_returns_error() {
    let server = Server::new("test-no-handlers".to_string());
    let mut session = ServerSession::new(&server);
    session.dispatch_request(&make_init_request());
    let req =
        parse_text(r#"{"jsonrpc":"2.0","id":2,"method":"resources/list","params":{}}"#);
    let action = session.dispatch_request(&req);
    let reply = match action {
        DispatchAction::Reply(j) => j,
        other => panic!("Expected an error response, got {:?}", other),
    };
    match decode_jsonrpc_response(&reply).unwrap() {
        JSONRPCResponse::Error(err) => {
            assert_eq!(err.error.code, -32601);
            assert!(err.error.message.contains("has no registered handler"));
        },
        JSONRPCResponse::Success(_) => panic!("Expected an error response"),
    }
}

#[test]
fn invalid_params_return_invalid_params_code() {
    let server = Server::new("strict-params".to_string()).on_read_resource();
    let mut session = ServerSession::new(&server);
    session.dispatch_request(&make_init_request());
    let req = parse_text(
        r#"{"jsonrpc":"2.0","id":4,"method":"resources/read","params":{"nope":1}}"#,
    );
    let action = session.dispatch_request(&req);
    let reply = match action {
        DispatchAction::Reply(j) => j,
        other => panic!("expected a reply, got {:?}", other),
    };
    match decode_jsonrpc_response(&reply).unwrap() {
        JSONRPCResponse::Error(err) => {
            assert_eq!(err.error.code, mcp_sdk::types::INVALID_PARAMS);
        },
        JSONRPCResponse::Success(_) => panic!("expected an error"),
    }
}

#[test]
fn capabilities_follow_the_registry() {
    let with_tools = Server::new("has-tools".to_string()).register_tool(plain_tool("t"));
    let with_tools = with_tools;
    let mut session = ServerSession::new(&with_tools);
    let reply = match session.dispatch_request(&make_init_request()) {
        DispatchAction::Reply(j) => j,
        other => panic!("expected a reply, got {:?}", other),
    };
    let response = decode_response(&reply).unwrap();
    assert_eq!(response.id, RequestId::Num(0));
    let init = decode_initialize_result(&response.result).unwrap();
    assert_eq!(init.protocol_version, "2024-11-05");
    assert_eq!(init.server_info.name, "has-tools");
    let tools_cap = init.capabilities.tools.expect("tools capability expected");
    assert_eq!(tools_cap.list_changed, Some(false));

    let without_tools = Server::new("no-tools".to_string());
    let mut session2 = ServerSession::new(&without_tools);
    let reply2 = match session2.dispatch_request(&make_init_request()) {
        DispatchAction::Reply(j) => j,
        other => panic!("expected a reply, got {:?}", other),
    };
    let init2 = decode_initialize_result(&decode_response(&reply2).unwrap().result).unwrap();
    assert!(init2.capabilities.tools.is_none());
}

#[test]
fn each_request_is_answered_once() {
    let server = Server::new("count".to_string()).register_tool(plain_tool("t"));
    let mut session = ServerSession::new(&server);
    session.dispatch_request(&make_init_request());

    let mut replies = 0;
    for id in 1..=3 {
        let req = parse_text(&format!(
            r#"{{"jsonrpc":"2.0","id":{},"method":"tools/list","params":{{}}}}"#,
            id
        ));
        match session.dispatch_request(&req) {
            DispatchAction::Reply(j) => {
                let response = decode_response(&j).unwrap();
                assert_eq!(response.id, RequestId::Num(id));
                replies += 1;
            },
            other => panic!("expected a reply, got {:?}", other),
        }
    }
    assert_eq!(replies, 3);
}

#[test]
fn registering_a_name_again_replaces_the_tool() {
    let first = Tool {
        description: Some("old".to_string()),
        ..plain_tool("dup")
    };
    let second = Tool {
        description: Some("new".to_string()),
        ..plain_tool("dup")
    };
    let server = Server::new("r".to_string())
        .register_tool(first)
        .register_tool(second);
    assert_eq!(server.tools.len(), 1);
    assert_eq!(server.tools[0].tool.description, Some("new".to_string()));
}
