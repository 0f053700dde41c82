//! The client session core: identifiers, correlation, notifications,
//! shutdown, and a whole handshake against the server engine.

use mcp_sdk::client::{Client, ReplyOutcome};
use mcp_sdk::codec::{decode_list_tools_result, encode_request};
use mcp_sdk::json::{to_json_chars, Json};
use mcp_sdk::parse::parse_json;
use mcp_sdk::server::{
    get_prompt_reply, list_prompts_reply, list_resources_reply, read_resource_reply,
    DispatchAction, Server, ServerSession,
};
use mcp_sdk::types::{
    Content, GetPromptResult, ListPromptsResult, Prompt, PromptMessage, RequestId, Resource,
    ResourceContents, TextResourceContents,
};

fn parse_text(s: &str) -> Json {
    let chars: Vec<char> = s.chars().collect();
    parse_json(&chars).expect("text should parse")
}

fn to_text(j: &Json) -> String {
    to_json_chars(j).into_iter().collect()
}

#[test]
fn test_session_handles_response() {
    let mut client = Client::new();
    let request = client.begin_request("test", Json::Null);
    assert_eq!(request.id, RequestId::Num(1));

    let response_json = parse_text(r#"{"jsonrpc":"2.0","id":1,"result":{"status":"ok"}}"#);
    let delivered = client.handle_response(&response_json);
    let (id, outcome) = delivered.expect("Oneshot channel failed");
    assert_eq!(id, RequestId::Num(1));
    match outcome {
        ReplyOutcome::Value(v) => {
            assert_eq!(
                v,
                Json::Obj(vec![("status".to_string(), Json::Str("ok".to_string()))])
            );
        },
        other => panic!("expected a result value, got {:?}", other),
    }
}

#[test]
fn test_session_handles_notification() {
    let mut client = Client::new();
    client.on_tools_list_changed();
    let notification_json = parse_text(
        r#"{"jsonrpc":"2.0","method":"notifications/tools/list_changed","params":{}}"#,
    );
    let handled = client.handle_notification(&notification_json);
    assert!(handled.is_some(), "Notification handler was not called");
    assert_eq!(handled.unwrap(), Json::Obj(Vec::new()));

    let other = parse_text(r#"{"jsonrpc":"2.0","method":"something/else","params":{}}"#);
    assert!(client.handle_notification(&other).is_none());
}

#[test]
fn registering_the_handler_twice_keeps_one_entry() {
    let mut client = Client::new();
    client.on_tools_list_changed();
    client.on_tools_list_changed();
    assert_eq!(client.handlers.len(), 1);
    assert!(client.has_handler("notifications/tools/list_changed"));
}

#[test]
fn test_session_sends_requests() {
    let mut client = Client::new();
    let request = client.begin_request("test", Json::Null);
    let sent_message = to_text(&encode_request(&request));
    assert!(sent_message.contains("\"method\":\"test\""));
    assert!(sent_message.contains("\"jsonrpc\":\"2.0\""));
}

#[test]
fn identifiers_strictly_increase() {
    let mut client = Client::new();
    let first = client.begin_request("a", Json::Null);
    let second = client.begin_request("b", Json::Null);
    let third = client.begin_request("c", Json::Null);
    assert_eq!(first.id, RequestId::Num(1));
    assert_eq!(second.id, RequestId::Num(2));
    assert_eq!(third.id, RequestId::Num(3));
}

#[test]
fn strays_are_dropped_silently() {
    let mut client = Client::new();
    let _request = client.begin_request("a", Json::Null);
    let before = client.pending.clone();
    let stray = parse_text(r#"{"jsonrpc":"2.0","id":99,"result":{}}"#);
    assert!(client.handle_response(&stray).is_none());
    assert_eq!(client.pending, before);
}

#[test]
fn each_identifier_is_answered_once() {
    let mut client = Client::new();
    let request = client.begin_request("a", Json::Null);
    assert_eq!(request.id, RequestId::Num(1));
    let response = parse_text(r#"{"jsonrpc":"2.0","id":1,"result":{}}"#);
    assert!(client.handle_response(&response).is_some());
    // the slot is consumed: the same identifier again is a stray
    assert!(client.handle_response(&response).is_none());
}

#[test]
fn peer_errors_are_delivered_as_errors() {
    let mut client = Client::new();
    let _request = client.begin_request("a", Json::Null);
    let response =
        parse_text(r#"{"jsonrpc":"2.0","id":1,"error":{"code":-32601,"message":"nope"}}"#);
    let (_, outcome) = client.handle_response(&response).unwrap();
    match outcome {
        ReplyOutcome::PeerError(e) => {
            assert_eq!(e.code, -32601);
            assert_eq!(e.message, "nope");
        },
        other => panic!("expected a peer error, got {:?}", other),
    }
}

#[test]
fn shutdown_fails_every_pending_caller() {
    let mut client = Client::new();
    let _a = client.begin_request("a", Json::Null);
    let _b = client.begin_request("b", Json::Null);
    let drained = client.shutdown();
    // identifier 0 was the pending handshake slot
    assert_eq!(
        drained,
        vec![RequestId::Num(0), RequestId::Num(1), RequestId::Num(2)]
    );
    assert!(client.pending.is_empty());
    assert!(client.closed);
    // an answer arriving after shutdown reaches nobody
    let late = parse_text(r#"{"jsonrpc":"2.0","id":1,"result":{}}"#);
    assert!(client.handle_response(&late).is_none());
}

#[test]
fn test_full_client_server_interaction() {
    let tool = mcp_sdk::types::Tool {
        name: "e2e-test-tool".to_string(),
        description: None,
        input_schema: Json::Null,
        annotations: None,
    };
    let server = Server::new("mcp-e2e-test-server".to_string()).register_tool(tool);
    let mut session = ServerSession::new(&server);

    let mut client = Client::new();

    // handshake: the client's first message carries identifier 0
    let init = client.initialize_request();
    assert_eq!(init.id, RequestId::Num(0));
    let init_wire = parse_text(&to_text(&encode_request(&init)));
    let init_reply = match session.dispatch_request(&init_wire) {
        DispatchAction::Reply(j) => j,
        other => panic!("Client failed to connect to server: {:?}", other),
    };
    let init_result = Client::check_init_response(&init_reply).unwrap();
    assert_eq!(init_result.server_info.name, "mcp-e2e-test-server");

    // list the tools over the same wire
    let list = client.list_tools();
    let list_wire = parse_text(&to_text(&encode_request(&list)));
    let list_reply = match session.dispatch_request(&list_wire) {
        DispatchAction::Reply(j) => j,
        other => panic!("expected a reply, got {:?}", other),
    };
    let (id, outcome) = client.handle_response(&list_reply).unwrap();
    assert_eq!(id, list.id);
    let tools = match outcome {
        ReplyOutcome::Value(v) => decode_list_tools_result(&v).unwrap().tools,
        other => panic!("expected a result, got {:?}", other),
    };
    assert_eq!(tools.len(), 1);
    assert_eq!(tools[0].name, "e2e-test-tool");
}

#[test]
fn handshake_reply_with_wrong_identifier_fails() {
    let bad = parse_text(
        r#"{"jsonrpc":"2.0","id":5,"result":{"protocolVersion":"2024-11-05","capabilities":{},"serverInfo":{"name":"s","version":"1"}}}"#,
    );
    assert!(Client::check_init_response(&bad).is_none());
    let good = parse_text(
        r#"{"jsonrpc":"2.0","id":0,"result":{"protocolVersion":"2024-11-05","capabilities":{},"serverInfo":{"name":"s","version":"1"}}}"#,
    );
    assert!(Client::check_init_response(&good).is_some());
    let error_reply = parse_text(
        r#"{"jsonrpc":"2.0","id":0,"error":{"code":-32603,"message":"no"}}"#,
    );
    assert!(Client::check_init_response(&error_reply).is_none());
}

#[test]
fn request_builders_use_their_methods() {
    let mut client = Client::new();
    let calls = vec![
        (client.list_tools().method.clone(), "tools/list"),
        (
            client
                .call_tool("t".to_string(), Json::Obj(Vec::new()))
                .method
                .clone(),
            "tools/call",
        ),
        (client.list_resources().method.clone(), "resources/list"),
        (
            client.read_resource("mcp://x".to_string()).method.clone(),
            "resources/read",
        ),
        (client.list_prompts().method.clone(), "prompts/list"),
        (
            client.get_prompt("p".to_string(), None).method.clone(),
            "prompts/get",
        ),
    ];
    for (got, expected) in calls {
        assert_eq!(got, expected);
    }
    // six requests went out after the handshake slot
    assert_eq!(client.next_request_id, 7);
}

#[test]
fn test_full_resource_interaction() {
    let server = Server::new("mcp-resource-test".to_string())
        .on_list_resources()
        .on_read_resource();
    let mut session = ServerSession::new(&server);
    let mut client = Client::new();

    let init = client.initialize_request();
    let init_reply = match session.dispatch_request(&parse_text(&to_text(&encode_request(
        &init,
    )))) {
        DispatchAction::Reply(j) => j,
        other => panic!("Client failed to connect to server: {:?}", other),
    };
    assert!(Client::check_init_response(&init_reply).is_some());

    // list: the engine owes the handler invocation; the handler answers
    let list = client.list_resources();
    let action = session.dispatch_request(&parse_text(&to_text(&encode_request(&list))));
    let id = match action {
        DispatchAction::ListResources { id } => id,
        other => panic!("expected a resources invocation, got {:?}", other),
    };
    let resources = vec![Resource {
        uri: "mcp://e2e/file.txt".to_string(),
        name: "file.txt".to_string(),
        description: None,
        mime_type: Some("text/plain".to_string()),
    }];
    let reply = list_resources_reply(id, &resources);
    let (got_id, outcome) = client.handle_response(&reply).unwrap();
    assert_eq!(got_id, list.id);
    match outcome {
        ReplyOutcome::Value(Json::Arr(items)) => assert_eq!(items.len(), 1),
        other => panic!("expected an array result, got {:?}", other),
    }

    // read: the address travels to the handler and the contents back
    let read = client.read_resource("mcp://e2e/file.txt".to_string());
    let action = session.dispatch_request(&parse_text(&to_text(&encode_request(&read))));
    let (id, uri) = match action {
        DispatchAction::ReadResource { id, uri } => (id, uri),
        other => panic!("expected a read invocation, got {:?}", other),
    };
    assert_eq!(uri, "mcp://e2e/file.txt");
    let result = mcp_sdk::types::ReadResourceResult {
        contents: vec![ResourceContents::Text(TextResourceContents {
            uri,
            mime_type: Some("text/plain".to_string()),
            text: "hello resource".to_string(),
        })],
    };
    let reply = read_resource_reply(id, &result);
    let (got_id, outcome) = client.handle_response(&reply).unwrap();
    assert_eq!(got_id, read.id);
    match outcome {
        ReplyOutcome::Value(v) => {
            let round = mcp_sdk::codec::decode_read_resource_result(&v).unwrap();
            assert_eq!(round, result);
        },
        other => panic!("expected a result, got {:?}", other),
    }
}

#[test]
fn test_full_prompt_interaction() {
    let server = Server::new("mcp-prompt-test".to_string())
        .on_list_prompts()
        .on_get_prompt();
    let mut session = ServerSession::new(&server);
    let mut client = Client::new();

    let init = client.initialize_request();
    match session.dispatch_request(&parse_text(&to_text(&encode_request(&init)))) {
        DispatchAction::Reply(j) => {
            assert!(Client::check_init_response(&j).is_some());
        },
        other => panic!("Client failed to connect to server: {:?}", other),
    }

    let list = client.list_prompts();
    let action = session.dispatch_request(&parse_text(&to_text(&encode_request(&list))));
    let id = match action {
        DispatchAction::ListPrompts { id } => id,
        other => panic!("expected a prompts invocation, got {:?}", other),
    };
    let prompts = ListPromptsResult {
        prompts: vec![Prompt {
            name: "e2e-prompt".to_string(),
            description: None,
            arguments: None,
        }],
    };
    let (got_id, outcome) = client
        .handle_response(&list_prompts_reply(id, &prompts))
        .unwrap();
    assert_eq!(got_id, list.id);
    match outcome {
        ReplyOutcome::Value(v) => {
            let round = mcp_sdk::codec::decode_list_prompts_result(&v).unwrap();
            assert_eq!(round.prompts[0].name, "e2e-prompt");
        },
        other => panic!("expected a result, got {:?}", other),
    }

    let get = client.get_prompt("e2e-prompt".to_string(), None);
    let action = session.dispatch_request(&parse_text(&to_text(&encode_request(&get))));
    let (id, name, arguments) = match action {
        DispatchAction::GetPrompt {
            id,
            name,
            arguments,
        } => (id, name, arguments),
        other => panic!("expected a prompt invocation, got {:?}", other),
    };
    assert_eq!(name, "e2e-prompt");
    assert!(arguments.is_none());
    let result = GetPromptResult {
        description: None,
        messages: vec![PromptMessage {
            role: "user".to_string(),
            content: Content::Text {
                text: "rendered".to_string(),
            },
        }],
    };
    let (got_id, outcome) = client.handle_response(&get_prompt_reply(id, &result)).unwrap();
    assert_eq!(got_id, get.id);
    match outcome {
        ReplyOutcome::Value(v) => {
            let round = mcp_sdk::codec::decode_get_prompt_result(&v).unwrap();
            assert_eq!(round, result);
        },
        other => panic!("expected a result, got {:?}", other),
    }
}
