//! The record vocabulary and its codec, through the wire text and back.

use mcp_sdk::codec::{
    decode_error_data, decode_get_prompt_result, decode_jsonrpc_response, decode_notification,
    decode_prompt, decode_read_resource_result, decode_request, decode_resource, decode_tool,
    encode_get_prompt_result, encode_notification, encode_prompt, encode_read_resource_result,
    encode_request, encode_resource, encode_tool, frame_is_blank,
};
use mcp_sdk::json::{to_json_chars, Json};
use mcp_sdk::parse::parse_json;
use mcp_sdk::types::{
    BlobResourceContents, CallToolParams, Content, ErrorData, GetPromptResult, JSONRPCResponse,
    Notification, Prompt, PromptArgument, PromptMessage, ReadResourceResult, Request, RequestId,
    Resource, ResourceContents, TextResourceContents, Tool, ToolAnnotations,
};
use mcp_sdk::types::MCPMessage;

fn to_text(j: &Json) -> String {
    to_json_chars(j).into_iter().collect()
}

fn parse_text(s: &str) -> Json {
    let chars: Vec<char> = s.chars().collect();
    parse_json(&chars).expect("text should parse")
}

fn obj(members: Vec<(&str, Json)>) -> Json {
    Json::Obj(
        members
            .into_iter()
            .map(|(k, v)| (k.to_string(), v))
            .collect(),
    )
}

#[test]
fn test_mcp_message_trait_request_moved() {
    let request = Request {
        jsonrpc: "2.0".to_string(),
        id: RequestId::Num(1),
        method: "test/method".to_string(),
        params: mcp_sdk::codec::encode_call_tool_params(&CallToolParams {
            name: "test_tool".to_string(),
            arguments: obj(vec![]),
        }),
    };
    assert_eq!(request.method(), "test/method");
}

#[test]
fn test_mcp_message_trait_notification_moved() {
    let notification = Notification {
        jsonrpc: "2.0".to_string(),
        method: "test/notification".to_string(),
        params: None,
    };
    assert_eq!(notification.method(), "test/notification");
}

#[test]
fn test_tool_new_helper_moved() {
    let tool_name = "my_tool";
    let tool_desc = "A description for my tool.";
    let input_schema = obj(vec![("type", Json::Str("string".to_string()))]);

    let tool1 = Tool::new(
        tool_name.to_string(),
        Some(tool_desc.to_string()),
        input_schema.clone(),
    );
    assert_eq!(tool1.name, tool_name);
    assert_eq!(tool1.description, Some(tool_desc.to_string()));
    assert_eq!(tool1.input_schema, input_schema);
    assert!(tool1.annotations.is_none());

    let tool2 = Tool::new("another_tool".to_string(), None, obj(vec![]));
    assert_eq!(tool2.name, "another_tool");
    assert!(tool2.description.is_none());
    assert_eq!(tool2.input_schema, obj(vec![]));
    assert!(tool2.annotations.is_none());
}

#[test]
fn test_tool_default_input_schema_moved() {
    let default_tool = Tool::default();
    assert_eq!(default_tool.input_schema, Json::Null);
}

#[test]
fn test_tool_from_args() {
    let fields = vec![mcp_sdk::schema::ArgField {
        name: "test_prop".to_string(),
        ty: mcp_sdk::schema::ArgType::Str,
        optional: false,
        desc: None,
        rename: None,
        skip: false,
        required: None,
    }];
    let tool = Tool::from_args(
        "my_test_tool_from_args".to_string(),
        Some("A tool created with from_args.".to_string()),
        &fields,
    );

    assert_eq!(tool.name, "my_test_tool_from_args");
    assert_eq!(
        tool.description,
        Some("A tool created with from_args.".to_string())
    );

    let expected_schema = obj(vec![
        ("type", Json::Str("object".to_string())),
        (
            "properties",
            obj(vec![(
                "test_prop",
                obj(vec![("type", Json::Str("string".to_string()))]),
            )]),
        ),
        (
            "required",
            Json::Arr(vec![Json::Str("test_prop".to_string())]),
        ),
    ]);
    assert_eq!(tool.input_schema, expected_schema);
    assert!(tool.annotations.is_none());
}

#[test]
fn test_tool_roundtrip() {
    let tool = Tool {
        name: "fetch".to_string(),
        description: Some("Fetches a website".to_string()),
        input_schema: obj(vec![
            ("type", Json::Str("object".to_string())),
            (
                "properties",
                obj(vec![(
                    "url",
                    obj(vec![("type", Json::Str("string".to_string()))]),
                )]),
            ),
        ]),
        annotations: Some(ToolAnnotations {
            title: None,
            read_only_hint: Some(true),
            destructive_hint: None,
        }),
    };
    let json_string = to_text(&encode_tool(&tool));
    let deserialized = decode_tool(&parse_text(&json_string)).unwrap();
    assert_eq!(tool, deserialized);
}

#[test]
fn test_prompt_roundtrip() {
    let prompt = Prompt {
        name: "test-prompt".to_string(),
        description: Some("A test prompt".to_string()),
        arguments: Some(vec![PromptArgument {
            name: "arg1".to_string(),
            description: Some("An argument".to_string()),
            required: Some(true),
        }]),
    };
    let json_string = to_text(&encode_prompt(&prompt));
    let deserialized = decode_prompt(&parse_text(&json_string)).unwrap();
    assert_eq!(prompt, deserialized);
}

#[test]
fn test_get_prompt_result_roundtrip() {
    let result = GetPromptResult {
        description: Some("A test prompt".to_string()),
        messages: vec![
            PromptMessage {
                role: "user".to_string(),
                content: Content::Text {
                    text: "Hello".to_string(),
                },
            },
            PromptMessage {
                role: "assistant".to_string(),
                content: Content::Image {
                    data: "base64data".to_string(),
                    mime_type: "image/png".to_string(),
                },
            },
        ],
    };

    let json_string = to_text(&encode_get_prompt_result(&result));
    let deserialized = decode_get_prompt_result(&parse_text(&json_string)).unwrap();
    assert_eq!(result, deserialized);

    // also check the raw JSON shape
    let value = parse_text(&json_string);
    let messages = match &value {
        Json::Obj(ms) => ms.iter().find(|(k, _)| k == "messages").unwrap().1.clone(),
        _ => panic!("not an object"),
    };
    let items = match messages {
        Json::Arr(items) => items,
        _ => panic!("messages is not an array"),
    };
    let content0 = match &items[0] {
        Json::Obj(ms) => ms.iter().find(|(k, _)| k == "content").unwrap().1.clone(),
        _ => panic!(),
    };
    match content0 {
        Json::Obj(ms) => {
            assert_eq!(
                ms.iter().find(|(k, _)| k == "type").unwrap().1,
                Json::Str("text".to_string())
            );
        },
        _ => panic!(),
    }
    let content1 = match &items[1] {
        Json::Obj(ms) => ms.iter().find(|(k, _)| k == "content").unwrap().1.clone(),
        _ => panic!(),
    };
    match content1 {
        Json::Obj(ms) => {
            assert_eq!(
                ms.iter().find(|(k, _)| k == "type").unwrap().1,
                Json::Str("image".to_string())
            );
            assert_eq!(
                ms.iter().find(|(k, _)| k == "mimeType").unwrap().1,
                Json::Str("image/png".to_string())
            );
        },
        _ => panic!(),
    }
}

#[test]
fn test_resource_roundtrip() {
    let resource = Resource {
        name: "My File".to_string(),
        uri: "file:///path/to/file.txt".to_string(),
        description: Some("A test file".to_string()),
        mime_type: Some("text/plain".to_string()),
    };
    let json_string = to_text(&encode_resource(&resource));
    let deserialized = decode_resource(&parse_text(&json_string)).unwrap();
    assert_eq!(resource, deserialized);
}

#[test]
fn test_read_resource_result_roundtrip() {
    let result = ReadResourceResult {
        contents: vec![
            ResourceContents::Text(TextResourceContents {
                uri: "file:///doc.txt".to_string(),
                mime_type: Some("text/plain".to_string()),
                text: "Hello".to_string(),
            }),
            ResourceContents::Blob(BlobResourceContents {
                uri: "file:///img.png".to_string(),
                mime_type: Some("image/png".to_string()),
                blob: "base64data".to_string(),
            }),
        ],
    };
    let json_string = to_text(&encode_read_resource_result(&result));
    let deserialized = decode_read_resource_result(&parse_text(&json_string)).unwrap();
    assert_eq!(result, deserialized);
}

#[test]
fn test_notification_deserialization() {
    let notif_json =
        r#"{"jsonrpc":"2.0","method":"notifications/tools/list_changed","params":{}}"#;
    let notif = decode_notification(&parse_text(notif_json)).unwrap();
    assert_eq!(notif.method, "notifications/tools/list_changed");
}

#[test]
fn test_jsonrpc_response_success() {
    let success_json = r#"{"jsonrpc":"2.0","id":1,"result":{"status":"ok"}}"#;
    let response = decode_jsonrpc_response(&parse_text(success_json)).unwrap();
    match response {
        JSONRPCResponse::Success(s) => {
            assert_eq!(s.id, RequestId::Num(1));
            assert_eq!(s.result, obj(vec![("status", Json::Str("ok".to_string()))]));
        },
        JSONRPCResponse::Error(_) => panic!("Expected success response"),
    }
}

#[test]
fn test_jsonrpc_response_error() {
    let error_json =
        r#"{"jsonrpc":"2.0","id":2,"error":{"code":-32601,"message":"Method not found"}}"#;
    let response = decode_jsonrpc_response(&parse_text(error_json)).unwrap();
    match response {
        JSONRPCResponse::Success(_) => panic!("Expected error response"),
        JSONRPCResponse::Error(e) => {
            assert_eq!(e.id, RequestId::Num(2));
            assert_eq!(e.error.code, -32601);
            assert_eq!(e.error.message, "Method not found");
        },
    }
}

#[test]
fn test_protocol_connection_send_recv() {
    let request = Request {
        jsonrpc: "2.0".to_string(),
        id: RequestId::Num(123),
        method: "tools/call".to_string(),
        params: mcp_sdk::codec::encode_call_tool_params(&CallToolParams {
            name: "test-tool".to_string(),
            arguments: obj(vec![("arg1", Json::Str("value1".to_string()))]),
        }),
    };
    let sent = to_text(&encode_request(&request));
    let received = decode_request(&parse_text(&sent));
    assert_eq!(Some(request), received);
}

#[test]
fn test_protocol_connection_receives_none_on_empty() {
    let empty: Vec<char> = Vec::new();
    assert!(frame_is_blank(&empty));
    let blank: Vec<char> = "  \t\r\n".chars().collect();
    assert!(frame_is_blank(&blank));
    let not_blank: Vec<char> = " {} ".chars().collect();
    assert!(!frame_is_blank(&not_blank));
}

#[test]
fn error_payload_roundtrip_and_messages() {
    let e = ErrorData {
        code: -32603,
        message: "boom".to_string(),
    };
    let round = decode_error_data(&parse_text(&to_text(&mcp_sdk::codec::encode_error_data(&e))))
        .unwrap();
    assert_eq!(e, round);

    let err = mcp_sdk::Error::JsonRpc(e);
    assert_eq!(err.message(), "JSON-RPC error (code -32603): boom");
    assert_eq!(
        mcp_sdk::Error::ChannelClosed.message(),
        "Internal communication channel closed"
    );
    assert_eq!(mcp_sdk::Error::Timeout.message(), "Operation timed out");
    assert_eq!(
        mcp_sdk::Error::Other("x".to_string()).message(),
        "An internal error occurred: x"
    );
}

#[test]
fn notification_roundtrip_with_and_without_params() {
    let with = Notification {
        jsonrpc: "2.0".to_string(),
        method: "notifications/tools/list_changed".to_string(),
        params: Some(obj(vec![])),
    };
    let text = to_text(&encode_notification(&with));
    assert_eq!(
        text,
        r#"{"jsonrpc":"2.0","method":"notifications/tools/list_changed","params":{}}"#
    );
    assert_eq!(decode_notification(&parse_text(&text)), Some(with));

    let without = Notification {
        jsonrpc: "2.0".to_string(),
        method: "test/notification".to_string(),
        params: None,
    };
    let text2 = to_text(&encode_notification(&without));
    assert_eq!(text2, r#"{"jsonrpc":"2.0","method":"test/notification"}"#);
    assert_eq!(decode_notification(&parse_text(&text2)), Some(without));
}

#[test]
fn decoders_ignore_unknown_fields_and_key_order() {
    // keys out of declaration order, plus members the record does not know
    let text = r#"{"extra":123,"inputSchema":{"type":"object"},"name":"fetch","unknown":null,"description":"Fetches a website"}"#;
    let tool = decode_tool(&parse_text(text)).unwrap();
    assert_eq!(tool.name, "fetch");
    assert_eq!(tool.description, Some("Fetches a website".to_string()));
    assert_eq!(
        tool.input_schema,
        obj(vec![("type", Json::Str("object".to_string()))])
    );
    assert!(tool.annotations.is_none());

    let req_text =
        r#"{"params":{},"method":"tools/list","id":9,"jsonrpc":"2.0","trace":"abc"}"#;
    let request = decode_request(&parse_text(req_text)).unwrap();
    assert_eq!(request.id, RequestId::Num(9));
    assert_eq!(request.method, "tools/list");
}

#[test]
fn decoders_reject_missing_required_fields() {
    // a request without params is no request
    let no_params = r#"{"jsonrpc":"2.0","id":1,"method":"tools/list"}"#;
    assert!(decode_request(&parse_text(no_params)).is_none());
    // a notification must not carry an identifier
    let with_id = r#"{"jsonrpc":"2.0","id":1,"method":"x","params":{}}"#;
    assert!(decode_notification(&parse_text(with_id)).is_none());
    // a tool needs its schema
    let no_schema = r#"{"name":"t"}"#;
    assert!(decode_tool(&parse_text(no_schema)).is_none());
}
