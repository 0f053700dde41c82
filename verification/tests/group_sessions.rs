//! The session group: keys, and gathering of the sessions' answers.

use mcp_sdk::group::{aggregate_tools, ClientSessionGroup};
use mcp_sdk::json::Json;
use mcp_sdk::types::{ListToolsResult, Tool};

fn named_tool(name: &str) -> Tool {
    Tool {
        name: name.to_string(),
        description: None,
        input_schema: Json::Null,
        annotations: None,
    }
}

#[test]
fn test_add_and_list_all() {
    let mut group = ClientSessionGroup::new();
    group.add_client("127.0.0.1:8081".to_string());
    group.add_client("127.0.0.1:8082".to_string());
    assert_eq!(group.keys.len(), 2);

    let answers = vec![
        Some(ListToolsResult {
            tools: vec![named_tool("tool-from-server-1")],
        }),
        Some(ListToolsResult {
            tools: vec![named_tool("tool-from-server-2")],
        }),
    ];
    let all_tools = aggregate_tools(&answers);
    assert_eq!(all_tools.len(), 2);
    assert!(all_tools.iter().any(|t| t.name == "tool-from-server-1"));
    assert!(all_tools.iter().any(|t| t.name == "tool-from-server-2"));
}

#[test]
fn test_remove_and_list_all() {
    let mut group = ClientSessionGroup::new();
    group.add_client("one".to_string());
    group.add_client("two".to_string());
    group.remove_client("one");
    assert_eq!(group.keys.len(), 1);
    assert!(!group.has_client("one"));
    assert!(group.has_client("two"));

    let answers = vec![Some(ListToolsResult {
        tools: vec![named_tool("tool-2")],
    })];
    let all_tools = aggregate_tools(&answers);
    assert_eq!(all_tools.len(), 1);
    assert_eq!(all_tools[0].name, "tool-2");
}

#[test]
fn failed_sessions_are_skipped() {
    let answers = vec![
        Some(ListToolsResult {
            tools: vec![named_tool("a")],
        }),
        None,
        Some(ListToolsResult {
            tools: vec![named_tool("b")],
        }),
    ];
    let all_tools = aggregate_tools(&answers);
    assert_eq!(all_tools.len(), 2);
    assert_eq!(all_tools[0].name, "a");
    assert_eq!(all_tools[1].name, "b");
}

#[test]
fn adding_a_key_twice_keeps_one_entry() {
    let mut group = ClientSessionGroup::new();
    group.add_client("same".to_string());
    group.add_client("same".to_string());
    assert_eq!(group.keys.len(), 1);
}
