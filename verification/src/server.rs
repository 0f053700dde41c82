//! The server side: the registry of tools and handlers, and the dispatch
//! engine that drives one accepted connection.
//!
//! The session loop around this engine performs the I/O: it reads one
//! message, hands it to [`ServerSession::dispatch_request`], and acts on
//! the returned [`DispatchAction`] — sending the reply, or invoking the
//! named handler and sending the reply a completion builder makes from the
//! handler's result.

use vstd::prelude::*;
use vstd::string::StrSliceExecFns;
use vstd::string::StringExecFns;
use crate::json::{Json, JsonVal, spec_ser, string_from_chars, to_json_chars};
use crate::codec::{
    dec_call_tool_params, dec_get_prompt_params, dec_initialize_params, dec_notification,
    dec_call_tool_result, dec_read_resource_params, dec_request, dec_response, decode_call_tool_params, decode_get_prompt_params,
    decode_initialize_params, decode_notification, decode_read_resource_params, decode_request,
    enc_call_tool_result, enc_error_response, enc_get_prompt_result, enc_initialize_result,
    enc_list_prompts_result, enc_list_tools_result, enc_read_resource_result, enc_resource_seq,
    enc_response, encode_call_tool_result, encode_error_response, encode_get_prompt_result,
    encode_initialize_result, encode_list_prompts_result, encode_list_tools_result,
    encode_read_resource_result, encode_resource_seq, encode_response,
};
use crate::schema::{ArgField, ArgFieldV, spec_args_conform, args_conform};
use crate::types::{
    CallToolResult, CallToolResultV, Content, ContentV, ErrorData, ErrorDataV, ErrorResponse,
    ErrorResponseV, GetPromptResult, Implementation, ImplementationV, InitializeResult,
    InitializeResultV, ListPromptsResult, ListToolsResult, Notification, ReadResourceResult,
    Request, RequestId, RequestIdV, RequestV, Resource, Response, ResponseV, ServerCapabilities,
    ServerCapabilitiesV, Tool, ToolV, ToolsCapability, ToolsCapabilityV, INTERNAL_ERROR,
    INVALID_PARAMS, METHOD_NOT_FOUND,
};

verus! {

/// The version the server announces about itself.
pub const SERVER_VERSION: &'static str = "0.1.0";

// --- The registry ---

/// One registered tool: its metadata, and, for a typed registration, the
/// argument fields its handler expects.
pub struct ToolEntry {
    pub tool: Tool,
    pub args: Option<Vec<ArgField>>,
}

pub struct ToolEntryV {
    pub tool: ToolV,
    pub args: Option<Seq<ArgFieldV>>,
}

impl DeepView for ToolEntry {
    type V = ToolEntryV;

    open spec fn deep_view(&self) -> ToolEntryV {
        ToolEntryV { tool: self.tool.deep_view(), args: self.args.deep_view() }
    }
}

/// The server registry: a name, the registered tools, and which of the
/// four non-tool handlers are registered.  Immutable once sessions run.
pub struct Server {
    pub name: String,
    pub tools: Vec<ToolEntry>,
    pub has_list_resources: bool,
    pub has_read_resource: bool,
    pub has_list_prompts: bool,
    pub has_get_prompt: bool,
}

pub struct ServerV {
    pub name: Seq<char>,
    pub tools: Seq<ToolEntryV>,
    pub has_list_resources: bool,
    pub has_read_resource: bool,
    pub has_list_prompts: bool,
    pub has_get_prompt: bool,
}

impl DeepView for Server {
    type V = ServerV;

    open spec fn deep_view(&self) -> ServerV {
        ServerV {
            name: self.name@,
            tools: self.tools.deep_view(),
            has_list_resources: self.has_list_resources,
            has_read_resource: self.has_read_resource,
            has_list_prompts: self.has_list_prompts,
            has_get_prompt: self.has_get_prompt,
        }
    }
}

/// The first registered tool with the given name, if any.
pub open spec fn spec_find_tool(ts: Seq<ToolEntryV>, n: Seq<char>) -> Option<ToolEntryV>
    decreases ts,
{
    if ts.len() == 0 {
        None
    } else if ts[0].tool.name == n {
        Some(ts[0])
    } else {
        spec_find_tool(ts.drop_first(), n)
    }
}

/// Whether some tool with the given name is registered.
pub open spec fn spec_has_tool(ts: Seq<ToolEntryV>, n: Seq<char>) -> bool {
    spec_find_tool(ts, n) is Some
}

/// The index of the first tool with the given name; meaningful only where
/// one exists.
pub open spec fn spec_tool_index(ts: Seq<ToolEntryV>, n: Seq<char>) -> int
    decreases ts,
{
    if ts.len() == 0 {
        0
    } else if ts[0].tool.name == n {
        0
    } else {
        1 + spec_tool_index(ts.drop_first(), n)
    }
}

/// The metadata of all registered tools, in registration order.
pub open spec fn spec_tools_of(ts: Seq<ToolEntryV>) -> Seq<ToolV> {
    ts.map_values(|e: ToolEntryV| e.tool)
}

impl Server {
    /// A registry with the given name and nothing registered.
    pub fn new(name: String) -> (s: Server)
        ensures
            s.deep_view().name == name@,
            s.deep_view().tools == Seq::<ToolEntryV>::empty(),
            !s.deep_view().has_list_resources,
            !s.deep_view().has_read_resource,
            !s.deep_view().has_list_prompts,
            !s.deep_view().has_get_prompt,
    {
        let s = Server {
            name,
            tools: Vec::new(),
            has_list_resources: false,
            has_read_resource: false,
            has_list_prompts: false,
            has_get_prompt: false,
        };
        proof {
            assert(s.tools.deep_view() =~= Seq::<ToolEntryV>::empty());
        }
        s
    }

    fn insert_tool(&mut self, entry: ToolEntry)
        ensures
            final(self).name == old(self).name,
            final(self).has_list_resources == old(self).has_list_resources,
            final(self).has_read_resource == old(self).has_read_resource,
            final(self).has_list_prompts == old(self).has_list_prompts,
            final(self).has_get_prompt == old(self).has_get_prompt,
            final(self).tools.deep_view() == (if spec_has_tool(
                old(self).tools.deep_view(),
                entry.deep_view().tool.name,
            ) {
                old(self).tools.deep_view().update(
                    spec_tool_index(old(self).tools.deep_view(), entry.deep_view().tool.name),
                    entry.deep_view(),
                )
            } else {
                old(self).tools.deep_view().push(entry.deep_view())
            }),
    {
        let ghost ts = self.tools.deep_view();
        let ghost n = entry.deep_view().tool.name;
        let count = self.tools.len();
        proof {
            assert(ts.skip(0) =~= ts);
        }
        let mut i: usize = 0;
        while i < count
            invariant
                count == self.tools@.len(),
                i <= count,
                ts == self.tools.deep_view(),
                n == entry.deep_view().tool.name,
                *self == *old(self),
                forall|k: int| 0 <= k < i ==> (#[trigger] ts[k]).tool.name != n,
                spec_find_tool(ts, n) == spec_find_tool(ts.skip(i as int), n),
                spec_tool_index(ts, n) == i + spec_tool_index(ts.skip(i as int), n),
                ts.len() == count,
            decreases count - i,
        {
            proof {
                assert(ts.skip(i as int)[0] == ts[i as int]);
                assert(ts[i as int] == self.tools@[i as int].deep_view());
            }
            if crate::codec::str_eq(self.tools[i].tool.name.as_str(), entry.tool.name.as_str()) {
                proof {
                    assert(ts.skip(i as int).len() > 0);
                    assert(ts[i as int].tool.name == self.tools@[i as int].tool.name@);
                    assert(n == entry.tool.name@);
                    assert(ts.skip(i as int)[0].tool.name == n);
                    assert(spec_find_tool(ts.skip(i as int), n) == Some(ts[i as int]));
                    assert(spec_tool_index(ts.skip(i as int), n) == 0);
                    assert(spec_tool_index(ts, n) == i);
                }
                self.tools.set(i, entry);
                proof {
                    assert(self.tools.deep_view() =~= ts.update(i as int, entry.deep_view()));
                }
                return ;
            }
            proof {
                assert(ts.skip(i as int).drop_first() =~= ts.skip(i + 1));
            }
            i = i + 1;
        }
        proof {
            assert(ts.skip(count as int) =~= Seq::<ToolEntryV>::empty());
            assert(spec_find_tool(ts, n) is None);
        }
        self.tools.push(entry);
        proof {
            assert(self.tools.deep_view() =~= ts.push(entry.deep_view()));
        }
    }

    /// Registers a tool that takes its arguments as a raw JSON value.  A
    /// tool already registered under the same name is replaced.
    pub fn register_tool(self, tool: Tool) -> (s: Server)
        ensures
            s.deep_view().name == self.deep_view().name,
            s.deep_view().has_list_resources == self.deep_view().has_list_resources,
            s.deep_view().has_read_resource == self.deep_view().has_read_resource,
            s.deep_view().has_list_prompts == self.deep_view().has_list_prompts,
            s.deep_view().has_get_prompt == self.deep_view().has_get_prompt,
            s.deep_view().tools == (if spec_has_tool(
                self.deep_view().tools,
                tool.deep_view().name,
            ) {
                self.deep_view().tools.update(
                    spec_tool_index(self.deep_view().tools, tool.deep_view().name),
                    ToolEntryV { tool: tool.deep_view(), args: None },
                )
            } else {
                self.deep_view().tools.push(ToolEntryV { tool: tool.deep_view(), args: None })
            }),
    {
        let mut s = self;
        s.insert_tool(ToolEntry { tool, args: None });
        s
    }

    /// Registers a tool whose handler takes typed arguments described by
    /// the given field list.  Arguments that do not conform are answered
    /// with an error result before any handler runs.
    pub fn register_tool_typed(self, tool: Tool, args: Vec<ArgField>) -> (s: Server)
        ensures
            s.deep_view().name == self.deep_view().name,
            s.deep_view().has_list_resources == self.deep_view().has_list_resources,
            s.deep_view().has_read_resource == self.deep_view().has_read_resource,
            s.deep_view().has_list_prompts == self.deep_view().has_list_prompts,
            s.deep_view().has_get_prompt == self.deep_view().has_get_prompt,
            s.deep_view().tools == (if spec_has_tool(
                self.deep_view().tools,
                tool.deep_view().name,
            ) {
                self.deep_view().tools.update(
                    spec_tool_index(self.deep_view().tools, tool.deep_view().name),
                    ToolEntryV { tool: tool.deep_view(), args: Some(args.deep_view()) },
                )
            } else {
                self.deep_view().tools.push(
                    ToolEntryV { tool: tool.deep_view(), args: Some(args.deep_view()) },
                )
            }),
    {
        let mut s = self;
        s.insert_tool(ToolEntry { tool, args: Some(args) });
        s
    }

    /// Declares that a `resources/list` handler is registered.
    pub fn on_list_resources(self) -> (s: Server)
        ensures
            s.deep_view() == (ServerV { has_list_resources: true, ..self.deep_view() }),
    {
        Server { has_list_resources: true, ..self }
    }

    /// Declares that a `resources/read` handler is registered.
    pub fn on_read_resource(self) -> (s: Server)
        ensures
            s.deep_view() == (ServerV { has_read_resource: true, ..self.deep_view() }),
    {
        Server { has_read_resource: true, ..self }
    }

    /// Declares that a `prompts/list` handler is registered.
    pub fn on_list_prompts(self) -> (s: Server)
        ensures
            s.deep_view() == (ServerV { has_list_prompts: true, ..self.deep_view() }),
    {
        Server { has_list_prompts: true, ..self }
    }

    /// Declares that a `prompts/get` handler is registered.
    pub fn on_get_prompt(self) -> (s: Server)
        ensures
            s.deep_view() == (ServerV { has_get_prompt: true, ..self.deep_view() }),
    {
        Server { has_get_prompt: true, ..self }
    }

    /// The first registered tool with the given name.
    pub fn find_tool(&self, name: &str) -> (r: Option<&ToolEntry>)
        ensures
            match r {
                Some(e) => spec_find_tool(self.deep_view().tools, name@) == Some(e.deep_view()),
                None => spec_find_tool(self.deep_view().tools, name@) is None,
            },
    {
        let ghost ts = self.deep_view().tools;
        let count = self.tools.len();
        let mut i: usize = 0;
        proof {
            assert(ts.skip(0) =~= ts);
        }
        while i < count
            invariant
                count == self.tools@.len(),
                ts == self.deep_view().tools,
                i <= count,
                ts.len() == count,
                spec_find_tool(ts, name@) == spec_find_tool(ts.skip(i as int), name@),
            decreases count - i,
        {
            proof {
                assert(ts.skip(i as int)[0] == ts[i as int]);
                assert(ts[i as int] == self.tools@[i as int].deep_view());
            }
            if crate::codec::str_eq(self.tools[i].tool.name.as_str(), name) {
                return Some(&self.tools[i]);
            }
            proof {
                assert(ts.skip(i as int).drop_first() =~= ts.skip(i + 1));
            }
            i = i + 1;
        }
        proof {
            assert(ts.skip(count as int) =~= Seq::<ToolEntryV>::empty());
        }
        None
    }

    /// The metadata of every registered tool, in registration order.
    pub fn list_tools(&self) -> (r: ListToolsResult)
        ensures
            r.deep_view().tools == spec_tools_of(self.deep_view().tools),
    {
        let ghost ts = self.deep_view().tools;
        let count = self.tools.len();
        let mut tools: Vec<Tool> = Vec::new();
        let mut i: usize = 0;
        proof {
            assert(tools.deep_view() =~= spec_tools_of(ts).take(0));
        }
        while i < count
            invariant
                count == self.tools@.len(),
                ts == self.deep_view().tools,
                i <= count,
                ts.len() == count,
                tools.deep_view() == spec_tools_of(ts).take(i as int),
            decreases count - i,
        {
            let ghost prev = tools.deep_view();
            let t = self.tools[i].tool.dup();
            tools.push(t);
            proof {
                assert(ts[i as int] == self.tools@[i as int].deep_view());
                assert(tools.deep_view() =~= prev.push(t.deep_view()));
                assert(tools.deep_view() =~= spec_tools_of(ts).take(i + 1));
            }
            i = i + 1;
        }
        proof {
            assert(spec_tools_of(ts).take(count as int) =~= spec_tools_of(ts));
        }
        ListToolsResult { tools }
    }
}

// --- Envelope builders ---

pub open spec fn spec_success(id: RequestIdV, result: JsonVal) -> JsonVal {
    enc_response(ResponseV { jsonrpc: "2.0"@, id, result })
}

pub open spec fn spec_error(id: RequestIdV, code: int, message: Seq<char>) -> JsonVal {
    enc_error_response(
        ErrorResponseV { jsonrpc: "2.0"@, id, error: ErrorDataV { code, message } },
    )
}

/// A success-response envelope around a result value.
pub fn build_success(id: RequestId, result: Json) -> (out: Json)
    ensures
        out.deep_view() == spec_success(id.deep_view(), result.deep_view()),
{
    encode_response(&Response { jsonrpc: "2.0".to_owned(), id, result })
}

/// An error-response envelope with the given code and message.
pub fn build_error(id: RequestId, code: i32, message: String) -> (out: Json)
    ensures
        out.deep_view() == spec_error(id.deep_view(), code as int, message@),
{
    encode_error_response(
        &ErrorResponse {
            jsonrpc: "2.0".to_owned(),
            id,
            error: ErrorData { code, message },
        },
    )
}

// --- The messages the engine writes ---

pub open spec fn msg_tool_not_found(n: Seq<char>) -> Seq<char> {
    "Tool '"@ + n + "' not found"@
}

pub open spec fn msg_method_not_found(m: Seq<char>) -> Seq<char> {
    "Method '"@ + m + "' not found"@
}

pub open spec fn msg_no_handler(m: Seq<char>) -> Seq<char> {
    "Method '"@ + m + "' has no registered handler"@
}

fn quoted_msg(prefix: &str, middle: &str, suffix: &str) -> (out: String)
    ensures
        out@ == prefix@ + middle@ + suffix@,
{
    let mut s = prefix.to_owned();
    s.append(middle);
    s.append(suffix);
    s
}

// --- The invalid-arguments result ---

/// The message of the error result for a typed tool whose arguments fail
/// to deserialise: it names the tool, describes the failure, and carries
/// the expected schema pretty-printed.
pub open spec fn msg_invalid_args(name: Seq<char>, schema: JsonVal, detail: Seq<char>) -> Seq<
    char,
> {
    "Invalid arguments for tool '"@ + name + "': "@ + detail + ". Expected schema: "@
        + crate::json::spec_ser_pretty(schema, 0)
}

pub open spec fn spec_invalid_args_result(
    name: Seq<char>,
    schema: JsonVal,
    detail: Seq<char>,
) -> CallToolResultV {
    CallToolResultV {
        content: seq![ContentV::Text { text: msg_invalid_args(name, schema, detail) }],
        is_error: true,
    }
}

/// The error result a typed tool returns when its arguments fail to
/// deserialise: a text item naming the tool, the failure's description,
/// and the expected schema pretty-printed, with the error flag set.  This
/// is a result, never a protocol-level error.
pub fn invalid_args_result(name: &str, schema: &Json, detail: &str) -> (r: CallToolResult)
    ensures
        r.deep_view() == spec_invalid_args_result(name@, schema.deep_view(), detail@),
{
    let rendered = crate::json::to_json_chars_pretty(schema);
    let schema_text = string_from_chars(&rendered);
    let mut text = "Invalid arguments for tool '".to_owned();
    text.append(name);
    text.append("': ");
    text.append(detail);
    text.append(". Expected schema: ");
    text.append(schema_text.as_str());
    let mut content: Vec<Content> = Vec::new();
    content.push(Content::Text { text });
    let r = CallToolResult { content, is_error: true };
    proof {
        assert(r.content.deep_view() =~= spec_invalid_args_result(
            name@,
            schema.deep_view(),
            detail@,
        ).content);
    }
    r
}

// --- Dispatch actions ---

/// What the session loop must do next with a received message.
#[derive(Debug)]
pub enum DispatchAction {
    /// Send this message to the peer.
    Reply(Json),
    /// Invoke the named tool's handler on the given arguments, then send
    /// the reply built from its result.
    ToolCall { id: RequestId, name: String, arguments: Json },
    /// Invoke the resources-list handler, then reply.
    ListResources { id: RequestId },
    /// Invoke the resource-read handler on the given address, then reply.
    ReadResource { id: RequestId, uri: String },
    /// Invoke the prompts-list handler, then reply.
    ListPrompts { id: RequestId },
    /// Invoke the prompt-get handler, then reply.
    GetPrompt { id: RequestId, name: String, arguments: Option<Json> },
    /// The message was a notification; nothing is owed.
    Ignore,
    /// The message is noise the session survives; log the reason and send
    /// nothing.
    Reject { message: String },
    /// The message violates the handshake protocol; send nothing, log the
    /// reason, and close the connection.
    Terminate { message: String },
}

pub enum DispatchActionV {
    Reply(JsonVal),
    ToolCall { id: RequestIdV, name: Seq<char>, arguments: JsonVal },
    ListResources { id: RequestIdV },
    ReadResource { id: RequestIdV, uri: Seq<char> },
    ListPrompts { id: RequestIdV },
    GetPrompt { id: RequestIdV, name: Seq<char>, arguments: Option<JsonVal> },
    Ignore,
    Reject { message: Seq<char> },
    Terminate { message: Seq<char> },
}

impl DeepView for DispatchAction {
    type V = DispatchActionV;

    open spec fn deep_view(&self) -> DispatchActionV {
        match self {
            DispatchAction::Reply(j) => DispatchActionV::Reply(j.deep_view()),
            DispatchAction::ToolCall { id, name, arguments } => DispatchActionV::ToolCall {
                id: id.deep_view(),
                name: name@,
                arguments: arguments.deep_view(),
            },
            DispatchAction::ListResources { id } => DispatchActionV::ListResources {
                id: id.deep_view(),
            },
            DispatchAction::ReadResource { id, uri } => DispatchActionV::ReadResource {
                id: id.deep_view(),
                uri: uri@,
            },
            DispatchAction::ListPrompts { id } => DispatchActionV::ListPrompts {
                id: id.deep_view(),
            },
            DispatchAction::GetPrompt { id, name, arguments } => DispatchActionV::GetPrompt {
                id: id.deep_view(),
                name: name@,
                arguments: arguments.deep_view(),
            },
            DispatchAction::Ignore => DispatchActionV::Ignore,
            DispatchAction::Reject { message } => DispatchActionV::Reject { message: message@ },
            DispatchAction::Terminate { message } => DispatchActionV::Terminate {
                message: message@,
            },
        }
    }
}

// --- The mathematical dispatcher ---

/// Whether a message is the post-handshake "initialized" notification,
/// which is accepted and consumed at any time.
pub open spec fn is_initialized_notice(m: JsonVal) -> bool {
    match dec_notification(m) {
        Some(n) => n.method == "notifications/initialized"@,
        None => false,
    }
}

/// The handshake result this registry answers with: the protocol version,
/// the server identity, and a tools capability exactly when a tool is
/// registered.
pub open spec fn spec_init_result(s: ServerV) -> InitializeResultV {
    InitializeResultV {
        protocol_version: crate::LATEST_PROTOCOL_VERSION@,
        capabilities: ServerCapabilitiesV {
            tools: if s.tools.len() > 0 {
                Some(ToolsCapabilityV { list_changed: Some(false) })
            } else {
                None
            },
        },
        server_info: ImplementationV { name: s.name, version: SERVER_VERSION@ },
    }
}

/// Routing of one decoded request on an initialized session.
pub open spec fn spec_route(s: ServerV, req: RequestV) -> DispatchActionV {
    if req.method == "tools/list"@ {
        DispatchActionV::Reply(
            spec_success(
                req.id,
                enc_list_tools_result(
                    crate::types::ListToolsResultV { tools: spec_tools_of(s.tools) },
                ),
            ),
        )
    } else if req.method == "tools/call"@ {
        match dec_call_tool_params(req.params) {
            None => DispatchActionV::Reply(
                spec_error(req.id, INVALID_PARAMS as int, "Invalid parameters"@),
            ),
            Some(p) => match spec_find_tool(s.tools, p.name) {
                None => DispatchActionV::Reply(
                    spec_error(req.id, METHOD_NOT_FOUND as int, msg_tool_not_found(p.name)),
                ),
                Some(entry) => match entry.args {
                    Some(fields) => if spec_args_conform(fields, p.arguments) {
                        DispatchActionV::ToolCall {
                            id: req.id,
                            name: p.name,
                            arguments: p.arguments,
                        }
                    } else {
                        DispatchActionV::Reply(
                            spec_success(
                                req.id,
                                enc_call_tool_result(
                                    spec_invalid_args_result(
                                        p.name,
                                        entry.tool.input_schema,
                                        crate::schema::spec_args_error(fields, p.arguments),
                                    ),
                                ),
                            ),
                        )
                    },
                    None => DispatchActionV::ToolCall {
                        id: req.id,
                        name: p.name,
                        arguments: p.arguments,
                    },
                },
            },
        }
    } else if req.method == "resources/list"@ {
        if s.has_list_resources {
            if req.params is Obj {
                DispatchActionV::ListResources { id: req.id }
            } else {
                DispatchActionV::Reply(
                    spec_error(req.id, INVALID_PARAMS as int, "Invalid parameters"@),
                )
            }
        } else {
            DispatchActionV::Reply(
                spec_error(req.id, METHOD_NOT_FOUND as int, msg_no_handler(req.method)),
            )
        }
    } else if req.method == "resources/read"@ {
        if s.has_read_resource {
            match dec_read_resource_params(req.params) {
                Some(p) => DispatchActionV::ReadResource { id: req.id, uri: p.uri },
                None => DispatchActionV::Reply(
                    spec_error(req.id, INVALID_PARAMS as int, "Invalid parameters"@),
                ),
            }
        } else {
            DispatchActionV::Reply(
                spec_error(req.id, METHOD_NOT_FOUND as int, msg_no_handler(req.method)),
            )
        }
    } else if req.method == "prompts/list"@ {
        if s.has_list_prompts {
            if req.params is Obj {
                DispatchActionV::ListPrompts { id: req.id }
            } else {
                DispatchActionV::Reply(
                    spec_error(req.id, INVALID_PARAMS as int, "Invalid parameters"@),
                )
            }
        } else {
            DispatchActionV::Reply(
                spec_error(req.id, METHOD_NOT_FOUND as int, msg_no_handler(req.method)),
            )
        }
    } else if req.method == "prompts/get"@ {
        if s.has_get_prompt {
            match dec_get_prompt_params(req.params) {
                Some(p) => DispatchActionV::GetPrompt {
                    id: req.id,
                    name: p.name,
                    arguments: p.arguments,
                },
                None => DispatchActionV::Reply(
                    spec_error(req.id, INVALID_PARAMS as int, "Invalid parameters"@),
                ),
            }
        } else {
            DispatchActionV::Reply(
                spec_error(req.id, METHOD_NOT_FOUND as int, msg_no_handler(req.method)),
            )
        }
    } else if req.method == "initialize"@ {
        DispatchActionV::Terminate { message: "Client sent 'initialize' request twice."@ }
    } else {
        DispatchActionV::Reply(
            spec_error(req.id, METHOD_NOT_FOUND as int, msg_method_not_found(req.method)),
        )
    }
}

/// One step of the session: the new handshake state, and the action owed.
pub open spec fn spec_dispatch(s: ServerV, initialized: bool, m: JsonVal) -> (
    bool,
    DispatchActionV,
) {
    if is_initialized_notice(m) {
        (initialized, DispatchActionV::Ignore)
    } else if !initialized {
        match dec_request(m) {
            Some(req) => if req.method == "initialize"@ {
                match dec_initialize_params(req.params) {
                    Some(_) => (
                        true,
                        DispatchActionV::Reply(
                            spec_success(req.id, enc_initialize_result(spec_init_result(s))),
                        ),
                    ),
                    None => (
                        false,
                        DispatchActionV::Terminate {
                            message: "Malformed 'initialize' request parameters."@,
                        },
                    ),
                }
            } else {
                (
                    false,
                    DispatchActionV::Terminate {
                        message: "First message from client was not an 'initialize' request."@,
                    },
                )
            },
            None => (
                false,
                DispatchActionV::Terminate {
                    message: "First message from client was not an 'initialize' request."@,
                },
            ),
        }
    } else {
        match dec_request(m) {
            Some(req) => (true, spec_route(s, req)),
            None => (
                true,
                DispatchActionV::Reject { message: "Received a message that is not a request."@ },
            ),
        }
    }
}

// --- The session ---

/// One accepted connection: the shared registry and the handshake state.
pub struct ServerSession<'a> {
    pub server: &'a Server,
    pub is_initialized: bool,
}

impl<'a> ServerSession<'a> {
    /// A fresh session on the given registry; the handshake is still owed.
    pub fn new(server: &'a Server) -> (s: ServerSession<'a>)
        ensures
            s.server.deep_view() == server.deep_view(),
            !s.is_initialized,
    {
        ServerSession { server, is_initialized: false }
    }

    fn handle_initialize(&mut self, raw: &Json) -> (a: DispatchAction)
        requires
            !old(self).is_initialized,
        ensures
            final(self).server == old(self).server,
            ({
                let (st, act) = spec_dispatch(
                    old(self).server.deep_view(),
                    false,
                    raw.deep_view(),
                );
                !is_initialized_notice(raw.deep_view()) ==> final(self).is_initialized == st
                    && a.deep_view() == act
            }),
    {
        let req = match decode_request(raw) {
            Some(r) => r,
            None => {
                return DispatchAction::Terminate {
                    message: "First message from client was not an 'initialize' request."
                        .to_owned(),
                };
            },
        };
        if !crate::codec::str_eq(req.method.as_str(), "initialize") {
            return DispatchAction::Terminate {
                message: "First message from client was not an 'initialize' request.".to_owned(),
            };
        }
        match decode_initialize_params(&req.params) {
            Some(_) => {},
            None => {
                return DispatchAction::Terminate {
                    message: "Malformed 'initialize' request parameters.".to_owned(),
                };
            },
        }
        let tools_capability = if self.server.tools.len() > 0 {
            Some(ToolsCapability { list_changed: Some(false) })
        } else {
            None
        };
        let result = InitializeResult {
            protocol_version: crate::LATEST_PROTOCOL_VERSION.to_owned(),
            capabilities: ServerCapabilities { tools: tools_capability },
            server_info: Implementation {
                name: self.server.name.clone(),
                version: SERVER_VERSION.to_owned(),
            },
        };
        proof {
            assert(result.deep_view() == spec_init_result(self.server.deep_view()));
        }
        let reply = build_success(req.id, encode_initialize_result(&result));
        self.is_initialized = true;
        DispatchAction::Reply(reply)
    }

    fn route(&self, req: Request) -> (a: DispatchAction)
        ensures
            a.deep_view() == spec_route(self.server.deep_view(), req.deep_view()),
    {
        let Request { jsonrpc: _, id, method, params } = req;
        if crate::codec::str_eq(method.as_str(), "tools/list") {
            let result = self.server.list_tools();
            let reply = build_success(id, encode_list_tools_result(&result));
            DispatchAction::Reply(reply)
        } else if crate::codec::str_eq(method.as_str(), "tools/call") {
            let p = match decode_call_tool_params(&params) {
                Some(p) => p,
                None => {
                    return DispatchAction::Reply(
                        build_error(id, INVALID_PARAMS, "Invalid parameters".to_owned()),
                    );
                },
            };
            match self.server.find_tool(p.name.as_str()) {
                None => {
                    let message = quoted_msg("Tool '", p.name.as_str(), "' not found");
                    DispatchAction::Reply(build_error(id, METHOD_NOT_FOUND, message))
                },
                Some(entry) => {
                    let conforms = match &entry.args {
                        Some(fields) => args_conform(fields, &p.arguments),
                        None => true,
                    };
                    match &entry.args {
                        Some(fields) => {
                            if conforms {
                                DispatchAction::ToolCall {
                                    id,
                                    name: p.name,
                                    arguments: p.arguments,
                                }
                            } else {
                                let detail = crate::schema::args_error(fields, &p.arguments);
                                let r = invalid_args_result(
                                    p.name.as_str(),
                                    &entry.tool.input_schema,
                                    detail.as_str(),
                                );
                                let reply = build_success(id, encode_call_tool_result(&r));
                                DispatchAction::Reply(reply)
                            }
                        },
                        None => DispatchAction::ToolCall { id, name: p.name, arguments: p.arguments },
                    }
                },
            }
        } else if crate::codec::str_eq(method.as_str(), "resources/list") {
            if self.server.has_list_resources {
                if matches!(&params, Json::Obj(_)) {
                    DispatchAction::ListResources { id }
                } else {
                    DispatchAction::Reply(
                        build_error(id, INVALID_PARAMS, "Invalid parameters".to_owned()),
                    )
                }
            } else {
                let message = quoted_msg("Method '", method.as_str(), "' has no registered handler");
                DispatchAction::Reply(build_error(id, METHOD_NOT_FOUND, message))
            }
        } else if crate::codec::str_eq(method.as_str(), "resources/read") {
            if self.server.has_read_resource {
                match decode_read_resource_params(&params) {
                    Some(p) => DispatchAction::ReadResource { id, uri: p.uri },
                    None => DispatchAction::Reply(
                        build_error(id, INVALID_PARAMS, "Invalid parameters".to_owned()),
                    ),
                }
            } else {
                let message = quoted_msg("Method '", method.as_str(), "' has no registered handler");
                DispatchAction::Reply(build_error(id, METHOD_NOT_FOUND, message))
            }
        } else if crate::codec::str_eq(method.as_str(), "prompts/list") {
            if self.server.has_list_prompts {
                if matches!(&params, Json::Obj(_)) {
                    DispatchAction::ListPrompts { id }
                } else {
                    DispatchAction::Reply(
                        build_error(id, INVALID_PARAMS, "Invalid parameters".to_owned()),
                    )
                }
            } else {
                let message = quoted_msg("Method '", method.as_str(), "' has no registered handler");
                DispatchAction::Reply(build_error(id, METHOD_NOT_FOUND, message))
            }
        } else if crate::codec::str_eq(method.as_str(), "prompts/get") {
            if self.server.has_get_prompt {
                match decode_get_prompt_params(&params) {
                    Some(p) => DispatchAction::GetPrompt {
                        id,
                        name: p.name,
                        arguments: p.arguments,
                    },
                    None => DispatchAction::Reply(
                        build_error(id, INVALID_PARAMS, "Invalid parameters".to_owned()),
                    ),
                }
            } else {
                let message = quoted_msg("Method '", method.as_str(), "' has no registered handler");
                DispatchAction::Reply(build_error(id, METHOD_NOT_FOUND, message))
            }
        } else if crate::codec::str_eq(method.as_str(), "initialize") {
            DispatchAction::Terminate {
                message: "Client sent 'initialize' request twice.".to_owned(),
            }
        } else {
            let message = quoted_msg("Method '", method.as_str(), "' not found");
            DispatchAction::Reply(build_error(id, METHOD_NOT_FOUND, message))
        }
    }

    /// Decides what one received message means: the reply to send, the
    /// handler to invoke, or nothing.  This is the whole dispatch rule of
    /// the server, stated by `spec_dispatch`.
    pub fn dispatch_request(&mut self, raw: &Json) -> (a: DispatchAction)
        ensures
            final(self).server == old(self).server,
            (final(self).is_initialized, a.deep_view()) == spec_dispatch(
                old(self).server.deep_view(),
                old(self).is_initialized,
                raw.deep_view(),
            ),
    {
        match decode_notification(raw) {
            Some(n) => {
                if crate::codec::str_eq(n.method.as_str(), "notifications/initialized") {
                    proof {
                        assert(is_initialized_notice(raw.deep_view()));
                    }
                    return DispatchAction::Ignore;
                }
                proof {
                    assert(!is_initialized_notice(raw.deep_view()));
                }
            },
            None => {
                proof {
                    assert(!is_initialized_notice(raw.deep_view()));
                }
            },
        }
        if !self.is_initialized {
            return self.handle_initialize(raw);
        }
        let req = match decode_request(raw) {
            Some(r) => r,
            None => {
                return DispatchAction::Reject {
                    message: "Received a message that is not a request.".to_owned(),
                };
            },
        };
        self.route(req)
    }
}

// --- Laws of the dispatch engine ---

/// Whether an action answers, or owes an answer to, the given request
/// identifier: a reply that carries it, or a handler invocation whose
/// completion will carry it.
pub open spec fn action_replies_to(a: DispatchActionV, id: RequestIdV) -> bool {
    match a {
        DispatchActionV::Reply(j) => ((dec_response(j) matches Some(r) && r.id == id)
            || (crate::codec::dec_error_response(j) matches Some(e) && e.id == id)),
        DispatchActionV::ToolCall { id: i, .. } => i == id,
        DispatchActionV::ListResources { id: i } => i == id,
        DispatchActionV::ReadResource { id: i, .. } => i == id,
        DispatchActionV::ListPrompts { id: i } => i == id,
        DispatchActionV::GetPrompt { id: i, .. } => i == id,
        DispatchActionV::Ignore => false,
        DispatchActionV::Reject { .. } => false,
        DispatchActionV::Terminate { .. } => false,
    }
}

/// Before the handshake completes, no request but `initialize` is served:
/// anything else that is not the initialized notification ends the
/// session without any reply, so no `tools/list` ever succeeds first.
pub proof fn lemma_handshake_comes_first(s: ServerV, m: JsonVal)
    requires
        !is_initialized_notice(m),
        match dec_request(m) {
            Some(req) => req.method != "initialize"@,
            None => true,
        },
    ensures
        !spec_dispatch(s, false, m).0,
        spec_dispatch(s, false, m).1 is Terminate,
{
}

/// A call to a tool that is not registered is answered with exactly the
/// JSON-RPC method-not-found error, code -32601.
pub proof fn lemma_unknown_tool_is_method_not_found(
    s: ServerV,
    req: RequestV,
    p: crate::types::CallToolParamsV,
)
    requires
        req.method == "tools/call"@,
        dec_call_tool_params(req.params) == Some(p),
        spec_find_tool(s.tools, p.name) is None,
    ensures
        spec_route(s, req) == DispatchActionV::Reply(
            spec_error(req.id, METHOD_NOT_FOUND as int, msg_tool_not_found(p.name)),
        ),
        METHOD_NOT_FOUND == -32601,
{
    broadcast use vstd::string::group_string_axioms;

    reveal_strlit("tools/call");
    reveal_strlit("tools/list");
    assert("tools/call"@.len() == 10);
    assert("tools/list"@.len() == 10);
    assert("tools/call"@[6] == 'c');
    assert("tools/list"@[6] == 'l');
}

/// A tool call whose arguments fail to deserialise for a typed tool is
/// answered with a success response whose result is a `CallToolResult`
/// with the error flag set — never with a JSON-RPC error response.
pub proof fn lemma_bad_arguments_are_a_soft_error(
    s: ServerV,
    req: RequestV,
    p: crate::types::CallToolParamsV,
    entry: ToolEntryV,
    fields: Seq<ArgFieldV>,
)
    requires
        req.method == "tools/call"@,
        dec_call_tool_params(req.params) == Some(p),
        spec_find_tool(s.tools, p.name) == Some(entry),
        entry.args == Some(fields),
        !spec_args_conform(fields, p.arguments),
    ensures
        ({
            let a = spec_route(s, req);
            &&& a is Reply
            &&& crate::codec::dec_error_response(a->Reply_0) is None
            &&& match dec_response(a->Reply_0) {
                Some(resp) => {
                    &&& resp.id == req.id
                    &&& dec_call_tool_result(resp.result) == Some(
                        spec_invalid_args_result(
                            p.name,
                            entry.tool.input_schema,
                            crate::schema::spec_args_error(fields, p.arguments),
                        ),
                    )
                    &&& match dec_call_tool_result(resp.result) {
                        Some(result) => result.is_error && result.content
                            == seq![
                            ContentV::Text {
                                text: msg_invalid_args(
                                    p.name,
                                    entry.tool.input_schema,
                                    crate::schema::spec_args_error(fields, p.arguments),
                                ),
                            },
                        ],
                        None => false,
                    }
                },
                None => false,
            }
        }),
{
    broadcast use vstd::string::group_string_axioms;

    reveal_strlit("tools/call");
    reveal_strlit("tools/list");
    reveal_strlit("jsonrpc");
    reveal_strlit("id");
    reveal_strlit("result");
    reveal_strlit("error");
    assert("tools/call"@.len() == 10);
    assert("tools/list"@.len() == 10);
    assert("tools/call"@[6] == 'c');
    assert("tools/list"@[6] == 'l');
    assert("jsonrpc"@.len() == 7);
    assert("id"@.len() == 2);
    assert("result"@.len() == 6);
    assert("error"@.len() == 5);
    let result = spec_invalid_args_result(
        p.name,
        entry.tool.input_schema,
        crate::schema::spec_args_error(fields, p.arguments),
    );
    let rv = ResponseV {
        jsonrpc: "2.0"@,
        id: req.id,
        result: enc_call_tool_result(result),
    };
    crate::codec::lemma_response_round_trip(rv);
    crate::codec::lemma_call_tool_result_round_trip(result);
    let reply = spec_route(s, req)->Reply_0;
    assert(reply == enc_response(rv));
    broadcast use crate::codec::lemma_lookup_push;

    let base = seq![("jsonrpc"@, JsonVal::Str(rv.jsonrpc))];
    assert(crate::codec::lookup(base, "error"@) is None);
    assert(crate::codec::lookup(enc_response(rv)->Obj_0, "error"@) is None);
    assert(crate::codec::dec_error_response(reply) is None);
}

/// Every decoded request on an initialized session, except a repeated
/// `initialize`, is answered, or owes an answer, under exactly its own
/// identifier: one request, one reply.
pub proof fn lemma_request_owes_one_reply(s: ServerV, m: JsonVal, req: RequestV)
    requires
        !is_initialized_notice(m),
        dec_request(m) == Some(req),
        req.method != "initialize"@,
    ensures
        spec_dispatch(s, true, m).0,
        action_replies_to(spec_dispatch(s, true, m).1, req.id),
{
    let a = spec_route(s, req);
    assert(spec_dispatch(s, true, m).1 == a);
    let invalid = ErrorDataV { code: INVALID_PARAMS as int, message: "Invalid parameters"@ };
    if req.method == "tools/list"@ {
        let rv = ResponseV {
            jsonrpc: "2.0"@,
            id: req.id,
            result: enc_list_tools_result(
                crate::types::ListToolsResultV { tools: spec_tools_of(s.tools) },
            ),
        };
        crate::codec::lemma_response_round_trip(rv);
    } else if req.method == "tools/call"@ {
        match dec_call_tool_params(req.params) {
            None => {
                lemma_error_reply_carries_id(req.id, INVALID_PARAMS as int, invalid.message);
            },
            Some(p) => match spec_find_tool(s.tools, p.name) {
                None => {
                    lemma_error_reply_carries_id(
                        req.id,
                        METHOD_NOT_FOUND as int,
                        msg_tool_not_found(p.name),
                    );
                },
                Some(entry) => match entry.args {
                    Some(fields) => if !spec_args_conform(fields, p.arguments) {
                        let rv = ResponseV {
                            jsonrpc: "2.0"@,
                            id: req.id,
                            result: enc_call_tool_result(
                                spec_invalid_args_result(
                                    p.name,
                                    entry.tool.input_schema,
                                    crate::schema::spec_args_error(fields, p.arguments),
                                ),
                            ),
                        };
                        crate::codec::lemma_response_round_trip(rv);
                    } else {
                    },
                    None => {},
                },
            },
        }
    } else if req.method == "resources/list"@ || req.method == "resources/read"@ || req.method
        == "prompts/list"@ || req.method == "prompts/get"@ {
        lemma_error_reply_carries_id(req.id, INVALID_PARAMS as int, invalid.message);
        lemma_error_reply_carries_id(
            req.id,
            METHOD_NOT_FOUND as int,
            msg_no_handler(req.method),
        );
    } else {
        lemma_error_reply_carries_id(
            req.id,
            METHOD_NOT_FOUND as int,
            msg_method_not_found(req.method),
        );
    }
}

proof fn lemma_error_reply_carries_id(id: RequestIdV, code: int, message: Seq<char>)
    requires
        i32::MIN <= code <= i32::MAX,
    ensures
        crate::codec::dec_error_response(spec_error(id, code, message)) == Some(
            ErrorResponseV {
                jsonrpc: "2.0"@,
                id,
                error: ErrorDataV { code, message },
            },
        ),
{
    crate::codec::lemma_error_response_round_trip(
        ErrorResponseV { jsonrpc: "2.0"@, id, error: ErrorDataV { code, message } },
    );
}

/// Whether an action answers or owes an answer at all.
pub open spec fn action_answers(a: DispatchActionV) -> bool {
    !(a is Ignore || a is Reject || a is Terminate)
}

/// Whether one message is a request the session accepts: a decodable
/// request that respects the handshake order.
pub open spec fn accepted_request(s: ServerV, initialized: bool, m: JsonVal) -> bool {
    &&& !is_initialized_notice(m)
    &&& match dec_request(m) {
        Some(req) => if initialized {
            req.method != "initialize"@
        } else {
            req.method == "initialize"@ && dec_initialize_params(req.params) is Some
        },
        None => false,
    }
}

/// One step answers exactly the accepted requests: everything else is
/// ignored or rejected without an answer.
pub proof fn lemma_step_answers_iff_accepted(s: ServerV, initialized: bool, m: JsonVal)
    ensures
        action_answers(spec_dispatch(s, initialized, m).1) == accepted_request(
            s,
            initialized,
            m,
        ),
{
    broadcast use vstd::string::group_string_axioms;

    reveal_strlit("initialize");
    reveal_strlit("tools/list");
    reveal_strlit("tools/call");
    reveal_strlit("resources/list");
    reveal_strlit("resources/read");
    reveal_strlit("prompts/list");
    reveal_strlit("prompts/get");
    assert("initialize"@.len() == 10);
    assert("tools/list"@.len() == 10);
    assert("tools/call"@.len() == 10);
    assert("resources/list"@.len() == 14);
    assert("resources/read"@.len() == 14);
    assert("prompts/list"@.len() == 12);
    assert("prompts/get"@.len() == 11);
    assert("initialize"@[0] == 'i');
    assert("tools/list"@[0] == 't');
    assert("tools/call"@[0] == 't');
    if !is_initialized_notice(m) && dec_request(m) is Some {
        let req = dec_request(m)->0;
        if initialized {
            let a = spec_route(s, req);
            if req.method == "tools/list"@ {
                assert(action_answers(a));
            } else if req.method == "tools/call"@ {
                assert(action_answers(a));
            } else if req.method == "resources/list"@ {
                assert(action_answers(a));
            } else if req.method == "resources/read"@ {
                assert(action_answers(a));
            } else if req.method == "prompts/list"@ {
                assert(action_answers(a));
            } else if req.method == "prompts/get"@ {
                assert(action_answers(a));
            } else if req.method == "initialize"@ {
                assert(a is Terminate);
            } else {
                assert(action_answers(a));
            }
        } else {
            let out = spec_dispatch(s, initialized, m).1;
            if req.method == "initialize"@ {
                if dec_initialize_params(req.params) is Some {
                    assert(action_answers(out));
                } else {
                    assert(out is Terminate);
                }
            } else {
                assert(out is Terminate);
            }
        }
    } else {
        let out = spec_dispatch(s, initialized, m).1;
        if is_initialized_notice(m) {
            assert(out is Ignore);
            assert(!accepted_request(s, initialized, m));
        } else {
            assert(dec_request(m) is None);
            assert(!accepted_request(s, initialized, m));
            if initialized {
                assert(out is Reject);
            } else {
                assert(out is Terminate);
            }
        }
    }
}

/// The states and actions of a whole session run over a message sequence.
pub open spec fn spec_dispatch_seq(s: ServerV, initialized: bool, msgs: Seq<JsonVal>) -> (
    bool,
    Seq<DispatchActionV>,
)
    decreases msgs,
{
    if msgs.len() == 0 {
        (initialized, Seq::empty())
    } else {
        let (st, acts) = spec_dispatch_seq(s, initialized, msgs.drop_last());
        let (st2, a) = spec_dispatch(s, st, msgs.last());
        (st2, acts.push(a))
    }
}

/// How many actions of a run answer or owe an answer.
pub open spec fn count_answers(acts: Seq<DispatchActionV>) -> int
    decreases acts,
{
    if acts.len() == 0 {
        0
    } else {
        count_answers(acts.drop_last()) + if action_answers(acts.last()) {
            1int
        } else {
            0int
        }
    }
}

/// How many messages of a run are accepted requests, each judged in the
/// handshake state it arrives in.
pub open spec fn count_accepted(s: ServerV, initialized: bool, msgs: Seq<JsonVal>) -> int
    decreases msgs,
{
    if msgs.len() == 0 {
        0
    } else {
        let pre = count_accepted(s, initialized, msgs.drop_last());
        let (st, _) = spec_dispatch_seq(s, initialized, msgs.drop_last());
        pre + if accepted_request(s, st, msgs.last()) {
            1int
        } else {
            0int
        }
    }
}

/// Across a whole session, the accepted requests and the answers are in
/// one-to-one correspondence: a session that accepts some number of
/// requests owes exactly that many responses, and notifications add
/// nothing to the count.
pub proof fn lemma_session_answers_each_accepted_request(
    s: ServerV,
    initialized: bool,
    msgs: Seq<JsonVal>,
)
    ensures
        spec_dispatch_seq(s, initialized, msgs).1.len() == msgs.len(),
        count_answers(spec_dispatch_seq(s, initialized, msgs).1) == count_accepted(
            s,
            initialized,
            msgs,
        ),
    decreases msgs,
{
    if msgs.len() > 0 {
        lemma_session_answers_each_accepted_request(s, initialized, msgs.drop_last());
        let (st, acts) = spec_dispatch_seq(s, initialized, msgs.drop_last());
        lemma_step_answers_iff_accepted(s, st, msgs.last());
        let whole = spec_dispatch_seq(s, initialized, msgs).1;
        assert(whole.drop_last() =~= acts);
    }
}

// --- Completion builders ---

/// The reply to a tool call, from the handler's result.
pub fn tool_call_reply(id: RequestId, result: &CallToolResult) -> (out: Json)
    ensures
        out.deep_view() == spec_success(
            id.deep_view(),
            enc_call_tool_result(result.deep_view()),
        ),
{
    build_success(id, encode_call_tool_result(result))
}

/// The reply to `resources/list`, from the handler's resources.
pub fn list_resources_reply(id: RequestId, resources: &Vec<Resource>) -> (out: Json)
    ensures
        out.deep_view() == spec_success(
            id.deep_view(),
            JsonVal::Arr(enc_resource_seq(resources.deep_view())),
        ),
{
    build_success(id, Json::Arr(encode_resource_seq(resources)))
}

/// The reply to `resources/read`, from the handler's result.
pub fn read_resource_reply(id: RequestId, result: &ReadResourceResult) -> (out: Json)
    ensures
        out.deep_view() == spec_success(
            id.deep_view(),
            enc_read_resource_result(result.deep_view()),
        ),
{
    build_success(id, encode_read_resource_result(result))
}

/// The reply to `prompts/list`, from the handler's result.
pub fn list_prompts_reply(id: RequestId, result: &ListPromptsResult) -> (out: Json)
    ensures
        out.deep_view() == spec_success(
            id.deep_view(),
            enc_list_prompts_result(result.deep_view()),
        ),
{
    build_success(id, encode_list_prompts_result(result))
}

/// The reply to `prompts/get`, from the handler's result.
pub fn get_prompt_reply(id: RequestId, result: &GetPromptResult) -> (out: Json)
    ensures
        out.deep_view() == spec_success(
            id.deep_view(),
            enc_get_prompt_result(result.deep_view()),
        ),
{
    build_success(id, encode_get_prompt_result(result))
}

/// The reply when an invoked handler fails: an internal error carrying
/// the handler's message.
pub fn handler_error_reply(id: RequestId, message: String) -> (out: Json)
    ensures
        out.deep_view() == spec_error(id.deep_view(), INTERNAL_ERROR as int, message@),
{
    build_error(id, INTERNAL_ERROR, message)
}

/// The wire text of a notification, for the session outbox.
pub fn notification_to_wire(n: &Notification) -> (out: Vec<char>)
    ensures
        out@ == spec_ser(crate::codec::enc_notification(n.deep_view())),
{
    to_json_chars(&crate::codec::encode_notification(n))
}

} // verus!
