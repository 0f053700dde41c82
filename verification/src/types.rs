//! The typed record vocabulary of the protocol: requests, responses, errors,
//! notifications, capability descriptors, tools, resources, prompts and
//! content variants.
//!
//! Each executable record has a mathematical shadow (its `deep_view`), a
//! struct of sequences and unbounded integers; every contract about records
//! speaks of those shadows.

use vstd::prelude::*;
use crate::json::{Json, JsonVal};

verus! {

// --- JSON-RPC error codes ---

pub const METHOD_NOT_FOUND: i32 = -32601;

pub const INVALID_PARAMS: i32 = -32602;

pub const INTERNAL_ERROR: i32 = -32603;

// --- Request identifiers ---

/// A request identifier: a 64-bit integer or a string.  The two variants are
/// distinct: `Num(1)` never equals `Str("1")`.
#[derive(Debug, Clone, PartialEq, Eq, Hash)]
pub enum RequestId {
    Num(i64),
    Str(String),
}

pub enum RequestIdV {
    Num(int),
    Str(Seq<char>),
}

impl DeepView for RequestId {
    type V = RequestIdV;

    open spec fn deep_view(&self) -> RequestIdV {
        match self {
            RequestId::Num(n) => RequestIdV::Num(*n as int),
            RequestId::Str(s) => RequestIdV::Str(s@),
        }
    }
}

impl RequestId {
    /// A copy whose mathematical value equals this one's.
    pub fn dup(&self) -> (r: RequestId)
        ensures
            r.deep_view() == self.deep_view(),
    {
        match self {
            RequestId::Num(n) => RequestId::Num(*n),
            RequestId::Str(s) => RequestId::Str(s.clone()),
        }
    }

    /// Equality of identifiers, distinguishing the two variants.
    pub fn same_as(&self, other: &RequestId) -> (r: bool)
        ensures
            r == (self.deep_view() == other.deep_view()),
    {
        match self {
            RequestId::Num(a) => {
                match other {
                    RequestId::Num(b) => *a == *b,
                    RequestId::Str(_) => false,
                }
            },
            RequestId::Str(a) => {
                match other {
                    RequestId::Num(_) => false,
                    RequestId::Str(b) => {
                        let r = *a == *b;
                        proof {
                            if self.deep_view() == other.deep_view() {
                                assert(self.deep_view()->Str_0 == other.deep_view()->Str_0);
                            }
                        }
                        r
                    },
                }
            },
        }
    }
}

// --- Error payloads ---

#[derive(Debug, Clone, PartialEq)]
pub struct ErrorData {
    pub code: i32,
    pub message: String,
}

pub struct ErrorDataV {
    pub code: int,
    pub message: Seq<char>,
}

impl DeepView for ErrorData {
    type V = ErrorDataV;

    open spec fn deep_view(&self) -> ErrorDataV {
        ErrorDataV { code: self.code as int, message: self.message@ }
    }
}

// --- Envelopes ---

/// A JSON-RPC request: an identifier, a method name, and parameters.
#[derive(Debug, Clone, PartialEq)]
pub struct Request {
    pub jsonrpc: String,
    pub id: RequestId,
    pub method: String,
    pub params: Json,
}

pub struct RequestV {
    pub jsonrpc: Seq<char>,
    pub id: RequestIdV,
    pub method: Seq<char>,
    pub params: JsonVal,
}

impl DeepView for Request {
    type V = RequestV;

    open spec fn deep_view(&self) -> RequestV {
        RequestV {
            jsonrpc: self.jsonrpc@,
            id: self.id.deep_view(),
            method: self.method@,
            params: self.params.deep_view(),
        }
    }
}

/// A JSON-RPC success response: an identifier and a result.
#[derive(Debug, Clone, PartialEq)]
pub struct Response {
    pub jsonrpc: String,
    pub id: RequestId,
    pub result: Json,
}

pub struct ResponseV {
    pub jsonrpc: Seq<char>,
    pub id: RequestIdV,
    pub result: JsonVal,
}

impl DeepView for Response {
    type V = ResponseV;

    open spec fn deep_view(&self) -> ResponseV {
        ResponseV {
            jsonrpc: self.jsonrpc@,
            id: self.id.deep_view(),
            result: self.result.deep_view(),
        }
    }
}

/// A JSON-RPC error response: an identifier and an error payload.
#[derive(Debug, Clone, PartialEq)]
pub struct ErrorResponse {
    pub jsonrpc: String,
    pub id: RequestId,
    pub error: ErrorData,
}

pub struct ErrorResponseV {
    pub jsonrpc: Seq<char>,
    pub id: RequestIdV,
    pub error: ErrorDataV,
}

impl DeepView for ErrorResponse {
    type V = ErrorResponseV;

    open spec fn deep_view(&self) -> ErrorResponseV {
        ErrorResponseV {
            jsonrpc: self.jsonrpc@,
            id: self.id.deep_view(),
            error: self.error.deep_view(),
        }
    }
}

/// A JSON-RPC notification: a method and optional parameters, and no
/// identifier.
#[derive(Debug, Clone, PartialEq)]
pub struct Notification {
    pub jsonrpc: String,
    pub method: String,
    pub params: Option<Json>,
}

pub struct NotificationV {
    pub jsonrpc: Seq<char>,
    pub method: Seq<char>,
    pub params: Option<JsonVal>,
}

impl DeepView for Notification {
    type V = NotificationV;

    open spec fn deep_view(&self) -> NotificationV {
        NotificationV {
            jsonrpc: self.jsonrpc@,
            method: self.method@,
            params: self.params.deep_view(),
        }
    }
}

/// A response as received from the peer: success or error.
#[derive(Debug, Clone, PartialEq)]
pub enum JSONRPCResponse {
    Success(Response),
    Error(ErrorResponse),
}

pub enum JSONRPCResponseV {
    Success(ResponseV),
    Error(ErrorResponseV),
}

impl DeepView for JSONRPCResponse {
    type V = JSONRPCResponseV;

    open spec fn deep_view(&self) -> JSONRPCResponseV {
        match self {
            JSONRPCResponse::Success(r) => JSONRPCResponseV::Success(r.deep_view()),
            JSONRPCResponse::Error(e) => JSONRPCResponseV::Error(e.deep_view()),
        }
    }
}

// --- Tools ---

/// Annotations a tool may carry: a human title and behavioural hints.
#[derive(Debug, Clone, PartialEq)]
pub struct ToolAnnotations {
    pub title: Option<String>,
    pub read_only_hint: Option<bool>,
    pub destructive_hint: Option<bool>,
}

pub struct ToolAnnotationsV {
    pub title: Option<Seq<char>>,
    pub read_only_hint: Option<bool>,
    pub destructive_hint: Option<bool>,
}

impl DeepView for ToolAnnotations {
    type V = ToolAnnotationsV;

    open spec fn deep_view(&self) -> ToolAnnotationsV {
        ToolAnnotationsV {
            title: self.title.deep_view(),
            read_only_hint: self.read_only_hint,
            destructive_hint: self.destructive_hint,
        }
    }
}

impl Default for ToolAnnotations {
    /// All fields absent.
    fn default() -> (d: Self)
        ensures
            d.deep_view().title is None,
            d.deep_view().read_only_hint is None,
            d.deep_view().destructive_hint is None,
    {
        ToolAnnotations { title: None, read_only_hint: None, destructive_hint: None }
    }
}

/// Definition of a tool a client can call: a unique name, an optional
/// description, the JSON schema of its arguments, and optional annotations.
#[derive(Debug, Clone, PartialEq)]
pub struct Tool {
    pub name: String,
    pub description: Option<String>,
    pub input_schema: Json,
    pub annotations: Option<ToolAnnotations>,
}

pub struct ToolV {
    pub name: Seq<char>,
    pub description: Option<Seq<char>>,
    pub input_schema: JsonVal,
    pub annotations: Option<ToolAnnotationsV>,
}

impl DeepView for Tool {
    type V = ToolV;

    open spec fn deep_view(&self) -> ToolV {
        ToolV {
            name: self.name@,
            description: self.description.deep_view(),
            input_schema: self.input_schema.deep_view(),
            annotations: self.annotations.deep_view(),
        }
    }
}

impl Default for Tool {
    /// An empty name, no description, a null schema and no annotations.
    fn default() -> (d: Self)
        ensures
            d.deep_view().name == Seq::<char>::empty(),
            d.deep_view().description is None,
            d.deep_view().input_schema == JsonVal::Null,
            d.deep_view().annotations is None,
    {
        Tool {
            name: String::new(),
            description: None,
            input_schema: Json::Null,
            annotations: None,
        }
    }
}

impl Tool {
    /// A tool with the given name, description and argument schema, and no
    /// annotations.
    pub fn new(name: String, description: Option<String>, input_schema: Json) -> (t: Tool)
        ensures
            t.deep_view().name == name@,
            t.deep_view().description == description.deep_view(),
            t.deep_view().input_schema == input_schema.deep_view(),
            t.deep_view().annotations is None,
    {
        Tool { name, description, input_schema, annotations: None }
    }

    /// A copy whose mathematical value equals this one's.
    pub fn dup(&self) -> (t: Tool)
        ensures
            t.deep_view() == self.deep_view(),
    {
        let description = match &self.description {
            Some(d) => Some(d.clone()),
            None => None,
        };
        let annotations = match &self.annotations {
            Some(a) => Some(ToolAnnotations {
                title: match &a.title {
                    Some(t) => Some(t.clone()),
                    None => None,
                },
                read_only_hint: a.read_only_hint,
                destructive_hint: a.destructive_hint,
            }),
            None => None,
        };
        Tool {
            name: self.name.clone(),
            description,
            input_schema: self.input_schema.clone(),
            annotations,
        }
    }
}

// --- Resources ---

/// A resource the server can read: an address, a name, and optional
/// description and media type.
#[derive(Debug, Clone, PartialEq)]
pub struct Resource {
    pub uri: String,
    pub name: String,
    pub description: Option<String>,
    pub mime_type: Option<String>,
}

pub struct ResourceV {
    pub uri: Seq<char>,
    pub name: Seq<char>,
    pub description: Option<Seq<char>>,
    pub mime_type: Option<Seq<char>>,
}

impl DeepView for Resource {
    type V = ResourceV;

    open spec fn deep_view(&self) -> ResourceV {
        ResourceV {
            uri: self.uri@,
            name: self.name@,
            description: self.description.deep_view(),
            mime_type: self.mime_type.deep_view(),
        }
    }
}

/// The textual contents of a resource.
#[derive(Debug, Clone, PartialEq)]
pub struct TextResourceContents {
    pub uri: String,
    pub mime_type: Option<String>,
    pub text: String,
}

pub struct TextResourceContentsV {
    pub uri: Seq<char>,
    pub mime_type: Option<Seq<char>>,
    pub text: Seq<char>,
}

impl DeepView for TextResourceContents {
    type V = TextResourceContentsV;

    open spec fn deep_view(&self) -> TextResourceContentsV {
        TextResourceContentsV {
            uri: self.uri@,
            mime_type: self.mime_type.deep_view(),
            text: self.text@,
        }
    }
}

/// The binary contents of a resource, as base64 text.
#[derive(Debug, Clone, PartialEq)]
pub struct BlobResourceContents {
    pub uri: String,
    pub mime_type: Option<String>,
    pub blob: String,
}

pub struct BlobResourceContentsV {
    pub uri: Seq<char>,
    pub mime_type: Option<Seq<char>>,
    pub blob: Seq<char>,
}

impl DeepView for BlobResourceContents {
    type V = BlobResourceContentsV;

    open spec fn deep_view(&self) -> BlobResourceContentsV {
        BlobResourceContentsV {
            uri: self.uri@,
            mime_type: self.mime_type.deep_view(),
            blob: self.blob@,
        }
    }
}

/// The contents of a resource: text or binary.
#[derive(Debug, Clone, PartialEq)]
pub enum ResourceContents {
    Text(TextResourceContents),
    Blob(BlobResourceContents),
}

pub enum ResourceContentsV {
    Text(TextResourceContentsV),
    Blob(BlobResourceContentsV),
}

impl DeepView for ResourceContents {
    type V = ResourceContentsV;

    open spec fn deep_view(&self) -> ResourceContentsV {
        match self {
            ResourceContents::Text(t) => ResourceContentsV::Text(t.deep_view()),
            ResourceContents::Blob(b) => ResourceContentsV::Blob(b.deep_view()),
        }
    }
}

// --- Content items ---

/// One item of tool or prompt output: text, an image, or an embedded
/// resource.
#[derive(Debug, Clone, PartialEq)]
pub enum Content {
    Text { text: String },
    Image { data: String, mime_type: String },
    Resource { resource: ResourceContents },
}

pub enum ContentV {
    Text { text: Seq<char> },
    Image { data: Seq<char>, mime_type: Seq<char> },
    Resource { resource: ResourceContentsV },
}

impl DeepView for Content {
    type V = ContentV;

    open spec fn deep_view(&self) -> ContentV {
        match self {
            Content::Text { text } => ContentV::Text { text: text@ },
            Content::Image { data, mime_type } => ContentV::Image {
                data: data@,
                mime_type: mime_type@,
            },
            Content::Resource { resource } => ContentV::Resource {
                resource: resource.deep_view(),
            },
        }
    }
}

// --- Prompts ---

/// An argument a prompt template accepts.
#[derive(Debug, Clone, PartialEq)]
pub struct PromptArgument {
    pub name: String,
    pub description: Option<String>,
    pub required: Option<bool>,
}

pub struct PromptArgumentV {
    pub name: Seq<char>,
    pub description: Option<Seq<char>>,
    pub required: Option<bool>,
}

impl DeepView for PromptArgument {
    type V = PromptArgumentV;

    open spec fn deep_view(&self) -> PromptArgumentV {
        PromptArgumentV {
            name: self.name@,
            description: self.description.deep_view(),
            required: self.required,
        }
    }
}

/// A prompt template the server offers.
#[derive(Debug, Clone, PartialEq)]
pub struct Prompt {
    pub name: String,
    pub description: Option<String>,
    pub arguments: Option<Vec<PromptArgument>>,
}

pub struct PromptV {
    pub name: Seq<char>,
    pub description: Option<Seq<char>>,
    pub arguments: Option<Seq<PromptArgumentV>>,
}

impl DeepView for Prompt {
    type V = PromptV;

    open spec fn deep_view(&self) -> PromptV {
        PromptV {
            name: self.name@,
            description: self.description.deep_view(),
            arguments: self.arguments.deep_view(),
        }
    }
}

/// One message of a rendered prompt: a role and a content item.
#[derive(Debug, Clone, PartialEq)]
pub struct PromptMessage {
    pub role: String,
    pub content: Content,
}

pub struct PromptMessageV {
    pub role: Seq<char>,
    pub content: ContentV,
}

impl DeepView for PromptMessage {
    type V = PromptMessageV;

    open spec fn deep_view(&self) -> PromptMessageV {
        PromptMessageV { role: self.role@, content: self.content.deep_view() }
    }
}

// --- Result records ---

/// The result of `tools/list`.
#[derive(Debug, Clone, PartialEq)]
pub struct ListToolsResult {
    pub tools: Vec<Tool>,
}

pub struct ListToolsResultV {
    pub tools: Seq<ToolV>,
}

impl DeepView for ListToolsResult {
    type V = ListToolsResultV;

    open spec fn deep_view(&self) -> ListToolsResultV {
        ListToolsResultV { tools: self.tools.deep_view() }
    }
}

/// The result of `tools/call`: ordered content items and an error flag.
#[derive(Debug, Clone, PartialEq)]
pub struct CallToolResult {
    pub content: Vec<Content>,
    pub is_error: bool,
}

pub struct CallToolResultV {
    pub content: Seq<ContentV>,
    pub is_error: bool,
}

impl DeepView for CallToolResult {
    type V = CallToolResultV;

    open spec fn deep_view(&self) -> CallToolResultV {
        CallToolResultV { content: self.content.deep_view(), is_error: self.is_error }
    }
}

impl Default for CallToolResult {
    /// No content and no error.
    fn default() -> (d: Self)
        ensures
            d.deep_view().content == Seq::<ContentV>::empty(),
            !d.deep_view().is_error,
    {
        let d = CallToolResult { content: Vec::new(), is_error: false };
        proof {
            assert(d.content.deep_view() =~= Seq::<ContentV>::empty());
        }
        d
    }
}

/// The result of `resources/read`.
#[derive(Debug, Clone, PartialEq)]
pub struct ReadResourceResult {
    pub contents: Vec<ResourceContents>,
}

pub struct ReadResourceResultV {
    pub contents: Seq<ResourceContentsV>,
}

impl DeepView for ReadResourceResult {
    type V = ReadResourceResultV;

    open spec fn deep_view(&self) -> ReadResourceResultV {
        ReadResourceResultV { contents: self.contents.deep_view() }
    }
}

/// The result of `prompts/list`.
#[derive(Debug, Clone, PartialEq)]
pub struct ListPromptsResult {
    pub prompts: Vec<Prompt>,
}

pub struct ListPromptsResultV {
    pub prompts: Seq<PromptV>,
}

impl DeepView for ListPromptsResult {
    type V = ListPromptsResultV;

    open spec fn deep_view(&self) -> ListPromptsResultV {
        ListPromptsResultV { prompts: self.prompts.deep_view() }
    }
}

/// The result of `prompts/get`.
#[derive(Debug, Clone, PartialEq)]
pub struct GetPromptResult {
    pub description: Option<String>,
    pub messages: Vec<PromptMessage>,
}

pub struct GetPromptResultV {
    pub description: Option<Seq<char>>,
    pub messages: Seq<PromptMessageV>,
}

impl DeepView for GetPromptResult {
    type V = GetPromptResultV;

    open spec fn deep_view(&self) -> GetPromptResultV {
        GetPromptResultV {
            description: self.description.deep_view(),
            messages: self.messages.deep_view(),
        }
    }
}

// --- Handshake records ---

/// The name and version a peer announces about itself.
#[derive(Debug, Clone, PartialEq)]
pub struct Implementation {
    pub name: String,
    pub version: String,
}

pub struct ImplementationV {
    pub name: Seq<char>,
    pub version: Seq<char>,
}

impl DeepView for Implementation {
    type V = ImplementationV;

    open spec fn deep_view(&self) -> ImplementationV {
        ImplementationV { name: self.name@, version: self.version@ }
    }
}

/// The tools sub-capability: whether list-change notifications are used.
#[derive(Debug, Clone, PartialEq)]
pub struct ToolsCapability {
    pub list_changed: Option<bool>,
}

pub struct ToolsCapabilityV {
    pub list_changed: Option<bool>,
}

impl DeepView for ToolsCapability {
    type V = ToolsCapabilityV;

    open spec fn deep_view(&self) -> ToolsCapabilityV {
        ToolsCapabilityV { list_changed: self.list_changed }
    }
}

impl Default for ToolsCapability {
    /// The sub-capability absent.
    fn default() -> (d: Self)
        ensures
            d.deep_view().list_changed is None,
    {
        ToolsCapability { list_changed: None }
    }
}

/// What the client declares it supports.
#[derive(Debug, Clone, PartialEq)]
pub struct ClientCapabilities {
    pub tools: Option<ToolsCapability>,
}

pub struct ClientCapabilitiesV {
    pub tools: Option<ToolsCapabilityV>,
}

impl DeepView for ClientCapabilities {
    type V = ClientCapabilitiesV;

    open spec fn deep_view(&self) -> ClientCapabilitiesV {
        ClientCapabilitiesV { tools: self.tools.deep_view() }
    }
}

impl Default for ClientCapabilities {
    /// No capabilities declared.
    fn default() -> (d: Self)
        ensures
            d.deep_view().tools is None,
    {
        ClientCapabilities { tools: None }
    }
}

/// What the server declares it exposes.
#[derive(Debug, Clone, PartialEq)]
pub struct ServerCapabilities {
    pub tools: Option<ToolsCapability>,
}

pub struct ServerCapabilitiesV {
    pub tools: Option<ToolsCapabilityV>,
}

impl DeepView for ServerCapabilities {
    type V = ServerCapabilitiesV;

    open spec fn deep_view(&self) -> ServerCapabilitiesV {
        ServerCapabilitiesV { tools: self.tools.deep_view() }
    }
}

impl Default for ServerCapabilities {
    /// No capabilities declared.
    fn default() -> (d: Self)
        ensures
            d.deep_view().tools is None,
    {
        ServerCapabilities { tools: None }
    }
}

/// Parameters of the `initialize` request.
#[derive(Debug, Clone, PartialEq)]
pub struct InitializeRequestParams {
    pub protocol_version: String,
    pub capabilities: ClientCapabilities,
    pub client_info: Implementation,
}

pub struct InitializeRequestParamsV {
    pub protocol_version: Seq<char>,
    pub capabilities: ClientCapabilitiesV,
    pub client_info: ImplementationV,
}

impl DeepView for InitializeRequestParams {
    type V = InitializeRequestParamsV;

    open spec fn deep_view(&self) -> InitializeRequestParamsV {
        InitializeRequestParamsV {
            protocol_version: self.protocol_version@,
            capabilities: self.capabilities.deep_view(),
            client_info: self.client_info.deep_view(),
        }
    }
}

/// The result of the `initialize` request.
#[derive(Debug, Clone, PartialEq)]
pub struct InitializeResult {
    pub protocol_version: String,
    pub capabilities: ServerCapabilities,
    pub server_info: Implementation,
}

pub struct InitializeResultV {
    pub protocol_version: Seq<char>,
    pub capabilities: ServerCapabilitiesV,
    pub server_info: ImplementationV,
}

impl DeepView for InitializeResult {
    type V = InitializeResultV;

    open spec fn deep_view(&self) -> InitializeResultV {
        InitializeResultV {
            protocol_version: self.protocol_version@,
            capabilities: self.capabilities.deep_view(),
            server_info: self.server_info.deep_view(),
        }
    }
}

// --- Method parameter records ---

/// Parameters of `tools/list`; the method takes none.
#[derive(Debug, Clone, PartialEq)]
pub struct ListToolsParams {}

/// Parameters of `tools/call`: the tool's name and its arguments.
#[derive(Debug, Clone, PartialEq)]
pub struct CallToolParams {
    pub name: String,
    pub arguments: Json,
}

pub struct CallToolParamsV {
    pub name: Seq<char>,
    pub arguments: JsonVal,
}

impl DeepView for CallToolParams {
    type V = CallToolParamsV;

    open spec fn deep_view(&self) -> CallToolParamsV {
        CallToolParamsV { name: self.name@, arguments: self.arguments.deep_view() }
    }
}

/// Parameters of `resources/list`; the method takes none.
#[derive(Debug, Clone, PartialEq)]
pub struct ListResourcesParams {}

/// Parameters of `resources/read`: the resource's address.
#[derive(Debug, Clone, PartialEq)]
pub struct ReadResourceParams {
    pub uri: String,
}

pub struct ReadResourceParamsV {
    pub uri: Seq<char>,
}

impl DeepView for ReadResourceParams {
    type V = ReadResourceParamsV;

    open spec fn deep_view(&self) -> ReadResourceParamsV {
        ReadResourceParamsV { uri: self.uri@ }
    }
}

/// Parameters of `prompts/list`; the method takes none.
#[derive(Debug, Clone, PartialEq)]
pub struct ListPromptsParams {}

/// Parameters of `prompts/get`: the prompt's name and optional arguments.
#[derive(Debug, Clone, PartialEq)]
pub struct GetPromptParams {
    pub name: String,
    pub arguments: Option<Json>,
}

pub struct GetPromptParamsV {
    pub name: Seq<char>,
    pub arguments: Option<JsonVal>,
}

impl DeepView for GetPromptParams {
    type V = GetPromptParamsV;

    open spec fn deep_view(&self) -> GetPromptParamsV {
        GetPromptParamsV { name: self.name@, arguments: self.arguments.deep_view() }
    }
}

/// Parameters of the tool-list-changed notification; it carries none.
#[derive(Debug, Clone, PartialEq)]
pub struct ListToolsChangedParams {}

// --- The method trait ---

/// A message that carries a `method` field.
pub trait MCPMessage {
    spec fn spec_method(&self) -> Seq<char>;

    fn method(&self) -> (m: &str)
        ensures
            m@ == self.spec_method(),
    ;
}

impl MCPMessage for Request {
    open spec fn spec_method(&self) -> Seq<char> {
        self.method@
    }

    fn method(&self) -> (m: &str) {
        self.method.as_str()
    }
}

impl MCPMessage for Notification {
    open spec fn spec_method(&self) -> Seq<char> {
        self.method@
    }

    fn method(&self) -> (m: &str) {
        self.method.as_str()
    }
}

} // verus!
