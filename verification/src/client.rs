//! The client side: identifier allocation, request construction, the
//! pending-reply map, response correlation and notification routing.
//!
//! The session loop around this core performs the I/O: it sends the
//! requests the core builds, hands every inbound message to
//! [`Client::handle_response`] or [`Client::handle_notification`], and on
//! transport close calls [`Client::shutdown`] and fails every returned
//! identifier's caller with a channel-closed error.

use vstd::prelude::*;
use vstd::string::StrSliceExecFns;
use vstd::string::StringExecFns;
use crate::json::{Json, JsonVal};
use crate::codec::{
    dec_id, dec_jsonrpc_response, dec_notification, decode_id, decode_initialize_result,
    decode_jsonrpc_response, decode_notification, dec_initialize_result, dec_response,
    enc_call_tool_params, enc_empty_params, enc_get_prompt_params, enc_initialize_params,
    enc_read_resource_params, encode_call_tool_params, encode_empty_params,
    encode_get_prompt_params, encode_initialize_params, encode_read_resource_params, lookup,
    obj_get,
};
use crate::types::{
    CallToolParams, ClientCapabilities, ClientCapabilitiesV, ErrorData, ErrorDataV,
    GetPromptParams, Implementation, ImplementationV, InitializeRequestParams,
    InitializeRequestParamsV, InitializeResult, JSONRPCResponse, JSONRPCResponseV,
    ReadResourceParams, Request, RequestId, RequestIdV, RequestV, ToolsCapability,
    ToolsCapabilityV,
};

verus! {

/// The name the client announces about itself.
pub const CLIENT_NAME: &'static str = "mcp-rust-sdk-client";

/// The version the client announces about itself.
pub const CLIENT_VERSION: &'static str = "0.1.0";

// --- The client state ---

/// The state of one client session: the next outgoing identifier, the
/// identifiers still awaiting a reply, the notification methods with a
/// registered handler, and whether the session has ended.
pub struct Client {
    pub next_request_id: i64,
    pub pending: Vec<RequestId>,
    pub handlers: Vec<String>,
    pub closed: bool,
}

pub struct ClientV {
    pub next_request_id: int,
    pub pending: Seq<RequestIdV>,
    pub handlers: Seq<Seq<char>>,
    pub closed: bool,
}

impl DeepView for Client {
    type V = ClientV;

    open spec fn deep_view(&self) -> ClientV {
        ClientV {
            next_request_id: self.next_request_id as int,
            pending: self.pending.deep_view(),
            handlers: self.handlers.deep_view(),
            closed: self.closed,
        }
    }
}

/// Whether an identifier has a pending reply slot.
pub open spec fn pending_contains(p: Seq<RequestIdV>, id: RequestIdV) -> bool {
    exists|i: int| 0 <= i < p.len() && p[i] == id
}

/// The index of an identifier's slot; meaningful only where one exists.
pub open spec fn pending_index(p: Seq<RequestIdV>, id: RequestIdV) -> int
    decreases p,
{
    if p.len() == 0 {
        0
    } else if p[0] == id {
        0
    } else {
        1 + pending_index(p.drop_first(), id)
    }
}

/// The well-formedness of a client: identifiers the client allocated are
/// integers below the counter, and no identifier holds two slots.
pub open spec fn client_wf(c: ClientV) -> bool {
    &&& 1 <= c.next_request_id
    &&& (forall|i: int|
        0 <= i < c.pending.len() ==> (#[trigger] c.pending[i]) is Num && 0 <= c.pending[i]->Num_0
            < c.next_request_id)
    &&& (forall|i: int, j: int| 0 <= i < j < c.pending.len() ==> c.pending[i] != c.pending[j])
}

// --- Specification of the operations ---

/// The handshake request: identifier 0, the protocol version, the
/// client's identity, and the wish to hear of tool-list changes.
pub open spec fn spec_init_params() -> InitializeRequestParamsV {
    InitializeRequestParamsV {
        protocol_version: crate::LATEST_PROTOCOL_VERSION@,
        capabilities: ClientCapabilitiesV {
            tools: Some(ToolsCapabilityV { list_changed: Some(true) }),
        },
        client_info: ImplementationV { name: CLIENT_NAME@, version: CLIENT_VERSION@ },
    }
}

/// Building one outgoing request: the identifier is the counter's value,
/// the counter moves up by one, and the identifier's slot becomes pending.
pub open spec fn spec_begin_request(c: ClientV, method: Seq<char>, params: JsonVal) -> (
    ClientV,
    RequestV,
) {
    (
        ClientV {
            next_request_id: c.next_request_id + 1,
            pending: c.pending.push(RequestIdV::Num(c.next_request_id)),
            ..c
        },
        RequestV {
            jsonrpc: "2.0"@,
            id: RequestIdV::Num(c.next_request_id),
            method,
            params,
        },
    )
}

/// What one inbound message with an identifier does to the client.
#[derive(Debug)]
pub enum ReplyOutcome {
    /// The peer answered with a result value.
    Value(Json),
    /// The peer answered with an error.
    PeerError(ErrorData),
    /// The message carried the identifier but was not a well-formed
    /// response.
    Malformed,
}

pub enum ReplyOutcomeV {
    Value(JsonVal),
    PeerError(ErrorDataV),
    Malformed,
}

impl DeepView for ReplyOutcome {
    type V = ReplyOutcomeV;

    open spec fn deep_view(&self) -> ReplyOutcomeV {
        match self {
            ReplyOutcome::Value(j) => ReplyOutcomeV::Value(j.deep_view()),
            ReplyOutcome::PeerError(e) => ReplyOutcomeV::PeerError(e.deep_view()),
            ReplyOutcome::Malformed => ReplyOutcomeV::Malformed,
        }
    }
}

/// The identifier a message carries, where it has one the codec accepts.
pub open spec fn spec_message_id(m: JsonVal) -> Option<RequestIdV> {
    match m {
        JsonVal::Obj(ms) => match lookup(ms, "id"@) {
            Some(idj) => dec_id(idj),
            None => None,
        },
        _ => None,
    }
}

/// The outcome a well-formed response delivers.
pub open spec fn spec_reply_outcome(m: JsonVal) -> ReplyOutcomeV {
    match dec_jsonrpc_response(m) {
        Some(JSONRPCResponseV::Success(r)) => ReplyOutcomeV::Value(r.result),
        Some(JSONRPCResponseV::Error(e)) => ReplyOutcomeV::PeerError(e.error),
        None => ReplyOutcomeV::Malformed,
    }
}

/// Correlating one inbound message: a pending identifier's slot is
/// consumed and its outcome delivered; a stray identifier changes nothing
/// and delivers nothing.
pub open spec fn spec_handle_response(c: ClientV, m: JsonVal) -> (
    ClientV,
    Option<(RequestIdV, ReplyOutcomeV)>,
) {
    match spec_message_id(m) {
        Some(id) => if pending_contains(c.pending, id) {
            (
                ClientV { pending: c.pending.remove(pending_index(c.pending, id)), ..c },
                Some((id, spec_reply_outcome(m))),
            )
        } else {
            (c, None)
        },
        None => (c, None),
    }
}

// --- The executable operations ---

impl Client {
    /// A fresh client: the handshake identifier 0 is already pending, and
    /// later requests count up from 1.
    pub fn new() -> (c: Client)
        ensures
            c.deep_view().next_request_id == 1,
            c.deep_view().pending =~= seq![RequestIdV::Num(0)],
            c.deep_view().handlers =~= Seq::<Seq<char>>::empty(),
            !c.deep_view().closed,
            client_wf(c.deep_view()),
    {
        let mut pending: Vec<RequestId> = Vec::new();
        pending.push(RequestId::Num(0));
        let c = Client { next_request_id: 1, pending, handlers: Vec::new(), closed: false };
        proof {
            assert(c.pending.deep_view() =~= seq![RequestIdV::Num(0)]);
            assert(c.handlers.deep_view() =~= Seq::<Seq<char>>::empty());
        }
        c
    }

    /// The handshake request, to be sent before anything else.
    pub fn initialize_request(&self) -> (r: Request)
        ensures
            r.deep_view() == (RequestV {
                jsonrpc: "2.0"@,
                id: RequestIdV::Num(0),
                method: "initialize"@,
                params: enc_initialize_params(spec_init_params()),
            }),
    {
        let params = InitializeRequestParams {
            protocol_version: crate::LATEST_PROTOCOL_VERSION.to_owned(),
            capabilities: ClientCapabilities {
                tools: Some(ToolsCapability { list_changed: Some(true) }),
            },
            client_info: Implementation {
                name: CLIENT_NAME.to_owned(),
                version: CLIENT_VERSION.to_owned(),
            },
        };
        proof {
            assert(params.deep_view() == spec_init_params());
        }
        Request {
            jsonrpc: "2.0".to_owned(),
            id: RequestId::Num(0),
            method: "initialize".to_owned(),
            params: encode_initialize_params(&params),
        }
    }

    /// Allocates the next outgoing identifier: the counter's value, after
    /// which the counter moves up, so no identifier is ever handed out
    /// twice.
    pub fn new_request_id(&mut self) -> (id: RequestId)
        requires
            old(self).next_request_id < i64::MAX,
        ensures
            id.deep_view() == RequestIdV::Num(old(self).deep_view().next_request_id),
            final(self).deep_view() == (ClientV {
                next_request_id: old(self).deep_view().next_request_id + 1,
                ..old(self).deep_view()
            }),
    {
        let id = self.next_request_id;
        self.next_request_id = self.next_request_id + 1;
        RequestId::Num(id)
    }

    /// Builds one outgoing request and records its pending slot.
    pub fn begin_request(&mut self, method: &str, params: Json) -> (r: Request)
        requires
            old(self).next_request_id < i64::MAX,
        ensures
            ({
                let (c2, req) = spec_begin_request(
                    old(self).deep_view(),
                    method@,
                    params.deep_view(),
                );
                final(self).deep_view() == c2 && r.deep_view() == req
            }),
            client_wf(old(self).deep_view()) ==> client_wf(final(self).deep_view()),
    {
        let id = self.new_request_id();
        let ghost prev = self.pending.deep_view();
        self.pending.push(id.dup());
        let r = Request {
            jsonrpc: "2.0".to_owned(),
            id,
            method: method.to_owned(),
            params,
        };
        proof {
            assert(self.pending.deep_view() =~= prev.push(
                RequestIdV::Num(old(self).deep_view().next_request_id),
            ));
            let c2 = spec_begin_request(
                old(self).deep_view(),
                method@,
                params.deep_view(),
            ).0;
            assert(final(self).deep_view() == c2);
            if client_wf(old(self).deep_view()) {
                assert forall|i: int, j: int|
                    0 <= i < j < final(self).deep_view().pending.len() implies final(self).deep_view().pending[i] != final(self).deep_view().pending[j] by {
                    if j < prev.len() {
                    } else {
                        assert(final(self).deep_view().pending[j] == RequestIdV::Num(
                            old(self).deep_view().next_request_id,
                        ));
                    }
                }
                assert(client_wf(final(self).deep_view()));
            }
        }
        r
    }

    /// Registers the handler for the tool-list-changed notification.
    /// Registering again replaces the handler; the method list does not
    /// grow.
    pub fn on_tools_list_changed(&mut self)
        ensures
            final(self).deep_view() == (ClientV {
                handlers: if pending_contains_str(
                    old(self).deep_view().handlers,
                    "notifications/tools/list_changed"@,
                ) {
                    old(self).deep_view().handlers
                } else {
                    old(self).deep_view().handlers.push(
                        "notifications/tools/list_changed"@,
                    )
                },
                ..old(self).deep_view()
            }),
    {
        if !self.has_handler("notifications/tools/list_changed") {
            let ghost prev = self.handlers.deep_view();
            self.handlers.push("notifications/tools/list_changed".to_owned());
            proof {
                assert(self.handlers.deep_view() =~= prev.push(
                    "notifications/tools/list_changed"@,
                ));
            }
        }
    }

    /// Whether a handler is registered for the given method.
    pub fn has_handler(&self, method: &str) -> (r: bool)
        ensures
            r == pending_contains_str(self.deep_view().handlers, method@),
    {
        let n = self.handlers.len();
        let mut i: usize = 0;
        while i < n
            invariant
                n == self.handlers@.len(),
                i <= n,
                forall|k: int| 0 <= k < i ==> self.deep_view().handlers[k] != method@,
            decreases n - i,
        {
            if crate::codec::str_eq(self.handlers[i].as_str(), method) {
                proof {
                    assert(self.deep_view().handlers[i as int] == method@);
                }
                return true;
            }
            i = i + 1;
        }
        false
    }

    /// Correlates one inbound message that may carry an identifier.
    ///
    /// A message whose identifier has a pending slot consumes that slot —
    /// exactly once — and returns the identifier with the outcome to
    /// deliver: the result value, the peer's error, or a malformedness
    /// notice.  A stray identifier, or a message without one, is dropped:
    /// nothing is delivered and nothing changes.
    pub fn handle_response(&mut self, raw: &Json) -> (r: Option<(RequestId, ReplyOutcome)>)
        ensures
            ({
                let (c2, out) = spec_handle_response(old(self).deep_view(), raw.deep_view());
                final(self).deep_view() == c2 && r.deep_view() == out
            }),
    {
        let members = match raw {
            Json::Obj(ms) => ms,
            _ => {
                return None;
            },
        };
        let idj = match obj_get(members, "id") {
            Some(j) => j,
            None => {
                return None;
            },
        };
        let id = match decode_id(idj) {
            Some(id) => id,
            None => {
                return None;
            },
        };
        let ghost prev = self.pending.deep_view();
        let n = self.pending.len();
        let mut i: usize = 0;
        while i < n
            invariant
                n == self.pending@.len(),
                i <= n,
                prev == self.pending.deep_view(),
                *self == *old(self),
                prev.len() == n,
                spec_message_id(raw.deep_view()) == Some(id.deep_view()),
                forall|k: int| 0 <= k < i ==> prev[k] != id.deep_view(),
            decreases n - i,
        {
            proof {
                assert(prev[i as int] == self.pending@[i as int].deep_view());
            }
            if self.pending[i].same_as(&id) {
                proof {
                    assert(pending_contains(prev, id.deep_view()));
                    lemma_pending_index_first(prev, id.deep_view(), i as int);
                }
                self.pending.remove(i);
                proof {
                    assert(self.pending.deep_view() =~= prev.remove(i as int));
                }
                let outcome = match decode_jsonrpc_response(raw) {
                    Some(JSONRPCResponse::Success(resp)) => ReplyOutcome::Value(resp.result),
                    Some(JSONRPCResponse::Error(err)) => ReplyOutcome::PeerError(err.error),
                    None => ReplyOutcome::Malformed,
                };
                return Some((id, outcome));
            }
            i = i + 1;
        }
        proof {
            if pending_contains(prev, id.deep_view()) {
                let w = choose|k: int| 0 <= k < prev.len() && prev[k] == id.deep_view();
                assert(false);
            }
        }
        None
    }

    /// Routes one inbound notification: where a handler is registered for
    /// its method, returns the parameters to hand it (null where the
    /// notification carried none); where none is, or the message is not a
    /// notification, returns nothing.
    pub fn handle_notification(&self, raw: &Json) -> (r: Option<Json>)
        ensures
            r.deep_view() == spec_handle_notification(self.deep_view(), raw.deep_view()),
    {
        let n = match decode_notification(raw) {
            Some(n) => n,
            None => {
                return None;
            },
        };
        if self.has_handler(n.method.as_str()) {
            match n.params {
                Some(p) => Some(p),
                None => Some(Json::Null),
            }
        } else {
            None
        }
    }

    /// Ends the session: every still-pending identifier is handed back —
    /// each exactly once — so its caller can be failed with a
    /// channel-closed error, and no slot stays behind.
    pub fn shutdown(&mut self) -> (r: Vec<RequestId>)
        ensures
            r.deep_view() == old(self).deep_view().pending,
            final(self).deep_view() == (ClientV {
                pending: Seq::<RequestIdV>::empty(),
                closed: true,
                ..old(self).deep_view()
            }),
    {
        self.closed = true;
        let mut drained: Vec<RequestId> = Vec::new();
        std::mem::swap(&mut drained, &mut self.pending);
        proof {
            assert(self.pending.deep_view() =~= Seq::<RequestIdV>::empty());
        }
        drained
    }
}

/// Whether a method name is among the registered handler methods.
pub open spec fn pending_contains_str(hs: Seq<Seq<char>>, m: Seq<char>) -> bool {
    exists|i: int| 0 <= i < hs.len() && hs[i] == m
}

/// What a notification delivers: its parameters (null where absent) when
/// its method has a registered handler.
pub open spec fn spec_handle_notification(c: ClientV, m: JsonVal) -> Option<JsonVal> {
    match dec_notification(m) {
        Some(n) => if pending_contains_str(c.handlers, n.method) {
            Some(
                match n.params {
                    Some(p) => p,
                    None => JsonVal::Null,
                },
            )
        } else {
            None
        },
        None => None,
    }
}

proof fn lemma_pending_index_first(p: Seq<RequestIdV>, id: RequestIdV, i: int)
    requires
        0 <= i < p.len(),
        p[i] == id,
        forall|k: int| 0 <= k < i ==> p[k] != id,
    ensures
        pending_index(p, id) == i,
    decreases i,
{
    if i > 0 {
        assert(p.drop_first()[i - 1] == p[i]);
        assert forall|k: int| 0 <= k < i - 1 implies p.drop_first()[k] != id by {
            assert(p.drop_first()[k] == p[k + 1]);
        }
        lemma_pending_index_first(p.drop_first(), id, i - 1);
    }
}

// --- The request builders of the public API ---

impl Client {
    /// The request that asks for the server's tools.
    pub fn list_tools(&mut self) -> (r: Request)
        requires
            old(self).next_request_id < i64::MAX,
        ensures
            ({
                let (c2, req) = spec_begin_request(
                    old(self).deep_view(),
                    "tools/list"@,
                    enc_empty_params(),
                );
                final(self).deep_view() == c2 && r.deep_view() == req
            }),
    {
        self.begin_request("tools/list", encode_empty_params())
    }

    /// The request that invokes a tool with the given arguments.
    pub fn call_tool(&mut self, name: String, arguments: Json) -> (r: Request)
        requires
            old(self).next_request_id < i64::MAX,
        ensures
            ({
                let (c2, req) = spec_begin_request(
                    old(self).deep_view(),
                    "tools/call"@,
                    enc_call_tool_params(
                        crate::types::CallToolParamsV {
                            name: name@,
                            arguments: arguments.deep_view(),
                        },
                    ),
                );
                final(self).deep_view() == c2 && r.deep_view() == req
            }),
    {
        let params = CallToolParams { name, arguments };
        self.begin_request("tools/call", encode_call_tool_params(&params))
    }

    /// The request that asks for the server's resources.
    pub fn list_resources(&mut self) -> (r: Request)
        requires
            old(self).next_request_id < i64::MAX,
        ensures
            ({
                let (c2, req) = spec_begin_request(
                    old(self).deep_view(),
                    "resources/list"@,
                    enc_empty_params(),
                );
                final(self).deep_view() == c2 && r.deep_view() == req
            }),
    {
        self.begin_request("resources/list", encode_empty_params())
    }

    /// The request that reads one resource.
    pub fn read_resource(&mut self, uri: String) -> (r: Request)
        requires
            old(self).next_request_id < i64::MAX,
        ensures
            ({
                let (c2, req) = spec_begin_request(
                    old(self).deep_view(),
                    "resources/read"@,
                    enc_read_resource_params(crate::types::ReadResourceParamsV { uri: uri@ }),
                );
                final(self).deep_view() == c2 && r.deep_view() == req
            }),
    {
        let params = ReadResourceParams { uri };
        self.begin_request("resources/read", encode_read_resource_params(&params))
    }

    /// The request that asks for the server's prompts.
    pub fn list_prompts(&mut self) -> (r: Request)
        requires
            old(self).next_request_id < i64::MAX,
        ensures
            ({
                let (c2, req) = spec_begin_request(
                    old(self).deep_view(),
                    "prompts/list"@,
                    enc_empty_params(),
                );
                final(self).deep_view() == c2 && r.deep_view() == req
            }),
    {
        self.begin_request("prompts/list", encode_empty_params())
    }

    /// The request that renders one prompt.
    pub fn get_prompt(&mut self, name: String, arguments: Option<Json>) -> (r: Request)
        requires
            old(self).next_request_id < i64::MAX,
        ensures
            ({
                let (c2, req) = spec_begin_request(
                    old(self).deep_view(),
                    "prompts/get"@,
                    enc_get_prompt_params(
                        crate::types::GetPromptParamsV {
                            name: name@,
                            arguments: arguments.deep_view(),
                        },
                    ),
                );
                final(self).deep_view() == c2 && r.deep_view() == req
            }),
    {
        let params = GetPromptParams { name, arguments };
        self.begin_request("prompts/get", encode_get_prompt_params(&params))
    }

    /// Checks the handshake reply: a success response whose identifier is
    /// 0, carrying a decodable handshake result.  Anything else fails the
    /// connection attempt.
    pub fn check_init_response(raw: &Json) -> (r: Option<InitializeResult>)
        ensures
            r.deep_view() == spec_check_init_response(raw.deep_view()),
    {
        let resp = match crate::codec::decode_response(raw) {
            Some(resp) => resp,
            None => {
                return None;
            },
        };
        let zero = RequestId::Num(0);
        if !resp.id.same_as(&zero) {
            return None;
        }
        decode_initialize_result(&resp.result)
    }
}

/// What the handshake reply must be for `connect` to succeed.
pub open spec fn spec_check_init_response(m: JsonVal) -> Option<
    crate::types::InitializeResultV,
> {
    match dec_response(m) {
        Some(resp) => if resp.id == RequestIdV::Num(0) {
            dec_initialize_result(resp.result)
        } else {
            None
        },
        None => None,
    }
}

// --- Laws of the client session ---

/// Outgoing request identifiers on one session are strictly increasing,
/// and so never repeat: of two requests begun in order, the second's
/// identifier is strictly the larger.
pub proof fn lemma_ids_strictly_increase(
    c: ClientV,
    m1: Seq<char>,
    p1: JsonVal,
    m2: Seq<char>,
    p2: JsonVal,
)
    ensures
        ({
            let (c1, r1) = spec_begin_request(c, m1, p1);
            let (c2, r2) = spec_begin_request(c1, m2, p2);
            r1.id is Num && r2.id is Num && r1.id->Num_0 < r2.id->Num_0
        }),
{
}

/// A fresh identifier never collides with any identifier already pending:
/// a reply slot, once consumed, can never be filled again.
pub proof fn lemma_no_identifier_reuse(c: ClientV, m: Seq<char>, p: JsonVal)
    requires
        client_wf(c),
    ensures
        !pending_contains(c.pending, spec_begin_request(c, m, p).1.id),
{
    let id = spec_begin_request(c, m, p).1.id;
    if pending_contains(c.pending, id) {
        let w = choose|i: int| 0 <= i < c.pending.len() && c.pending[i] == id;
        assert(c.pending[w]->Num_0 < c.next_request_id);
    }
}

/// A response's identifier is delivered only where it matches a request
/// previously sent and still unanswered; a stray is dropped silently,
/// changing nothing.
pub proof fn lemma_stray_dropped(c: ClientV, m: JsonVal)
    requires
        match spec_message_id(m) {
            Some(id) => !pending_contains(c.pending, id),
            None => true,
        },
    ensures
        spec_handle_response(c, m) == (c, None::<(RequestIdV, ReplyOutcomeV)>),
{
}

/// Exactly one reply reaches each caller: the first matching response
/// consumes the identifier's slot, so a second response with the same
/// identifier is a stray and delivers nothing.
pub proof fn lemma_reply_delivered_once(c: ClientV, m1: JsonVal, m2: JsonVal)
    requires
        client_wf(c),
        spec_message_id(m1) is Some,
        pending_contains(c.pending, spec_message_id(m1)->0),
        spec_message_id(m2) == spec_message_id(m1),
    ensures
        spec_handle_response(c, m1).1 == Some(
            (spec_message_id(m1)->0, spec_reply_outcome(m1)),
        ),
        spec_handle_response(spec_handle_response(c, m1).0, m2).1 == None::<(
            RequestIdV,
            ReplyOutcomeV,
        )>,
{
    let id = spec_message_id(m1)->0;
    let p = c.pending;
    lemma_pending_index_of_contains(p, id);
    let ix = pending_index(p, id);
    let p2 = p.remove(ix);
    if pending_contains(p2, id) {
        let w = choose|i: int| 0 <= i < p2.len() && p2[i] == id;
        if w < ix {
            assert(p[w] == id && p[ix] == id);
        } else {
            assert(p[w + 1] == id && p[ix] == id);
        }
    }
}

proof fn lemma_pending_index_of_contains(p: Seq<RequestIdV>, id: RequestIdV)
    requires
        pending_contains(p, id),
    ensures
        0 <= pending_index(p, id) < p.len(),
        p[pending_index(p, id)] == id,
    decreases p,
{
    if p.len() > 0 && p[0] != id {
        let w = choose|i: int| 0 <= i < p.len() && p[i] == id;
        assert(p.drop_first()[w - 1] == id);
        lemma_pending_index_of_contains(p.drop_first(), id);
    }
}

/// After shutdown every pending caller is failed exactly once: the
/// drained identifiers are exactly the pending ones, and nothing stays
/// pending, so any await completes with the channel-closed failure.
pub proof fn lemma_shutdown_fails_all(c: ClientV, drained: Seq<RequestIdV>, c2: ClientV)
    requires
        drained == c.pending,
        c2 == (ClientV { pending: Seq::<RequestIdV>::empty(), closed: true, ..c }),
    ensures
        forall|id: RequestIdV|
            pending_contains(c.pending, id) ==> pending_contains(drained, id),
        forall|id: RequestIdV| !pending_contains(c2.pending, id),
{
}

} // verus!
